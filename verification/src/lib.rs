//! An incremental fuzzy finder for files: the user types a query, the list of
//! candidates is ranked anew at every key, and the selected match is shown in
//! a preview pane. This library holds the rules of such a session, each with
//! a contract that is machine-checked.
//!
//! - [`matching`]: scoring one candidate with the `nucleo` matcher.
//! - [`ranking`]: the ranked result list of a query.
//! - [`ui`]: the state of a session, the change a key makes to it, and what
//!   the screen shows of it.
//! - [`preview`] and [`highlight`]: what the preview pane holds, and the lines
//!   of a file that go into it.
//! - [`fuzzy_logic`]: a scorer of its own with a closed formula, by the
//!   leftmost subsequence match, for use where no matcher engine is wanted.
//! - [`cli`] and [`text`]: the command line's arguments, and small helpers on
//!   texts.
//!
//! Reading keys, files and directories and painting the screen are left to
//! the program around the library.

pub mod cli;
pub mod fuzzy_logic;
pub mod highlight;
pub mod matching;
pub mod preview;
pub mod ranking;
pub mod text;
pub mod ui;
