//! What the command line says.

use vstd::prelude::*;

verus! {

/// The arguments of the program.
#[derive(Clone, Debug, PartialEq, Eq)]
pub struct Args {
    /// The directory whose files are searched.
    pub path: String,
}

/// Whether hidden files are among the candidates. They are not.
pub const INCLUDE_HIDDEN: bool = false;

/// The directory that is searched where none is named: the current one.
pub open spec fn default_path() -> Seq<char> {
    "."@
}

impl Default for Args {
    /// The arguments of a call that names no directory.
    fn default() -> (args: Self)
        ensures
            args.path@ == default_path(),
    {
        Args { path: ".".to_owned() }
    }
}

} // verus!
