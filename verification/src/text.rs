//! Building and editing texts character by character.

use vstd::prelude::*;

verus! {

/// `String::push`: the character is appended.
pub assume_specification[ String::push ](text: &mut String, c: char)
    ensures
        final(text)@ == old(text)@.push(c),
;

/// `String::pop`: the last character is removed and returned; an empty text
/// is left as it is.
pub assume_specification[ String::pop ](text: &mut String) -> (last: Option<char>)
    ensures
        old(text)@.len() == 0 ==> last is None && final(text)@ == old(text)@,
        old(text)@.len() > 0 ==> last == Some(old(text)@.last()) && final(text)@ == old(
            text,
        )@.drop_last(),
;

/// The characters of `s`, in order.
pub fn chars_of(s: &str) -> (v: Vec<char>)
    ensures
        v@ == s@,
{
    let mut v: Vec<char> = Vec::new();
    for c in it: s.chars()
        invariant
            it.seq() == s@,
            v@ == s@.take(it.index() as int),
    {
        v.push(c);
    }
    v
}

/// Whether `c` is one of the capitals `A` to `Z`.
pub open spec fn is_ascii_capital(c: char) -> bool {
    'A' <= c && c <= 'Z'
}

/// Whether `text` holds one of the capitals `A` to `Z`.
pub open spec fn holds_ascii_capital(text: Seq<char>) -> bool {
    exists|i: int| 0 <= i < text.len() && is_ascii_capital(#[trigger] text[i])
}

/// Whether `text` holds one of the capitals `A` to `Z`.
pub fn has_ascii_capital(text: &str) -> (found: bool)
    ensures
        found == holds_ascii_capital(text@),
{
    let mut found = false;
    for c in it: text.chars()
        invariant
            it.seq() == text@,
            found == holds_ascii_capital(text@.take(it.index() as int)),
    {
        let ghost front = text@.take(it.index() as int);
        let ghost longer = text@.take(it.index() + 1);
        proof {
            assert(longer =~= front.push(c));
            if holds_ascii_capital(front) {
                let at = choose|at: int| 0 <= at < front.len() && is_ascii_capital(front[at]);
                assert(is_ascii_capital(longer[at]));
            }
            if is_ascii_capital(c) {
                assert(is_ascii_capital(longer[front.len() as int]));
            }
            if holds_ascii_capital(longer) {
                let at = choose|at: int| 0 <= at < longer.len() && is_ascii_capital(longer[at]);
                if at < front.len() {
                    assert(is_ascii_capital(front[at]));
                }
            }
        }
        if c >= 'A' && c <= 'Z' {
            found = true;
        }
    }
    proof {
        assert(text@.take(text@.len() as int) =~= text@);
    }
    found
}

/// `n` spaces.
pub open spec fn blanks(n: nat) -> Seq<char> {
    Seq::new(n, |i: int| ' ')
}

/// A text of `n` spaces.
pub fn spaces(n: usize) -> (text: String)
    ensures
        text@ == blanks(n as nat),
{
    let mut text = String::new();
    let mut i: usize = 0;
    while i < n
        invariant
            i <= n,
            text@ == blanks(i as nat),
        decreases n - i,
    {
        text.push(' ');
        i = i + 1;
        assert(text@ =~= blanks(i as nat));
    }
    text
}

} // verus!
