//! Small conversions between character sequences and strings.

use vstd::prelude::*;

verus! {

/// Builds a `String` out of characters, in order.
///
/// Trusted: wraps `<String as FromIterator<&char>>::from_iter` (through
/// `Iterator::collect`), which std documents as appending each character in
/// turn; the contract says the string holds exactly those characters.
#[verifier::external_body]
pub(crate) fn string_from_chars(chars: &Vec<char>) -> (s: String)
    ensures
        s@ == chars@,
{
    chars.iter().collect()
}

/// The characters of a string slice, in order.
pub fn chars_of(s: &str) -> (v: Vec<char>)
    ensures
        v@ == s@,
{
    let mut v: Vec<char> = Vec::new();
    for c in iter: s.chars()
        invariant
            iter.seq() == s@,
            v@ == iter.seq().take(iter.index() as int),
    {
        assert(iter.seq().take(iter.index() + 1) =~= v@.push(c));
        v.push(c);
    }
    assert(v@ =~= s@);
    v
}

} // verus!
