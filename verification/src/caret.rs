//! Caret positions counted in characters.
//!
//! The editor's text fields count in characters, strings in bytes; these are
//! the conversions the editor leans on.

use vstd::prelude::*;

use crate::text::{chars_of, slice_of, string_of};

verus! {

/// Split a string at a character index (not a byte index); an index past
/// the end puts everything in the head.
pub fn split_at_char(s: &str, index: usize) -> (r: (String, String))
    ensures
        r.0@ == s@.take(if index <= s@.len() {
            index as int
        } else {
            s@.len() as int
        }),
        r.1@ == s@.skip(if index <= s@.len() {
            index as int
        } else {
            s@.len() as int
        }),
{
    let c = chars_of(s);
    let n = c.len();
    let k = if index <= n {
        index
    } else {
        n
    };
    let head = slice_of(c.as_slice(), 0, k);
    let tail = slice_of(c.as_slice(), k, n);
    proof {
        assert(head@ =~= s@.take(k as int));
        assert(tail@ =~= s@.skip(k as int));
    }
    (string_of(head.as_slice()), string_of(tail.as_slice()))
}

/// The length in characters.
pub fn char_len(s: &str) -> (r: usize)
    ensures
        r == s@.len(),
{
    chars_of(s).len()
}

} // verus!
