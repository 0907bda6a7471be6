//! Small pieces the interface is built from that are not drawing.

use vstd::prelude::*;

use crate::text::{chars_of, slice_of, string_of};

verus! {

/// Watches for a click that lands outside a popover, so it can close itself.
pub struct Dismisser {
    pub opened_on: u64,
}

impl Dismisser {
    /// Whether frame `frame_no` is past the click that opened the popover
    /// (that frame and the one after it), so a click now is a new one.
    pub fn past_opening(&self, frame_no: u64) -> (r: bool)
        ensures
            r == (frame_no > self.opened_on + 1),
    {
        if self.opened_on == u64::MAX {
            return false;
        }
        frame_no > self.opened_on + 1
    }
}

/// Cut down to `max` characters (never fewer than four), the last one an
/// ellipsis, if it is longer than that.
pub open spec fn elided(s: Seq<char>, max: nat) -> Seq<char> {
    let m = if max < 4 {
        4
    } else {
        max
    };
    if s.len() <= m {
        s
    } else {
        s.take(m - 1).push('\u{2026}')
    }
}

pub fn elide(s: &str, max: usize) -> (r: String)
    ensures
        r@ == elided(s@, max as nat),
{
    let m = if max < 4 {
        4
    } else {
        max
    };
    let c = chars_of(s);
    if c.len() <= m {
        return string_of(c.as_slice());
    }
    let mut head = slice_of(c.as_slice(), 0, m - 1);
    head.push('\u{2026}');
    proof {
        assert(head@ =~= s@.take(m - 1).push('\u{2026}'));
    }
    string_of(head.as_slice())
}

} // verus!
