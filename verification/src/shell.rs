//! What the shell writes around the script: short labels, how long ago, and
//! the script a new user starts from.

use vstd::prelude::*;

use crate::model::{max_id, BlockV, Document, Element, Meta};
use crate::storage::views;
use crate::text::{
    chars_of, dec, decimal_u64, find, find_chars, lower, push_all, push_str, slice_of, string_of,
    to_lower,
};

verus! {

/// Cut down to `max` characters, the last one an ellipsis, if it is longer
/// than that.
pub open spec fn truncated(s: Seq<char>, max: nat) -> Seq<char> {
    if s.len() <= max {
        s
    } else {
        s.take(if max >= 1 {
            max - 1
        } else {
            0
        }).push('\u{2026}')
    }
}

pub fn truncate(s: &str, max: usize) -> (r: String)
    ensures
        r@ == truncated(s@, max as nat),
{
    let c = chars_of(s);
    if c.len() <= max {
        return string_of(c.as_slice());
    }
    let keep = if max >= 1 {
        max - 1
    } else {
        0
    };
    let mut head = slice_of(c.as_slice(), 0, keep);
    head.push('\u{2026}');
    proof {
        assert(head@ =~= s@.take(keep as int).push('\u{2026}'));
    }
    string_of(head.as_slice())
}

/// How long ago, in the library's words, something was that happened
/// `elapsed` seconds ago; `None` is a time that has not come yet.
pub open spec fn ago(elapsed: Option<u64>) -> Seq<char> {
    match elapsed {
        None => "now"@,
        Some(s) => if s < 90 {
            "just now"@
        } else if s < 3600 {
            dec((s / 60) as nat) + "m ago"@
        } else if s < 86_400 {
            dec((s / 3600) as nat) + "h ago"@
        } else {
            dec((s / 86_400) as nat) + "d ago"@
        },
    }
}

pub fn relative_time(elapsed: Option<u64>) -> (r: String)
    ensures
        r@ == ago(elapsed),
{
    let mut out: Vec<char> = Vec::new();
    match elapsed {
        None => push_str(&mut out, "now"),
        Some(s) => {
            if s < 90 {
                push_str(&mut out, "just now");
            } else if s < 3600 {
                push_all(&mut out, decimal_u64(s / 60).as_slice());
                push_str(&mut out, "m ago");
            } else if s < 86_400 {
                push_all(&mut out, decimal_u64(s / 3600).as_slice());
                push_str(&mut out, "h ago");
            } else {
                push_all(&mut out, decimal_u64(s / 86_400).as_slice());
                push_str(&mut out, "d ago");
            }
        },
    }
    proof {
        assert(Seq::<char>::empty() + "now"@ =~= "now"@);
        assert(Seq::<char>::empty() + "just now"@ =~= "just now"@);
    }
    string_of(out.as_slice())
}

/// The script a new user opens on: a scene to show what each element looks
/// like.
pub open spec fn starter_blocks() -> Seq<BlockV> {
    seq![
        BlockV { id: 2, element: Element::SceneHeading, text: "INT. EDIT BAY - NIGHT"@, note: seq![], tint: None },
        BlockV {
            id: 3,
            element: Element::Action,
            text: "Monitors glow. Coffee gone cold. A cursor blinks in an empty document."@,
            note: seq![],
            tint: None,
        },
        BlockV { id: 4, element: Element::Character, text: "THE WRITER"@, note: seq![], tint: None },
        BlockV { id: 5, element: Element::Parenthetical, text: "(to no one)"@, note: seq![], tint: None },
        BlockV { id: 6, element: Element::Dialogue, text: "Alright. Page one."@, note: seq![], tint: None },
        BlockV { id: 7, element: Element::Transition, text: "SMASH CUT TO:"@, note: seq![], tint: None },
    ]
}

/// A new script, dated `draft` (today, as the title page writes it).
pub fn starter_document(draft: &str) -> (r: Document)
    ensures
        r.meta.title@ == "Untitled Script"@,
        r.meta.draft@ == draft@,
        r.meta.author@.len() == 0,
        r.meta.contact@.len() == 0,
        !r.meta.starred,
        views(r.blocks@) == starter_blocks(),
        r.counter() == 8,
        r.ids_fresh(),
{
    let mut meta = Meta::default();
    meta.title = "Untitled Script".to_owned();
    meta.draft = draft.to_owned();
    let mut doc = Document { meta, blocks: Vec::new(), next_id: 2 };
    doc.push(Element::SceneHeading, "INT. EDIT BAY - NIGHT");
    doc.push(
        Element::Action,
        "Monitors glow. Coffee gone cold. A cursor blinks in an empty document.",
    );
    doc.push(Element::Character, "THE WRITER");
    doc.push(Element::Parenthetical, "(to no one)");
    doc.push(Element::Dialogue, "Alright. Page one.");
    doc.push(Element::Transition, "SMASH CUT TO:");
    proof {
        let bs = doc.blocks@;
        assert(bs.len() == 6);
        assert forall|i: int| 0 <= i < 6 implies #[trigger] bs[i].note@ =~= Seq::<char>::empty() by {}
        assert(bs[0] == bs.drop_last().drop_last().drop_last().drop_last().drop_last()[0]);
        assert(bs[1] == bs.drop_last().drop_last().drop_last().drop_last()[1]);
        assert(bs[2] == bs.drop_last().drop_last().drop_last()[2]);
        assert(bs[3] == bs.drop_last().drop_last()[3]);
        assert(bs[4] == bs.drop_last()[4]);
        assert(views(bs) =~= starter_blocks());
        lemma_max_id_starter(bs);
    }
    doc.reseed_ids();
    doc
}

proof fn lemma_max_id_starter(bs: Seq<crate::model::Block>)
    requires
        bs.len() == 6,
        forall|i: int| 0 <= i < 6 ==> #[trigger] bs[i].id == i + 2,
    ensures
        max_id(bs) == 7,
{
    let b1 = bs.drop_last();
    let b2 = b1.drop_last();
    let b3 = b2.drop_last();
    let b4 = b3.drop_last();
    let b5 = b4.drop_last();
    let b6 = b5.drop_last();
    assert(b6.len() == 0);
    assert(max_id(b6) == 0);
    assert(b5.last() == bs[0]);
    assert(b4.last() == bs[1]);
    assert(b3.last() == bs[2]);
    assert(b2.last() == bs[3]);
    assert(b1.last() == bs[4]);
    assert(max_id(b5) == 2);
    assert(max_id(b4) == 3);
    assert(max_id(b3) == 4);
    assert(max_id(b2) == 5);
    assert(max_id(b1) == 6);
}

/// Whether a script's row stays in the library while it is searched for
/// `search`: always for an empty search, else where the title or the
/// preview holds it, capitals or not.
pub open spec fn shows_for(search: Seq<char>, title: Seq<char>, preview: Seq<char>) -> bool {
    let needle = lower(search);
    ||| needle.len() == 0
    ||| find(lower(title), needle) is Some
    ||| find(lower(preview), needle) is Some
}

pub fn shows_in_search(search: &str, title: &str, preview: &str) -> (r: bool)
    ensures
        r == shows_for(search@, title@, preview@),
{
    let needle = to_lower(chars_of(search).as_slice());
    if needle.len() == 0 {
        return true;
    }
    let t = to_lower(chars_of(title).as_slice());
    if find_chars(t.as_slice(), needle.as_slice()).is_some() {
        return true;
    }
    let p = to_lower(chars_of(preview).as_slice());
    find_chars(p.as_slice(), needle.as_slice()).is_some()
}

} // verus!
