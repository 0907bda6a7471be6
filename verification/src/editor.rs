//! What the editor knows besides drawing: every structural keystroke on the
//! page — splitting, retyping, merging, moving and fanning out blocks — where
//! the caret goes after it, and what an empty block says before anything is
//! typed in it.

use vstd::prelude::*;

use crate::model::{
    base_character, cue_name, cycled, first_with_id, guess_element, guessed, lemma_first_with_id, next_on_enter, upper_element,
    Block, BlockV, Document, Element,
};
use crate::storage::views;
use crate::text::{
    contains_char, find, chars_of, lower, same, to_lower, push_all, push_str, slice_of, split_on, split_on_chars, string_of, to_upper, trim,
    trim_chars, trim_end, trim_end_chars_by, upper, Strip,
};

verus! {

/// Where the caret goes when a block takes the focus.
#[derive(Clone, Copy, PartialEq, Eq, Debug, Structural)]
pub enum Caret {
    Start,
    End,
    At(usize),
    /// Select a run of characters — a find result.
    Range(usize, usize),
}

/// The grey hint an empty block of this element shows.
pub fn hint_for(e: Element) -> (r: &'static str)
    ensures
        r@ == (match e {
            Element::SceneHeading => "INT. LOCATION - DAY"@,
            Element::Action => "What we see and hear."@,
            Element::Character => "CHARACTER"@,
            Element::Parenthetical => "(under her breath)"@,
            Element::Dialogue => "What they say."@,
            Element::Transition => "CUT TO:"@,
            Element::Shot => "ANGLE ON"@,
        }),
{
    match e {
        Element::SceneHeading => "INT. LOCATION - DAY",
        Element::Action => "What we see and hear.",
        Element::Character => "CHARACTER",
        Element::Parenthetical => "(under her breath)",
        Element::Dialogue => "What they say.",
        Element::Transition => "CUT TO:",
        Element::Shot => "ANGLE ON",
    }
}


/// A structural keystroke on the page.
pub enum Act {
    /// Enter (or Shift+Enter, `same`) at character `at` of the block.
    Split { id: u64, at: usize, same: bool },
    /// Retype the block, the caret going to `at`.
    SetElement { id: u64, element: Element, at: usize },
    /// Backspace at the head of the block.
    MergePrev { id: u64 },
    /// Delete at the end of the block.
    MergeNext { id: u64 },
    /// Up at the head of the block.
    FocusPrev { id: u64 },
    /// Down at the end of the block.
    FocusNext { id: u64 },
    /// Alt+Up.
    MoveUp { id: u64 },
    /// Alt+Down.
    MoveDown { id: u64 },
    /// A paste that carried newlines, to be fanned out into typed blocks.
    Explode { id: u64 },
    /// Tab taking the rest of a smart-type suggestion.
    Accept { id: u64, rest: String },
}

/// What a keystroke came to: whether the document changed, and where the
/// caret is to go, if anywhere new.
pub struct Applied {
    pub changed: bool,
    pub focus: Option<(u64, Caret)>,
}

/// What a keystroke does, as the specifications see it: the blocks after
/// it, the id counter after it, whether anything changed, where the caret
/// goes.
pub ghost struct Outcome {
    pub blocks: Seq<BlockV>,
    pub next: nat,
    pub changed: bool,
    pub focus: Option<(u64, Caret)>,
}

/// The first block with id `id`.
pub open spec fn pos_of(bs: Seq<BlockV>, id: u64) -> Option<int>
    decreases bs.len(),
{
    if bs.len() == 0 {
        None
    } else if bs[0].id == id {
        Some(0)
    } else {
        match pos_of(bs.drop_first(), id) {
            Some(k) => Some(k + 1),
            None => None,
        }
    }
}

pub(crate) proof fn lemma_pos_of(bs: Seq<Block>, id: u64)
    ensures
        pos_of(views(bs), id) == first_with_id(bs, id),
        pos_of(views(bs), id) matches Some(k) ==> 0 <= k < bs.len() && bs[k].id == id,
    decreases bs.len(),
{
    lemma_first_with_id(bs, id);
    if bs.len() > 0 {
        assert(views(bs)[0] == bs[0]@);
        assert(views(bs).drop_first() =~= views(bs.drop_first()));
        lemma_pos_of(bs.drop_first(), id);
    }
}

/// Nothing happens.
pub open spec fn unchanged(bs: Seq<BlockV>, next: nat) -> Outcome {
    Outcome { blocks: bs, next, changed: false, focus: None }
}

/// A block's text in capitals where its element prints in capitals.
pub open spec fn cased(e: Element, t: Seq<char>) -> Seq<char> {
    if upper_element(e) {
        upper(t)
    } else {
        t
    }
}

/// The blocks a pasted line fans out into so far, the element above the
/// next line, and the id counter.
pub open spec fn fan_step(st: (Seq<BlockV>, Element, nat), line: Seq<char>) -> (
    Seq<BlockV>,
    Element,
    nat,
) {
    let t = trim(line);
    if t.len() == 0 {
        (st.0, Element::Action, st.2)
    } else {
        let e = guessed(t, Some(st.1));
        (
            st.0.push(
                BlockV { id: st.2 as u64, element: e, text: cased(e, t), note: seq![], tint: None },
            ),
            e,
            st.2 + 1,
        )
    }
}

pub open spec fn fan_out(ls: Seq<Seq<char>>, st: (Seq<BlockV>, Element, nat)) -> (
    Seq<BlockV>,
    Element,
    nat,
)
    decreases ls.len(),
{
    if ls.len() == 0 {
        st
    } else {
        fan_step(fan_out(ls.drop_last(), st), ls.last())
    }
}

pub open spec fn split_outcome(bs: Seq<BlockV>, next: nat, id: u64, at: usize, same: bool) -> Outcome {
    match pos_of(bs, id) {
        Some(i) => {
            let b = bs[i];
            let k: int = if at <= b.text.len() {
                at as int
            } else {
                b.text.len() as int
            };
            let tail = b.text.skip(k);
            let e = if same || trim(tail).len() > 0 {
                b.element
            } else {
                next_on_enter(b.element)
            };
            Outcome {
                blocks: bs.update(i, BlockV { text: b.text.take(k), ..b }).insert(
                    i + 1,
                    BlockV { id: next as u64, element: e, text: tail, note: seq![], tint: None },
                ),
                next: next + 1,
                changed: true,
                focus: Some((next as u64, Caret::Start)),
            }
        },
        None => unchanged(bs, next),
    }
}

pub open spec fn retype_outcome(bs: Seq<BlockV>, next: nat, id: u64, element: Element, at: usize) -> Outcome {
    match pos_of(bs, id) {
        Some(i) => if bs[i].element == element {
            unchanged(bs, next)
        } else {
            let b = bs[i];
            Outcome {
                blocks: bs.update(i, BlockV { element, text: cased(element, b.text), ..b }),
                next,
                changed: true,
                focus: Some((id, Caret::At(at))),
            }
        },
        None => unchanged(bs, next),
    }
}

pub open spec fn merge_prev_outcome(bs: Seq<BlockV>, next: nat, id: u64) -> Outcome {
    match pos_of(bs, id) {
        Some(i) => if i == 0 {
            unchanged(bs, next)
        } else {
            let cur = bs[i];
            let prev = bs[i - 1];
            let focus = Some((prev.id, Caret::At(prev.text.len() as usize)));
            if trim(cur.text).len() == 0 {
                Outcome { blocks: bs.remove(i), next, changed: true, focus }
            } else if cur.element == prev.element {
                Outcome {
                    blocks: bs.remove(i).update(i - 1, BlockV { text: prev.text + cur.text, ..prev }),
                    next,
                    changed: true,
                    focus,
                }
            } else {
                Outcome { blocks: bs, next, changed: false, focus }
            }
        },
        None => unchanged(bs, next),
    }
}

pub open spec fn merge_next_outcome(bs: Seq<BlockV>, next: nat, id: u64) -> Outcome {
    match pos_of(bs, id) {
        Some(i) => if i + 1 >= bs.len() {
            unchanged(bs, next)
        } else {
            let cur = bs[i];
            let nb = bs[i + 1];
            if trim(nb.text).len() == 0 || cur.element == nb.element {
                Outcome {
                    blocks: bs.remove(i + 1).update(i, BlockV { text: cur.text + nb.text, ..cur }),
                    next,
                    changed: true,
                    focus: Some((id, Caret::At(cur.text.len() as usize))),
                }
            } else {
                unchanged(bs, next)
            }
        },
        None => unchanged(bs, next),
    }
}

pub open spec fn step_outcome(bs: Seq<BlockV>, next: nat, id: u64, up: bool) -> Outcome {
    match pos_of(bs, id) {
        Some(i) => if up && i > 0 {
            Outcome { blocks: bs, next, changed: false, focus: Some((bs[i - 1].id, Caret::End)) }
        } else if !up && i + 1 < bs.len() {
            Outcome { blocks: bs, next, changed: false, focus: Some((bs[i + 1].id, Caret::Start)) }
        } else {
            unchanged(bs, next)
        },
        None => unchanged(bs, next),
    }
}

pub open spec fn move_outcome(bs: Seq<BlockV>, next: nat, id: u64, up: bool) -> Outcome {
    match pos_of(bs, id) {
        Some(i) => {
            let j = if up {
                i - 1
            } else {
                i + 1
            };
            if 0 <= j < bs.len() {
                Outcome {
                    blocks: bs.update(i, bs[j]).update(j, bs[i]),
                    next,
                    changed: true,
                    focus: Some((id, Caret::End)),
                }
            } else {
                unchanged(bs, next)
            }
        },
        None => unchanged(bs, next),
    }
}

pub open spec fn explode_outcome(bs: Seq<BlockV>, next: nat, id: u64) -> Outcome {
    match pos_of(bs, id) {
        Some(i) => {
            let b = bs[i];
            let pieces = split_on(b.text, "\n"@);
            let first = cased(b.element, trim_end(pieces[0]));
            let (added, _, next2) = fan_out(pieces.skip(1), (seq![], b.element, next));
            let kept = bs.update(i, BlockV { text: first, ..b });
            Outcome {
                blocks: kept.take(i + 1) + added + kept.skip(i + 1),
                next: next2,
                changed: true,
                focus: Some(
                    (
                        if added.len() == 0 {
                            id
                        } else {
                            added.last().id
                        },
                        Caret::End,
                    ),
                ),
            }
        },
        None => unchanged(bs, next),
    }
}

pub open spec fn accept_outcome(bs: Seq<BlockV>, next: nat, id: u64, rest: Seq<char>) -> Outcome {
    match pos_of(bs, id) {
        Some(i) => {
            let b = bs[i];
            Outcome {
                blocks: bs.update(i, BlockV { text: cased(b.element, b.text + rest), ..b }),
                next,
                changed: true,
                focus: Some((id, Caret::End)),
            }
        },
        None => unchanged(bs, next),
    }
}

/// What a keystroke does to blocks `bs` with id counter `next`.
pub open spec fn outcome(bs: Seq<BlockV>, next: nat, act: Act) -> Outcome {
    match act {
        Act::Split { id, at, same } => split_outcome(bs, next, id, at, same),
        Act::SetElement { id, element, at } => retype_outcome(bs, next, id, element, at),
        Act::MergePrev { id } => merge_prev_outcome(bs, next, id),
        Act::MergeNext { id } => merge_next_outcome(bs, next, id),
        Act::FocusPrev { id } => step_outcome(bs, next, id, true),
        Act::FocusNext { id } => step_outcome(bs, next, id, false),
        Act::MoveUp { id } => move_outcome(bs, next, id, true),
        Act::MoveDown { id } => move_outcome(bs, next, id, false),
        Act::Explode { id } => explode_outcome(bs, next, id),
        Act::Accept { id, rest } => accept_outcome(bs, next, id, rest@),
    }
}

/// Room left under the id counter for the blocks a keystroke may add.
pub open spec fn room_for(bs: Seq<BlockV>, next: nat, act: Act) -> bool {
    match act {
        Act::Split { .. } => next < u64::MAX,
        Act::Explode { id } => match pos_of(bs, id) {
            Some(i) => next + bs[i].text.len() + 1 < u64::MAX,
            None => true,
        },
        _ => true,
    }
}

/// The document and the answer are what the outcome says.
pub open spec fn lands(doc: Document, r: Applied, o: Outcome) -> bool {
    &&& views(doc.blocks@) == o.blocks
    &&& doc.counter() == o.next
    &&& r.changed == o.changed
    &&& r.focus == o.focus
}

fn nothing() -> (r: Applied)
    ensures
        !r.changed,
        r.focus is None,
{
    Applied { changed: false, focus: None }
}

/// The block with the same card and id, other text.
fn retexted(b: &Block, text: &[char]) -> (r: Block)
    ensures
        r@ == (BlockV { text: text@, ..b@ }),
{
    b.with_text(string_of(text))
}

fn cased_text(e: Element, t: &[char]) -> (r: Vec<char>)
    ensures
        r@ == cased(e, t@),
{
    if e.is_upper() {
        to_upper(t)
    } else {
        slice_of(t, 0, t.len())
    }
}

fn split_block(doc: &mut Document, id: u64, at: usize, same: bool) -> (r: Applied)
    requires
        old(doc).counter() < u64::MAX,
    ensures
        lands(*final(doc), r, split_outcome(views(old(doc).blocks@), old(doc).counter() as nat, id, at, same)),
        final(doc).meta == old(doc).meta,
{
    proof {
        lemma_pos_of(doc.blocks@, id);
    }
    let i = match doc.index_of(id) {
        Some(i) => i,
        None => {
            return nothing();
        },
    };
    proof {
        lemma_first_with_id(doc.blocks@, id);
    }
    let ghost bs = views(doc.blocks@);
    let e = doc.blocks[i].element;
    let (head, tail) = crate::caret::split_at_char(doc.blocks[i].text.as_str(), at);
    let tc = chars_of(tail.as_str());
    let mid = !crate::text::is_blank(tc.as_slice());
    let hc = chars_of(head.as_str());
    let kept = retexted(&doc.blocks[i], hc.as_slice());
    doc.blocks.set(i, kept);
    let ne = if same || mid {
        e
    } else {
        e.on_enter()
    };
    let nb = doc.new_block(ne, tail.as_str());
    let nid = nb.id;
    let _n = doc.blocks.len();
    doc.blocks.insert(i + 1, nb);
    proof {
        assert(bs[i as int] == old(doc).blocks@[i as int]@);
        assert(nb.note@ =~= Seq::<char>::empty());
        let o = split_outcome(bs, old(doc).counter() as nat, id, at, same);
        assert(views(doc.blocks@) =~= o.blocks);
    }
    Applied { changed: true, focus: Some((nid, Caret::Start)) }
}

fn retype_block(doc: &mut Document, id: u64, element: Element, at: usize) -> (r: Applied)
    ensures
        lands(*final(doc), r, retype_outcome(views(old(doc).blocks@), old(doc).counter() as nat, id, element, at)),
        final(doc).meta == old(doc).meta,
{
    proof {
        lemma_pos_of(doc.blocks@, id);
    }
    let i = match doc.index_of(id) {
        Some(i) => i,
        None => {
            return nothing();
        },
    };
    proof {
        lemma_first_with_id(doc.blocks@, id);
    }
    let ghost bs = views(doc.blocks@);
    proof {
        assert(bs[i as int] == doc.blocks@[i as int]@);
    }
    if doc.blocks[i].element == element {
        return nothing();
    }
    let b = &doc.blocks[i];
    let tc = chars_of(b.text.as_str());
    let t = cased_text(element, tc.as_slice());
    let nb = Block {
        id: b.id,
        element,
        text: string_of(t.as_slice()),
        note: b.note.clone(),
        tint: b.tint,
    };
    doc.blocks.set(i, nb);
    proof {
        let o = retype_outcome(bs, old(doc).counter() as nat, id, element, at);
        assert(views(doc.blocks@) =~= o.blocks);
    }
    Applied { changed: true, focus: Some((id, Caret::At(at))) }
}

fn merge_prev(doc: &mut Document, id: u64) -> (r: Applied)
    ensures
        lands(*final(doc), r, merge_prev_outcome(views(old(doc).blocks@), old(doc).counter() as nat, id)),
        final(doc).meta == old(doc).meta,
{
    proof {
        lemma_pos_of(doc.blocks@, id);
    }
    let i = match doc.index_of(id) {
        Some(i) => i,
        None => {
            return nothing();
        },
    };
    proof {
        lemma_first_with_id(doc.blocks@, id);
    }
    if i == 0 {
        return nothing();
    }
    let ghost bs = views(doc.blocks@);
    proof {
        assert(bs[i as int] == doc.blocks@[i as int]@);
        assert(bs[i - 1] == doc.blocks@[i - 1]@);
    }
    let cur_empty = crate::text::is_blank(chars_of(doc.blocks[i].text.as_str()).as_slice());
    let same_kind = doc.blocks[i].element == doc.blocks[i - 1].element;
    let prev_id = doc.blocks[i - 1].id;
    let prev_len = crate::caret::char_len(doc.blocks[i - 1].text.as_str());
    let focus = Some((prev_id, Caret::At(prev_len)));
    if cur_empty {
        // the block above stays, so the script is never left empty
        doc.blocks.remove(i);
        proof {
            assert(views(doc.blocks@) =~= bs.remove(i as int));
        }
        Applied { changed: true, focus }
    } else if same_kind {
        let cur = doc.blocks.remove(i);
        let mut t = chars_of(doc.blocks[i - 1].text.as_str());
        push_all(&mut t, chars_of(cur.text.as_str()).as_slice());
        let joined = retexted(&doc.blocks[i - 1], t.as_slice());
        doc.blocks.set(i - 1, joined);
        proof {
            let o = merge_prev_outcome(bs, old(doc).counter() as nat, id);
            assert(views(doc.blocks@) =~= o.blocks);
        }
        Applied { changed: true, focus }
    } else {
        // different element types: move the caret instead of mangling text
        Applied { changed: false, focus }
    }
}

fn merge_next(doc: &mut Document, id: u64) -> (r: Applied)
    ensures
        lands(*final(doc), r, merge_next_outcome(views(old(doc).blocks@), old(doc).counter() as nat, id)),
        final(doc).meta == old(doc).meta,
{
    proof {
        lemma_pos_of(doc.blocks@, id);
    }
    let i = match doc.index_of(id) {
        Some(i) => i,
        None => {
            return nothing();
        },
    };
    proof {
        lemma_first_with_id(doc.blocks@, id);
    }
    let n = doc.blocks.len();
    if i + 1 >= n {
        return nothing();
    }
    let ghost bs = views(doc.blocks@);
    proof {
        assert(bs[i as int] == doc.blocks@[i as int]@);
        assert(bs[i + 1] == doc.blocks@[i + 1]@);
    }
    let next_empty = crate::text::is_blank(chars_of(doc.blocks[i + 1].text.as_str()).as_slice());
    let same_kind = doc.blocks[i].element == doc.blocks[i + 1].element;
    if next_empty || same_kind {
        let nb = doc.blocks.remove(i + 1);
        let at = crate::caret::char_len(doc.blocks[i].text.as_str());
        let mut t = chars_of(doc.blocks[i].text.as_str());
        push_all(&mut t, chars_of(nb.text.as_str()).as_slice());
        let joined = retexted(&doc.blocks[i], t.as_slice());
        doc.blocks.set(i, joined);
        proof {
            let o = merge_next_outcome(bs, old(doc).counter() as nat, id);
            assert(views(doc.blocks@) =~= o.blocks);
        }
        Applied { changed: true, focus: Some((id, Caret::At(at))) }
    } else {
        nothing()
    }
}

fn step_focus(doc: &Document, id: u64, up: bool) -> (r: Applied)
    ensures
        lands(*doc, r, step_outcome(views(doc.blocks@), doc.counter() as nat, id, up)),
{
    proof {
        lemma_pos_of(doc.blocks@, id);
    }
    proof {
        lemma_first_with_id(doc.blocks@, id);
    }
    let n = doc.blocks.len();
    match doc.index_of(id) {
        Some(i) => {
            if up && i > 0 {
                proof {
                    assert(views(doc.blocks@)[i - 1] == doc.blocks@[i - 1]@);
                }
                Applied { changed: false, focus: Some((doc.blocks[i - 1].id, Caret::End)) }
            } else if !up && i + 1 < n {
                proof {
                    assert(views(doc.blocks@)[i + 1] == doc.blocks@[i + 1]@);
                }
                Applied { changed: false, focus: Some((doc.blocks[i + 1].id, Caret::Start)) }
            } else {
                nothing()
            }
        },
        None => nothing(),
    }
}

fn move_block(doc: &mut Document, id: u64, up: bool) -> (r: Applied)
    ensures
        lands(*final(doc), r, move_outcome(views(old(doc).blocks@), old(doc).counter() as nat, id, up)),
        final(doc).meta == old(doc).meta,
{
    proof {
        lemma_pos_of(doc.blocks@, id);
    }
    let i = match doc.index_of(id) {
        Some(i) => i,
        None => {
            return nothing();
        },
    };
    proof {
        lemma_first_with_id(doc.blocks@, id);
    }
    let n = doc.blocks.len();
    if (up && i == 0) || (!up && i + 1 >= n) {
        return nothing();
    }
    let j = if up {
        i - 1
    } else {
        i + 1
    };
    let ghost bs = views(doc.blocks@);
    let a = doc.blocks[i].clone();
    let b = doc.blocks[j].clone();
    doc.blocks.set(i, b);
    doc.blocks.set(j, a);
    proof {
        assert(a@ == bs[i as int]);
        assert(b@ == bs[j as int]);
        let o = move_outcome(bs, old(doc).counter() as nat, id, up);
        assert(views(doc.blocks@) =~= o.blocks);
    }
    Applied { changed: true, focus: Some((id, Caret::End)) }
}

fn accept_rest(doc: &mut Document, id: u64, rest: &str) -> (r: Applied)
    ensures
        lands(*final(doc), r, accept_outcome(views(old(doc).blocks@), old(doc).counter() as nat, id, rest@)),
        final(doc).meta == old(doc).meta,
{
    proof {
        lemma_pos_of(doc.blocks@, id);
    }
    let i = match doc.index_of(id) {
        Some(i) => i,
        None => {
            return nothing();
        },
    };
    proof {
        lemma_first_with_id(doc.blocks@, id);
    }
    let ghost bs = views(doc.blocks@);
    let mut t = chars_of(doc.blocks[i].text.as_str());
    push_str(&mut t, rest);
    let t = cased_text(doc.blocks[i].element, t.as_slice());
    let nb = retexted(&doc.blocks[i], t.as_slice());
    doc.blocks.set(i, nb);
    proof {
        assert(bs[i as int] == old(doc).blocks@[i as int]@);
        let o = accept_outcome(bs, old(doc).counter() as nat, id, rest@);
        assert(views(doc.blocks@) =~= o.blocks);
    }
    Applied { changed: true, focus: Some((id, Caret::End)) }
}

proof fn lemma_split_on_len(s: Seq<char>, p: Seq<char>)
    requires
        p.len() > 0,
    ensures
        1 <= split_on(s, p).len() <= s.len() + 1,
    decreases s.len(),
{
    if let Some(k) = find(s, p) {
        if 0 <= k && k + p.len() <= s.len() {
            lemma_split_on_len(s.skip(k + p.len()), p);
        }
    }
}

proof fn lemma_fan_out_next(ls: Seq<Seq<char>>, st: (Seq<BlockV>, Element, nat))
    ensures
        st.2 <= fan_out(ls, st).2 <= st.2 + ls.len(),
        fan_out(ls, st).0.len() == st.0.len() + (fan_out(ls, st).2 - st.2),
    decreases ls.len(),
{
    if ls.len() > 0 {
        lemma_fan_out_next(ls.drop_last(), st);
    }
}

fn explode(doc: &mut Document, id: u64) -> (r: Applied)
    requires
        room_for(views(old(doc).blocks@), old(doc).counter() as nat, Act::Explode { id }),
    ensures
        lands(*final(doc), r, explode_outcome(views(old(doc).blocks@), old(doc).counter() as nat, id)),
        final(doc).meta == old(doc).meta,
{
    proof {
        lemma_pos_of(doc.blocks@, id);
        reveal_strlit("\n");
    }
    let i = match doc.index_of(id) {
        Some(i) => i,
        None => {
            return nothing();
        },
    };
    proof {
        lemma_first_with_id(doc.blocks@, id);
    }
    let ghost bs = views(doc.blocks@);
    let ghost c0 = doc.counter() as nat;
    proof {
        assert(bs[i as int] == doc.blocks@[i as int]@);
    }
    let e = doc.blocks[i].element;
    let raw = chars_of(doc.blocks[i].text.as_str());
    let pieces = split_on_chars(raw.as_slice(), "\n");
    let ghost pv = pieces@.map_values(|l: Vec<char>| l@);
    proof {
        lemma_split_on_len(raw@, "\n"@);
        assert(pv[0] == pieces@[0]@);
    }
    let first = trim_end_chars_by(pieces[0].as_slice(), Strip::Space);
    let first = cased_text(e, first.as_slice());
    let kept = retexted(&doc.blocks[i], first.as_slice());
    doc.blocks.set(i, kept);
    let ghost kb = views(doc.blocks@);
    proof {
        assert(kb =~= bs.update(i as int, BlockV { text: first@, ..bs[i as int] }));
        assert(kb.take(i + 1) + Seq::<BlockV>::empty() + kb.skip(i + 1) =~= kb);
        assert(pv.skip(1).take(0) =~= Seq::<Seq<char>>::empty());
    }
    let n = pieces.len();
    let mut prev = e;
    let mut at = i;
    let mut last_id = id;
    let mut k: usize = 1;
    while k < n
        invariant
            1 <= k <= n,
            n == pieces@.len(),
            n <= bs[i as int].text.len() + 1,
            c0 + bs[i as int].text.len() + 1 < u64::MAX,
            pv == pieces@.map_values(|l: Vec<char>| l@),
            i < kb.len(),
            doc.meta == old(doc).meta,
            ({
                let st = fan_out(pv.skip(1).take(k - 1), (seq![], e, c0));
                &&& views(doc.blocks@) == kb.take(i + 1) + st.0 + kb.skip(i + 1)
                &&& prev == st.1
                &&& doc.counter() == st.2
                &&& at == i + st.0.len()
                &&& last_id == (if st.0.len() == 0 {
                    id
                } else {
                    st.0.last().id
                })
            }),
        decreases n - k,
    {
        let ghost before = fan_out(pv.skip(1).take(k - 1), (seq![], e, c0));
        proof {
            lemma_fan_out_next(pv.skip(1).take(k - 1), (seq![], e, c0));
            assert(pv.skip(1).take(k as int).drop_last() =~= pv.skip(1).take(k - 1));
            assert(pv.skip(1).take(k as int).last() == pieces@[k as int]@);
        }
        let tr = trim_chars(pieces[k].as_slice());
        if tr.len() == 0 {
            prev = Element::Action;
        } else {
            let trs = string_of(tr.as_slice());
            let e2 = guess_element(trs.as_str(), Some(prev));
            let text = cased_text(e2, tr.as_slice());
            let nb = doc.new_block(e2, string_of(text.as_slice()).as_str());
            last_id = nb.id;
            let ghost cur = views(doc.blocks@);
            let _len = doc.blocks.len();
            proof {
                assert(cur.len() == doc.blocks@.len());
                assert(kb.take(i + 1).len() == i + 1);
                assert(kb.skip(i + 1).len() == kb.len() - i - 1);
                assert(cur.len() == kb.len() + before.0.len());
                assert(at < cur.len());
            }
            at = at + 1;
            doc.blocks.insert(at, nb);
            prev = e2;
            proof {
                assert(nb.note@ =~= Seq::<char>::empty());
                let after = fan_out(pv.skip(1).take(k as int), (seq![], e, c0));
                assert(after.0 == before.0.push(nb@));
                assert(views(doc.blocks@) =~= cur.insert(at as int, nb@));
                assert(cur.insert(at as int, nb@) =~= kb.take(i + 1) + after.0 + kb.skip(i + 1));
            }
        }
        k = k + 1;
    }
    proof {
        assert(pv.skip(1).take(k - 1) =~= pv.skip(1));
        assert(split_on(bs[i as int].text, "\n"@) == pv);
    }
    Applied { changed: true, focus: Some((last_id, Caret::End)) }
}

/// Apply a structural keystroke to the document.
pub fn apply(doc: &mut Document, act: Act) -> (r: Applied)
    requires
        room_for(views(old(doc).blocks@), old(doc).counter() as nat, act),
    ensures
        lands(*final(doc), r, outcome(views(old(doc).blocks@), old(doc).counter() as nat, act)),
        final(doc).meta == old(doc).meta,
        old(doc).ids_fresh() ==> final(doc).ids_fresh(),
{
    let ghost before = views(doc.blocks@);
    let ghost next = doc.counter() as nat;
    proof {
        if doc.ids_fresh() {
            assert forall|i: int| 0 <= i < before.len() implies #[trigger] before[i].id < next by {
                assert(before[i] == doc.blocks@[i]@);
            }
            lemma_outcome_below(before, next, act);
        }
    }
    let r = match act {
        Act::Split { id, at, same } => split_block(doc, id, at, same),
        Act::SetElement { id, element, at } => retype_block(doc, id, element, at),
        Act::MergePrev { id } => merge_prev(doc, id),
        Act::MergeNext { id } => merge_next(doc, id),
        Act::FocusPrev { id } => step_focus(doc, id, true),
        Act::FocusNext { id } => step_focus(doc, id, false),
        Act::MoveUp { id } => move_block(doc, id, true),
        Act::MoveDown { id } => move_block(doc, id, false),
        Act::Explode { id } => explode(doc, id),
        Act::Accept { id, rest } => accept_rest(doc, id, rest.as_str()),
    };
    proof {
        let o = outcome(before, next, act);
        assert(lands(*doc, r, o));
        if old(doc).ids_fresh() {
            let after = views(doc.blocks@);
            assert(after == o.blocks);
            assert(ids_below(o.blocks, o.next));
            assert forall|i: int| 0 <= i < doc.blocks@.len() implies doc.blocks@[i].id
                < doc.counter() by {
                assert(after[i] == doc.blocks@[i]@);
                assert(o.blocks[i].id < o.next);
            }
        }
    }
    r
}

/// Retype the focused block, used by the palette and Ctrl+1..7; nothing
/// happens when no block has the focus.
pub fn set_element(doc: &mut Document, focus_block: Option<u64>, element: Element) -> (r: Applied)
    ensures
        match focus_block {
            Some(id) => lands(
                *final(doc),
                r,
                retype_outcome(views(old(doc).blocks@), old(doc).counter() as nat, id, element, usize::MAX),
            ),
            None => *final(doc) == *old(doc) && !r.changed && r.focus is None,
        },
        final(doc).meta == old(doc).meta,
{
    match focus_block {
        Some(id) => apply(doc, Act::SetElement { id, element, at: usize::MAX }),
        None => nothing(),
    }
}

/// The element of the block with the focus, for the palette highlight.
pub fn current_element(focus_block: Option<u64>, doc: &Document) -> (r: Option<Element>)
    ensures
        r == (match focus_block {
            Some(id) => match first_with_id(doc.blocks@, id) {
                Some(k) => Some(doc.blocks@[k].element),
                None => None,
            },
            None => None,
        }),
{
    match focus_block {
        Some(id) => match doc.block(id) {
            Some(b) => Some(b.element),
            None => None,
        },
        None => None,
    }
}

proof fn lemma_pos_of_is(bs: Seq<BlockV>, id: u64, i: int)
    requires
        0 <= i < bs.len(),
        bs[i].id == id,
        forall|j: int| 0 <= j < i ==> bs[j].id != id,
    ensures
        pos_of(bs, id) == Some(i),
    decreases i,
{
    if i > 0 {
        assert forall|j: int| 0 <= j < i - 1 implies bs.drop_first()[j].id != id by {
            assert(bs.drop_first()[j] == bs[j + 1]);
        }
        lemma_pos_of_is(bs.drop_first(), id, i - 1);
    }
}

proof fn lemma_pos_of_spec(bs: Seq<BlockV>, id: u64)
    ensures
        pos_of(bs, id) matches Some(i) ==> 0 <= i < bs.len() && bs[i].id == id && forall|j: int|
            0 <= j < i ==> bs[j].id != id,
    decreases bs.len(),
{
    if bs.len() > 0 && bs[0].id != id {
        lemma_pos_of_spec(bs.drop_first(), id);
        if let Some(i) = pos_of(bs, id) {
            assert forall|j: int| 0 <= j < i implies bs[j].id != id by {
                if j > 0 {
                    assert(bs[j] == bs.drop_first()[j - 1]);
                }
            }
        }
    }
}

/// Delete at the end of a block undoes Enter in it: the text split off is
/// joined back and the blocks are as they were.
pub proof fn law_split_then_delete(bs: Seq<BlockV>, next: nat, id: u64, at: usize, same: bool)
    requires
        pos_of(bs, id) is Some,
    ensures
        merge_next_outcome(
            split_outcome(bs, next, id, at, same).blocks,
            split_outcome(bs, next, id, at, same).next,
            id,
        ).blocks == bs,
{
    lemma_pos_of_spec(bs, id);
    let i = pos_of(bs, id)->0;
    let s1 = split_outcome(bs, next, id, at, same).blocks;
    assert forall|j: int| 0 <= j < i implies s1[j].id != id by {
        assert(s1[j] == bs[j]);
    }
    lemma_pos_of_is(s1, id, i);
    let b = bs[i];
    let k: int = if at <= b.text.len() {
        at as int
    } else {
        b.text.len() as int
    };
    assert(b.text.take(k) + b.text.skip(k) =~= b.text);
    let back = merge_next_outcome(s1, split_outcome(bs, next, id, at, same).next, id).blocks;
    assert(back =~= bs);
}

/// No two blocks share an id.
pub open spec fn distinct_ids(bs: Seq<BlockV>) -> bool {
    forall|a: int, b: int| 0 <= a < bs.len() && 0 <= b < bs.len() && a != b ==> bs[a].id != bs[b].id
}

/// In a script whose blocks have distinct ids, Alt+Down undoes Alt+Up and
/// Alt+Up undoes Alt+Down.
pub proof fn law_move_round_trip(bs: Seq<BlockV>, next: nat, id: u64, up: bool)
    requires
        distinct_ids(bs),
        move_outcome(bs, next, id, up).changed,
    ensures
        move_outcome(move_outcome(bs, next, id, up).blocks, next, id, !up).blocks == bs,
{
    lemma_pos_of_spec(bs, id);
    let i = pos_of(bs, id)->0;
    let j = if up {
        i - 1
    } else {
        i + 1
    };
    let s1 = move_outcome(bs, next, id, up).blocks;
    assert(s1[j] == bs[i]);
    if up {
        assert forall|m: int| 0 <= m < j implies s1[m].id != id by {
            assert(s1[m] == bs[m]);
        }
    } else {
        assert forall|m: int| 0 <= m < j implies s1[m].id != id by {
            if m < i {
                assert(s1[m] == bs[m]);
            } else {
                assert(m == i);
                assert(s1[m] == bs[j]);
            }
        }
    }
    lemma_pos_of_is(s1, id, j);
    assert(move_outcome(s1, next, id, !up).blocks =~= bs);
}

// ----------------------------------------------------------- the keys --

/// The keys with a structural meaning on the page.
#[derive(Clone, Copy, PartialEq, Eq, Debug, Structural)]
pub enum Key {
    Enter,
    Tab,
    Backspace,
    Delete,
    Up,
    Down,
}

/// A key as pressed, with the modifiers held.
#[derive(Clone, Copy, PartialEq, Eq, Debug, Structural)]
pub struct Chord {
    pub key: Key,
    pub shift: bool,
    pub alt: bool,
}

/// Whether a pressed chord answers to a shortcut asking for `shift` and
/// `alt`: a modifier the shortcut asks for must be held; one it does not
/// ask for may be held anyway.
pub open spec fn answers(c: Chord, k: Key, shift: bool, alt: bool) -> bool {
    c.key == k && (!shift || c.shift) && (!alt || c.alt)
}

/// A keystroke as the specifications see it.
pub ghost enum ActV {
    Split { id: u64, at: usize, same: bool },
    SetElement { id: u64, element: Element, at: usize },
    MergePrev { id: u64 },
    MergeNext { id: u64 },
    FocusPrev { id: u64 },
    FocusNext { id: u64 },
    MoveUp { id: u64 },
    MoveDown { id: u64 },
    Explode { id: u64 },
    Accept { id: u64, rest: Seq<char> },
}

pub open spec fn act_view(a: Act) -> ActV {
    match a {
        Act::Split { id, at, same } => ActV::Split { id, at, same },
        Act::SetElement { id, element, at } => ActV::SetElement { id, element, at },
        Act::MergePrev { id } => ActV::MergePrev { id },
        Act::MergeNext { id } => ActV::MergeNext { id },
        Act::FocusPrev { id } => ActV::FocusPrev { id },
        Act::FocusNext { id } => ActV::FocusNext { id },
        Act::MoveUp { id } => ActV::MoveUp { id },
        Act::MoveDown { id } => ActV::MoveDown { id },
        Act::Explode { id } => ActV::Explode { id },
        Act::Accept { id, rest } => ActV::Accept { id, rest: rest@ },
    }
}

/// What a chord does in block `id` of element `element`, `len` characters
/// long, with the caret at `caret` (`None` while a run is selected) and a
/// suggestion to finish the block, if one is offered. The chords are tried
/// in this order, the more particular first: Shift+Enter, Enter,
/// Shift+Tab, Tab taking the suggestion (offered only with the caret at
/// the end), Tab, Alt+Up, Alt+Down, Backspace at the head, Delete at the
/// end, Up at the head, Down at the end. A structural key anywhere else is
/// left to the text.
pub open spec fn act_for_spec(
    id: u64,
    element: Element,
    caret: Option<usize>,
    len: usize,
    suggestion: Option<Seq<char>>,
    chord: Chord,
) -> Option<ActV> {
    let at = match caret {
        Some(c) => c,
        None => len,
    };
    let offered = if caret == Some(len) {
        suggestion
    } else {
        None
    };
    if answers(chord, Key::Enter, true, false) {
        Some(ActV::Split { id, at, same: true })
    } else if answers(chord, Key::Enter, false, false) {
        Some(ActV::Split { id, at, same: false })
    } else if answers(chord, Key::Tab, true, false) {
        Some(ActV::SetElement { id, element: cycled(element, false), at })
    } else if answers(chord, Key::Tab, false, false) && offered is Some {
        Some(ActV::Accept { id, rest: offered->0 })
    } else if answers(chord, Key::Tab, false, false) {
        Some(ActV::SetElement { id, element: cycled(element, true), at })
    } else if answers(chord, Key::Up, false, true) {
        Some(ActV::MoveUp { id })
    } else if answers(chord, Key::Down, false, true) {
        Some(ActV::MoveDown { id })
    } else if caret == Some(0usize) && answers(chord, Key::Backspace, false, false) {
        Some(ActV::MergePrev { id })
    } else if caret == Some(len) && answers(chord, Key::Delete, false, false) {
        Some(ActV::MergeNext { id })
    } else if caret == Some(0usize) && answers(chord, Key::Up, false, false) {
        Some(ActV::FocusPrev { id })
    } else if caret == Some(len) && answers(chord, Key::Down, false, false) {
        Some(ActV::FocusNext { id })
    } else {
        None
    }
}

fn chord_answers(c: Chord, k: Key, shift: bool, alt: bool) -> (r: bool)
    ensures
        r == answers(c, k, shift, alt),
{
    c.key == k && (!shift || c.shift) && (!alt || c.alt)
}

/// The keystroke a chord makes on the page, if any: the page's key table.
pub fn act_for(
    id: u64,
    element: Element,
    caret: Option<usize>,
    len: usize,
    suggestion: Option<&str>,
    chord: Chord,
) -> (r: Option<Act>)
    ensures
        match r {
            Some(a) => act_for_spec(
                id,
                element,
                caret,
                len,
                match suggestion {
                    Some(s) => Some(s@),
                    None => None,
                },
                chord,
            ) == Some(act_view(a)),
            None => act_for_spec(
                id,
                element,
                caret,
                len,
                match suggestion {
                    Some(s) => Some(s@),
                    None => None,
                },
                chord,
            ) is None,
        },
{
    let at = match caret {
        Some(c) => c,
        None => len,
    };
    let at_end = match caret {
        Some(c) => c == len,
        None => false,
    };
    let at_head = match caret {
        Some(c) => c == 0,
        None => false,
    };
    if chord_answers(chord, Key::Enter, true, false) {
        Some(Act::Split { id, at, same: true })
    } else if chord_answers(chord, Key::Enter, false, false) {
        Some(Act::Split { id, at, same: false })
    } else if chord_answers(chord, Key::Tab, true, false) {
        Some(Act::SetElement { id, element: element.cycle(false), at })
    } else if chord_answers(chord, Key::Tab, false, false) && at_end && suggestion.is_some() {
        match suggestion {
            Some(s) => Some(Act::Accept { id, rest: s.to_owned() }),
            None => None,
        }
    } else if chord_answers(chord, Key::Tab, false, false) {
        Some(Act::SetElement { id, element: element.cycle(true), at })
    } else if chord_answers(chord, Key::Up, false, true) {
        Some(Act::MoveUp { id })
    } else if chord_answers(chord, Key::Down, false, true) {
        Some(Act::MoveDown { id })
    } else if at_head && chord_answers(chord, Key::Backspace, false, false) {
        Some(Act::MergePrev { id })
    } else if at_end && chord_answers(chord, Key::Delete, false, false) {
        Some(Act::MergeNext { id })
    } else if at_head && chord_answers(chord, Key::Up, false, false) {
        Some(Act::FocusPrev { id })
    } else if at_end && chord_answers(chord, Key::Down, false, false) {
        Some(Act::FocusNext { id })
    } else {
        None
    }
}

/// Where a caret target puts the caret in a block of `len` characters, as
/// the run it selects: nothing selected for the start, the end or a
/// position, each held to the block's length; a find result's run, held
/// the same way.
pub open spec fn caret_span(c: Caret, len: nat) -> (usize, usize) {
    let hold = |n: usize| if n > len { len as usize } else { n };
    match c {
        Caret::Start => (0, 0),
        Caret::End => (len as usize, len as usize),
        Caret::At(n) => (hold(n), hold(n)),
        Caret::Range(a, b) => (hold(a), hold(b)),
    }
}

pub fn caret_index(c: Caret, len: usize) -> (r: (usize, usize))
    ensures
        r == caret_span(c, len as nat),
{
    let hold = |n: usize| -> (m: usize)
        ensures
            m == (if n > len {
                len
            } else {
                n
            }),
        {
            if n > len {
                len
            } else {
                n
            }
        };
    match c {
        Caret::Start => (0, 0),
        Caret::End => (len, len),
        Caret::At(n) => {
            let m = hold(n);
            (m, m)
        },
        Caret::Range(a, b) => (hold(a), hold(b)),
    }
}

/// Where Find marks `p` in `s`, scanning from `k`: each match taken whole,
/// the scan going on after it, so no two overlap.
pub open spec fn hits_from(s: Seq<char>, p: Seq<char>, k: int) -> Seq<int>
    decreases s.len() - k,
{
    if p.len() == 0 || k < 0 || k + p.len() > s.len() {
        seq![]
    } else if s.subrange(k, k + p.len()) == p {
        seq![k].add(hits_from(s, p, k + p.len()))
    } else {
        hits_from(s, p, k + 1)
    }
}

/// Where Find marks the search in a block's text: the starts of the
/// non-overlapping matches of the lower-cased search in the lower-cased
/// text, first to last. An empty search marks nothing.
pub open spec fn find_hits_spec(text: Seq<char>, needle: Seq<char>) -> Seq<int> {
    hits_from(lower(text), lower(needle), 0)
}

pub fn find_hits(text: &str, needle: &str) -> (r: Vec<usize>)
    ensures
        r@.map_values(|k: usize| k as int) == find_hits_spec(text@, needle@),
{
    let s = to_lower(chars_of(text).as_slice());
    let p = to_lower(chars_of(needle).as_slice());
    hits_in(s.as_slice(), p.as_slice())
}

/// The starts of the non-overlapping matches of `p` in `s`.
pub fn hits_in(s: &[char], p: &[char]) -> (r: Vec<usize>)
    ensures
        r@.map_values(|k: usize| k as int) == hits_from(s@, p@, 0),
{
    let mut out: Vec<usize> = Vec::new();
    if p.len() == 0 {
        return out;
    }
    let mut k: usize = 0;
    let n: usize = s.len();
    assert(s@.len() == n);
    while k <= s.len() && p.len() <= s.len() - k
        invariant
            p@.len() > 0,
            s@.len() <= usize::MAX,
            k <= s@.len() + 1,
            out@.map_values(|x: usize| x as int) + hits_from(s@, p@, k as int) == hits_from(
                s@,
                p@,
                0,
            ),
        decreases s@.len() + 1 - k,
    {
        let ghost before = out@.map_values(|x: usize| x as int);
        let mut j: usize = 0;
        let mut ok = true;
        while j < p.len()
            invariant
                k + p@.len() <= s@.len(),
                s@.len() <= usize::MAX,
                j <= p@.len(),
                ok == (forall|m: int| 0 <= m < j ==> s@[k + m] == p@[m]),
            decreases p@.len() - j,
        {
            if s[k + j] != p[j] {
                ok = false;
            }
            j = j + 1;
        }
        if ok {
            proof {
                assert(s@.subrange(k as int, k + p@.len()) =~= p@);
            }
            out.push(k);
            proof {
                assert(out@.map_values(|x: usize| x as int) =~= before.push(k as int));
                assert(before.push(k as int) + hits_from(s@, p@, k + p@.len()) =~= before + (seq![
                    k as int,
                ].add(hits_from(s@, p@, k + p@.len()))));
            }
            k = k + p.len();
        } else {
            proof {
                let m = choose|m: int| 0 <= m < p@.len() && s@[k + m] != p@[m];
                assert(s@.subrange(k as int, k + p@.len())[m] != p@[m]);
            }
            k = k + 1;
        }
    }
    proof {
        assert(hits_from(s@, p@, k as int) =~= Seq::<int>::empty());
        assert(out@.map_values(|x: usize| x as int) + Seq::<int>::empty() =~= out@.map_values(
            |x: usize| x as int,
        ));
    }
    out
}

/// Who is talking by the time block of `element` with `text` is reached:
/// a cue starts a speech, its parentheticals and dialogue carry it on,
/// anything else ends it.
pub open spec fn speaker_after(current: Option<Seq<char>>, element: Element, text: Seq<char>) -> Option<Seq<char>> {
    match element {
        Element::Character => Some(cue_name(text)),
        Element::Parenthetical | Element::Dialogue => current,
        _ => None,
    }
}

pub fn next_speaker(current: Option<String>, element: Element, text: &str) -> (r: Option<String>)
    ensures
        match r {
            Some(n) => speaker_after(
                match current {
                    Some(c) => Some(c@),
                    None => None,
                },
                element,
                text@,
            ) == Some(n@),
            None => speaker_after(
                match current {
                    Some(c) => Some(c@),
                    None => None,
                },
                element,
                text@,
            ) is None,
        },
{
    match element {
        Element::Character => Some(base_character(text)),
        Element::Parenthetical | Element::Dialogue => current,
        _ => None,
    }
}

/// What a block's text, just typed into, asks for.
pub enum Typed {
    /// A line break went in: fan the block out into typed blocks.
    Explode,
    /// The element is set in capitals and the text was not: this is it in
    /// capitals.
    Recase(String),
    /// Nothing.
    Keep,
}

/// What typing leaves to do, given the text and its capitals (`upper`
/// applied to it, which is what the caller computes).
pub open spec fn typed_spec(element: Element, text: Seq<char>, capitals: Seq<char>) -> Option<Option<Seq<char>>> {
    if text.contains('\n') {
        None
    } else if upper_element(element) && capitals != text {
        Some(Some(capitals))
    } else {
        Some(None)
    }
}

/// What typing into a block of `element` leaves to do, the text's capitals
/// given.
pub fn typed_with(element: Element, text: &str, capitals: String) -> (r: Typed)
    ensures
        match r {
            Typed::Explode => typed_spec(element, text@, capitals@) is None,
            Typed::Recase(t) => typed_spec(element, text@, capitals@) == Some(Some(t@)),
            Typed::Keep => typed_spec(element, text@, capitals@) == Some(None::<Seq<char>>),
        },
{
    let t = chars_of(text);
    if contains_char(t.as_slice(), '\n') {
        return Typed::Explode;
    }
    if element.is_upper() {
        let c = chars_of(capitals.as_str());
        if !same(c.as_slice(), t.as_slice()) {
            return Typed::Recase(capitals);
        }
    }
    Typed::Keep
}

/// What typing into a block of `element` leaves to do: fan it out on a
/// line break, else put it in capitals where its element wants them.
pub fn after_typing(element: Element, text: &str) -> (r: Typed)
    ensures
        match r {
            Typed::Explode => typed_spec(element, text@, upper(text@)) is None,
            Typed::Recase(t) => typed_spec(element, text@, upper(text@)) == Some(Some(t@)),
            Typed::Keep => typed_spec(element, text@, upper(text@)) == Some(None::<Seq<char>>),
        },
{
    let capitals = to_upper(chars_of(text).as_slice());
    typed_with(element, text, string_of(capitals.as_slice()))
}

/// The block the palette points at when no block has the caret: the one it
/// pointed at while that is still in the script, else the last block.
pub open spec fn focus_kept(focus: Option<u64>, bs: Seq<BlockV>) -> Option<u64> {
    match focus {
        Some(id) if pos_of(bs, id) is Some => Some(id),
        _ => if bs.len() > 0 {
            Some(bs.last().id)
        } else {
            None
        },
    }
}

pub fn keep_focus(focus: Option<u64>, doc: &Document) -> (r: Option<u64>)
    ensures
        r == focus_kept(focus, views(doc.blocks@)),
{
    proof {
        match focus {
            Some(id) => lemma_pos_of(doc.blocks@, id),
            None => {},
        }
    }
    match focus {
        Some(id) => {
            if doc.index_of(id).is_some() {
                return Some(id);
            }
        },
        None => {},
    }
    if doc.blocks.len() > 0 {
        proof {
            assert(views(doc.blocks@).last() == doc.blocks@[doc.blocks@.len() - 1]@);
        }
        Some(doc.blocks[doc.blocks.len() - 1].id)
    } else {
        None
    }
}

/// The block a keystroke is in.
pub open spec fn act_target(act: Act) -> u64 {
    match act {
        Act::Split { id, .. } => id,
        Act::SetElement { id, .. } => id,
        Act::MergePrev { id } => id,
        Act::MergeNext { id } => id,
        Act::FocusPrev { id } => id,
        Act::FocusNext { id } => id,
        Act::MoveUp { id } => id,
        Act::MoveDown { id } => id,
        Act::Explode { id } => id,
        Act::Accept { id, .. } => id,
    }
}

/// Every block's id is below `n`.
pub open spec fn ids_below(bs: Seq<BlockV>, n: nat) -> bool {
    forall|i: int| 0 <= i < bs.len() ==> #[trigger] bs[i].id < n
}

proof fn lemma_fan_out_below(ls: Seq<Seq<char>>, st: (Seq<BlockV>, Element, nat))
    requires
        ids_below(st.0, st.2),
    ensures
        ids_below(fan_out(ls, st).0, fan_out(ls, st).2),
        fan_out(ls, st).2 >= st.2,
    decreases ls.len(),
{
    if ls.len() > 0 {
        lemma_fan_out_below(ls.drop_last(), st);
        let m = fan_out(ls.drop_last(), st);
        let r = fan_step(m, ls.last());
        assert forall|i: int| 0 <= i < r.0.len() implies #[trigger] r.0[i].id < r.2 by {
            if i < m.0.len() {
                assert(r.0[i] == m.0[i] || r.0 == m.0);
            }
        }
    }
}

proof fn lemma_move_below(bs: Seq<BlockV>, next: nat, id: u64, up: bool)
    requires
        ids_below(bs, next),
    ensures
        ids_below(move_outcome(bs, next, id, up).blocks, move_outcome(bs, next, id, up).next),
{
    let o = move_outcome(bs, next, id, up);
    lemma_pos_of_spec(bs, id);
    if let Some(i) = pos_of(bs, id) {
        let k = if up {
            i - 1
        } else {
            i + 1
        };
        assert forall|j: int| 0 <= j < o.blocks.len() implies #[trigger] o.blocks[j].id < o.next by {
            if 0 <= k < bs.len() {
                if j == k {
                    assert(o.blocks[j] == bs[i]);
                } else if j == i {
                    assert(o.blocks[j] == bs[k]);
                } else {
                    assert(o.blocks[j] == bs[j]);
                }
            }
        }
    }
}

/// A keystroke gives new blocks ids from the counter, and moves it on past
/// them: ids below the counter stay below it.
proof fn lemma_outcome_below(bs: Seq<BlockV>, next: nat, act: Act)
    requires
        ids_below(bs, next),
    ensures
        ids_below(outcome(bs, next, act).blocks, outcome(bs, next, act).next),
{
    let o = outcome(bs, next, act);
    lemma_pos_of_spec(bs, act_target(act));
    match act {
        Act::Split { id, at, same } => {
            if let Some(i) = pos_of(bs, id) {
                assert forall|j: int| 0 <= j < o.blocks.len() implies #[trigger] o.blocks[j].id
                    < o.next by {
                    if j < i + 1 {
                        assert(o.blocks[j].id == bs[j].id);
                    } else if j > i + 1 {
                        assert(o.blocks[j] == bs[j - 1]);
                    }
                }
            }
        },
        Act::MergePrev { id } => {
            if let Some(i) = pos_of(bs, id) {
                assert forall|j: int| 0 <= j < o.blocks.len() implies #[trigger] o.blocks[j].id
                    < o.next by {
                    if i > 0 && o.blocks != bs {
                        if j < i {
                            assert(o.blocks[j].id == bs[j].id);
                        } else {
                            assert(o.blocks[j] == bs[j + 1]);
                        }
                    }
                }
            }
        },
        Act::MergeNext { id } => {
            if let Some(i) = pos_of(bs, id) {
                assert forall|j: int| 0 <= j < o.blocks.len() implies #[trigger] o.blocks[j].id
                    < o.next by {
                    if o.blocks != bs {
                        if j <= i {
                            assert(o.blocks[j].id == bs[j].id);
                        } else {
                            assert(o.blocks[j] == bs[j + 1]);
                        }
                    }
                }
            }
        },
        Act::Explode { id } => {
            if let Some(i) = pos_of(bs, id) {
                let b = bs[i];
                let pieces = split_on(b.text, "\n"@);
                let st = (Seq::<BlockV>::empty(), b.element, next);
                lemma_fan_out_below(pieces.skip(1), st);
                let (added, _, next2) = fan_out(pieces.skip(1), st);
                let kept = bs.update(i, BlockV { text: cased(b.element, trim_end(pieces[0])), ..b });
                assert forall|j: int| 0 <= j < o.blocks.len() implies #[trigger] o.blocks[j].id
                    < o.next by {
                    if j < i + 1 {
                        assert(o.blocks[j] == kept[j]);
                        assert(kept[j].id == bs[j].id);
                    } else if j < i + 1 + added.len() {
                        assert(o.blocks[j] == added[j - i - 1]);
                    } else {
                        assert(o.blocks[j] == kept[j - added.len()]);
                        assert(kept[j - added.len()].id == bs[j - added.len()].id);
                    }
                }
            }
        },
        Act::MoveUp { id } => {
            lemma_move_below(bs, next, id, true);
        },
        Act::MoveDown { id } => {
            lemma_move_below(bs, next, id, false);
        },
        Act::SetElement { id, element, at } => {
            if let Some(i) = pos_of(bs, id) {
                assert forall|j: int| 0 <= j < o.blocks.len() implies #[trigger] o.blocks[j].id
                    < o.next by {
                    assert(o.blocks[j].id == bs[j].id);
                }
            }
        },
        Act::Accept { id, rest } => {
            if let Some(i) = pos_of(bs, id) {
                assert forall|j: int| 0 <= j < o.blocks.len() implies #[trigger] o.blocks[j].id
                    < o.next by {
                    assert(o.blocks[j].id == bs[j].id);
                }
            }
        },
        _ => {},
    }
}

} // verus!
