//! Undo and redo, script-wide.
//!
//! A change is not recorded keystroke by keystroke: the editor marks the
//! script changed, and the version before the change is put on the undo
//! stack the next time the script settles (or just before an undo). Only
//! the blocks and the title are kept; the other details are edited in their
//! own fields and are not part of the history.

use vstd::prelude::*;

use crate::model::{max_id, Block, BlockV, Document, Element};
use crate::storage::views;

verus! {

/// How many steps back the history reaches.
pub const UNDO_DEPTH: usize = 200;

/// A version of the script: its blocks and its title.
pub struct Snapshot {
    pub blocks: Vec<Block>,
    pub title: String,
}

/// A version as the specifications see it.
pub ghost struct SnapV {
    pub blocks: Seq<BlockV>,
    pub title: Seq<char>,
}

impl View for Snapshot {
    type V = SnapV;

    open spec fn view(&self) -> SnapV {
        SnapV { blocks: views(self.blocks@), title: self.title@ }
    }
}

/// The version of the script a document is.
pub open spec fn version_of(doc: Document) -> SnapV {
    SnapV { blocks: views(doc.blocks@), title: doc.meta.title@ }
}

pub struct History {
    /// The version the script was at when it last settled.
    baseline: Snapshot,
    undo: Vec<Snapshot>,
    redo: Vec<Snapshot>,
    /// The script has changed since it last settled.
    due: bool,
}

/// The history as the specifications see it.
pub ghost struct HistoryV {
    pub baseline: SnapV,
    pub undo: Seq<SnapV>,
    pub redo: Seq<SnapV>,
    pub due: bool,
}

impl View for History {
    type V = HistoryV;

    closed spec fn view(&self) -> HistoryV {
        HistoryV {
            baseline: self.baseline@,
            undo: self.undo@.map_values(|s: Snapshot| s@),
            redo: self.redo@.map_values(|s: Snapshot| s@),
            due: self.due,
        }
    }
}

/// The undo stack after `s` is put on it: the oldest step goes once there
/// are more than the history reaches.
pub open spec fn capped(s: Seq<SnapV>) -> Seq<SnapV> {
    if s.len() > UNDO_DEPTH {
        s.drop_first()
    } else {
        s
    }
}

/// The history once the script has settled at version `now`: what was the
/// baseline is a step back, and nothing is left to redo.
pub open spec fn settled(h: HistoryV, now: SnapV) -> HistoryV {
    HistoryV { baseline: now, undo: capped(h.undo.push(h.baseline)), redo: seq![], due: false }
}

/// The history a step back takes to, from a settled history `h` with the
/// script at version `now`: the last step is taken off the undo stack and
/// becomes the baseline, and `now` can be redone.
pub open spec fn undone(h: HistoryV, now: SnapV) -> HistoryV {
    HistoryV { baseline: h.undo.last(), undo: h.undo.drop_last(), redo: h.redo.push(now), due: h.due }
}

/// The history a step forward takes to, with the script at version `now`.
pub open spec fn redone(h: HistoryV, now: SnapV) -> HistoryV {
    HistoryV {
        baseline: h.redo.last(),
        undo: capped(h.undo.push(now)),
        redo: h.redo.drop_last(),
        due: h.due,
    }
}

/// A document holding version `v`, its blocks' ids made fresh.
pub open spec fn holds(doc: Document, v: SnapV) -> bool {
    &&& views(doc.blocks@) == (if v.blocks.len() == 0 {
        seq![
            BlockV {
                id: doc.blocks@[0].id,
                element: Element::SceneHeading,
                text: seq![],
                note: seq![],
                tint: None,
            },
        ]
    } else {
        v.blocks
    })
    &&& doc.meta.title@ == v.title
    &&& doc.ids_fresh()
    &&& doc.counter() == max_id(doc.blocks@) + 1
}

fn copy_blocks(bs: &Vec<Block>) -> (r: Vec<Block>)
    ensures
        views(r@) == views(bs@),
        forall|i: int| 0 <= i < bs@.len() ==> #[trigger] r@[i].id == bs@[i].id,
{
    let mut out: Vec<Block> = Vec::new();
    let mut i: usize = 0;
    while i < bs.len()
        invariant
            i <= bs@.len(),
            out@.len() == i,
            forall|j: int| 0 <= j < i ==> #[trigger] out@[j]@ == bs@[j]@,
        decreases bs@.len() - i,
    {
        out.push(bs[i].clone());
        i = i + 1;
    }
    proof {
        assert(views(out@) =~= views(bs@));
        assert forall|i: int| 0 <= i < bs@.len() implies #[trigger] out@[i].id == bs@[i].id by {
            assert(out@[i]@ == bs@[i]@);
        }
    }
    out
}

fn snapshot(doc: &Document) -> (r: Snapshot)
    ensures
        r@ == version_of(*doc),
{
    Snapshot { blocks: copy_blocks(&doc.blocks), title: doc.meta.title.clone() }
}

/// Every block of the version has an id a fresh counter can follow.
pub open spec fn ids_ok(v: SnapV) -> bool {
    forall|i: int| 0 <= i < v.blocks.len() ==> #[trigger] v.blocks[i].id < u64::MAX
}

proof fn lemma_version_ids(doc: Document)
    requires
        doc.ids_fresh(),
    ensures
        ids_ok(version_of(doc)),
{
    assert forall|i: int| 0 <= i < version_of(doc).blocks.len() implies #[trigger] version_of(
        doc,
    ).blocks[i].id < u64::MAX by {
        assert(version_of(doc).blocks[i] == doc.blocks@[i]@);
    }
}

impl History {
    /// The history lives within the depth it reaches, and every version in
    /// it can be put back in a document.
    #[verifier::type_invariant]
    spec fn wf(&self) -> bool {
        &&& self.undo@.len() <= UNDO_DEPTH
        &&& ids_ok(self.baseline@)
        &&& forall|k: int| 0 <= k < self.undo@.len() ==> ids_ok(#[trigger] self.undo@[k]@)
        &&& forall|k: int| 0 <= k < self.redo@.len() ==> ids_ok(#[trigger] self.redo@[k]@)
    }

    /// A fresh history for a script just opened.
    pub fn new(doc: &Document) -> (r: History)
        requires
            doc.ids_fresh(),
        ensures
            r@ == (HistoryV { baseline: version_of(*doc), undo: seq![], redo: seq![], due: false }),
    {
        proof {
            lemma_version_ids(*doc);
        }
        let h = History { baseline: snapshot(doc), undo: Vec::new(), redo: Vec::new(), due: false };
        proof {
            assert(h@.undo =~= Seq::<SnapV>::empty());
            assert(h@.redo =~= Seq::<SnapV>::empty());
        }
        h
    }

    /// The undo stack never reaches further back than the history's depth.
    pub fn depth(&self) -> (r: usize)
        ensures
            r == self@.undo.len(),
            r <= UNDO_DEPTH,
    {
        proof {
            use_type_invariant(self);
        }
        self.undo.len()
    }

    /// The script changed; the version before it is kept when it settles.
    pub fn mark_changed(&mut self)
        ensures
            final(self)@ == (HistoryV { due: true, ..old(self)@ }),
    {
        proof {
            use_type_invariant(&*self);
        }
        self.due = true;
    }

    /// Whether a change is waiting to be recorded.
    pub fn snapshot_due(&self) -> (r: bool)
        ensures
            r == self@.due,
    {
        self.due
    }

    /// The script has settled at the document's version: record the step.
    pub fn snapshot_now(&mut self, doc: &Document)
        requires
            doc.ids_fresh(),
        ensures
            final(self)@ == settled(old(self)@, version_of(*doc)),
    {
        proof {
            use_type_invariant(&*self);
            lemma_version_ids(*doc);
        }
        let ghost o = self@;
        let mut undo: Vec<Snapshot> = Vec::new();
        std::mem::swap(&mut undo, &mut self.undo);
        let mut before = snapshot(doc);
        std::mem::swap(&mut self.baseline, &mut before);
        let ghost u0 = undo@;
        undo.push(before);
        proof {
            assert(undo@ =~= u0.push(before));
        }
        if undo.len() > UNDO_DEPTH {
            let ghost u1 = undo@;
            undo.remove(0);
            proof {
                assert(undo@ =~= u1.drop_first());
            }
        }
        proof {
            assert forall|k: int| 0 <= k < undo@.len() implies ids_ok(#[trigger] undo@[k]@) by {
                let pushed = u0.push(before);
                if pushed.len() > UNDO_DEPTH {
                    assert(undo@[k] == pushed[k + 1]);
                } else {
                    assert(undo@[k] == pushed[k]);
                }
            }
        }
        self.undo = undo;
        self.redo = Vec::new();
        self.due = false;
        proof {
            assert(self@.redo =~= Seq::<SnapV>::empty());
            let pushed = o.undo.push(o.baseline);
            assert(self@.undo =~= capped(pushed)) by {
                assert(u0.map_values(|s: Snapshot| s@) == o.undo);
                assert(u0.push(before).map_values(|s: Snapshot| s@) =~= pushed);
            }
        }
    }

    /// Start over with no steps: a new script.
    pub fn clear(&mut self, doc: &Document)
        requires
            doc.ids_fresh(),
        ensures
            final(self)@ == (HistoryV {
                baseline: version_of(*doc),
                undo: seq![],
                redo: seq![],
                due: old(self)@.due,
            }),
    {
        proof {
            use_type_invariant(&*self);
            lemma_version_ids(*doc);
        }
        self.undo = Vec::new();
        self.redo = Vec::new();
        self.baseline = snapshot(doc);
        proof {
            assert(self@.undo =~= Seq::<SnapV>::empty());
            assert(self@.redo =~= Seq::<SnapV>::empty());
        }
    }

    /// Put version `v` in the document.
    fn restore(doc: &mut Document, v: &Snapshot)
        requires
            ids_ok(v@),
            old(doc).counter() < u64::MAX,
        ensures
            holds(*final(doc), v@),
            final(doc).meta.author@ == old(doc).meta.author@,
            final(doc).meta.contact@ == old(doc).meta.contact@,
            final(doc).meta.draft@ == old(doc).meta.draft@,
            final(doc).meta.starred == old(doc).meta.starred,
    {
        doc.blocks = copy_blocks(&v.blocks);
        doc.meta.title = v.title.clone();
        let ghost copied = doc.blocks@;
        proof {
            assert(views(copied).len() == copied.len());
            assert(copied.len() == v.blocks@.len());
        }
        doc.ensure_not_empty();
        proof {
            if v.blocks@.len() == 0 {
                assert(doc.blocks@[0].note@.len() == 0);
                assert(doc.blocks@[0].note@ =~= Seq::<char>::empty());
                assert(doc.blocks@[0].text@ =~= Seq::<char>::empty());
                assert(views(doc.blocks@) =~= seq![doc.blocks@[0]@]);
            } else {
                assert(doc.blocks@ == copied);
            }
            assert forall|i: int| 0 <= i < doc.blocks@.len() implies doc.blocks@[i].id
                < u64::MAX by {
                if v.blocks@.len() > 0 {
                    assert(doc.blocks@[i].id == v.blocks@[i].id);
                    assert(v@.blocks[i] == v.blocks@[i]@);
                    assert(v@.blocks[i].id < u64::MAX);
                }
            }
        }
        doc.reseed_ids();
    }

    /// Step back. A change waiting to be recorded is recorded first, so the
    /// step back goes to the version before it. False when there is nothing
    /// to undo.
    pub fn undo(&mut self, doc: &mut Document) -> (r: bool)
        requires
            old(doc).counter() < u64::MAX,
            old(doc).ids_fresh(),
        ensures
            final(doc).ids_fresh(),
            final(doc).meta.author@ == old(doc).meta.author@,
            final(doc).meta.contact@ == old(doc).meta.contact@,
            final(doc).meta.draft@ == old(doc).meta.draft@,
            final(doc).meta.starred == old(doc).meta.starred,
            ({
                let h = if old(self)@.due {
                    settled(old(self)@, version_of(*old(doc)))
                } else {
                    old(self)@
                };
                if h.undo.len() == 0 {
                    !r && final(self)@ == h && *final(doc) == *old(doc)
                } else {
                    &&& r
                    &&& holds(*final(doc), h.undo.last())
                    &&& final(self)@ == undone(h, version_of(*old(doc)))
                }
            }),
    {
        if self.due {
            self.snapshot_now(doc);
        }
        proof {
            use_type_invariant(&*self);
            lemma_version_ids(*doc);
        }
        let ghost h = self@;
        if self.undo.len() == 0 {
            proof {
                assert(h.undo.len() == 0);
            }
            return false;
        }
        let mut undo: Vec<Snapshot> = Vec::new();
        std::mem::swap(&mut undo, &mut self.undo);
        let mut redo: Vec<Snapshot> = Vec::new();
        std::mem::swap(&mut redo, &mut self.redo);
        let ghost u0 = undo@;
        let ghost r0 = redo@;
        let prev = undo.pop().unwrap();
        proof {
            assert(undo@ =~= u0.drop_last());
            assert(prev == u0.last());
            assert(ids_ok(u0[u0.len() - 1]@));
        }
        let current = snapshot(doc);
        redo.push(current);
        proof {
            assert(redo@ =~= r0.push(current));
            assert forall|k: int| 0 <= k < undo@.len() implies ids_ok(#[trigger] undo@[k]@) by {
                assert(undo@[k] == u0[k]);
            }
            assert forall|k: int| 0 <= k < redo@.len() implies ids_ok(#[trigger] redo@[k]@) by {
                if k < r0.len() {
                    assert(redo@[k] == r0[k]);
                }
            }
        }
        Self::restore(doc, &prev);
        self.undo = undo;
        self.redo = redo;
        self.baseline = prev;
        proof {
            assert(u0.map_values(|s: Snapshot| s@) == h.undo);
            assert(r0.map_values(|s: Snapshot| s@) == h.redo);
            assert(self@.undo =~= h.undo.drop_last());
            assert(self@.redo =~= h.redo.push(version_of(*old(doc))));
        }
        true
    }

    /// Step forward again. False when there is nothing to redo.
    pub fn redo(&mut self, doc: &mut Document) -> (r: bool)
        requires
            old(doc).counter() < u64::MAX,
            old(doc).ids_fresh(),
        ensures
            final(doc).ids_fresh(),
            final(doc).meta.author@ == old(doc).meta.author@,
            final(doc).meta.contact@ == old(doc).meta.contact@,
            final(doc).meta.draft@ == old(doc).meta.draft@,
            final(doc).meta.starred == old(doc).meta.starred,
            ({
                let h = old(self)@;
                if h.redo.len() == 0 {
                    !r && final(self)@ == h && *final(doc) == *old(doc)
                } else {
                    &&& r
                    &&& holds(*final(doc), h.redo.last())
                    &&& final(self)@ == redone(h, version_of(*old(doc)))
                }
            }),
    {
        proof {
            use_type_invariant(&*self);
            lemma_version_ids(*doc);
        }
        let ghost h = self@;
        if self.redo.len() == 0 {
            proof {
                assert(h.redo.len() == 0);
            }
            return false;
        }
        let mut undo: Vec<Snapshot> = Vec::new();
        std::mem::swap(&mut undo, &mut self.undo);
        let mut redo: Vec<Snapshot> = Vec::new();
        std::mem::swap(&mut redo, &mut self.redo);
        let ghost u0 = undo@;
        let ghost r0 = redo@;
        let next = redo.pop().unwrap();
        proof {
            assert(redo@ =~= r0.drop_last());
            assert(next == r0.last());
            assert(ids_ok(r0[r0.len() - 1]@));
        }
        let current = snapshot(doc);
        undo.push(current);
        proof {
            assert(undo@ =~= u0.push(current));
        }
        if undo.len() > UNDO_DEPTH {
            let ghost u1 = undo@;
            undo.remove(0);
            proof {
                assert(undo@ =~= u1.drop_first());
            }
        }
        proof {
            let pushed = u0.push(current);
            assert forall|k: int| 0 <= k < undo@.len() implies ids_ok(#[trigger] undo@[k]@) by {
                if pushed.len() > UNDO_DEPTH {
                    assert(undo@[k] == pushed[k + 1]);
                } else {
                    assert(undo@[k] == pushed[k]);
                }
            }
            assert forall|k: int| 0 <= k < redo@.len() implies ids_ok(#[trigger] redo@[k]@) by {
                assert(redo@[k] == r0[k]);
            }
        }
        Self::restore(doc, &next);
        self.undo = undo;
        self.redo = redo;
        self.baseline = next;
        proof {
            assert(u0.map_values(|s: Snapshot| s@) == h.undo);
            assert(r0.map_values(|s: Snapshot| s@) == h.redo);
            let pushed = u0.push(current);
            assert(pushed.map_values(|s: Snapshot| s@) =~= h.undo.push(version_of(*old(doc))));
            assert(self@.redo =~= h.redo.drop_last());
            assert(self@.undo =~= capped(h.undo.push(version_of(*old(doc)))));
        }
        true
    }
}

/// A document holding a version with blocks is at that version.
pub proof fn lemma_holds_version(doc: Document, v: SnapV)
    requires
        holds(doc, v),
        v.blocks.len() > 0,
    ensures
        version_of(doc) == v,
{
}

/// Redo gives back what undo took. From a settled history whose baseline is
/// the script as it stands, a step back and then a step forward leave the
/// history as it was, the script back at its baseline.
pub proof fn law_undo_then_redo(h: HistoryV)
    requires
        !h.due,
        0 < h.undo.len() <= UNDO_DEPTH,
    ensures
        redone(undone(h, h.baseline), h.undo.last()) == h,
        undone(h, h.baseline).redo.last() == h.baseline,
{
    let u = undone(h, h.baseline);
    assert(u.redo.last() == h.baseline);
    assert(u.redo.drop_last() =~= h.redo);
    assert(h.undo.drop_last().push(h.undo.last()) =~= h.undo);
}

/// And undo takes back what redo gave: a step forward and then a step back
/// leave the history as it was, if the undo stack had room for the step.
pub proof fn law_redo_then_undo(h: HistoryV)
    requires
        !h.due,
        h.undo.len() < UNDO_DEPTH,
        h.redo.len() > 0,
    ensures
        undone(redone(h, h.baseline), h.redo.last()) == h,
{
    let r = redone(h, h.baseline);
    assert(r.undo =~= h.undo.push(h.baseline));
    assert(r.undo.drop_last() =~= h.undo);
    assert(r.redo.push(h.redo.last()) =~= h.redo);
}

} // verus!
