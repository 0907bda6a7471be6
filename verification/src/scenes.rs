//! The script as scenes: each scene heading and the blocks under it, up to
//! the next heading. The index cards are drawn from this list, and a card
//! moved or deleted on the wall moves or deletes its whole scene.

use vstd::prelude::*;

use crate::editor::{lemma_pos_of, pos_of};
use crate::model::{first_with_id, lemma_first_with_id, Block, BlockV, Document, Element};
use crate::storage::views;

verus! {

/// A scene as its index card shows it: the heading's id and text, and the
/// card's synopsis and colour.
pub struct Scene {
    pub id: u64,
    pub heading: String,
    pub synopsis: String,
    pub tint: Option<usize>,
}

pub ghost struct SceneV {
    pub id: u64,
    pub heading: Seq<char>,
    pub synopsis: Seq<char>,
    pub tint: Option<usize>,
}

impl View for Scene {
    type V = SceneV;

    open spec fn view(&self) -> SceneV {
        SceneV { id: self.id, heading: self.heading@, synopsis: self.synopsis@, tint: self.tint }
    }
}

/// The card a scene heading makes.
pub open spec fn card_of(b: BlockV) -> SceneV {
    SceneV { id: b.id, heading: b.text, synopsis: b.note, tint: b.tint }
}

/// Where the scene headings stand, in order.
pub open spec fn heading_places(bs: Seq<BlockV>) -> Seq<int>
    decreases bs.len(),
{
    if bs.len() == 0 {
        seq![]
    } else if bs.last().element == Element::SceneHeading {
        heading_places(bs.drop_last()).push(bs.len() - 1)
    } else {
        heading_places(bs.drop_last())
    }
}

/// The scenes, one card per heading, in order.
pub open spec fn scene_list(bs: Seq<BlockV>) -> Seq<SceneV> {
    heading_places(bs).map_values(|i: int| card_of(bs[i]))
}

/// The headings' places are in the script, in order, and are every heading
/// there is.
pub proof fn lemma_heading_places(bs: Seq<BlockV>)
    ensures
        forall|k: int|
            0 <= k < heading_places(bs).len() ==> 0 <= #[trigger] heading_places(bs)[k] < bs.len()
                && bs[heading_places(bs)[k]].element == Element::SceneHeading,
        forall|k1: int, k2: int|
            0 <= k1 < k2 < heading_places(bs).len() ==> heading_places(bs)[k1]
                < heading_places(bs)[k2],
        forall|i: int|
            0 <= i < bs.len() && #[trigger] bs[i].element == Element::SceneHeading ==> exists|k: int|
                0 <= k < heading_places(bs).len() && heading_places(bs)[k] == i,
    decreases bs.len(),
{
    if bs.len() > 0 {
        let d = bs.drop_last();
        lemma_heading_places(d);
        let p = heading_places(bs);
        let q = heading_places(d);
        assert forall|k: int| 0 <= k < q.len() implies bs[q[k]] == d[q[k]] by {}
        assert forall|i: int|
            0 <= i < bs.len() && #[trigger] bs[i].element == Element::SceneHeading implies exists|
                k: int,
            | 0 <= k < p.len() && p[k] == i by {
            if i < bs.len() - 1 {
                assert(d[i] == bs[i]);
                let k = choose|k: int| 0 <= k < q.len() && q[k] == i;
                assert(p[k] == q[k]);
            } else {
                assert(p[p.len() - 1] == i);
            }
        }
    }
}

/// The heading of the scene a block at `i` belongs to: the nearest heading
/// at or above it.
pub open spec fn heading_above(bs: Seq<BlockV>, i: int) -> Option<int>
    decreases i + 1,
{
    if i < 0 || i >= bs.len() {
        None
    } else if bs[i].element == Element::SceneHeading {
        Some(i)
    } else {
        heading_above(bs, i - 1)
    }
}

/// Where the scene at `k` starts, or the end of the script for `k` the
/// number of scenes.
pub open spec fn scene_start(bs: Seq<BlockV>, k: int) -> int {
    let p = heading_places(bs);
    if k < p.len() {
        p[k]
    } else {
        bs.len() as int
    }
}

/// Whether the scene at `from` can be moved in front of the scene at `to`
/// (`to` the number of scenes for the end) and lands somewhere new.
pub open spec fn moves(bs: Seq<BlockV>, from: int, to: int) -> bool {
    let n = heading_places(bs).len();
    0 <= from < n && 0 <= to <= n && to != from && to != from + 1
}

/// The script with the scene at `from`, heading and all, moved in front of
/// the scene at `to`.
pub open spec fn scene_moved(bs: Seq<BlockV>, from: int, to: int) -> Seq<BlockV> {
    let a = scene_start(bs, from);
    let b = scene_start(bs, from + 1);
    let t = scene_start(bs, to);
    let seg = bs.subrange(a, b);
    if to < from {
        bs.take(t) + seg + bs.subrange(t, a) + bs.skip(b)
    } else {
        bs.take(a) + bs.subrange(b, t) + seg + bs.skip(t)
    }
}

/// The script without the scene at `k`, heading and all.
pub open spec fn scene_deleted(bs: Seq<BlockV>, k: int) -> Seq<BlockV> {
    bs.take(scene_start(bs, k)) + bs.skip(scene_start(bs, k + 1))
}

/// The first heading at or after `j`, or the end of the script.
pub open spec fn heading_from(bs: Seq<BlockV>, j: int) -> int
    decreases bs.len() - j,
{
    if j >= bs.len() {
        bs.len() as int
    } else if bs[j].element == Element::SceneHeading {
        j
    } else {
        heading_from(bs, j + 1)
    }
}

/// A fresh, empty scene heading.
pub open spec fn fresh_heading(id: u64) -> BlockV {
    BlockV { id, element: Element::SceneHeading, text: seq![], note: seq![], tint: None }
}

/// Copy the blocks `lo..hi` of `bs` onto the end of `out`.
fn push_blocks(out: &mut Vec<Block>, bs: &Vec<Block>, lo: usize, hi: usize)
    requires
        lo <= hi <= bs@.len(),
    ensures
        views(final(out)@) == views(old(out)@) + views(bs@).subrange(lo as int, hi as int),
{
    let ghost start = views(out@);
    let mut i = lo;
    while i < hi
        invariant
            lo <= i <= hi <= bs@.len(),
            views(out@) == start + views(bs@).subrange(lo as int, i as int),
        decreases hi - i,
    {
        let ghost before = out@;
        out.push(bs[i].clone());
        proof {
            assert(views(out@) =~= views(before).push(bs@[i as int]@));
            assert(views(bs@).subrange(lo as int, i + 1) =~= views(bs@).subrange(lo as int, i as int).push(
                bs@[i as int]@,
            ));
        }
        i = i + 1;
    }
}

/// The scene boundaries the places give.
proof fn lemma_starts(bs: Seq<BlockV>)
    ensures
        forall|k: int|
            0 <= k <= heading_places(bs).len() ==> 0 <= #[trigger] scene_start(bs, k) <= bs.len(),
        forall|j: int, k: int|
            #![trigger scene_start(bs, j), scene_start(bs, k)]
            0 <= j <= k <= heading_places(bs).len() ==> scene_start(bs, j) <= scene_start(bs, k),
{
    lemma_heading_places(bs);
    let p = heading_places(bs);
    assert forall|j: int, k: int|
        #![trigger scene_start(bs, j), scene_start(bs, k)]
        0 <= j <= k <= p.len() implies scene_start(bs, j) <= scene_start(bs, k) by {
        if j < k && k < p.len() {
            assert(p[j] < p[k]);
        }
    }
}

/// Moving a scene loses nothing and adds nothing: the script holds the same
/// blocks, each as often as before.
pub proof fn law_moving_keeps_every_block(bs: Seq<BlockV>, from: int, to: int)
    requires
        moves(bs, from, to),
    ensures
        scene_moved(bs, from, to).to_multiset() == bs.to_multiset(),
        scene_moved(bs, from, to).len() == bs.len(),
{
    broadcast use vstd::seq_lib::lemma_multiset_commutative;
    broadcast use vstd::multiset::group_multiset_axioms;

    lemma_starts(bs);
    let a = scene_start(bs, from);
    let b = scene_start(bs, from + 1);
    let t = scene_start(bs, to);
    assert(a <= b);
    if to < from {
        assert(t <= a);
        let (w, x, y, z) = (bs.take(t), bs.subrange(a, b), bs.subrange(t, a), bs.skip(b));
        assert(bs =~= w + y + x + z);
        assert((w + x + y + z).to_multiset() =~= (w + y + x + z).to_multiset());
    } else {
        assert(b <= t);
        let (w, x, y, z) = (bs.take(a), bs.subrange(b, t), bs.subrange(a, b), bs.skip(t));
        assert(bs =~= w + y + x + z);
        assert((w + x + y + z).to_multiset() =~= (w + y + x + z).to_multiset());
    }
}

/// Blocks that are the same ones in another order keep their ids below the
/// counter.
proof fn lemma_same_blocks_fresh(before: Seq<Block>, after: Seq<Block>, next: u64)
    requires
        views(after).to_multiset() == views(before).to_multiset(),
        forall|i: int| 0 <= i < before.len() ==> #[trigger] before[i].id < next,
    ensures
        forall|i: int| 0 <= i < after.len() ==> #[trigger] after[i].id < next,
{
    broadcast use vstd::seq_lib::group_to_multiset_ensures;

    assert forall|i: int| 0 <= i < after.len() implies #[trigger] after[i].id < next by {
        let v = after[i]@;
        assert(views(after)[i] == v);
        assert(views(after).contains(v));
        assert(views(after).to_multiset().count(v) > 0);
        assert(views(before).contains(v));
        let j = choose|j: int| 0 <= j < views(before).len() && views(before)[j] == v;
        assert(before[j]@ == v);
    }
}

/// The headings of two runs of blocks put together are the first run's,
/// then the second's, moved along.
proof fn lemma_places_add(x: Seq<BlockV>, y: Seq<BlockV>)
    ensures
        heading_places(x + y) == heading_places(x) + heading_places(y).map_values(
            |i: int| i + x.len(),
        ),
    decreases y.len(),
{
    if y.len() == 0 {
        assert(x + y =~= x);
        assert(heading_places(y).map_values(|i: int| i + x.len()) =~= Seq::<int>::empty());
        assert(heading_places(x) + Seq::<int>::empty() =~= heading_places(x));
    } else {
        lemma_places_add(x, y.drop_last());
        assert((x + y).drop_last() =~= x + y.drop_last());
        assert((x + y).last() == y.last());
        let f = |i: int| i + x.len();
        if y.last().element == Element::SceneHeading {
            assert(heading_places(y).map_values(f) =~= heading_places(y.drop_last()).map_values(
                f,
            ).push(y.len() - 1 + x.len()));
            assert(heading_places(x + y) =~= heading_places(x) + heading_places(y).map_values(f));
        } else {
            assert(heading_places(y).map_values(f) =~= heading_places(y.drop_last()).map_values(
                f,
            ));
        }
    }
}

/// The cards of two runs of blocks put together are the first run's, then
/// the second's.
proof fn lemma_cards_add(x: Seq<BlockV>, y: Seq<BlockV>)
    ensures
        scene_list(x + y) == scene_list(x) + scene_list(y),
{
    lemma_places_add(x, y);
    lemma_heading_places(x);
    lemma_heading_places(y);
    let px = heading_places(x);
    let py = heading_places(y);
    assert forall|k: int| 0 <= k < px.len() + py.len() implies #[trigger] scene_list(x + y)[k] == (
    scene_list(x) + scene_list(y))[k] by {
        if k < px.len() {
            assert((x + y)[px[k]] == x[px[k]]);
        } else {
            let j = k - px.len();
            assert(0 <= py[j] < y.len());
            assert((x + y)[py[j] + x.len()] == y[py[j]]);
        }
    }
    assert(scene_list(x + y) =~= scene_list(x) + scene_list(y));
}

/// The headings above place `m` are the first of all the headings, and
/// the next one, if any, is at `m` or below.
proof fn lemma_places_prefix(bs: Seq<BlockV>, m: int)
    requires
        0 <= m <= bs.len(),
    ensures
        heading_places(bs.take(m)).len() <= heading_places(bs).len(),
        heading_places(bs.take(m)) == heading_places(bs).take(heading_places(bs.take(m)).len() as int),
        heading_places(bs.take(m)).len() < heading_places(bs).len() ==> heading_places(bs)[heading_places(
            bs.take(m),
        ).len() as int] >= m,
    decreases bs.len() - m,
{
    let p = heading_places(bs);
    if m == bs.len() {
        assert(bs.take(m) =~= bs);
        assert(p.take(p.len() as int) =~= p);
    } else {
        lemma_places_prefix(bs, m + 1);
        assert(bs.take(m + 1).drop_last() =~= bs.take(m));
        assert(bs.take(m + 1).last() == bs[m]);
        let q1 = heading_places(bs.take(m + 1));
        let q = heading_places(bs.take(m));
        if bs[m].element == Element::SceneHeading {
            assert(q1 == q.push(m));
            assert(q =~= p.take(q.len() as int));
            assert(p[q.len() as int] == q1[q.len() as int]);
        } else {
            assert(q1 == q);
        }
    }
}

/// The blocks above the scene at `k` hold exactly the first `k` cards.
proof fn lemma_cards_before(bs: Seq<BlockV>, k: int)
    requires
        0 <= k <= heading_places(bs).len(),
    ensures
        scene_list(bs.take(scene_start(bs, k))) == scene_list(bs).take(k),
{
    let p = heading_places(bs);
    let m = scene_start(bs, k);
    lemma_starts(bs);
    lemma_heading_places(bs);
    lemma_places_prefix(bs, m);
    let t = bs.take(m);
    let q = heading_places(t);
    lemma_heading_places(t);
    if q.len() > k {
        assert(q[k] == p[k]);
        assert(q[k] < t.len());
    }
    if q.len() < k {
        assert(p[q.len() as int] < p[k]);
    }
    assert(q.len() == k);
    assert forall|j: int| 0 <= j < k implies #[trigger] scene_list(t)[j] == scene_list(bs).take(k)[j] by {
        assert(q[j] == p[j]);
        assert(t[q[j]] == bs[p[j]]);
    }
    assert(scene_list(t) =~= scene_list(bs).take(k));
}

/// The blocks from the scene at `j` to the scene at `k` hold exactly the
/// cards `j..k`.
proof fn lemma_cards_between(bs: Seq<BlockV>, j: int, k: int)
    requires
        0 <= j <= k <= heading_places(bs).len(),
    ensures
        scene_list(bs.subrange(scene_start(bs, j), scene_start(bs, k))) == scene_list(bs).subrange(
            j,
            k,
        ),
        scene_list(bs.skip(scene_start(bs, k))) == scene_list(bs).skip(k),
{
    lemma_starts(bs);
    let a = scene_start(bs, j);
    let b = scene_start(bs, k);
    assert(a <= b);
    lemma_cards_before(bs, j);
    lemma_cards_before(bs, k);
    let l = scene_list(bs);
    assert(bs.take(b) =~= bs.take(a) + bs.subrange(a, b));
    lemma_cards_add(bs.take(a), bs.subrange(a, b));
    let s1 = scene_list(bs.subrange(a, b));
    assert(scene_list(bs.take(b)) == l.take(j) + s1);
    assert(s1.len() == k - j);
    assert forall|i: int| 0 <= i < k - j implies #[trigger] s1[i] == l.subrange(j, k)[i] by {
        assert((l.take(j) + s1)[j + i] == s1[i]);
        assert(l.take(k)[j + i] == l[j + i]);
    }
    assert(s1 =~= l.subrange(j, k));
    assert(bs =~= bs.take(b) + bs.skip(b));
    lemma_cards_add(bs.take(b), bs.skip(b));
    assert(l =~= l.take(k) + l.skip(k));
    assert(scene_list(bs.skip(b)) =~= l.skip(k));
}

/// A card moved on the wall moves its scene: the cards after the move are
/// the cards before it with the card at `from` taken out and put back in
/// front of the card that was at `to`.
pub proof fn law_moving_reorders_the_cards(bs: Seq<BlockV>, from: int, to: int)
    requires
        moves(bs, from, to),
    ensures
        scene_list(scene_moved(bs, from, to)) == (if to < from {
            scene_list(bs).remove(from).insert(to, scene_list(bs)[from])
        } else {
            scene_list(bs).remove(from).insert(to - 1, scene_list(bs)[from])
        }),
{
    let l = scene_list(bs);
    let a = scene_start(bs, from);
    let b = scene_start(bs, from + 1);
    let t = scene_start(bs, to);
    lemma_starts(bs);
    lemma_cards_before(bs, from);
    lemma_cards_between(bs, from, from + 1);
    if to < from {
        lemma_cards_before(bs, to);
        lemma_cards_between(bs, to, from);
        lemma_cards_between(bs, from + 1, from + 1);
        let (w, x, y, z) = (bs.take(t), bs.subrange(a, b), bs.subrange(t, a), bs.skip(b));
        lemma_cards_add(w, x);
        lemma_cards_add(w + x, y);
        lemma_cards_add(w + x + y, z);
        assert(scene_list(x) =~= seq![l[from]]);
        assert(scene_list(scene_moved(bs, from, to)) =~= l.take(to) + seq![l[from]] + l.subrange(
            to,
            from,
        ) + l.skip(from + 1));
        assert(l.take(to) + seq![l[from]] + l.subrange(to, from) + l.skip(from + 1)
            =~= l.remove(from).insert(to, l[from]));
    } else {
        lemma_cards_between(bs, from + 1, to);
        lemma_cards_between(bs, to, to);
        let (w, x, y, z) = (bs.take(a), bs.subrange(b, t), bs.subrange(a, b), bs.skip(t));
        lemma_cards_add(w, x);
        lemma_cards_add(w + x, y);
        lemma_cards_add(w + x + y, z);
        assert(scene_list(y) =~= seq![l[from]]);
        assert(scene_list(scene_moved(bs, from, to)) =~= l.take(from) + l.subrange(from + 1, to)
            + seq![l[from]] + l.skip(to));
        assert(l.take(from) + l.subrange(from + 1, to) + seq![l[from]] + l.skip(to)
            =~= l.remove(from).insert(to - 1, l[from]));
    }
}

/// Deleting the scene at `k` takes exactly its card off the wall.
pub proof fn law_deleting_takes_one_card(bs: Seq<BlockV>, k: int)
    requires
        0 <= k < heading_places(bs).len(),
    ensures
        scene_list(scene_deleted(bs, k)) == scene_list(bs).remove(k),
{
    let l = scene_list(bs);
    lemma_cards_before(bs, k);
    lemma_cards_between(bs, k + 1, k + 1);
    lemma_cards_add(bs.take(scene_start(bs, k)), bs.skip(scene_start(bs, k + 1)));
    assert(l.take(k) + l.skip(k + 1) =~= l.remove(k));
}

/// No heading stands between `m` and the first heading from `m` on, so
/// the headings above both are the same.
proof fn lemma_cards_to_next_heading(bs: Seq<BlockV>, m: int)
    requires
        0 <= m <= bs.len(),
    ensures
        heading_places(bs.take(heading_from(bs, m))) == heading_places(bs.take(m)),
        m <= heading_from(bs, m) <= bs.len(),
    decreases bs.len() - m,
{
    if m < bs.len() && bs[m].element != Element::SceneHeading {
        lemma_cards_to_next_heading(bs, m + 1);
        assert(bs.take(m + 1).drop_last() =~= bs.take(m));
        assert(bs.take(m + 1).last() == bs[m]);
    }
}

/// A new scene opened below block `i` gets the card right after the cards
/// of every heading at or above that block; the other cards stay as they
/// were.
pub proof fn law_new_scene_follows(bs: Seq<BlockV>, i: int, id: u64)
    requires
        0 <= i < bs.len(),
    ensures
        scene_list(bs.insert(heading_from(bs, i + 1), fresh_heading(id))) == scene_list(bs).insert(
            heading_places(bs.take(i + 1)).len() as int,
            card_of(fresh_heading(id)),
        ),
{
    let p = heading_places(bs);
    let l = scene_list(bs);
    let q = heading_from(bs, i + 1);
    lemma_cards_to_next_heading(bs, i + 1);
    let c = heading_places(bs.take(q)).len() as int;
    lemma_places_prefix(bs, q);
    lemma_heading_places(bs);
    lemma_heading_places(bs.take(q));
    if q < bs.len() {
        assert(bs[q].element == Element::SceneHeading) by {
            lemma_heading_from_is(bs, i + 1);
        }
        let k = choose|k: int| 0 <= k < p.len() && p[k] == q;
        if k < c {
            assert(heading_places(bs.take(q))[k] == p[k]);
        }
        if k > c {
            assert(p[c] < p[k]);
        }
        assert(scene_start(bs, c) == q);
    } else {
        if c < p.len() {
            assert(p[c] < bs.len());
        }
        assert(scene_start(bs, c) == q);
    }
    lemma_cards_before(bs, c);
    lemma_cards_between(bs, c, c);
    let f = fresh_heading(id);
    assert(bs.insert(q, f) =~= bs.take(q) + seq![f] + bs.skip(q));
    lemma_cards_add(bs.take(q), seq![f]);
    lemma_cards_add(bs.take(q) + seq![f], bs.skip(q));
    assert(heading_places(seq![f]) =~= seq![0int]) by {
        let one = seq![f];
        assert(one.drop_last() =~= Seq::<BlockV>::empty());
        assert(one.last() == f);
        assert(heading_places(Seq::<BlockV>::empty()) =~= Seq::<int>::empty());
        assert(heading_places(one) == heading_places(one.drop_last()).push(0));
    }
    assert(scene_list(seq![f]) =~= seq![card_of(f)]);
    assert(l.take(c) + seq![card_of(f)] + l.skip(c) =~= l.insert(c, card_of(f)));
}

/// The first heading from `m` on is a heading, where there is one.
proof fn lemma_heading_from_is(bs: Seq<BlockV>, m: int)
    requires
        0 <= m <= bs.len(),
    ensures
        heading_from(bs, m) < bs.len() ==> bs[heading_from(bs, m)].element == Element::SceneHeading,
    decreases bs.len() - m,
{
    if m < bs.len() && bs[m].element != Element::SceneHeading {
        lemma_heading_from_is(bs, m + 1);
    }
}

fn places_of(bs: &Vec<Block>) -> (r: Vec<usize>)
    ensures
        r@.len() == heading_places(views(bs@)).len(),
        forall|k: int| 0 <= k < r@.len() ==> r@[k] as int == #[trigger] heading_places(views(bs@))[k],
{
    let ghost all = views(bs@);
    let mut out: Vec<usize> = Vec::new();
    let mut i: usize = 0;
    while i < bs.len()
        invariant
            i <= bs@.len(),
            all == views(bs@),
            out@.len() == heading_places(all.take(i as int)).len(),
            forall|k: int|
                0 <= k < out@.len() ==> out@[k] as int == #[trigger] heading_places(
                    all.take(i as int),
                )[k],
        decreases bs@.len() - i,
    {
        proof {
            assert(all.take(i + 1).drop_last() =~= all.take(i as int));
            assert(all.take(i + 1).last() == bs@[i as int]@);
        }
        if bs[i].element == Element::SceneHeading {
            out.push(i);
        }
        i = i + 1;
    }
    proof {
        assert(all.take(i as int) =~= all);
    }
    out
}

impl Document {
    /// Move the scene at `from`, heading and all, in front of the scene at
    /// `to`, or to the end for `to` the number of scenes: the cards'
    /// drag and drop. False, and nothing moved, where it would land where it
    /// is or either place is off the wall.
    pub fn move_scene(&mut self, from: usize, to: usize) -> (r: bool)
        ensures
            r == moves(views(old(self).blocks@), from as int, to as int),
            r ==> views(final(self).blocks@) == scene_moved(
                views(old(self).blocks@),
                from as int,
                to as int,
            ),
            !r ==> final(self).blocks@ == old(self).blocks@,
            final(self).counter() == old(self).counter(),
            final(self).meta == old(self).meta,
            old(self).ids_fresh() ==> final(self).ids_fresh(),
    {
        let ghost all = views(self.blocks@);
        let places = places_of(&self.blocks);
        let n = places.len();
        if !(from < n && to <= n && to != from && to != from + 1) {
            return false;
        }
        proof {
            lemma_starts(all);
        }
        let len = self.blocks.len();
        let a = places[from];
        let b = if from + 1 < n {
            places[from + 1]
        } else {
            len
        };
        let t = if to < n {
            places[to]
        } else {
            len
        };
        proof {
            assert(a as int == scene_start(all, from as int));
            assert(b as int == scene_start(all, from + 1));
            assert(t as int == scene_start(all, to as int));
            assert(scene_start(all, from as int) <= scene_start(all, from + 1));
            if to < from {
                assert(scene_start(all, to as int) <= scene_start(all, from as int));
            } else {
                assert(scene_start(all, from + 1) <= scene_start(all, to as int));
            }
        }
        let mut out: Vec<Block> = Vec::new();
        if to < from {
            push_blocks(&mut out, &self.blocks, 0, t);
            push_blocks(&mut out, &self.blocks, a, b);
            push_blocks(&mut out, &self.blocks, t, a);
            push_blocks(&mut out, &self.blocks, b, len);
        } else {
            push_blocks(&mut out, &self.blocks, 0, a);
            push_blocks(&mut out, &self.blocks, b, t);
            push_blocks(&mut out, &self.blocks, a, b);
            push_blocks(&mut out, &self.blocks, t, len);
        }
        proof {
            assert(views(Seq::<Block>::empty()) =~= Seq::<BlockV>::empty());
            assert(all.subrange(0, t as int) =~= all.take(t as int));
            assert(all.subrange(0, a as int) =~= all.take(a as int));
            assert(all.subrange(b as int, len as int) =~= all.skip(b as int));
            assert(all.subrange(t as int, len as int) =~= all.skip(t as int));
            assert(views(out@) =~= scene_moved(all, from as int, to as int));
            law_moving_keeps_every_block(all, from as int, to as int);
            if old(self).ids_fresh() {
                lemma_same_blocks_fresh(old(self).blocks@, out@, self.next_id);
            }
        }
        self.blocks = out;
        true
    }

    /// Delete the scene at `k`, heading and all: the card's Delete. A script
    /// left with nothing gets an empty heading to write in. False, and
    /// nothing deleted, where there is no such scene.
    pub fn delete_scene(&mut self, k: usize) -> (r: bool)
        requires
            old(self).counter() < u64::MAX,
        ensures
            r == (k < heading_places(views(old(self).blocks@)).len()),
            r && scene_deleted(views(old(self).blocks@), k as int).len() > 0 ==> views(
                final(self).blocks@,
            ) == scene_deleted(views(old(self).blocks@), k as int) && final(self).counter()
                == old(self).counter(),
            r && scene_deleted(views(old(self).blocks@), k as int).len() == 0 ==> views(
                final(self).blocks@,
            ) == seq![fresh_heading(old(self).counter())] && final(self).counter() == old(
                self,
            ).counter() + 1,
            !r ==> *final(self) == *old(self),
            final(self).meta == old(self).meta,
            old(self).ids_fresh() ==> final(self).ids_fresh(),
    {
        let ghost all = views(self.blocks@);
        let places = places_of(&self.blocks);
        let n = places.len();
        if k >= n {
            return false;
        }
        proof {
            lemma_starts(all);
            assert(scene_start(all, k as int) <= scene_start(all, k + 1));
        }
        let len = self.blocks.len();
        let a = places[k];
        let b = if k + 1 < n {
            places[k + 1]
        } else {
            len
        };
        let mut out: Vec<Block> = Vec::new();
        push_blocks(&mut out, &self.blocks, 0, a);
        push_blocks(&mut out, &self.blocks, b, len);
        proof {
            assert(views(Seq::<Block>::empty()) =~= Seq::<BlockV>::empty());
            assert(all.subrange(0, a as int) =~= all.take(a as int));
            assert(all.subrange(b as int, len as int) =~= all.skip(b as int));
            assert(views(out@) =~= scene_deleted(all, k as int));
            if old(self).ids_fresh() {
                assert forall|i: int| 0 <= i < out@.len() implies #[trigger] out@[i].id
                    < self.next_id by {
                    assert(views(out@)[i] == out@[i]@);
                    if i < a {
                        assert(all[i] == self.blocks@[i]@);
                    } else {
                        assert(all[i - a + b] == self.blocks@[i - a + b]@);
                    }
                }
            }
        }
        self.blocks = out;
        let ghost kept = self.blocks@;
        self.ensure_not_empty();
        proof {
            if kept.len() == 0 {
                assert(self.blocks@[0].text@ =~= Seq::<char>::empty());
                assert(self.blocks@[0].note@ =~= Seq::<char>::empty());
                assert(views(self.blocks@) =~= seq![fresh_heading(old(self).counter())]);
            }
        }
        true
    }

    /// Open a new, empty scene straight after the scene block `id` is in
    /// (Ctrl+Enter): a heading in front of the next heading below it, or
    /// at the end. Gives the new heading's id, or `None`, and nothing
    /// added, where there is no such block.
    pub fn new_scene_after(&mut self, id: u64) -> (r: Option<u64>)
        requires
            old(self).counter() < u64::MAX,
        ensures
            match pos_of(views(old(self).blocks@), id) {
                Some(i) => {
                    &&& r == Some(old(self).counter())
                    &&& views(final(self).blocks@) == views(old(self).blocks@).insert(
                        heading_from(views(old(self).blocks@), i + 1),
                        fresh_heading(old(self).counter()),
                    )
                    &&& final(self).counter() == old(self).counter() + 1
                },
                None => r is None && *final(self) == *old(self),
            },
            final(self).meta == old(self).meta,
            old(self).ids_fresh() ==> final(self).ids_fresh(),
    {
        let ghost all = views(self.blocks@);
        proof {
            lemma_pos_of(self.blocks@, id);
            lemma_first_with_id(self.blocks@, id);
        }
        let at = match self.index_of(id) {
            Some(i) => i,
            None => {
                return None;
            },
        };
        proof {
            assert(pos_of(all, id) == Some(at as int));
            assert(at < self.blocks@.len());
        }
        let len = self.blocks.len();
        let mut j: usize = at + 1;
        while j < len && self.blocks[j].element != Element::SceneHeading
            invariant
                at < j <= len,
                len == self.blocks@.len(),
                all == views(self.blocks@),
                heading_from(all, at + 1) == heading_from(all, j as int),
            decreases len - j,
        {
            proof {
                assert(all[j as int] == self.blocks@[j as int]@);
            }
            j = j + 1;
        }
        proof {
            if j < len {
                assert(all[j as int] == self.blocks@[j as int]@);
            }
            assert(heading_from(all, j as int) == j);
        }
        let b = self.new_block(Element::SceneHeading, "");
        let fresh = b.id;
        let ghost before = self.blocks@;
        self.blocks.insert(j, b);
        proof {
            reveal_strlit("");
            assert(self.blocks@ == before.insert(j as int, b));
            assert(b.text@ =~= Seq::<char>::empty());
            assert(b.note@ =~= Seq::<char>::empty());
            assert(b@ == fresh_heading(old(self).counter()));
            assert(views(self.blocks@) =~= all.insert(j as int, fresh_heading(old(self).counter())));
            if old(self).ids_fresh() {
                assert forall|i: int| 0 <= i < self.blocks@.len() implies #[trigger] self.blocks@[i].id
                    < self.next_id by {
                    if i < j {
                        assert(self.blocks@[i] == before[i]);
                    } else if i > j {
                        assert(self.blocks@[i] == before[i - 1]);
                    }
                }
            }
        }
        Some(fresh)
    }

    /// One card per scene heading, in order.
    pub fn scenes(&self) -> (r: Vec<Scene>)
        ensures
            r@.map_values(|s: Scene| s@) == scene_list(views(self.blocks@)),
    {
        let ghost all = views(self.blocks@);
        let places = places_of(&self.blocks);
        let mut out: Vec<Scene> = Vec::new();
        let mut k: usize = 0;
        proof {
            lemma_heading_places(all);
        }
        while k < places.len()
            invariant
                k <= places@.len(),
                all == views(self.blocks@),
                places@.len() == heading_places(all).len(),
                forall|j: int|
                    0 <= j < places@.len() ==> places@[j] as int == #[trigger] heading_places(
                        all,
                    )[j],
                forall|j: int|
                    0 <= j < heading_places(all).len() ==> 0 <= #[trigger] heading_places(all)[j]
                        < all.len(),
                out@.len() == k,
                forall|j: int| 0 <= j < k ==> #[trigger] out@[j]@ == card_of(all[heading_places(all)[j]]),
            decreases places@.len() - k,
        {
            let i = places[k];
            proof {
                assert(heading_places(all)[k as int] == i as int);
            }
            let b = &self.blocks[i];
            out.push(
                Scene { id: b.id, heading: b.text.clone(), synopsis: b.note.clone(), tint: b.tint },
            );
            proof {
                assert(all[i as int] == self.blocks@[i as int]@);
            }
            k = k + 1;
        }
        proof {
            assert(out@.map_values(|s: Scene| s@) =~= scene_list(all));
        }
        out
    }

    /// The id of the heading of the scene block `id` is in; `None` for a
    /// block above the first heading, or for no such block.
    pub fn scene_of(&self, id: u64) -> (r: Option<u64>)
        ensures
            r == (match pos_of(views(self.blocks@), id) {
                Some(i) => match heading_above(views(self.blocks@), i) {
                    Some(h) => Some(self.blocks@[h].id),
                    None => None,
                },
                None => None,
            }),
    {
        let ghost all = views(self.blocks@);
        proof {
            lemma_pos_of(self.blocks@, id);
            lemma_first_with_id(self.blocks@, id);
        }
        let at = match self.index_of(id) {
            Some(i) => i,
            None => {
                return None;
            },
        };
        proof {
            assert(first_with_id(self.blocks@, id) == Some(at as int));
            assert(pos_of(all, id) == Some(at as int));
            assert(at < self.blocks@.len());
        }
        let n = self.blocks.len();
        assert(at < n);
        let mut i: usize = at + 1;
        while i > 0
            invariant
                i <= at + 1,
                at < self.blocks@.len(),
                all == views(self.blocks@),
                pos_of(all, id) == Some(at as int),
                heading_above(all, at as int) == heading_above(all, i - 1),
            decreases i,
        {
            proof {
                assert(all[i - 1] == self.blocks@[i - 1]@);
            }
            if self.blocks[i - 1].element == Element::SceneHeading {
                proof {
                    assert(heading_above(all, i - 1) == Some(i - 1));
                }
                return Some(self.blocks[i - 1].id);
            }
            proof {
                assert(heading_above(all, i - 1) == heading_above(all, i - 2));
            }
            i = i - 1;
        }
        None
    }
}

} // verus!
