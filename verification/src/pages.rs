//! Reading mode: the script exactly as it will print, one sheet at a time,
//! turned like a book. The sheets are the title page and then the printed
//! pages, from the same composition the PDF is written from. This module
//! keeps which sheet is on show and who is speaking on each printed line;
//! the drawing, the slide of a turn and the scroll wheel's travel are the
//! window's.

use vstd::prelude::*;

use crate::export::{first_page_with, Line, LineV};
use crate::model::{base_character, cue_name, Element};
use crate::text::chars_of;

verus! {

/// Which sheet is on show.
pub struct PagesState {
    /// The sheet on show: 0 is the title page, 1 the first page of the body.
    pub current: usize,
    /// Title page plus body pages, as of the last frame.
    pub sheets: usize,
    /// Open on the page that holds this block, next frame.
    pub show_block: Option<u64>,
}

impl Default for PagesState {
    fn default() -> (r: PagesState)
        ensures
            r.current == 0,
            r.sheets == 1,
            r.show_block is None,
    {
        PagesState { current: 0, sheets: 1, show_block: None }
    }
}

/// A key that turns the page.
#[derive(Clone, Copy, PartialEq, Eq, Debug, Structural)]
pub enum PageKey {
    /// Right, Down, Page Down or Space.
    Forward,
    /// Left, Up or Page Up.
    Back,
    /// Home.
    First,
    /// End.
    Last,
}

/// The last sheet there is.
pub open spec fn last_sheet(sheets: usize) -> nat {
    if sheets == 0 {
        0
    } else {
        (sheets - 1) as nat
    }
}

/// The sheet a turn to `sheet` lands on: held to the last one.
pub open spec fn held(sheet: nat, sheets: usize) -> nat {
    if sheet < last_sheet(sheets) {
        sheet
    } else {
        last_sheet(sheets)
    }
}

/// The sheet a key asks for, from `current`.
pub open spec fn asked(key: PageKey, current: usize, sheets: usize) -> Option<nat> {
    match key {
        PageKey::Forward => Some((current + 1) as nat),
        PageKey::Back => if current > 0 {
            Some((current - 1) as nat)
        } else {
            None
        },
        PageKey::First => Some(0),
        PageKey::Last => Some(last_sheet(sheets)),
    }
}

/// The sheet on show after `key`, from `current`.
pub open spec fn pressed(key: PageKey, current: usize, sheets: usize) -> nat {
    match asked(key, current, sheets) {
        Some(s) => held(s, sheets),
        None => current as nat,
    }
}

/// Turning never leaves the book: from any sheet of it, every key lands on a
/// sheet of it; Home opens the title page, End the last page; and a page
/// turned forward and back again is where it was.
pub proof fn law_turning_stays_in_the_book(key: PageKey, current: usize, sheets: usize)
    requires
        current <= last_sheet(sheets),
    ensures
        pressed(key, current, sheets) <= last_sheet(sheets),
        pressed(PageKey::First, current, sheets) == 0,
        pressed(PageKey::Last, current, sheets) == last_sheet(sheets),
        current < last_sheet(sheets) ==> pressed(PageKey::Forward, current, sheets) == current + 1
            && pressed(PageKey::Back, (current + 1) as usize, sheets) == current,
        current == last_sheet(sheets) ==> pressed(PageKey::Forward, current, sheets) == current,
{
}

/// The pages as the specifications see them.
pub open spec fn pages_view(pages: Seq<Vec<Line>>) -> Seq<Seq<LineV>> {
    pages.map_values(|p: Vec<Line>| p@.map_values(|l: Line| l@))
}

impl PagesState {
    /// Turn to `sheet`, held to the last sheet. Returns the way the page
    /// turned, `true` forward, or `None` where it stayed.
    pub fn turn_to(&mut self, sheet: usize) -> (r: Option<bool>)
        ensures
            final(self).sheets == old(self).sheets,
            final(self).show_block == old(self).show_block,
            final(self).current == held(sheet as nat, old(self).sheets),
            r == (if held(sheet as nat, old(self).sheets) != old(self).current {
                Some(held(sheet as nat, old(self).sheets) > old(self).current)
            } else {
                None::<bool>
            }),
    {
        let last = if self.sheets == 0 {
            0
        } else {
            self.sheets - 1
        };
        let sheet = if sheet < last {
            sheet
        } else {
            last
        };
        if sheet != self.current {
            let forward = sheet > self.current;
            self.current = sheet;
            Some(forward)
        } else {
            None
        }
    }

    /// What a key does: forward, back (not past the title page), to the
    /// title page or to the last page.
    pub fn press(&mut self, key: PageKey) -> (r: Option<bool>)
        ensures
            final(self).sheets == old(self).sheets,
            final(self).show_block == old(self).show_block,
            final(self).current == pressed(key, old(self).current, old(self).sheets),
            r == (if pressed(key, old(self).current, old(self).sheets) != old(self).current {
                Some(pressed(key, old(self).current, old(self).sheets) > old(self).current)
            } else {
                None::<bool>
            }),
    {
        match key {
            PageKey::Forward => {
                let next = if self.current < usize::MAX {
                    self.current + 1
                } else {
                    self.current
                };
                if self.current == usize::MAX {
                    // no sheet lies past the last one a usize can number
                    assert(held((self.current + 1) as nat, self.sheets) == held(
                        self.current as nat,
                        self.sheets,
                    ));
                }
                self.turn_to(next)
            },
            PageKey::Back => {
                if self.current > 0 {
                    self.turn_to(self.current - 1)
                } else {
                    None
                }
            },
            PageKey::First => self.turn_to(0),
            PageKey::Last => {
                let last = if self.sheets == 0 {
                    0
                } else {
                    self.sheets - 1
                };
                self.turn_to(last)
            },
        }
    }

    /// Bring the state up to the pages of this frame: a title page and one
    /// sheet per page, the sheet on show held to the last, and, where a
    /// block was asked for, the page that first holds it.
    pub fn settle(&mut self, pages: &[Vec<Line>])
        requires
            pages@.len() < usize::MAX,
        ensures
            final(self).sheets == pages@.len() + 1,
            final(self).show_block is None,
            final(self).current == (match old(self).show_block {
                Some(b) => match first_page_with(pages_view(pages@), b) {
                    Some(k) => k + 1,
                    None => if old(self).current >= pages@.len() + 1 {
                        pages@.len() as int
                    } else {
                        old(self).current as int
                    },
                },
                None => if old(self).current >= pages@.len() + 1 {
                    pages@.len() as int
                } else {
                    old(self).current as int
                },
            }),
    {
        self.sheets = 1 + pages.len();
        if self.current >= self.sheets {
            self.current = self.sheets - 1;
        }
        let wanted = self.show_block;
        self.show_block = None;
        if let Some(block) = wanted {
            if let Some(k) = page_holding(pages, block) {
                self.current = k + 1;
            }
        }
    }
}

/// Whether `page` holds a line of `block`.
fn page_has(page: &Vec<Line>, block: u64) -> (r: bool)
    ensures
        r == holds_block(page@.map_values(|l: Line| l@), block),
{
    let ghost lv = page@.map_values(|l: Line| l@);
    let mut j: usize = 0;
    while j < page.len()
        invariant
            j <= page@.len(),
            lv == page@.map_values(|l: Line| l@),
            forall|m: int| 0 <= m < j ==> (#[trigger] lv[m]).block != Some(block),
        decreases page@.len() - j,
    {
        if page[j].block == Some(block) {
            assert(lv[j as int].block == Some(block));
            return true;
        }
        j = j + 1;
    }
    false
}

/// The first page that holds a line of `block`.
fn page_holding(pages: &[Vec<Line>], block: u64) -> (r: Option<usize>)
    ensures
        r matches Some(k) ==> k < pages@.len() && first_page_with(pages_view(pages@), block)
            == Some(k as int),
        r is None ==> first_page_with(pages_view(pages@), block) is None,
{
    let ghost pv = pages_view(pages@);
    let mut k: usize = 0;
    while k < pages.len()
        invariant
            k <= pages@.len(),
            pv == pages_view(pages@),
            pv.len() == pages@.len(),
            forall|m: int| 0 <= m < k ==> !holds_block(#[trigger] pv[m], block),
        decreases pages@.len() - k,
    {
        assert(pv[k as int] == pages@[k as int]@.map_values(|l: Line| l@));
        if page_has(&pages[k], block) {
            proof {
                lemma_first_page_with(pv, block, k as int);
            }
            return Some(k);
        }
        k = k + 1;
    }
    proof {
        lemma_no_page_with(pv, block);
    }
    None
}

/// Whether a page holds a line of `block`.
pub open spec fn holds_block(p: Seq<LineV>, block: u64) -> bool {
    exists|j: int| 0 <= j < p.len() && (#[trigger] p[j]).block == Some(block)
}

proof fn lemma_first_page_with(pv: Seq<Seq<LineV>>, block: u64, k: int)
    requires
        0 <= k < pv.len(),
        holds_block(pv[k], block),
        forall|m: int| 0 <= m < k ==> !holds_block(#[trigger] pv[m], block),
    ensures
        first_page_with(pv, block) == Some(k),
    decreases k,
{
    if k > 0 {
        let rest = pv.drop_first();
        assert(!holds_block(pv[0], block));
        assert(rest[k - 1] == pv[k]);
        assert forall|m: int| 0 <= m < k - 1 implies !holds_block(#[trigger] rest[m], block) by {
            assert(rest[m] == pv[m + 1]);
        }
        lemma_first_page_with(rest, block, k - 1);
    }
}

proof fn lemma_no_page_with(pv: Seq<Seq<LineV>>, block: u64)
    requires
        forall|m: int| 0 <= m < pv.len() ==> !holds_block(#[trigger] pv[m], block),
    ensures
        first_page_with(pv, block) is None,
    decreases pv.len(),
{
    if pv.len() > 0 {
        let rest = pv.drop_first();
        assert(!holds_block(pv[0], block));
        assert forall|m: int| 0 <= m < rest.len() implies !holds_block(#[trigger] rest[m], block) by {
            assert(rest[m] == pv[m + 1]);
        }
        lemma_no_page_with(rest, block);
    }
}

// ------------------------------------------------------------- speakers --

/// Who is speaking after line `l`, given who was before it: a cue names its
/// speaker (an empty cue changes nothing), dialogue, parentheticals and
/// spacing keep them, anything else ends the speech.
pub open spec fn who_after(who: Option<Seq<char>>, l: LineV) -> Option<Seq<char>> {
    match l.element {
        Some(Element::Character) => if cue_name(l.text).len() > 0 {
            Some(cue_name(l.text))
        } else {
            who
        },
        Some(Element::Dialogue) | Some(Element::Parenthetical) | None => who,
        _ => None,
    }
}

/// The speaker on each line of a page, and who is speaking at its foot.
pub open spec fn page_speakers(who: Option<Seq<char>>, p: Seq<LineV>) -> (
    Seq<Option<Seq<char>>>,
    Option<Seq<char>>,
)
    decreases p.len(),
{
    if p.len() == 0 {
        (seq![], who)
    } else {
        let (row, w) = page_speakers(who, p.drop_last());
        let w2 = who_after(w, p.last());
        (row.push(w2), w2)
    }
}

/// The speaker on every line of every page, worked out across the pages so
/// a speech that runs over a page break keeps its speaker.
pub open spec fn speakers_of(pages: Seq<Seq<LineV>>) -> (
    Seq<Seq<Option<Seq<char>>>>,
    Option<Seq<char>>,
)
    decreases pages.len(),
{
    if pages.len() == 0 {
        (seq![], None)
    } else {
        let (rows, w) = speakers_of(pages.drop_last());
        let (row, w2) = page_speakers(w, pages.last());
        (rows.push(row), w2)
    }
}

proof fn lemma_page_speakers_at(who: Option<Seq<char>>, p: Seq<LineV>)
    ensures
        page_speakers(who, p).0.len() == p.len(),
        forall|j: int|
            0 <= j < p.len() ==> #[trigger] page_speakers(who, p).0[j] == page_speakers(
                who,
                p.take(j + 1),
            ).1,
        forall|j: int|
            0 <= j < p.len() ==> #[trigger] page_speakers(who, p.take(j + 1)).1 == who_after(
                page_speakers(who, p.take(j)).1,
                p[j],
            ),
    decreases p.len(),
{
    if p.len() > 0 {
        let q = p.drop_last();
        lemma_page_speakers_at(who, q);
        let row = page_speakers(who, p).0;
        let qrow = page_speakers(who, q).0;
        assert(p.take(p.len() as int) =~= p);
        assert forall|j: int| 0 <= j < p.len() implies #[trigger] page_speakers(who, p).0[j]
            == page_speakers(who, p.take(j + 1)).1 by {
            if j < q.len() {
                assert(row[j] == qrow[j]);
                assert(q.take(j + 1) =~= p.take(j + 1));
            }
        }
        assert forall|j: int| 0 <= j < p.len() implies #[trigger] page_speakers(
            who,
            p.take(j + 1),
        ).1 == who_after(page_speakers(who, p.take(j)).1, p[j]) by {
            assert(p.take(j + 1).drop_last() =~= p.take(j));
            assert(p.take(j + 1).last() == p[j]);
        }
    }
}

/// On a page, the speaker runs on from a cue through its speech: a line of
/// dialogue or a parenthetical under a cue or more of the speech has the
/// speaker of the line above it, and a cue naming someone makes them the
/// speaker.
pub proof fn law_a_speech_keeps_its_speaker(who: Option<Seq<char>>, p: Seq<LineV>)
    ensures
        forall|j: int|
            0 < j < p.len() && (p[j].element == Some(Element::Dialogue) || p[j].element == Some(
                Element::Parenthetical,
            )) && (p[j - 1].element == Some(Element::Character) || p[j - 1].element == Some(
                Element::Dialogue,
            ) || p[j - 1].element == Some(Element::Parenthetical)) ==> #[trigger] page_speakers(
                who,
                p,
            ).0[j] == page_speakers(who, p).0[j - 1],
        forall|j: int|
            0 <= j < p.len() && p[j].element == Some(Element::Character) && cue_name(p[j].text).len()
                > 0 ==> #[trigger] page_speakers(who, p).0[j] == Some(cue_name(p[j].text)),
{
    lemma_page_speakers_at(who, p);
}

pub open spec fn name_view(o: Option<String>) -> Option<Seq<char>> {
    match o {
        Some(s) => Some(s@),
        None => None,
    }
}

pub open spec fn row_view(r: Seq<Option<String>>) -> Seq<Option<Seq<char>>> {
    r.map_values(|o: Option<String>| name_view(o))
}

pub open spec fn rows_view(rs: Seq<Vec<Option<String>>>) -> Seq<Seq<Option<Seq<char>>>> {
    rs.map_values(|r: Vec<Option<String>>| row_view(r@))
}

/// Who is speaking on every printed line, page by page: the name of the
/// last cue while its speech runs on, across page breaks too.
pub fn speakers(pages: &[Vec<Line>]) -> (r: Vec<Vec<Option<String>>>)
    ensures
        rows_view(r@) == speakers_of(pages_view(pages@)).0,
{
    let ghost pv = pages_view(pages@);
    let mut out: Vec<Vec<Option<String>>> = Vec::new();
    let mut who: Option<String> = None;
    let mut i: usize = 0;
    proof {
        assert(pv.take(0) =~= Seq::<Seq<LineV>>::empty());
        assert(rows_view(out@) =~= Seq::<Seq<Option<Seq<char>>>>::empty());
    }
    while i < pages.len()
        invariant
            i <= pages@.len(),
            pv == pages_view(pages@),
            pv.len() == pages@.len(),
            (rows_view(out@), name_view(who)) == speakers_of(pv.take(i as int)),
        decreases pages@.len() - i,
    {
        let page = &pages[i];
        let ghost lv = page@.map_values(|l: Line| l@);
        let ghost w0 = name_view(who);
        assert(pv[i as int] == lv);
        let mut row: Vec<Option<String>> = Vec::new();
        let mut j: usize = 0;
        proof {
            assert(lv.take(0) =~= Seq::<LineV>::empty());
            assert(row_view(row@) =~= Seq::<Option<Seq<char>>>::empty());
        }
        while j < page.len()
            invariant
                j <= page@.len(),
                lv == page@.map_values(|l: Line| l@),
                (row_view(row@), name_view(who)) == page_speakers(w0, lv.take(j as int)),
            decreases page@.len() - j,
        {
            let line = &page[j];
            proof {
                assert(lv.take(j + 1).drop_last() =~= lv.take(j as int));
                assert(lv.take(j + 1).last() == line@);
            }
            match line.element {
                Some(Element::Character) => {
                    let n = base_character(line.text.as_str());
                    let nc = chars_of(n.as_str());
                    if nc.len() > 0 {
                        who = Some(n);
                    }
                },
                Some(Element::Dialogue) | Some(Element::Parenthetical) | None => {},
                _ => {
                    who = None;
                },
            }
            let here = match &who {
                Some(s) => Some(s.clone()),
                None => None,
            };
            let ghost before = row@;
            row.push(here);
            proof {
                assert(row@ =~= before.push(here));
                assert(row_view(row@) =~= row_view(before).push(name_view(here)));
            }
            j = j + 1;
        }
        proof {
            assert(lv.take(j as int) =~= lv);
            assert(pv.take(i + 1).drop_last() =~= pv.take(i as int));
            assert(pv.take(i + 1).last() == lv);
        }
        let ghost before = out@;
        out.push(row);
        proof {
            assert(out@ =~= before.push(row));
            assert(rows_view(out@) =~= rows_view(before).push(row_view(row@)));
        }
        i = i + 1;
    }
    proof {
        assert(pv.take(i as int) =~= pv);
    }
    out
}

} // verus!
