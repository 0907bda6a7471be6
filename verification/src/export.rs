//! Turning the document into pages.
//!
//! Everything downstream (page count, plain text, PDF) is built from one
//! composition pass so the page count you see in the status bar is the page
//! count you get in the PDF.

use vstd::prelude::*;

use crate::model::{
    blanks_before, indent_of, paren_wrap, paren_wrapped, upper_element,
    width_of, wrap_chars, wrapped, Block, Document, Element, LINES_PER_PAGE, PAGE_COLS,
};
use crate::model::{cue_name, cue_name_of, Meta, MetaV};
use crate::storage::{slug, slugify};
use crate::text::{
    replace, replace_chars,
    chars_of, dec, is_blank, parse_usize, parse_usize_spec, push_all, push_decimal, push_str,
    slice_of, string_of, to_upper, trim, trim_chars, upper,
};

verus! {

pub struct Line {
    /// Indent in characters from the left text margin.
    pub indent: usize,
    pub text: String,
    pub element: Option<Element>,
    /// The block the line came from; `None` for spacing.
    pub block: Option<u64>,
    /// On the first line of a scene heading, the scene's number.
    pub scene: Option<usize>,
}

/// A line as the specifications see it.
pub ghost struct LineV {
    pub indent: usize,
    pub text: Seq<char>,
    pub element: Option<Element>,
    pub block: Option<u64>,
    pub scene: Option<usize>,
}

impl View for Line {
    type V = LineV;

    open spec fn view(&self) -> LineV {
        LineV {
            indent: self.indent,
            text: self.text@,
            element: self.element,
            block: self.block,
            scene: self.scene,
        }
    }
}

impl Clone for Line {
    fn clone(&self) -> (r: Line)
        ensures
            r@ == self@,
    {
        Line {
            indent: self.indent,
            text: self.text.clone(),
            element: self.element,
            block: self.block,
            scene: self.scene,
        }
    }
}

/// A line of spacing.
pub open spec fn blank_line() -> LineV {
    LineV { indent: 0, text: seq![], element: None, block: None, scene: None }
}

impl Line {
    fn blank() -> (r: Line)
        ensures
            r@ == blank_line(),
    {
        Line { indent: 0, text: String::new(), element: None, block: None, scene: None }
    }
}

pub open spec fn blank_lines(n: nat) -> Seq<LineV> {
    Seq::new(n, |i: int| blank_line())
}

/// The text a block is printed with: parentheticals in their parentheses,
/// capitals where the format wants them.
pub open spec fn body_text(e: Element, t: Seq<char>) -> Seq<char> {
    body_text_given(e, t, upper(t))
}

/// The printed text of a block, given the capitals of its text.
pub open spec fn body_text_given(e: Element, t: Seq<char>, capitals: Seq<char>) -> Seq<char> {
    if e == Element::Parenthetical {
        paren_wrapped(t)
    } else if upper_element(e) {
        capitals
    } else {
        t
    }
}

/// A printed block's lines: its body wrapped to the element's width, set
/// at the element's indent, the first line of a heading carrying the
/// scene's number.
pub open spec fn block_lines(b: Block, scene_no: nat) -> Seq<LineV> {
    let e = b.element;
    wrapped(body_text(e, trim(b.text@)), width_of(e)).map(
        |k: int, l: Seq<char>|
            LineV {
                indent: indent_of(e),
                text: l,
                element: Some(e),
                block: Some(b.id),
                scene: if k == 0 && e == Element::SceneHeading {
                    Some(scene_no as usize)
                } else {
                    None
                },
            },
    )
}

/// How many scene headings, empty or not, are among `bs`.
pub open spec fn headings_in(bs: Seq<Block>) -> nat
    decreases bs.len(),
{
    if bs.len() == 0 {
        0
    } else {
        headings_in(bs.drop_last()) + if bs.last().element == Element::SceneHeading {
            1nat
        } else {
            0nat
        }
    }
}

/// The lines of the first `n` blocks. A block with no text prints nothing;
/// every other block is set off from what came before by its element's
/// blank lines.
pub open spec fn compose_prefix(bs: Seq<Block>, n: nat) -> Seq<LineV>
    decreases n,
{
    if n == 0 || n > bs.len() {
        seq![]
    } else {
        let prev = compose_prefix(bs, (n - 1) as nat);
        let b = bs[n - 1];
        if trim(b.text@).len() == 0 {
            prev
        } else {
            prev + blank_lines(
                if prev.len() > 0 {
                    blanks_before(b.element) as nat
                } else {
                    0
                },
            ) + block_lines(b, headings_in(bs.take(n as int)))
        }
    }
}

/// The document flattened into wrapped, indented lines.
pub open spec fn composed(bs: Seq<Block>) -> Seq<LineV> {
    compose_prefix(bs, bs.len())
}

proof fn lemma_headings_le(bs: Seq<Block>)
    ensures
        headings_in(bs) <= bs.len(),
    decreases bs.len(),
{
    if bs.len() > 0 {
        lemma_headings_le(bs.drop_last());
    }
}

/// The text of a block as it is printed.
fn body_of(e: Element, t: &[char]) -> (r: Vec<char>)
    ensures
        r@ == body_text(e, t@),
{
    let capitals = if e.is_upper() {
        to_upper(t)
    } else {
        slice_all(t)
    };
    let r = body_given(e, string_of(t).as_str(), string_of(capitals.as_slice()).as_str());
    chars_of(r.as_str())
}

/// A block's trimmed text as it is printed, given its capitals (read only
/// for the elements set in capitals): a parenthetical in one pair of
/// parentheses, a heading, cue, transition or shot in capitals, the rest as
/// it is.
pub fn body_given(e: Element, text: &str, capitals: &str) -> (r: String)
    ensures
        r@ == body_text_given(e, text@, capitals@),
{
    let t = chars_of(text);
    if e == Element::Parenthetical {
        string_of(paren_wrap(t.as_slice()).as_slice())
    } else if e.is_upper() {
        capitals.to_owned()
    } else {
        text.to_owned()
    }
}

fn slice_all(t: &[char]) -> (r: Vec<char>)
    ensures
        r@ == t@,
{
    crate::text::slice_of(t, 0, t.len())
}

/// Flatten the document into wrapped, indented lines.
pub fn compose(doc: &Document) -> (r: Vec<Line>)
    ensures
        r@.map_values(|l: Line| l@) == composed(doc.blocks@),
{
    let bs = &doc.blocks;
    let mut out: Vec<Line> = Vec::new();
    let mut scene_no: usize = 0;
    let mut i: usize = 0;
    while i < bs.len()
        invariant
            i <= bs@.len(),
            scene_no == headings_in(bs@.take(i as int)),
            out@.map_values(|l: Line| l@) == compose_prefix(bs@, i as nat),
        decreases bs@.len() - i,
    {
        proof {
            assert(bs@.take(i + 1).drop_last() =~= bs@.take(i as int));
            lemma_headings_le(bs@.take(i + 1));
        }
        let block = &bs[i];
        if block.element == Element::SceneHeading {
            scene_no = scene_no + 1;
        }
        let raw = chars_of(block.text.as_str());
        let text = trim_chars(raw.as_slice());
        if text.len() > 0 {
            let e = block.element;
            let ghost prev = out@.map_values(|l: Line| l@);
            if out.len() > 0 {
                let n = e.blank_lines_before();
                let mut k: usize = 0;
                while k < n
                    invariant
                        k <= n,
                        out@.map_values(|l: Line| l@) == prev + blank_lines(k as nat),
                    decreases n - k,
                {
                    let ghost before = out@.map_values(|l: Line| l@);
                    out.push(Line::blank());
                    proof {
                        assert(out@.map_values(|l: Line| l@) =~= before.push(blank_line()));
                        assert(prev + blank_lines((k + 1) as nat) =~= (prev + blank_lines(
                            k as nat,
                        )).push(blank_line()));
                    }
                    k = k + 1;
                }
            } else {
                proof {
                    assert(prev + blank_lines(0) =~= prev);
                }
            }
            let ghost mid = out@.map_values(|l: Line| l@);
            let body = body_of(e, text.as_slice());
            let ls = wrap_chars(body.as_slice(), e.width_cols());
            let ghost wl = ls@.map_values(|l: Vec<char>| l@);
            let ghost want = block_lines(*block, scene_no as nat);
            let mut k: usize = 0;
            while k < ls.len()
                invariant
                    k <= ls@.len(),
                    wl == ls@.map_values(|l: Vec<char>| l@),
                    wl == wrapped(body_text(e, trim(block.text@)), width_of(e)),
                    want == block_lines(*block, scene_no as nat),
                    e == block.element,
                    out@.map_values(|l: Line| l@) == mid + want.take(k as int),
                decreases ls@.len() - k,
            {
                let ghost before = out@.map_values(|l: Line| l@);
                let scene = if k == 0 && e == Element::SceneHeading {
                    Some(scene_no)
                } else {
                    None
                };
                let line = Line {
                    indent: e.indent_cols(),
                    text: string_of(ls[k].as_slice()),
                    element: Some(e),
                    block: Some(block.id),
                    scene,
                };
                out.push(line);
                proof {
                    assert(wl[k as int] == ls@[k as int]@);
                    assert(want[k as int] == line@);
                    assert(out@.map_values(|l: Line| l@) =~= before.push(line@));
                    assert(mid + want.take(k + 1) =~= (mid + want.take(k as int)).push(
                        want[k as int],
                    ));
                }
                k = k + 1;
            }
            proof {
                assert(want.take(k as int) =~= want);
            }
        }
        i = i + 1;
    }
    proof {
        assert(bs@.take(i as int) =~= bs@);
    }
    out
}

/// A line of an element sits at that element's indent and within its width.
pub open spec fn laid_out(l: LineV) -> bool {
    match l.element {
        Some(e) => l.indent == indent_of(e) && l.text.len() <= width_of(e),
        None => true,
    }
}

/// Every printed line of an element sits at that element's indent and
/// within its width.
pub proof fn law_compose_layout(bs: Seq<Block>)
    ensures
        forall|i: int| 0 <= i < composed(bs).len() ==> laid_out(#[trigger] composed(bs)[i]),
{
    lemma_compose_layout(bs, bs.len());
}

/// Every printed line stays inside the 60-column text area: its indent and
/// its text together never run past the right margin.
pub proof fn law_lines_fit_the_text_area(bs: Seq<Block>)
    ensures
        forall|i: int|
            0 <= i < composed(bs).len() ==> (#[trigger] composed(bs)[i]).indent + composed(bs)[i].text.len()
                <= 60,
{
    law_compose_layout(bs);
    law_compose_lines(bs);
    assert forall|i: int| 0 <= i < composed(bs).len() implies (#[trigger] composed(bs)[i]).indent
        + composed(bs)[i].text.len() <= 60 by {
        let l = composed(bs)[i];
        assert(laid_out(l));
        assert(line_well_formed(l));
        match l.element {
            Some(e) => {
                crate::model::law_layout_matches_the_page(e);
            },
            None => {},
        }
    }
}

proof fn lemma_compose_layout(bs: Seq<Block>, n: nat)
    ensures
        forall|i: int|
            0 <= i < compose_prefix(bs, n).len() ==> laid_out(#[trigger] compose_prefix(bs, n)[i]),
    decreases n,
{
    if n > 0 && n <= bs.len() {
        lemma_compose_layout(bs, (n - 1) as nat);
        let prev = compose_prefix(bs, (n - 1) as nat);
        let b = bs[n - 1];
        if trim(b.text@).len() > 0 {
            let e = b.element;
            let bl = blank_lines(
                if prev.len() > 0 {
                    blanks_before(e) as nat
                } else {
                    0
                },
            );
            let w = wrapped(body_text(e, trim(b.text@)), width_of(e));
            crate::model::law_wrap_respects_width(body_text(e, trim(b.text@)), width_of(e));
            let ls = block_lines(b, headings_in(bs.take(n as int)));
            let all = compose_prefix(bs, n);
            assert(all == prev + bl + ls);
            assert forall|i: int| 0 <= i < all.len() implies laid_out(#[trigger] all[i]) by {
                if i < prev.len() {
                    assert(all[i] == prev[i]);
                } else if i < prev.len() + bl.len() {
                    assert(all[i] == bl[i - prev.len()]);
                } else {
                    let k = i - prev.len() - bl.len();
                    assert(all[i] == ls[k]);
                    assert(ls[k].text == w[k]);
                    assert(crate::model::wrap_width(width_of(e)) == width_of(e));
                }
            }
        }
    }
}

/// A printed line is spacing or a block's: spacing carries no text, no
/// indent, no element, no block and no scene number; a block's line carries its
/// element and its block; a scene number stands only on a heading's line.
pub open spec fn line_well_formed(l: LineV) -> bool {
    &&& (l.element is None <==> l.block is None)
    &&& (l.element is None ==> l.text.len() == 0 && l.scene is None && l.indent == 0)
    &&& (l.scene is Some ==> l.element == Some(Element::SceneHeading))
}

proof fn lemma_compose_lines(bs: Seq<Block>, n: nat)
    ensures
        forall|i: int|
            0 <= i < compose_prefix(bs, n).len() ==> line_well_formed(
                #[trigger] compose_prefix(bs, n)[i],
            ),
        compose_prefix(bs, n).len() > 0 ==> compose_prefix(bs, n)[0].element is Some,
    decreases n,
{
    if n > 0 && n <= bs.len() {
        lemma_compose_lines(bs, (n - 1) as nat);
        let prev = compose_prefix(bs, (n - 1) as nat);
        let b = bs[n - 1];
        if trim(b.text@).len() > 0 {
            let e = b.element;
            let bl = blank_lines(
                if prev.len() > 0 {
                    blanks_before(e) as nat
                } else {
                    0
                },
            );
            crate::model::law_wrap_respects_width(body_text(e, trim(b.text@)), width_of(e));
            let ls = block_lines(b, headings_in(bs.take(n as int)));
            let all = compose_prefix(bs, n);
            assert(all == prev + bl + ls);
            assert forall|i: int| 0 <= i < all.len() implies line_well_formed(#[trigger] all[i]) by {
                if i < prev.len() {
                    assert(all[i] == prev[i]);
                } else if i < prev.len() + bl.len() {
                    assert(all[i] == bl[i - prev.len()]);
                } else {
                    assert(all[i] == ls[i - prev.len() - bl.len()]);
                }
            }
            if prev.len() == 0 {
                assert(bl.len() == 0);
                assert(all[0] == ls[0]);
            } else {
                assert(all[0] == prev[0]);
            }
        }
    }
}

/// The printed script is spacing and block lines, each well formed, and it
/// never opens with spacing.
pub proof fn law_compose_lines(bs: Seq<Block>)
    ensures
        forall|i: int| 0 <= i < composed(bs).len() ==> line_well_formed(#[trigger] composed(bs)[i]),
        composed(bs).len() > 0 ==> composed(bs)[0].element is Some,
{
    lemma_compose_lines(bs, bs.len());
}

/// Block `j` of `bs` is a scene heading, the one numbered `k` when the
/// headings are counted from the top, blank ones too.
pub open spec fn numbered_heading(bs: Seq<Block>, j: int, k: usize) -> bool {
    &&& 0 <= j < bs.len()
    &&& bs[j].element == Element::SceneHeading
    &&& k == headings_in(bs.take(j + 1)) as usize
}

proof fn lemma_compose_scene_numbers(bs: Seq<Block>, n: nat)
    ensures
        forall|i: int|
            0 <= i < compose_prefix(bs, n).len() && (#[trigger] compose_prefix(bs, n)[i]).scene is Some
                ==> exists|j: int|
                numbered_heading(bs, j, compose_prefix(bs, n)[i].scene->0) && compose_prefix(
                    bs,
                    n,
                )[i].block == Some(#[trigger] bs[j].id),
    decreases n,
{
    if n > 0 && n <= bs.len() {
        lemma_compose_scene_numbers(bs, (n - 1) as nat);
        let prev = compose_prefix(bs, (n - 1) as nat);
        let b = bs[n - 1];
        if trim(b.text@).len() > 0 {
            let e = b.element;
            let bl = blank_lines(
                if prev.len() > 0 {
                    blanks_before(e) as nat
                } else {
                    0
                },
            );
            let ls = block_lines(b, headings_in(bs.take(n as int)));
            let all = compose_prefix(bs, n);
            assert(all == prev + bl + ls);
            assert forall|i: int| 0 <= i < all.len() && (#[trigger] all[i]).scene is Some implies exists|
                j: int,
            | numbered_heading(bs, j, all[i].scene->0) && all[i].block == Some(#[trigger] bs[j].id) by {
                if i < prev.len() {
                    assert(all[i] == prev[i]);
                } else if i < prev.len() + bl.len() {
                    assert(all[i] == bl[i - prev.len()]);
                } else {
                    let kk = i - prev.len() - bl.len();
                    assert(all[i] == ls[kk]);
                    assert(numbered_heading(bs, n - 1, all[i].scene->0));
                    assert(all[i].block == Some(bs[n - 1].id));
                }
            }
        }
    }
}

/// A scene number stands only on a line of a scene heading, and it is that
/// heading's place among the headings, counted from the top, blank ones too.
pub proof fn law_scene_numbers(bs: Seq<Block>)
    ensures
        forall|i: int|
            0 <= i < composed(bs).len() && (#[trigger] composed(bs)[i]).scene is Some ==> exists|
                j: int,
            |
                numbered_heading(bs, j, composed(bs)[i].scene->0) && composed(bs)[i].block == Some(
                    #[trigger] bs[j].id,
                ),
{
    lemma_compose_scene_numbers(bs, bs.len());
}

proof fn lemma_prefix_grows(bs: Seq<Block>, n: nat, m: nat)
    requires
        n <= m <= bs.len(),
    ensures
        compose_prefix(bs, n).len() <= compose_prefix(bs, m).len(),
        forall|i: int|
            0 <= i < compose_prefix(bs, n).len() ==> #[trigger] compose_prefix(bs, m)[i]
                == compose_prefix(bs, n)[i],
    decreases m,
{
    if n < m {
        lemma_prefix_grows(bs, n, (m - 1) as nat);
        let prev = compose_prefix(bs, (m - 1) as nat);
        let b = bs[m - 1];
        if trim(b.text@).len() > 0 {
            let bl = blank_lines(
                if prev.len() > 0 {
                    blanks_before(b.element) as nat
                } else {
                    0
                },
            );
            let ls = block_lines(b, headings_in(bs.take(m as int)));
            let all = compose_prefix(bs, m);
            assert(all == prev + bl + ls);
            assert forall|i: int| 0 <= i < compose_prefix(bs, n).len() implies #[trigger] compose_prefix(
                bs,
                m,
            )[i] == compose_prefix(bs, n)[i] by {
                assert(all[i] == prev[i]);
            }
        }
    }
}

/// Every scene heading with words in it is numbered: the first of its lines
/// carries its place among the headings, counted from the top, blank ones
/// too.
pub proof fn law_every_heading_numbered(bs: Seq<Block>, j: int)
    requires
        0 <= j < bs.len(),
        bs[j].element == Element::SceneHeading,
        trim(bs[j].text@).len() > 0,
    ensures
        exists|i: int|
            0 <= i < composed(bs).len() && (#[trigger] composed(bs)[i]).scene == Some(
                headings_in(bs.take(j + 1)) as usize,
            ) && composed(bs)[i].block == Some(bs[j].id),
{
    let n = (j + 1) as nat;
    let prev = compose_prefix(bs, j as nat);
    let b = bs[j];
    let e = b.element;
    let bl = blank_lines(
        if prev.len() > 0 {
            blanks_before(e) as nat
        } else {
            0
        },
    );
    crate::model::law_wrap_respects_width(body_text(e, trim(b.text@)), width_of(e));
    let ls = block_lines(b, headings_in(bs.take(n as int)));
    let here = compose_prefix(bs, n);
    assert(here == prev + bl + ls);
    let i: int = (prev.len() + bl.len()) as int;
    assert(here[i] == ls[0]);
    lemma_prefix_grows(bs, n, bs.len());
    assert(composed(bs)[i] == here[i]);
}

/// A line that carries block `id` comes from block `j`: one with words in
/// it, of the line's element.
pub open spec fn from_printed_block(bs: Seq<Block>, j: int, l: LineV) -> bool {
    &&& 0 <= j < bs.len()
    &&& l.block == Some(bs[j].id)
    &&& trim(bs[j].text@).len() > 0
    &&& l.element == Some(bs[j].element)
}

proof fn lemma_compose_blocks(bs: Seq<Block>, n: nat)
    ensures
        forall|i: int|
            0 <= i < compose_prefix(bs, n).len() && (#[trigger] compose_prefix(bs, n)[i]).block is Some
                ==> exists|j: int| #[trigger] from_printed_block(bs, j, compose_prefix(bs, n)[i]),
    decreases n,
{
    if n > 0 && n <= bs.len() {
        lemma_compose_blocks(bs, (n - 1) as nat);
        let prev = compose_prefix(bs, (n - 1) as nat);
        let b = bs[n - 1];
        if trim(b.text@).len() > 0 {
            let e = b.element;
            let bl = blank_lines(
                if prev.len() > 0 {
                    blanks_before(e) as nat
                } else {
                    0
                },
            );
            let ls = block_lines(b, headings_in(bs.take(n as int)));
            let all = compose_prefix(bs, n);
            assert(all == prev + bl + ls);
            assert forall|i: int| 0 <= i < all.len() && (#[trigger] all[i]).block is Some implies exists|
                j: int,
            | #[trigger] from_printed_block(bs, j, all[i]) by {
                if i < prev.len() {
                    assert(all[i] == prev[i]);
                } else if i < prev.len() + bl.len() {
                    assert(all[i] == bl[i - prev.len()]);
                } else {
                    assert(all[i] == ls[i - prev.len() - bl.len()]);
                    assert(from_printed_block(bs, n - 1, all[i]));
                }
            }
        }
    }
}

/// Blank blocks print nothing: every line that carries a block carries one
/// with words in it, and that block's element.
pub proof fn law_blank_blocks_print_nothing(bs: Seq<Block>)
    ensures
        forall|i: int|
            0 <= i < composed(bs).len() && (#[trigger] composed(bs)[i]).block is Some ==> exists|
                j: int,
            | #[trigger] from_printed_block(bs, j, composed(bs)[i]),
{
    lemma_compose_blocks(bs, bs.len());
}

/// No line of `ls` carries block `id`.
pub open spec fn lacks_block(ls: Seq<LineV>, id: u64) -> bool {
    forall|k: int| 0 <= k < ls.len() ==> (#[trigger] ls[k]).block != Some(id)
}

proof fn lemma_page_fold_lacks(ls: Seq<LineV>, id: u64)
    requires
        lacks_block(ls, id),
    ensures
        forall|i: int| 0 <= i < page_fold(ls).0.len() ==> lacks_block(#[trigger] page_fold(ls).0[i], id),
        lacks_block(page_fold(ls).1, id),
    decreases ls.len(),
{
    if ls.len() > 0 {
        let q = ls.drop_last();
        assert(lacks_block(q, id)) by {
            assert forall|k: int| 0 <= k < q.len() implies (#[trigger] q[k]).block != Some(id) by {
                assert(q[k] == ls[k]);
            }
        }
        lemma_page_fold_lacks(q, id);
        lemma_page_fold_fits(q);
        let (pages, page) = page_fold(q);
        let l = ls.last();
        assert(ls[ls.len() - 1].block != Some(id));
        if !(page.len() == 0 && trim(l.text).len() == 0) {
            let p2 = page.push(l);
            assert(lacks_block(p2, id)) by {
                assert forall|k: int| 0 <= k < p2.len() implies (#[trigger] p2[k]).block != Some(id) by {
                    if k < page.len() {
                        assert(p2[k] == page[k]);
                    }
                }
            }
            if p2.len() >= LINES_PER_PAGE {
                lemma_trailing_le(p2);
                let k = carried(p2);
                let head = p2.take(p2.len() - k);
                let carry = p2.skip(p2.len() - k);
                assert(lacks_block(head, id)) by {
                    assert forall|j: int| 0 <= j < head.len() implies (#[trigger] head[j]).block != Some(id) by {
                        assert(head[j] == p2[j]);
                    }
                }
                assert(lacks_block(carry, id)) by {
                    assert forall|j: int| 0 <= j < carry.len() implies (#[trigger] carry[j]).block != Some(id) by {
                        assert(carry[j] == p2[p2.len() - k + j]);
                    }
                }
                let np = pages.push(head);
                assert forall|i: int| 0 <= i < np.len() implies lacks_block(#[trigger] np[i], id) by {
                    if i < pages.len() {
                        assert(np[i] == pages[i]);
                    }
                }
            }
        }
    }
}

proof fn lemma_no_page_lacks(pages: Seq<Seq<LineV>>, id: u64)
    requires
        forall|i: int| 0 <= i < pages.len() ==> lacks_block(#[trigger] pages[i], id),
    ensures
        first_page_with(pages, id) is None,
    decreases pages.len(),
{
    if pages.len() > 0 {
        assert(lacks_block(pages[0], id));
        let rest = pages.drop_first();
        assert forall|i: int| 0 <= i < rest.len() implies lacks_block(#[trigger] rest[i], id) by {
            assert(rest[i] == pages[i + 1]);
        }
        lemma_no_page_lacks(rest, id);
    }
}

/// A blank block is on no page: where block ids are distinct, a block with
/// no words in it has no page.
pub proof fn law_blank_block_has_no_page(bs: Seq<Block>, j: int)
    requires
        0 <= j < bs.len(),
        trim(bs[j].text@).len() == 0,
        forall|a: int, b: int| 0 <= a < b < bs.len() ==> bs[a].id != bs[b].id,
    ensures
        first_page_with(pages_of(bs), bs[j].id) is None,
{
    let ls = composed(bs);
    let id = bs[j].id;
    law_blank_blocks_print_nothing(bs);
    assert(lacks_block(ls, id)) by {
        assert forall|k: int| 0 <= k < ls.len() implies (#[trigger] ls[k]).block != Some(id) by {
            if ls[k].block == Some(id) {
                let w = choose|w: int| #[trigger] from_printed_block(bs, w, ls[k]);
                assert(bs[w].id == id);
                if w != j {
                    if w < j {
                        assert(bs[w].id != bs[j].id);
                    } else {
                        assert(bs[j].id != bs[w].id);
                    }
                }
            }
        }
    }
    lemma_page_fold_lacks(ls, id);
    let (pages, page) = page_fold(ls);
    let ps = pages_of(bs);
    assert forall|i: int| 0 <= i < ps.len() implies lacks_block(#[trigger] ps[i], id) by {
        if page.len() > 0 && i == pages.len() {
            assert(ps[i] == page);
        } else if pages.len() > 0 || page.len() > 0 {
            assert(ps[i] == pages[i]);
        } else {
            assert(ps[i].len() == 0);
        }
    }
    lemma_no_page_lacks(ps, id);
}

proof fn lemma_trim_head(x: Seq<char>)
    ensures
        trim(x).len() > 0 ==> !crate::text::is_ws(trim(x)[0]),
{
    let a = crate::text::trim_start_by(x, crate::text::Strip::Space);
    crate::text::lemma_trim_start_suffix(x, crate::text::Strip::Space);
    crate::text::lemma_trim_end_prefix(a, crate::text::Strip::Space);
    if trim(x).len() > 0 {
        assert(trim(x)[0] == a[0]);
    }
}

proof fn lemma_compose_hold_text(bs: Seq<Block>, n: nat)
    ensures
        forall|i: int|
            0 <= i < compose_prefix(bs, n).len() && (#[trigger] compose_prefix(bs, n)[i]).element is Some
                && !upper_element(compose_prefix(bs, n)[i].element->0) ==> compose_prefix(
                bs,
                n,
            )[i].text.len() > 0,
    decreases n,
{
    if n > 0 && n <= bs.len() {
        lemma_compose_hold_text(bs, (n - 1) as nat);
        let prev = compose_prefix(bs, (n - 1) as nat);
        let b = bs[n - 1];
        let t = trim(b.text@);
        if t.len() > 0 {
            let e = b.element;
            let bl = blank_lines(
                if prev.len() > 0 {
                    blanks_before(e) as nat
                } else {
                    0
                },
            );
            let body = body_text(e, t);
            let w = wrapped(body, width_of(e));
            if !upper_element(e) {
                lemma_trim_head(b.text@);
                if e == Element::Parenthetical {
                    assert(body[0] == '(');
                    assert(!crate::text::is_ws('('));
                } else {
                    assert(body == t);
                }
                crate::model::law_wrapped_lines_hold_something(body, width_of(e), 0);
            }
            let ls = block_lines(b, headings_in(bs.take(n as int)));
            let all = compose_prefix(bs, n);
            assert(all == prev + bl + ls);
            assert forall|i: int| 0 <= i < all.len() && (#[trigger] all[i]).element is Some
                && !upper_element(all[i].element->0) implies all[i].text.len() > 0 by {
                if i < prev.len() {
                    assert(all[i] == prev[i]);
                } else if i < prev.len() + bl.len() {
                    assert(all[i] == bl[i - prev.len()]);
                } else {
                    let k = i - prev.len() - bl.len();
                    assert(all[i] == ls[k]);
                    assert(ls[k].text == w[k]);
                }
            }
        }
    }
}

/// Every printed line of action, dialogue or a parenthetical holds text.
/// (The elements set in capitals hold the capitals of their text, which the
/// Unicode case map gives.)
pub proof fn law_printed_lines_hold_text(bs: Seq<Block>)
    ensures
        forall|i: int|
            0 <= i < composed(bs).len() && (#[trigger] composed(bs)[i]).element is Some
                && !upper_element(composed(bs)[i].element->0) ==> composed(bs)[i].text.len() > 0,
{
    lemma_compose_hold_text(bs, bs.len());
}

// --------------------------------------------------------------- pages --

/// A character cue or a parenthetical: what must not be left at the foot
/// of a page without the speech it introduces.
pub open spec fn is_cue_line(l: LineV) -> bool {
    l.element == Some(Element::Character) || l.element == Some(Element::Parenthetical)
}

/// How many cue lines end `p`.
pub open spec fn trailing_cues(p: Seq<LineV>) -> nat
    decreases p.len(),
{
    if p.len() > 0 && is_cue_line(p.last()) {
        1 + trailing_cues(p.drop_last())
    } else {
        0
    }
}

/// How many lines at the foot of a full page move to the next one: its
/// trailing cues, keeping at least four lines behind.
pub open spec fn carried(p: Seq<LineV>) -> nat {
    if p.len() <= 4 {
        0
    } else if trailing_cues(p) < p.len() - 4 {
        trailing_cues(p)
    } else {
        (p.len() - 4) as nat
    }
}

/// One line into the pages being filled: blank filler never starts a
/// page; a page that reaches its length is closed, its trailing cues
/// carried over.
pub open spec fn page_step(st: (Seq<Seq<LineV>>, Seq<LineV>), l: LineV) -> (
    Seq<Seq<LineV>>,
    Seq<LineV>,
) {
    let (pages, page) = st;
    if page.len() == 0 && trim(l.text).len() == 0 {
        st
    } else {
        let p2 = page.push(l);
        if p2.len() >= LINES_PER_PAGE {
            let k = carried(p2);
            (pages.push(p2.take(p2.len() - k)), p2.skip(p2.len() - k))
        } else {
            (pages, p2)
        }
    }
}

pub open spec fn page_fold(ls: Seq<LineV>) -> (Seq<Seq<LineV>>, Seq<LineV>)
    decreases ls.len(),
{
    if ls.len() == 0 {
        (seq![], seq![])
    } else {
        page_step(page_fold(ls.drop_last()), ls.last())
    }
}

/// The lines split into pages, never none.
pub open spec fn paginated(ls: Seq<LineV>) -> Seq<Seq<LineV>> {
    let (pages, page) = page_fold(ls);
    let all = if page.len() > 0 {
        pages.push(page)
    } else {
        pages
    };
    if all.len() == 0 {
        seq![seq![]]
    } else {
        all
    }
}

proof fn lemma_trailing_le(p: Seq<LineV>)
    ensures
        trailing_cues(p) <= p.len(),
    decreases p.len(),
{
    if p.len() > 0 && is_cue_line(p.last()) {
        lemma_trailing_le(p.drop_last());
    }
}

proof fn lemma_page_fold_fits(ls: Seq<LineV>)
    ensures
        forall|i: int|
            0 <= i < page_fold(ls).0.len() ==> #[trigger] page_fold(ls).0[i].len()
                <= LINES_PER_PAGE,
        page_fold(ls).1.len() < LINES_PER_PAGE,
    decreases ls.len(),
{
    if ls.len() > 0 {
        lemma_page_fold_fits(ls.drop_last());
        let (pages, page) = page_fold(ls.drop_last());
        let p2 = page.push(ls.last());
        lemma_trailing_le(p2);
        let k = carried(p2);
        if !(page.len() == 0 && trim(ls.last().text).len() == 0) && p2.len() >= LINES_PER_PAGE {
            let np = pages.push(p2.take(p2.len() - k));
            assert forall|i: int| 0 <= i < np.len() implies #[trigger] np[i].len()
                <= LINES_PER_PAGE by {
                if i < pages.len() {
                    assert(np[i] == pages[i]);
                }
            }
        }
    }
}

/// No page holds more than a page's worth of lines, and there is always a
/// page.
pub proof fn law_pages_fit(ls: Seq<LineV>)
    ensures
        paginated(ls).len() >= 1,
        forall|i: int| 0 <= i < paginated(ls).len() ==> #[trigger] paginated(ls)[i].len()
            <= LINES_PER_PAGE,
{
    lemma_page_fold_fits(ls);
    let (pages, page) = page_fold(ls);
    if page.len() > 0 {
        let all = pages.push(page);
        assert forall|i: int| 0 <= i < all.len() implies #[trigger] all[i].len()
            <= LINES_PER_PAGE by {
            if i < pages.len() {
                assert(all[i] == pages[i]);
            }
        }
    }
}

proof fn lemma_trailing_cues(p: Seq<LineV>)
    ensures
        trailing_cues(p) <= p.len(),
        trailing_cues(p) < p.len() ==> !is_cue_line(p[p.len() - 1 - trailing_cues(p)]),
        forall|j: int| p.len() - trailing_cues(p) <= j < p.len() ==> is_cue_line(#[trigger] p[j]),
    decreases p.len(),
{
    if p.len() > 0 && is_cue_line(p.last()) {
        lemma_trailing_cues(p.drop_last());
        let q = p.drop_last();
        if trailing_cues(q) < q.len() {
            assert(p[p.len() - 1 - trailing_cues(p)] == q[q.len() - 1 - trailing_cues(q)]);
        }
        assert forall|j: int| p.len() - trailing_cues(p) <= j < p.len() implies is_cue_line(
            #[trigger] p[j],
        ) by {
            if j < p.len() - 1 {
                assert(p[j] == q[j]);
            }
        }
    }
}

/// A page whose first line, if it has one, is a block's.
pub open spec fn opens_on_a_block(p: Seq<LineV>) -> bool {
    p.len() > 0 ==> p[0].block is Some
}

proof fn lemma_page_fold_heads(ls: Seq<LineV>)
    requires
        forall|i: int| 0 <= i < ls.len() ==> line_well_formed(#[trigger] ls[i]),
    ensures
        forall|i: int|
            0 <= i < page_fold(ls).0.len() ==> opens_on_a_block(#[trigger] page_fold(ls).0[i]),
        opens_on_a_block(page_fold(ls).1),
        forall|j: int|
            0 <= j < page_fold(ls).1.len() ==> line_well_formed(#[trigger] page_fold(ls).1[j]),
    decreases ls.len(),
{
    if ls.len() > 0 {
        let q = ls.drop_last();
        assert forall|i: int| 0 <= i < q.len() implies line_well_formed(#[trigger] q[i]) by {
            assert(q[i] == ls[i]);
        }
        lemma_page_fold_heads(q);
        lemma_page_fold_fits(q);
        let (pages, page) = page_fold(q);
        let l = ls.last();
        assert(line_well_formed(ls[ls.len() - 1]));
        if !(page.len() == 0 && trim(l.text).len() == 0) {
            let p2 = page.push(l);
            assert(opens_on_a_block(p2)) by {
                if page.len() > 0 {
                    assert(p2[0] == page[0]);
                }
            }
            assert forall|j: int| 0 <= j < p2.len() implies line_well_formed(#[trigger] p2[j]) by {
                if j < page.len() {
                    assert(p2[j] == page[j]);
                }
            }
            if p2.len() >= LINES_PER_PAGE {
                lemma_trailing_cues(p2);
                let k = carried(p2);
                let head = p2.take(p2.len() - k);
                let carry = p2.skip(p2.len() - k);
                assert(head[0] == p2[0]);
                if carry.len() > 0 {
                    assert(carry[0] == p2[p2.len() - k]);
                    assert(is_cue_line(p2[p2.len() - k]));
                    assert(line_well_formed(p2[p2.len() - k]));
                }
                assert forall|j: int| 0 <= j < carry.len() implies line_well_formed(
                    #[trigger] carry[j],
                ) by {
                    assert(carry[j] == p2[p2.len() - k + j]);
                }
                let np = pages.push(head);
                assert forall|i: int| 0 <= i < np.len() implies opens_on_a_block(#[trigger] np[i]) by {
                    if i < pages.len() {
                        assert(np[i] == pages[i]);
                    }
                }
            }
        }
    }
}

/// A page whose first line, if it has one, prints something.
pub open spec fn opens_printed(p: Seq<LineV>) -> bool {
    p.len() > 0 ==> trim(p[0].text).len() > 0
}

/// Every cue or parenthetical line prints something.
pub open spec fn cues_print(ls: Seq<LineV>) -> bool {
    forall|i: int| 0 <= i < ls.len() && is_cue_line(#[trigger] ls[i]) ==> trim(ls[i].text).len() > 0
}

proof fn lemma_page_fold_opens(ls: Seq<LineV>)
    requires
        cues_print(ls),
    ensures
        forall|i: int| 0 <= i < page_fold(ls).0.len() ==> opens_printed(#[trigger] page_fold(ls).0[i]),
        opens_printed(page_fold(ls).1),
        cues_print(page_fold(ls).1),
    decreases ls.len(),
{
    if ls.len() > 0 {
        let q = ls.drop_last();
        assert forall|i: int| 0 <= i < q.len() && is_cue_line(#[trigger] q[i]) implies trim(q[i].text).len() > 0 by {
            assert(q[i] == ls[i]);
        }
        lemma_page_fold_opens(q);
        let (pages, page) = page_fold(q);
        let l = ls.last();
        assert(l == ls[ls.len() - 1]);
        if !(page.len() == 0 && trim(l.text).len() == 0) {
            let p2 = page.push(l);
            assert(opens_printed(p2)) by {
                if page.len() > 0 {
                    assert(p2[0] == page[0]);
                }
            }
            assert forall|j: int| 0 <= j < p2.len() && is_cue_line(#[trigger] p2[j]) implies trim(p2[j].text).len() > 0 by {
                if j < page.len() {
                    assert(p2[j] == page[j]);
                }
            }
            if p2.len() >= LINES_PER_PAGE {
                lemma_trailing_cues(p2);
                let k = carried(p2);
                let head = p2.take(p2.len() - k);
                let carry = p2.skip(p2.len() - k);
                assert(head[0] == p2[0]);
                if carry.len() > 0 {
                    assert(carry[0] == p2[p2.len() - k]);
                    assert(is_cue_line(p2[p2.len() - k]));
                }
                assert forall|j: int| 0 <= j < carry.len() && is_cue_line(#[trigger] carry[j]) implies trim(carry[j].text).len() > 0 by {
                    assert(carry[j] == p2[p2.len() - k + j]);
                }
                let np = pages.push(head);
                assert forall|i: int| 0 <= i < np.len() implies opens_printed(#[trigger] np[i]) by {
                    if i < pages.len() {
                        assert(np[i] == pages[i]);
                    }
                }
            }
        }
    }
}

/// No page opens on a line that prints nothing, where every cue line prints
/// something (as every composed line of a block does): blank lines that
/// would open a page are left out.
pub proof fn law_pages_open_on_print(ls: Seq<LineV>)
    requires
        cues_print(ls),
    ensures
        forall|i: int| 0 <= i < paginated(ls).len() ==> opens_printed(#[trigger] paginated(ls)[i]),
{
    lemma_page_fold_opens(ls);
    let (pages, page) = page_fold(ls);
    if page.len() > 0 {
        let all = pages.push(page);
        assert forall|i: int| 0 <= i < all.len() implies opens_printed(#[trigger] all[i]) by {
            if i < pages.len() {
                assert(all[i] == pages[i]);
            }
        }
    }
}

/// No printed page opens with spacing: the first line of every page is a
/// line of a block.
pub proof fn law_pages_open_on_a_block(bs: Seq<Block>)
    ensures
        forall|i: int| 0 <= i < pages_of(bs).len() ==> opens_on_a_block(#[trigger] pages_of(bs)[i]),
{
    let ls = composed(bs);
    law_compose_lines(bs);
    lemma_page_fold_heads(ls);
    let (pages, page) = page_fold(ls);
    if page.len() > 0 {
        let all = pages.push(page);
        assert forall|i: int| 0 <= i < all.len() implies opens_on_a_block(#[trigger] all[i]) by {
            if i < pages.len() {
                assert(all[i] == pages[i]);
            }
        }
    }
}

proof fn lemma_starts(pages: Seq<Seq<LineV>>, n: nat)
    requires
        1 <= n <= pages.len(),
        forall|j: int| 1 <= j < pages.len() ==> first_block(#[trigger] pages[j]) is Some,
    ensures
        starts_prefix(pages, n).len() == n - 1,
        forall|i: int|
            0 <= i < n - 1 ==> #[trigger] starts_prefix(pages, n)[i] == ((i + 2) as usize,
            first_block(pages[i + 1])->0),
    decreases n,
{
    if n > 1 {
        lemma_starts(pages, (n - 1) as nat);
        assert(first_block(pages[n - 1]) is Some);
        let prev = starts_prefix(pages, (n - 1) as nat);
        let st = starts_prefix(pages, n);
        assert(st == prev.push((n as usize, first_block(pages[n - 1])->0)));
        assert forall|i: int| 0 <= i < n - 1 implies #[trigger] st[i] == ((i + 2) as usize,
            first_block(pages[i + 1])->0) by {
            if i < n - 2 {
                assert(st[i] == prev[i]);
            }
        }
    } else {
        assert(starts_prefix(pages, 0).len() == 0);
    }
}

/// Every page from the second on is marked where it begins: `page_starts`
/// lists one entry per page after the first, in order, numbered from 2, each
/// with the first block printed on that page.
pub proof fn law_page_starts(bs: Seq<Block>)
    ensures
        ({
            let ps = pages_of(bs);
            let st = starts_prefix(ps, ps.len());
            &&& st.len() == ps.len() - 1
            &&& forall|i: int|
                0 <= i < st.len() ==> #[trigger] st[i] == ((i + 2) as usize, first_block(
                    ps[i + 1],
                )->0)
        }),
{
    let ls = composed(bs);
    law_compose_lines(bs);
    lemma_page_fold_heads(ls);
    law_pages_fit(ls);
    law_pages_keep_cues(ls);
    let ps = pages_of(bs);
    let (pages, page) = page_fold(ls);
    assert forall|j: int| 1 <= j < ps.len() implies first_block(#[trigger] ps[j]) is Some by {
        if page.len() > 0 && j == pages.len() {
            assert(ps[j] == page);
        } else {
            assert(ps[j] == pages[j]);
        }
        assert(ps[j].len() >= 1);
        assert(ps[j][0].block is Some);
    }
    lemma_starts(ps, ps.len());
}

/// A page closed while paginating: it holds a line, and it ends on a
/// character cue or a parenthetical only where keeping four lines behind
/// left no other way.
pub open spec fn closed_page_ok(p: Seq<LineV>) -> bool {
    &&& p.len() >= 1
    &&& (is_cue_line(p.last()) ==> p.len() == 4)
}

proof fn lemma_page_fold_closed(ls: Seq<LineV>)
    ensures
        forall|i: int|
            0 <= i < page_fold(ls).0.len() ==> closed_page_ok(#[trigger] page_fold(ls).0[i]),
    decreases ls.len(),
{
    if ls.len() > 0 {
        lemma_page_fold_closed(ls.drop_last());
        lemma_page_fold_fits(ls.drop_last());
        let (pages, page) = page_fold(ls.drop_last());
        let p2 = page.push(ls.last());
        if !(page.len() == 0 && trim(ls.last().text).len() == 0) && p2.len() >= LINES_PER_PAGE {
            lemma_trailing_cues(p2);
            let k = carried(p2);
            let head = p2.take(p2.len() - k);
            assert(closed_page_ok(head)) by {
                if trailing_cues(p2) < p2.len() - 4 {
                    assert(head.last() == p2[p2.len() - 1 - trailing_cues(p2)]);
                }
            }
            let np = pages.push(head);
            assert forall|i: int| 0 <= i < np.len() implies closed_page_ok(#[trigger] np[i]) by {
                if i < pages.len() {
                    assert(np[i] == pages[i]);
                }
            }
        }
    }
}

/// Pages keep a character cue with its speech: every page but the last ends
/// on a cue or a parenthetical only when it holds just the four lines it must
/// keep; and every page holds a line, but for the one empty page of a
/// script with nothing to print.
pub proof fn law_pages_keep_cues(ls: Seq<LineV>)
    ensures
        paginated(ls) == seq![Seq::<LineV>::empty()] || forall|i: int|
            0 <= i < paginated(ls).len() ==> #[trigger] paginated(ls)[i].len() >= 1,
        forall|i: int|
            0 <= i < paginated(ls).len() - 1 ==> closed_page_ok(#[trigger] paginated(ls)[i]),
{
    lemma_page_fold_closed(ls);
    let (pages, page) = page_fold(ls);
    if page.len() > 0 {
        let all = pages.push(page);
        assert forall|i: int| 0 <= i < all.len() implies #[trigger] all[i].len() >= 1 by {
            if i < pages.len() {
                assert(all[i] == pages[i]);
                assert(closed_page_ok(pages[i]));
            }
        }
        assert forall|i: int| 0 <= i < all.len() - 1 implies closed_page_ok(#[trigger] all[i]) by {
            assert(all[i] == pages[i]);
        }
    } else if pages.len() > 0 {
        assert forall|i: int| 0 <= i < pages.len() implies #[trigger] pages[i].len() >= 1 by {
            assert(closed_page_ok(pages[i]));
        }
    }
}

/// Whether a line prints anything.
pub open spec fn printed() -> spec_fn(LineV) -> bool {
    |l: LineV| trim(l.text).len() > 0
}

proof fn lemma_page_fold_keeps(ls: Seq<LineV>)
    ensures
        (page_fold(ls).0.flatten() + page_fold(ls).1).filter(printed()) == ls.filter(printed()),
    decreases ls.len(),
{
    broadcast use Seq::lemma_flatten_push, Seq::lemma_filter_push, Seq::filter_distributes_over_add;

    if ls.len() == 0 {
        assert(ls.filter(printed()) =~= Seq::<LineV>::empty()) by {
            reveal(Seq::filter);
        }
        assert(Seq::<Seq<LineV>>::empty().flatten() =~= Seq::<LineV>::empty());
        assert(Seq::<LineV>::empty() + Seq::<LineV>::empty() =~= Seq::<LineV>::empty());
        assert(Seq::<LineV>::empty().filter(printed()) =~= Seq::<LineV>::empty()) by {
            reveal(Seq::filter);
        }
    } else {
        let q = ls.drop_last();
        let l = ls.last();
        lemma_page_fold_keeps(q);
        assert(q.push(l) =~= ls);
        let (pages, page) = page_fold(q);
        if page.len() == 0 && trim(l.text).len() == 0 {
            assert(!printed()(l));
        } else {
            let p2 = page.push(l);
            assert(pages.flatten() + p2 =~= (pages.flatten() + page).push(l));
            if p2.len() >= LINES_PER_PAGE {
                lemma_trailing_le(p2);
                let k = carried(p2);
                let head = p2.take(p2.len() - k);
                let carry = p2.skip(p2.len() - k);
                assert(pages.push(head).flatten() + carry =~= pages.flatten() + p2);
            }
        }
    }
}

/// Pagination keeps every line that prints, in order: only blank lines that
/// would have opened a page are left out.
pub proof fn law_pages_keep_every_printed_line(ls: Seq<LineV>)
    ensures
        paginated(ls).flatten().filter(printed()) == ls.filter(printed()),
{
    broadcast use Seq::lemma_flatten_push, Seq::lemma_flatten_singleton;

    lemma_page_fold_keeps(ls);
    let (pages, page) = page_fold(ls);
    if page.len() > 0 {
        assert(pages.push(page).flatten() =~= pages.flatten() + page);
    } else {
        assert(pages.flatten() + page =~= pages.flatten());
        if pages.len() == 0 {
            let one = seq![Seq::<LineV>::empty()];
            assert(one.flatten() == one[0]);
            assert(pages.flatten() =~= Seq::<LineV>::empty());
        }
    }
}

/// Copies of the lines `lo..hi`.
fn copy_lines(v: &Vec<Line>, lo: usize, hi: usize) -> (r: Vec<Line>)
    requires
        lo <= hi <= v@.len(),
    ensures
        r@.map_values(|l: Line| l@) == v@.map_values(|l: Line| l@).subrange(lo as int, hi as int),
{
    let mut out: Vec<Line> = Vec::new();
    let mut i = lo;
    while i < hi
        invariant
            lo <= i <= hi <= v@.len(),
            out@.map_values(|l: Line| l@) == v@.map_values(|l: Line| l@).subrange(
                lo as int,
                i as int,
            ),
        decreases hi - i,
    {
        let ghost before = out@.map_values(|l: Line| l@);
        let c = v[i].clone();
        out.push(c);
        proof {
            assert(out@.map_values(|l: Line| l@) =~= before.push(c@));
            assert(v@.map_values(|l: Line| l@).subrange(lo as int, i + 1) =~= v@.map_values(
                |l: Line| l@,
            ).subrange(lo as int, i as int).push(v@[i as int]@));
        }
        i = i + 1;
    }
    out
}

fn is_cue(l: &Line) -> (r: bool)
    ensures
        r == is_cue_line(l@),
{
    match l.element {
        Some(Element::Character) | Some(Element::Parenthetical) => true,
        _ => false,
    }
}

/// How many lines a full page carries over.
fn carry_count(page: &Vec<Line>) -> (r: usize)
    ensures
        r == carried(page@.map_values(|l: Line| l@)),
{
    let ghost pv = page@.map_values(|l: Line| l@);
    let mut k: usize = 0;
    proof {
        assert(pv.take(pv.len() as int) =~= pv);
    }
    while k < page.len() && page.len() - k > 4 && is_cue(&page[page.len() - 1 - k])
        invariant
            k <= page@.len(),
            pv == page@.map_values(|l: Line| l@),
            trailing_cues(pv) == k + trailing_cues(pv.take(pv.len() - k)),
            page@.len() <= 4 ==> k == 0,
            page@.len() > 4 ==> k <= page@.len() - 4,
        decreases page@.len() - k,
    {
        proof {
            let q = pv.take(pv.len() - k);
            assert(q.last() == page@[page@.len() - 1 - k]@);
            assert(q.drop_last() =~= pv.take(pv.len() - k - 1));
        }
        k = k + 1;
    }
    proof {
        assert(pv.take(pv.len() as int) =~= pv);
        lemma_trailing_le(pv.take(pv.len() - k));
        if page@.len() > 4 && k < page@.len() - 4 {
            let q = pv.take(pv.len() - k);
            if q.len() > 0 {
                assert(q.last() == page@[page@.len() - 1 - k]@);
            }
        }
    }
    k
}

/// Split composed lines into pages, keeping a character cue with its dialogue.
pub fn paginate(lines: &[Line]) -> (r: Vec<Vec<Line>>)
    ensures
        r@.map_values(|p: Vec<Line>| p@.map_values(|l: Line| l@)) == paginated(
            lines@.map_values(|l: Line| l@),
        ),
{
    let ghost lv = lines@.map_values(|l: Line| l@);
    let mut pages: Vec<Vec<Line>> = Vec::new();
    let mut page: Vec<Line> = Vec::new();
    let mut i: usize = 0;
    proof {
        assert(lv.take(0) =~= Seq::<LineV>::empty());
        assert(pages@.map_values(|p: Vec<Line>| p@.map_values(|l: Line| l@)) =~= Seq::<
            Seq<LineV>,
        >::empty());
        assert(page@.map_values(|l: Line| l@) =~= Seq::<LineV>::empty());
    }
    while i < lines.len()
        invariant
            i <= lines@.len(),
            lv == lines@.map_values(|l: Line| l@),
            (pages@.map_values(|p: Vec<Line>| p@.map_values(|l: Line| l@)), page@.map_values(
                |l: Line| l@,
            )) == page_fold(lv.take(i as int)),
        decreases lines@.len() - i,
    {
        proof {
            assert(lv.take(i + 1).drop_last() =~= lv.take(i as int));
            assert(lv.take(i + 1).last() == lines@[i as int]@);
            lemma_page_fold_fits(lv.take(i as int));
        }
        let line = &lines[i];
        let t = chars_of(line.text.as_str());
        if page.len() == 0 && is_blank(t.as_slice()) {
            i = i + 1;
            continue;
        }
        let ghost before = page@.map_values(|l: Line| l@);
        let c = line.clone();
        page.push(c);
        proof {
            assert(page@.map_values(|l: Line| l@) =~= before.push(c@));
        }
        if page.len() >= LINES_PER_PAGE {
            let k = carry_count(&page);
            let keep = page.len() - k;
            let head = copy_lines(&page, 0, keep);
            let carry = copy_lines(&page, keep, page.len());
            let ghost pv = page@.map_values(|l: Line| l@);
            let ghost pgs = pages@.map_values(|p: Vec<Line>| p@.map_values(|l: Line| l@));
            pages.push(head);
            page = carry;
            proof {
                assert(pv.subrange(0, keep as int) =~= pv.take(keep as int));
                assert(pv.subrange(keep as int, pv.len() as int) =~= pv.skip(keep as int));
                assert(pages@.map_values(|p: Vec<Line>| p@.map_values(|l: Line| l@)) =~= pgs.push(
                    pv.take(keep as int),
                ));
            }
        }
        i = i + 1;
    }
    proof {
        assert(lv.take(i as int) =~= lv);
    }
    if page.len() > 0 {
        let ghost pgs = pages@.map_values(|p: Vec<Line>| p@.map_values(|l: Line| l@));
        let ghost pv = page@.map_values(|l: Line| l@);
        pages.push(page);
        proof {
            assert(pages@.map_values(|p: Vec<Line>| p@.map_values(|l: Line| l@)) =~= pgs.push(pv));
        }
    }
    if pages.len() == 0 {
        pages.push(Vec::new());
        proof {
            assert(pages@.map_values(|p: Vec<Line>| p@.map_values(|l: Line| l@)) =~= seq![
                Seq::<LineV>::empty(),
            ]);
        }
    }
    pages
}

/// The document's pages, from its blocks.
pub open spec fn pages_of(bs: Seq<Block>) -> Seq<Seq<LineV>> {
    paginated(composed(bs))
}

pub fn page_count(doc: &Document) -> (r: usize)
    ensures
        r == pages_of(doc.blocks@).len(),
{
    let lines = compose(doc);
    let pages = paginate(lines.as_slice());
    pages.len()
}

/// Rough runtime: one formatted page ~ one minute of screen time.
pub fn runtime_minutes(doc: &Document) -> (r: usize)
    ensures
        r == pages_of(doc.blocks@).len(),
{
    page_count(doc)
}

/// The block of a page's first line that came from one.
pub open spec fn first_block(p: Seq<LineV>) -> Option<u64>
    decreases p.len(),
{
    if p.len() == 0 {
        None
    } else if p[0].block is Some {
        p[0].block
    } else {
        first_block(p.drop_first())
    }
}

fn first_block_of(p: &Vec<Line>) -> (r: Option<u64>)
    ensures
        r == first_block(p@.map_values(|l: Line| l@)),
{
    let ghost pv = p@.map_values(|l: Line| l@);
    let mut j: usize = 0;
    proof {
        assert(pv.skip(0) =~= pv);
    }
    while j < p.len()
        invariant
            j <= p@.len(),
            pv == p@.map_values(|l: Line| l@),
            first_block(pv) == first_block(pv.skip(j as int)),
        decreases p@.len() - j,
    {
        proof {
            assert(pv.skip(j as int)[0] == p@[j as int]@);
            assert(pv.skip(j as int).drop_first() =~= pv.skip(j + 1));
        }
        if p[j].block.is_some() {
            return p[j].block;
        }
        j = j + 1;
    }
    proof {
        assert(pv.skip(j as int).len() == 0);
    }
    None
}

/// (page number, first block on it) for every page from the second on
/// that holds a line of some block.
pub open spec fn starts_prefix(pages: Seq<Seq<LineV>>, n: nat) -> Seq<(usize, u64)>
    decreases n,
{
    if n == 0 || n > pages.len() {
        seq![]
    } else {
        let prev = starts_prefix(pages, (n - 1) as nat);
        if n >= 2 && first_block(pages[n - 1]) is Some {
            prev.push((n as usize, first_block(pages[n - 1])->0))
        } else {
            prev
        }
    }
}

/// Where each printed page begins: (page number, block id), for page 2 on.
/// The block is the first one with a line on that page, so a page that breaks
/// in the middle of a long paragraph is marked just above that paragraph.
pub fn page_starts(doc: &Document) -> (r: Vec<(usize, u64)>)
    ensures
        r@ == starts_prefix(pages_of(doc.blocks@), pages_of(doc.blocks@).len()),
{
    let lines = compose(doc);
    let pages = paginate(lines.as_slice());
    let ghost pv = pages@.map_values(|p: Vec<Line>| p@.map_values(|l: Line| l@));
    let mut out: Vec<(usize, u64)> = Vec::new();
    let mut i: usize = 1;
    proof {
        law_pages_fit(composed(doc.blocks@));
        assert(starts_prefix(pv, 0) =~= Seq::<(usize, u64)>::empty());
        assert(starts_prefix(pv, 1) =~= Seq::<(usize, u64)>::empty());
    }
    while i < pages.len()
        invariant
            1 <= i <= pages@.len() || (i == 1 && pages@.len() == 0),
            pv == pages@.map_values(|p: Vec<Line>| p@.map_values(|l: Line| l@)),
            out@ == starts_prefix(pv, i as nat),
        decreases pages@.len() - i,
    {
        proof {
            assert(pv[i as int] == pages@[i as int]@.map_values(|l: Line| l@));
        }
        match first_block_of(&pages[i]) {
            Some(id) => out.push((i + 1, id)),
            None => {},
        }
        i = i + 1;
    }
    out
}

/// The first page holding a line of block `id`, counted from 0.
pub open spec fn first_page_with(pages: Seq<Seq<LineV>>, id: u64) -> Option<int>
    decreases pages.len(),
{
    if pages.len() == 0 {
        None
    } else if exists|j: int| 0 <= j < pages[0].len() && pages[0][j].block == Some(id) {
        Some(0)
    } else {
        match first_page_with(pages.drop_first(), id) {
            Some(k) => Some(k + 1),
            None => None,
        }
    }
}

fn page_holds(p: &Vec<Line>, id: u64) -> (r: bool)
    ensures
        r == exists|j: int| 0 <= j < p@.len() && (#[trigger] p@[j]).block == Some(id),
{
    let mut j: usize = 0;
    while j < p.len()
        invariant
            j <= p@.len(),
            forall|m: int| 0 <= m < j ==> p@[m].block != Some(id),
        decreases p@.len() - j,
    {
        if p[j].block == Some(id) {
            return true;
        }
        j = j + 1;
    }
    false
}

/// The body page a block's first line is printed on (1-based).
pub fn page_of_block(doc: &Document, id: u64) -> (r: Option<usize>)
    ensures
        r matches Some(n) ==> first_page_with(pages_of(doc.blocks@), id) == Some(n - 1),
        r is None ==> first_page_with(pages_of(doc.blocks@), id) is None,
{
    let lines = compose(doc);
    let pages = paginate(lines.as_slice());
    let ghost pv = pages@.map_values(|p: Vec<Line>| p@.map_values(|l: Line| l@));
    let mut k: usize = 0;
    proof {
        assert(pv.skip(0) =~= pv);
    }
    while k < pages.len()
        invariant
            k <= pages@.len(),
            pv == pages@.map_values(|p: Vec<Line>| p@.map_values(|l: Line| l@)),
            pv == pages_of(doc.blocks@),
            first_page_with(pv, id) == match first_page_with(pv.skip(k as int), id) {
                Some(m) => Some(m + k),
                None => None::<int>,
            },
        decreases pages@.len() - k,
    {
        proof {
            assert(pv.skip(k as int)[0] == pages@[k as int]@.map_values(|l: Line| l@));
            assert(pv.skip(k as int).drop_first() =~= pv.skip(k + 1));
            assert forall|j: int| 0 <= j < pages@[k as int]@.len() implies pv.skip(
                k as int,
            )[0][j].block == (#[trigger] pages@[k as int]@[j]).block by {
                assert(pv.skip(k as int)[0][j] == pages@[k as int]@[j]@);
            }
        }
        if page_holds(&pages[k], id) {
            proof {
                let j = choose|j: int| 0 <= j < pages@[k as int]@.len() && (#[trigger] pages@[k as int]@[j]).block == Some(id);
                assert(pv.skip(k as int)[0][j].block == Some(id));
                assert(first_page_with(pv.skip(k as int), id) == Some(0int));
            }
            return Some(k + 1);
        }
        k = k + 1;
    }
    proof {
        assert(pv.skip(k as int).len() == 0);
    }
    None
}

// ------------------------------------------------------ scene lengths --

/// Scene starts seen so far, (heading id, page, line number within all the
/// printed lines), and how many printed lines there were.
pub open spec fn start_step(st: (Seq<(u64, usize, usize)>, nat), page_no: nat, l: LineV) -> (
    Seq<(u64, usize, usize)>,
    nat,
) {
    let (starts, total) = st;
    let fresh = match l.block {
        Some(id) => l.element == Some(Element::SceneHeading) && !(exists|k: int|
            0 <= k < starts.len() && #[trigger] starts[k].0 == id),
        None => false,
    };
    if fresh {
        (starts.push((l.block->0, page_no as usize, total as usize)), total + 1)
    } else {
        (starts, total + 1)
    }
}

pub open spec fn start_page(st: (Seq<(u64, usize, usize)>, nat), page_no: nat, p: Seq<LineV>) -> (
    Seq<(u64, usize, usize)>,
    nat,
)
    decreases p.len(),
{
    if p.len() == 0 {
        st
    } else {
        start_step(start_page(st, page_no, p.drop_last()), page_no, p.last())
    }
}

pub open spec fn start_pages(pages: Seq<Seq<LineV>>, n: nat) -> (Seq<(u64, usize, usize)>, nat)
    decreases n,
{
    if n == 0 || n > pages.len() {
        (seq![], 0)
    } else {
        start_page(start_pages(pages, (n - 1) as nat), n, pages[n - 1])
    }
}

/// A scene of `lines` printed lines, in eighths of a page, rounded, and
/// never less than one.
pub open spec fn eighths(lines: nat) -> nat {
    let e = (16 * lines + 55) / 110;
    if e < 1 {
        1
    } else {
        e
    }
}

/// The ids of every scene heading, in order.
pub open spec fn heading_ids(bs: Seq<Block>) -> Seq<u64>
    decreases bs.len(),
{
    if bs.len() == 0 {
        seq![]
    } else if bs.last().element == Element::SceneHeading {
        heading_ids(bs.drop_last()).push(bs.last().id)
    } else {
        heading_ids(bs.drop_last())
    }
}

/// Where heading `id` first starts among `starts`.
pub open spec fn start_index(starts: Seq<(u64, usize, usize)>, id: u64) -> Option<int>
    decreases starts.len(),
{
    if starts.len() == 0 {
        None
    } else {
        match start_index(starts.drop_last(), id) {
            Some(k) => Some(k),
            None => if starts.last().0 == id {
                Some(starts.len() - 1)
            } else {
                None
            },
        }
    }
}

/// One scene's (heading id, page it starts on, length in eighths); a
/// heading that prints nothing is (id, 0, 0).
pub open spec fn scene_length(starts: Seq<(u64, usize, usize)>, total: nat, id: u64) -> (
    u64,
    usize,
    usize,
) {
    match start_index(starts, id) {
        Some(k) => {
            let at = starts[k].2;
            let end = if k + 1 < starts.len() {
                starts[k + 1].2 as int
            } else {
                total as int
            };
            let lines = if end >= at {
                (end - at) as nat
            } else {
                0
            };
            (id, starts[k].1, eighths(lines) as usize)
        },
        None => (id, 0, 0),
    }
}

pub open spec fn scene_lengths_of(bs: Seq<Block>) -> Seq<(u64, usize, usize)> {
    let pages = pages_of(bs);
    let (starts, total) = start_pages(pages, pages.len());
    heading_ids(bs).map_values(|id: u64| scene_length(starts, total, id))
}

/// One length per scene heading, in the order of the script, each under its
/// heading's id; a heading that starts no printed line (a blank one) is on
/// no page and measures nothing.
pub proof fn law_scene_lengths(bs: Seq<Block>)
    ensures
        scene_lengths_of(bs).len() == heading_ids(bs).len(),
        forall|i: int|
            0 <= i < heading_ids(bs).len() ==> {
                let r = #[trigger] scene_lengths_of(bs)[i];
                let pages = pages_of(bs);
                let starts = start_pages(pages, pages.len()).0;
                &&& r.0 == heading_ids(bs)[i]
                &&& start_index(starts, r.0) is None ==> r.1 == 0 && r.2 == 0
            },
{
}

proof fn lemma_start_index(starts: Seq<(u64, usize, usize)>, id: u64)
    ensures
        start_index(starts, id) matches Some(k) ==> 0 <= k < starts.len() && starts[k].0 == id
            && forall|j: int| 0 <= j < k ==> starts[j].0 != id,
        start_index(starts, id) is None ==> forall|j: int|
            0 <= j < starts.len() ==> starts[j].0 != id,
    decreases starts.len(),
{
    if starts.len() > 0 {
        lemma_start_index(starts.drop_last(), id);
        assert forall|j: int| 0 <= j < starts.len() - 1 implies starts[j] == starts.drop_last()[j] by {}
    }
}

/// `eighths`, in machine arithmetic.
fn eighths_of(lines: usize) -> (r: usize)
    ensures
        r == eighths(lines as nat),
{
    let q = lines / 110;
    let m = lines % 110;
    proof {
        assert(16 * (lines as nat) + 55 == 110 * (16 * q) + (16 * m + 55)) by (nonlinear_arith)
            requires
                lines == 110 * q + m,
        ;
        vstd::arithmetic::div_mod::lemma_fundamental_div_mod(lines as int, 110);
        vstd::arithmetic::div_mod::lemma_hoist_over_denominator(
            16 * m as int + 55,
            16 * q as int,
            110,
        );
        assert((16 * m + 55) + (16 * q) * 110 == 110 * (16 * q) + (16 * m + 55)) by (nonlinear_arith);
        assert(16 * q <= usize::MAX / 2) by (nonlinear_arith)
            requires
                q == lines / 110,
        ;
    }
    let e = 16 * q + (16 * m + 55) / 110;
    if e < 1 {
        1
    } else {
        e
    }
}

/// For every scene, in order: (heading id, page it starts on, length in
/// eighths of a page). Lengths are measured on the printed layout, and a
/// scene never measures less than an eighth.
pub fn scene_lengths(doc: &Document) -> (r: Vec<(u64, usize, usize)>)
    ensures
        r@ == scene_lengths_of(doc.blocks@),
{
    let lines = compose(doc);
    let pages = paginate(lines.as_slice());
    let ghost pv = pages@.map_values(|p: Vec<Line>| p@.map_values(|l: Line| l@));
    let mut starts: Vec<(u64, usize, usize)> = Vec::new();
    let mut total: usize = 0;
    let mut pi: usize = 0;
    let nlines = lines.len();
    proof {
        lemma_pages_hold_at_most(lines@.map_values(|l: Line| l@));
        assert(lines@.map_values(|l: Line| l@).len() == nlines);
    }
    while pi < pages.len()
        invariant
            pi <= pages@.len(),
            pv == pages@.map_values(|p: Vec<Line>| p@.map_values(|l: Line| l@)),
            (starts@, total as nat) == start_pages(pv, pi as nat),
            total <= lines_before(pv, pi as nat),
            lines_before(pv, pages@.len() as nat) <= usize::MAX,
        decreases pages@.len() - pi,
    {
        let page = &pages[pi];
        let pno = pi + 1;
        let ghost pl = page@.map_values(|l: Line| l@);
        let ghost st0 = start_pages(pv, pi as nat);
        proof {
            assert(pv[pi as int] == pl);
            lemma_lines_before_grows(pv, (pi + 1) as nat, pages@.len() as nat);
            assert(pl.take(0) =~= Seq::<LineV>::empty());
        }
        let mut j: usize = 0;
        while j < page.len()
            invariant
                j <= page@.len(),
                pl == page@.map_values(|l: Line| l@),
                (starts@, total as nat) == start_page(st0, (pi + 1) as nat, pl.take(j as int)),
                total <= st0.1 + j,
                st0.1 + pl.len() <= usize::MAX,
                pno == pi + 1,
            decreases page@.len() - j,
        {
            proof {
                assert(pl.take(j + 1).drop_last() =~= pl.take(j as int));
                assert(pl.take(j + 1).last() == page@[j as int]@);
            }
            let l = &page[j];
            if let Some(id) = l.block {
                if l.element == Some(Element::SceneHeading) {
                    let mut seen = false;
                    let mut k: usize = 0;
                    while k < starts.len()
                        invariant
                            k <= starts@.len(),
                            !seen ==> forall|m: int| 0 <= m < k ==> starts@[m].0 != id,
                            seen ==> exists|m: int| 0 <= m < starts@.len() && #[trigger] starts@[m].0 == id,
                        decreases starts@.len() - k,
                    {
                        if starts[k].0 == id {
                            seen = true;
                        }
                        k = k + 1;
                    }
                    if !seen {
                        starts.push((id, pno, total));
                    }
                }
            }
            total = total + 1;
            j = j + 1;
        }
        proof {
            assert(pl.take(j as int) =~= pl);
            assert(lines_before(pv, (pi + 1) as nat) == lines_before(pv, pi as nat) + pl.len());
        }
        pi = pi + 1;
    }
    // every heading, in order
    let mut out: Vec<(u64, usize, usize)> = Vec::new();
    let ghost want = scene_lengths_of(doc.blocks@);
    let ghost ids = heading_ids(doc.blocks@);
    let mut b: usize = 0;
    proof {
        assert(heading_ids(doc.blocks@.take(0)) =~= Seq::<u64>::empty());
    }
    while b < doc.blocks.len()
        invariant
            b <= doc.blocks@.len(),
            (starts@, total as nat) == start_pages(pv, pv.len()),
            pv == pages_of(doc.blocks@),
            out@ == heading_ids(doc.blocks@.take(b as int)).map_values(
                |id: u64| scene_length(starts@, total as nat, id),
            ),
        decreases doc.blocks@.len() - b,
    {
        proof {
            assert(doc.blocks@.take(b + 1).drop_last() =~= doc.blocks@.take(b as int));
        }
        if doc.blocks[b].element == Element::SceneHeading {
            let id = doc.blocks[b].id;
            let mut k: usize = 0;
            let mut found: Option<usize> = None;
            while k < starts.len() && found.is_none()
                invariant
                    k <= starts@.len(),
                    found is None ==> forall|m: int| 0 <= m < k ==> starts@[m].0 != id,
                    found matches Some(f) ==> f < starts@.len() && starts@[f as int].0 == id
                        && forall|m: int| 0 <= m < f ==> starts@[m].0 != id,
                decreases starts@.len() - k,
            {
                if starts[k].0 == id {
                    found = Some(k);
                }
                k = k + 1;
            }
            proof {
                lemma_start_index(starts@, id);
                if start_index(starts@, id) is Some {
                    let s = start_index(starts@, id)->0;
                    if found is Some {
                        let f = found->0;
                        assert(!(f < s) && !(s < f));
                    } else {
                        assert(starts@[s].0 == id);
                    }
                } else if found is Some {
                    assert(starts@[found->0 as int].0 == id);
                }
            }
            let item = match found {
                Some(k) => {
                    let (_, page, at) = starts[k];
                    let end = if k + 1 < starts.len() {
                        starts[k + 1].2
                    } else {
                        total
                    };
                    let n = if end >= at {
                        end - at
                    } else {
                        0
                    };
                    (id, page, eighths_of(n))
                },
                None => (id, 0, 0),
            };
            let ghost before = out@;
            out.push(item);
            proof {
                assert(heading_ids(doc.blocks@.take(b + 1)) == heading_ids(doc.blocks@.take(
                    b as int,
                )).push(id));
                assert(out@ =~= before.push(scene_length(starts@, total as nat, id)));
                assert(heading_ids(doc.blocks@.take(b + 1)).map_values(
                    |id: u64| scene_length(starts@, total as nat, id),
                ) =~= heading_ids(doc.blocks@.take(b as int)).map_values(
                    |id: u64| scene_length(starts@, total as nat, id),
                ).push(scene_length(starts@, total as nat, id)));
            }
        }
        b = b + 1;
    }
    proof {
        assert(doc.blocks@.take(b as int) =~= doc.blocks@);
    }
    out
}

/// How many lines the first `n` pages hold.
pub open spec fn lines_before(pages: Seq<Seq<LineV>>, n: nat) -> nat
    decreases n,
{
    if n == 0 || n > pages.len() {
        0
    } else {
        lines_before(pages, (n - 1) as nat) + pages[n - 1].len()
    }
}

proof fn lemma_lines_before_grows(pages: Seq<Seq<LineV>>, a: nat, b: nat)
    requires
        a <= b <= pages.len(),
    ensures
        lines_before(pages, a) <= lines_before(pages, b),
    decreases b,
{
    if a < b {
        lemma_lines_before_grows(pages, a, (b - 1) as nat);
    }
}

proof fn lemma_lines_before_push(pages: Seq<Seq<LineV>>, x: Seq<LineV>)
    ensures
        lines_before(pages.push(x), pages.len() + 1) == lines_before(pages, pages.len()) + x.len(),
{
    lemma_lines_before_push_all(pages, x, pages.len());
    assert(pages.push(x)[pages.len() as int] == x);
}

proof fn lemma_lines_before_push_all(pages: Seq<Seq<LineV>>, x: Seq<LineV>, n: nat)
    requires
        n <= pages.len(),
    ensures
        lines_before(pages.push(x), n) == lines_before(pages, n),
    decreases n,
{
    if n > 0 {
        lemma_lines_before_push_all(pages, x, (n - 1) as nat);
        assert(pages.push(x)[n - 1] == pages[n - 1]);
    }
}

proof fn lemma_page_fold_count(ls: Seq<LineV>)
    ensures
        lines_before(page_fold(ls).0, page_fold(ls).0.len()) + page_fold(ls).1.len() <= ls.len(),
    decreases ls.len(),
{
    if ls.len() > 0 {
        lemma_page_fold_count(ls.drop_last());
        let (pages, page) = page_fold(ls.drop_last());
        let p2 = page.push(ls.last());
        lemma_trailing_le(p2);
        if !(page.len() == 0 && trim(ls.last().text).len() == 0) && p2.len() >= LINES_PER_PAGE {
            let k = carried(p2);
            lemma_lines_before_push(pages, p2.take(p2.len() - k));
        }
    }
}

/// The pages hold no more lines than they were made from.
proof fn lemma_pages_hold_at_most(ls: Seq<LineV>)
    ensures
        lines_before(paginated(ls), paginated(ls).len()) <= ls.len(),
{
    lemma_page_fold_count(ls);
    let (pages, page) = page_fold(ls);
    if page.len() > 0 {
        lemma_lines_before_push(pages, page);
    } else if pages.len() == 0 {
        let one = seq![Seq::<LineV>::empty()];
        assert(one.len() == 1);
        assert(lines_before(one, 0) == 0);
        assert(one[0].len() == 0);
        assert(lines_before(one, 1) == 0);
    }
}

// ---------------------------------------------------------- plain text --

pub open spec fn spaces(n: nat) -> Seq<char> {
    Seq::new(n, |i: int| ' ')
}

fn push_spaces(out: &mut Vec<char>, n: usize)
    ensures
        final(out)@ == old(out)@ + spaces(n as nat),
{
    let mut k: usize = 0;
    while k < n
        invariant
            k <= n,
            out@ == old(out)@ + spaces(k as nat),
        decreases n - k,
    {
        out.push(' ');
        proof {
            assert(old(out)@ + spaces((k + 1) as nat) =~= (old(out)@ + spaces(k as nat)).push(' '));
        }
        k = k + 1;
    }
}

/// The number printed at the top of page `n`: `n.`
pub open spec fn page_number_text(n: nat) -> Seq<char> {
    dec(n) + "."@
}

/// What starts page `i` (from 0) of the plain text: nothing for the first;
/// for the others a form feed, then the page's number flush right.
pub open spec fn page_head(i: nat) -> Seq<char> {
    if i == 0 {
        seq![]
    } else {
        let num = page_number_text(i + 1);
        let pad: nat = if num.len() < PAGE_COLS {
            (PAGE_COLS - num.len()) as nat
        } else {
            0
        };
        "\u{000C}\n"@ + spaces(pad) + num + "\n\n"@
    }
}

/// A line of plain text: spacing as an empty line, text at its indent.
pub open spec fn line_text(l: LineV) -> Seq<char> {
    if trim(l.text).len() == 0 {
        "\n"@
    } else {
        spaces(l.indent as nat) + l.text + "\n"@
    }
}

pub open spec fn page_text(p: Seq<LineV>) -> Seq<char>
    decreases p.len(),
{
    if p.len() == 0 {
        seq![]
    } else {
        page_text(p.drop_last()) + line_text(p.last())
    }
}

pub open spec fn plain_pages(pages: Seq<Seq<LineV>>, n: nat) -> Seq<char>
    decreases n,
{
    if n == 0 || n > pages.len() {
        seq![]
    } else {
        plain_pages(pages, (n - 1) as nat) + page_head((n - 1) as nat) + page_text(pages[n - 1])
    }
}

pub open spec fn plain_text_of(bs: Seq<Block>) -> Seq<char> {
    plain_pages(pages_of(bs), pages_of(bs).len())
}

// ---------------------------------------------------------- form feeds --

/// How many form feeds a text holds.
pub open spec fn form_feeds(s: Seq<char>) -> nat
    decreases s.len(),
{
    if s.len() == 0 {
        0
    } else {
        form_feeds(s.drop_last()) + if s.last() == '\u{c}' {
            1nat
        } else {
            0nat
        }
    }
}

/// A text without a form feed.
pub open spec fn no_ff(s: Seq<char>) -> bool {
    forall|i: int| 0 <= i < s.len() ==> #[trigger] s[i] != '\u{c}'
}

proof fn lemma_ff_append(a: Seq<char>, b: Seq<char>)
    ensures
        form_feeds(a + b) == form_feeds(a) + form_feeds(b),
    decreases b.len(),
{
    if b.len() == 0 {
        assert(a + b =~= a);
    } else {
        lemma_ff_append(a, b.drop_last());
        assert((a + b).drop_last() =~= a + b.drop_last());
    }
}

proof fn lemma_no_ff(s: Seq<char>)
    requires
        no_ff(s),
    ensures
        form_feeds(s) == 0,
    decreases s.len(),
{
    if s.len() > 0 {
        assert(no_ff(s.drop_last())) by {
            assert forall|i: int| 0 <= i < s.drop_last().len() implies #[trigger] s.drop_last()[i]
                != '\u{c}' by {
                assert(s.drop_last()[i] == s[i]);
            }
        }
        lemma_no_ff(s.drop_last());
        assert(s.last() == s[s.len() - 1]);
    }
}

/// No line of `ls` holds a form feed.
pub open spec fn lines_no_ff(ls: Seq<Seq<char>>) -> bool {
    forall|k: int| 0 <= k < ls.len() ==> no_ff(#[trigger] ls[k])
}

proof fn lemma_split_no_ff(s: Seq<char>)
    ensures
        lines_no_ff(crate::text::split_state(s).0),
        no_ff(crate::text::split_state(s).1),
    decreases s.len(),
{
    if s.len() > 0 {
        lemma_split_no_ff(s.drop_last());
        let (ws, cur) = crate::text::split_state(s.drop_last());
        if crate::text::is_ws(s.last()) {
            if cur.len() > 0 {
                let n = ws.push(cur);
                assert forall|k: int| 0 <= k < n.len() implies no_ff(#[trigger] n[k]) by {
                    if k < ws.len() {
                        assert(n[k] == ws[k]);
                    }
                }
            }
            assert(no_ff(Seq::<char>::empty()));
        } else {
            let c = cur.push(s.last());
            assert('\u{c}' as u32 == 12);
            assert(s.last() != '\u{c}');
            assert forall|i: int| 0 <= i < c.len() implies #[trigger] c[i] != '\u{c}' by {
                if i < cur.len() {
                    assert(c[i] == cur[i]);
                }
            }
        }
    }
}

proof fn lemma_words_no_ff(s: Seq<char>)
    ensures
        lines_no_ff(crate::text::words(s)),
{
    lemma_split_no_ff(s);
    let (ws, cur) = crate::text::split_state(s);
    if cur.len() > 0 {
        let n = ws.push(cur);
        assert forall|k: int| 0 <= k < n.len() implies no_ff(#[trigger] n[k]) by {
            if k < ws.len() {
                assert(n[k] == ws[k]);
            }
        }
    }
}

proof fn lemma_hard_break_no_ff(w: Seq<char>, width: nat)
    requires
        no_ff(w),
    ensures
        lines_no_ff(crate::model::hard_break(w, width).0),
        no_ff(crate::model::hard_break(w, width).1),
    decreases w.len(),
{
    if !(width == 0 || w.len() <= width) {
        let rest = w.skip(width as int);
        assert(no_ff(rest)) by {
            assert forall|i: int| 0 <= i < rest.len() implies #[trigger] rest[i] != '\u{c}' by {
                assert(rest[i] == w[i + width]);
            }
        }
        lemma_hard_break_no_ff(rest, width);
        let head = w.take(width as int);
        assert(no_ff(head)) by {
            assert forall|i: int| 0 <= i < head.len() implies #[trigger] head[i] != '\u{c}' by {
                assert(head[i] == w[i]);
            }
        }
        let (cs, r) = crate::model::hard_break(rest, width);
        let n = seq![head] + cs;
        assert forall|k: int| 0 <= k < n.len() implies no_ff(#[trigger] n[k]) by {
            if k > 0 {
                assert(n[k] == cs[k - 1]);
            }
        }
    }
}

proof fn lemma_join_no_ff(a: Seq<Seq<char>>, b: Seq<Seq<char>>)
    requires
        lines_no_ff(a),
        lines_no_ff(b),
    ensures
        lines_no_ff(a + b),
{
    assert forall|k: int| 0 <= k < (a + b).len() implies no_ff(#[trigger] (a + b)[k]) by {
        if k < a.len() {
            assert((a + b)[k] == a[k]);
        } else {
            assert((a + b)[k] == b[k - a.len()]);
        }
    }
}

proof fn lemma_wrap_fold_no_ff(ws: Seq<Seq<char>>, width: nat)
    requires
        lines_no_ff(ws),
    ensures
        lines_no_ff(crate::model::wrap_fold(ws, width).0),
        no_ff(crate::model::wrap_fold(ws, width).1),
    decreases ws.len(),
{
    if ws.len() > 0 {
        assert(lines_no_ff(ws.drop_last())) by {
            assert forall|k: int| 0 <= k < ws.drop_last().len() implies no_ff(
                #[trigger] ws.drop_last()[k],
            ) by {
                assert(ws.drop_last()[k] == ws[k]);
            }
        }
        lemma_wrap_fold_no_ff(ws.drop_last(), width);
        let (out, line) = crate::model::wrap_fold(ws.drop_last(), width);
        let w = ws.last();
        assert(no_ff(w)) by {
            assert(w == ws[ws.len() - 1]);
        }
        lemma_hard_break_no_ff(w, width);
        let one = seq![line];
        assert(lines_no_ff(one));
        lemma_join_no_ff(out, one);
        assert(out.push(line) =~= out + one);
        let cs = crate::model::hard_break(w, width).0;
        lemma_join_no_ff(out, cs);
        lemma_join_no_ff(out.push(line), cs);
        let joined = line.push(' ') + w;
        assert forall|i: int| 0 <= i < joined.len() implies #[trigger] joined[i] != '\u{c}' by {
            if i < line.len() {
                assert(joined[i] == line[i]);
            } else if i > line.len() {
                assert(joined[i] == w[i - line.len() - 1]);
            }
        }
    }
}

proof fn lemma_wrapped_no_ff(text: Seq<char>, width: usize)
    ensures
        lines_no_ff(wrapped(text, width)),
{
    lemma_words_no_ff(text);
    lemma_wrap_fold_no_ff(crate::text::words(text), crate::model::wrap_width(width));
    let (out, line) = crate::model::wrap_fold(
        crate::text::words(text),
        crate::model::wrap_width(width),
    );
    assert(lines_no_ff(seq![line]));
    lemma_join_no_ff(out, seq![line]);
    assert(out.push(line) =~= out + seq![line]);
    assert(lines_no_ff(seq![Seq::<char>::empty()]));
}

/// Every line of a text without form feeds.
pub open spec fn texts_no_ff(ls: Seq<LineV>) -> bool {
    forall|k: int| 0 <= k < ls.len() ==> no_ff(#[trigger] ls[k].text)
}

proof fn lemma_compose_no_ff(bs: Seq<Block>, n: nat)
    ensures
        texts_no_ff(compose_prefix(bs, n)),
    decreases n,
{
    if n > 0 && n <= bs.len() {
        lemma_compose_no_ff(bs, (n - 1) as nat);
        let prev = compose_prefix(bs, (n - 1) as nat);
        let b = bs[n - 1];
        if trim(b.text@).len() > 0 {
            let e = b.element;
            let bl = blank_lines(
                if prev.len() > 0 {
                    blanks_before(e) as nat
                } else {
                    0
                },
            );
            let w = wrapped(body_text(e, trim(b.text@)), width_of(e));
            lemma_wrapped_no_ff(body_text(e, trim(b.text@)), width_of(e));
            let ls = block_lines(b, headings_in(bs.take(n as int)));
            let all = compose_prefix(bs, n);
            assert(all == prev + bl + ls);
            assert forall|k: int| 0 <= k < all.len() implies no_ff(#[trigger] all[k].text) by {
                if k < prev.len() {
                    assert(all[k] == prev[k]);
                } else if k < prev.len() + bl.len() {
                    assert(all[k] == bl[k - prev.len()]);
                    assert(no_ff(Seq::<char>::empty()));
                } else {
                    let j = k - prev.len() - bl.len();
                    assert(all[k] == ls[j]);
                    assert(ls[j].text == w[j]);
                }
            }
        }
    }
}

proof fn lemma_page_fold_no_ff(ls: Seq<LineV>)
    requires
        texts_no_ff(ls),
    ensures
        forall|i: int| 0 <= i < page_fold(ls).0.len() ==> texts_no_ff(#[trigger] page_fold(ls).0[i]),
        texts_no_ff(page_fold(ls).1),
    decreases ls.len(),
{
    if ls.len() > 0 {
        let q = ls.drop_last();
        assert(texts_no_ff(q)) by {
            assert forall|k: int| 0 <= k < q.len() implies no_ff(#[trigger] q[k].text) by {
                assert(q[k] == ls[k]);
            }
        }
        lemma_page_fold_no_ff(q);
        let (pages, page) = page_fold(q);
        let l = ls.last();
        assert(no_ff(ls[ls.len() - 1].text));
        if !(page.len() == 0 && trim(l.text).len() == 0) {
            let p2 = page.push(l);
            assert(texts_no_ff(p2)) by {
                assert forall|k: int| 0 <= k < p2.len() implies no_ff(#[trigger] p2[k].text) by {
                    if k < page.len() {
                        assert(p2[k] == page[k]);
                    }
                }
            }
            if p2.len() >= LINES_PER_PAGE {
                lemma_trailing_le(p2);
                let k = carried(p2);
                let head = p2.take(p2.len() - k);
                let carry = p2.skip(p2.len() - k);
                assert(texts_no_ff(head)) by {
                    assert forall|j: int| 0 <= j < head.len() implies no_ff(#[trigger] head[j].text) by {
                        assert(head[j] == p2[j]);
                    }
                }
                assert(texts_no_ff(carry)) by {
                    assert forall|j: int| 0 <= j < carry.len() implies no_ff(
                        #[trigger] carry[j].text,
                    ) by {
                        assert(carry[j] == p2[p2.len() - k + j]);
                    }
                }
                let np = pages.push(head);
                assert forall|i: int| 0 <= i < np.len() implies texts_no_ff(#[trigger] np[i]) by {
                    if i < pages.len() {
                        assert(np[i] == pages[i]);
                    }
                }
            }
        }
    }
}

proof fn lemma_page_text_no_ff(p: Seq<LineV>)
    requires
        texts_no_ff(p),
    ensures
        form_feeds(page_text(p)) == 0,
    decreases p.len(),
{
    if p.len() > 0 {
        let q = p.drop_last();
        assert(texts_no_ff(q)) by {
            assert forall|k: int| 0 <= k < q.len() implies no_ff(#[trigger] q[k].text) by {
                assert(q[k] == p[k]);
            }
        }
        lemma_page_text_no_ff(q);
        let l = p.last();
        assert(no_ff(p[p.len() - 1].text));
        reveal_strlit("\n");
        let t = line_text(l);
        assert(no_ff(t)) by {
            if trim(l.text).len() > 0 {
                let a = spaces(l.indent as nat);
                assert forall|i: int| 0 <= i < t.len() implies #[trigger] t[i] != '\u{c}' by {
                    if i < a.len() {
                        assert(t[i] == a[i]);
                    } else if i < a.len() + l.text.len() {
                        assert(t[i] == l.text[i - a.len()]);
                    } else {
                        assert(t[i] == "\n"@[i - a.len() - l.text.len()]);
                    }
                }
            }
        }
        lemma_no_ff(t);
        lemma_ff_append(page_text(q), t);
    }
}

proof fn lemma_dec_no_ff(n: nat)
    ensures
        no_ff(dec(n)),
    decreases n,
{
    if n >= 10 {
        lemma_dec_no_ff(n / 10);
        let d = dec(n / 10);
        let x = d.push(crate::text::digit_char(n % 10));
        assert forall|i: int| 0 <= i < x.len() implies #[trigger] x[i] != '\u{c}' by {
            if i < d.len() {
                assert(x[i] == d[i]);
            }
        }
    }
}

proof fn lemma_page_head_ff(i: nat)
    ensures
        form_feeds(page_head(i)) == (if i == 0 {
            0nat
        } else {
            1nat
        }),
{
    if i > 0 {
        reveal_strlit("\u{000C}\n");
        reveal_strlit("\n\n");
        reveal_strlit(".");
        let num = page_number_text(i + 1);
        lemma_dec_no_ff(i + 1);
        assert(no_ff(num)) by {
            let d = dec(i + 1);
            assert forall|j: int| 0 <= j < num.len() implies #[trigger] num[j] != '\u{c}' by {
                if j < d.len() {
                    assert(num[j] == d[j]);
                }
            }
        }
        let pad: nat = if num.len() < PAGE_COLS {
            (PAGE_COLS - num.len()) as nat
        } else {
            0
        };
        let a = "\u{000C}\n"@;
        let sp = spaces(pad);
        let tail = "\n\n"@;
        assert(no_ff(sp));
        assert(no_ff(tail));
        lemma_no_ff(sp);
        lemma_no_ff(num);
        lemma_no_ff(tail);
        assert(form_feeds(a) == 1) by {
            let b = a.drop_last();
            assert(a.len() == 2);
            assert(a[0] == '\u{c}' && a[1] == '\n');
            assert(b.len() == 1 && b.last() == '\u{c}');
            assert(form_feeds(b.drop_last()) == 0);
            assert(form_feeds(b) == 1);
            assert(a.last() == '\n');
        }
        lemma_ff_append(a, sp);
        lemma_ff_append(a + sp, num);
        lemma_ff_append(a + sp + num, tail);
    }
}

proof fn lemma_plain_pages_ff(pages: Seq<Seq<LineV>>, n: nat)
    requires
        1 <= n <= pages.len(),
        forall|i: int| 0 <= i < pages.len() ==> texts_no_ff(#[trigger] pages[i]),
    ensures
        form_feeds(plain_pages(pages, n)) == n - 1,
    decreases n,
{
    let prev = plain_pages(pages, (n - 1) as nat);
    if n > 1 {
        lemma_plain_pages_ff(pages, (n - 1) as nat);
    } else {
        assert(prev.len() == 0);
    }
    lemma_page_head_ff((n - 1) as nat);
    lemma_page_text_no_ff(pages[n - 1]);
    lemma_ff_append(prev, page_head((n - 1) as nat));
    lemma_ff_append(prev + page_head((n - 1) as nat), page_text(pages[n - 1]));
}

/// The plain text breaks its pages with form feeds: one before each page
/// after the first, and no other, as no printed line holds one.
pub proof fn law_plain_text_breaks_pages(bs: Seq<Block>)
    ensures
        form_feeds(plain_text_of(bs)) == pages_of(bs).len() - 1,
{
    let ls = composed(bs);
    lemma_compose_no_ff(bs, bs.len());
    lemma_page_fold_no_ff(ls);
    law_pages_fit(ls);
    let ps = pages_of(bs);
    let (pages, page) = page_fold(ls);
    assert forall|i: int| 0 <= i < ps.len() implies texts_no_ff(#[trigger] ps[i]) by {
        if page.len() > 0 && i == pages.len() {
            assert(ps[i] == page);
        } else if pages.len() > 0 || page.len() > 0 {
            assert(ps[i] == pages[i]);
        } else {
            assert(ps[i].len() == 0);
        }
    }
    lemma_plain_pages_ff(ps, ps.len());
}

pub fn to_plain_text(doc: &Document) -> (r: String)
    ensures
        r@ == plain_text_of(doc.blocks@),
{
    let lines = compose(doc);
    let pages = paginate(lines.as_slice());
    let ghost pv = pages@.map_values(|p: Vec<Line>| p@.map_values(|l: Line| l@));
    let mut s: Vec<char> = Vec::new();
    let mut i: usize = 0;
    while i < pages.len()
        invariant
            i <= pages@.len(),
            pv == pages@.map_values(|p: Vec<Line>| p@.map_values(|l: Line| l@)),
            s@ == plain_pages(pv, i as nat),
        decreases pages@.len() - i,
    {
        let ghost s0 = s@;
        if i > 0 {
            push_str(&mut s, "\u{000C}\n");
            let mut num: Vec<char> = Vec::new();
            push_decimal(&mut num, i + 1);
            push_str(&mut num, ".");
            let pad = if num.len() < PAGE_COLS {
                PAGE_COLS - num.len()
            } else {
                0
            };
            push_spaces(&mut s, pad);
            push_all(&mut s, num.as_slice());
            push_str(&mut s, "\n\n");
            proof {
                assert(num@ =~= page_number_text((i + 1) as nat));
                assert(s@ =~= s0 + page_head(i as nat));
            }
        } else {
            proof {
                assert(s@ =~= s0 + page_head(i as nat));
            }
        }
        let page = &pages[i];
        let ghost pl = page@.map_values(|l: Line| l@);
        let ghost s1 = s@;
        let mut j: usize = 0;
        proof {
            assert(pl.take(0) =~= Seq::<LineV>::empty());
            assert(s1 + page_text(pl.take(0)) =~= s1);
        }
        while j < page.len()
            invariant
                j <= page@.len(),
                pl == page@.map_values(|l: Line| l@),
                s@ == s1 + page_text(pl.take(j as int)),
            decreases page@.len() - j,
        {
            proof {
                assert(pl.take(j + 1).drop_last() =~= pl.take(j as int));
                assert(pl.take(j + 1).last() == page@[j as int]@);
            }
            let ghost before = s@;
            let line = &page[j];
            let t = chars_of(line.text.as_str());
            if is_blank(t.as_slice()) {
                push_str(&mut s, "\n");
            } else {
                push_spaces(&mut s, line.indent);
                push_all(&mut s, t.as_slice());
                push_str(&mut s, "\n");
            }
            proof {
                assert(s@ =~= before + line_text(line@));
            }
            j = j + 1;
        }
        proof {
            assert(pl.take(j as int) =~= pl);
            assert(pv[i as int] == pl);
            assert(s@ =~= s0 + page_head(i as nat) + page_text(pv[i as int]));
        }
        i = i + 1;
    }
    string_of(s.as_slice())
}

// ------------------------------------------------------------- fountain --

/// A title-page entry: `Key: value` once the value is trimmed, if there is
/// one.
pub open spec fn fountain_entry(key: Seq<char>, value: Seq<char>) -> Seq<char> {
    if trim(value).len() > 0 {
        key + trim(value) + "\n"@
    } else {
        seq![]
    }
}

/// The Fountain title page, followed by a blank line when it says anything.
pub open spec fn fountain_head(m: Meta) -> Seq<char> {
    let h = fountain_entry("Title: "@, m.title@) + fountain_entry(
        "Credit: written by\nAuthor: "@,
        m.author@,
    ) + fountain_entry("Draft date: "@, m.draft@) + fountain_entry("Contact: "@, m.contact@);
    if h.len() > 0 {
        h + "\n"@
    } else {
        h
    }
}

/// A block in Fountain, each element forced by its own mark so nothing is
/// left to guessing; a heading's synopsis follows it as `= ...`.
pub open spec fn fountain_block(b: Block) -> Seq<char> {
    let t = trim(b.text@);
    if t.len() == 0 {
        seq![]
    } else {
        match b.element {
            Element::SceneHeading => "\n."@ + upper(t) + "\n\n"@ + if trim(b.note@).len() > 0 {
                "= "@ + trim(b.note@) + "\n\n"@
            } else {
                seq![]
            },
            Element::Shot => "\n"@ + upper(t) + "\n\n"@,
            Element::Action => t + "\n\n"@,
            Element::Character => "@"@ + upper(t) + "\n"@,
            Element::Parenthetical => paren_wrapped(t) + "\n"@,
            Element::Dialogue => t + "\n\n"@,
            Element::Transition => "> "@ + upper(t) + "\n\n"@,
        }
    }
}

pub open spec fn fountain_blocks(bs: Seq<Block>) -> Seq<char>
    decreases bs.len(),
{
    if bs.len() == 0 {
        seq![]
    } else {
        fountain_blocks(bs.drop_last()) + fountain_block(bs.last())
    }
}

proof fn lemma_fountain_blocks_append(a: Seq<Block>, b: Seq<Block>)
    ensures
        fountain_blocks(a + b) == fountain_blocks(a) + fountain_blocks(b),
    decreases b.len(),
{
    if b.len() == 0 {
        assert(a + b =~= a);
        assert(fountain_blocks(a) + seq![] =~= fountain_blocks(a));
    } else {
        lemma_fountain_blocks_append(a, b.drop_last());
        assert((a + b).drop_last() =~= a + b.drop_last());
        assert((a + b).last() == b.last());
        vstd::seq_lib::lemma_concat_associative(
            fountain_blocks(a),
            fountain_blocks(b.drop_last()),
            fountain_block(b.last()),
        );
    }
}

/// How each block is written in a Fountain file: nothing for a blank block;
/// a scene heading forced with `.` (its card after it as a synopsis) and a
/// shot on lines of their own, in capitals, after a blank line; a cue forced with `@` in capitals with its
/// speech on the next line; a parenthetical in its parentheses, inside the
/// speech; a transition forced with `> ` in capitals; action and dialogue as
/// they are; every paragraph but a cue or a parenthetical closed by a blank
/// line.
pub proof fn law_fountain_writes_each_block(b: Block)
    ensures
        ({
            let t = trim(b.text@);
            let f = fountain_block(b);
            &&& t.len() == 0 ==> f.len() == 0
            &&& t.len() > 0 ==> match b.element {
                Element::SceneHeading => f == "\n."@ + upper(t) + "\n\n"@ + (if trim(b.note@).len()
                    > 0 {
                    "= "@ + trim(b.note@) + "\n\n"@
                } else {
                    seq![]
                }),
                Element::Shot => f == "\n"@ + upper(t) + "\n\n"@,
                Element::Character => f == "@"@ + upper(t) + "\n"@,
                Element::Parenthetical => f == paren_wrapped(t) + "\n"@,
                Element::Transition => f == "> "@ + upper(t) + "\n\n"@,
                Element::Action => f == t + "\n\n"@,
                Element::Dialogue => f == t + "\n\n"@,
            }
        }),
{
}

/// In a Fountain file a cue sits directly on its speech: a character cue
/// followed by a line of dialogue is written as `@` and the cue's capitals
/// on one line with the dialogue on the very next, so the speech reads back
/// as the cue's (a blank line between would end the speech).
pub proof fn law_fountain_cue_sits_on_its_speech(bs: Seq<Block>, i: int)
    requires
        0 <= i,
        i + 1 < bs.len(),
        bs[i].element == Element::Character,
        trim(bs[i].text@).len() > 0,
        bs[i + 1].element == Element::Dialogue || bs[i + 1].element == Element::Parenthetical,
        trim(bs[i + 1].text@).len() > 0,
    ensures
        fountain_blocks(bs) == fountain_blocks(bs.take(i)) + "@"@ + upper(trim(bs[i].text@))
            + "\n"@ + (if bs[i + 1].element == Element::Dialogue {
            trim(bs[i + 1].text@) + "\n\n"@
        } else {
            paren_wrapped(trim(bs[i + 1].text@)) + "\n"@
        }) + fountain_blocks(bs.skip(i + 2)),
{
    let pre = bs.take(i);
    let two = seq![bs[i], bs[i + 1]];
    let post = bs.skip(i + 2);
    assert(bs =~= pre + two + post);
    lemma_fountain_blocks_append(pre + two, post);
    lemma_fountain_blocks_append(pre, two);
    assert(two.drop_last() =~= seq![bs[i]]);
    let one = seq![bs[i]];
    assert(one.drop_last() =~= Seq::<Block>::empty());
    assert(fountain_blocks(one.drop_last()) =~= Seq::<char>::empty());
    assert(one.last() == bs[i]);
    assert(fountain_blocks(one) =~= fountain_block(bs[i]));
    assert(fountain_blocks(two) =~= fountain_block(bs[i]) + fountain_block(bs[i + 1]));
}

fn push_entry(out: &mut Vec<char>, key: &str, value: &String)
    ensures
        final(out)@ == old(out)@ + fountain_entry(key@, value@),
{
    let v = chars_of(value.as_str());
    let t = trim_chars(v.as_slice());
    if t.len() > 0 {
        push_str(out, key);
        push_all(out, t.as_slice());
        push_str(out, "\n");
    }
}

fn fountain_of_block(out: &mut Vec<char>, b: &Block)
    ensures
        final(out)@ == old(out)@ + fountain_block(*b),
{
    let raw = chars_of(b.text.as_str());
    let t = trim_chars(raw.as_slice());
    if t.len() == 0 {
        return;
    }
    match b.element {
        Element::SceneHeading => {
            push_str(out, "\n.");
            let u = to_upper(t.as_slice());
            push_all(out, u.as_slice());
            push_str(out, "\n\n");
            let n = chars_of(b.note.as_str());
            let n = trim_chars(n.as_slice());
            if n.len() > 0 {
                push_str(out, "= ");
                push_all(out, n.as_slice());
                push_str(out, "\n\n");
            }
        },
        Element::Shot => {
            push_str(out, "\n");
            let u = to_upper(t.as_slice());
            push_all(out, u.as_slice());
            push_str(out, "\n\n");
        },
        Element::Action | Element::Dialogue => {
            push_all(out, t.as_slice());
            push_str(out, "\n\n");
        },
        Element::Character => {
            push_str(out, "@");
            let u = to_upper(t.as_slice());
            push_all(out, u.as_slice());
            push_str(out, "\n");
        },
        Element::Parenthetical => {
            let p = paren_wrap(t.as_slice());
            push_all(out, p.as_slice());
            push_str(out, "\n");
        },
        Element::Transition => {
            push_str(out, "> ");
            let u = to_upper(t.as_slice());
            push_all(out, u.as_slice());
            push_str(out, "\n\n");
        },
    }
    proof {
        assert(final(out)@ =~= old(out)@ + fountain_block(*b));
    }
}

/// Fountain, for handing the script to Final Draft, Highland, Beat, afterwriting...
pub fn to_fountain(doc: &Document) -> (r: String)
    ensures
        r@ == fountain_head(doc.meta) + fountain_blocks(doc.blocks@),
{
    let mut s: Vec<char> = Vec::new();
    push_entry(&mut s, "Title: ", &doc.meta.title);
    push_entry(&mut s, "Credit: written by\nAuthor: ", &doc.meta.author);
    push_entry(&mut s, "Draft date: ", &doc.meta.draft);
    push_entry(&mut s, "Contact: ", &doc.meta.contact);
    if s.len() > 0 {
        push_str(&mut s, "\n");
    }
    proof {
        assert(s@ =~= fountain_head(doc.meta));
    }
    let ghost head = s@;
    let mut i: usize = 0;
    while i < doc.blocks.len()
        invariant
            i <= doc.blocks@.len(),
            s@ == head + fountain_blocks(doc.blocks@.take(i as int)),
        decreases doc.blocks@.len() - i,
    {
        proof {
            assert(doc.blocks@.take(i + 1).drop_last() =~= doc.blocks@.take(i as int));
        }
        fountain_of_block(&mut s, &doc.blocks[i]);
        proof {
            assert(s@ =~= head + fountain_blocks(doc.blocks@.take(i + 1)));
        }
        i = i + 1;
    }
    proof {
        assert(doc.blocks@.take(i as int) =~= doc.blocks@);
    }
    string_of(s.as_slice())
}

// ---------------------------------------------------------- final draft --

/// A character as XML text: the four that mean something there escaped.
pub open spec fn xml_char(c: char) -> Seq<char> {
    if c == '&' {
        "&amp;"@
    } else if c == '<' {
        "&lt;"@
    } else if c == '>' {
        "&gt;"@
    } else if c == '"' {
        "&quot;"@
    } else {
        seq![c]
    }
}

pub open spec fn xml_text(s: Seq<char>) -> Seq<char>
    decreases s.len(),
{
    if s.len() == 0 {
        seq![]
    } else {
        xml_text(s.drop_last()) + xml_char(s.last())
    }
}

fn push_xml(out: &mut Vec<char>, s: &[char])
    ensures
        final(out)@ == old(out)@ + xml_text(s@),
{
    let mut i: usize = 0;
    while i < s.len()
        invariant
            i <= s@.len(),
            out@ == old(out)@ + xml_text(s@.take(i as int)),
        decreases s@.len() - i,
    {
        proof {
            assert(s@.take(i + 1).drop_last() =~= s@.take(i as int));
            assert(s@.take(i + 1).last() == s@[i as int]);
        }
        let ghost before = out@;
        let c = s[i];
        if c == '&' {
            push_str(out, "&amp;");
        } else if c == '<' {
            push_str(out, "&lt;");
        } else if c == '>' {
            push_str(out, "&gt;");
        } else if c == '"' {
            push_str(out, "&quot;");
        } else {
            out.push(c);
        }
        proof {
            assert(out@ =~= before + xml_char(c));
            assert(old(out)@ + xml_text(s@.take(i + 1)) =~= old(out)@ + xml_text(s@.take(i as int))
                + xml_char(c));
        }
        i = i + 1;
    }
    proof {
        assert(s@.take(i as int) =~= s@);
    }
}

/// Text made safe to stand between XML tags.
pub fn xml(s: &str) -> (r: String)
    ensures
        r@ == xml_text(s@),
{
    let c = chars_of(s);
    let mut out: Vec<char> = Vec::new();
    push_xml(&mut out, c.as_slice());
    proof {
        assert(out@ =~= xml_text(s@));
    }
    string_of(out.as_slice())
}

/// Final Draft's name for an element's paragraph type.
pub open spec fn fdx_kind(e: Element) -> Seq<char> {
    match e {
        Element::SceneHeading => "Scene Heading"@,
        Element::Action => "Action"@,
        Element::Character => "Character"@,
        Element::Parenthetical => "Parenthetical"@,
        Element::Dialogue => "Dialogue"@,
        Element::Transition => "Transition"@,
        Element::Shot => "Shot"@,
    }
}

pub open spec fn fdx_block(b: Block) -> Seq<char> {
    let t = trim(b.text@);
    if t.len() == 0 {
        seq![]
    } else {
        let summary = if b.element == Element::SceneHeading && trim(b.note@).len() > 0 {
            "      <SceneProperties><Summary><Paragraph><Text>"@ + xml_text(trim(b.note@))
                + "</Text></Paragraph></Summary></SceneProperties>\n"@
        } else {
            seq![]
        };
        "    <Paragraph Type=\""@ + fdx_kind(b.element) + "\">\n"@ + summary + "      <Text>"@
            + xml_text(body_text(b.element, t)) + "</Text>\n"@ + "    </Paragraph>\n"@
    }
}

pub open spec fn fdx_blocks(bs: Seq<Block>) -> Seq<char>
    decreases bs.len(),
{
    if bs.len() == 0 {
        seq![]
    } else {
        fdx_blocks(bs.drop_last()) + fdx_block(bs.last())
    }
}

pub open spec fn fdx_title_line(text: Seq<char>, align: Seq<char>) -> Seq<char> {
    "      <Paragraph Alignment=\""@ + align + "\"><Text>"@ + xml_text(text)
        + "</Text></Paragraph>\n"@
}

/// The title page: the title in capitals, then author, draft and contact
/// where there are any.
pub open spec fn fdx_title_page(m: Meta) -> Seq<char> {
    let a = trim(m.author@);
    let d = trim(m.draft@);
    let c = trim(m.contact@);
    fdx_title_line(upper(trim(m.title@)), "Center"@) + (if a.len() > 0 {
        fdx_title_line("written by"@, "Center"@) + fdx_title_line(a, "Center"@)
    } else {
        seq![]
    }) + (if d.len() > 0 {
        fdx_title_line(d, "Center"@)
    } else {
        seq![]
    }) + (if c.len() > 0 {
        fdx_title_line(c, "Left"@)
    } else {
        seq![]
    })
}

pub open spec fn fdx_of(m: Meta, bs: Seq<Block>) -> Seq<char> {
    "<?xml version=\"1.0\" encoding=\"UTF-8\" standalone=\"no\" ?>\n"@
        + "<FinalDraft DocumentType=\"Script\" Template=\"No\" Version=\"5\">\n"@
        + "  <Content>\n"@ + fdx_blocks(bs) + "  </Content>\n"@ + "  <TitlePage>\n    <Content>\n"@
        + fdx_title_page(m) + "    </Content>\n  </TitlePage>\n"@ + "</FinalDraft>\n"@
}

fn push_title_line(out: &mut Vec<char>, text: &[char], align: &str)
    ensures
        final(out)@ == old(out)@ + fdx_title_line(text@, align@),
{
    push_str(out, "      <Paragraph Alignment=\"");
    push_str(out, align);
    push_str(out, "\"><Text>");
    push_xml(out, text);
    push_str(out, "</Text></Paragraph>\n");
    proof {
        assert(final(out)@ =~= old(out)@ + fdx_title_line(text@, align@));
    }
}

fn fdx_of_block(out: &mut Vec<char>, b: &Block)
    ensures
        final(out)@ == old(out)@ + fdx_block(*b),
{
    let raw = chars_of(b.text.as_str());
    let t = trim_chars(raw.as_slice());
    if t.len() == 0 {
        return;
    }
    let kind = match b.element {
        Element::SceneHeading => "Scene Heading",
        Element::Action => "Action",
        Element::Character => "Character",
        Element::Parenthetical => "Parenthetical",
        Element::Dialogue => "Dialogue",
        Element::Transition => "Transition",
        Element::Shot => "Shot",
    };
    let body = body_of(b.element, t.as_slice());
    push_str(out, "    <Paragraph Type=\"");
    push_str(out, kind);
    push_str(out, "\">\n");
    let ghost mid = out@;
    if b.element == Element::SceneHeading {
        let n = chars_of(b.note.as_str());
        let n = trim_chars(n.as_slice());
        if n.len() > 0 {
            push_str(out, "      <SceneProperties><Summary><Paragraph><Text>");
            push_xml(out, n.as_slice());
            push_str(out, "</Text></Paragraph></Summary></SceneProperties>\n");
        }
    }
    push_str(out, "      <Text>");
    push_xml(out, body.as_slice());
    push_str(out, "</Text>\n");
    push_str(out, "    </Paragraph>\n");
    proof {
        assert(final(out)@ =~= old(out)@ + fdx_block(*b));
    }
}

/// Final Draft's own format, so a script can go straight to a production that
/// lives in it. Paragraph types are Final Draft's names for the same elements;
/// the synopsis travels as the scene's summary.
pub fn to_fdx(doc: &Document) -> (r: String)
    ensures
        r@ == fdx_of(doc.meta, doc.blocks@),
{
    let mut s: Vec<char> = Vec::new();
    push_str(&mut s, "<?xml version=\"1.0\" encoding=\"UTF-8\" standalone=\"no\" ?>\n");
    push_str(&mut s, "<FinalDraft DocumentType=\"Script\" Template=\"No\" Version=\"5\">\n");
    push_str(&mut s, "  <Content>\n");
    let ghost head = s@;
    let mut i: usize = 0;
    while i < doc.blocks.len()
        invariant
            i <= doc.blocks@.len(),
            s@ == head + fdx_blocks(doc.blocks@.take(i as int)),
        decreases doc.blocks@.len() - i,
    {
        proof {
            assert(doc.blocks@.take(i + 1).drop_last() =~= doc.blocks@.take(i as int));
        }
        fdx_of_block(&mut s, &doc.blocks[i]);
        proof {
            assert(s@ =~= head + fdx_blocks(doc.blocks@.take(i + 1)));
        }
        i = i + 1;
    }
    proof {
        assert(doc.blocks@.take(i as int) =~= doc.blocks@);
    }
    push_str(&mut s, "  </Content>\n");
    push_str(&mut s, "  <TitlePage>\n    <Content>\n");
    let ghost tp = s@;
    let title = chars_of(doc.meta.title.as_str());
    let title = trim_chars(title.as_slice());
    let title = to_upper(title.as_slice());
    push_title_line(&mut s, title.as_slice(), "Center");
    let a = chars_of(doc.meta.author.as_str());
    let a = trim_chars(a.as_slice());
    if a.len() > 0 {
        let wb = chars_of("written by");
        push_title_line(&mut s, wb.as_slice(), "Center");
        push_title_line(&mut s, a.as_slice(), "Center");
    }
    let d = chars_of(doc.meta.draft.as_str());
    let d = trim_chars(d.as_slice());
    if d.len() > 0 {
        push_title_line(&mut s, d.as_slice(), "Center");
    }
    let c = chars_of(doc.meta.contact.as_str());
    let c = trim_chars(c.as_slice());
    if c.len() > 0 {
        push_title_line(&mut s, c.as_slice(), "Left");
    }
    proof {
        assert(s@ =~= tp + fdx_title_page(doc.meta));
    }
    push_str(&mut s, "    </Content>\n  </TitlePage>\n");
    push_str(&mut s, "</FinalDraft>\n");
    proof {
        assert(s@ =~= fdx_of(doc.meta, doc.blocks@));
    }
    string_of(s.as_slice())
}

// ------------------------------------------------------------------ pdf --

/// An ink colour for the page, as 0-255 RGB.
pub type Ink = [u8; 3];

/// What goes into a PDF, beyond the script itself.
#[derive(Clone, Debug)]
pub struct PdfOptions {
    pub title_page: bool,
    pub scene_numbers: bool,
    /// Which body pages, by the numbers printed on them (1-based). `None` is
    /// every page.
    pub pages: Option<Vec<usize>>,
    /// Each speaker's ink, by name; their cue and every line they say is
    /// printed in it. `None` prints everything black. The first entry for a
    /// name is the one used.
    pub voices: Option<Vec<(String, Ink)>>,
}

impl Default for PdfOptions {
    fn default() -> (r: PdfOptions)
        ensures
            r.title_page,
            !r.scene_numbers,
            r.pages is None,
            r.voices is None,
    {
        PdfOptions { title_page: true, scene_numbers: false, pages: None, voices: None }
    }
}

/// One printed body page: the number printed on it, and each of its lines
/// with the ink it is set in (`None` is black).
pub struct PlannedPage {
    pub number: usize,
    pub lines: Vec<(Line, Option<Ink>)>,
}

pub ghost struct PlannedV {
    pub number: usize,
    pub lines: Seq<(LineV, Option<Ink>)>,
}

impl View for PlannedPage {
    type V = PlannedV;

    open spec fn view(&self) -> PlannedV {
        PlannedV {
            number: self.number,
            lines: self.lines@.map_values(|p: (Line, Option<Ink>)| (p.0@, p.1)),
        }
    }
}

/// Who is speaking after line `l`: a cue names the speaker, its
/// parentheticals, dialogue and spacing carry them, anything else ends it.
pub open spec fn who_next(who: Option<Seq<char>>, l: LineV) -> Option<Seq<char>> {
    match l.element {
        Some(Element::Character) => if cue_name(l.text).len() > 0 {
            Some(cue_name(l.text))
        } else {
            who
        },
        Some(Element::Dialogue) => who,
        Some(Element::Parenthetical) => who,
        None => who,
        _ => None,
    }
}

/// The first ink given for `name`.
pub open spec fn voice_lookup(v: Seq<(Seq<char>, Ink)>, name: Seq<char>) -> Option<Ink>
    decreases v.len(),
{
    if v.len() == 0 {
        None
    } else if v[0].0 == name {
        Some(v[0].1)
    } else {
        voice_lookup(v.drop_first(), name)
    }
}

/// The ink a line is printed in: its speaker's, if it is a printed line
/// and its speaker has one.
pub open spec fn ink_for(voices: Option<Seq<(Seq<char>, Ink)>>, who: Option<Seq<char>>, l: LineV) -> Option<Ink> {
    match voices {
        Some(v) => match who {
            Some(n) => if l.element is Some {
                voice_lookup(v, n)
            } else {
                None
            },
            None => None,
        },
        None => None,
    }
}

/// The first `n` lines of a page with their inks, and who is speaking after.
pub open spec fn plan_lines(
    voices: Option<Seq<(Seq<char>, Ink)>>,
    who: Option<Seq<char>>,
    p: Seq<LineV>,
    n: nat,
) -> (Seq<(LineV, Option<Ink>)>, Option<Seq<char>>)
    decreases n,
{
    if n == 0 || n > p.len() {
        (seq![], who)
    } else {
        let (ls, w) = plan_lines(voices, who, p, (n - 1) as nat);
        let w2 = who_next(w, p[n - 1]);
        (ls.push((p[n - 1], ink_for(voices, w2, p[n - 1]))), w2)
    }
}

/// Whether page `number` was asked for.
pub open spec fn page_wanted(pages: Option<Seq<usize>>, number: usize) -> bool {
    match pages {
        Some(w) => w.contains(number),
        None => true,
    }
}

/// The planned pages among the first `n`, and who is speaking after them.
pub open spec fn plan_pages(
    voices: Option<Seq<(Seq<char>, Ink)>>,
    wanted: Option<Seq<usize>>,
    pages: Seq<Seq<LineV>>,
    n: nat,
) -> (Seq<PlannedV>, Option<Seq<char>>)
    decreases n,
{
    if n == 0 || n > pages.len() {
        (seq![], None)
    } else {
        let (done, who) = plan_pages(voices, wanted, pages, (n - 1) as nat);
        let p = pages[n - 1];
        let (ls, w2) = plan_lines(voices, who, p, p.len());
        if page_wanted(wanted, n as usize) {
            (done.push(PlannedV { number: n as usize, lines: ls }), w2)
        } else {
            (done, w2)
        }
    }
}

pub open spec fn voices_view(o: PdfOptions) -> Option<Seq<(Seq<char>, Ink)>> {
    match o.voices {
        Some(v) => Some(v@.map_values(|p: (String, Ink)| (p.0@, p.1))),
        None => None,
    }
}

pub open spec fn pages_view(o: PdfOptions) -> Option<Seq<usize>> {
    match o.pages {
        Some(v) => Some(v@),
        None => None,
    }
}

pub open spec fn pdf_plan_of(bs: Seq<Block>, o: PdfOptions) -> Seq<PlannedV> {
    let pages = pages_of(bs);
    plan_pages(voices_view(o), pages_view(o), pages, pages.len()).0
}

proof fn lemma_plan_lines(
    voices: Option<Seq<(Seq<char>, Ink)>>,
    who: Option<Seq<char>>,
    p: Seq<LineV>,
    n: nat,
)
    requires
        n <= p.len(),
    ensures
        plan_lines(voices, who, p, n).0.len() == n,
        forall|j: int| 0 <= j < n ==> (#[trigger] plan_lines(voices, who, p, n).0[j]).0 == p[j],
    decreases n,
{
    if n > 0 {
        lemma_plan_lines(voices, who, p, (n - 1) as nat);
        let prev = plan_lines(voices, who, p, (n - 1) as nat).0;
        let now = plan_lines(voices, who, p, n).0;
        assert forall|j: int| 0 <= j < n implies (#[trigger] now[j]).0 == p[j] by {
            if j < n - 1 {
                assert(now[j] == prev[j]);
            }
        }
    }
}

proof fn lemma_plan_lines_at(
    voices: Option<Seq<(Seq<char>, Ink)>>,
    who: Option<Seq<char>>,
    p: Seq<LineV>,
    n: nat,
)
    requires
        n <= p.len(),
    ensures
        forall|j: int|
            0 <= j < n ==> #[trigger] plan_lines(voices, who, p, n).0[j] == (
                p[j],
                ink_for(voices, plan_lines(voices, who, p, (j + 1) as nat).1, p[j]),
            ),
        forall|j: int|
            0 <= j < n ==> #[trigger] plan_lines(voices, who, p, (j + 1) as nat).1 == who_next(
                plan_lines(voices, who, p, j as nat).1,
                p[j],
            ),
    decreases n,
{
    if n > 0 {
        lemma_plan_lines_at(voices, who, p, (n - 1) as nat);
        lemma_plan_lines(voices, who, p, n);
        lemma_plan_lines(voices, who, p, (n - 1) as nat);
        let prev = plan_lines(voices, who, p, (n - 1) as nat).0;
        let now = plan_lines(voices, who, p, n).0;
        assert forall|j: int| 0 <= j < n implies #[trigger] plan_lines(voices, who, p, n).0[j] == (
            p[j],
            ink_for(voices, plan_lines(voices, who, p, (j + 1) as nat).1, p[j]),
        ) by {
            if j < n - 1 {
                assert(now[j] == prev[j]);
            }
        }
    }
}

/// A line a speaker says, or a direction in their speech, is printed in the
/// same ink as the line above it when that line is their cue or more of
/// their speech: a speaker's colour runs from the cue through all they say.
pub open spec fn ink_carries(ls: Seq<(LineV, Option<Ink>)>) -> bool {
    forall|j: int|
        0 < j < ls.len() && (ls[j].0.element == Some(Element::Dialogue) || ls[j].0.element == Some(
            Element::Parenthetical,
        )) && (ls[j - 1].0.element == Some(Element::Character) || ls[j - 1].0.element == Some(
            Element::Dialogue,
        ) || ls[j - 1].0.element == Some(Element::Parenthetical)) ==> (#[trigger] ls[j]).1 == ls[j
            - 1].1
}

proof fn lemma_plan_lines_carry(
    voices: Option<Seq<(Seq<char>, Ink)>>,
    who: Option<Seq<char>>,
    p: Seq<LineV>,
)
    ensures
        ink_carries(plan_lines(voices, who, p, p.len()).0),
{
    lemma_plan_lines_at(voices, who, p, p.len());
    lemma_plan_lines(voices, who, p, p.len());
    let ls = plan_lines(voices, who, p, p.len()).0;
    assert forall|j: int|
        0 < j < ls.len() && (ls[j].0.element == Some(Element::Dialogue) || ls[j].0.element == Some(
            Element::Parenthetical,
        )) && (ls[j - 1].0.element == Some(Element::Character) || ls[j - 1].0.element == Some(
            Element::Dialogue,
        ) || ls[j - 1].0.element == Some(Element::Parenthetical)) implies (#[trigger] ls[j]).1
        == ls[j - 1].1 by {
        assert(ls[j] == (p[j], ink_for(voices, plan_lines(voices, who, p, (j + 1) as nat).1, p[j])));
        assert(ls[j - 1] == (p[j - 1], ink_for(voices, plan_lines(voices, who, p, j as nat).1, p[j - 1])));
        assert(plan_lines(voices, who, p, (j + 1) as nat).1 == who_next(
            plan_lines(voices, who, p, j as nat).1,
            p[j],
        ));
    }
}

proof fn lemma_plan_pages_carry(
    voices: Option<Seq<(Seq<char>, Ink)>>,
    wanted: Option<Seq<usize>>,
    pages: Seq<Seq<LineV>>,
    n: nat,
)
    ensures
        forall|k: int|
            0 <= k < plan_pages(voices, wanted, pages, n).0.len() ==> ink_carries(
                (#[trigger] plan_pages(voices, wanted, pages, n).0[k]).lines,
            ),
    decreases n,
{
    if n > 0 && n <= pages.len() {
        lemma_plan_pages_carry(voices, wanted, pages, (n - 1) as nat);
        let (done, who) = plan_pages(voices, wanted, pages, (n - 1) as nat);
        let p = pages[n - 1];
        lemma_plan_lines_carry(voices, who, p);
        let all = plan_pages(voices, wanted, pages, n).0;
        assert forall|k: int| 0 <= k < all.len() implies ink_carries((#[trigger] all[k]).lines) by {
            if k < done.len() {
                assert(all[k] == done[k]);
            }
        }
    }
}

/// The first ink given for a name is the one used, and a name given none
/// has none.
pub proof fn law_first_voice_wins(v: Seq<(Seq<char>, Ink)>, name: Seq<char>, k: int)
    requires
        0 <= k < v.len(),
        v[k].0 == name,
        forall|j: int| 0 <= j < k ==> (#[trigger] v[j]).0 != name,
    ensures
        voice_lookup(v, name) == Some(v[k].1),
    decreases k,
{
    if k > 0 {
        let r = v.drop_first();
        assert forall|j: int| 0 <= j < k - 1 implies (#[trigger] r[j]).0 != name by {
            assert(r[j] == v[j + 1]);
        }
        assert(v[0].0 != name);
        law_first_voice_wins(r, name, k - 1);
    }
}

/// A name the voices do not give has no ink.
pub proof fn law_unvoiced_names_print_black(v: Seq<(Seq<char>, Ink)>, name: Seq<char>)
    requires
        forall|j: int| 0 <= j < v.len() ==> (#[trigger] v[j]).0 != name,
    ensures
        voice_lookup(v, name) is None,
    decreases v.len(),
{
    if v.len() > 0 {
        let r = v.drop_first();
        assert forall|j: int| 0 <= j < r.len() implies (#[trigger] r[j]).0 != name by {
            assert(r[j] == v[j + 1]);
        }
        assert(v[0].0 != name);
        law_unvoiced_names_print_black(r, name);
    }
}

/// A cue is printed in its speaker's ink: a character line naming someone
/// is inked with the ink the voices give that name.
pub open spec fn cues_inked(voices: Option<Seq<(Seq<char>, Ink)>>, ls: Seq<(LineV, Option<Ink>)>) -> bool {
    forall|j: int|
        0 <= j < ls.len() && ls[j].0.element == Some(Element::Character) && cue_name(ls[j].0.text).len()
            > 0 ==> (#[trigger] ls[j]).1 == match voices {
            Some(v) => voice_lookup(v, cue_name(ls[j].0.text)),
            None => None,
        }
}

proof fn lemma_plan_lines_cues(
    voices: Option<Seq<(Seq<char>, Ink)>>,
    who: Option<Seq<char>>,
    p: Seq<LineV>,
)
    ensures
        cues_inked(voices, plan_lines(voices, who, p, p.len()).0),
{
    lemma_plan_lines_at(voices, who, p, p.len());
    lemma_plan_lines(voices, who, p, p.len());
    let ls = plan_lines(voices, who, p, p.len()).0;
    assert forall|j: int|
        0 <= j < ls.len() && ls[j].0.element == Some(Element::Character) && cue_name(ls[j].0.text).len()
            > 0 implies (#[trigger] ls[j]).1 == match voices {
        Some(v) => voice_lookup(v, cue_name(ls[j].0.text)),
        None => None,
    } by {
        assert(ls[j] == (p[j], ink_for(voices, plan_lines(voices, who, p, (j + 1) as nat).1, p[j])));
        assert(plan_lines(voices, who, p, (j + 1) as nat).1 == who_next(
            plan_lines(voices, who, p, j as nat).1,
            p[j],
        ));
    }
}

proof fn lemma_plan_pages_cues(
    voices: Option<Seq<(Seq<char>, Ink)>>,
    wanted: Option<Seq<usize>>,
    pages: Seq<Seq<LineV>>,
    n: nat,
)
    ensures
        forall|k: int|
            0 <= k < plan_pages(voices, wanted, pages, n).0.len() ==> cues_inked(
                voices,
                (#[trigger] plan_pages(voices, wanted, pages, n).0[k]).lines,
            ),
    decreases n,
{
    if n > 0 && n <= pages.len() {
        lemma_plan_pages_cues(voices, wanted, pages, (n - 1) as nat);
        let (done, who) = plan_pages(voices, wanted, pages, (n - 1) as nat);
        let p = pages[n - 1];
        lemma_plan_lines_cues(voices, who, p);
        let all = plan_pages(voices, wanted, pages, n).0;
        assert forall|k: int| 0 <= k < all.len() implies cues_inked(voices, (#[trigger] all[k]).lines) by {
            if k < done.len() {
                assert(all[k] == done[k]);
            }
        }
    }
}

/// In the PDF every cue naming someone is printed in that speaker's ink.
pub proof fn law_cues_take_their_speakers_ink(bs: Seq<Block>, o: PdfOptions)
    ensures
        forall|k: int|
            0 <= k < pdf_plan_of(bs, o).len() ==> cues_inked(
                voices_view(o),
                (#[trigger] pdf_plan_of(bs, o)[k]).lines,
            ),
{
    let pages = pages_of(bs);
    lemma_plan_pages_cues(voices_view(o), pages_view(o), pages, pages.len());
}

/// In the PDF, a speaker's ink runs from their cue through every line of
/// their speech on the page: a dialogue or parenthetical line under the cue
/// or under more of the speech is printed as the line above it.
pub proof fn law_speech_keeps_its_ink(bs: Seq<Block>, o: PdfOptions)
    ensures
        forall|k: int|
            0 <= k < pdf_plan_of(bs, o).len() ==> ink_carries((#[trigger] pdf_plan_of(bs, o)[k]).lines),
{
    let pages = pages_of(bs);
    lemma_plan_pages_carry(voices_view(o), pages_view(o), pages, pages.len());
}

proof fn lemma_plan_every_page(
    voices: Option<Seq<(Seq<char>, Ink)>>,
    pages: Seq<Seq<LineV>>,
    n: nat,
)
    requires
        n <= pages.len(),
    ensures
        ({
            let plan = plan_pages(voices, None, pages, n).0;
            &&& plan.len() == n
            &&& forall|i: int|
                0 <= i < n ==> (#[trigger] plan[i]).number == (i + 1) as usize
                    && plan[i].lines.len() == pages[i].len() && forall|j: int|
                    0 <= j < pages[i].len() ==> plan[i].lines[j].0 == pages[i][j]
        }),
    decreases n,
{
    if n > 0 {
        lemma_plan_every_page(voices, pages, (n - 1) as nat);
        let (done, who) = plan_pages(voices, None, pages, (n - 1) as nat);
        let p = pages[n - 1];
        lemma_plan_lines(voices, who, p, p.len());
        let plan = plan_pages(voices, None, pages, n).0;
        assert forall|i: int| 0 <= i < n implies (#[trigger] plan[i]).number == (i + 1) as usize
            && plan[i].lines.len() == pages[i].len() && forall|j: int|
            0 <= j < pages[i].len() ==> plan[i].lines[j].0 == pages[i][j] by {
            if i < n - 1 {
                assert(plan[i] == done[i]);
            }
        }
    }
}

/// The page count is the PDF's: with no pages picked out, the plan has one
/// page for every printed page, numbered from 1, each carrying that page's
/// lines in order.
pub proof fn law_plan_is_every_page(bs: Seq<Block>, o: PdfOptions)
    requires
        o.pages is None,
    ensures
        pdf_plan_of(bs, o).len() == pages_of(bs).len(),
        forall|i: int|
            0 <= i < pdf_plan_of(bs, o).len() ==> (#[trigger] pdf_plan_of(bs, o)[i]).number == (i
                + 1) as usize && pdf_plan_of(bs, o)[i].lines.len() == pages_of(bs)[i].len()
                && forall|j: int|
                0 <= j < pages_of(bs)[i].len() ==> pdf_plan_of(bs, o)[i].lines[j].0 == pages_of(
                    bs,
                )[i][j],
{
    let pages = pages_of(bs);
    assert(pages_view(o) is None);
    lemma_plan_every_page(voices_view(o), pages, pages.len());
}

fn lookup_voice(v: &Vec<(String, Ink)>, name: &[char]) -> (r: Option<Ink>)
    ensures
        r == voice_lookup(v@.map_values(|p: (String, Ink)| (p.0@, p.1)), name@),
{
    let ghost vv = v@.map_values(|p: (String, Ink)| (p.0@, p.1));
    let mut k: usize = 0;
    proof {
        assert(vv.skip(0) =~= vv);
    }
    while k < v.len()
        invariant
            k <= v@.len(),
            vv == v@.map_values(|p: (String, Ink)| (p.0@, p.1)),
            voice_lookup(vv, name@) == voice_lookup(vv.skip(k as int), name@),
        decreases v@.len() - k,
    {
        proof {
            assert(vv.skip(k as int)[0] == (v@[k as int].0@, v@[k as int].1));
            assert(vv.skip(k as int).drop_first() =~= vv.skip(k + 1));
        }
        let n = chars_of(v[k].0.as_str());
        if crate::text::same(n.as_slice(), name) {
            return Some(v[k].1);
        }
        k = k + 1;
    }
    proof {
        assert(vv.skip(k as int).len() == 0);
    }
    None
}

fn contains_page(w: &Vec<usize>, n: usize) -> (r: bool)
    ensures
        r == w@.contains(n),
{
    let mut k: usize = 0;
    while k < w.len()
        invariant
            k <= w@.len(),
            forall|j: int| 0 <= j < k ==> w@[j] != n,
        decreases w@.len() - k,
    {
        if w[k] == n {
            return true;
        }
        k = k + 1;
    }
    false
}

/// Lay the body out, decide who is speaking on every line — across page
/// breaks, so a speech that runs over keeps its colour — and keep only the
/// pages asked for. Page numbers stay the ones the full script has, the way a
/// production prints revised or selected pages.
// ---------------------------------------------------------- the sheets --

/// Where a title-page line sits across the text column.
#[derive(Clone, Copy, PartialEq, Eq, Debug, Structural)]
pub enum Place {
    /// Centred in the column.
    Centre,
    /// Flush with the column's left edge.
    Left,
}

/// A line of the title page: the row it is set on (from the top margin), its
/// text, where it sits and whether it is bold.
pub struct SheetLine {
    pub row: usize,
    pub text: String,
    pub place: Place,
    pub bold: bool,
}

pub open spec fn sheet_line_view(l: SheetLine) -> (usize, Seq<char>, Place, bool) {
    (l.row, l.text@, l.place, l.bold)
}

/// The script's title as the PDF carries it: trimmed, `Untitled Script`
/// where there is none.
pub open spec fn title_of(m: MetaV) -> Seq<char> {
    if trim(m.title).len() == 0 {
        "Untitled Script"@
    } else {
        trim(m.title)
    }
}

/// The title page: the title in capitals, bold, on row 20; `written by` and
/// the author on rows 24 and 26; the draft on row 44; all centred; the
/// contact flush left on row 48. A detail left blank is left out.
pub open spec fn title_sheet(m: MetaV) -> Seq<(usize, Seq<char>, Place, bool)> {
    seq![(20usize, upper(title_of(m)), Place::Centre, true)] + (if trim(m.author).len() > 0 {
        seq![
            (24usize, "written by"@, Place::Centre, false),
            (26usize, trim(m.author), Place::Centre, false),
        ]
    } else {
        seq![]
    }) + (if trim(m.draft).len() > 0 {
        seq![(44usize, trim(m.draft), Place::Centre, false)]
    } else {
        seq![]
    }) + (if trim(m.contact).len() > 0 {
        seq![(48usize, trim(m.contact), Place::Left, false)]
    } else {
        seq![]
    })
}

/// The script's title as the PDF carries it.
pub fn pdf_title(meta: &Meta) -> (r: String)
    ensures
        r@ == title_of(meta@),
{
    let raw = chars_of(meta.title.as_str());
    let t = trim_chars(raw.as_slice());
    if t.len() == 0 {
        "Untitled Script".to_owned()
    } else {
        string_of(t.as_slice())
    }
}

fn sheet_push(out: &mut Vec<SheetLine>, row: usize, text: String, place: Place, bold: bool)
    ensures
        final(out)@.map_values(|l: SheetLine| sheet_line_view(l)) == old(out)@.map_values(
            |l: SheetLine| sheet_line_view(l),
        ).push((row, text@, place, bold)),
{
    let ghost before = out@;
    let l = SheetLine { row, text, place, bold };
    out.push(l);
    proof {
        assert(out@ =~= before.push(l));
        assert(out@.map_values(|l: SheetLine| sheet_line_view(l)) =~= before.map_values(
            |l: SheetLine| sheet_line_view(l),
        ).push(sheet_line_view(l)));
    }
}

/// The title page's lines, in order.
pub fn title_page(meta: &Meta) -> (r: Vec<SheetLine>)
    ensures
        r@.map_values(|l: SheetLine| sheet_line_view(l)) == title_sheet(meta@),
{
    let mut out: Vec<SheetLine> = Vec::new();
    let title = pdf_title(meta);
    let caps = to_upper(chars_of(title.as_str()).as_slice());
    proof {
        assert(out@.map_values(|l: SheetLine| sheet_line_view(l)) =~= Seq::<
            (usize, Seq<char>, Place, bool),
        >::empty());
    }
    sheet_push(&mut out, 20, string_of(caps.as_slice()), Place::Centre, true);
    let ghost head = out@.map_values(|l: SheetLine| sheet_line_view(l));
    let a = chars_of(meta.author.as_str());
    let a = trim_chars(a.as_slice());
    if a.len() > 0 {
        sheet_push(&mut out, 24, "written by".to_owned(), Place::Centre, false);
        sheet_push(&mut out, 26, string_of(a.as_slice()), Place::Centre, false);
    }
    let ghost mid = out@.map_values(|l: SheetLine| sheet_line_view(l));
    let d = chars_of(meta.draft.as_str());
    let d = trim_chars(d.as_slice());
    if d.len() > 0 {
        sheet_push(&mut out, 44, string_of(d.as_slice()), Place::Centre, false);
    }
    let ghost mid2 = out@.map_values(|l: SheetLine| sheet_line_view(l));
    let c = chars_of(meta.contact.as_str());
    let c = trim_chars(c.as_slice());
    if c.len() > 0 {
        sheet_push(&mut out, 48, string_of(c.as_slice()), Place::Left, false);
    }
    proof {
        let m = meta@;
        let pa: Seq<(usize, Seq<char>, Place, bool)> = if trim(m.author).len() > 0 {
            seq![
                (24usize, "written by"@, Place::Centre, false),
                (26usize, trim(m.author), Place::Centre, false),
            ]
        } else {
            seq![]
        };
        let pd: Seq<(usize, Seq<char>, Place, bool)> = if trim(m.draft).len() > 0 {
            seq![(44usize, trim(m.draft), Place::Centre, false)]
        } else {
            seq![]
        };
        let pc: Seq<(usize, Seq<char>, Place, bool)> = if trim(m.contact).len() > 0 {
            seq![(48usize, trim(m.contact), Place::Left, false)]
        } else {
            seq![]
        };
        assert(mid =~= head + pa);
        assert(mid2 =~= head + pa + pd);
        assert(out@.map_values(|l: SheetLine| sheet_line_view(l)) =~= head + pa + pd + pc);
    }
    out
}

/// The number printed at the head of body page `n`: none on the first, `n.`
/// on the others.
pub open spec fn page_label_of(n: usize) -> Option<Seq<char>> {
    if n <= 1 {
        None
    } else {
        Some(dec(n as nat) + "."@)
    }
}

/// The number printed at the head of body page `n`, if any.
pub fn page_label(n: usize) -> (r: Option<String>)
    ensures
        r matches Some(s) ==> page_label_of(n) == Some(s@),
        r is None ==> page_label_of(n) is None,
{
    if n <= 1 {
        None
    } else {
        let mut v: Vec<char> = Vec::new();
        push_decimal(&mut v, n);
        v.push('.');
        proof {
            reveal_strlit(".");
            assert(v@ =~= dec(n as nat) + "."@);
        }
        Some(string_of(v.as_slice()))
    }
}

/// The pages a PDF is drawn from, or why there is nothing to draw: no body
/// page chosen and no title page.
pub fn pdf_pages(doc: &Document, opts: &PdfOptions) -> (r: Result<Vec<PlannedPage>, String>)
    ensures
        match r {
            Ok(p) => p@.map_values(|q: PlannedPage| q@) == pdf_plan_of(doc.blocks@, *opts) && (
            p@.len() > 0 || opts.title_page),
            Err(m) => pdf_plan_of(doc.blocks@, *opts).len() == 0 && !opts.title_page && m@
                == "Nothing to export: no pages chosen"@,
        },
{
    let plan = pdf_plan(doc, opts);
    if plan.len() == 0 && !opts.title_page {
        return Err("Nothing to export: no pages chosen".to_owned());
    }
    Ok(plan)
}

pub fn pdf_plan(doc: &Document, opts: &PdfOptions) -> (r: Vec<PlannedPage>)
    ensures
        r@.map_values(|p: PlannedPage| p@) == pdf_plan_of(doc.blocks@, *opts),
{
    let lines = compose(doc);
    let pages = paginate(lines.as_slice());
    let ghost pv = pages@.map_values(|p: Vec<Line>| p@.map_values(|l: Line| l@));
    let ghost vs = voices_view(*opts);
    let ghost ws = pages_view(*opts);
    let mut who: Option<Vec<char>> = None;
    let mut out: Vec<PlannedPage> = Vec::new();
    let mut i: usize = 0;
    while i < pages.len()
        invariant
            i <= pages@.len(),
            pv == pages@.map_values(|p: Vec<Line>| p@.map_values(|l: Line| l@)),
            vs == voices_view(*opts),
            ws == pages_view(*opts),
            (out@.map_values(|p: PlannedPage| p@), match who {
                Some(w) => Some(w@),
                None => None::<Seq<char>>,
            }) == plan_pages(vs, ws, pv, i as nat),
        decreases pages@.len() - i,
    {
        let number = i + 1;
        let page = &pages[i];
        let ghost pl = page@.map_values(|l: Line| l@);
        let ghost who0 = plan_pages(vs, ws, pv, i as nat).1;
        proof {
            assert(pv[i as int] == pl);
        }
        let mut lines_out: Vec<(Line, Option<Ink>)> = Vec::new();
        let mut j: usize = 0;
        while j < page.len()
            invariant
                j <= page@.len(),
                pl == page@.map_values(|l: Line| l@),
                vs == voices_view(*opts),
                (lines_out@.map_values(|p: (Line, Option<Ink>)| (p.0@, p.1)), match who {
                    Some(w) => Some(w@),
                    None => None::<Seq<char>>,
                }) == plan_lines(vs, who0, pl, j as nat),
            decreases page@.len() - j,
        {
            let line = &page[j];
            proof {
                assert(pl[j as int] == line@);
            }
            match line.element {
                Some(Element::Character) => {
                    let t = chars_of(line.text.as_str());
                    let n = cue_name_of(t.as_slice());
                    if n.len() > 0 {
                        who = Some(n);
                    }
                },
                Some(Element::Dialogue) | Some(Element::Parenthetical) | None => {},
                _ => {
                    who = None;
                },
            }
            let ink = match &opts.voices {
                Some(v) => match &who {
                    Some(n) => if line.element.is_some() {
                        lookup_voice(v, n.as_slice())
                    } else {
                        None
                    },
                    None => None,
                },
                None => None,
            };
            let ghost before = lines_out@.map_values(|p: (Line, Option<Ink>)| (p.0@, p.1));
            let c = line.clone();
            lines_out.push((c, ink));
            proof {
                assert(lines_out@.map_values(|p: (Line, Option<Ink>)| (p.0@, p.1)) =~= before.push(
                    (line@, ink),
                ));
            }
            j = j + 1;
        }
        let wanted = match &opts.pages {
            Some(w) => contains_page(w, number),
            None => true,
        };
        if wanted {
            let ghost before = out@.map_values(|p: PlannedPage| p@);
            let pp = PlannedPage { number, lines: lines_out };
            let ghost ppv = pp@;
            out.push(pp);
            proof {
                assert(out@.map_values(|p: PlannedPage| p@) =~= before.push(ppv));
            }
        }
        i = i + 1;
    }
    out
}

// ---------------------------------------------------------- page ranges --

pub open spec fn is_range_sep(c: char) -> bool {
    c == ',' || c == ';' || c == ' '
}

/// `str::split` on `,`, `;` and space: the pieces finished so far and the
/// one being read.
pub open spec fn sep_state(s: Seq<char>) -> (Seq<Seq<char>>, Seq<char>)
    decreases s.len(),
{
    if s.len() == 0 {
        (seq![], seq![])
    } else {
        let (done, cur) = sep_state(s.drop_last());
        if is_range_sep(s.last()) {
            (done.push(cur), seq![])
        } else {
            (done, cur.push(s.last()))
        }
    }
}

/// Every piece between separators, empty ones included.
pub open spec fn pieces(s: Seq<char>) -> Seq<Seq<char>> {
    sep_state(s).0.push(sep_state(s).1)
}

/// Where a range's dash is: the first `-` or en dash.
pub open spec fn dash_at(p: Seq<char>) -> Option<int>
    decreases p.len(),
{
    if p.len() == 0 {
        None
    } else if p[0] == '-' || p[0] == '\u{2013}' {
        Some(0)
    } else {
        match dash_at(p.drop_first()) {
            Some(k) => Some(k + 1),
            None => None,
        }
    }
}

proof fn lemma_dash_at(p: Seq<char>)
    ensures
        dash_at(p) matches Some(k) ==> 0 <= k < p.len() && (p[k] == '-' || p[k] == '\u{2013}')
            && forall|j: int| 0 <= j < k ==> p[j] != '-' && p[j] != '\u{2013}',
        dash_at(p) is None ==> forall|j: int| 0 <= j < p.len() ==> p[j] != '-' && p[j] != '\u{2013}',
    decreases p.len(),
{
    if p.len() > 0 && !(p[0] == '-' || p[0] == '\u{2013}') {
        lemma_dash_at(p.drop_first());
        assert forall|j: int| 0 < j < p.len() implies p[j] == p.drop_first()[j - 1] by {}
    }
}

pub open spec fn not_a_number(s: Seq<char>) -> Seq<char> {
    "\u{201c}"@ + s + "\u{201d} is not a page number"@
}

/// A page number, read after trimming.
pub open spec fn page_num(s: Seq<char>) -> Result<nat, Seq<char>> {
    match parse_usize_spec(trim(s)) {
        Some(n) => Ok(n as nat),
        None => Err(not_a_number(s)),
    }
}

pub open spec fn only_pages(max: nat) -> Seq<char> {
    "There "@ + (if max == 1 {
        "is"@
    } else {
        "are"@
    }) + " only "@ + dec(max) + " page"@ + (if max == 1 {
        seq![]
    } else {
        "s"@
    })
}

/// One piece of a page selection: a page, `a-b`, `a-` or `-b`, checked.
pub open spec fn part_range(p: Seq<char>, max: nat) -> Result<(nat, nat), Seq<char>> {
    let lohi: Result<(nat, nat), Seq<char>> = match dash_at(p) {
        Some(k) => {
            let a = p.take(k);
            let b = p.skip(k + 1);
            let lo = if trim(a).len() == 0 {
                Ok(1nat)
            } else {
                page_num(a)
            };
            match lo {
                Err(e) => Err(e),
                Ok(lo) => {
                    let hi = if trim(b).len() == 0 {
                        Ok(max)
                    } else {
                        page_num(b)
                    };
                    match hi {
                        Err(e) => Err(e),
                        Ok(hi) => Ok((lo, hi)),
                    }
                },
            }
        },
        None => match page_num(p) {
            Ok(n) => Ok((n, n)),
            Err(e) => Err(e),
        },
    };
    match lohi {
        Err(e) => Err(e),
        Ok((lo, hi)) => if lo == 0 || hi == 0 {
            Err("Pages start at 1"@)
        } else if lo > hi {
            Err(dec(lo) + "-"@ + dec(hi) + " runs backwards"@)
        } else if lo > max {
            Err(only_pages(max))
        } else {
            Ok((lo, hi))
        },
    }
}

/// The pages named by the first `n` pieces, or the first complaint.
pub open spec fn range_fold(ps: Seq<Seq<char>>, n: nat, max: usize) -> Result<Set<usize>, Seq<char>>
    decreases n,
{
    if n == 0 || n > ps.len() {
        Ok(Set::empty())
    } else {
        match range_fold(ps, (n - 1) as nat, max) {
            Err(e) => Err(e),
            Ok(got) => {
                let p = trim(ps[n - 1]);
                if p.len() == 0 {
                    Ok(got)
                } else {
                    match part_range(p, max as nat) {
                        Err(e) => Err(e),
                        Ok((lo, hi)) => Ok(
                            got.union(Set::new(|x: usize| lo <= x && x <= hi && x <= max)),
                        ),
                    }
                }
            },
        }
    }
}

/// The pages a selection names, or why it names none.
pub open spec fn selected_pages(text: Seq<char>, max: usize) -> Result<Set<usize>, Seq<char>> {
    let t = trim(text);
    if t.len() == 0 {
        Err("Name at least one page"@)
    } else {
        range_fold(pieces(t), pieces(t).len(), max)
    }
}

proof fn lemma_range_fold_bounds(ps: Seq<Seq<char>>, n: nat, max: usize)
    ensures
        range_fold(ps, n, max) matches Ok(set) ==> forall|x: usize|
            #[trigger] set.contains(x) ==> 1 <= x && x <= max,
    decreases n,
{
    if n > 0 && n <= ps.len() {
        lemma_range_fold_bounds(ps, (n - 1) as nat, max);
    }
}

/// A page selection names only pages there are: every page it gives is
/// between 1 and the last.
pub proof fn law_selected_pages_exist(text: Seq<char>, max: usize)
    ensures
        selected_pages(text, max) matches Ok(set) ==> forall|x: usize|
            #[trigger] set.contains(x) ==> 1 <= x && x <= max,
{
    let t = trim(text);
    if t.len() > 0 {
        lemma_range_fold_bounds(pieces(t), pieces(t).len(), max);
    }
}

pub open spec fn increasing(v: Seq<usize>) -> bool {
    forall|i: int, j: int| 0 <= i < j < v.len() ==> v[i] < v[j]
}

proof fn lemma_range_fold_err(ps: Seq<Seq<char>>, n: nat, m: nat, max: usize)
    requires
        n <= m <= ps.len(),
        range_fold(ps, n, max) is Err,
    ensures
        range_fold(ps, m, max) == range_fold(ps, n, max),
    decreases m - n,
{
    if n < m {
        lemma_range_fold_err(ps, n, (m - 1) as nat, max);
    }
}

/// Put `x` into a sorted list without repeats, keeping it so.
fn insert_sorted(v: &mut Vec<usize>, x: usize)
    requires
        increasing(old(v)@),
    ensures
        increasing(final(v)@),
        final(v)@.to_set() == old(v)@.to_set().insert(x),
{
    let mut i: usize = 0;
    while i < v.len() && v[i] < x
        invariant
            i <= v@.len(),
            forall|j: int| 0 <= j < i ==> v@[j] < x,
        decreases v@.len() - i,
    {
        i = i + 1;
    }
    if i < v.len() && v[i] == x {
        proof {
            assert(v@.to_set().insert(x) =~= v@.to_set()) by {
                assert(v@.to_set().contains(x)) by {
                    assert(v@[i as int] == x);
                }
            }
        }
        return;
    }
    let ghost before = v@;
    v.insert(i, x);
    proof {
        assert(v@ == before.insert(i as int, x));
        assert forall|a: int, b: int| 0 <= a < b < v@.len() implies v@[a] < v@[b] by {
            if b < i {
                assert(v@[a] == before[a] && v@[b] == before[b]);
            } else if b == i {
                assert(v@[a] == before[a]);
            } else if a < i {
                assert(v@[a] == before[a] && v@[b] == before[b - 1]);
            } else if a == i {
                assert(v@[b] == before[b - 1]);
                assert(before[i as int] >= x);
                if b - 1 > i {
                    assert(before[i as int] < before[b - 1]);
                }
            } else {
                assert(v@[a] == before[a - 1] && v@[b] == before[b - 1]);
            }
        }
        assert forall|y: usize| v@.to_set().contains(y) == before.to_set().insert(x).contains(y) by {
            if v@.to_set().contains(y) {
                let k = choose|k: int| 0 <= k < v@.len() && v@[k] == y;
                if k < i {
                    assert(before[k] == y);
                } else if k > i {
                    assert(before[k - 1] == y);
                }
            }
            if before.to_set().contains(y) {
                let k = choose|k: int| 0 <= k < before.len() && before[k] == y;
                if k < i {
                    assert(v@[k] == y);
                } else {
                    assert(v@[k + 1] == y);
                }
            }
            if y == x {
                assert(v@[i as int] == x);
            }
        }
        assert(v@.to_set() =~= before.to_set().insert(x));
    }
}

/// `“s” is not a page number`.
fn not_a_number_msg(s: &[char]) -> (r: Vec<char>)
    ensures
        r@ == not_a_number(s@),
{
    let mut m: Vec<char> = Vec::new();
    push_str(&mut m, "\u{201c}");
    push_all(&mut m, s);
    push_str(&mut m, "\u{201d} is not a page number");
    m
}

fn page_num_of(s: &[char]) -> (r: Result<usize, Vec<char>>)
    ensures
        match r {
            Ok(n) => page_num(s@) == Ok::<nat, Seq<char>>(n as nat),
            Err(m) => page_num(s@) == Err::<nat, Seq<char>>(m@),
        },
{
    let t = trim_chars(s);
    match parse_usize(t.as_slice()) {
        Some(n) => Ok(n),
        None => Err(not_a_number_msg(s)),
    }
}

fn find_dash(p: &[char]) -> (r: Option<usize>)
    ensures
        r matches Some(k) ==> dash_at(p@) == Some(k as int),
        r is None ==> dash_at(p@) is None,
{
    let mut i: usize = 0;
    proof {
        assert(p@.skip(0) =~= p@);
    }
    while i < p.len()
        invariant
            i <= p@.len(),
            dash_at(p@) == match dash_at(p@.skip(i as int)) {
                Some(k) => Some(k + i),
                None => None::<int>,
            },
        decreases p@.len() - i,
    {
        proof {
            assert(p@.skip(i as int)[0] == p@[i as int]);
            assert(p@.skip(i as int).drop_first() =~= p@.skip(i + 1));
        }
        if p[i] == '-' || p[i] == '\u{2013}' {
            return Some(i);
        }
        i = i + 1;
    }
    proof {
        assert(p@.skip(i as int).len() == 0);
    }
    None
}

fn part_range_of(p: &[char], max: usize) -> (r: Result<(usize, usize), Vec<char>>)
    ensures
        match r {
            Ok((lo, hi)) => part_range(p@, max as nat) == Ok::<(nat, nat), Seq<char>>(
                (lo as nat, hi as nat),
            ),
            Err(m) => part_range(p@, max as nat) == Err::<(nat, nat), Seq<char>>(m@),
        },
{
    proof {
        lemma_dash_at(p@);
    }
    let plen = p.len();
    let (lo, hi) = match find_dash(p) {
        Some(k) => {
            let a = slice_of(p, 0, k);
            let b = slice_of(p, k + 1, plen);
            proof {
                assert(a@ =~= p@.take(k as int));
                assert(b@ =~= p@.skip(k + 1));
            }
            let ta = trim_chars(a.as_slice());
            let lo = if ta.len() == 0 {
                1
            } else {
                match page_num_of(a.as_slice()) {
                    Ok(n) => n,
                    Err(m) => {
                        return Err(m);
                    },
                }
            };
            let tb = trim_chars(b.as_slice());
            let hi = if tb.len() == 0 {
                max
            } else {
                match page_num_of(b.as_slice()) {
                    Ok(n) => n,
                    Err(m) => {
                        return Err(m);
                    },
                }
            };
            (lo, hi)
        },
        None => match page_num_of(p) {
            Ok(n) => (n, n),
            Err(m) => {
                return Err(m);
            },
        },
    };
    if lo == 0 || hi == 0 {
        let mut m: Vec<char> = Vec::new();
        push_str(&mut m, "Pages start at 1");
        return Err(m);
    }
    if lo > hi {
        let mut m: Vec<char> = Vec::new();
        push_decimal(&mut m, lo);
        push_str(&mut m, "-");
        push_decimal(&mut m, hi);
        push_str(&mut m, " runs backwards");
        return Err(m);
    }
    if lo > max {
        let mut m: Vec<char> = Vec::new();
        push_str(&mut m, "There ");
        if max == 1 {
            push_str(&mut m, "is");
        } else {
            push_str(&mut m, "are");
        }
        push_str(&mut m, " only ");
        push_decimal(&mut m, max);
        push_str(&mut m, " page");
        if max != 1 {
            push_str(&mut m, "s");
        }
        proof {
            assert(m@ =~= only_pages(max as nat));
        }
        return Err(m);
    }
    Ok((lo, hi))
}

/// Read a page selection the way a print dialog does: `1-3, 7, 10-` — single
/// pages, ranges, and an open range running to the end. `max` is the number
/// of body pages. The result is sorted and without repeats.
pub fn parse_page_range(text: &str, max: usize) -> (r: Result<Vec<usize>, String>)
    ensures
        match r {
            Ok(v) => selected_pages(text@, max) matches Ok(set) && increasing(v@) && v@.to_set()
                == set,
            Err(m) => selected_pages(text@, max) == Err::<Set<usize>, Seq<char>>(m@),
        },
{
    let raw = chars_of(text);
    let t = trim_chars(raw.as_slice());
    if t.len() == 0 {
        let mut m: Vec<char> = Vec::new();
        push_str(&mut m, "Name at least one page");
        return Err(string_of(m.as_slice()));
    }
    // the pieces between separators
    let mut ps: Vec<Vec<char>> = Vec::new();
    let mut cur: Vec<char> = Vec::new();
    let mut i: usize = 0;
    while i < t.len()
        invariant
            i <= t@.len(),
            (ps@.map_values(|w: Vec<char>| w@), cur@) == sep_state(t@.take(i as int)),
        decreases t@.len() - i,
    {
        proof {
            assert(t@.take(i + 1).drop_last() =~= t@.take(i as int));
            assert(t@.take(i + 1).last() == t@[i as int]);
        }
        let c = t[i];
        if c == ',' || c == ';' || c == ' ' {
            let ghost before = ps@.map_values(|w: Vec<char>| w@);
            let done = cur;
            cur = Vec::new();
            ps.push(done);
            proof {
                assert(ps@.map_values(|w: Vec<char>| w@) =~= before.push(done@));
                assert(cur@ =~= Seq::<char>::empty());
            }
        } else {
            cur.push(c);
        }
        i = i + 1;
    }
    proof {
        assert(t@.take(i as int) =~= t@);
    }
    let ghost before = ps@.map_values(|w: Vec<char>| w@);
    ps.push(cur);
    let ghost psv = ps@.map_values(|w: Vec<char>| w@);
    proof {
        assert(psv =~= before.push(sep_state(t@).1));
        assert(psv == pieces(t@));
        assert(selected_pages(text@, max) == range_fold(psv, psv.len(), max));
    }
    let mut out: Vec<usize> = Vec::new();
    let mut k: usize = 0;
    proof {
        assert(out@.to_set() =~= Set::<usize>::empty());
    }
    while k < ps.len()
        invariant
            k <= ps@.len(),
            psv == ps@.map_values(|w: Vec<char>| w@),
            selected_pages(text@, max) == range_fold(psv, psv.len(), max),
            increasing(out@),
            range_fold(psv, k as nat, max) == Ok::<Set<usize>, Seq<char>>(out@.to_set()),
        decreases ps@.len() - k,
    {
        proof {
            assert(psv[k as int] == ps@[k as int]@);
        }
        let p = trim_chars(ps[k].as_slice());
        if p.len() > 0 {
            match part_range_of(p.as_slice(), max) {
                Err(m) => {
                    proof {
                        assert(psv[k as int] == ps@[k as int]@);
                        assert(range_fold(psv, (k + 1) as nat, max) == Err::<Set<usize>, Seq<char>>(
                            m@,
                        ));
                        lemma_range_fold_err(psv, (k + 1) as nat, psv.len(), max);
                    }
                    return Err(string_of(m.as_slice()));
                },
                Ok((lo, hi)) => {
                    let top = if hi < max {
                        hi
                    } else {
                        max
                    };
                    let ghost s0 = out@.to_set();
                    let mut n = lo;
                    loop
                        invariant_except_break
                            lo <= n <= top,
                            out@.to_set() == s0.union(Set::new(|x: usize| lo <= x && x < n)),
                        invariant
                            increasing(out@),
                        ensures
                            increasing(out@),
                            out@.to_set() == s0.union(Set::new(|x: usize| lo <= x && x <= top)),
                        decreases top - n,
                    {
                        insert_sorted(&mut out, n);
                        proof {
                            assert(out@.to_set() =~= s0.union(Set::new(|x: usize| lo <= x && x < n + 1)));
                        }
                        if n == top {
                            proof {
                                assert(Set::new(|x: usize| lo <= x && x < n + 1) =~= Set::new(
                                    |x: usize| lo <= x && x <= top,
                                ));
                            }
                            break;
                        }
                        n = n + 1;
                    }
                    proof {
                        assert(Set::new(|x: usize| lo <= x && x <= top) =~= Set::new(
                            |x: usize| lo <= x && x <= hi && x <= max,
                        ));
                        assert(psv[k as int] == ps@[k as int]@);
                        assert(range_fold(psv, (k + 1) as nat, max) == Ok::<Set<usize>, Seq<char>>(
                            out@.to_set(),
                        ));
                    }
                },
            }
        }
        k = k + 1;
    }
    proof {
        assert(k == psv.len());
    }
    Ok(out)
}

// ----------------------------------------------------- describing pages --

/// Runs of consecutive pages, (first, last), in the order given.
pub open spec fn runs(p: Seq<usize>) -> Seq<(usize, usize)>
    decreases p.len(),
{
    if p.len() == 0 {
        seq![]
    } else {
        let r = runs(p.drop_last());
        let x = p.last();
        if r.len() > 0 && r.last().1 < usize::MAX && x == r.last().1 + 1 {
            r.drop_last().push((r.last().0, x))
        } else {
            r.push((x, x))
        }
    }
}

pub open spec fn run_text(r: (usize, usize)) -> Seq<char> {
    if r.0 == r.1 {
        dec(r.0 as nat)
    } else {
        dec(r.0 as nat) + "-"@ + dec(r.1 as nat)
    }
}

/// Runs written out and joined by `, `.
pub open spec fn runs_text(rs: Seq<(usize, usize)>) -> Seq<char>
    decreases rs.len(),
{
    if rs.len() == 0 {
        seq![]
    } else if rs.len() == 1 {
        run_text(rs[0])
    } else {
        runs_text(rs.drop_last()) + ", "@ + run_text(rs.last())
    }
}

/// A page list written back compactly: `1-3, 7, 10-12`.
pub fn describe_pages(pages: &[usize]) -> (r: String)
    ensures
        r@ == runs_text(runs(pages@)),
{
    let mut rs: Vec<(usize, usize)> = Vec::new();
    let mut i: usize = 0;
    while i < pages.len()
        invariant
            i <= pages@.len(),
            rs@ == runs(pages@.take(i as int)),
        decreases pages@.len() - i,
    {
        proof {
            assert(pages@.take(i + 1).drop_last() =~= pages@.take(i as int));
            assert(pages@.take(i + 1).last() == pages@[i as int]);
        }
        let x = pages[i];
        let n = rs.len();
        if n > 0 && rs[n - 1].1 < usize::MAX && x == rs[n - 1].1 + 1 {
            let start = rs[n - 1].0;
            let ghost before = rs@;
            rs.pop();
            rs.push((start, x));
            proof {
                assert(rs@ =~= before.drop_last().push((before.last().0, x)));
            }
        } else {
            rs.push((x, x));
        }
        i = i + 1;
    }
    proof {
        assert(pages@.take(i as int) =~= pages@);
    }
    let mut s: Vec<char> = Vec::new();
    let mut k: usize = 0;
    while k < rs.len()
        invariant
            k <= rs@.len(),
            s@ == runs_text(rs@.take(k as int)),
        decreases rs@.len() - k,
    {
        proof {
            assert(rs@.take(k + 1).drop_last() =~= rs@.take(k as int));
            assert(rs@.take(k + 1).last() == rs@[k as int]);
        }
        if k > 0 {
            push_str(&mut s, ", ");
        }
        let (a, b) = rs[k];
        push_decimal(&mut s, a);
        if a != b {
            push_str(&mut s, "-");
            push_decimal(&mut s, b);
        }
        proof {
            if k == 0 {
                assert(rs@.take(1) =~= seq![rs@[0]]);
            }
            assert(s@ =~= runs_text(rs@.take(k + 1)));
        }
        k = k + 1;
    }
    proof {
        assert(rs@.take(k as int) =~= rs@);
    }
    string_of(s.as_slice())
}

// ---------------------------------------------------------------- formats --

#[derive(Clone, Copy, PartialEq, Eq, Structural)]
pub enum Format {
    Pdf,
    Text,
    Fountain,
    FinalDraft,
}

impl Format {
    /// The file extension each format is written with.
    pub fn ext(self) -> (r: &'static str)
        ensures
            r@ == (match self {
                Format::Pdf => "pdf"@,
                Format::Text => "txt"@,
                Format::Fountain => "fountain"@,
                Format::FinalDraft => "fdx"@,
            }),
    {
        match self {
            Format::Pdf => "pdf",
            Format::Text => "txt",
            Format::Fountain => "fountain",
            Format::FinalDraft => "fdx",
        }
    }
}


/// The extension a format is written with.
pub open spec fn ext_of(f: Format) -> Seq<char> {
    match f {
        Format::Pdf => "pdf"@,
        Format::Text => "txt"@,
        Format::Fountain => "fountain"@,
        Format::FinalDraft => "fdx"@,
    }
}

/// The file name an export is written under: the title's slug; for a PDF
/// of only some pages, which pages, so it never overwrites the whole
/// script's PDF; and the format's extension.
pub open spec fn export_name_of(title: Seq<char>, f: Format, pages: Option<Seq<usize>>) -> Seq<
    char,
> {
    let part = match pages {
        Some(p) => if f == Format::Pdf {
            "-pages-"@ + replace(runs_text(runs(p)), ", "@, "_"@)
        } else {
            seq![]
        },
        None => seq![],
    };
    slug(title) + part + "."@ + ext_of(f)
}

pub fn export_name(doc: &Document, format: Format, pages: &Option<Vec<usize>>) -> (r: String)
    ensures
        r@ == export_name_of(
            doc.meta.title@,
            format,
            match pages {
                Some(p) => Some(p@),
                None => None,
            },
        ),
{
    let base = slugify(doc.meta.title.as_str());
    let mut out = chars_of(base.as_str());
    match pages {
        Some(p) => {
            if format == Format::Pdf {
                push_str(&mut out, "-pages-");
                let d = describe_pages(p.as_slice());
                let dc = chars_of(d.as_str());
                proof {
                    reveal_strlit(", ");
                }
                let joined = replace_chars(dc.as_slice(), ", ", "_");
                push_all(&mut out, joined.as_slice());
            }
        },
        None => {},
    }
    push_str(&mut out, ".");
    push_str(&mut out, format.ext());
    proof {
        let part = match pages {
            Some(p) => if format == Format::Pdf {
                "-pages-"@ + replace(runs_text(runs(p@)), ", "@, "_"@)
            } else {
                seq![]
            },
            None => seq![],
        };
        assert(out@ =~= slug(doc.meta.title@) + part + "."@ + ext_of(format));
    }
    string_of(out.as_slice())
}
} // verus!
