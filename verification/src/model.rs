//! Core screenplay data model.
//!
//! Geometry follows standard US master-scene format: 8.5x11, 12pt Courier
//! (10 characters per inch), 1.5" left margin, 1" right margin, 1" top and
//! bottom. That leaves a 6.0" text column = 60 characters wide.
//!
//! All indents below are expressed in *character columns measured from the
//! left text margin* (i.e. from 1.5" on the physical page):
//!
//!   Scene heading   0   (1.5" on page)   ALL CAPS
//!   Action          0   (1.5" on page)
//!   Character      22   (3.7" on page)   ALL CAPS
//!   Parenthetical  16   (3.1" on page)
//!   Dialogue       10   (2.5" on page)   3.5" wide
//!   Transition     45   (6.0" on page)   ALL CAPS
//!   Shot            0   (1.5" on page)   ALL CAPS

use vstd::prelude::*;

use crate::text::{
    alphabetic, chars_of, split_words, words, has_prefix, has_suffix, index_of, index_of_char, is_str, same,
    is_whitespace, is_ws, push_all, slice_of, starts_with_str, ends_with_str, string_of, to_upper,
    trim, trim_by, trim_chars, trim_chars_by, upper, Strip,
};

verus! {

/// Width of the printable text column, in characters.
pub const PAGE_COLS: usize = 60;

/// Lines of body text per printed page.
pub const LINES_PER_PAGE: usize = 55;

#[derive(Clone, Copy, PartialEq, Eq, Debug, Hash, Structural)]
pub enum Element {
    SceneHeading,
    Action,
    Character,
    Parenthetical,
    Dialogue,
    Transition,
    Shot,
}

/// The element at position `i` of the palette order.
pub open spec fn element_at(i: int) -> Element {
    if i == 0 {
        Element::SceneHeading
    } else if i == 1 {
        Element::Action
    } else if i == 2 {
        Element::Character
    } else if i == 3 {
        Element::Parenthetical
    } else if i == 4 {
        Element::Dialogue
    } else if i == 5 {
        Element::Transition
    } else {
        Element::Shot
    }
}

/// Where an element sits in the palette order.
pub open spec fn position_of(e: Element) -> int {
    match e {
        Element::SceneHeading => 0,
        Element::Action => 1,
        Element::Character => 2,
        Element::Parenthetical => 3,
        Element::Dialogue => 4,
        Element::Transition => 5,
        Element::Shot => 6,
    }
}

/// The elements that are printed in capitals.
pub open spec fn upper_element(e: Element) -> bool {
    e == Element::SceneHeading || e == Element::Character || e == Element::Transition || e
        == Element::Shot
}

/// The element Tab (forward) or Shift+Tab moves to.
pub open spec fn cycled(e: Element, forward: bool) -> Element {
    if forward {
        match e {
            Element::SceneHeading => Element::Action,
            Element::Action => Element::Character,
            Element::Character => Element::Parenthetical,
            Element::Parenthetical => Element::Dialogue,
            Element::Dialogue => Element::Transition,
            Element::Transition => Element::Shot,
            Element::Shot => Element::SceneHeading,
        }
    } else {
        match e {
            Element::SceneHeading => Element::Shot,
            Element::Action => Element::SceneHeading,
            Element::Character => Element::Action,
            Element::Parenthetical => Element::Character,
            Element::Dialogue => Element::Parenthetical,
            Element::Transition => Element::Dialogue,
            Element::Shot => Element::Transition,
        }
    }
}

/// The element Enter creates after `e`.
pub open spec fn next_on_enter(e: Element) -> Element {
    match e {
        Element::SceneHeading => Element::Action,
        Element::Action => Element::Action,
        Element::Shot => Element::Action,
        Element::Character => Element::Dialogue,
        Element::Parenthetical => Element::Dialogue,
        Element::Dialogue => Element::Action,
        Element::Transition => Element::SceneHeading,
    }
}

/// What Enter at the end of a block opens, as the key table has it: a cue
/// or a parenthetical is followed by dialogue, a transition by a scene
/// heading, anything else by action.
pub proof fn law_enter_opens_what_comes_next(e: Element)
    ensures
        (e == Element::Character || e == Element::Parenthetical) <==> next_on_enter(e)
            == Element::Dialogue,
        e == Element::Transition <==> next_on_enter(e) == Element::SceneHeading,
        (e == Element::SceneHeading || e == Element::Action || e == Element::Shot || e
            == Element::Dialogue) <==> next_on_enter(e) == Element::Action,
{
}

/// The page's geometry, element by element, in tenths of an inch: where the
/// element starts from the page's left edge, and how wide it may run.
pub open spec fn page_geometry(e: Element) -> (nat, nat) {
    match e {
        Element::SceneHeading => (15, 60),
        Element::Action => (15, 60),
        Element::Character => (37, 38),
        Element::Parenthetical => (31, 28),
        Element::Dialogue => (25, 35),
        Element::Transition => (60, 15),
        Element::Shot => (15, 60),
    }
}

/// At ten characters an inch behind a 1.5-inch margin, each element's
/// indent and width in columns are its place on the page; and no element
/// runs past the 60-column text area.
pub proof fn law_layout_matches_the_page(e: Element)
    ensures
        indent_of(e) + 15 == page_geometry(e).0,
        width_of(e) == page_geometry(e).1,
        indent_of(e) + width_of(e) <= 60,
        width_of(e) >= 8,
{
}

/// A speech hangs straight under its cue: dialogue and parentheticals come
/// with no blank line before them; a scene opens after two blank lines and
/// anything else after one.
pub proof fn law_spacing_keeps_speech_together(e: Element)
    ensures
        (e == Element::Dialogue || e == Element::Parenthetical) <==> blanks_before(e) == 0,
        e == Element::SceneHeading <==> blanks_before(e) == 2,
        blanks_before(e) <= 2,
{
}

pub open spec fn indent_of(e: Element) -> usize {
    match e {
        Element::SceneHeading | Element::Action | Element::Shot => 0,
        Element::Character => 22,
        Element::Parenthetical => 16,
        Element::Dialogue => 10,
        Element::Transition => 45,
    }
}

pub open spec fn width_of(e: Element) -> usize {
    match e {
        Element::SceneHeading | Element::Action | Element::Shot => 60,
        Element::Character => 38,
        Element::Parenthetical => 28,
        Element::Dialogue => 35,
        Element::Transition => 15,
    }
}

pub open spec fn blanks_before(e: Element) -> usize {
    match e {
        Element::SceneHeading => 2,
        Element::Action | Element::Character | Element::Transition | Element::Shot => 1,
        Element::Parenthetical | Element::Dialogue => 0,
    }
}

impl Element {
    pub const ALL: [Element; 7] = [
        Element::SceneHeading,
        Element::Action,
        Element::Character,
        Element::Parenthetical,
        Element::Dialogue,
        Element::Transition,
        Element::Shot,
    ];

    pub fn label(self) -> (r: &'static str)
        ensures
            r@ == (match self {
                Element::SceneHeading => "Scene Heading"@,
                Element::Action => "Action"@,
                Element::Character => "Character"@,
                Element::Parenthetical => "Parenthetical"@,
                Element::Dialogue => "Dialogue"@,
                Element::Transition => "Transition"@,
                Element::Shot => "Shot"@,
            }),
    {
        match self {
            Element::SceneHeading => "Scene Heading",
            Element::Action => "Action",
            Element::Character => "Character",
            Element::Parenthetical => "Parenthetical",
            Element::Dialogue => "Dialogue",
            Element::Transition => "Transition",
            Element::Shot => "Shot",
        }
    }

    /// Compact label for the gutter tag.
    pub fn short(self) -> (r: &'static str)
        ensures
            r@ == (match self {
                Element::SceneHeading => "SCENE"@,
                Element::Action => "ACTION"@,
                Element::Character => "CHAR"@,
                Element::Parenthetical => "PAREN"@,
                Element::Dialogue => "DIALOG"@,
                Element::Transition => "TRANS"@,
                Element::Shot => "SHOT"@,
            }),
    {
        match self {
            Element::SceneHeading => "SCENE",
            Element::Action => "ACTION",
            Element::Character => "CHAR",
            Element::Parenthetical => "PAREN",
            Element::Dialogue => "DIALOG",
            Element::Transition => "TRANS",
            Element::Shot => "SHOT",
        }
    }

    /// Indent from the left text margin, in characters.
    pub fn indent_cols(self) -> (r: usize)
        ensures
            r == indent_of(self),
    {
        match self {
            Element::SceneHeading | Element::Action | Element::Shot => 0,
            Element::Character => 22,
            Element::Parenthetical => 16,
            Element::Dialogue => 10,
            Element::Transition => 45,
        }
    }

    /// Wrapping width, in characters.
    pub fn width_cols(self) -> (r: usize)
        ensures
            r == width_of(self),
    {
        match self {
            Element::SceneHeading | Element::Action | Element::Shot => 60,
            Element::Character => 38,
            Element::Parenthetical => 28,
            Element::Dialogue => 35,
            Element::Transition => 15,
        }
    }

    pub fn is_upper(self) -> (r: bool)
        ensures
            r == upper_element(self),
    {
        match self {
            Element::SceneHeading | Element::Character | Element::Transition | Element::Shot => true,
            _ => false,
        }
    }

    /// Blank lines emitted before this element when printing.
    pub fn blank_lines_before(self) -> (r: usize)
        ensures
            r == blanks_before(self),
    {
        match self {
            Element::SceneHeading => 2,
            Element::Action | Element::Character | Element::Transition | Element::Shot => 1,
            Element::Parenthetical | Element::Dialogue => 0,
        }
    }

    /// What pressing Enter at the end of this element should create next.
    pub fn on_enter(self) -> (r: Element)
        ensures
            r == next_on_enter(self),
    {
        match self {
            Element::SceneHeading => Element::Action,
            Element::Action => Element::Action,
            Element::Shot => Element::Action,
            Element::Character => Element::Dialogue,
            Element::Parenthetical => Element::Dialogue,
            Element::Dialogue => Element::Action,
            Element::Transition => Element::SceneHeading,
        }
    }

    fn index(self) -> (r: usize)
        ensures
            r == position_of(self),
            r < 7,
    {
        match self {
            Element::SceneHeading => 0,
            Element::Action => 1,
            Element::Character => 2,
            Element::Parenthetical => 3,
            Element::Dialogue => 4,
            Element::Transition => 5,
            Element::Shot => 6,
        }
    }

    /// Tab / Shift+Tab cycling through the element palette.
    pub fn cycle(self, forward: bool) -> (r: Element)
        ensures
            r == cycled(self, forward),
    {
        let n: usize = 7;
        let i = self.index();
        let j = if forward {
            (i + 1) % n
        } else {
            (i + n - 1) % n
        };
        Self::at(j)
    }

    /// The element at position `i` of `ALL`.
    fn at(i: usize) -> (r: Element)
        requires
            i < 7,
        ensures
            r == element_at(i as int),
    {
        if i == 0 {
            Element::SceneHeading
        } else if i == 1 {
            Element::Action
        } else if i == 2 {
            Element::Character
        } else if i == 3 {
            Element::Parenthetical
        } else if i == 4 {
            Element::Dialogue
        } else if i == 5 {
            Element::Transition
        } else {
            Element::Shot
        }
    }

    /// Ctrl+1 .. Ctrl+7
    pub fn from_digit(d: usize) -> (r: Option<Element>)
        ensures
            r == (if 1 <= d <= 7 {
                Some(element_at(d - 1))
            } else {
                None
            }),
    {
        if d >= 1 && d <= 7 {
            Some(Self::at(d - 1))
        } else {
            None
        }
    }
}

/// Tab seven times comes back to where it started, one step at a time.
pub proof fn law_cycle_round_trip(e: Element)
    ensures
        cycled(cycled(e, true), false) == e,
        cycled(cycled(e, false), true) == e,
        cycled(
            cycled(cycled(cycled(cycled(cycled(cycled(e, true), true), true), true), true), true),
            true,
        ) == e,
{
    match e {
        Element::SceneHeading => {},
        Element::Action => {},
        Element::Character => {},
        Element::Parenthetical => {},
        Element::Dialogue => {},
        Element::Transition => {},
        Element::Shot => {},
    }
}

/// Parentheses around the text of a parenthetical, whatever it was typed
/// with: `beat`, `(beat`, `((beat))` all become `(beat)`.
pub open spec fn paren_wrapped(t: Seq<char>) -> Seq<char> {
    seq!['('] + trim(trim_by(t, Strip::Parens)) + seq![')']
}

/// What `normalize` makes of a block's text, given the capitals of the
/// trimmed text.
pub open spec fn normal_text_given(e: Element, text: Seq<char>, capitals: Seq<char>) -> Seq<char> {
    let t2 = if upper_element(e) {
        capitals
    } else {
        trim(text)
    };
    if e == Element::Parenthetical && t2.len() > 0 {
        paren_wrapped(t2)
    } else {
        t2
    }
}

/// What `normalize` makes of a block's text.
pub open spec fn normal_text(e: Element, text: Seq<char>) -> Seq<char> {
    normal_text_given(e, text, upper(trim(text)))
}

/// A block's text made tidy, given the capitals of the trimmed text (read
/// only for the elements set in capitals): trimmed, in capitals where the
/// element is set so, a parenthetical wrapped in one pair of parentheses.
pub fn normal_form(e: Element, text: &str, capitals: &str) -> (r: String)
    ensures
        r@ == normal_text_given(e, text@, capitals@),
{
    let raw = chars_of(text);
    let t = trim_chars(raw.as_slice());
    let t2 = if e.is_upper() {
        chars_of(capitals)
    } else {
        t
    };
    let t3 = if e == Element::Parenthetical && t2.len() > 0 {
        paren_wrap(t2.as_slice())
    } else {
        t2
    };
    string_of(t3.as_slice())
}

/// `(` + the text without its parentheses and spaces + `)`.
pub fn paren_wrap(t: &[char]) -> (r: Vec<char>)
    ensures
        r@ == paren_wrapped(t@),
{
    let inner = trim_chars_by(t, Strip::Parens);
    let inner = trim_chars(inner.as_slice());
    let mut out: Vec<char> = Vec::new();
    out.push('(');
    push_all(&mut out, inner.as_slice());
    out.push(')');
    proof {
        assert(out@ =~= paren_wrapped(t@));
    }
    out
}

pub struct Block {
    pub id: u64,
    pub element: Element,
    pub text: String,
    /// A scene heading's synopsis, as written on its index card.
    pub note: String,
    /// A scene heading's card colour, by palette group.
    pub tint: Option<usize>,
}

/// A block as the specifications see it.
pub ghost struct BlockV {
    pub id: u64,
    pub element: Element,
    pub text: Seq<char>,
    pub note: Seq<char>,
    pub tint: Option<usize>,
}

impl View for Block {
    type V = BlockV;

    open spec fn view(&self) -> BlockV {
        BlockV {
            id: self.id,
            element: self.element,
            text: self.text@,
            note: self.note@,
            tint: self.tint,
        }
    }
}

impl Clone for Block {
    fn clone(&self) -> (r: Block)
        ensures
            r.id == self.id,
            r.element == self.element,
            r.text@ == self.text@,
            r.note@ == self.note@,
            r.tint == self.tint,
    {
        Block {
            id: self.id,
            element: self.element,
            text: self.text.clone(),
            note: self.note.clone(),
            tint: self.tint,
        }
    }
}

impl Block {
    /// A block with no card.
    pub fn new(id: u64, element: Element, text: &str) -> (r: Block)
        ensures
            r.id == id,
            r.element == element,
            r.text@ == text@,
            r.note@.len() == 0,
            r.tint is None,
    {
        Block { id, element, text: text.to_owned(), note: String::new(), tint: None }
    }

    /// The same block with other text.
    pub fn with_text(&self, text: String) -> (r: Block)
        ensures
            r.id == self.id,
            r.element == self.element,
            r.text@ == text@,
            r.note@ == self.note@,
            r.tint == self.tint,
    {
        Block {
            id: self.id,
            element: self.element,
            text,
            note: self.note.clone(),
            tint: self.tint,
        }
    }
}

pub struct Meta {
    pub title: String,
    pub author: String,
    pub contact: String,
    pub draft: String,
    /// Pinned to the top of the library.
    pub starred: bool,
}

/// The title-page details as the specifications see them.
pub ghost struct MetaV {
    pub title: Seq<char>,
    pub author: Seq<char>,
    pub contact: Seq<char>,
    pub draft: Seq<char>,
    pub starred: bool,
}

impl View for Meta {
    type V = MetaV;

    open spec fn view(&self) -> MetaV {
        MetaV {
            title: self.title@,
            author: self.author@,
            contact: self.contact@,
            draft: self.draft@,
            starred: self.starred,
        }
    }
}

/// No details at all.
pub open spec fn empty_meta() -> MetaV {
    MetaV { title: seq![], author: seq![], contact: seq![], draft: seq![], starred: false }
}

impl Default for Meta {
    fn default() -> (r: Meta)
        ensures
            r@ == empty_meta(),
    {
        let m = Meta {
            title: String::new(),
            author: String::new(),
            contact: String::new(),
            draft: String::new(),
            starred: false,
        };
        proof {
            assert(m.title@ =~= Seq::<char>::empty());
            assert(m.author@ =~= Seq::<char>::empty());
            assert(m.contact@ =~= Seq::<char>::empty());
            assert(m.draft@ =~= Seq::<char>::empty());
        }
        m
    }
}

impl Clone for Meta {
    fn clone(&self) -> (r: Meta)
        ensures
            r.title@ == self.title@,
            r.author@ == self.author@,
            r.contact@ == self.contact@,
            r.draft@ == self.draft@,
            r.starred == self.starred,
    {
        Meta {
            title: self.title.clone(),
            author: self.author.clone(),
            contact: self.contact.clone(),
            draft: self.draft.clone(),
            starred: self.starred,
        }
    }
}

pub struct Document {
    pub meta: Meta,
    pub blocks: Vec<Block>,
    /// The id the next new block gets; kept past every id in use.
    pub next_id: u64,
}

/// The largest block id, 0 for none.
pub open spec fn max_id(bs: Seq<Block>) -> u64
    decreases bs.len(),
{
    if bs.len() == 0 {
        0
    } else {
        let m = max_id(bs.drop_last());
        if bs.last().id > m {
            bs.last().id
        } else {
            m
        }
    }
}

/// The largest id depends on the ids alone.
pub proof fn lemma_max_id_same_ids(a: Seq<Block>, b: Seq<Block>)
    requires
        a.len() == b.len(),
        forall|i: int| 0 <= i < a.len() ==> #[trigger] a[i].id == b[i].id,
    ensures
        max_id(a) == max_id(b),
    decreases a.len(),
{
    if a.len() > 0 {
        assert forall|i: int| 0 <= i < a.len() - 1 implies #[trigger] a.drop_last()[i].id
            == b.drop_last()[i].id by {
            assert(a.drop_last()[i] == a[i]);
            assert(b.drop_last()[i] == b[i]);
        }
        lemma_max_id_same_ids(a.drop_last(), b.drop_last());
    }
}

pub proof fn lemma_max_id(bs: Seq<Block>)
    ensures
        forall|i: int| 0 <= i < bs.len() ==> bs[i].id <= max_id(bs),
        bs.len() > 0 ==> exists|i: int| 0 <= i < bs.len() && bs[i].id == max_id(bs),
    decreases bs.len(),
{
    if bs.len() > 0 {
        lemma_max_id(bs.drop_last());
        assert forall|i: int| 0 <= i < bs.len() implies bs[i].id <= max_id(bs) by {
            if i < bs.len() - 1 {
                assert(bs.drop_last()[i] == bs[i]);
            }
        }
        if bs.last().id > max_id(bs.drop_last()) || bs.len() == 1 {
            assert(bs[bs.len() - 1].id == bs.last().id);
        } else {
            let k = choose|i: int| 0 <= i < bs.len() - 1 && bs.drop_last()[i].id == max_id(bs.drop_last());
            assert(bs[k] == bs.drop_last()[k]);
        }
    }
}

/// The blocks' text, word by word, as `split_whitespace` counts them.
pub open spec fn words_in(bs: Seq<Block>) -> nat
    decreases bs.len(),
{
    if bs.len() == 0 {
        0
    } else {
        words_in(bs.drop_last()) + word_count_of(bs.last().text@)
    }
}

/// How many whitespace-separated words `s` holds.
pub open spec fn word_count_of(s: Seq<char>) -> nat
    decreases s.len(),
{
    if s.len() == 0 {
        0
    } else {
        let starts = !is_ws(s.last()) && (s.len() == 1 || is_ws(s[s.len() - 2]));
        word_count_of(s.drop_last()) + if starts {
            1nat
        } else {
            0nat
        }
    }
}

/// A heading that says something.
pub open spec fn is_written_scene(b: Block) -> bool {
    b.element == Element::SceneHeading && trim(b.text@).len() > 0
}

pub open spec fn scenes_in(bs: Seq<Block>) -> nat
    decreases bs.len(),
{
    if bs.len() == 0 {
        0
    } else {
        scenes_in(bs.drop_last()) + if is_written_scene(bs.last()) {
            1nat
        } else {
            0nat
        }
    }
}

/// The scene headings, in order: (id, text).
pub open spec fn outline_of(bs: Seq<Block>) -> Seq<(u64, Seq<char>)>
    decreases bs.len(),
{
    if bs.len() == 0 {
        seq![]
    } else if bs.last().element == Element::SceneHeading {
        outline_of(bs.drop_last()).push((bs.last().id, bs.last().text@))
    } else {
        outline_of(bs.drop_last())
    }
}

/// The first index whose block has `id`.
pub open spec fn first_with_id(bs: Seq<Block>, id: u64) -> Option<int>
    decreases bs.len(),
{
    if bs.len() == 0 {
        None
    } else if bs[0].id == id {
        Some(0)
    } else {
        match first_with_id(bs.drop_first(), id) {
            Some(k) => Some(k + 1),
            None => None,
        }
    }
}

pub proof fn lemma_first_with_id(bs: Seq<Block>, id: u64)
    ensures
        first_with_id(bs, id) matches Some(k) ==> 0 <= k < bs.len() && bs[k].id == id && (forall|
            j: int,
        | 0 <= j < k ==> bs[j].id != id),
        first_with_id(bs, id) is None ==> (forall|j: int| 0 <= j < bs.len() ==> bs[j].id != id),
    decreases bs.len(),
{
    if bs.len() > 0 && bs[0].id != id {
        lemma_first_with_id(bs.drop_first(), id);
        assert forall|j: int| 0 < j < bs.len() implies bs[j] == bs.drop_first()[j - 1] by {}
    }
}

impl Default for Document {
    /// An untitled script holding one empty scene heading.
    fn default() -> (r: Document)
        ensures
            r.meta.title@ == "Untitled Script"@,
            r.meta.author@.len() == 0,
            r.meta.contact@.len() == 0,
            r.meta.draft@.len() == 0,
            !r.meta.starred,
            r.blocks@.len() == 1,
            r.blocks@[0].id == 1,
            r.blocks@[0].element == Element::SceneHeading,
            r.blocks@[0].text@.len() == 0,
            r.blocks@[0].note@.len() == 0,
            r.blocks@[0].tint is None,
            r.counter() == 2,
    {
        let mut meta = Meta::default();
        meta.title = "Untitled Script".to_owned();
        let mut doc = Document { meta, blocks: Vec::new(), next_id: 1 };
        let first = doc.new_block(Element::SceneHeading, "");
        proof {
            reveal_strlit("");
        }
        doc.blocks.push(first);
        doc
    }
}

impl Document {
    /// The id the next new block will get.
    pub open spec fn counter(&self) -> u64 {
        self.next_id
    }

    /// Every block's id is below the counter, so a new block's id is fresh.
    pub open spec fn ids_fresh(&self) -> bool {
        forall|i: int| 0 <= i < self.blocks@.len() ==> self.blocks@[i].id < self.counter()
    }

    /// A document of these parts, never empty, its counter past every id.
    pub fn from_parts(meta: Meta, blocks: Vec<Block>) -> (r: Document)
        requires
            forall|i: int| 0 <= i < blocks@.len() ==> blocks@[i].id < u64::MAX,
        ensures
            r.meta == meta,
            blocks@.len() > 0 ==> r.blocks@ == blocks@,
            blocks@.len() == 0 ==> r.blocks@.len() == 1 && r.blocks@[0].id == 1
                && r.blocks@[0].element == Element::SceneHeading && r.blocks@[0].text@.len() == 0
                && r.blocks@[0].note@.len() == 0 && r.blocks@[0].tint is None,
            r.counter() == max_id(r.blocks@) + 1,
            r.ids_fresh(),
    {
        let mut doc = Document { meta, blocks, next_id: 1 };
        doc.ensure_not_empty();
        doc.reseed_ids();
        doc
    }

    /// A block with the next id; the document keeps it only if it is pushed.
    pub fn new_block(&mut self, element: Element, text: &str) -> (r: Block)
        requires
            old(self).counter() < u64::MAX,
        ensures
            r.id == old(self).counter(),
            r.element == element,
            r.text@ == text@,
            r.note@.len() == 0,
            r.tint is None,
            final(self).counter() == old(self).counter() + 1,
            final(self).blocks@ == old(self).blocks@,
            final(self).meta == old(self).meta,
    {
        let id = self.next_id;
        self.next_id = self.next_id + 1;
        Block::new(id, element, text)
    }

    /// Append a new block.
    pub fn push(&mut self, element: Element, text: &str)
        requires
            old(self).counter() < u64::MAX,
        ensures
            final(self).blocks@.len() == old(self).blocks@.len() + 1,
            final(self).blocks@.drop_last() == old(self).blocks@,
            final(self).blocks@.last().id == old(self).counter(),
            final(self).blocks@.last().element == element,
            final(self).blocks@.last().text@ == text@,
            final(self).blocks@.last().note@.len() == 0,
            final(self).blocks@.last().tint is None,
            final(self).counter() == old(self).counter() + 1,
            final(self).meta == old(self).meta,
    {
        let b = self.new_block(element, text);
        self.blocks.push(b);
        proof {
            assert(self.blocks@.drop_last() =~= old(self).blocks@);
        }
    }

    /// Rebuild the id counter after loading blocks from disk.
    pub fn reseed_ids(&mut self)
        requires
            forall|i: int| 0 <= i < old(self).blocks@.len() ==> old(self).blocks@[i].id < u64::MAX,
        ensures
            final(self).counter() == max_id(old(self).blocks@) + 1,
            final(self).blocks@ == old(self).blocks@,
            final(self).meta == old(self).meta,
            final(self).ids_fresh(),
    {
        let mut max: u64 = 0;
        let mut i: usize = 0;
        while i < self.blocks.len()
            invariant
                i <= self.blocks@.len(),
                max == max_id(self.blocks@.take(i as int)),
            decreases self.blocks@.len() - i,
        {
            proof {
                assert(self.blocks@.take(i + 1).drop_last() =~= self.blocks@.take(i as int));
            }
            if self.blocks[i].id > max {
                max = self.blocks[i].id;
            }
            i = i + 1;
        }
        proof {
            assert(self.blocks@.take(i as int) =~= self.blocks@);
            lemma_max_id(self.blocks@);
            if self.blocks@.len() > 0 {
                let k = choose|k: int| 0 <= k < self.blocks@.len() && self.blocks@[k].id == max;
                assert(self.blocks@[k].id < u64::MAX);
            }
        }
        self.next_id = max + 1;
    }

    pub fn index_of(&self, id: u64) -> (r: Option<usize>)
        ensures
            r matches Some(k) ==> first_with_id(self.blocks@, id) == Some(k as int),
            r is None ==> first_with_id(self.blocks@, id) is None,
    {
        let mut i: usize = 0;
        while i < self.blocks.len()
            invariant
                i <= self.blocks@.len(),
                forall|j: int| 0 <= j < i ==> self.blocks@[j].id != id,
            decreases self.blocks@.len() - i,
        {
            if self.blocks[i].id == id {
                proof {
                    lemma_first_with_id(self.blocks@, id);
                    if first_with_id(self.blocks@, id) != Some(i as int) {
                        let k = first_with_id(self.blocks@, id)->0;
                        assert(k < i || k > i);
                    }
                }
                return Some(i);
            }
            i = i + 1;
        }
        proof {
            lemma_first_with_id(self.blocks@, id);
            if first_with_id(self.blocks@, id) is Some {
                let k = first_with_id(self.blocks@, id)->0;
                assert(self.blocks@[k].id == id);
            }
        }
        None
    }

    pub fn block(&self, id: u64) -> (r: Option<&Block>)
        ensures
            r matches Some(b) ==> first_with_id(self.blocks@, id) matches Some(k) && *b
                == self.blocks@[k],
            r is None ==> first_with_id(self.blocks@, id) is None,
    {
        proof {
            lemma_first_with_id(self.blocks@, id);
        }
        match self.index_of(id) {
            Some(k) => Some(&self.blocks[k]),
            None => None,
        }
    }

    pub fn ensure_not_empty(&mut self)
        requires
            old(self).counter() < u64::MAX,
        ensures
            old(self).blocks@.len() > 0 ==> final(self).blocks@ == old(self).blocks@
                && final(self).counter() == old(self).counter(),
            old(self).blocks@.len() == 0 ==> final(self).blocks@.len() == 1
                && final(self).blocks@[0].id == old(self).counter()
                && final(self).blocks@[0].element == Element::SceneHeading
                && final(self).blocks@[0].text@.len() == 0 && final(self).blocks@[0].note@.len()
                == 0 && final(self).blocks@[0].tint is None && final(self).counter() == old(
                self,
            ).counter() + 1,
            final(self).meta == old(self).meta,
    {
        if self.blocks.len() == 0 {
            let b = self.new_block(Element::SceneHeading, "");
            proof {
                reveal_strlit("");
            }
            self.blocks.push(b);
        }
    }

    /// Tidy-ups applied before saving or exporting: trim trailing spaces,
    /// force caps where the format demands it, wrap parentheticals.
    pub fn normalize(&mut self)
        ensures
            final(self).blocks@.len() == old(self).blocks@.len(),
            forall|i: int|
                #![trigger final(self).blocks@[i]]
                0 <= i < old(self).blocks@.len() ==> {
                    let a = old(self).blocks@[i];
                    let b = final(self).blocks@[i];
                    &&& b.id == a.id
                    &&& b.element == a.element
                    &&& b.text@ == normal_text(a.element, a.text@)
                    &&& b.note@ == a.note@
                    &&& b.tint == a.tint
                },
            final(self).meta == old(self).meta,
            final(self).counter() == old(self).counter(),
    {
        let mut i: usize = 0;
        while i < self.blocks.len()
            invariant
                i <= self.blocks@.len(),
                self.blocks@.len() == old(self).blocks@.len(),
                self.meta == old(self).meta,
                self.counter() == old(self).counter(),
                forall|j: int|
                    #![trigger self.blocks@[j]]
                    0 <= j < self.blocks@.len() ==> {
                        let a = old(self).blocks@[j];
                        let b = self.blocks@[j];
                        &&& b.id == a.id
                        &&& b.element == a.element
                        &&& b.text@ == (if j < i {
                            normal_text(a.element, a.text@)
                        } else {
                            a.text@
                        })
                        &&& b.note@ == a.note@
                        &&& b.tint == a.tint
                    },
            decreases self.blocks@.len() - i,
        {
            let e = self.blocks[i].element;
            let raw = chars_of(self.blocks[i].text.as_str());
            let t = trim_chars(raw.as_slice());
            let capitals = if e.is_upper() {
                to_upper(t.as_slice())
            } else {
                t
            };
            let tidy = normal_form(e, self.blocks[i].text.as_str(), string_of(capitals.as_slice()).as_str());
            let nb = self.blocks[i].with_text(tidy);
            self.blocks.set(i, nb);
            i = i + 1;
        }
    }

    pub fn word_count(&self) -> (r: usize)
        requires
            words_in(self.blocks@) <= usize::MAX,
        ensures
            r == words_in(self.blocks@),
    {
        let mut total: usize = 0;
        let mut i: usize = 0;
        while i < self.blocks.len()
            invariant
                i <= self.blocks@.len(),
                total == words_in(self.blocks@.take(i as int)),
                words_in(self.blocks@) <= usize::MAX,
            decreases self.blocks@.len() - i,
        {
            proof {
                assert(self.blocks@.take(i + 1).drop_last() =~= self.blocks@.take(i as int));
                lemma_words_in_prefix(self.blocks@, i + 1);
            }
            let t = chars_of(self.blocks[i].text.as_str());
            let n = count_words(t.as_slice());
            total = total + n;
            i = i + 1;
        }
        proof {
            assert(self.blocks@.take(i as int) =~= self.blocks@);
        }
        total
    }

    pub fn scene_count(&self) -> (r: usize)
        ensures
            r == scenes_in(self.blocks@),
    {
        let mut total: usize = 0;
        let mut i: usize = 0;
        while i < self.blocks.len()
            invariant
                i <= self.blocks@.len(),
                total == scenes_in(self.blocks@.take(i as int)),
                total <= i,
            decreases self.blocks@.len() - i,
        {
            proof {
                assert(self.blocks@.take(i + 1).drop_last() =~= self.blocks@.take(i as int));
            }
            if self.blocks[i].element == Element::SceneHeading {
                let t = chars_of(self.blocks[i].text.as_str());
                let t = trim_chars(t.as_slice());
                if t.len() > 0 {
                    total = total + 1;
                }
            }
            i = i + 1;
        }
        proof {
            assert(self.blocks@.take(i as int) =~= self.blocks@);
        }
        total
    }

    /// Every scene heading, for the outline panel: (block id, text).
    pub fn outline(&self) -> (r: Vec<(u64, String)>)
        ensures
            r@.map_values(|p: (u64, String)| (p.0, p.1@)) == outline_of(self.blocks@),
    {
        let mut out: Vec<(u64, String)> = Vec::new();
        let mut i: usize = 0;
        while i < self.blocks.len()
            invariant
                i <= self.blocks@.len(),
                out@.map_values(|p: (u64, String)| (p.0, p.1@)) == outline_of(
                    self.blocks@.take(i as int),
                ),
            decreases self.blocks@.len() - i,
        {
            proof {
                assert(self.blocks@.take(i + 1).drop_last() =~= self.blocks@.take(i as int));
            }
            if self.blocks[i].element == Element::SceneHeading {
                let ghost before = out@;
                out.push((self.blocks[i].id, self.blocks[i].text.clone()));
                proof {
                    assert(out@.map_values(|p: (u64, String)| (p.0, p.1@)) =~= before.map_values(
                        |p: (u64, String)| (p.0, p.1@),
                    ).push((self.blocks@[i as int].id, self.blocks@[i as int].text@)));
                }
            }
            i = i + 1;
        }
        proof {
            assert(self.blocks@.take(i as int) =~= self.blocks@);
        }
        out
    }
}

proof fn lemma_words_in_prefix(bs: Seq<Block>, n: int)
    requires
        0 <= n <= bs.len(),
    ensures
        words_in(bs.take(n)) <= words_in(bs),
    decreases bs.len() - n,
{
    if n < bs.len() {
        lemma_words_in_prefix(bs, n + 1);
        assert(bs.take(n + 1).drop_last() =~= bs.take(n));
    } else {
        assert(bs.take(n) =~= bs);
    }
}

/// How many words `s` holds, as `split_whitespace` finds them.
pub fn count_words(s: &[char]) -> (r: usize)
    ensures
        r == word_count_of(s@),
{
    let mut n: usize = 0;
    let mut i: usize = 0;
    while i < s.len()
        invariant
            i <= s@.len(),
            n == word_count_of(s@.take(i as int)),
            n <= i,
        decreases s@.len() - i,
    {
        proof {
            assert(s@.take(i + 1).drop_last() =~= s@.take(i as int));
        }
        if !is_whitespace(s[i]) && (i == 0 || is_whitespace(s[i - 1])) {
            n = n + 1;
        }
        i = i + 1;
    }
    proof {
        assert(s@.take(i as int) =~= s@);
    }
    n
}

// ------------------------------------------------------------ paste guess --

/// The prefixes that make a line a scene heading.
pub open spec fn slug_prefixed(u: Seq<char>) -> bool {
    has_prefix(u, "INT."@) || has_prefix(u, "EXT."@) || has_prefix(u, "INT "@) || has_prefix(
        u,
        "EXT "@,
    ) || has_prefix(u, "I/E."@) || has_prefix(u, "I/E "@) || has_prefix(u, "EST."@) || has_prefix(
        u,
        "INT./EXT."@,
    )
}

/// Best guess at a raw line's element, given the one before it and the
/// capitals of the trimmed line.
pub open spec fn guessed_with(line: Seq<char>, capitals: Seq<char>, prev: Option<Element>) -> Element {
    let t = trim(line);
    let is_upper = capitals == t;
    if t.len() == 0 {
        Element::Action
    } else if slug_prefixed(capitals) {
        Element::SceneHeading
    } else if t[0] == '(' && t.last() == ')' {
        Element::Parenthetical
    } else if is_upper && (has_suffix(t, "TO:"@) || t == "FADE IN:"@ || t == "FADE OUT."@) {
        Element::Transition
    } else if is_upper && t.len() <= 38 && prev != Some(Element::Character) {
        Element::Character
    } else if prev == Some(Element::Character) || prev == Some(Element::Parenthetical) {
        Element::Dialogue
    } else {
        Element::Action
    }
}

/// A short line in capitals that is nothing else is a character cue after
/// anything but a cue: after dialogue, action, a heading or at the start.
/// (Right after a cue, the same line is the cue's dialogue.)
pub proof fn law_capitals_after_anything_but_a_cue_are_a_cue(
    line: Seq<char>,
    capitals: Seq<char>,
    prev: Option<Element>,
)
    requires
        trim(line).len() > 0,
        capitals == trim(line),
        trim(line).len() <= 38,
        !slug_prefixed(capitals),
        !(trim(line)[0] == '(' && trim(line).last() == ')'),
        !has_suffix(trim(line), "TO:"@),
        trim(line) != "FADE IN:"@,
        trim(line) != "FADE OUT."@,
    ensures
        prev != Some(Element::Character) ==> guessed_with(line, capitals, prev) == Element::Character,
        prev == Some(Element::Character) ==> guessed_with(line, capitals, prev) == Element::Dialogue,
{
}

/// The marks a pasted line is known by come first: a scene prefix makes a
/// heading, parentheses round the line a parenthetical, and a line in
/// capitals ending `TO:` (or `FADE IN:`, `FADE OUT.`) a transition, whatever
/// came before.
pub proof fn law_marked_lines_are_known_by_their_marks(
    line: Seq<char>,
    capitals: Seq<char>,
    prev: Option<Element>,
)
    requires
        trim(line).len() > 0,
    ensures
        slug_prefixed(capitals) ==> guessed_with(line, capitals, prev) == Element::SceneHeading,
        !slug_prefixed(capitals) && trim(line)[0] == '(' && trim(line).last() == ')'
            ==> guessed_with(line, capitals, prev) == Element::Parenthetical,
        !slug_prefixed(capitals) && !(trim(line)[0] == '(' && trim(line).last() == ')') && capitals
            == trim(line) && has_suffix(trim(line), "TO:"@) ==> guessed_with(line, capitals, prev)
            == Element::Transition,
        trim(line).len() == 0 ==> guessed_with(line, capitals, prev) == Element::Action,
{
}

/// A line in lower case after a cue or a parenthetical is what they speak.
pub proof fn law_a_line_after_a_cue_is_dialogue(line: Seq<char>, capitals: Seq<char>, prev: Option<Element>)
    requires
        trim(line).len() > 0,
        capitals != trim(line),
        !slug_prefixed(capitals),
        !(trim(line)[0] == '(' && trim(line).last() == ')'),
        prev == Some(Element::Character) || prev == Some(Element::Parenthetical),
    ensures
        guessed_with(line, capitals, prev) == Element::Dialogue,
{
}

/// Best guess at a raw line's element, given the one before it.
pub open spec fn guessed(line: Seq<char>, prev: Option<Element>) -> Element {
    guessed_with(line, upper(trim(line)), prev)
}

/// Best guess at what a raw line of pasted text is, given what came before it.
/// Used when someone pastes a whole scene in from somewhere else.
pub fn guess_element(line: &str, prev: Option<Element>) -> (r: Element)
    ensures
        r == guessed(line@, prev),
{
    let raw = chars_of(line);
    let t = trim_chars(raw.as_slice());
    let up = to_upper(t.as_slice());
    guess_with(line, string_of(up.as_slice()).as_str(), prev)
}

/// The paste guess, given the capitals of the trimmed line.
pub fn guess_with(line: &str, capitals: &str, prev: Option<Element>) -> (r: Element)
    ensures
        r == guessed_with(line@, capitals@, prev),
{
    let raw = chars_of(line);
    let t = trim_chars(raw.as_slice());
    if t.len() == 0 {
        return Element::Action;
    }
    let upv = chars_of(capitals);
    let u = upv.as_slice();
    let ts = t.as_slice();
    let upper = same(u, ts);
    if starts_with_str(u, "INT.") || starts_with_str(u, "EXT.") || starts_with_str(u, "INT ")
        || starts_with_str(u, "EXT ") || starts_with_str(u, "I/E.") || starts_with_str(u, "I/E ")
        || starts_with_str(u, "EST.") || starts_with_str(u, "INT./EXT.") {
        return Element::SceneHeading;
    }
    if t[0] == '(' && t[t.len() - 1] == ')' {
        return Element::Parenthetical;
    }
    if upper && (ends_with_str(ts, "TO:") || is_str(ts, "FADE IN:") || is_str(ts, "FADE OUT.")) {
        return Element::Transition;
    }
    let after_cue = match prev {
        Some(Element::Character) => true,
        _ => false,
    };
    if upper && t.len() <= 38 && !after_cue {
        return Element::Character;
    }
    match prev {
        Some(Element::Character) | Some(Element::Parenthetical) => Element::Dialogue,
        _ => Element::Action,
    }
}

/// The name a character cue is known by: what comes before its first
/// extension, `MARIA (V.O.)` being MARIA.
pub open spec fn cue_name(cue: Seq<char>) -> Seq<char> {
    match index_of_char(cue, '(') {
        Some(k) => trim(cue.take(k)),
        None => trim(cue),
    }
}

/// The name a character cue is known by, on characters.
pub fn cue_name_of(c: &[char]) -> (r: Vec<char>)
    ensures
        r@ == cue_name(c@),
{
    proof {
        crate::text::lemma_index_of_char(c@, '(');
    }
    let head = match index_of(c, '(') {
        Some(k) => slice_of(c, 0, k),
        None => slice_of(c, 0, c.len()),
    };
    proof {
        if index_of_char(c@, '(') is Some {
            assert(head@ =~= c@.take(index_of_char(c@, '(')->0));
        } else {
            assert(head@ =~= c@);
        }
    }
    trim_chars(head.as_slice())
}

/// The name a character cue is known by, without its extension.
pub fn base_character(cue: &str) -> (r: String)
    ensures
        r@ == cue_name(cue@),
{
    let c = chars_of(cue);
    let n = cue_name_of(c.as_slice());
    string_of(n.as_slice())
}

// ------------------------------------------------------------------- wrap --

/// Cutting a word longer than the column into column-wide pieces: the full
/// pieces, and what is left over.
pub open spec fn hard_break(w: Seq<char>, width: nat) -> (Seq<Seq<char>>, Seq<char>)
    decreases w.len(),
{
    if width == 0 || w.len() <= width {
        (seq![], w)
    } else {
        let (cs, r) = hard_break(w.skip(width as int), width);
        (seq![w.take(width as int)] + cs, r)
    }
}

/// A word starting a fresh line: whole if it fits, else broken.
pub open spec fn place_word(out: Seq<Seq<char>>, w: Seq<char>, width: nat) -> (
    Seq<Seq<char>>,
    Seq<char>,
) {
    if w.len() <= width {
        (out, w)
    } else {
        let (cs, r) = hard_break(w, width);
        (out + cs, r)
    }
}

/// One word of the greedy wrap: onto the current line if it fits after a
/// space, else the line is finished and the word starts the next.
pub open spec fn wrap_step(st: (Seq<Seq<char>>, Seq<char>), w: Seq<char>, width: nat) -> (
    Seq<Seq<char>>,
    Seq<char>,
) {
    let (out, line) = st;
    if line.len() == 0 {
        place_word(out, w, width)
    } else if line.len() + 1 + w.len() <= width {
        (out, line.push(' ') + w)
    } else {
        place_word(out.push(line), w, width)
    }
}

pub open spec fn wrap_fold(ws: Seq<Seq<char>>, width: nat) -> (Seq<Seq<char>>, Seq<char>)
    decreases ws.len(),
{
    if ws.len() == 0 {
        (seq![], seq![])
    } else {
        wrap_step(wrap_fold(ws.drop_last(), width), ws.last(), width)
    }
}

/// The column `wrap` works to: never narrower than eight.
pub open spec fn wrap_width(width: usize) -> nat {
    if width < 8 {
        8
    } else {
        width as nat
    }
}

/// Greedy word wrap of `text` to `width` characters.
pub open spec fn wrapped(text: Seq<char>, width: usize) -> Seq<Seq<char>> {
    let (out, line) = wrap_fold(words(text), wrap_width(width));
    let out2 = if line.len() > 0 {
        out.push(line)
    } else {
        out
    };
    if out2.len() == 0 {
        seq![seq![]]
    } else {
        out2
    }
}

proof fn lemma_hard_break_fits(w: Seq<char>, width: nat)
    requires
        width > 0,
    ensures
        forall|i: int|
            0 <= i < hard_break(w, width).0.len() ==> #[trigger] hard_break(w, width).0[i].len()
                == width,
        hard_break(w, width).1.len() <= width,
    decreases w.len(),
{
    if w.len() > width {
        lemma_hard_break_fits(w.skip(width as int), width);
        let (cs, r) = hard_break(w.skip(width as int), width);
        assert forall|i: int|
            0 <= i < hard_break(w, width).0.len() implies #[trigger] hard_break(w, width).0[i].len()
            == width by {
            if i > 0 {
                assert(hard_break(w, width).0[i] == cs[i - 1]);
            }
        }
    }
}

pub open spec fn all_within(ls: Seq<Seq<char>>, width: nat) -> bool {
    forall|i: int| 0 <= i < ls.len() ==> #[trigger] ls[i].len() <= width
}

proof fn lemma_wrap_fold_fits(ws: Seq<Seq<char>>, width: nat)
    requires
        width > 0,
    ensures
        all_within(wrap_fold(ws, width).0, width),
        wrap_fold(ws, width).1.len() <= width,
    decreases ws.len(),
{
    if ws.len() > 0 {
        lemma_wrap_fold_fits(ws.drop_last(), width);
        let (out, line) = wrap_fold(ws.drop_last(), width);
        let w = ws.last();
        lemma_hard_break_fits(w, width);
        let out2 = if line.len() == 0 || line.len() + 1 + w.len() <= width {
            out
        } else {
            out.push(line)
        };
        assert(all_within(out2, width));
        if w.len() > width {
            let cs = hard_break(w, width).0;
            assert(all_within(out2 + cs, width)) by {
                assert forall|i: int| 0 <= i < (out2 + cs).len() implies #[trigger] (out2
                    + cs)[i].len() <= width by {
                    if i >= out2.len() {
                        assert((out2 + cs)[i] == cs[i - out2.len()]);
                    }
                }
            }
        }
    }
}

/// No wrapped line is wider than the column (or than eight, for a column
/// narrower than that).
pub proof fn law_wrap_respects_width(text: Seq<char>, width: usize)
    ensures
        all_within(wrapped(text, width), wrap_width(width)),
        wrapped(text, width).len() > 0,
{
    lemma_wrap_fold_fits(words(text), wrap_width(width));
}

/// Not a space.
pub open spec fn unspaced() -> spec_fn(char) -> bool {
    |c: char| c != ' '
}

proof fn lemma_filter_unspaced_fixed(s: Seq<char>)
    requires
        !s.contains(' '),
    ensures
        s.filter(unspaced()) == s,
    decreases s.len(),
{
    if s.len() == 0 {
        assert(s.filter(unspaced()) =~= s) by {
            reveal(Seq::filter);
        }
    } else {
        let q = s.drop_last();
        assert(!q.contains(' ')) by {
            assert forall|i: int| 0 <= i < q.len() implies q[i] != ' ' by {
                assert(q[i] == s[i]);
            }
        }
        lemma_filter_unspaced_fixed(q);
        assert(q.push(s.last()) =~= s);
        assert(s.last() == s[s.len() - 1]);
        q.lemma_filter_push(s.last(), unspaced());
    }
}

proof fn lemma_split_unspaced(s: Seq<char>)
    ensures
        forall|k: int|
            0 <= k < crate::text::split_state(s).0.len() ==> !(#[trigger] crate::text::split_state(
                s,
            ).0[k]).contains(' '),
        !crate::text::split_state(s).1.contains(' '),
    decreases s.len(),
{
    if s.len() > 0 {
        lemma_split_unspaced(s.drop_last());
        let (ws, cur) = crate::text::split_state(s.drop_last());
        assert(is_ws(' '));
        if is_ws(s.last()) {
            if cur.len() > 0 {
                let n = ws.push(cur);
                assert forall|k: int| 0 <= k < n.len() implies !(#[trigger] n[k]).contains(' ') by {
                    if k < ws.len() {
                        assert(n[k] == ws[k]);
                    }
                }
            }
            assert(!Seq::<char>::empty().contains(' '));
        } else {
            let c = cur.push(s.last());
            assert(s.last() != ' ');
            assert forall|i: int| 0 <= i < c.len() implies c[i] != ' ' by {
                if i < cur.len() {
                    assert(c[i] == cur[i]);
                }
            }
        }
    }
}

proof fn lemma_hard_break_concat(w: Seq<char>, width: nat)
    ensures
        hard_break(w, width).0.flatten() + hard_break(w, width).1 == w,
    decreases w.len(),
{
    if width == 0 || w.len() <= width {
        assert(Seq::<Seq<char>>::empty().flatten() =~= Seq::<char>::empty());
        assert(Seq::<char>::empty() + w =~= w);
    } else {
        lemma_hard_break_concat(w.skip(width as int), width);
        let (cs, r) = hard_break(w.skip(width as int), width);
        let all = seq![w.take(width as int)] + cs;
        assert(all.first() == w.take(width as int));
        assert(all.drop_first() =~= cs);
        assert(all.flatten() == w.take(width as int) + cs.flatten());
        assert(cs.flatten() + r == w.skip(width as int));
        assert(w.take(width as int) + w.skip(width as int) =~= w);
        assert(w.take(width as int) + cs.flatten() + r =~= w.take(width as int) + (cs.flatten() + r));
    }
}

#[verifier::rlimit(60)]
#[verifier::spinoff_prover]
proof fn lemma_wrap_fold_order(ws: Seq<Seq<char>>, width: nat)
    requires
        forall|k: int| 0 <= k < ws.len() ==> !(#[trigger] ws[k]).contains(' '),
    ensures
        (wrap_fold(ws, width).0.flatten() + wrap_fold(ws, width).1).filter(unspaced())
            == ws.flatten(),
    decreases ws.len(),
{
    broadcast use Seq::lemma_flatten_push, Seq::filter_distributes_over_add;

    if ws.len() == 0 {
        assert(Seq::<Seq<char>>::empty().flatten() =~= Seq::<char>::empty());
        assert(Seq::<char>::empty() + Seq::<char>::empty() =~= Seq::<char>::empty());
        lemma_filter_unspaced_fixed(Seq::<char>::empty());
    } else {
        let q = ws.drop_last();
        let w = ws.last();
        assert forall|k: int| 0 <= k < q.len() implies !(#[trigger] q[k]).contains(' ') by {
            assert(q[k] == ws[k]);
        }
        lemma_wrap_fold_order(q, width);
        assert(q.push(w) =~= ws);
        assert(w == ws[ws.len() - 1]);
        lemma_filter_unspaced_fixed(w);
        let (out, line) = wrap_fold(q, width);
        lemma_hard_break_concat(w, width);
        let cs = hard_break(w, width).0;
        let r = hard_break(w, width).1;
        let f = unspaced();
        // what the words so far give, spaces taken out
        assert((out.flatten() + line).filter(f) == q.flatten());
        if line.len() == 0 {
            assert(out.flatten() + line =~= out.flatten());
            if w.len() <= width {
            } else {
                vstd::seq_lib::lemma_flatten_concat(out, cs);
                let a = out.flatten();
                let b = cs.flatten();
                assert((out + cs).flatten() == a + b);
                vstd::seq_lib::lemma_concat_associative(a, b, r);
                assert(b + r == w);
            }
        } else if line.len() + 1 + w.len() <= width {
            let sp = seq![' '];
            assert(sp.filter(f) =~= Seq::<char>::empty()) by {
                reveal(Seq::filter);
                assert(sp.drop_last() =~= Seq::<char>::empty());
                assert(Seq::<char>::empty().filter(f) =~= Seq::<char>::empty());
            }
            assert(line.push(' ') =~= line + sp);
            assert(out.flatten() + (line.push(' ') + w) =~= (out.flatten() + line) + sp + w);
        } else {
            let o2 = out.push(line);
            assert(o2.flatten() =~= out.flatten() + line);
            if w.len() <= width {
            } else {
                vstd::seq_lib::lemma_flatten_concat(o2, cs);
                let a = o2.flatten();
                let b = cs.flatten();
                assert((o2 + cs).flatten() == a + b);
                vstd::seq_lib::lemma_concat_associative(a, b, r);
                assert(b + r == w);
            }
        }
    }
}

/// Wrapping keeps every word, in order: with the spaces between them taken
/// out, the lines read as the words of the text run together (an over-long
/// word broken across lines reads whole again).
pub proof fn law_wrap_keeps_the_words(text: Seq<char>, width: usize)
    ensures
        wrapped(text, width).flatten().filter(unspaced()) == words(text).flatten(),
{
    broadcast use Seq::lemma_flatten_push, Seq::lemma_flatten_singleton;

    lemma_split_unspaced(text);
    let (ws0, cur) = crate::text::split_state(text);
    let ws = words(text);
    assert forall|k: int| 0 <= k < ws.len() implies !(#[trigger] ws[k]).contains(' ') by {
        if cur.len() > 0 && k == ws0.len() {
            assert(ws[k] == cur);
        } else {
            assert(ws[k] == ws0[k]);
        }
    }
    let width2 = wrap_width(width);
    lemma_wrap_fold_order(ws, width2);
    let (out, line) = wrap_fold(ws, width2);
    if line.len() > 0 {
        assert(out.push(line).flatten() =~= out.flatten() + line);
    } else {
        assert(out.flatten() + line =~= out.flatten());
        if out.len() == 0 {
            let one = seq![Seq::<char>::empty()];
            assert(one.flatten() == one[0]);
            assert(out.flatten() =~= Seq::<char>::empty());
        }
    }
}

proof fn lemma_split_nonempty(s: Seq<char>)
    ensures
        forall|k: int|
            0 <= k < crate::text::split_state(s).0.len() ==> (#[trigger] crate::text::split_state(
                s,
            ).0[k]).len() > 0,
        forall|i: int|
            0 <= i < s.len() && !is_ws(#[trigger] s[i]) ==> crate::text::split_state(s).0.len()
                + crate::text::split_state(s).1.len() > 0,
    decreases s.len(),
{
    if s.len() > 0 {
        let q = s.drop_last();
        lemma_split_nonempty(q);
        let (ws, cur) = crate::text::split_state(q);
        if is_ws(s.last()) && cur.len() > 0 {
            let n = ws.push(cur);
            assert forall|k: int| 0 <= k < n.len() implies (#[trigger] n[k]).len() > 0 by {
                if k < ws.len() {
                    assert(n[k] == ws[k]);
                }
            }
        }
        assert forall|i: int| 0 <= i < s.len() && !is_ws(#[trigger] s[i]) implies crate::text::split_state(
            s,
        ).0.len() + crate::text::split_state(s).1.len() > 0 by {
            if i < q.len() {
                assert(q[i] == s[i]);
            } else {
                assert(s[i] == s.last());
            }
        }
    }
}

/// A text with something in it that is not white space has a word, and no
/// word is empty.
pub proof fn lemma_words_nonempty(s: Seq<char>, i: int)
    requires
        0 <= i < s.len(),
        !is_ws(s[i]),
    ensures
        words(s).len() > 0,
        forall|k: int| 0 <= k < words(s).len() ==> (#[trigger] words(s)[k]).len() > 0,
{
    lemma_split_nonempty(s);
    let (ws, cur) = crate::text::split_state(s);
    assert(ws.len() + cur.len() > 0);
    if cur.len() > 0 {
        let n = ws.push(cur);
        assert forall|k: int| 0 <= k < n.len() implies (#[trigger] n[k]).len() > 0 by {
            if k < ws.len() {
                assert(n[k] == ws[k]);
            }
        }
    }
}

proof fn lemma_wrap_fold_nonempty(ws: Seq<Seq<char>>, width: nat)
    requires
        width > 0,
        forall|k: int| 0 <= k < ws.len() ==> (#[trigger] ws[k]).len() > 0,
    ensures
        forall|k: int|
            0 <= k < wrap_fold(ws, width).0.len() ==> (#[trigger] wrap_fold(ws, width).0[k]).len() > 0,
        ws.len() > 0 ==> wrap_fold(ws, width).0.len() + wrap_fold(ws, width).1.len() > 0,
    decreases ws.len(),
{
    if ws.len() > 0 {
        let q = ws.drop_last();
        assert forall|k: int| 0 <= k < q.len() implies (#[trigger] q[k]).len() > 0 by {
            assert(q[k] == ws[k]);
        }
        lemma_wrap_fold_nonempty(q, width);
        let (out, line) = wrap_fold(q, width);
        let w = ws.last();
        assert(w == ws[ws.len() - 1]);
        lemma_hard_break_fits(w, width);
        let cs = hard_break(w, width).0;
        let o2 = if line.len() == 0 || line.len() + 1 + w.len() <= width {
            out
        } else {
            out.push(line)
        };
        assert forall|k: int| 0 <= k < o2.len() implies (#[trigger] o2[k]).len() > 0 by {
            if k < out.len() {
                assert(o2[k] == out[k]);
            }
        }
        if w.len() > width {
            assert(cs.len() > 0);
            assert forall|k: int| 0 <= k < (o2 + cs).len() implies (#[trigger] (o2 + cs)[k]).len()
                > 0 by {
                if k < o2.len() {
                    assert((o2 + cs)[k] == o2[k]);
                } else {
                    assert((o2 + cs)[k] == cs[k - o2.len()]);
                }
            }
        }
    }
}

/// A text with a word in it wraps to lines that each hold something.
pub proof fn law_wrapped_lines_hold_something(text: Seq<char>, width: usize, i: int)
    requires
        0 <= i < text.len(),
        !is_ws(text[i]),
    ensures
        forall|k: int| 0 <= k < wrapped(text, width).len() ==> (#[trigger] wrapped(text, width)[k]).len()
            > 0,
{
    lemma_words_nonempty(text, i);
    let w2 = wrap_width(width);
    lemma_wrap_fold_nonempty(words(text), w2);
    let (out, line) = wrap_fold(words(text), w2);
    if line.len() > 0 {
        let all = out.push(line);
        assert forall|k: int| 0 <= k < all.len() implies (#[trigger] all[k]).len() > 0 by {
            if k < out.len() {
                assert(all[k] == out[k]);
            }
        }
    }
}

/// Break an over-long word onto new lines of `out`, returning the piece left
/// over.
fn break_word(out: &mut Vec<Vec<char>>, w: Vec<char>, width: usize) -> (r: Vec<char>)
    requires
        width > 0,
    ensures
        final(out)@.map_values(|l: Vec<char>| l@) == old(out)@.map_values(|l: Vec<char>| l@)
            + hard_break(w@, width as nat).0,
        r@ == hard_break(w@, width as nat).1,
{
    let mut rest = w;
    let ghost out0 = out@.map_values(|l: Vec<char>| l@);
    proof {
        assert(out@.map_values(|l: Vec<char>| l@) + hard_break(rest@, width as nat).0 =~= out0
            + hard_break(w@, width as nat).0);
    }
    while rest.len() > width
        invariant
            width > 0,
            out@.map_values(|l: Vec<char>| l@) + hard_break(rest@, width as nat).0 == out0
                + hard_break(w@, width as nat).0,
            hard_break(rest@, width as nat).1 == hard_break(w@, width as nat).1,
        decreases rest@.len(),
    {
        let chunk = slice_of(rest.as_slice(), 0, width);
        let next = slice_of(rest.as_slice(), width, rest.len());
        let ghost before = out@.map_values(|l: Vec<char>| l@);
        proof {
            assert(chunk@ =~= rest@.take(width as int));
            assert(next@ =~= rest@.skip(width as int));
        }
        out.push(chunk);
        proof {
            assert(out@.map_values(|l: Vec<char>| l@) =~= before.push(chunk@));
            let cs = hard_break(next@, width as nat).0;
            assert(before.push(chunk@) + cs =~= before + (seq![chunk@] + cs));
        }
        rest = next;
    }
    proof {
        assert(out@.map_values(|l: Vec<char>| l@) + seq![] =~= out@.map_values(
            |l: Vec<char>| l@,
        ));
    }
    rest
}

/// Greedy word wrap, on characters.
pub fn wrap_chars(text: &[char], width: usize) -> (r: Vec<Vec<char>>)
    ensures
        r@.map_values(|l: Vec<char>| l@) == wrapped(text@, width),
{
    let width = if width < 8 {
        8
    } else {
        width
    };
    let ws = split_words(text);
    let mut out: Vec<Vec<char>> = Vec::new();
    let mut line: Vec<char> = Vec::new();
    let mut i: usize = 0;
    let ghost wsv = ws@.map_values(|w: Vec<char>| w@);
    proof {
        assert(wsv.take(0) =~= Seq::<Seq<char>>::empty());
        assert(out@.map_values(|l: Vec<char>| l@) =~= Seq::<Seq<char>>::empty());
    }
    while i < ws.len()
        invariant
            width >= 8,
            i <= ws@.len(),
            wsv == ws@.map_values(|w: Vec<char>| w@),
            (out@.map_values(|l: Vec<char>| l@), line@) == wrap_fold(
                wsv.take(i as int),
                width as nat,
            ),
        decreases ws@.len() - i,
    {
        proof {
            assert(wsv.take(i + 1).drop_last() =~= wsv.take(i as int));
            assert(wsv.take(i + 1).last() == ws@[i as int]@);
        }
        let w = slice_of(ws[i].as_slice(), 0, ws[i].len());
        proof {
            assert(w@ =~= ws@[i as int]@);
            lemma_wrap_fold_fits(wsv.take(i as int), width as nat);
        }
        let llen = line.len();
        let wlen = w.len();
        if llen == 0 {
            if wlen <= width {
                line = w;
            } else {
                line = break_word(&mut out, w, width);
            }
        } else if llen < width && wlen <= width - llen - 1 {
            line.push(' ');
            push_all(&mut line, w.as_slice());
        } else {
            let ghost before = out@.map_values(|l: Vec<char>| l@);
            let done = line;
            out.push(done);
            proof {
                assert(out@.map_values(|l: Vec<char>| l@) =~= before.push(done@));
            }
            if wlen <= width {
                line = w;
            } else {
                line = break_word(&mut out, w, width);
            }
        }
        i = i + 1;
    }
    proof {
        assert(wsv.take(i as int) =~= wsv);
    }
    if line.len() > 0 {
        let ghost before = out@.map_values(|l: Vec<char>| l@);
        out.push(line);
        proof {
            assert(out@.map_values(|l: Vec<char>| l@) =~= before.push(wrap_fold(wsv, width as nat).1));
        }
    }
    if out.len() == 0 {
        out.push(Vec::new());
        proof {
            assert(out@.map_values(|l: Vec<char>| l@) =~= seq![Seq::<char>::empty()]);
        }
    }
    out
}

/// Greedy word wrap to `width` characters. Never splits a word shorter than
/// the column; over-long words are hard-broken so nothing runs off the page.
pub fn wrap(text: &str, width: usize) -> (r: Vec<String>)
    ensures
        r@.map_values(|l: String| l@) == wrapped(text@, width),
{
    let t = chars_of(text);
    let ls = wrap_chars(t.as_slice(), width);
    let mut out: Vec<String> = Vec::new();
    let mut i: usize = 0;
    while i < ls.len()
        invariant
            i <= ls@.len(),
            out@.map_values(|l: String| l@) == ls@.map_values(|l: Vec<char>| l@).take(i as int),
        decreases ls@.len() - i,
    {
        let ghost before = out@.map_values(|l: String| l@);
        let one = string_of(ls[i].as_slice());
        out.push(one);
        proof {
            assert(ls@.map_values(|l: Vec<char>| l@)[i as int] == ls@[i as int]@);
            assert(out@.map_values(|l: String| l@) =~= before.push(one@));
            assert(out@.map_values(|l: String| l@) =~= ls@.map_values(|l: Vec<char>| l@).take(
                i + 1,
            ));
        }
        i = i + 1;
    }
    proof {
        assert(ls@.map_values(|l: Vec<char>| l@).take(i as int) =~= ls@.map_values(
            |l: Vec<char>| l@,
        ));
    }
    out
}

} // verus!
