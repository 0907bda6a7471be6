//! Reading scripts written elsewhere.
//!
//! Fountain is the plain-text screenplay format Highland, Beat, Slugline and
//! afterwriting all speak; Final Draft's `.fdx` is the industry's XML. Both are
//! read into the same typed blocks Northstar writes, so an imported script is
//! an ordinary script from the moment it lands.
//!
//! Each reader is a single pass; its specification is the same pass written
//! as a fold over the lines (Fountain) or the paragraphs (Final Draft).

use vstd::prelude::*;

use crate::model::{
    empty_meta, max_id, upper_element, Block, BlockV, Document, Element, Meta, MetaV,
};
use crate::storage::{key_value, views};
use crate::text::{
    alphabetic, char_upper, chars_of, find, find_in_rest, has_prefix, has_suffix, index_of, index_of_char, is_alphabetic,
    is_str, lemma_index_of_char, lines, lower, push_all, push_str, replace, replace_chars, slice_of,
    split_lines, split_on, split_on_chars, split_words, upper_of_char, words,
    starts_with_str, string_of, to_lower, to_upper, trim, trim_by, trim_chars, trim_chars_by,
    trim_end_by, trim_end_chars_by, trim_start_by, trim_start_chars_by, upper, Strip,
};

verus! {

// ------------------------------------------------------------- comments --

/// Everything between each `open` and the next `close` taken out, the
/// markers included; an `open` with no `close` after it takes the rest.
pub open spec fn strip_between(s: Seq<char>, open: Seq<char>, close: Seq<char>) -> Seq<char>
    decreases s.len(),
{
    if open.len() == 0 {
        s
    } else {
        match find(s, open) {
            Some(a) => if 0 <= a && a + open.len() <= s.len() {
                let after = s.skip(a + open.len());
                s.take(a) + match find(after, close) {
                    Some(b) => if 0 <= b && b + close.len() <= after.len() {
                        strip_between(after.skip(b + close.len()), open, close)
                    } else {
                        seq![]
                    },
                    None => seq![],
                }
            } else {
                s
            },
            None => s,
        }
    }
}

fn strip_between_chars(s: &[char], open: &str, close: &str) -> (r: Vec<char>)
    requires
        open@.len() > 0,
    ensures
        r@ == strip_between(s@, open@, close@),
{
    let oc = chars_of(open);
    let cc = chars_of(close);
    let n = s.len();
    let mut out: Vec<char> = Vec::new();
    let mut pos: usize = 0;
    proof {
        assert(s@.skip(0) =~= s@);
    }
    loop
        invariant
            pos <= s@.len(),
            n == s@.len(),
            oc@ == open@,
            cc@ == close@,
            open@.len() > 0,
            out@ + strip_between(s@.skip(pos as int), open@, close@) == strip_between(
                s@,
                open@,
                close@,
            ),
        decreases s@.len() - pos,
    {
        let ghost rest = s@.skip(pos as int);
        match find_in_rest(s, oc.as_slice(), pos) {
            Some(a) => {
                let ghost before = out@;
                let piece = slice_of(s, pos, a);
                push_all(&mut out, piece.as_slice());
                let from = a + oc.len();
                proof {
                    assert(rest.take(a - pos) =~= piece@);
                    assert(rest.skip(a - pos + open@.len()) =~= s@.skip(from as int));
                }
                match find_in_rest(s, cc.as_slice(), from) {
                    Some(b) => {
                        proof {
                            let after = s@.skip(from as int);
                            assert(after.skip(b - from + close@.len()) =~= s@.skip(
                                b + close@.len(),
                            ));
                            assert(out@ + strip_between(s@.skip(b + close@.len()), open@, close@)
                                =~= before + (piece@ + strip_between(
                                s@.skip(b + close@.len()),
                                open@,
                                close@,
                            )));
                        }
                        pos = b + cc.len();
                    },
                    None => {
                        proof {
                            assert(piece@ + Seq::<char>::empty() =~= piece@);
                        }
                        return out;
                    },
                }
            },
            None => {
                let piece = slice_of(s, pos, n);
                push_all(&mut out, piece.as_slice());
                proof {
                    assert(rest =~= piece@);
                }
                return out;
            },
        }
    }
}

// ------------------------------------------------------------- headings --

/// `str::rfind` for one character.
pub open spec fn rfind_char(s: Seq<char>, c: char) -> Option<int>
    decreases s.len(),
{
    if s.len() == 0 {
        None
    } else if s.last() == c {
        Some(s.len() - 1)
    } else {
        rfind_char(s.drop_last(), c)
    }
}

pub(crate) proof fn lemma_rfind_char(s: Seq<char>, c: char)
    ensures
        rfind_char(s, c) matches Some(k) ==> 0 <= k < s.len() && s[k] == c && forall|j: int|
            k < j < s.len() ==> s[j] != c,
        rfind_char(s, c) is None ==> forall|j: int| 0 <= j < s.len() ==> s[j] != c,
    decreases s.len(),
{
    if s.len() > 0 && s.last() != c {
        lemma_rfind_char(s.drop_last(), c);
        assert forall|j: int| 0 <= j < s.len() - 1 implies s[j] == s.drop_last()[j] by {}
    }
}

pub(crate) fn rfind_in(s: &[char], c: char) -> (r: Option<usize>)
    ensures
        r matches Some(k) ==> rfind_char(s@, c) == Some(k as int),
        r is None ==> rfind_char(s@, c) is None,
{
    let mut i: usize = s.len();
    proof {
        assert(s@.take(i as int) =~= s@);
    }
    while i > 0
        invariant
            i <= s@.len(),
            rfind_char(s@, c) == rfind_char(s@.take(i as int), c),
        decreases i,
    {
        proof {
            assert(s@.take(i as int).drop_last() =~= s@.take(i - 1));
        }
        if s[i - 1] == c {
            return Some(i - 1);
        }
        i = i - 1;
    }
    proof {
        assert(s@.take(0).len() == 0);
    }
    None
}

/// A heading line without its trailing scene number (`#12A#`), in capitals.
pub open spec fn heading_cleaned(s: Seq<char>) -> Seq<char> {
    let t = trim(s);
    let kept = if t.len() > 0 && t.last() == '#' {
        match rfind_char(t.drop_last(), '#') {
            Some(k) => trim(t.take(k)),
            None => t,
        }
    } else {
        t
    };
    upper(kept)
}

fn clean_heading(s: &[char]) -> (r: Vec<char>)
    ensures
        r@ == heading_cleaned(s@),
{
    let t = trim_chars(s);
    let tn = t.len();
    if tn > 0 && t[tn - 1] == '#' {
        let head = slice_of(t.as_slice(), 0, tn - 1);
        proof {
            assert(head@ =~= t@.drop_last());
        }
        match rfind_in(head.as_slice(), '#') {
            Some(k) => {
                proof {
                    lemma_rfind_char(head@, '#');
                }
                let kept = slice_of(t.as_slice(), 0, k);
                let kept = trim_chars(kept.as_slice());
                proof {
                    assert(t@.take(k as int) =~= t@.subrange(0, k as int));
                }
                to_upper(kept.as_slice())
            },
            None => to_upper(t.as_slice()),
        }
    } else {
        to_upper(t.as_slice())
    }
}

/// The prefixes a scene heading starts with, in capitals.
pub open spec fn heading_prefix(u: Seq<char>) -> bool {
    ||| has_prefix(u, "INT."@)
    ||| has_prefix(u, "EXT."@)
    ||| has_prefix(u, "EST."@)
    ||| has_prefix(u, "INT./EXT."@)
    ||| has_prefix(u, "INT/EXT"@)
    ||| has_prefix(u, "I/E."@)
    ||| has_prefix(u, "I/E "@)
    ||| has_prefix(u, "INT "@)
    ||| has_prefix(u, "EXT "@)
    ||| has_prefix(u, "EST "@)
}

fn is_heading(u: &[char]) -> (r: bool)
    ensures
        r == heading_prefix(u@),
{
    starts_with_str(u, "INT.") || starts_with_str(u, "EXT.") || starts_with_str(u, "EST.")
        || starts_with_str(u, "INT./EXT.") || starts_with_str(u, "INT/EXT") || starts_with_str(
        u,
        "I/E.",
    ) || starts_with_str(u, "I/E ") || starts_with_str(u, "INT ") || starts_with_str(u, "EXT ")
        || starts_with_str(u, "EST ")
}

// ----------------------------------------------------------- title page --

/// How many bytes UTF-8 takes for `c`.
pub open spec fn utf8_width(c: char) -> nat {
    let n = c as u32;
    if n < 0x80 {
        1
    } else if n < 0x800 {
        2
    } else if n < 0x10000 {
        3
    } else {
        4
    }
}

/// `str::len`: the length in UTF-8 bytes.
pub open spec fn byte_len(s: Seq<char>) -> nat
    decreases s.len(),
{
    if s.len() == 0 {
        0
    } else {
        byte_len(s.drop_last()) + utf8_width(s.last())
    }
}

fn byte_len_below(s: &[char], limit: usize) -> (r: bool)
    ensures
        r == (byte_len(s@) < limit),
{
    if limit == 0 {
        return false;
    }
    let mut total: usize = 0;
    let mut i: usize = 0;
    proof {
        assert(s@.take(0) =~= Seq::<char>::empty());
    }
    while i < s.len()
        invariant
            i <= s@.len(),
            total == byte_len(s@.take(i as int)),
            total < limit,
        decreases s@.len() - i,
    {
        proof {
            assert(s@.take(i + 1).drop_last() =~= s@.take(i as int));
            lemma_byte_len_grows(s@, (i + 1) as int);
        }
        let n = s[i] as u32;
        let w: usize = if n < 0x80 {
            1
        } else if n < 0x800 {
            2
        } else if n < 0x10000 {
            3
        } else {
            4
        };
        if w >= limit - total {
            return false;
        }
        total = total + w;
        i = i + 1;
    }
    proof {
        assert(s@.take(i as int) =~= s@);
    }
    true
}

proof fn lemma_byte_len_grows(s: Seq<char>, n: int)
    requires
        0 <= n <= s.len(),
    ensures
        byte_len(s.take(n)) <= byte_len(s),
    decreases s.len() - n,
{
    if n < s.len() {
        lemma_byte_len_grows(s, n + 1);
        assert(s.take(n + 1).drop_last() =~= s.take(n));
    } else {
        assert(s.take(n) =~= s);
    }
}

/// A title-page line that starts a `Key: value` entry.
pub open spec fn looks_like_key(l: Seq<char>) -> bool {
    match key_value(l) {
        Some((k0, _)) => {
            let k = trim(k0);
            &&& k.len() > 0
            &&& !has_prefix(l, " "@)
            &&& !has_prefix(l, "\t"@)
            &&& forall|i: int| 0 <= i < k.len() ==> (alphabetic(#[trigger] k[i]) || k[i] == ' ')
            &&& byte_len(k) < 24
        },
        None => false,
    }
}

fn is_key_line(l: &[char]) -> (r: bool)
    ensures
        r == looks_like_key(l@),
{
    proof {
        lemma_index_of_char(l@, ':');
    }
    match index_of(l, ':') {
        Some(c) => {
            let k0 = slice_of(l, 0, c);
            let k = trim_chars(k0.as_slice());
            proof {
                assert(k0@ =~= l@.take(c as int));
            }
            if k.len() == 0 || starts_with_str(l, " ") || starts_with_str(l, "\t") {
                return false;
            }
            let mut i: usize = 0;
            while i < k.len()
                invariant
                    i <= k@.len(),
                    key_value(l@) is Some,
                    k@ == trim(key_value(l@).unwrap().0),
                    forall|j: int| 0 <= j < i ==> (alphabetic(#[trigger] k@[j]) || k@[j] == ' '),
                decreases k@.len() - i,
            {
                if !(is_alphabetic(k[i]) || k[i] == ' ') {
                    proof {
                        assert(!(alphabetic(k@[i as int]) || k@[i as int] == ' '));
                    }
                    return false;
                }
                i = i + 1;
            }
            byte_len_below(k.as_slice(), 24)
        },
        None => false,
    }
}

/// A title-page value added to a detail: joined to what is there by `, `,
/// its emphasis marks dropped.
pub open spec fn joined(old: Seq<char>, v: Seq<char>) -> Seq<char> {
    if old.len() > 0 {
        old + ", "@ + trim_by(v, Strip::Emphasis)
    } else {
        trim_by(v, Strip::Emphasis)
    }
}

/// One title-page entry applied to the details.
pub open spec fn title_entry(m: MetaV, k: Seq<char>, v: Seq<char>) -> MetaV {
    if v.len() == 0 {
        m
    } else if k == "title"@ {
        MetaV { title: joined(m.title, v), ..m }
    } else if k == "author"@ || k == "authors"@ {
        MetaV { author: joined(m.author, v), ..m }
    } else if k == "draft date"@ || k == "draft"@ || k == "date"@ {
        MetaV { draft: joined(m.draft, v), ..m }
    } else if k == "contact"@ {
        MetaV { contact: joined(m.contact, v), ..m }
    } else {
        m
    }
}

/// One title-page line read, with the key in force before it: the details
/// after it and the key in force after it. A line that is not a new entry
/// continues the one above.
pub open spec fn title_step(st: (MetaV, Seq<char>), l: Seq<char>) -> (MetaV, Seq<char>) {
    let (k, v) = if looks_like_key(l) {
        let (k0, v0) = key_value(l)->0;
        (lower(trim(k0)), trim(v0))
    } else {
        (st.1, trim(l))
    };
    (title_entry(st.0, k, v), k)
}

/// The title page read from line `from` up to line `n`.
pub open spec fn title_fold(ls: Seq<Seq<char>>, from: int, n: int) -> (MetaV, Seq<char>)
    decreases n - from,
{
    if n <= from || n > ls.len() {
        (empty_meta(), seq![])
    } else {
        title_step(title_fold(ls, from, n - 1), ls[n - 1])
    }
}

/// The first line from `i` on that is blank, or the end.
pub open spec fn blank_from(ls: Seq<Seq<char>>, i: int) -> int
    decreases ls.len() - i,
{
    if i >= ls.len() || trim(ls[i]).len() == 0 {
        i
    } else {
        blank_from(ls, i + 1)
    }
}

/// The first line that is not blank.
pub open spec fn first_text_line(ls: Seq<Seq<char>>) -> Option<int> {
    let i = blank_start(ls, 0);
    if i < ls.len() {
        Some(i)
    } else {
        None
    }
}

/// The first line from `i` on that is not blank, or the end.
pub open spec fn blank_start(ls: Seq<Seq<char>>, i: int) -> int
    decreases ls.len() - i,
{
    if i >= ls.len() || trim(ls[i]).len() > 0 {
        i
    } else {
        blank_start(ls, i + 1)
    }
}

/// The title page's details, and the line the script proper starts on.
pub open spec fn title_page_of(ls: Seq<Seq<char>>) -> (MetaV, nat) {
    match first_text_line(ls) {
        None => (empty_meta(), 0),
        Some(f) => if !looks_like_key(ls[f]) {
            (empty_meta(), 0)
        } else {
            let e = blank_from(ls, f);
            (title_fold(ls, f, e).0, e as nat)
        },
    }
}

proof fn lemma_blank_start(ls: Seq<Seq<char>>, i: int)
    requires
        0 <= i,
    ensures
        i <= blank_start(ls, i),
        i <= ls.len() ==> blank_start(ls, i) <= ls.len(),
        forall|j: int| i <= j < blank_start(ls, i) ==> trim(#[trigger] ls[j]).len() == 0,
        blank_start(ls, i) < ls.len() ==> trim(ls[blank_start(ls, i)]).len() > 0,
    decreases ls.len() - i,
{
    if !(i >= ls.len() || trim(ls[i]).len() > 0) {
        lemma_blank_start(ls, i + 1);
    }
}

proof fn lemma_blank_from(ls: Seq<Seq<char>>, i: int)
    requires
        0 <= i,
    ensures
        i <= blank_from(ls, i),
        i <= ls.len() ==> blank_from(ls, i) <= ls.len(),
        forall|j: int| i <= j < blank_from(ls, i) ==> trim(#[trigger] ls[j]).len() > 0,
        blank_from(ls, i) < ls.len() ==> trim(ls[blank_from(ls, i)]).len() == 0,
    decreases ls.len() - i,
{
    if !(i >= ls.len() || trim(ls[i]).len() == 0) {
        lemma_blank_from(ls, i + 1);
    }
}

/// The detail a title-page key fills, by number: 1 title, 2 author,
/// 3 draft, 4 contact, 0 none.
fn title_slot(k: &[char]) -> (r: u8)
    ensures
        r == 1 <==> k@ == "title"@,
        r == 2 <==> (k@ != "title"@ && (k@ == "author"@ || k@ == "authors"@)),
        r == 3 <==> (k@ != "title"@ && k@ != "author"@ && k@ != "authors"@ && (k@
            == "draft date"@ || k@ == "draft"@ || k@ == "date"@)),
        r == 4 <==> (k@ != "title"@ && k@ != "author"@ && k@ != "authors"@ && k@ != "draft date"@
            && k@ != "draft"@ && k@ != "date"@ && k@ == "contact"@),
        r <= 4,
{
    if is_str(k, "title") {
        1
    } else if is_str(k, "author") || is_str(k, "authors") {
        2
    } else if is_str(k, "draft date") || is_str(k, "draft") || is_str(k, "date") {
        3
    } else if is_str(k, "contact") {
        4
    } else {
        0
    }
}

fn join_into(dst: &mut Vec<char>, v: &[char])
    ensures
        final(dst)@ == joined(old(dst)@, v@),
{
    if dst.len() > 0 {
        push_str(dst, ", ");
    }
    let t = trim_chars_by(v, Strip::Emphasis);
    push_all(dst, t.as_slice());
}

/// The `Key: value` block at the head of a Fountain file, and where the
/// script proper starts.
fn title_page(ls: &Vec<Vec<char>>) -> (r: (Meta, usize))
    ensures
        r.0@ == title_page_of(ls@.map_values(|l: Vec<char>| l@)).0,
        r.1 == title_page_of(ls@.map_values(|l: Vec<char>| l@)).1,
        r.1 <= ls@.len(),
{
    let ghost lv = ls@.map_values(|l: Vec<char>| l@);
    let mut first: usize = 0;
    proof {
        lemma_blank_start(lv, 0);
    }
    while first < ls.len() && trim_chars(ls[first].as_slice()).len() == 0
        invariant
            first <= ls@.len(),
            lv == ls@.map_values(|l: Vec<char>| l@),
            blank_start(lv, 0) == blank_start(lv, first as int),
        decreases ls@.len() - first,
    {
        proof {
            assert(lv[first as int] == ls@[first as int]@);
        }
        first = first + 1;
    }
    proof {
        if first < ls@.len() {
            assert(lv[first as int] == ls@[first as int]@);
        }
    }
    if first == ls.len() || !is_key_line(ls[first].as_slice()) {
        return (Meta::default(), 0);
    }
    let mut title: Vec<char> = Vec::new();
    let mut author: Vec<char> = Vec::new();
    let mut draft: Vec<char> = Vec::new();
    let mut contact: Vec<char> = Vec::new();
    let mut key: Vec<char> = Vec::new();
    let mut i = first;
    proof {
        lemma_blank_from(lv, first as int);
    }
    while i < ls.len() && trim_chars(ls[i].as_slice()).len() > 0
        invariant
            first <= i <= ls@.len(),
            lv == ls@.map_values(|l: Vec<char>| l@),
            blank_from(lv, first as int) == blank_from(lv, i as int),
            ({
                let st = title_fold(lv, first as int, i as int);
                &&& title@ == st.0.title
                &&& author@ == st.0.author
                &&& draft@ == st.0.draft
                &&& contact@ == st.0.contact
                &&& !st.0.starred
                &&& key@ == st.1
            }),
        decreases ls@.len() - i,
    {
        let l = ls[i].as_slice();
        proof {
            assert(lv[i as int] == l@);
        }
        let v: Vec<char>;
        proof {
            lemma_index_of_char(l@, ':');
        }
        let colon = index_of(l, ':');
        if is_key_line(l) && colon.is_some() {
            let c = colon.unwrap();
            let ln = l.len();
            let k0 = slice_of(l, 0, c);
            let v0 = slice_of(l, c + 1, ln);
            proof {
                assert(k0@ =~= l@.take(c as int));
                assert(v0@ =~= l@.skip(c + 1));
            }
            let kt = trim_chars(k0.as_slice());
            key = to_lower(kt.as_slice());
            v = trim_chars(v0.as_slice());
        } else {
            v = trim_chars(l);
        }
        if v.len() > 0 {
            let slot = title_slot(key.as_slice());
            if slot == 1 {
                join_into(&mut title, v.as_slice());
            } else if slot == 2 {
                join_into(&mut author, v.as_slice());
            } else if slot == 3 {
                join_into(&mut draft, v.as_slice());
            } else if slot == 4 {
                join_into(&mut contact, v.as_slice());
            }
        }
        i = i + 1;
    }
    proof {
        assert(first_text_line(lv) == Some(first as int));
        if i < ls@.len() {
            assert(lv[i as int] == ls@[i as int]@);
        }
    }
    let meta = Meta {
        title: string_of(title.as_slice()),
        author: string_of(author.as_slice()),
        contact: string_of(contact.as_slice()),
        draft: string_of(draft.as_slice()),
        starred: false,
    };
    (meta, i)
}


// ----------------------------------------------------------------- body --

/// Where a Fountain reading stands after some lines: the blocks so far, the
/// id the next block gets, whether the line above was blank, and whether a
/// character's speech is running.
pub ghost struct Reading {
    pub blocks: Seq<BlockV>,
    pub next: nat,
    pub prev_blank: bool,
    pub speaking: bool,
}

/// A reading with one more block, of element `e` and text `t`.
pub open spec fn with_block(st: Reading, e: Element, t: Seq<char>, speaking: bool) -> Reading {
    Reading {
        blocks: st.blocks.push(
            BlockV { id: st.next as u64, element: e, text: t, note: seq![], tint: None },
        ),
        next: st.next + 1,
        prev_blank: false,
        speaking,
    }
}

/// The last scene heading among the blocks.
pub open spec fn last_heading(bs: Seq<BlockV>) -> Option<int>
    decreases bs.len(),
{
    if bs.len() == 0 {
        None
    } else if bs.last().element == Element::SceneHeading {
        Some(bs.len() - 1)
    } else {
        last_heading(bs.drop_last())
    }
}

proof fn lemma_last_heading(bs: Seq<BlockV>)
    ensures
        last_heading(bs) matches Some(h) ==> 0 <= h < bs.len() && bs[h].element
            == Element::SceneHeading,
    decreases bs.len(),
{
    if bs.len() > 0 && bs.last().element != Element::SceneHeading {
        lemma_last_heading(bs.drop_last());
    }
}

/// A synopsis line added to the card of the last scene heading, after a
/// space where the card already says something.
pub open spec fn with_synopsis(bs: Seq<BlockV>, note: Seq<char>) -> Seq<BlockV> {
    match last_heading(bs) {
        Some(h) => {
            let b = bs[h];
            bs.update(
                h,
                BlockV {
                    note: if b.note.len() == 0 {
                        note
                    } else {
                        b.note + seq![' '] + note
                    },
                    ..b
                },
            )
        },
        None => bs,
    }
}

/// Some letter in `s`.
pub open spec fn has_letter(s: Seq<char>) -> bool {
    exists|i: int| 0 <= i < s.len() && alphabetic(#[trigger] s[i])
}

/// One trimmed line of the script read, `next_blank` saying whether the
/// line under it is blank (or missing). The rules are Fountain 1.1's, in its
/// order of precedence.
pub open spec fn fountain_step(st: Reading, line: Seq<char>, next_blank: bool) -> Reading {
    if line.len() == 0 {
        Reading { prev_blank: true, speaking: false, ..st }
    } else if st.speaking {
        if line[0] == '(' && line.last() == ')' {
            with_block(st, Element::Parenthetical, line, true)
        } else if st.blocks.len() > 0 && st.blocks.last().element == Element::Dialogue {
            let b = st.blocks.last();
            Reading {
                blocks: st.blocks.update(
                    st.blocks.len() - 1,
                    BlockV { text: b.text + seq![' '] + line, ..b },
                ),
                prev_blank: false,
                ..st
            }
        } else {
            with_block(st, Element::Dialogue, line, true)
        }
    } else if line[0] == '=' {
        let rest = line.drop_first();
        Reading {
            blocks: if has_prefix(rest, "=="@) {
                st.blocks
            } else {
                with_synopsis(st.blocks, trim(rest))
            },
            prev_blank: false,
            ..st
        }
    } else if line[0] == '#' {
        Reading { prev_blank: false, ..st }
    } else if line[0] == '!' {
        with_block(st, Element::Action, trim(line.drop_first()), false)
    } else if line[0] == '.' && !has_prefix(line, ".."@) && line.len() > 1 {
        with_block(st, Element::SceneHeading, heading_cleaned(line.drop_first()), false)
    } else if line[0] == '>' {
        let rest = trim(line.drop_first());
        if rest.len() > 0 && rest.last() == '<' {
            with_block(st, Element::Action, trim(rest.drop_last()), false)
        } else {
            with_block(st, Element::Transition, upper(rest), false)
        }
    } else if line[0] == '@' {
        with_block(
            st,
            Element::Character,
            upper(trim(trim_end_by(trim(line.drop_first()), Strip::Caret))),
            true,
        )
    } else {
        let k = plain_kind(line, upper(line), st.prev_blank, next_blank);
        if k == Element::SceneHeading {
            with_block(st, Element::SceneHeading, heading_cleaned(line), false)
        } else if k == Element::Transition {
            with_block(st, Element::Transition, line, false)
        } else if k == Element::Character {
            with_block(st, Element::Character, trim(trim_end_by(line, Strip::Caret)), true)
        } else {
            with_block(st, Element::Action, trim(trim_start_by(line, Strip::Tilde)), false)
        }
    }
}

/// What a trimmed line that no mark forces is, given its capitals and the
/// blank lines around it: a scene heading by its prefix after a blank line;
/// a transition in capitals ending `TO:` between blank lines; a character in
/// capitals, with a letter, after a blank line and with something under it;
/// else action.
pub open spec fn plain_kind(line: Seq<char>, capitals: Seq<char>, prev_blank: bool, next_blank: bool) -> Element {
    if prev_blank && heading_prefix(capitals) {
        Element::SceneHeading
    } else if prev_blank && next_blank && capitals == line && has_suffix(line, "TO:"@) {
        Element::Transition
    } else if prev_blank && !next_blank && capitals == line && has_letter(line) {
        Element::Character
    } else {
        Element::Action
    }
}

/// Reading a speech: a line opening with `@`, read outside a speech, is a
/// character cue and opens one; the line straight under it, unless it is a
/// parenthetical, is the cue's dialogue, and a parenthetical stays in the
/// speech.
pub proof fn law_a_cue_line_opens_its_speech(st: Reading, cue: Seq<char>, next: Seq<char>, nb: bool)
    requires
        !st.speaking,
        cue.len() > 0,
        cue[0] == '@',
        next.len() > 0,
    ensures
        fountain_step(st, cue, false).speaking,
        fountain_step(st, cue, false).blocks.last().element == Element::Character,
        fountain_step(st, cue, false).blocks.len() == st.blocks.len() + 1,
        ({
            let st2 = fountain_step(fountain_step(st, cue, false), next, nb);
            &&& st2.blocks.len() == st.blocks.len() + 2
            &&& st2.blocks.last().element == (if next[0] == '(' && next.last() == ')' {
                Element::Parenthetical
            } else {
                Element::Dialogue
            })
            &&& st2.speaking
        }),
{
}

/// Whether the line after line `n - 1`, i.e. line `n`, is blank or missing.
pub open spec fn next_blank_at(ls: Seq<Seq<char>>, n: int) -> bool {
    n >= ls.len() || trim(ls[n]).len() == 0
}

/// The script's lines from `from` up to `n` read.
pub open spec fn fountain_run(ls: Seq<Seq<char>>, from: int, n: int) -> Reading
    decreases n - from,
{
    if n <= from || n > ls.len() {
        Reading { blocks: seq![], next: 2, prev_blank: true, speaking: false }
    } else {
        fountain_step(fountain_run(ls, from, n - 1), trim(ls[n - 1]), next_blank_at(ls, n))
    }
}

/// A Fountain file's lines, boneyard (`/* */`) and notes (`[[ ]]`) taken out.
pub open spec fn fountain_lines(text: Seq<char>) -> Seq<Seq<char>> {
    lines(strip_between(strip_between(text, "/*"@, "*/"@), "[["@, "]]"@))
}

/// The title-page details of a Fountain file.
pub open spec fn fountain_meta(text: Seq<char>) -> MetaV {
    title_page_of(fountain_lines(text)).0
}

/// The blocks of a Fountain file; an empty scene heading if it has none.
pub open spec fn fountain_blocks(text: Seq<char>) -> Seq<BlockV> {
    let ls = fountain_lines(text);
    let st = fountain_run(ls, title_page_of(ls).1 as int, ls.len() as int);
    if st.blocks.len() == 0 {
        seq![
            BlockV {
                id: st.next as u64,
                element: Element::SceneHeading,
                text: seq![],
                note: seq![],
                tint: None,
            },
        ]
    } else {
        st.blocks
    }
}

proof fn lemma_strip_between_len(s: Seq<char>, open: Seq<char>, close: Seq<char>)
    ensures
        strip_between(s, open, close).len() <= s.len(),
    decreases s.len(),
{
    if open.len() > 0 {
        if let Some(a) = find(s, open) {
            if 0 <= a && a + open.len() <= s.len() {
                let after = s.skip(a + open.len());
                if let Some(b) = find(after, close) {
                    if 0 <= b && b + close.len() <= after.len() {
                        lemma_strip_between_len(after.skip(b + close.len()), open, close);
                    }
                }
            }
        }
    }
}

proof fn lemma_run_ids(ls: Seq<Seq<char>>, from: int, n: int)
    requires
        0 <= from,
    ensures
        ({
            let st = fountain_run(ls, from, n);
            &&& 2 <= st.next
            &&& st.next <= 2 + (if n > from {
                n - from
            } else {
                0
            })
            &&& forall|i: int| 0 <= i < st.blocks.len() ==> #[trigger] st.blocks[i].id < st.next
        }),
    decreases n - from,
{
    if !(n <= from || n > ls.len()) {
        lemma_run_ids(ls, from, n - 1);
        let st = fountain_run(ls, from, n - 1);
        let st2 = fountain_run(ls, from, n);
        lemma_last_heading(st.blocks);
        assert forall|i: int| 0 <= i < st2.blocks.len() implies #[trigger] st2.blocks[i].id
            < st2.next by {
            if i < st.blocks.len() {
                assert(st2.blocks[i].id == st.blocks[i].id);
            }
        }
    }
}

/// A block appended, its view spelled out.
fn push_block(doc: &mut Document, e: Element, t: &[char])
    requires
        old(doc).counter() < u64::MAX,
    ensures
        views(final(doc).blocks@) == views(old(doc).blocks@).push(
            BlockV { id: old(doc).counter(), element: e, text: t@, note: seq![], tint: None },
        ),
        final(doc).counter() == old(doc).counter() + 1,
        final(doc).meta == old(doc).meta,
{
    let s = string_of(t);
    doc.push(e, s.as_str());
    proof {
        let nb = doc.blocks@.last();
        assert(nb.note@ =~= Seq::<char>::empty());
        assert(nb@ == BlockV {
            id: old(doc).counter(),
            element: e,
            text: t@,
            note: seq![],
            tint: None,
        });
        assert forall|i: int| 0 <= i < old(doc).blocks@.len() implies doc.blocks@[i]
            == old(doc).blocks@[i] by {
            assert(doc.blocks@.drop_last()[i] == doc.blocks@[i]);
        }
        assert(views(doc.blocks@) =~= views(old(doc).blocks@).push(nb@));
    }
}

/// A dialogue line joined to the speech above it.
fn extend_last(doc: &mut Document, line: &[char])
    requires
        old(doc).blocks@.len() > 0,
    ensures
        ({
            let bs = views(old(doc).blocks@);
            let b = bs.last();
            views(final(doc).blocks@) == bs.update(
                bs.len() - 1,
                BlockV { text: b.text + seq![' '] + line@, ..b },
            )
        }),
        final(doc).counter() == old(doc).counter(),
        final(doc).meta == old(doc).meta,
{
    let k = doc.blocks.len() - 1;
    let mut t = chars_of(doc.blocks[k].text.as_str());
    t.push(' ');
    push_all(&mut t, line);
    let nb = doc.blocks[k].with_text(string_of(t.as_slice()));
    doc.blocks.set(k, nb);
    proof {
        let bs = views(old(doc).blocks@);
        let b = bs.last();
        assert(b == old(doc).blocks@[k as int]@);
        assert(nb.text@ =~= b.text + seq![' '] + line@);
        assert(nb@ == BlockV { text: b.text + seq![' '] + line@, ..b });
        assert(views(doc.blocks@) =~= bs.update(bs.len() - 1, nb@));
    }
}

/// A synopsis line put on the card of the last scene heading.
fn add_synopsis(doc: &mut Document, note: &[char])
    ensures
        views(final(doc).blocks@) == with_synopsis(views(old(doc).blocks@), note@),
        final(doc).counter() == old(doc).counter(),
        final(doc).meta == old(doc).meta,
{
    let ghost bs = views(doc.blocks@);
    let mut k: usize = doc.blocks.len();
    proof {
        assert(bs.take(k as int) =~= bs);
    }
    while k > 0 && doc.blocks[k - 1].element != Element::SceneHeading
        invariant
            k <= doc.blocks@.len(),
            bs == views(doc.blocks@),
            last_heading(bs) == last_heading(bs.take(k as int)),
        decreases k,
    {
        proof {
            assert(bs.take(k as int).drop_last() =~= bs.take(k - 1));
            assert(bs[k - 1] == doc.blocks@[k - 1]@);
        }
        k = k - 1;
    }
    if k == 0 {
        proof {
            assert(bs.take(0).len() == 0);
        }
        return;
    }
    let h = k - 1;
    proof {
        assert(bs[h as int] == doc.blocks@[h as int]@);
        assert(last_heading(bs.take(k as int)) == Some(h as int));
    }
    let b = &doc.blocks[h];
    let mut n = chars_of(b.note.as_str());
    if n.len() > 0 {
        n.push(' ');
    }
    push_all(&mut n, note);
    let nb = Block {
        id: b.id,
        element: b.element,
        text: b.text.clone(),
        note: string_of(n.as_slice()),
        tint: b.tint,
    };
    doc.blocks.set(h, nb);
    proof {
        let ob = bs[h as int];
        assert(n@ =~= (if ob.note.len() == 0 {
            note@
        } else {
            ob.note + seq![' '] + note@
        }));
        assert(views(doc.blocks@) =~= bs.update(h as int, nb@));
    }
}

fn any_letter(s: &[char]) -> (r: bool)
    ensures
        r == has_letter(s@),
{
    let mut i: usize = 0;
    while i < s.len()
        invariant
            i <= s@.len(),
            forall|j: int| 0 <= j < i ==> !alphabetic(#[trigger] s@[j]),
        decreases s@.len() - i,
    {
        if is_alphabetic(s[i]) {
            return true;
        }
        i = i + 1;
    }
    false
}

/// One trimmed line read into the document; the flags after it.
fn read_fountain_line(
    doc: &mut Document,
    prev_blank: bool,
    speaking: bool,
    line: &[char],
    next_blank: bool,
) -> (r: (bool, bool))
    requires
        old(doc).counter() < u64::MAX,
    ensures
        ({
            let st = Reading {
                blocks: views(old(doc).blocks@),
                next: old(doc).counter() as nat,
                prev_blank,
                speaking,
            };
            let st2 = fountain_step(st, line@, next_blank);
            &&& views(final(doc).blocks@) == st2.blocks
            &&& final(doc).counter() == st2.next
            &&& r.0 == st2.prev_blank
            &&& r.1 == st2.speaking
        }),
        final(doc).meta == old(doc).meta,
{
    let n = line.len();
    if n == 0 {
        return (true, false);
    }
    let c = line[0];
    if speaking {
        if c == '(' && line[n - 1] == ')' {
            push_block(doc, Element::Parenthetical, line);
        } else if doc.blocks.len() > 0 && doc.blocks[doc.blocks.len() - 1].element
            == Element::Dialogue {
            proof {
                assert(views(doc.blocks@).last() == doc.blocks@.last()@);
            }
            extend_last(doc, line);
        } else {
            proof {
                if doc.blocks@.len() > 0 {
                    assert(views(doc.blocks@).last() == doc.blocks@.last()@);
                }
            }
            push_block(doc, Element::Dialogue, line);
        }
        return (false, true);
    }
    let rest = slice_of(line, 1, n);
    proof {
        assert(rest@ =~= line@.drop_first());
    }
    if c == '=' {
        if !starts_with_str(rest.as_slice(), "==") {
            let note = trim_chars(rest.as_slice());
            add_synopsis(doc, note.as_slice());
        }
        return (false, false);
    }
    if c == '#' {
        return (false, false);
    }
    if c == '!' {
        let t = trim_chars(rest.as_slice());
        push_block(doc, Element::Action, t.as_slice());
        return (false, false);
    }
    if c == '.' && !starts_with_str(line, "..") && n > 1 {
        let t = clean_heading(rest.as_slice());
        push_block(doc, Element::SceneHeading, t.as_slice());
        return (false, false);
    }
    if c == '>' {
        let t = trim_chars(rest.as_slice());
        let tn = t.len();
        if tn > 0 && t[tn - 1] == '<' {
            let inner = slice_of(t.as_slice(), 0, tn - 1);
            let inner = trim_chars(inner.as_slice());
            proof {
                assert(t@.subrange(0, tn - 1) =~= t@.drop_last());
            }
            push_block(doc, Element::Action, inner.as_slice());
        } else {
            let u = to_upper(t.as_slice());
            push_block(doc, Element::Transition, u.as_slice());
        }
        return (false, false);
    }
    if c == '@' {
        let t = trim_chars(rest.as_slice());
        let t = trim_end_chars_by(t.as_slice(), Strip::Caret);
        let t = trim_chars(t.as_slice());
        let u = to_upper(t.as_slice());
        push_block(doc, Element::Character, u.as_slice());
        return (false, true);
    }
    let up = to_upper(line);
    let k = plain_line(
        string_of(line).as_str(),
        string_of(up.as_slice()).as_str(),
        prev_blank,
        next_blank,
    );
    if k == Element::SceneHeading {
        let t = clean_heading(line);
        push_block(doc, Element::SceneHeading, t.as_slice());
        (false, false)
    } else if k == Element::Transition {
        push_block(doc, Element::Transition, line);
        (false, false)
    } else if k == Element::Character {
        let t = trim_end_chars_by(line, Strip::Caret);
        let t = trim_chars(t.as_slice());
        push_block(doc, Element::Character, t.as_slice());
        (false, true)
    } else {
        let t = trim_start_chars_by(line, Strip::Tilde);
        let t = trim_chars(t.as_slice());
        push_block(doc, Element::Action, t.as_slice());
        (false, false)
    }
}

/// What a trimmed Fountain line that no mark forces is, given its capitals
/// and whether the lines above and below it are blank.
pub fn plain_line(line: &str, capitals: &str, prev_blank: bool, next_blank: bool) -> (r: Element)
    ensures
        r == plain_kind(line@, capitals@, prev_blank, next_blank),
{
    let l = chars_of(line);
    let u = chars_of(capitals);
    let same_case = crate::text::same(u.as_slice(), l.as_slice());
    if prev_blank && is_heading(u.as_slice()) {
        Element::SceneHeading
    } else if prev_blank && next_blank && same_case && crate::text::ends_with_str(l.as_slice(), "TO:") {
        Element::Transition
    } else if prev_blank && !next_blank && same_case && any_letter(l.as_slice()) {
        Element::Character
    } else {
        Element::Action
    }
}

/// Parse a Fountain document.
///
/// The rules followed are Fountain 1.1's, in its order of precedence: forced
/// elements (`.`, `@`, `>`, `!`) first, then scene headings by their prefix,
/// transitions by their `TO:`, and characters as an all-caps line after a
/// blank one with something straight under it. Notes, boneyard and section
/// markers are dropped; synopses (`= ...`) become the scene's card.
pub fn parse(text: &str) -> (r: Document)
    requires
        text@.len() <= isize::MAX,
    ensures
        r.meta@ == fountain_meta(text@),
        views(r.blocks@) == fountain_blocks(text@),
        r.ids_fresh(),
        r.counter() == max_id(r.blocks@) + 1,
{
    proof {
        reveal_strlit("/*");
        reveal_strlit("[[");
    }
    let raw = chars_of(text);
    let a = strip_between_chars(raw.as_slice(), "/*", "*/");
    let b = strip_between_chars(a.as_slice(), "[[", "]]");
    let ls = split_lines(b.as_slice());
    let ghost lv = ls@.map_values(|l: Vec<char>| l@);
    proof {
        lemma_strip_between_len(raw@, "/*"@, "*/"@);
        lemma_strip_between_len(a@, "[["@, "]]"@);
        crate::text::lemma_lines_len(b@);
        assert(lv == fountain_lines(text@));
    }
    let (meta, from) = title_page(&ls);
    let ghost m0 = meta;
    let mut doc = Document { meta, blocks: Vec::new(), next_id: 2 };
    let mut i = from;
    let mut prev_blank = true;
    let mut speaking = false;
    proof {
        assert(views(doc.blocks@) =~= Seq::<BlockV>::empty());
    }
    while i < ls.len()
        invariant
            from <= i <= ls@.len(),
            lv == ls@.map_values(|l: Vec<char>| l@),
            ls@.len() <= isize::MAX,
            doc.meta == m0,
            ({
                let st = fountain_run(lv, from as int, i as int);
                &&& views(doc.blocks@) == st.blocks
                &&& doc.counter() == st.next
                &&& prev_blank == st.prev_blank
                &&& speaking == st.speaking
            }),
        decreases ls@.len() - i,
    {
        proof {
            lemma_run_ids(lv, from as int, i as int);
            assert(lv[i as int] == ls@[i as int]@);
            if i + 1 < ls@.len() {
                assert(lv[i + 1] == ls@[i + 1]@);
            }
        }
        let line = trim_chars(ls[i].as_slice());
        let next_blank = if i + 1 < ls.len() {
            trim_chars(ls[i + 1].as_slice()).len() == 0
        } else {
            true
        };
        let (pb, sp) = read_fountain_line(&mut doc, prev_blank, speaking, line.as_slice(), next_blank);
        prev_blank = pb;
        speaking = sp;
        i = i + 1;
    }
    proof {
        lemma_run_ids(lv, from as int, i as int);
        assert(from == title_page_of(lv).1);
    }
    let ghost st = fountain_run(lv, from as int, i as int);
    doc.ensure_not_empty();
    proof {
        assert(st.next < u64::MAX);
        if st.blocks.len() == 0 {
            assert(views(doc.blocks@) =~= seq![doc.blocks@[0]@]);
            assert(doc.blocks@[0].note@ =~= Seq::<char>::empty());
            assert(doc.blocks@[0].text@ =~= Seq::<char>::empty());
        }
        assert(views(doc.blocks@) == fountain_blocks(text@));
        assert forall|j: int| 0 <= j < doc.blocks@.len() implies doc.blocks@[j].id < u64::MAX by {
            if st.blocks.len() > 0 {
                assert(views(doc.blocks@)[j] == doc.blocks@[j]@);
                assert(st.blocks[j].id < st.next);
            }
        }
    }
    doc.reseed_ids();
    doc
}

// ---------------------------------------------------------- final draft --

/// XML's five entities (and `&#39;`) turned back into their characters,
/// `&amp;` last so that an escaped entity stays escaped once.
pub open spec fn unescaped(s: Seq<char>) -> Seq<char> {
    replace(
        replace(
            replace(
                replace(replace(replace(s, "&lt;"@, "<"@), "&gt;"@, ">"@), "&quot;"@, "\""@),
                "&apos;"@,
                "'"@,
            ),
            "&#39;"@,
            "'"@,
        ),
        "&amp;"@,
        "&"@,
    )
}

fn unescape(s: &[char]) -> (r: Vec<char>)
    ensures
        r@ == unescaped(s@),
{
    proof {
        reveal_strlit("&lt;");
        reveal_strlit("&gt;");
        reveal_strlit("&quot;");
        reveal_strlit("&apos;");
        reveal_strlit("&#39;");
        reveal_strlit("&amp;");
    }
    let a = replace_chars(s, "&lt;", "<");
    let b = replace_chars(a.as_slice(), "&gt;", ">");
    let c = replace_chars(b.as_slice(), "&quot;", "\"");
    let d = replace_chars(c.as_slice(), "&apos;", "'");
    let e = replace_chars(d.as_slice(), "&#39;", "'");
    replace_chars(e.as_slice(), "&amp;", "&")
}

/// Every `<Text ...>...</Text>` in `s`, unescaped and joined; an empty
/// `<Text/>` contributes nothing, and an unclosed one ends the reading.
pub open spec fn texts_of(s: Seq<char>) -> Seq<char>
    decreases s.len(),
{
    match find(s, "<Text"@) {
        Some(a) => if 0 <= a && a < s.len() {
            let after = s.skip(a);
            match find(after, ">"@) {
                Some(oe) => if 0 <= oe && oe < after.len() {
                    if oe > 0 && after[oe - 1] == '/' {
                        texts_of(after.skip(oe + 1))
                    } else {
                        let body = after.skip(oe + 1);
                        match find(body, "</Text>"@) {
                            Some(c) => if 0 <= c && c + 7 <= body.len() {
                                unescaped(body.take(c)) + texts_of(body.skip(c + 7))
                            } else {
                                seq![]
                            },
                            None => seq![],
                        }
                    }
                } else {
                    seq![]
                },
                None => seq![],
            }
        } else {
            seq![]
        },
        None => seq![],
    }
}

fn texts(s: &[char]) -> (r: Vec<char>)
    ensures
        r@ == texts_of(s@),
{
    proof {
        reveal_strlit("<Text");
        reveal_strlit(">");
        reveal_strlit("</Text>");
    }
    let open = chars_of("<Text");
    let gt = chars_of(">");
    let close = chars_of("</Text>");
    let n = s.len();
    let mut out: Vec<char> = Vec::new();
    let mut pos: usize = 0;
    proof {
        assert(s@.skip(0) =~= s@);
    }
    loop
        invariant
            pos <= s@.len(),
            n == s@.len(),
            open@ == "<Text"@,
            gt@ == ">"@,
            close@ == "</Text>"@,
            gt@.len() == 1,
            close@.len() == 7,
            out@ + texts_of(s@.skip(pos as int)) == texts_of(s@),
        decreases s@.len() - pos,
    {
        let ghost rest = s@.skip(pos as int);
        let a = match find_in_rest(s, open.as_slice(), pos) {
            Some(a) => a,
            None => {
                proof {
                    assert(out@ + Seq::<char>::empty() =~= out@);
                }
                return out;
            },
        };
        proof {
            assert(rest.skip(a - pos) =~= s@.skip(a as int));
        }
        let oe = match find_in_rest(s, gt.as_slice(), a) {
            Some(oe) => oe,
            None => {
                proof {
                    assert(out@ + Seq::<char>::empty() =~= out@);
                }
                return out;
            },
        };
        let ghost after = s@.skip(a as int);
        proof {
            assert(after.skip(oe - a + 1) =~= s@.skip(oe + 1));
            if oe > a {
                assert(after[oe - a - 1] == s@[oe - 1]);
            }
        }
        if oe > a && s[oe - 1] == '/' {
            pos = oe + 1;
        } else {
            let c = match find_in_rest(s, close.as_slice(), oe + 1) {
                Some(c) => c,
                None => {
                    proof {
                        assert(out@ + Seq::<char>::empty() =~= out@);
                    }
                    return out;
                },
            };
            let ghost body = s@.skip(oe + 1);
            let ghost before = out@;
            let piece = slice_of(s, oe + 1, c);
            let u = unescape(piece.as_slice());
            push_all(&mut out, u.as_slice());
            proof {
                assert(body.take(c - oe - 1) =~= piece@);
                assert(body.skip(c - oe - 1 + 7) =~= s@.skip(c + 7));
                assert(out@ + texts_of(s@.skip(c + 7)) =~= before + (u@ + texts_of(
                    s@.skip(c + 7),
                )));
            }
            pos = c + 7;
        }
    }
}

/// The value of attribute `name` in a tag, if it has one.
pub open spec fn attr_of(tag: Seq<char>, name: Seq<char>) -> Option<Seq<char>> {
    let key = name + "=\""@;
    match find(tag, key) {
        Some(a0) => {
            let a = a0 + key.len();
            match find(tag.skip(a), "\""@) {
                Some(b0) => Some(tag.subrange(a, a + b0)),
                None => None,
            }
        },
        None => None,
    }
}

fn attr(tag: &[char], name: &str) -> (r: Option<Vec<char>>)
    ensures
        r matches Some(v) ==> attr_of(tag@, name@) == Some(v@),
        r is None ==> attr_of(tag@, name@) is None,
{
    let mut key = chars_of(name);
    push_str(&mut key, "=\"");
    let q = chars_of("\"");
    let _n = tag.len();
    match find_in_rest(tag, key.as_slice(), 0) {
        Some(a0) => {
            proof {
                assert(tag@.skip(0) =~= tag@);
            }
            let a = a0 + key.len();
            match find_in_rest(tag, q.as_slice(), a) {
                Some(b) => Some(slice_of(tag, a, b)),
                None => None,
            }
        },
        None => {
            proof {
                assert(tag@.skip(0) =~= tag@);
            }
            None
        },
    }
}

/// What lies between the first `open` and the next `close` after it.
pub open spec fn section_of(s: Seq<char>, open: Seq<char>, close: Seq<char>) -> Option<Seq<char>> {
    match find(s, open) {
        Some(a0) => {
            let a = a0 + open.len();
            match find(s.skip(a), close) {
                Some(b0) => Some(s.subrange(a, a + b0)),
                None => None,
            }
        },
        None => None,
    }
}

fn section(s: &[char], open: &str, close: &str) -> (r: Option<Vec<char>>)
    ensures
        r matches Some(v) ==> section_of(s@, open@, close@) == Some(v@),
        r is None ==> section_of(s@, open@, close@) is None,
{
    let oc = chars_of(open);
    let cc = chars_of(close);
    let _n = s.len();
    proof {
        assert(s@.skip(0) =~= s@);
    }
    match find_in_rest(s, oc.as_slice(), 0) {
        Some(a0) => {
            let a = a0 + oc.len();
            match find_in_rest(s, cc.as_slice(), a) {
                Some(b) => Some(slice_of(s, a, b)),
                None => None,
            }
        },
        None => None,
    }
}

/// The element a Final Draft paragraph type maps to; what Northstar does not
/// have (General, Cast List...) is action.
pub open spec fn fdx_element(kind: Seq<char>) -> Element {
    if kind == "Scene Heading"@ {
        Element::SceneHeading
    } else if kind == "Character"@ {
        Element::Character
    } else if kind == "Parenthetical"@ {
        Element::Parenthetical
    } else if kind == "Dialogue"@ {
        Element::Dialogue
    } else if kind == "Transition"@ {
        Element::Transition
    } else if kind == "Shot"@ {
        Element::Shot
    } else {
        Element::Action
    }
}

/// Paragraph types map one to one: the type written for an element reads
/// back as that element.
pub proof fn law_fdx_kinds_map_one_to_one(e: Element)
    ensures
        fdx_element(crate::export::fdx_kind(e)) == e,
{
    reveal_strlit("Scene Heading");
    reveal_strlit("Action");
    reveal_strlit("Character");
    reveal_strlit("Parenthetical");
    reveal_strlit("Dialogue");
    reveal_strlit("Transition");
    reveal_strlit("Shot");
    let k = crate::export::fdx_kind(e);
    assert(k.len() > 0);
    if e != Element::SceneHeading {
        assert(k != "Scene Heading"@) by {
            assert(k.len() != 13 || k[0] != 'S');
        }
    }
    if e != Element::Character {
        assert(k != "Character"@) by {
            assert(k.len() != 9 || k[0] != 'C');
        }
    }
    if e != Element::Parenthetical {
        assert(k != "Parenthetical"@) by {
            assert(k.len() != 13 || k[0] != 'P');
        }
    }
    if e != Element::Dialogue {
        assert(k != "Dialogue"@) by {
            assert(k.len() != 8 || k[0] != 'D');
        }
    }
    if e != Element::Transition {
        assert(k != "Transition"@) by {
            assert(k.len() != 10 || k[0] != 'T');
        }
    }
    if e != Element::Shot {
        assert(k != "Shot"@) by {
            assert(k.len() != 4 || k[0] != 'S');
        }
    }
}

fn fdx_element_of(kind: &[char]) -> (r: Element)
    ensures
        r == fdx_element(kind@),
{
    if is_str(kind, "Scene Heading") {
        Element::SceneHeading
    } else if is_str(kind, "Character") {
        Element::Character
    } else if is_str(kind, "Parenthetical") {
        Element::Parenthetical
    } else if is_str(kind, "Dialogue") {
        Element::Dialogue
    } else if is_str(kind, "Transition") {
        Element::Transition
    } else if is_str(kind, "Shot") {
        Element::Shot
    } else {
        Element::Action
    }
}

/// A paragraph's words as the block holds them: in capitals where the
/// element prints in capitals.
pub open spec fn fdx_text(e: Element, words: Seq<char>) -> Seq<char> {
    if upper_element(e) {
        upper(words)
    } else {
        words
    }
}

/// What the next `<Paragraph>` of a `<Content>` section comes to: nothing
/// more to read; a file this reader cannot take apart (a scene summary's
/// closing tag before its opening one); or a paragraph, as (element, text,
/// card note) unless it has neither words nor a summary, and how many
/// characters it took.
pub ghost enum FdxPara {
    End,
    Broken,
    Next { entry: Option<(Element, Seq<char>, Seq<char>)>, used: int },
}

pub open spec fn fdx_para(rest: Seq<char>) -> FdxPara {
    match find(rest, "<Paragraph"@) {
        Some(a) => if 0 <= a && a < rest.len() {
            let after = rest.skip(a);
            match find(after, ">"@) {
                Some(oe) => if 0 <= oe && oe < after.len() {
                    let tag = after.take(oe);
                    let body_start = after.skip(oe + 1);
                    let sp = find(body_start, "<SceneProperties"@);
                    let pe = find(body_start, "</Paragraph>"@);
                    let spe = find(body_start, "</SceneProperties>"@);
                    let nested = sp is Some && pe is Some && sp->0 < pe->0 && spe is Some;
                    if nested && spe->0 < sp->0 {
                        FdxPara::Broken
                    } else {
                        let summary: Option<Seq<char>> = if nested {
                            Some(texts_of(body_start.subrange(sp->0, spe->0)))
                        } else {
                            None
                        };
                        let from: int = if nested {
                            spe->0 + 18
                        } else {
                            0
                        };
                        let body_from = body_start.skip(from);
                        match find(body_from, "</Paragraph>"@) {
                            Some(end) => {
                                let words = trim(texts_of(body_from.take(end)));
                                let e = fdx_element(
                                    match attr_of(tag, "Type"@) {
                                        Some(k) => k,
                                        None => seq![],
                                    },
                                );
                                let note = if e == Element::SceneHeading && summary is Some {
                                    trim(summary->0)
                                } else {
                                    seq![]
                                };
                                FdxPara::Next {
                                    entry: if words.len() == 0 && summary is None {
                                        None
                                    } else {
                                        Some((e, fdx_text(e, words), note))
                                    },
                                    used: a + oe + 1 + from + end + 12,
                                }
                            },
                            None => FdxPara::End,
                        }
                    }
                } else {
                    FdxPara::End
                },
                None => FdxPara::End,
            }
        } else {
            FdxPara::End
        },
        None => FdxPara::End,
    }
}

/// The paragraphs of a `<Content>` section, in order; `None` where the
/// reader gives up.
pub open spec fn fdx_paras(rest: Seq<char>) -> Option<Seq<(Element, Seq<char>, Seq<char>)>>
    decreases rest.len(),
{
    match fdx_para(rest) {
        FdxPara::End => Some(seq![]),
        FdxPara::Broken => None,
        FdxPara::Next { entry, used } => if 0 < used <= rest.len() {
            match fdx_paras(rest.skip(used)) {
                Some(ms) => Some(
                    match entry {
                        Some(x) => seq![x] + ms,
                        None => ms,
                    },
                ),
                None => None,
            }
        } else {
            Some(seq![])
        },
    }
}

/// The blocks for the paragraphs read, numbered from 2.
pub open spec fn fdx_block_seq(es: Seq<(Element, Seq<char>, Seq<char>)>) -> Seq<BlockV> {
    Seq::new(
        es.len(),
        |i: int|
            BlockV { id: (i + 2) as u64, element: es[i].0, text: es[i].1, note: es[i].2, tint: None },
    )
}

/// The script proper of a Final Draft file.
pub open spec fn fdx_content(text: Seq<char>) -> Seq<char> {
    match section_of(text, "<Content>"@, "</Content>"@) {
        Some(c) => c,
        None => seq![],
    }
}

/// Whether the Final Draft reader can take this file apart.
pub open spec fn fdx_readable(text: Seq<char>) -> bool {
    fdx_paras(fdx_content(text)) is Some
}

/// The blocks of a Final Draft file; an empty scene heading if it has none.
pub open spec fn fdx_blocks(text: Seq<char>) -> Seq<BlockV> {
    let es = match fdx_paras(fdx_content(text)) {
        Some(es) => es,
        None => seq![],
    };
    if es.len() == 0 {
        seq![
            BlockV {
                id: 2,
                element: Element::SceneHeading,
                text: seq![],
                note: seq![],
                tint: None,
            },
        ]
    } else {
        fdx_block_seq(es)
    }
}

/// The card note of the last block set.
fn set_last_note(doc: &mut Document, note: &[char])
    requires
        old(doc).blocks@.len() > 0,
    ensures
        ({
            let bs = views(old(doc).blocks@);
            views(final(doc).blocks@) == bs.update(bs.len() - 1, BlockV { note: note@, ..bs.last() })
        }),
        final(doc).counter() == old(doc).counter(),
        final(doc).meta == old(doc).meta,
{
    let k = doc.blocks.len() - 1;
    let b = &doc.blocks[k];
    let nb = Block {
        id: b.id,
        element: b.element,
        text: b.text.clone(),
        note: string_of(note),
        tint: b.tint,
    };
    doc.blocks.set(k, nb);
    proof {
        let bs = views(old(doc).blocks@);
        assert(bs.last() == old(doc).blocks@[k as int]@);
        assert(views(doc.blocks@) =~= bs.update(k as int, nb@));
    }
}

/// The next paragraph of `c` from `pos`, as `fdx_para` has it.
enum Paragraph {
    End,
    Broken,
    Skipped(usize),
    Read(usize, Element, Vec<char>, Vec<char>),
}

#[verifier::rlimit(60)]
fn read_paragraph(c: &[char], pos: usize) -> (r: Paragraph)
    requires
        pos <= c@.len(),
    ensures
        match r {
            Paragraph::End => fdx_para(c@.skip(pos as int)) is End,
            Paragraph::Broken => fdx_para(c@.skip(pos as int)) is Broken,
            Paragraph::Skipped(np) => pos < np <= c@.len() && fdx_para(c@.skip(pos as int))
                == FdxPara::Next { entry: None, used: np - pos },
            Paragraph::Read(np, e, t, note) => pos < np <= c@.len() && fdx_para(c@.skip(pos as int))
                == FdxPara::Next { entry: Some((e, t@, note@)), used: np - pos },
        },
{
    proof {
        reveal_strlit("<Paragraph");
        reveal_strlit(">");
        reveal_strlit("<SceneProperties");
        reveal_strlit("</Paragraph>");
        reveal_strlit("</SceneProperties>");
        reveal_strlit("Type");
    }
    let p_open = chars_of("<Paragraph");
    let gt = chars_of(">");
    let sp_open = chars_of("<SceneProperties");
    let p_close = chars_of("</Paragraph>");
    let sp_close = chars_of("</SceneProperties>");
    let _n = c.len();
    let ghost rest = c@.skip(pos as int);
    let a = match find_in_rest(c, p_open.as_slice(), pos) {
        Some(a) => a,
        None => {
            return Paragraph::End;
        },
    };
    proof {
        assert(rest.skip(a - pos) =~= c@.skip(a as int));
    }
    let oe = match find_in_rest(c, gt.as_slice(), a) {
        Some(oe) => oe,
        None => {
            return Paragraph::End;
        },
    };
    let ghost after = c@.skip(a as int);
    let bs = oe + 1;
    proof {
        assert(after.skip(oe - a + 1) =~= c@.skip(bs as int));
        assert(after.take(oe - a) =~= c@.subrange(a as int, oe as int));
    }
    let ghost body_start = c@.skip(bs as int);
    let sp = find_in_rest(c, sp_open.as_slice(), bs);
    let pe = find_in_rest(c, p_close.as_slice(), bs);
    let spe = find_in_rest(c, sp_close.as_slice(), bs);
    let nested = sp.is_some() && pe.is_some() && sp.unwrap() < pe.unwrap() && spe.is_some();
    if nested && spe.unwrap() < sp.unwrap() {
        return Paragraph::Broken;
    }
    let summary: Option<Vec<char>> = if nested {
        let piece = slice_of(c, sp.unwrap(), spe.unwrap());
        proof {
            assert(body_start.subrange(sp.unwrap() - bs, spe.unwrap() - bs) =~= piece@);
        }
        Some(texts(piece.as_slice()))
    } else {
        None
    };
    let bf = if nested {
        spe.unwrap() + 18
    } else {
        bs
    };
    proof {
        assert(body_start.skip(bf - bs) =~= c@.skip(bf as int));
    }
    let end = match find_in_rest(c, p_close.as_slice(), bf) {
        Some(end) => end,
        None => {
            return Paragraph::End;
        },
    };
    let ghost body_from = c@.skip(bf as int);
    let piece = slice_of(c, bf, end);
    let words = texts(piece.as_slice());
    let words = trim_chars(words.as_slice());
    let tag = slice_of(c, a, oe);
    let kind = match attr(tag.as_slice(), "Type") {
        Some(k) => k,
        None => Vec::new(),
    };
    let e = fdx_element_of(kind.as_slice());
    proof {
        assert(body_from.take(end - bf) =~= piece@);
        if attr_of(tag@, "Type"@) is None {
            assert(kind@ =~= Seq::<char>::empty());
        }
    }
    let np = end + 12;
    if words.len() == 0 && summary.is_none() {
        return Paragraph::Skipped(np);
    }
    let text = if e.is_upper() {
        to_upper(words.as_slice())
    } else {
        words
    };
    let note = match summary {
        Some(sum) => if e == Element::SceneHeading {
            trim_chars(sum.as_slice())
        } else {
            Vec::new()
        },
        None => Vec::new(),
    };
    proof {
        if !(e == Element::SceneHeading && summary is Some) {
            assert(note@ =~= Seq::<char>::empty());
        }
    }
    Paragraph::Read(np, e, text, note)
}

/// The paragraphs of `c` read into an empty document; false, with the
/// document left part-way, where `fdx_paras` gives up.
fn read_paragraphs(doc: &mut Document, c: &[char]) -> (ok: bool)
    requires
        old(doc).blocks@.len() == 0,
        old(doc).counter() == 2,
        c@.len() <= isize::MAX,
    ensures
        ok == fdx_paras(c@) is Some,
        ok ==> views(final(doc).blocks@) == fdx_block_seq(fdx_paras(c@)->0) && final(doc).counter()
            == fdx_paras(c@)->0.len() + 2 && fdx_paras(c@)->0.len() <= c@.len(),
        final(doc).meta == old(doc).meta,
{
    let n = c.len();
    let ghost m0 = doc.meta;
    let ghost mut done: Seq<(Element, Seq<char>, Seq<char>)> = seq![];
    let mut pos: usize = 0;
    proof {
        assert(c@.skip(0) =~= c@);
        assert(views(doc.blocks@) =~= fdx_block_seq(done));
        if let Some(ms) = fdx_paras(c@) {
            assert(done + ms =~= ms);
        }
    }
    loop
        invariant
            pos <= c@.len(),
            n == c@.len(),
            n <= isize::MAX,
            fdx_paras(c@) == (match fdx_paras(c@.skip(pos as int)) {
                Some(ms) => Some(done + ms),
                None => None,
            }),
            views(doc.blocks@) == fdx_block_seq(done),
            doc.counter() == done.len() + 2,
            done.len() <= pos,
            doc.meta == m0,
            m0 == old(doc).meta,
        decreases c@.len() - pos,
    {
        let ghost rest = c@.skip(pos as int);
        match read_paragraph(c, pos) {
            Paragraph::End => {
                proof {
                    assert(done + Seq::<(Element, Seq<char>, Seq<char>)>::empty() =~= done);
                }
                return true;
            },
            Paragraph::Broken => {
                return false;
            },
            Paragraph::Skipped(np) => {
                proof {
                    assert(rest.skip(np - pos) =~= c@.skip(np as int));
                }
                pos = np;
            },
            Paragraph::Read(np, e, text, note) => {
                let ghost entry = (e, text@, note@);
                proof {
                    assert(rest.skip(np - pos) =~= c@.skip(np as int));
                }
                push_block(doc, e, text.as_slice());
                proof {
                    assert(views(doc.blocks@).len() == doc.blocks@.len());
                }
                set_last_note(doc, note.as_slice());
                proof {
                    let done2 = done.push(entry);
                    assert(views(doc.blocks@) =~= fdx_block_seq(done2));
                    if let Some(ms) = fdx_paras(c@.skip(np as int)) {
                        assert(done2 + ms =~= done + (seq![entry] + ms));
                    }
                    done = done2;
                }
                pos = np;
            },
        }
    }
}

/// A title set in capitals on a title page reads better as a title.
pub open spec fn cap_word(w: Seq<char>) -> Seq<char> {
    if w.len() == 0 {
        seq![]
    } else {
        char_upper(w[0]) + lower(w.drop_first())
    }
}

/// Words joined by single spaces.
pub open spec fn spaced(ws: Seq<Seq<char>>) -> Seq<char>
    decreases ws.len(),
{
    if ws.len() == 0 {
        seq![]
    } else if ws.len() == 1 {
        ws[0]
    } else {
        spaced(ws.drop_last()) + seq![' '] + ws.last()
    }
}

/// A title in capitals, each word's first letter kept as a capital and the
/// rest lowered; any other title as it is.
pub open spec fn title_cased(s: Seq<char>) -> Seq<char> {
    title_cased_with(s, upper(s), words(s).map_values(|w: Seq<char>| cap_word(w)))
}

/// The title case of `s`, given its capitals and its words each recased.
pub open spec fn title_cased_with(s: Seq<char>, capitals: Seq<char>, capped: Seq<Seq<char>>) -> Seq<char> {
    if capitals != s {
        s
    } else {
        spaced(capped)
    }
}

/// Texts as plain sequences.
pub open spec fn text_views(ws: Seq<String>) -> Seq<Seq<char>> {
    ws.map_values(|w: String| w@)
}

fn title_case(s: &[char]) -> (r: Vec<char>)
    ensures
        r@ == title_cased(s@),
{
    let capitals = crate::text::to_upper(s);
    let ws = split_words(s);
    let ghost cw = ws@.map_values(|w: Vec<char>| w@).map_values(|w: Seq<char>| cap_word(w));
    let mut capped: Vec<String> = Vec::new();
    let mut i: usize = 0;
    while i < ws.len()
        invariant
            i <= ws@.len(),
            cw == ws@.map_values(|w: Vec<char>| w@).map_values(|w: Seq<char>| cap_word(w)),
            text_views(capped@) =~= cw.take(i as int),
        decreases ws@.len() - i,
    {
        let w = ws[i].as_slice();
        let mut cwd: Vec<char> = Vec::new();
        if w.len() > 0 {
            cwd = upper_of_char(w[0]);
            let tail = slice_of(w, 1, w.len());
            let lt = to_lower(tail.as_slice());
            push_all(&mut cwd, lt.as_slice());
            proof {
                assert(tail@ =~= w@.drop_first());
            }
        }
        proof {
            assert(cw[i as int] == cap_word(w@));
            assert(cwd@ =~= cap_word(w@));
        }
        let ghost before = capped@;
        let one = string_of(cwd.as_slice());
        capped.push(one);
        proof {
            assert(capped@ =~= before.push(one));
            assert(text_views(capped@) =~= text_views(before).push(one@));
            assert(cw.take(i + 1) =~= cw.take(i as int).push(cw[i as int]));
        }
        i = i + 1;
    }
    proof {
        assert(cw.take(i as int) =~= cw);
        assert(ws@.map_values(|w: Vec<char>| w@) == words(s@));
    }
    let r = title_case_with(string_of(s).as_str(), string_of(capitals.as_slice()).as_str(), capped.as_slice());
    chars_of(r.as_str())
}

/// A title set on a title page, given its capitals and its words each
/// recased (first letter a capital, the rest lower case): the recased words
/// joined by single spaces where the title was all capitals, else the title
/// as it is.
pub fn title_case_with(s: &str, capitals: &str, capped: &[String]) -> (r: String)
    ensures
        r@ == title_cased_with(s@, capitals@, text_views(capped@)),
{
    let sv = chars_of(s);
    let cv = chars_of(capitals);
    if !crate::text::same(cv.as_slice(), sv.as_slice()) {
        return string_of(sv.as_slice());
    }
    let ghost cw = text_views(capped@);
    let mut out: Vec<char> = Vec::new();
    let mut i: usize = 0;
    while i < capped.len()
        invariant
            i <= capped@.len(),
            cw == text_views(capped@),
            out@ == spaced(cw.take(i as int)),
        decreases capped@.len() - i,
    {
        proof {
            assert(cw.take(i + 1).drop_last() =~= cw.take(i as int));
            assert(cw[i as int] == capped@[i as int]@);
        }
        if i > 0 {
            out.push(' ');
        }
        let ghost mid = out@;
        crate::text::push_str(&mut out, capped[i].as_str());
        proof {
            if i == 0 {
                assert(out@ =~= capped@[i as int]@);
            } else {
                assert(out@ =~= spaced(cw.take(i as int)) + seq![' '] + cw[i as int]);
            }
        }
        i = i + 1;
    }
    proof {
        assert(cw.take(i as int) =~= cw);
    }
    string_of(out.as_slice())
}

/// The non-empty lines of a Final Draft title page, in order.
pub open spec fn title_lines(ps: Seq<Seq<char>>) -> Seq<Seq<char>>
    decreases ps.len(),
{
    if ps.len() == 0 {
        seq![]
    } else {
        let r = title_lines(ps.drop_last());
        let t = trim(texts_of(ps.last()));
        if t.len() > 0 {
            r.push(t)
        } else {
            r
        }
    }
}

/// The first line from `i` on that reads "written by" or "by".
pub open spec fn by_line(ls: Seq<Seq<char>>, i: int) -> Option<int>
    decreases ls.len() - i,
{
    if i < 0 || i >= ls.len() {
        None
    } else if lower(ls[i]) == "written by"@ || lower(ls[i]) == "by"@ {
        Some(i)
    } else {
        by_line(ls, i + 1)
    }
}

/// The title-page details of a Final Draft file: the first line is the
/// title, and whatever follows a "written by" is the author.
pub open spec fn fdx_meta(text: Seq<char>) -> MetaV {
    match section_of(text, "<TitlePage>"@, "</TitlePage>"@) {
        Some(tp) => {
            let ls = title_lines(split_on(tp, "</Paragraph>"@));
            MetaV {
                title: if ls.len() > 0 {
                    title_cased(ls[0])
                } else {
                    seq![]
                },
                author: match by_line(ls, 0) {
                    Some(k) => if k + 1 < ls.len() {
                        ls[k + 1]
                    } else {
                        seq![]
                    },
                    None => seq![],
                },
                ..empty_meta()
            }
        },
        None => empty_meta(),
    }
}

fn fdx_title_page(text: &[char]) -> (r: Meta)
    ensures
        r@ == fdx_meta(text@),
{
    let mut meta = Meta::default();
    let tp = match section(text, "<TitlePage>", "</TitlePage>") {
        Some(tp) => tp,
        None => {
            return meta;
        },
    };
    proof {
        reveal_strlit("</Paragraph>");
    }
    let ps = split_on_chars(tp.as_slice(), "</Paragraph>");
    let ghost pv = ps@.map_values(|l: Vec<char>| l@);
    let mut ls: Vec<Vec<char>> = Vec::new();
    let mut i: usize = 0;
    proof {
        assert(pv.take(0) =~= Seq::<Seq<char>>::empty());
        assert(ls@.map_values(|l: Vec<char>| l@) =~= Seq::<Seq<char>>::empty());
    }
    while i < ps.len()
        invariant
            i <= ps@.len(),
            pv == ps@.map_values(|l: Vec<char>| l@),
            ls@.map_values(|l: Vec<char>| l@) == title_lines(pv.take(i as int)),
        decreases ps@.len() - i,
    {
        let t = texts(ps[i].as_slice());
        let t = trim_chars(t.as_slice());
        let ghost before = ls@.map_values(|l: Vec<char>| l@);
        proof {
            assert(pv.take(i + 1).drop_last() =~= pv.take(i as int));
            assert(pv.take(i + 1).last() == ps@[i as int]@);
        }
        if t.len() > 0 {
            ls.push(t);
            proof {
                assert(ls@.map_values(|l: Vec<char>| l@) =~= before.push(ls@.last()@));
            }
        }
        i = i + 1;
    }
    let ghost lv = ls@.map_values(|l: Vec<char>| l@);
    proof {
        assert(pv.take(i as int) =~= pv);
    }
    if ls.len() > 0 {
        meta.title = string_of(title_case(ls[0].as_slice()).as_slice());
        proof {
            assert(lv[0] == ls@[0]@);
        }
    }
    let mut k: usize = 0;
    while k < ls.len() && !is_by_line(ls[k].as_slice())
        invariant
            k <= ls@.len(),
            lv == ls@.map_values(|l: Vec<char>| l@),
            by_line(lv, 0) == by_line(lv, k as int),
        decreases ls@.len() - k,
    {
        proof {
            assert(lv[k as int] == ls@[k as int]@);
        }
        k = k + 1;
    }
    proof {
        if k < ls@.len() {
            assert(lv[k as int] == ls@[k as int]@);
        }
    }
    if k < ls.len() && k + 1 < ls.len() {
        meta.author = string_of(ls[k + 1].as_slice());
        proof {
            assert(lv[k + 1] == ls@[k + 1]@);
        }
    }
    proof {
        assert(meta.contact@ =~= Seq::<char>::empty());
    }
    meta
}

fn is_by_line(l: &[char]) -> (r: bool)
    ensures
        r == (lower(l@) == "written by"@ || lower(l@) == "by"@),
{
    let low = to_lower(l);
    is_str(low.as_slice(), "written by") || is_str(low.as_slice(), "by")
}

/// Whether `parse_fdx` can read this file: false only where a scene
/// summary's closing tag stands before its opening one.
pub fn fdx_is_readable(text: &str) -> (r: bool)
    requires
        text@.len() <= isize::MAX,
    ensures
        r == fdx_readable(text@),
{
    let raw = chars_of(text);
    let content = match section(raw.as_slice(), "<Content>", "</Content>") {
        Some(c) => c,
        None => Vec::new(),
    };
    proof {
        if section_of(raw@, "<Content>"@, "</Content>"@) is None {
            assert(content@ =~= fdx_content(text@));
        }
        lemma_section_len(raw@, "<Content>"@, "</Content>"@);
    }
    let mut scratch = Document { meta: Meta::default(), blocks: Vec::new(), next_id: 2 };
    read_paragraphs(&mut scratch, content.as_slice())
}

proof fn lemma_section_len(s: Seq<char>, open: Seq<char>, close: Seq<char>)
    ensures
        section_of(s, open, close) matches Some(v) ==> v.len() <= s.len(),
{
    crate::text::lemma_find_from_bounds(s, open, 0);
    if let Some(a0) = find(s, open) {
        let a = a0 + open.len();
        crate::text::lemma_find_from_bounds(s.skip(a), close, 0);
    }
}

/// Read a Final Draft file. Paragraph types map one to one; anything Final
/// Draft has that Northstar does not (General, Cast List...) becomes action.
pub fn parse_fdx(text: &str) -> (r: Document)
    requires
        text@.len() <= isize::MAX,
        fdx_readable(text@),
    ensures
        r.meta@ == fdx_meta(text@),
        views(r.blocks@) == fdx_blocks(text@),
        r.ids_fresh(),
        r.counter() == max_id(r.blocks@) + 1,
{
    let raw = chars_of(text);
    let content = match section(raw.as_slice(), "<Content>", "</Content>") {
        Some(c) => c,
        None => Vec::new(),
    };
    proof {
        if section_of(raw@, "<Content>"@, "</Content>"@) is None {
            assert(content@ =~= fdx_content(text@));
        }
        lemma_section_len(raw@, "<Content>"@, "</Content>"@);
    }
    let mut doc = Document { meta: Meta::default(), blocks: Vec::new(), next_id: 2 };
    let ok = read_paragraphs(&mut doc, content.as_slice());
    doc.meta = fdx_title_page(raw.as_slice());
    let ghost es = fdx_paras(content@)->0;
    proof {
        assert(es.len() + 2 < u64::MAX);
    }
    doc.ensure_not_empty();
    proof {
        if es.len() == 0 {
            assert(views(doc.blocks@) =~= seq![doc.blocks@[0]@]);
            assert(doc.blocks@[0].note@ =~= Seq::<char>::empty());
            assert(doc.blocks@[0].text@ =~= Seq::<char>::empty());
        }
        assert(views(doc.blocks@) == fdx_blocks(text@));
        assert forall|j: int| 0 <= j < doc.blocks@.len() implies doc.blocks@[j].id < u64::MAX by {
            assert(views(doc.blocks@)[j] == doc.blocks@[j]@);
        }
    }
    doc.reseed_ids();
    doc
}
} // verus!
