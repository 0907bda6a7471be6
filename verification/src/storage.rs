//! How scripts are written to disk, and read back.
//!
//! # The file format
//!
//! Plain CommonMark with YAML front matter. Every screenplay element maps to
//! exactly one markdown construct, so the round trip is lossless *and* the
//! file still reads well in any markdown viewer:
//!
//! | Element        | Markdown            |
//! |----------------|---------------------|
//! | Scene heading  | `## INT. BAR - DAY` |
//! | Shot           | `### ANGLE ON DOOR` |
//! | Action         | plain paragraph     |
//! | Character      | `**MARIA (V.O.)**`  |
//! | Parenthetical  | `*(quietly)*`       |
//! | Dialogue       | `> Don't move.`     |
//! | Transition     | `` `CUT TO:` ``     |
//!
//! A scene's index card — its synopsis and colour — rides directly under its
//! heading as an HTML comment, which every markdown viewer hides:
//!
//! ```text
//! ## INT. WAREHOUSE - NIGHT
//! <!-- scene: tint=2 | Maria finds the door that isn't locked. -->
//! ```
//!
//! Blocks are separated by a blank line and never contain a newline, which is
//! what makes parsing a single pass with no ambiguity.
//!
//! Where the files live, and the reading and writing of them, is the
//! application's business; this is the text.

use vstd::prelude::*;

use crate::model::{
    empty_meta, max_id, Block, BlockV, Document, Element, Meta, MetaV,
};
use crate::fountain::{
    fdx_blocks, fdx_meta, fdx_readable, fountain_blocks, fountain_meta, parse, parse_fdx, rfind_char,
    rfind_in, lemma_rfind_char,
};
use crate::model::normal_text;
use crate::text::{
    is_blank, is_digit, lemma_dec_digits, lower, replace, replace_chars, to_lower, trim_start_by,
};
use crate::text::{
    alphanumeric, char_lower, chars_of, dec, has_prefix, has_suffix, index_of, index_of_char,
    is_alphanumeric, is_str, lemma_index_of_char, lines, lower_of_char, parse_usize,
    parse_usize_spec, push_all, push_decimal, push_str, same, slice_of, split_lines, starts_with_str,
    ends_with_str, string_of, to_upper, trim, trim_by, trim_chars, trim_chars_by, trim_end,
    trim_end_chars_by, upper, Strip,
};

verus! {

// ------------------------------------------------------------------ slugs --

/// What one character gives a slug: its lower case where it is a letter or
/// a digit, nothing where it is not.
pub open spec fn slug_piece(c: char) -> Option<Seq<char>> {
    if alphanumeric(c) {
        Some(char_lower(c))
    } else {
        None
    }
}

/// One piece of a slug as a plain sequence.
pub open spec fn piece_view(p: Option<String>) -> Option<Seq<char>> {
    match p {
        Some(t) => Some(t@),
        None => None,
    }
}

/// The pieces of a slug as plain sequences.
pub open spec fn piece_views(ps: Seq<Option<String>>) -> Seq<Option<Seq<char>>> {
    ps.map_values(|p: Option<String>| piece_view(p))
}

/// Building a slug from the pieces of a title's characters: what is written
/// so far, and whether it ends in a dash that stands for a run of characters
/// that give nothing.
pub open spec fn slug_run(ps: Seq<Option<Seq<char>>>) -> (Seq<char>, bool)
    decreases ps.len(),
{
    if ps.len() == 0 {
        (seq![], false)
    } else {
        let (out, dash) = slug_run(ps.drop_last());
        match ps.last() {
            Some(l) => (out + l, false),
            None => if !dash && out.len() > 0 {
                (out.push('-'), true)
            } else {
                (out, dash)
            },
        }
    }
}

/// The slug that a title's pieces give: the run without a dash at either
/// end, `untitled` if nothing is left.
pub open spec fn slug_of_pieces(ps: Seq<Option<Seq<char>>>) -> Seq<char> {
    let s = trim_by(slug_run(ps).0, Strip::Dash);
    if s.len() == 0 {
        "untitled"@
    } else {
        s
    }
}

/// A title as a file name: letters and digits in lower case, every other run
/// of characters one dash, no dash at either end; `untitled` if nothing is
/// left.
pub open spec fn slug(title: Seq<char>) -> Seq<char> {
    slug_of_pieces(trim(title).map_values(|c: char| slug_piece(c)))
}

pub fn slugify(title: &str) -> (r: String)
    ensures
        r@ == slug(title@),
{
    let raw = chars_of(title);
    let t = trim_chars(raw.as_slice());
    let mut pieces: Vec<Option<String>> = Vec::new();
    let mut i: usize = 0;
    while i < t.len()
        invariant
            i <= t@.len(),
            piece_views(pieces@) =~= t@.take(i as int).map_values(|c: char| slug_piece(c)),
        decreases t@.len() - i,
    {
        let ch = t[i];
        let p = if is_alphanumeric(ch) {
            let low = lower_of_char(ch);
            Some(string_of(low.as_slice()))
        } else {
            None
        };
        let ghost before = pieces@;
        assert(piece_view(p) == slug_piece(ch));
        pieces.push(p);
        proof {
            assert(pieces@ =~= before.push(p));
            assert(piece_views(pieces@) =~= piece_views(before).push(piece_view(p)));
            assert(t@.take(i + 1) =~= t@.take(i as int).push(ch));
        }
        i = i + 1;
    }
    proof {
        assert(t@.take(i as int) =~= t@);
    }
    slug_from(pieces.as_slice())
}

/// The slug that the pieces of a trimmed title's characters give, each the
/// lower case of a letter or digit or `None` for any other character.
pub fn slug_from(pieces: &[Option<String>]) -> (r: String)
    ensures
        r@ == slug_of_pieces(piece_views(pieces@)),
{
    let ghost ps = piece_views(pieces@);
    let mut s: Vec<char> = Vec::new();
    let mut prev_dash = false;
    let mut i: usize = 0;
    while i < pieces.len()
        invariant
            i <= pieces@.len(),
            ps == piece_views(pieces@),
            (s@, prev_dash) == slug_run(ps.take(i as int)),
        decreases pieces@.len() - i,
    {
        proof {
            assert(ps.take(i + 1).drop_last() =~= ps.take(i as int));
            assert(ps.take(i + 1).last() == ps[i as int]);
        }
        match &pieces[i] {
            Some(low) => {
                push_str(&mut s, low.as_str());
                prev_dash = false;
            },
            None => {
                if !prev_dash && s.len() > 0 {
                    s.push('-');
                    prev_dash = true;
                }
            },
        }
        i = i + 1;
    }
    proof {
        assert(ps.take(i as int) =~= ps);
    }
    let s = trim_chars_by(s.as_slice(), Strip::Dash);
    if s.len() == 0 {
        "untitled".to_owned()
    } else {
        string_of(s.as_slice())
    }
}

proof fn lemma_trim_start_by_head(s: Seq<char>, k: Strip)
    ensures
        trim_start_by_len(s, k),
    decreases s.len(),
{
    if s.len() > 0 && crate::text::strips(k, s[0]) {
        lemma_trim_start_by_head(s.drop_first(), k);
    }
}

/// `trim_start_by` leaves a text that does not start with what it strips.
pub open spec fn trim_start_by_len(s: Seq<char>, k: Strip) -> bool {
    let t = crate::text::trim_start_by(s, k);
    (t.len() == 0 || !crate::text::strips(k, t[0])) && t.len() <= s.len() && (t.len() > 0
        ==> t.last() == s.last())
}

proof fn lemma_trim_end_by_tail(s: Seq<char>, k: Strip)
    ensures
        ({
            let t = crate::text::trim_end_by(s, k);
            (t.len() == 0 || !crate::text::strips(k, t.last())) && (t.len() > 0 ==> t[0] == s[0])
        }),
    decreases s.len(),
{
    if s.len() > 0 && crate::text::strips(k, s.last()) {
        lemma_trim_end_by_tail(s.drop_last(), k);
        let t = crate::text::trim_end_by(s.drop_last(), k);
        if t.len() > 0 {
            assert(s.drop_last()[0] == s[0]);
        }
    }
}

/// A slug is never empty and never starts or ends with a dash.
pub proof fn law_slug_is_a_name(title: Seq<char>)
    ensures
        slug(title).len() > 0,
        slug(title)[0] != '-',
        slug(title).last() != '-',
{
    let s = slug_run(trim(title).map_values(|c: char| slug_piece(c))).0;
    let a = crate::text::trim_start_by(s, Strip::Dash);
    lemma_trim_start_by_head(s, Strip::Dash);
    lemma_trim_end_by_tail(a, Strip::Dash);
    reveal_strlit("untitled");
}

/// No two dashes side by side.
pub open spec fn no_double_dash(s: Seq<char>) -> bool {
    forall|i: int| 0 <= i < s.len() - 1 ==> !(#[trigger] s[i] == '-' && s[i + 1] == '-')
}

/// Pieces as a character's lower case gives them: never empty, never a dash.
pub open spec fn plain_pieces(ps: Seq<Option<Seq<char>>>) -> bool {
    forall|i: int|
        0 <= i < ps.len() ==> (#[trigger] ps[i] matches Some(l) ==> l.len() > 0 && !l.contains(
            '-',
        ))
}

proof fn lemma_slug_run_dashes(ps: Seq<Option<Seq<char>>>)
    requires
        plain_pieces(ps),
    ensures
        no_double_dash(slug_run(ps).0),
        slug_run(ps).1 ==> slug_run(ps).0.len() > 0 && slug_run(ps).0.last() == '-',
        !slug_run(ps).1 && slug_run(ps).0.len() > 0 ==> slug_run(ps).0.last() != '-',
    decreases ps.len(),
{
    if ps.len() > 0 {
        let q = ps.drop_last();
        assert forall|i: int| 0 <= i < q.len() implies (#[trigger] q[i] matches Some(l) ==> l.len()
            > 0 && !l.contains('-')) by {
            assert(q[i] == ps[i]);
        }
        lemma_slug_run_dashes(q);
        let (out, dash) = slug_run(q);
        assert(ps.last() == ps[ps.len() - 1]);
        match ps.last() {
            Some(l) => {
                let n = out + l;
                assert forall|i: int| 0 <= i < n.len() - 1 implies !(#[trigger] n[i] == '-' && n[i
                    + 1] == '-') by {
                    if i + 1 >= out.len() {
                        assert(n[i + 1] == l[i + 1 - out.len()]);
                    } else {
                        assert(n[i] == out[i] && n[i + 1] == out[i + 1]);
                    }
                }
                assert(n.last() == l.last());
            },
            None => {
                if !dash && out.len() > 0 {
                    let n = out.push('-');
                    assert forall|i: int| 0 <= i < n.len() - 1 implies !(#[trigger] n[i] == '-'
                        && n[i + 1] == '-') by {
                        if i + 1 < out.len() {
                            assert(n[i] == out[i] && n[i + 1] == out[i + 1]);
                        } else {
                            assert(n[i] == out.last());
                        }
                    }
                }
            },
        }
    }
}

proof fn lemma_trim_dashes(s: Seq<char>, k: Strip)
    requires
        no_double_dash(s),
    ensures
        no_double_dash(crate::text::trim_start_by(s, k)),
        no_double_dash(crate::text::trim_end_by(s, k)),
    decreases s.len(),
{
    if s.len() > 0 {
        let a = s.drop_first();
        let b = s.drop_last();
        assert forall|i: int| 0 <= i < a.len() - 1 implies !(#[trigger] a[i] == '-' && a[i + 1]
            == '-') by {
            assert(a[i] == s[i + 1] && a[i + 1] == s[i + 2]);
        }
        assert forall|i: int| 0 <= i < b.len() - 1 implies !(#[trigger] b[i] == '-' && b[i + 1]
            == '-') by {
            assert(b[i] == s[i] && b[i + 1] == s[i + 1]);
        }
        lemma_trim_dashes(a, k);
        lemma_trim_dashes(b, k);
    }
}

/// A slug never holds a run of dashes, where each letter or digit lowers to
/// a non-empty text without a dash, as Unicode's lower case does.
pub proof fn law_slug_has_single_dashes(ps: Seq<Option<Seq<char>>>)
    requires
        plain_pieces(ps),
    ensures
        no_double_dash(slug_of_pieces(ps)),
{
    lemma_slug_run_dashes(ps);
    let s = slug_run(ps).0;
    lemma_trim_dashes(s, Strip::Dash);
    lemma_trim_dashes(crate::text::trim_start_by(s, Strip::Dash), Strip::Dash);
    reveal_strlit("untitled");
}

// ------------------------------------------------------------ writing --

/// A line of text made safe for the front matter: newlines as spaces, trimmed.
pub open spec fn nl_to_space(s: Seq<char>) -> Seq<char> {
    s.map_values(|c: char| if c == '\n' {
        ' '
    } else {
        c
    })
}

pub open spec fn esc_value(s: Seq<char>) -> Seq<char> {
    trim(nl_to_space(s))
}

/// The front matter: the title-page details between `---` fences.
pub open spec fn md_head(m: MetaV) -> Seq<char> {
    "---\n"@ + "title: "@ + esc_value(m.title) + "\n"@ + "author: "@ + esc_value(m.author)
        + "\n"@ + "contact: "@ + esc_value(m.contact) + "\n"@ + "draft: "@ + esc_value(m.draft)
        + "\n"@ + (if m.starred {
        "starred: yes\n"@
    } else {
        seq![]
    }) + "---\n\n"@
}

/// A heading carries a card when it has a synopsis or a colour.
pub open spec fn has_card(b: BlockV) -> bool {
    trim(b.note).len() > 0 || b.tint is Some
}

/// `str::replace("-->", "- ->")`: every arrow, left to right, defused.
pub open spec fn defuse(s: Seq<char>) -> Seq<char>
    decreases s.len(),
{
    if s.len() == 0 {
        seq![]
    } else if s.len() >= 3 && s[0] == '-' && s[1] == '-' && s[2] == '>' {
        "- ->"@ + defuse(s.skip(3))
    } else {
        seq![s[0]] + defuse(s.drop_first())
    }
}

/// The synopsis as the comment carries it.
pub open spec fn card_note(b: BlockV) -> Seq<char> {
    trim(defuse(nl_to_space(b.note)))
}

/// The card, as an HTML comment under its heading.
pub open spec fn card_comment(b: BlockV) -> Seq<char> {
    match b.tint {
        Some(t) => "<!-- scene: tint="@ + dec(t as nat) + " | "@ + card_note(b) + " -->"@,
        None => "<!-- scene: "@ + card_note(b) + " -->"@,
    }
}

/// The parenthetical's words, without its parentheses.
pub open spec fn paren_inner(t: Seq<char>) -> Seq<char> {
    trim(trim_by(t, Strip::Parens))
}

/// Whether a line of action, written bare, reads back as itself: it is no
/// card and no other construct.
pub open spec fn reads_as_action(t: Seq<char>) -> bool {
    parse_card(t) is None && md_read(t) == (Element::Action, t)
}

/// A line of action as written: bare where it reads back as itself, else
/// behind a backslash, which marks it as plain text.
pub open spec fn action_line(t: Seq<char>) -> Seq<char> {
    if reads_as_action(t) {
        t
    } else {
        seq!['\\'] + t
    }
}

/// The markdown construct a block is written as.
pub open spec fn md_line(e: Element, t: Seq<char>) -> Seq<char> {
    match e {
        Element::SceneHeading => "## "@ + t,
        Element::Shot => "### "@ + t,
        Element::Action => action_line(t),
        Element::Character => "**"@ + t + "**"@,
        Element::Parenthetical => "*("@ + paren_inner(t) + ")*"@,
        Element::Dialogue => "> "@ + t,
        Element::Transition => if t.contains('`') {
            "``"@ + t + "``"@
        } else {
            "`"@ + t + "`"@
        },
    }
}

/// A block as written: its line, the card under a heading that has one, and
/// a blank line. A block with no text is left out, unless it is a heading
/// with a card.
pub open spec fn md_block(b: BlockV) -> Seq<char> {
    let t = trim(b.text);
    let heading_card = b.element == Element::SceneHeading && has_card(b);
    if t.len() == 0 && !heading_card {
        seq![]
    } else {
        trim_end(md_line(b.element, t)) + (if heading_card {
            "\n"@ + card_comment(b)
        } else {
            seq![]
        }) + "\n\n"@
    }
}

pub open spec fn md_blocks(bs: Seq<BlockV>) -> Seq<char>
    decreases bs.len(),
{
    if bs.len() == 0 {
        seq![]
    } else {
        md_blocks(bs.drop_last()) + md_block(bs.last())
    }
}

/// The whole file.
pub open spec fn md_text(m: MetaV, bs: Seq<BlockV>) -> Seq<char> {
    md_head(m) + md_blocks(bs)
}

/// The blocks as the specifications see them.
pub open spec fn views(bs: Seq<Block>) -> Seq<BlockV> {
    bs.map_values(|b: Block| b@)
}

fn push_value(out: &mut Vec<char>, key: &str, v: &String)
    ensures
        final(out)@ == old(out)@ + key@ + esc_value(v@) + "\n"@,
{
    let raw = chars_of(v.as_str());
    let mut t: Vec<char> = Vec::new();
    let mut i: usize = 0;
    while i < raw.len()
        invariant
            i <= raw@.len(),
            t@ == nl_to_space(raw@.take(i as int)),
        decreases raw@.len() - i,
    {
        let c = raw[i];
        t.push(if c == '\n' {
            ' '
        } else {
            c
        });
        proof {
            assert(t@ =~= nl_to_space(raw@.take(i + 1)));
        }
        i = i + 1;
    }
    proof {
        assert(raw@.take(i as int) =~= raw@);
    }
    let t = trim_chars(t.as_slice());
    push_str(out, key);
    push_all(out, t.as_slice());
    push_str(out, "\n");
}

/// `defuse`, on characters.
fn defuse_chars(s: &[char]) -> (r: Vec<char>)
    ensures
        r@ == defuse(s@),
{
    let mut out: Vec<char> = Vec::new();
    let mut i: usize = 0;
    proof {
        assert(s@.skip(0) =~= s@);
    }
    while i < s.len()
        invariant
            i <= s@.len(),
            out@ + defuse(s@.skip(i as int)) == defuse(s@),
        decreases s@.len() - i,
    {
        let rest = slice_of(s, i, s.len());
        proof {
            assert(rest@ =~= s@.skip(i as int));
        }
        let ghost before = out@;
        if s.len() - i > 2 && s[i] == '-' && s[i + 1] == '-' && s[i + 2] == '>' {
            push_str(&mut out, "- ->");
            proof {
                assert(s@.skip(i as int)[0] == s@[i as int]);
                assert(s@.skip(i as int)[1] == s@[i + 1]);
                assert(s@.skip(i as int)[2] == s@[i + 2]);
                assert(s@.skip(i as int).skip(3) =~= s@.skip(i + 3));
                assert(out@ + defuse(s@.skip(i + 3)) =~= before + defuse(s@.skip(i as int)));
            }
            i = i + 3;
        } else {
            out.push(s[i]);
            proof {
                assert(s@.skip(i as int)[0] == s@[i as int]);
                assert(s@.skip(i as int).drop_first() =~= s@.skip(i + 1));
                assert(out@ + defuse(s@.skip(i + 1)) =~= before + defuse(s@.skip(i as int)));
            }
            i = i + 1;
        }
    }
    proof {
        assert(s@.skip(i as int).len() == 0);
        assert(out@ + defuse(s@.skip(i as int)) =~= out@);
    }
    out
}

fn card_comment_of(b: &Block, out: &mut Vec<char>)
    ensures
        final(out)@ == old(out)@ + card_comment(b@),
{
    let raw = chars_of(b.note.as_str());
    let mut t: Vec<char> = Vec::new();
    let mut i: usize = 0;
    while i < raw.len()
        invariant
            i <= raw@.len(),
            t@ == nl_to_space(raw@.take(i as int)),
        decreases raw@.len() - i,
    {
        let c = raw[i];
        t.push(if c == '\n' {
            ' '
        } else {
            c
        });
        proof {
            assert(t@ =~= nl_to_space(raw@.take(i + 1)));
        }
        i = i + 1;
    }
    proof {
        assert(raw@.take(i as int) =~= raw@);
    }
    let d = defuse_chars(t.as_slice());
    let note = trim_chars(d.as_slice());
    match b.tint {
        Some(tint) => {
            push_str(out, "<!-- scene: tint=");
            push_decimal(out, tint);
            push_str(out, " | ");
            push_all(out, note.as_slice());
            push_str(out, " -->");
        },
        None => {
            push_str(out, "<!-- scene: ");
            push_all(out, note.as_slice());
            push_str(out, " -->");
        },
    }
    proof {
        assert(final(out)@ =~= old(out)@ + card_comment(b@));
    }
}

fn md_block_of(b: &Block, out: &mut Vec<char>)
    ensures
        final(out)@ == old(out)@ + md_block(b@),
{
    let raw = chars_of(b.text.as_str());
    let t = trim_chars(raw.as_slice());
    let n = chars_of(b.note.as_str());
    let n = trim_chars(n.as_slice());
    let card = n.len() > 0 || b.tint.is_some();
    let heading_card = b.element == Element::SceneHeading && card;
    if t.len() == 0 && !heading_card {
        return;
    }
    let mut line: Vec<char> = Vec::new();
    match b.element {
        Element::SceneHeading => {
            push_str(&mut line, "## ");
            push_all(&mut line, t.as_slice());
        },
        Element::Shot => {
            push_str(&mut line, "### ");
            push_all(&mut line, t.as_slice());
        },
        Element::Action => {
            let bare = match parse_card_of(t.as_slice()) {
                Some(_) => false,
                None => {
                    let (e, tx) = md_read_of(t.as_slice());
                    e == Element::Action && crate::text::same(tx.as_slice(), t.as_slice())
                },
            };
            if !bare {
                line.push('\\');
            }
            push_all(&mut line, t.as_slice());
        },
        Element::Character => {
            push_str(&mut line, "**");
            push_all(&mut line, t.as_slice());
            push_str(&mut line, "**");
        },
        Element::Parenthetical => {
            let inner = trim_chars_by(t.as_slice(), Strip::Parens);
            let inner = trim_chars(inner.as_slice());
            push_str(&mut line, "*(");
            push_all(&mut line, inner.as_slice());
            push_str(&mut line, ")*");
        },
        Element::Dialogue => {
            push_str(&mut line, "> ");
            push_all(&mut line, t.as_slice());
        },
        Element::Transition => {
            let fence = if crate::text::contains_char(t.as_slice(), '`') {
                "``"
            } else {
                "`"
            };
            push_str(&mut line, fence);
            push_all(&mut line, t.as_slice());
            push_str(&mut line, fence);
        },
    }
    proof {
        assert(line@ =~= md_line(b.element, trim(b.text@)));
    }
    let line = trim_end_chars_by(line.as_slice(), Strip::Space);
    push_all(out, line.as_slice());
    if heading_card {
        push_str(out, "\n");
        card_comment_of(b, out);
    }
    push_str(out, "\n\n");
    proof {
        assert(final(out)@ =~= old(out)@ + md_block(b@));
    }
}

/// The script as markdown.
pub fn to_markdown(doc: &Document) -> (r: String)
    ensures
        r@ == md_text(doc.meta@, views(doc.blocks@)),
{
    let mut s: Vec<char> = Vec::new();
    push_str(&mut s, "---\n");
    push_value(&mut s, "title: ", &doc.meta.title);
    push_value(&mut s, "author: ", &doc.meta.author);
    push_value(&mut s, "contact: ", &doc.meta.contact);
    push_value(&mut s, "draft: ", &doc.meta.draft);
    if doc.meta.starred {
        push_str(&mut s, "starred: yes\n");
    }
    push_str(&mut s, "---\n\n");
    proof {
        assert(s@ =~= md_head(doc.meta@));
    }
    let ghost head = s@;
    let ghost vs = views(doc.blocks@);
    let mut i: usize = 0;
    while i < doc.blocks.len()
        invariant
            i <= doc.blocks@.len(),
            vs == views(doc.blocks@),
            s@ == head + md_blocks(vs.take(i as int)),
        decreases doc.blocks@.len() - i,
    {
        proof {
            assert(vs.take(i + 1).drop_last() =~= vs.take(i as int));
            assert(vs.take(i + 1).last() == doc.blocks@[i as int]@);
        }
        md_block_of(&doc.blocks[i], &mut s);
        proof {
            assert(s@ =~= head + md_blocks(vs.take(i + 1)));
        }
        i = i + 1;
    }
    proof {
        assert(vs.take(i as int) =~= vs);
    }
    string_of(s.as_slice())
}

// ------------------------------------------------------------ reading --

/// `str::split_inclusive('\n')`: the lines with their newlines kept.
pub open spec fn incl_pieces(s: Seq<char>) -> Seq<Seq<char>>
    decreases s.len(),
{
    if s.len() == 0 {
        seq![]
    } else {
        proof {
            lemma_index_of_char(s, '\n');
        }
        match index_of_char(s, '\n') {
            Some(k) => seq![s.take(k + 1)] + incl_pieces(s.skip(k + 1)),
            None => seq![s],
        }
    }
}

fn split_inclusive_lines(s: &[char]) -> (r: Vec<Vec<char>>)
    ensures
        r@.map_values(|l: Vec<char>| l@) == incl_pieces(s@),
{
    let mut out: Vec<Vec<char>> = Vec::new();
    let mut start: usize = 0;
    proof {
        assert(s@.skip(0) =~= s@);
        assert(out@.map_values(|l: Vec<char>| l@) + incl_pieces(s@) =~= incl_pieces(s@));
    }
    while start < s.len()
        invariant
            start <= s@.len(),
            out@.map_values(|l: Vec<char>| l@) + incl_pieces(s@.skip(start as int)) == incl_pieces(
                s@,
            ),
        decreases s@.len() - start,
    {
        let ghost rest = s@.skip(start as int);
        let mut end = start;
        while end < s.len() && s[end] != '\n'
            invariant
                start <= end <= s@.len(),
                forall|j: int| start <= j < end ==> s@[j] != '\n',
            decreases s@.len() - end,
        {
            end = end + 1;
        }
        proof {
            assert forall|j: int| 0 <= j < end - start implies rest[j] != '\n' by {
                assert(rest[j] == s@[start + j]);
            }
            if end < s@.len() {
                assert(rest[end - start] == s@[end as int]);
                crate::text::lemma_index_of_char_is(rest, '\n', end - start);
            } else {
                crate::text::lemma_index_of_char_none(rest, '\n');
            }
        }
        let stop = if end < s.len() {
            end + 1
        } else {
            end
        };
        let piece = slice_of(s, start, stop);
        let ghost before = out@.map_values(|l: Vec<char>| l@);
        out.push(piece);
        proof {
            assert(out@.map_values(|l: Vec<char>| l@) =~= before.push(piece@));
            if end < s@.len() {
                assert(rest.take(end - start + 1) =~= piece@);
                assert(rest.skip(end - start + 1) =~= s@.skip(stop as int));
            } else {
                assert(rest =~= piece@);
                assert(s@.skip(stop as int).len() == 0);
                assert(incl_pieces(s@.skip(stop as int)) =~= Seq::<Seq<char>>::empty());
            }
            assert(before.push(piece@) + incl_pieces(s@.skip(stop as int)) =~= before + (seq![
                piece@,
            ] + incl_pieces(s@.skip(stop as int))));
        }
        start = stop;
    }
    proof {
        assert(s@.skip(start as int).len() == 0);
        assert(out@.map_values(|l: Vec<char>| l@) + incl_pieces(s@.skip(start as int)) =~= out@.map_values(
            |l: Vec<char>| l@,
        ));
    }
    out
}

/// `str::split_once(':')`.
pub open spec fn key_value(line: Seq<char>) -> Option<(Seq<char>, Seq<char>)> {
    match index_of_char(line, ':') {
        Some(k) => Some((line.take(k), line.skip(k + 1))),
        None => None,
    }
}

/// A yes in a settings value.
pub open spec fn is_yes(v: Seq<char>) -> bool {
    v == "yes"@ || v == "true"@ || v == "1"@
}

/// One front-matter entry applied to the details read so far.
pub open spec fn meta_set(m: MetaV, k: Seq<char>, v: Seq<char>) -> MetaV {
    if k == "title"@ {
        MetaV { title: v, author: m.author, contact: m.contact, draft: m.draft, starred: m.starred }
    } else if k == "author"@ {
        MetaV { title: m.title, author: v, contact: m.contact, draft: m.draft, starred: m.starred }
    } else if k == "contact"@ {
        MetaV { title: m.title, author: m.author, contact: v, draft: m.draft, starred: m.starred }
    } else if k == "draft"@ {
        MetaV { title: m.title, author: m.author, contact: m.contact, draft: v, starred: m.starred }
    } else if k == "starred"@ {
        MetaV {
            title: m.title,
            author: m.author,
            contact: m.contact,
            draft: m.draft,
            starred: is_yes(v),
        }
    } else {
        m
    }
}

/// Reading the front matter's first `n` lines: the details, where the body
/// starts once the closing fence is found, and how far the reading got.
pub open spec fn fm_fold(ps: Seq<Seq<char>>, n: nat) -> (MetaV, Option<nat>, nat)
    decreases n,
{
    if n == 0 || n > ps.len() {
        (empty_meta(), None, 0)
    } else {
        let (m, start, idx) = fm_fold(ps, (n - 1) as nat);
        if start is Some {
            (m, start, idx)
        } else {
            let p = ps[n - 1];
            let idx2 = idx + p.len();
            let t = trim_end(p);
            if t == "---"@ {
                (m, Some(idx2), idx2)
            } else {
                match key_value(t) {
                    Some((k, v)) => (meta_set(m, trim(k), trim(v)), None, idx2),
                    None => (m, None, idx2),
                }
            }
        }
    }
}

/// The length of the opening fence, if the text has one.
pub open spec fn fence_len(text: Seq<char>) -> Option<nat> {
    if has_prefix(text, "---\n"@) {
        Some("---\n"@.len())
    } else if has_prefix(text, "---\r\n"@) {
        Some("---\r\n"@.len())
    } else {
        None
    }
}

/// The details in the front matter, and where the body starts: after the
/// closing fence, or at the very start if there is no front matter.
pub open spec fn front_matter(text: Seq<char>) -> (MetaV, nat) {
    match fence_len(text) {
        None => (empty_meta(), 0),
        Some(o) => {
            let ps = incl_pieces(text.skip(o as int));
            let (m, start, _) = fm_fold(ps, ps.len());
            match start {
                Some(i) => (m, o + i),
                None => (m, 0),
            }
        },
    }
}

/// A card comment read back: (colour, synopsis), or `None` for any other
/// line.
pub open spec fn parse_card(line: Seq<char>) -> Option<(Option<usize>, Seq<char>)> {
    let a = line.skip("<!--"@.len() as int);
    if has_prefix(line, "<!--"@) && has_suffix(a, "-->"@) {
        let inner = trim(a.take(a.len() - "-->"@.len()));
        if has_prefix(inner, "scene:"@) {
            let rest = trim(inner.skip("scene:"@.len() as int));
            if has_prefix(rest, "tint="@) {
                let after = rest.skip("tint="@.len() as int);
                match index_of_char(after, '|') {
                    Some(k) => Some((parse_usize_spec(trim(after.take(k))), trim(after.skip(k + 1)))),
                    None => Some((parse_usize_spec(trim(after)), seq![])),
                }
            } else {
                Some((None, rest))
            }
        } else {
            None
        }
    } else {
        None
    }
}

/// The element and text a (trimmed, non-empty, non-card) line is read as.
pub open spec fn md_read(line: Seq<char>) -> (Element, Seq<char>) {
    let n = line.len();
    if n > 0 && line[0] == '\\' {
        (Element::Action, line.drop_first())
    } else if has_prefix(line, "### "@) {
        (Element::Shot, upper(trim(line.skip("### "@.len() as int))))
    } else if has_prefix(line, "## "@) {
        (Element::SceneHeading, upper(trim(line.skip("## "@.len() as int))))
    } else if line == "##"@ {
        (Element::SceneHeading, seq![])
    } else if has_prefix(line, "# "@) {
        (Element::SceneHeading, upper(trim(line.skip("# "@.len() as int))))
    } else if has_prefix(line, "> "@) {
        (Element::Dialogue, trim(line.skip("> "@.len() as int)))
    } else if line == ">"@ {
        (Element::Dialogue, seq![])
    } else if n >= 4 && has_prefix(line, "**"@) && has_suffix(line, "**"@) {
        (Element::Character, upper(trim(line.subrange(2, n - 2))))
    } else if n >= 4 && has_prefix(line, "``"@) && has_suffix(line, "``"@) && line.subrange(
        2,
        n - 2,
    ).contains('`') {
        (Element::Transition, upper(trim(line.subrange(2, n - 2))))
    } else if n >= 2 && line[0] == '`' && line[n - 1] == '`' && !line.subrange(1, n - 1).contains(
        '`',
    ) {
        (Element::Transition, upper(trim(line.subrange(1, n - 1))))
    } else if has_prefix(line, "*("@) && has_suffix(line, ")*"@) {
        (Element::Parenthetical, trim(line.subrange(1, n - 1)))
    } else if n > 0 && line[0] == '(' && line[n - 1] == ')' {
        (Element::Parenthetical, line)
    } else {
        (Element::Action, line)
    }
}

/// One line of the body into the blocks read so far (with the last id
/// given): blank lines are nothing, a card goes on the heading right above
/// it, any other line is a new block.
pub open spec fn md_step(st: (Seq<BlockV>, nat), raw: Seq<char>) -> (Seq<BlockV>, nat) {
    let (bs, id) = st;
    let line = trim(raw);
    if line.len() == 0 {
        st
    } else {
        match parse_card(line) {
            Some((tint, note)) => if bs.len() > 0 && bs.last().element == Element::SceneHeading {
                let last = bs.last();
                (
                    bs.update(
                        bs.len() - 1,
                        BlockV {
                            id: last.id,
                            element: last.element,
                            text: last.text,
                            note,
                            tint,
                        },
                    ),
                    id,
                )
            } else {
                st
            },
            None => {
                let (e, t) = md_read(line);
                (
                    bs.push(
                        BlockV {
                            id: (id + 1) as u64,
                            element: e,
                            text: t,
                            note: seq![],
                            tint: None,
                        },
                    ),
                    id + 1,
                )
            },
        }
    }
}

/// The body's lines read in order from state `st`.
pub open spec fn md_run(st: (Seq<BlockV>, nat), ls: Seq<Seq<char>>) -> (Seq<BlockV>, nat)
    decreases ls.len(),
{
    if ls.len() == 0 {
        st
    } else {
        md_step(md_run(st, ls.drop_last()), ls.last())
    }
}

/// Nothing in a file is dropped: every line with words in it that is not a
/// card becomes a block of its own, numbered next, and a line the reader
/// does not recognise becomes action, word for word (a leading backslash,
/// which marks a line as plain text, aside).
pub proof fn law_nothing_dropped(st: (Seq<BlockV>, nat), raw: Seq<char>)
    requires
        trim(raw).len() > 0,
        parse_card(trim(raw)) is None,
    ensures
        md_step(st, raw).0 == st.0.push(
            BlockV {
                id: (st.1 + 1) as u64,
                element: md_read(trim(raw)).0,
                text: md_read(trim(raw)).1,
                note: seq![],
                tint: None,
            },
        ),
        md_step(st, raw).1 == st.1 + 1,
        md_read(trim(raw)).0 == Element::Action ==> (if trim(raw)[0] == '\\' {
            md_read(trim(raw)).1 == trim(raw).drop_first()
        } else {
            md_read(trim(raw)).1 == trim(raw)
        }),
{
}

/// The first `n` lines of the body, read from the start.
pub open spec fn md_fold(ls: Seq<Seq<char>>, n: nat) -> (Seq<BlockV>, nat) {
    md_run((seq![], 0), ls.take(n as int))
}

/// The blocks a markdown file holds; an empty heading if it holds none.
pub open spec fn md_doc_blocks(text: Seq<char>) -> Seq<BlockV> {
    let body = text.skip(front_matter(text).1 as int);
    let ls = lines(body);
    let bs = md_fold(ls, ls.len()).0;
    if bs.len() == 0 {
        seq![BlockV { id: 2, element: Element::SceneHeading, text: seq![], note: seq![], tint: None }]
    } else {
        bs
    }
}

proof fn lemma_md_run_ids(st: (Seq<BlockV>, nat), ls: Seq<Seq<char>>)
    requires
        st.1 + ls.len() < u64::MAX,
        st.0.len() <= st.1,
        forall|i: int| 0 <= i < st.0.len() ==> 1 <= #[trigger] st.0[i].id <= st.1,
    ensures
        md_run(st, ls).1 <= st.1 + ls.len(),
        md_run(st, ls).0.len() <= md_run(st, ls).1,
        forall|i: int|
            0 <= i < md_run(st, ls).0.len() ==> 1 <= #[trigger] md_run(st, ls).0[i].id
                <= md_run(st, ls).1,
    decreases ls.len(),
{
    if ls.len() > 0 {
        lemma_md_run_ids(st, ls.drop_last());
        let (bs, id) = md_run(st, ls.drop_last());
        let (bs2, id2) = md_run(st, ls);
        assert forall|i: int| 0 <= i < bs2.len() implies 1 <= #[trigger] bs2[i].id <= id2 by {
            if i < bs.len() {
                assert(bs2[i].id == bs[i].id);
            }
        }
    }
}

proof fn lemma_md_fold_ids(ls: Seq<Seq<char>>, n: nat)
    requires
        ls.len() < u64::MAX,
        n <= ls.len(),
    ensures
        md_fold(ls, n).1 <= n,
        md_fold(ls, n).0.len() <= md_fold(ls, n).1,
        forall|i: int|
            0 <= i < md_fold(ls, n).0.len() ==> 1 <= #[trigger] md_fold(ls, n).0[i].id
                <= md_fold(ls, n).1,
{
    lemma_md_run_ids((seq![], 0), ls.take(n as int));
}

fn read_front_matter(t: &[char]) -> (r: (Meta, usize))
    ensures
        r.0@ == front_matter(t@).0,
        r.1 == front_matter(t@).1,
        r.1 <= t@.len(),
{
    let o: usize = if starts_with_str(t, "---\n") {
        proof {
            reveal_strlit("---\n");
        }
        4
    } else if starts_with_str(t, "---\r\n") {
        proof {
            reveal_strlit("---\r\n");
        }
        5
    } else {
        proof {
            assert(fence_len(t@) is None);
        }
        return (Meta::default(), 0);
    };
    let tl = t.len();
    let rest = slice_of(t, o, tl);
    proof {
        assert(rest@ =~= t@.skip(o as int));
    }
    let ps = split_inclusive_lines(rest.as_slice());
    let ghost psv = ps@.map_values(|l: Vec<char>| l@);
    let mut meta = Meta::default();
    let mut start: Option<usize> = None;
    let mut idx: usize = 0;
    let mut i: usize = 0;
    proof {
        lemma_incl_pieces_total(rest@);
    }
    while i < ps.len()
        invariant
            i <= ps@.len(),
            psv == ps@.map_values(|l: Vec<char>| l@),
            (meta@, match start {
                Some(k) => Some(k as nat),
                None => None::<nat>,
            }, idx as nat) == fm_fold(psv, i as nat),
            pieces_len(psv, psv.len() as nat) == rest@.len(),
            idx as nat <= pieces_len(psv, i as nat),
            start matches Some(k) ==> k <= rest@.len(),
            rest@.len() + o == t@.len(),
            t@.len() == tl,
        decreases ps@.len() - i,
    {
        proof {
            assert(psv[i as int] == ps@[i as int]@);
            lemma_pieces_len_grows(psv, (i + 1) as nat, psv.len() as nat);
        }
        if start.is_none() {
            let p = &ps[i];
            let idx2 = idx + p.len();
            let tr = trim_end_chars_by(p.as_slice(), Strip::Space);
            if is_str(tr.as_slice(), "---") {
                start = Some(idx2);
            } else {
                proof {
                    lemma_index_of_char(tr@, ':');
                }
                match index_of(tr.as_slice(), ':') {
                    Some(k) => {
                        let kk = slice_of(tr.as_slice(), 0, k);
                        let trn = tr.len();
                        let vv = slice_of(tr.as_slice(), k + 1, trn);
                        let kk = trim_chars(kk.as_slice());
                        let vv = trim_chars(vv.as_slice());
                        proof {
                            assert(kk@ == trim(tr@.take(k as int)));
                            assert(vv@ == trim(tr@.skip(k + 1)));
                        }
                        let ks = kk.as_slice();
                        if is_str(ks, "title") {
                            meta.title = string_of(vv.as_slice());
                        } else if is_str(ks, "author") {
                            meta.author = string_of(vv.as_slice());
                        } else if is_str(ks, "contact") {
                            meta.contact = string_of(vv.as_slice());
                        } else if is_str(ks, "draft") {
                            meta.draft = string_of(vv.as_slice());
                        } else if is_str(ks, "starred") {
                            let vs = vv.as_slice();
                            meta.starred = is_str(vs, "yes") || is_str(vs, "true") || is_str(
                                vs,
                                "1",
                            );
                        }
                        proof {
                            assert(meta@ == meta_set(fm_fold(psv, i as nat).0, kk@, vv@));
                        }
                    },
                    None => {},
                }
            }
            idx = idx2;
        }
        i = i + 1;
    }
    proof {
        assert(fence_len(t@) == Some(o as nat));
    }
    match start {
        Some(k) => (meta, o + k),
        None => (meta, 0),
    }
}

/// How many characters the first `n` pieces hold.
pub open spec fn pieces_len(ps: Seq<Seq<char>>, n: nat) -> nat
    decreases n,
{
    if n == 0 || n > ps.len() {
        0
    } else {
        pieces_len(ps, (n - 1) as nat) + ps[n - 1].len()
    }
}

proof fn lemma_pieces_len_grows(ps: Seq<Seq<char>>, a: nat, b: nat)
    requires
        a <= b <= ps.len(),
    ensures
        pieces_len(ps, a) <= pieces_len(ps, b),
    decreases b,
{
    if a < b {
        lemma_pieces_len_grows(ps, a, (b - 1) as nat);
    }
}

proof fn lemma_pieces_len_prepend(x: Seq<char>, ps: Seq<Seq<char>>, n: nat)
    requires
        n <= ps.len(),
    ensures
        pieces_len(seq![x] + ps, n + 1) == x.len() + pieces_len(ps, n),
    decreases n,
{
    let all = seq![x] + ps;
    assert(pieces_len(all, n + 1) == pieces_len(all, n) + all[n as int].len());
    if n > 0 {
        lemma_pieces_len_prepend(x, ps, (n - 1) as nat);
        assert(all[n as int] == ps[n - 1]);
        assert(pieces_len(ps, n) == pieces_len(ps, (n - 1) as nat) + ps[n - 1].len());
    } else {
        assert(all[0] == x);
        assert(pieces_len(all, 0) == 0);
        assert(pieces_len(ps, 0) == 0);
    }
}

/// The inclusive pieces hold every character.
proof fn lemma_incl_pieces_total(s: Seq<char>)
    ensures
        pieces_len(incl_pieces(s), incl_pieces(s).len()) == s.len(),
    decreases s.len(),
{
    if s.len() > 0 {
        lemma_index_of_char(s, '\n');
        match index_of_char(s, '\n') {
            Some(k) => {
                lemma_incl_pieces_total(s.skip(k + 1));
                let rest = incl_pieces(s.skip(k + 1));
                lemma_pieces_len_prepend(s.take(k + 1), rest, rest.len());
            },
            None => {
                let one = seq![s];
                assert(pieces_len(one, 0) == 0);
                assert(one[0] == s);
            },
        }
    }
}

/// A card comment read back, on characters.
fn parse_card_of(line: &[char]) -> (r: Option<(Option<usize>, Vec<char>)>)
    ensures
        match r {
            Some((t, n)) => parse_card(line@) == Some((t, n@)),
            None => parse_card(line@) is None,
        },
{
    proof {
        reveal_strlit("<!--");
        reveal_strlit("-->");
        reveal_strlit("scene:");
        reveal_strlit("tint=");
    }
    if !starts_with_str(line, "<!--") {
        return None;
    }
    let a = slice_of(line, 4, line.len());
    proof {
        assert(a@ =~= line@.skip(4));
    }
    if !ends_with_str(a.as_slice(), "-->") {
        return None;
    }
    let inner = slice_of(a.as_slice(), 0, a.len() - 3);
    proof {
        assert(inner@ =~= a@.take(a@.len() - 3));
    }
    let inner = trim_chars(inner.as_slice());
    if !starts_with_str(inner.as_slice(), "scene:") {
        return None;
    }
    let rest = slice_of(inner.as_slice(), 6, inner.len());
    proof {
        assert(rest@ =~= inner@.skip(6));
    }
    let rest = trim_chars(rest.as_slice());
    if starts_with_str(rest.as_slice(), "tint=") {
        let after = slice_of(rest.as_slice(), 5, rest.len());
        proof {
            assert(after@ =~= rest@.skip(5));
            lemma_index_of_char(after@, '|');
        }
        match index_of(after.as_slice(), '|') {
            Some(k) => {
                let num = slice_of(after.as_slice(), 0, k);
                let note = slice_of(after.as_slice(), k + 1, after.len());
                proof {
                    assert(num@ =~= after@.take(k as int));
                    assert(note@ =~= after@.skip(k + 1));
                }
                let num = trim_chars(num.as_slice());
                let note = trim_chars(note.as_slice());
                Some((parse_usize(num.as_slice()), note))
            },
            None => {
                let num = trim_chars(after.as_slice());
                Some((parse_usize(num.as_slice()), Vec::new()))
            },
        }
    } else {
        Some((None, rest))
    }
}

/// How a line of the body is read, on characters.
fn md_read_of(line: &[char]) -> (r: (Element, Vec<char>))
    ensures
        (r.0, r.1@) == md_read(line@),
{
    let n = line.len();
    proof {
        reveal_strlit("### ");
        reveal_strlit("## ");
        reveal_strlit("# ");
        reveal_strlit("> ");
    }
    if n > 0 && line[0] == '\\' {
        let rest = slice_of(line, 1, n);
        proof {
            assert(rest@ =~= line@.drop_first());
        }
        return (Element::Action, rest);
    }
    if starts_with_str(line, "### ") {
        let rest = slice_of(line, 4, n);
        proof {
            assert(rest@ =~= line@.skip(4));
        }
        let t = trim_chars(rest.as_slice());
        return (Element::Shot, to_upper(t.as_slice()));
    }
    if starts_with_str(line, "## ") {
        let rest = slice_of(line, 3, n);
        proof {
            assert(rest@ =~= line@.skip(3));
        }
        let t = trim_chars(rest.as_slice());
        return (Element::SceneHeading, to_upper(t.as_slice()));
    }
    if is_str(line, "##") {
        return (Element::SceneHeading, Vec::new());
    }
    if starts_with_str(line, "# ") {
        let rest = slice_of(line, 2, n);
        proof {
            assert(rest@ =~= line@.skip(2));
        }
        let t = trim_chars(rest.as_slice());
        return (Element::SceneHeading, to_upper(t.as_slice()));
    }
    if starts_with_str(line, "> ") {
        let rest = slice_of(line, 2, n);
        proof {
            assert(rest@ =~= line@.skip(2));
        }
        return (Element::Dialogue, trim_chars(rest.as_slice()));
    }
    if is_str(line, ">") {
        return (Element::Dialogue, Vec::new());
    }
    if n >= 4 && starts_with_str(line, "**") && ends_with_str(line, "**") {
        let inner = slice_of(line, 2, n - 2);
        let t = trim_chars(inner.as_slice());
        return (Element::Character, to_upper(t.as_slice()));
    }
    if n >= 4 && starts_with_str(line, "``") && ends_with_str(line, "``") {
        let inner = slice_of(line, 2, n - 2);
        if crate::text::contains_char(inner.as_slice(), '`') {
            let t = trim_chars(inner.as_slice());
            return (Element::Transition, to_upper(t.as_slice()));
        }
    }
    if n >= 2 && line[0] == '`' && line[n - 1] == '`' {
        let inner = slice_of(line, 1, n - 1);
        if !crate::text::contains_char(inner.as_slice(), '`') {
            let t = trim_chars(inner.as_slice());
            return (Element::Transition, to_upper(t.as_slice()));
        }
    }
    if starts_with_str(line, "*(") && ends_with_str(line, ")*") {
        proof {
            reveal_strlit("*(");
            reveal_strlit(")*");
        }
        let inner = slice_of(line, 1, n - 1);
        return (Element::Parenthetical, trim_chars(inner.as_slice()));
    }
    if n > 0 && line[0] == '(' && line[n - 1] == ')' {
        return (Element::Parenthetical, slice_of(line, 0, n));
    }
    (Element::Action, slice_of(line, 0, n))
}

/// Read a script back from its markdown.
pub fn from_markdown(text: &str) -> (r: Document)
    requires
        text@.len() < usize::MAX,
    ensures
        r.meta@ == front_matter(text@).0,
        views(r.blocks@) == md_doc_blocks(text@),
        r.counter() == max_id(r.blocks@) + 1,
        r.ids_fresh(),
{
    let t = chars_of(text);
    let (meta, start) = read_front_matter(t.as_slice());
    let body = slice_of(t.as_slice(), start, t.len());
    proof {
        assert(body@ =~= text@.skip(start as int));
    }
    let ls = split_lines(body.as_slice());
    let ghost lsv = ls@.map_values(|l: Vec<char>| l@);
    proof {
        crate::text::lemma_lines_len(body@);
    }
    let mut blocks: Vec<Block> = Vec::new();
    let mut id: u64 = 0;
    let mut i: usize = 0;
    while i < ls.len()
        invariant
            i <= ls@.len(),
            lsv == ls@.map_values(|l: Vec<char>| l@),
            lsv.len() < usize::MAX,
            (views(blocks@), id as nat) == md_fold(lsv, i as nat),
        decreases ls@.len() - i,
    {
        proof {
            assert(lsv[i as int] == ls@[i as int]@);
            lemma_md_fold_ids(lsv, i as nat);
            assert(lsv.take(i + 1).drop_last() =~= lsv.take(i as int));
            assert(lsv.take(i + 1).last() == lsv[i as int]);
        }
        let line = trim_chars(ls[i].as_slice());
        if line.len() > 0 {
            match parse_card_of(line.as_slice()) {
                Some((tint, note)) => {
                    let n = blocks.len();
                    if n > 0 && blocks[n - 1].element == Element::SceneHeading {
                        let last = &blocks[n - 1];
                        let nb = Block {
                            id: last.id,
                            element: last.element,
                            text: last.text.clone(),
                            note: string_of(note.as_slice()),
                            tint,
                        };
                        let ghost before = views(blocks@);
                        blocks.set(n - 1, nb);
                        proof {
                            assert(views(blocks@) =~= before.update(n - 1, nb@));
                        }
                    }
                },
                None => {
                    let (e, tx) = md_read_of(line.as_slice());
                    id = id + 1;
                    let nb = Block {
                        id,
                        element: e,
                        text: string_of(tx.as_slice()),
                        note: String::new(),
                        tint: None,
                    };
                    let ghost before = views(blocks@);
                    blocks.push(nb);
                    proof {
                        assert(views(blocks@) =~= before.push(nb@));
                    }
                },
            }
        }
        i = i + 1;
    }
    proof {
        lemma_md_fold_ids(lsv, i as nat);
    }
    let mut doc = Document::from_parts(meta, Vec::new());
    proof {
        assert(doc.blocks@.drop_last() =~= Seq::<Block>::empty());
        assert(doc.blocks@.last() == doc.blocks@[0]);
        assert(max_id(doc.blocks@.drop_last()) == 0);
        assert(max_id(doc.blocks@) == 1);
    }
    doc.blocks = blocks;
    doc.ensure_not_empty();
    proof {
        assert(lsv == lines(text@.skip(front_matter(text@).1 as int)));
        assert(md_fold(lsv, lsv.len()).0 == views(blocks@));
        if views(blocks@).len() == 0 {
            assert(views(doc.blocks@)[0] == doc.blocks@[0]@);
            assert(doc.blocks@[0].text@ =~= Seq::<char>::empty());
            assert(doc.blocks@[0].note@ =~= Seq::<char>::empty());
            assert(views(doc.blocks@) =~= md_doc_blocks(text@));
        } else {
            assert(doc.blocks@ == blocks@);
            assert(views(doc.blocks@) =~= md_doc_blocks(text@));
        }
        assert forall|k: int| 0 <= k < doc.blocks@.len() implies doc.blocks@[k].id < u64::MAX by {
            if views(blocks@).len() > 0 {
                assert(views(blocks@)[k] == doc.blocks@[k]@);
                assert(md_fold(lsv, lsv.len()).0[k].id <= md_fold(lsv, lsv.len()).1);
                assert(md_fold(lsv, lsv.len()).1 <= lsv.len());
            }
        }
    }
    doc.reseed_ids();
    doc
}


// ------------------------------------------------------- library, import --

/// The name the script for `title` is saved under, the `n`-th free one:
/// the slug, then `-2`, `-3` ... after the first.
pub open spec fn script_file_name(title: Seq<char>, n: nat) -> Seq<char> {
    if n == 1 {
        slug(title) + ".md"@
    } else {
        slug(title) + "-"@ + dec(n) + ".md"@
    }
}

/// The `n`-th file name tried for a script titled `title`.
pub fn candidate_name(title: &str, n: usize) -> (r: String)
    ensures
        r@ == script_file_name(title@, n as nat),
{
    let base = slugify(title);
    let mut out = chars_of(base.as_str());
    if n != 1 {
        push_str(&mut out, "-");
        push_decimal(&mut out, n);
    }
    push_str(&mut out, ".md");
    string_of(out.as_slice())
}

/// Whether a file stem still names the script titled `title`: the title's
/// slug, or the slug, a dash and a number that fits in a `u32` (the stem of
/// a second, third ... script of that title).
pub open spec fn stem_fits(stem: Seq<char>, title: Seq<char>) -> bool {
    ||| stem == slug(title)
    ||| match rfind_char(stem, '-') {
        Some(k) => stem.take(k) == slug(title) && match parse_usize_spec(stem.skip(k + 1)) {
            Some(v) => v <= u32::MAX,
            None => false,
        },
        None => false,
    }
}

/// Whether a script saved under `stem` can keep its file name after its
/// title changed, or should be renamed to follow the title.
pub fn stem_fits_title(stem: &str, title: &str) -> (r: bool)
    ensures
        r == stem_fits(stem@, title@),
{
    let wanted = slugify(title);
    let w = chars_of(wanted.as_str());
    let s = chars_of(stem);
    if same(s.as_slice(), w.as_slice()) {
        return true;
    }
    proof {
        lemma_rfind_char(s@, '-');
    }
    match rfind_in(s.as_slice(), '-') {
        Some(k) => {
            assert(k < s@.len());
            let head = slice_of(s.as_slice(), 0, k);
            let tail = slice_of(s.as_slice(), k + 1, s.len());
            proof {
                assert(head@ =~= s@.take(k as int));
                assert(tail@ =~= s@.skip(k + 1));
            }
            if !same(head.as_slice(), w.as_slice()) {
                return false;
            }
            match parse_usize(tail.as_slice()) {
                Some(v) => v as u64 <= 4294967295u64,
                None => false,
            }
        },
        None => false,
    }
}

/// The `n`-th file stem tried for a script titled `title`.
pub open spec fn script_stem(title: Seq<char>, n: nat) -> Seq<char> {
    if n == 1 {
        slug(title)
    } else {
        slug(title) + "-"@ + dec(n)
    }
}

/// The last dash of a stem whose number follows its only trailing dash.
proof fn lemma_last_dash(x: Seq<char>, d: Seq<char>)
    requires
        forall|i: int| 0 <= i < d.len() ==> #[trigger] d[i] != '-',
    ensures
        rfind_char(x + seq!['-'] + d, '-') == Some(x.len() as int),
    decreases d.len(),
{
    let s = x + seq!['-'] + d;
    if d.len() == 0 {
        assert(s.last() == '-');
    } else {
        assert(s.last() == d.last());
        assert(s.drop_last() =~= x + seq!['-'] + d.drop_last());
        lemma_last_dash(x, d.drop_last());
    }
}

/// A script saved under the name its title gives keeps that name when it is
/// saved again: the `n`-th file name for a title is the stem the title
/// fits, then `.md`.
pub proof fn law_named_files_fit_their_title(title: Seq<char>, n: nat)
    requires
        1 <= n <= u32::MAX,
    ensures
        stem_fits(script_stem(title, n), title),
        script_file_name(title, n) == script_stem(title, n) + ".md"@,
{
    if n != 1 {
        reveal_strlit("-");
        let w = slug(title);
        let d = dec(n);
        lemma_dec_digits(n);
        assert forall|i: int| 0 <= i < d.len() implies #[trigger] d[i] != '-' by {
            assert(is_digit(d[i]));
        }
        assert("-"@ =~= seq!['-']);
        lemma_last_dash(w, d);
        let s = script_stem(title, n);
        assert(s.take(w.len() as int) =~= w);
        assert(s.skip(w.len() as int + 1) =~= d);
        assert(parse_usize_spec(d) == Some(n as usize));
    }
}

/// When a snapshot was taken, as it reads in its file name
/// (`2026-09-24_14-05-09` reads `2026-09-24 14:05:09`).
pub open spec fn snapshot_when_of(stem: Seq<char>) -> Seq<char> {
    match index_of_char(stem, '_') {
        Some(k) => stem.take(k) + " "@ + replace(stem.skip(k + 1), "-"@, ":"@),
        None => stem,
    }
}

pub fn snapshot_when(stem: &str) -> (r: String)
    ensures
        r@ == snapshot_when_of(stem@),
{
    let c = chars_of(stem);
    proof {
        lemma_index_of_char(c@, '_');
        reveal_strlit("-");
    }
    match index_of(c.as_slice(), '_') {
        Some(k) => {
            let n = c.len();
            let mut out = slice_of(c.as_slice(), 0, k);
            push_str(&mut out, " ");
            let rest = slice_of(c.as_slice(), k + 1, n);
            let t = replace_chars(rest.as_slice(), "-", ":");
            push_all(&mut out, t.as_slice());
            proof {
                assert(c@.take(k as int) =~= c@.subrange(0, k as int));
                assert(c@.skip(k + 1) =~= rest@);
            }
            string_of(out.as_slice())
        },
        None => string_of(c.as_slice()),
    }
}

/// A file name's stem as a title: dashes and underscores read as spaces.
pub open spec fn stem_title(stem: Seq<char>) -> Seq<char> {
    stem.map_values(|c: char| if c == '-' || c == '_' {
        ' '
    } else {
        c
    })
}

fn stem_to_title(stem: &[char]) -> (r: Vec<char>)
    ensures
        r@ == stem_title(stem@),
{
    let mut out: Vec<char> = Vec::new();
    let mut i: usize = 0;
    while i < stem.len()
        invariant
            i <= stem@.len(),
            out@ == stem_title(stem@.take(i as int)),
        decreases stem@.len() - i,
    {
        let ch = stem[i];
        out.push(if ch == '-' || ch == '_' {
            ' '
        } else {
            ch
        });
        proof {
            assert(stem_title(stem@.take(i + 1)) =~= stem_title(stem@.take(i as int)).push(
                out@.last(),
            ));
        }
        i = i + 1;
    }
    proof {
        assert(stem@.take(i as int) =~= stem@);
    }
    out
}

/// How a file is read by its extension: 0 markdown, 1 Final Draft, 2 Fountain
/// (which degrades to plain action for anything else).
pub open spec fn import_kind(ext: Seq<char>) -> int {
    let e = lower(ext);
    if e == "md"@ || e == "markdown"@ {
        0
    } else if e == "fdx"@ {
        1
    } else {
        2
    }
}

/// How a file with extension `ext` is read: 0 markdown, 1 Final Draft,
/// 2 Fountain. A Final Draft file is checked with `fdx_is_readable` first.
pub fn import_kind_of(ext: &str) -> (r: u8)
    ensures
        r as int == import_kind(ext@),
{
    let ec = chars_of(ext);
    let low = to_lower(ec.as_slice());
    let l = low.as_slice();
    if is_str(l, "md") || is_str(l, "markdown") {
        0
    } else if is_str(l, "fdx") {
        1
    } else {
        2
    }
}

/// What importing `text`, from a file with extension `ext` and stem `stem`,
/// reads before the tidy-up: the details and the blocks.
pub open spec fn imported(text: Seq<char>, ext: Seq<char>) -> (MetaV, Seq<BlockV>) {
    let k = import_kind(ext);
    if k == 0 {
        (front_matter(text).0, md_doc_blocks(text))
    } else if k == 1 {
        (fdx_meta(text), fdx_blocks(text))
    } else {
        (fountain_meta(text), fountain_blocks(text))
    }
}

/// Read a screenplay from another format into a document. Fountain, Final
/// Draft and Northstar's own markdown are understood; anything else is read
/// as Fountain, which degrades to plain action. A script without a title is
/// named after its file; every block is tidied as before saving.
pub fn import_text(text: &str, ext: &str, stem: &str) -> (r: Document)
    requires
        text@.len() <= isize::MAX,
        import_kind(ext@) == 1 ==> fdx_readable(text@),
    ensures
        ({
            let (m, bs) = imported(text@, ext@);
            &&& r.meta@ == (if trim(m.title).len() == 0 {
                MetaV { title: stem_title(stem@), ..m }
            } else {
                m
            })
            &&& r.blocks@.len() == bs.len()
            &&& forall|i: int|
                #![trigger r.blocks@[i]]
                0 <= i < bs.len() ==> r.blocks@[i]@ == BlockV {
                    text: normal_text(bs[i].element, bs[i].text),
                    ..bs[i]
                }
        }),
        r.ids_fresh(),
        r.counter() == max_id(r.blocks@) + 1,
{
    let ec = chars_of(ext);
    let low = to_lower(ec.as_slice());
    let l = low.as_slice();
    let mut doc = if is_str(l, "md") || is_str(l, "markdown") {
        from_markdown(text)
    } else if is_str(l, "fdx") {
        parse_fdx(text)
    } else {
        parse(text)
    };
    let ghost parsed = doc;
    let tc = chars_of(doc.meta.title.as_str());
    if is_blank(tc.as_slice()) {
        let sc = chars_of(stem);
        doc.meta.title = string_of(stem_to_title(sc.as_slice()).as_slice());
    }
    proof {
        assert(forall|j: int| 0 <= j < doc.blocks@.len() ==> doc.blocks@[j].id < doc.counter());
    }
    let ghost before = doc.blocks@;
    doc.normalize();
    proof {
        crate::model::lemma_max_id_same_ids(before, doc.blocks@);
        let bs = imported(text@, ext@).1;
        assert forall|i: int| 0 <= i < bs.len() implies #[trigger] doc.blocks@[i]@ == BlockV {
            text: normal_text(bs[i].element, bs[i].text),
            ..bs[i]
        } by {
            assert(views(parsed.blocks@)[i] == parsed.blocks@[i]@);
        }
    }
    doc
}

/// The first line of the body worth showing, from line `i` on: trimmed,
/// not blank, not a card.
pub open spec fn first_shown(ls: Seq<Seq<char>>, i: int) -> Seq<char>
    decreases ls.len() - i,
{
    if i < 0 || i >= ls.len() {
        seq![]
    } else if trim(ls[i]).len() > 0 && !has_prefix(trim(ls[i]), "<!--"@) {
        trim(ls[i])
    } else {
        first_shown(ls, i + 1)
    }
}

/// The line the library shows under a script's title: its first line of
/// text, without markdown's marks, at most seventy characters.
pub open spec fn preview_of(text: Seq<char>) -> Seq<char> {
    let p = trim_start_by(
        first_shown(lines(text.skip(front_matter(text).1 as int)), 0),
        Strip::Markup,
    );
    if p.len() <= 70 {
        p
    } else {
        p.take(70)
    }
}

/// What the library shows of a script besides its length.
pub struct Listing {
    pub title: String,
    pub preview: String,
    pub starred: bool,
}

/// The library's line for the script saved as `text` in a file whose stem
/// is `stem`: its title (the stem where it has none), its first line, its
/// star.
pub fn listing(text: &str, stem: &str) -> (r: Listing)
    ensures
        r.title@ == (if trim(front_matter(text@).0.title).len() == 0 {
            stem@
        } else {
            front_matter(text@).0.title
        }),
        r.preview@ == preview_of(text@),
        r.starred == front_matter(text@).0.starred,
{
    let t = chars_of(text);
    let (meta, start) = read_front_matter(t.as_slice());
    let body = slice_of(t.as_slice(), start, t.len());
    proof {
        assert(body@ =~= text@.skip(start as int));
    }
    let ls = split_lines(body.as_slice());
    let ghost lv = ls@.map_values(|l: Vec<char>| l@);
    let mut shown: Vec<char> = Vec::new();
    let mut i: usize = 0;
    proof {
        reveal_strlit("<!--");
    }
    loop
        invariant_except_break
            i <= ls@.len(),
            lv == ls@.map_values(|l: Vec<char>| l@),
            first_shown(lv, 0) == first_shown(lv, i as int),
            shown@.len() == 0,
        ensures
            shown@ == first_shown(lv, 0),
        decreases ls@.len() - i,
    {
        if i >= ls.len() {
            proof {
                assert(shown@ =~= Seq::<char>::empty());
            }
            break;
        }
        proof {
            assert(lv[i as int] == ls@[i as int]@);
        }
        let l = trim_chars(ls[i].as_slice());
        if l.len() > 0 && !starts_with_str(l.as_slice(), "<!--") {
            shown = l;
            break;
        }
        i = i + 1;
    }
    let p = crate::text::trim_start_chars_by(shown.as_slice(), Strip::Markup);
    let pn = p.len();
    let keep = if pn <= 70 {
        pn
    } else {
        70
    };
    let pv = slice_of(p.as_slice(), 0, keep);
    proof {
        assert(shown@ == first_shown(lv, 0));
        assert(pv@ =~= preview_of(text@));
    }
    let title = if is_blank(chars_of(meta.title.as_str()).as_slice()) {
        stem.to_owned()
    } else {
        meta.title.clone()
    };
    Listing { title, preview: string_of(pv.as_slice()), starred: meta.starred }
}
} // verus!
