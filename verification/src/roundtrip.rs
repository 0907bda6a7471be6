//! What a script's markdown file gives back.
//!
//! Every block the file can carry exactly comes back from it as it went in:
//! the same element, the same text, a heading with its card. This module
//! says which blocks those are and proves it.

use vstd::prelude::*;

use crate::model::{empty_meta, paren_wrapped, upper_element, BlockV, Element, MetaV};
use crate::storage::{
    card_comment, card_note, defuse, esc_value, fence_len, fm_fold, front_matter, has_card,
    incl_pieces, is_yes, key_value, md_block, md_blocks, md_doc_blocks, md_head, md_line,
    md_read, md_run, md_step, md_text, meta_set, nl_to_space, paren_inner, parse_card,
    pieces_len,
};
use crate::text::{
    dec, has_prefix, index_of_char, is_digit, is_ws, lemma_dec_digits, lemma_lines_append,
    lemma_lines_cons, lemma_trim_end_fixed, lemma_trim_end_ws_tail, lemma_trim_fixed,
    lemma_trim_start_ws_head, lemma_trimmed_ends, lines, parse_usize_spec, strip_cr, trim,
    trim_end, trim_start_by, upper, Strip,
};

verus! {

/// A value that survives the front matter: trimmed, on one line.
pub open spec fn value_ok(v: Seq<char>) -> bool {
    v == trim(v) && !v.contains('\n')
}

/// Title-page details that the front matter carries exactly.
pub open spec fn meta_faithful(m: MetaV) -> bool {
    value_ok(m.title) && value_ok(m.author) && value_ok(m.contact) && value_ok(m.draft)
}

/// No `-->` anywhere in `s`, which would end the card's comment.
pub open spec fn no_arrow(s: Seq<char>) -> bool {
    forall|i: int| 0 <= i && i + 2 < s.len() ==> !(#[trigger] s[i] == '-' && s[i + 1] == '-' && s[i + 2] == '>')
}

/// A block that the markdown file carries exactly: its text trimmed and on
/// one line, capitals already where the element prints in capitals, a
/// parenthetical already in its parentheses, and a heading's synopsis
/// trimmed, on one line and free of `-->`.
pub open spec fn md_faithful(b: BlockV) -> bool {
    let t = b.text;
    &&& value_ok(t)
    &&& (t.len() > 0 || (b.element == Element::SceneHeading && has_card(b)))
    &&& (upper_element(b.element) ==> upper(t) == t)
    &&& (b.element == Element::Parenthetical ==> t == paren_wrapped(t))
    &&& (b.element == Element::SceneHeading ==> value_ok(b.note) && no_arrow(b.note) && (b.tint is None
        ==> !has_prefix(b.note, "tint="@)))
}

/// What the file gives back for block `b`, read as the `id`-th block.
pub open spec fn read_back(b: BlockV, id: nat) -> BlockV {
    if b.element == Element::SceneHeading {
        BlockV { id: id as u64, element: b.element, text: b.text, note: b.note, tint: b.tint }
    } else {
        BlockV { id: id as u64, element: b.element, text: b.text, note: seq![], tint: None }
    }
}

proof fn lemma_not_prefix(s: Seq<char>, p: Seq<char>, j: int)
    requires
        0 <= j < p.len(),
        j < s.len(),
        s[j] != p[j],
    ensures
        !has_prefix(s, p),
{
    if has_prefix(s, p) {
        assert(s.take(p.len() as int)[j] == s[j]);
    }
}

/// What the reader needs of a block's written line to give the block back.
spec fn reads_back(l: Seq<char>, e: Element, t: Seq<char>) -> bool {
    &&& l.len() > 0
    &&& !l.contains('\n')
    &&& trim(l) == l
    &&& strip_cr(l) == l
    &&& parse_card(l) is None
    &&& md_read(l) == (e, t)
}

proof fn lemma_no_newline(a: Seq<char>, t: Seq<char>, b: Seq<char>)
    requires
        !a.contains('\n'),
        !t.contains('\n'),
        !b.contains('\n'),
    ensures
        !(a + t + b).contains('\n'),
{
    let s = a + t + b;
    assert forall|j: int| 0 <= j < s.len() implies s[j] != '\n' by {
        if j < a.len() {
            assert(s[j] == a[j]);
        } else if j < a.len() + t.len() {
            assert(s[j] == t[j - a.len()]);
        } else {
            assert(s[j] == b[j - a.len() - t.len()]);
        }
    }
}

/// A line that opens with a markdown mark and ends in something that is not
/// white space is its own trim, and is no card.
proof fn lemma_marked(l: Seq<char>)
    requires
        l.len() > 0,
        l[0] == '#' || l[0] == '*' || l[0] == '>' || l[0] == '`' || l[0] == '\\',
        !is_ws(l.last()),
        l.last() != '\r',
    ensures
        trim(l) == l,
        trim_end(l) == l,
        strip_cr(l) == l,
        parse_card(l) is None,
{
    reveal_strlit("<!--");
    lemma_trim_fixed(l);
    lemma_trim_end_fixed(l);
    lemma_not_prefix(l, "<!--"@, 0);
}

proof fn lemma_heading_line(t: Seq<char>)
    requires
        t.len() > 0,
        value_ok(t),
        upper(t) == t,
    ensures
        reads_back(trim_end(md_line(Element::SceneHeading, t)), Element::SceneHeading, t),
{
    reveal_strlit("## ");
    reveal_strlit("### ");
    let l = "## "@ + t;
    lemma_trimmed_ends(t);
    assert(l.last() == t.last());
    lemma_marked(l);
    lemma_not_prefix(l, "### "@, 2);
    assert(l.take(3) =~= "## "@);
    assert(l.skip(3) =~= t);
    lemma_no_newline("## "@, t, seq![]);
    assert(l + seq![] =~= l);
}

proof fn lemma_shot_line(t: Seq<char>)
    requires
        t.len() > 0,
        value_ok(t),
        upper(t) == t,
    ensures
        reads_back(trim_end(md_line(Element::Shot, t)), Element::Shot, t),
{
    reveal_strlit("### ");
    let l = "### "@ + t;
    lemma_trimmed_ends(t);
    assert(l.last() == t.last());
    lemma_marked(l);
    assert(l.take(4) =~= "### "@);
    assert(l.skip(4) =~= t);
    lemma_no_newline("### "@, t, seq![]);
    assert(l + seq![] =~= l);
}

proof fn lemma_character_line(t: Seq<char>)
    requires
        t.len() > 0,
        value_ok(t),
        upper(t) == t,
    ensures
        reads_back(trim_end(md_line(Element::Character, t)), Element::Character, t),
{
    reveal_strlit("**");
    reveal_strlit("### ");
    reveal_strlit("## ");
    reveal_strlit("##");
    reveal_strlit("# ");
    reveal_strlit("> ");
    reveal_strlit(">");
    let l = "**"@ + t + "**"@;
    assert(l.last() == '*');
    lemma_marked(l);
    lemma_not_prefix(l, "### "@, 0);
    lemma_not_prefix(l, "## "@, 0);
    lemma_not_prefix(l, "# "@, 0);
    lemma_not_prefix(l, "> "@, 0);
    assert(l != "##"@) by {
        assert(l.len() != 2 || l[0] != '#');
    }
    assert(l != ">"@) by {
        assert(l[0] != '>');
    }
    assert(l.take(2) =~= "**"@);
    assert(l.skip(l.len() - 2) =~= "**"@);
    assert(l.subrange(2, l.len() - 2) =~= t);
    lemma_no_newline("**"@, t, "**"@);
}

proof fn lemma_paren_line(t: Seq<char>)
    requires
        t.len() > 0,
        value_ok(t),
        t == paren_wrapped(t),
    ensures
        reads_back(
            trim_end(md_line(Element::Parenthetical, t)),
            Element::Parenthetical,
            t,
        ),
{
    reveal_strlit("*(");
    reveal_strlit(")*");
    reveal_strlit("**");
    reveal_strlit("### ");
    reveal_strlit("## ");
    reveal_strlit("##");
    reveal_strlit("# ");
    reveal_strlit("> ");
    reveal_strlit(">");
    let inner = paren_inner(t);
    assert(t =~= seq!['('] + inner + seq![')']);
    let l = "*("@ + inner + ")*"@;
    assert(l.last() == '*');
    lemma_marked(l);
    lemma_not_prefix(l, "### "@, 0);
    lemma_not_prefix(l, "## "@, 0);
    lemma_not_prefix(l, "# "@, 0);
    lemma_not_prefix(l, "> "@, 0);
    lemma_not_prefix(l, "**"@, 1);
    reveal_strlit("``");
    lemma_not_prefix(l, "``"@, 0);
    assert(l != "##"@) by {
        assert(l[0] != '#');
    }
    assert(l != ">"@) by {
        assert(l[0] != '>');
    }
    assert(l.take(2) =~= "*("@);
    assert(l.skip(l.len() - 2) =~= ")*"@);
    assert(l.subrange(1, l.len() - 1) =~= t);
    assert(t[0] == '(' && t.last() == ')');
    lemma_trim_fixed(t);
    assert(!inner.contains('\n')) by {
        assert forall|j: int| 0 <= j < inner.len() implies inner[j] != '\n' by {
            assert(inner[j] == t[j + 1]);
        }
    }
    lemma_no_newline("*("@, inner, ")*"@);
}

proof fn lemma_dialogue_line(t: Seq<char>)
    requires
        t.len() > 0,
        value_ok(t),
    ensures
        reads_back(trim_end(md_line(Element::Dialogue, t)), Element::Dialogue, t),
{
    reveal_strlit("> ");
    reveal_strlit("### ");
    reveal_strlit("## ");
    reveal_strlit("##");
    reveal_strlit("# ");
    let l = "> "@ + t;
    lemma_trimmed_ends(t);
    assert(l.last() == t.last());
    lemma_marked(l);
    lemma_not_prefix(l, "### "@, 0);
    lemma_not_prefix(l, "## "@, 0);
    lemma_not_prefix(l, "# "@, 0);
    assert(l != "##"@) by {
        assert(l[0] != '#');
    }
    assert(l.take(2) =~= "> "@);
    assert(l.skip(2) =~= t);
    lemma_no_newline("> "@, t, seq![]);
    assert(l + seq![] =~= l);
}

proof fn lemma_fenced_transition_line(t: Seq<char>)
    requires
        t.len() > 0,
        value_ok(t),
        upper(t) == t,
        t.contains('`'),
    ensures
        reads_back(trim_end(md_line(Element::Transition, t)), Element::Transition, t),
{
    reveal_strlit("``");
    reveal_strlit("**");
    reveal_strlit("### ");
    reveal_strlit("## ");
    reveal_strlit("##");
    reveal_strlit("# ");
    reveal_strlit("> ");
    reveal_strlit(">");
    let l = "``"@ + t + "``"@;
    let n = l.len();
    assert(l.last() == '`');
    assert(l[0] == '`');
    lemma_marked(l);
    lemma_trimmed_ends(t);
    lemma_trim_fixed(t);
    lemma_not_prefix(l, "### "@, 0);
    lemma_not_prefix(l, "## "@, 0);
    lemma_not_prefix(l, "# "@, 0);
    lemma_not_prefix(l, "> "@, 0);
    lemma_not_prefix(l, "**"@, 0);
    assert(l != "##"@) by {
        assert(l[0] != '#');
    }
    assert(l != ">"@) by {
        assert(l[0] != '>');
    }
    assert(l.take(2) =~= "``"@);
    assert(l.skip(n - 2) =~= "``"@);
    assert(l.subrange(2, n - 2) =~= t);
    lemma_no_newline("``"@, t, "``"@);
}

proof fn lemma_transition_line(t: Seq<char>)
    requires
        t.len() > 0,
        value_ok(t),
        upper(t) == t,
    ensures
        reads_back(trim_end(md_line(Element::Transition, t)), Element::Transition, t),
{
    if t.contains('`') {
        lemma_fenced_transition_line(t);
        return;
    }
    reveal_strlit("`");
    reveal_strlit("**");
    reveal_strlit("### ");
    reveal_strlit("## ");
    reveal_strlit("##");
    reveal_strlit("# ");
    reveal_strlit("> ");
    reveal_strlit(">");
    let l = "`"@ + t + "`"@;
    let n = l.len();
    assert(l.last() == '`');
    lemma_marked(l);
    lemma_not_prefix(l, "### "@, 0);
    lemma_not_prefix(l, "## "@, 0);
    lemma_not_prefix(l, "# "@, 0);
    lemma_not_prefix(l, "> "@, 0);
    lemma_not_prefix(l, "**"@, 0);
    assert(l != "##"@) by {
        assert(l[0] != '#');
    }
    assert(l != ">"@) by {
        assert(l[0] != '>');
    }
    assert(l.subrange(1, n - 1) =~= t);
    lemma_no_newline("`"@, t, "`"@);
}

proof fn lemma_action_line(t: Seq<char>)
    requires
        t.len() > 0,
        value_ok(t),
    ensures
        reads_back(trim_end(md_line(Element::Action, t)), Element::Action, t),
{
    lemma_trimmed_ends(t);
    lemma_trim_end_fixed(t);
    if !crate::storage::reads_as_action(t) {
        let l = seq!['\\'] + t;
        assert(l.last() == t.last());
        lemma_marked(l);
        assert(l.drop_first() =~= t);
        assert(!l.contains('\n')) by {
            assert forall|j: int| 0 <= j < l.len() implies l[j] != '\n' by {
                if j > 0 {
                    assert(l[j] == t[j - 1]);
                }
            }
        }
    }
}

proof fn lemma_empty_heading_line()
    ensures
        reads_back(
            trim_end(md_line(Element::SceneHeading, seq![])),
            Element::SceneHeading,
            seq![],
        ),
{
    reveal_strlit("## ");
    reveal_strlit("##");
    reveal_strlit("### ");
    let line = md_line(Element::SceneHeading, seq![]);
    assert(line =~= seq!['#', '#'] + seq![' ']);
    lemma_trim_end_ws_tail(seq!['#', '#'], seq![' ']);
    let l = seq!['#', '#'];
    assert(l.last() == '#');
    lemma_marked(l);
    assert(l =~= "##"@);
    assert(!l.contains('\n')) by {
        assert forall|j: int| 0 <= j < l.len() implies l[j] != '\n' by {}
    }
}

/// The written line of a faithful block, as read back.
proof fn lemma_block_line(b: BlockV)
    requires
        md_faithful(b),
    ensures
        reads_back(trim_end(md_line(b.element, b.text)), b.element, b.text),
{
    let t = b.text;
    if t.len() == 0 {
        assert(t =~= Seq::<char>::empty());
        lemma_empty_heading_line();
    } else {
        match b.element {
            Element::SceneHeading => lemma_heading_line(t),
            Element::Shot => lemma_shot_line(t),
            Element::Action => lemma_action_line(t),
            Element::Character => lemma_character_line(t),
            Element::Parenthetical => lemma_paren_line(t),
            Element::Dialogue => lemma_dialogue_line(t),
            Element::Transition => lemma_transition_line(t),
        }
    }
}

/// White space on both sides of a trimmed text makes no difference to trim.
proof fn lemma_trim_padded(w1: Seq<char>, x: Seq<char>, w2: Seq<char>)
    requires
        forall|i: int| 0 <= i < w1.len() ==> is_ws(#[trigger] w1[i]),
        forall|i: int| 0 <= i < w2.len() ==> is_ws(#[trigger] w2[i]),
        x.len() > 0,
        !is_ws(x[0]),
        !is_ws(x.last()),
    ensures
        trim(w1 + x + w2) == x,
{
    lemma_trim_start_ws_head(w1, x + w2);
    assert(w1 + x + w2 =~= w1 + (x + w2));
    assert((x + w2)[0] == x[0]);
    assert(trim_start_by(x + w2, Strip::Space) == x + w2);
    lemma_trim_end_ws_tail(x, w2);
    lemma_trim_end_fixed(x);
}

proof fn lemma_no_nl_map(s: Seq<char>)
    requires
        !s.contains('\n'),
    ensures
        nl_to_space(s) == s,
{
    assert(nl_to_space(s) =~= s) by {
        assert forall|i: int| 0 <= i < s.len() implies nl_to_space(s)[i] == s[i] by {
            assert(s[i] != '\n');
        }
    }
}

proof fn lemma_defuse_no_arrow(s: Seq<char>)
    requires
        no_arrow(s),
    ensures
        defuse(s) == s,
    decreases s.len(),
{
    if s.len() > 0 {
        assert(!(s.len() >= 3 && s[0] == '-' && s[1] == '-' && s[2] == '>'));
        let r = s.drop_first();
        assert forall|i: int| 0 <= i && i + 2 < r.len() implies !(#[trigger] r[i] == '-' && r[i
            + 1] == '-' && r[i + 2] == '>') by {
            assert(r[i] == s[i + 1] && r[i + 1] == s[i + 2] && r[i + 2] == s[i + 3]);
            assert(!(s[i + 1] == '-' && s[i + 2] == '-' && s[i + 3] == '>'));
        }
        lemma_defuse_no_arrow(r);
        assert(seq![s[0]] + r =~= s);
    }
}

/// A number written in decimal reads back as itself.
proof fn lemma_parse_dec(n: usize)
    ensures
        parse_usize_spec(dec(n as nat)) == Some(n),
{
    lemma_dec_digits(n as nat);
}

/// The facts the reader needs of a card line.
spec fn card_reads_back(c: Seq<char>, tint: Option<usize>, note: Seq<char>) -> bool {
    &&& c.len() > 0
    &&& !c.contains('\n')
    &&& trim(c) == c
    &&& strip_cr(c) == c
    &&& parse_card(c) == Some((tint, note))
}

proof fn lemma_card_plain(note: Seq<char>)
    requires
        value_ok(note),
        note.len() > 0,
        !has_prefix(note, "tint="@),
    ensures
        card_reads_back("<!-- scene: "@ + note + " -->"@, None, note),
{
    reveal_strlit("<!--");
    reveal_strlit("-->");
    reveal_strlit(" -->");
    reveal_strlit("<!-- scene: ");
    reveal_strlit("scene:");
    reveal_strlit("scene: ");
    let c = "<!-- scene: "@ + note + " -->"@;
    let a = c.skip(4);
    lemma_trimmed_ends(note);
    assert(c.take(4) =~= "<!--"@);
    assert(a.skip(a.len() - 3) =~= "-->"@);
    let x = "scene: "@ + note;
    assert(a.take(a.len() - 3) =~= seq![' '] + x + seq![' ']);
    assert(x.last() == note.last());
    lemma_trim_padded(seq![' '], x, seq![' ']);
    let inner = trim(a.take(a.len() - 3));
    assert(inner.take(6) =~= "scene:"@);
    assert(inner.skip(6) =~= seq![' '] + note + seq![]);
    lemma_trim_padded(seq![' '], note, seq![]);
    lemma_no_newline("<!-- scene: "@, note, " -->"@);
    lemma_trim_fixed(c);
}

/// What follows `tint=` in a card: the number, then ` |`, then the note.
proof fn lemma_tint_after(k: usize, note: Seq<char>)
    requires
        value_ok(note),
    ensures
        ({
            let d = dec(k as nat);
            let after = d + " |"@ + (if note.len() > 0 {
                seq![' '] + note
            } else {
                seq![]
            });
            &&& index_of_char(after, '|') == Some(d.len() as int + 1)
            &&& parse_usize_spec(trim(after.take(d.len() as int + 1))) == Some(k)
            &&& trim(after.skip(d.len() as int + 2)) == note
        }),
{
    reveal_strlit(" |");
    let d = dec(k as nat);
    lemma_dec_digits(k as nat);
    lemma_parse_dec(k);
    let after = d + " |"@ + (if note.len() > 0 {
        seq![' '] + note
    } else {
        seq![]
    });
    let m = d.len() as int + 1;
    assert(after[m] == '|');
    assert forall|j: int| 0 <= j < m implies after[j] != '|' by {
        if j < d.len() {
            assert(after[j] == d[j]);
            assert(is_digit(d[j]));
        }
    }
    crate::text::lemma_index_of_char_is(after, '|', m);
    assert(after.take(m) =~= seq![] + d + seq![' ']);
    assert(is_digit(d[0]));
    assert(is_digit(d[d.len() - 1]));
    lemma_trim_padded(seq![], d, seq![' ']);
    if note.len() > 0 {
        lemma_trimmed_ends(note);
        assert(after.skip(m + 1) =~= seq![' '] + note + seq![]);
        lemma_trim_padded(seq![' '], note, seq![]);
    } else {
        assert(after.skip(m + 1).len() == 0);
        assert(note =~= Seq::<char>::empty());
        assert(trim(after.skip(m + 1)) =~= Seq::<char>::empty());
    }
}

#[verifier::rlimit(30)]
proof fn lemma_card_tinted(k: usize, note: Seq<char>)
    requires
        value_ok(note),
    ensures
        card_reads_back("<!-- scene: tint="@ + dec(k as nat) + " | "@ + note + " -->"@, Some(k), note),
{
    reveal_strlit("<!--");
    reveal_strlit("-->");
    reveal_strlit(" -->");
    reveal_strlit("<!-- scene: tint=");
    reveal_strlit(" | ");
    reveal_strlit(" |");
    reveal_strlit("scene:");
    reveal_strlit("scene: tint=");
    reveal_strlit("tint=");
    let d = dec(k as nat);
    lemma_dec_digits(k as nat);
    let c = "<!-- scene: tint="@ + d + " | "@ + note + " -->"@;
    let a = c.skip(4);
    assert(c.take(4) =~= "<!--"@);
    assert(a.skip(a.len() - 3) =~= "-->"@);
    let tail = "tint="@ + d + " |"@ + (if note.len() > 0 {
        seq![' '] + note
    } else {
        seq![]
    });
    let body = "scene: "@ + tail;
    reveal_strlit("scene: ");
    if note.len() > 0 {
        lemma_trimmed_ends(note);
        assert(a.take(a.len() - 3) =~= seq![' '] + body + seq![' ']);
        assert(body.last() == note.last());
        assert(tail.last() == note.last());
        lemma_trim_padded(seq![' '], body, seq![' ']);
    } else {
        assert(a.take(a.len() - 3) =~= seq![' '] + body + seq![' ', ' ']);
        assert(body.last() == '|');
        assert(tail.last() == '|');
        lemma_trim_padded(seq![' '], body, seq![' ', ' ']);
    }
    let inner = trim(a.take(a.len() - 3));
    assert(inner.take(6) =~= "scene:"@);
    assert(inner.skip(6) =~= seq![' '] + tail + seq![]);
    lemma_trim_padded(seq![' '], tail, seq![]);
    assert(tail.take(5) =~= "tint="@);
    assert(tail.skip(5) =~= d + " |"@ + (if note.len() > 0 {
        seq![' '] + note
    } else {
        seq![]
    }));
    lemma_tint_after(k, note);
    assert(!d.contains('\n')) by {
        assert forall|j: int| 0 <= j < d.len() implies d[j] != '\n' by {
            assert(is_digit(d[j]));
        }
    }
    lemma_no_newline("<!-- scene: tint="@, d, " | "@);
    lemma_no_newline("<!-- scene: tint="@ + d + " | "@, note, " -->"@);
    lemma_trim_fixed(c);
}

/// The card of a faithful heading, as read back.
proof fn lemma_card_line(b: BlockV)
    requires
        md_faithful(b),
        b.element == Element::SceneHeading,
        has_card(b),
    ensures
        card_reads_back(card_comment(b), b.tint, b.note),
{
    let note = b.note;
    lemma_no_nl_map(note);
    lemma_defuse_no_arrow(note);
    assert(card_note(b) == note);
    match b.tint {
        None => lemma_card_plain(note),
        Some(k) => lemma_card_tinted(k, note),
    }
}

proof fn lemma_md_run_append(st: (Seq<BlockV>, nat), a: Seq<Seq<char>>, b: Seq<Seq<char>>)
    ensures
        md_run(st, a + b) == md_run(md_run(st, a), b),
    decreases b.len(),
{
    if b.len() == 0 {
        assert(a + b =~= a);
    } else {
        lemma_md_run_append(st, a, b.drop_last());
        assert((a + b).drop_last() =~= a + b.drop_last());
        assert((a + b).last() == b.last());
    }
}

/// A faithful block's lines, read after the blocks in `st`, give the block
/// back, numbered next.
proof fn lemma_block_read(b: BlockV, st: (Seq<BlockV>, nat))
    requires
        md_faithful(b),
    ensures
        md_run(st, lines(md_block(b))) == (st.0.push(read_back(b, st.1 + 1)), st.1 + 1),
{
    reveal_strlit("\n");
    reveal_strlit("\n\n");
    let t = b.text;
    let e = b.element;
    lemma_block_line(b);
    assert(trim(t) == t);
    let l = trim_end(md_line(e, t));
    let hc = e == Element::SceneHeading && has_card(b);
    let nb = BlockV { id: (st.1 + 1) as u64, element: e, text: t, note: seq![], tint: None };
    let st1 = md_step(st, l);
    assert(st1 == (st.0.push(nb), st.1 + 1));
    let empty = Seq::<char>::empty();
    assert(lines(empty) =~= Seq::<Seq<char>>::empty());
    assert(!empty.contains('\n'));
    crate::text::lemma_lines_cons(empty, empty);
    assert(empty + seq!['\n'] + empty =~= seq!['\n']);
    assert(strip_cr(empty) =~= empty);
    if hc {
        let c = card_comment(b);
        lemma_card_line(b);
        assert(md_block(b) =~= l + seq!['\n'] + (c + seq!['\n'] + (empty + seq!['\n'] + empty)));
        crate::text::lemma_lines_cons(c, empty + seq!['\n'] + empty);
        crate::text::lemma_lines_cons(l, c + seq!['\n'] + (empty + seq!['\n'] + empty));
        let ls = seq![l, c, empty];
        assert(lines(md_block(b)) =~= ls);
        assert(ls.drop_last() =~= seq![l, c]);
        assert(seq![l, c].drop_last() =~= seq![l]);
        assert(seq![l].drop_last() =~= Seq::<Seq<char>>::empty());
        assert(md_run(st, Seq::<Seq<char>>::empty()) == st);
        assert(seq![l].last() == l);
        assert(md_run(st, seq![l]) == st1);
        let st2 = md_step(st1, c);
        assert(md_run(st, seq![l, c]) == st2);
        assert(st1.0.last() == nb);
        assert(st2 == (st.0.push(read_back(b, st.1 + 1)), st.1 + 1)) by {
            assert(st1.0.update(st1.0.len() - 1, BlockV { note: b.note, tint: b.tint, ..nb })
                =~= st.0.push(read_back(b, st.1 + 1)));
        }
        assert(md_step(st2, empty) == st2);
    } else {
        assert(md_block(b) =~= l + seq!['\n'] + (empty + seq!['\n'] + empty));
        crate::text::lemma_lines_cons(l, empty + seq!['\n'] + empty);
        let ls = seq![l, empty];
        assert(lines(md_block(b)) =~= ls);
        assert(ls.drop_last() =~= seq![l]);
        assert(seq![l].drop_last() =~= Seq::<Seq<char>>::empty());
        assert(md_run(st, Seq::<Seq<char>>::empty()) == st);
        assert(seq![l].last() == l);
        assert(md_run(st, seq![l]) == st1);
        assert(md_step(st1, empty) == st1);
        if e == Element::SceneHeading {
            assert(b.note =~= Seq::<char>::empty());
        }
        assert(read_back(b, st.1 + 1) == nb);
    }
}

proof fn lemma_md_blocks_end(bs: Seq<BlockV>)
    ensures
        md_blocks(bs).len() == 0 || md_blocks(bs).last() == '\n',
    decreases bs.len(),
{
    reveal_strlit("\n\n");
    if bs.len() > 0 {
        lemma_md_blocks_end(bs.drop_last());
    }
}

/// What the blocks of a faithful script read back as, after those in `st`.
pub open spec fn read_backs(bs: Seq<BlockV>, from: nat) -> Seq<BlockV> {
    Seq::new(bs.len(), |i: int| read_back(bs[i], (from + i + 1) as nat))
}

proof fn lemma_blocks_read(bs: Seq<BlockV>, st: (Seq<BlockV>, nat))
    requires
        forall|i: int| 0 <= i < bs.len() ==> md_faithful(#[trigger] bs[i]),
    ensures
        md_run(st, lines(md_blocks(bs))) == (st.0 + read_backs(bs, st.1), st.1 + bs.len()),
    decreases bs.len(),
{
    if bs.len() == 0 {
        assert(md_blocks(bs) =~= Seq::<char>::empty());
        assert(lines(md_blocks(bs)) =~= Seq::<Seq<char>>::empty());
        assert(st.0 + read_backs(bs, st.1) =~= st.0);
    } else {
        let front = bs.drop_last();
        assert forall|i: int| 0 <= i < front.len() implies md_faithful(#[trigger] front[i]) by {
            assert(front[i] == bs[i]);
        }
        lemma_blocks_read(front, st);
        lemma_md_blocks_end(front);
        lemma_lines_append(md_blocks(front), md_block(bs.last()));
        lemma_md_run_append(st, lines(md_blocks(front)), lines(md_block(bs.last())));
        let mid = (st.0 + read_backs(front, st.1), st.1 + front.len());
        assert(md_faithful(bs[bs.len() - 1]));
        lemma_block_read(bs.last(), mid);
        assert((st.0 + read_backs(front, st.1)).push(read_back(bs.last(), mid.1 + 1)) =~= st.0
            + read_backs(bs, st.1));
    }
}

// ---------------------------------------------------------- front matter --

/// A line with its newline and no other is one inclusive piece.
proof fn lemma_incl_one(a: Seq<char>)
    requires
        one_line(a),
    ensures
        incl_pieces(a) == seq![a],
{
    let k = a.len() - 1;
    assert forall|j: int| 0 <= j < k implies a[j] != '\n' by {
        assert(a.drop_last()[j] == a[j]);
    }
    crate::text::lemma_index_of_char_is(a, '\n', k);
    assert(a.take(k + 1) =~= a);
    assert(a.skip(k + 1).len() == 0);
    assert(incl_pieces(a.skip(k + 1)) =~= Seq::<Seq<char>>::empty());
}

/// Inclusive pieces of two texts, the first ending in a newline.
proof fn lemma_incl_append(a: Seq<char>, b: Seq<char>)
    requires
        a.len() == 0 || a.last() == '\n',
    ensures
        incl_pieces(a + b) == incl_pieces(a) + incl_pieces(b),
    decreases a.len(),
{
    if a.len() == 0 {
        assert(a + b =~= b);
        assert(incl_pieces(a) =~= Seq::<Seq<char>>::empty());
        assert(incl_pieces(a) + incl_pieces(b) =~= incl_pieces(b));
    } else {
        crate::text::lemma_index_of_char(a, '\n');
        let k = index_of_char(a, '\n')->0;
        let s = a + b;
        assert forall|j: int| 0 <= j < k implies s[j] != '\n' by {
            assert(s[j] == a[j]);
        }
        assert(s[k] == '\n');
        crate::text::lemma_index_of_char_is(s, '\n', k);
        let tail = a.skip(k + 1);
        assert(tail.len() == 0 || tail.last() == '\n') by {
            if tail.len() > 0 {
                assert(tail.last() == a.last());
            }
        }
        lemma_incl_append(tail, b);
        assert(s.take(k + 1) =~= a.take(k + 1));
        assert(s.skip(k + 1) =~= tail + b);
        assert(incl_pieces(a) + incl_pieces(b) =~= seq![a.take(k + 1)] + (incl_pieces(tail)
            + incl_pieces(b)));
    }
}

/// A piece that is one line, with its newline.
spec fn one_line(p: Seq<char>) -> bool {
    p.len() > 0 && p.last() == '\n' && !p.drop_last().contains('\n')
}

/// An entry line as the reader takes it.
spec fn entry_ok(p: Seq<char>, key: Seq<char>, v: Seq<char>) -> bool {
    &&& one_line(p)
    &&& trim_end(p) != "---"@
    &&& key_value(trim_end(p)) matches Some((k, x)) && trim(k) == key && trim(x) == v
}

/// One `key: value` line of the front matter, as the reader takes it: not
/// the closing fence, split at its first colon into the key and what trims
/// to the value.
proof fn lemma_entry(head: Seq<char>, key: Seq<char>, v: Seq<char>)
    requires
        head == key + ": "@,
        key.len() > 0,
        forall|i: int| 0 <= i < key.len() ==> (#[trigger] key[i] != ':' && !is_ws(key[i])),
        key[0] != '-',
        value_ok(v),
    ensures
        entry_ok(head + v + "\n"@, key, v),
{
    reveal_strlit(": ");
    reveal_strlit("\n");
    reveal_strlit("---");
    let p = head + v + "\n"@;
    assert(p.drop_last() =~= head + v);
    assert(!(head + v).contains('\n')) by {
        assert forall|j: int| 0 <= j < (head + v).len() implies (head + v)[j] != '\n' by {
            if j < key.len() {
                assert((head + v)[j] == key[j]);
                assert(!is_ws(key[j]));
            } else if j >= head.len() {
                assert((head + v)[j] == v[j - head.len()]);
            }
        }
    }
    lemma_trim_end_ws_tail(head + v, seq!['\n']);
    assert(p =~= (head + v) + seq!['\n']);
    let t = if v.len() > 0 {
        head + v
    } else {
        key + seq![':']
    };
    if v.len() > 0 {
        lemma_trimmed_ends(v);
        assert((head + v).last() == v.last());
        lemma_trim_end_fixed(head + v);
    } else {
        assert(head + v =~= (key + seq![':']) + seq![' ']);
        lemma_trim_end_ws_tail(key + seq![':'], seq![' ']);
        lemma_trim_end_fixed(key + seq![':']);
    }
    assert(trim_end(p) == t);
    assert(t[0] == key[0]);
    assert(t != "---"@) by {
        assert("---"@[0] == '-');
    }
    let n = key.len() as int;
    assert(t[n] == ':');
    assert forall|j: int| 0 <= j < n implies t[j] != ':' by {
        assert(t[j] == key[j]);
    }
    crate::text::lemma_index_of_char_is(t, ':', n);
    assert(t.take(n) =~= key);
    assert(!is_ws(key[0]) && !is_ws(key.last()));
    lemma_trim_fixed(key);
    if v.len() > 0 {
        assert(t.skip(n + 1) =~= seq![' '] + v + seq![]);
        lemma_trim_padded(seq![' '], v, seq![]);
    } else {
        assert(t.skip(n + 1).len() == 0);
        assert(trim(t.skip(n + 1)) =~= Seq::<char>::empty());
        assert(v =~= Seq::<char>::empty());
    }
}

/// After the closing fence is found, the rest of the text is not read.
proof fn lemma_fm_settled(ps: Seq<Seq<char>>, k: nat, n: nat)
    requires
        0 < k <= n <= ps.len(),
        fm_fold(ps, k).1 is Some,
    ensures
        fm_fold(ps, n) == fm_fold(ps, k),
    decreases n,
{
    if n > k {
        lemma_fm_settled(ps, k, (n - 1) as nat);
    }
}

/// The front matter's entry lines, in the order they are written.
spec fn head_entries(m: MetaV) -> Seq<Seq<char>> {
    seq![
        "title: "@ + m.title + "\n"@,
        "author: "@ + m.author + "\n"@,
        "contact: "@ + m.contact + "\n"@,
        "draft: "@ + m.draft + "\n"@,
    ] + if m.starred {
        seq!["starred: yes\n"@]
    } else {
        seq![]
    }
}

proof fn lemma_esc_value(v: Seq<char>)
    requires
        value_ok(v),
    ensures
        esc_value(v) == v,
{
    lemma_no_nl_map(v);
}

/// Each entry line of faithful details, as the reader takes it.
proof fn lemma_entries(m: MetaV)
    requires
        meta_faithful(m),
    ensures
        entry_ok("title: "@ + m.title + "\n"@, "title"@, m.title),
        entry_ok("author: "@ + m.author + "\n"@, "author"@, m.author),
        entry_ok("contact: "@ + m.contact + "\n"@, "contact"@, m.contact),
        entry_ok("draft: "@ + m.draft + "\n"@, "draft"@, m.draft),
        entry_ok("starred: yes\n"@, "starred"@, "yes"@),
{
    reveal_strlit("title: ");
    reveal_strlit("author: ");
    reveal_strlit("contact: ");
    reveal_strlit("draft: ");
    reveal_strlit("starred: ");
    reveal_strlit("starred: yes\n");
    reveal_strlit("title");
    reveal_strlit("author");
    reveal_strlit("contact");
    reveal_strlit("draft");
    reveal_strlit("starred");
    reveal_strlit("yes");
    reveal_strlit(": ");
    reveal_strlit("\n");
    assert("title: "@ =~= "title"@ + ": "@);
    assert("author: "@ =~= "author"@ + ": "@);
    assert("contact: "@ =~= "contact"@ + ": "@);
    assert("draft: "@ =~= "draft"@ + ": "@);
    assert("starred: "@ =~= "starred"@ + ": "@);
    lemma_entry("title: "@, "title"@, m.title);
    lemma_entry("author: "@, "author"@, m.author);
    lemma_entry("contact: "@, "contact"@, m.contact);
    lemma_entry("draft: "@, "draft"@, m.draft);
    assert(trim("yes"@) == "yes"@) by {
        lemma_trim_fixed("yes"@);
    }
    assert(!"yes"@.contains('\n')) by {
        assert forall|j: int| 0 <= j < 3 implies "yes"@[j] != '\n' by {}
    }
    lemma_entry("starred: "@, "starred"@, "yes"@);
    assert("starred: yes\n"@ =~= "starred: "@ + "yes"@ + "\n"@);
}

/// The front matter written for faithful details, cut into the reader's
/// pieces: the opening fence, one piece per entry, the closing fence, and
/// then whatever follows.
#[verifier::rlimit(60)]
#[verifier::spinoff_prover]
proof fn lemma_head_pieces(m: MetaV, body: Seq<char>)
    requires
        meta_faithful(m),
    ensures
        ({
            let text = md_head(m) + body;
            &&& fence_len(text) == Some(4nat)
            &&& incl_pieces(text.skip(4)) == head_entries(m) + seq!["---\n"@] + incl_pieces(
                "\n"@ + body,
            )
        }),
{
    reveal_strlit("---\n");
    reveal_strlit("---\n\n");
    reveal_strlit("\n");
    lemma_esc_value(m.title);
    lemma_esc_value(m.author);
    lemma_esc_value(m.contact);
    lemma_esc_value(m.draft);
    lemma_entries(m);
    let e1 = "title: "@ + m.title + "\n"@;
    let e2 = "author: "@ + m.author + "\n"@;
    let e3 = "contact: "@ + m.contact + "\n"@;
    let e4 = "draft: "@ + m.draft + "\n"@;
    let st: Seq<char> = if m.starred {
        "starred: yes\n"@
    } else {
        seq![]
    };
    let f = "---\n"@;
    let r = "\n"@ + body;
    let text = md_head(m) + body;
    assert(text =~= "---\n"@ + (e1 + (e2 + (e3 + (e4 + (st + (f + r)))))));
    assert(text.take(4) =~= "---\n"@);
    assert(text.skip(4) =~= e1 + (e2 + (e3 + (e4 + (st + (f + r))))));
    assert(f.drop_last() =~= seq!['-', '-', '-']);
    lemma_incl_one(f);
    lemma_incl_append(f, r);
    lemma_incl_one(e1);
    lemma_incl_one(e2);
    lemma_incl_one(e3);
    lemma_incl_one(e4);
    if m.starred {
        lemma_incl_one(st);
        lemma_incl_append(st, f + r);
    } else {
        assert(st + (f + r) =~= f + r);
        assert(incl_pieces(st) =~= Seq::<Seq<char>>::empty());
    }
    lemma_incl_append(e4, st + (f + r));
    lemma_incl_append(e3, e4 + (st + (f + r)));
    lemma_incl_append(e2, e3 + (e4 + (st + (f + r))));
    lemma_incl_append(e1, e2 + (e3 + (e4 + (st + (f + r)))));
    assert(head_entries(m) + seq![f] + incl_pieces(r) =~= seq![e1] + (seq![e2] + (seq![e3] + (
    seq![e4] + (incl_pieces(st) + (seq![f] + incl_pieces(r)))))));
}

/// One entry line read by the front-matter reader.
proof fn lemma_fm_step(ps: Seq<Seq<char>>, n: nat, key: Seq<char>, v: Seq<char>, prev: MetaV)
    requires
        0 < n <= ps.len(),
        fm_fold(ps, (n - 1) as nat) == (prev, None::<nat>, pieces_len(ps, (n - 1) as nat)),
        entry_ok(ps[n - 1], key, v),
    ensures
        fm_fold(ps, n) == (meta_set(prev, key, v), None::<nat>, pieces_len(ps, n)),
{
    let p = ps[n - 1];
    let t = trim_end(p);
    let kv = key_value(t);
    assert(kv is Some);
    let (k, x) = kv.unwrap();
    assert(trim(k) == key && trim(x) == v);
}

/// Reading the pieces of faithful details' front matter finds every detail
/// and the closing fence, and reads nothing after it.
#[verifier::rlimit(40)]
proof fn lemma_head_fold(m: MetaV, rest: Seq<Seq<char>>)
    requires
        meta_faithful(m),
    ensures
        ({
            let es = head_entries(m);
            let ps = es + seq!["---\n"@] + rest;
            let h = pieces_len(ps, es.len() + 1);
            &&& fm_fold(ps, ps.len()) == (m, Some(h), h)
        }),
{
    reveal_strlit("---\n");
    reveal_strlit("---");
    reveal_strlit("title");
    reveal_strlit("author");
    reveal_strlit("contact");
    reveal_strlit("draft");
    reveal_strlit("starred");
    reveal_strlit("yes");
    lemma_entries(m);
    let es = head_entries(m);
    let ps = es + seq!["---\n"@] + rest;
    let e1 = "title: "@ + m.title + "\n"@;
    let e2 = "author: "@ + m.author + "\n"@;
    let e3 = "contact: "@ + m.contact + "\n"@;
    let e4 = "draft: "@ + m.draft + "\n"@;
    assert(ps[0] == e1 && ps[1] == e2 && ps[2] == e3 && ps[3] == e4);
    let m0 = empty_meta();
    let m1 = MetaV { title: m.title, ..m0 };
    let m2 = MetaV { author: m.author, ..m1 };
    let m3 = MetaV { contact: m.contact, ..m2 };
    let m4 = MetaV { draft: m.draft, ..m3 };
    assert(fm_fold(ps, 0) == (m0, None::<nat>, pieces_len(ps, 0)));
    assert("author"@.len() != "title"@.len());
    assert("contact"@.len() != "title"@.len() && "contact"@.len() != "author"@.len());
    assert("draft"@[0] != "title"@[0] && "draft"@.len() != "author"@.len() && "draft"@.len()
        != "contact"@.len());
    assert("starred"@.len() != "title"@.len() && "starred"@.len() != "author"@.len()
        && "starred"@[0] != "contact"@[0] && "starred"@.len() != "draft"@.len());
    lemma_fm_step(ps, 1, "title"@, m.title, m0);
    assert(meta_set(m0, "title"@, m.title) == m1);
    lemma_fm_step(ps, 2, "author"@, m.author, m1);
    assert(meta_set(m1, "author"@, m.author) == m2);
    lemma_fm_step(ps, 3, "contact"@, m.contact, m2);
    assert(meta_set(m2, "contact"@, m.contact) == m3);
    lemma_fm_step(ps, 4, "draft"@, m.draft, m3);
    assert(meta_set(m3, "draft"@, m.draft) == m4);
    let k = es.len() + 1;
    if m.starred {
        assert(ps[4] == "starred: yes\n"@);
        let m5 = MetaV { starred: true, ..m4 };
        lemma_fm_step(ps, 5, "starred"@, "yes"@, m4);
        assert(is_yes("yes"@));
        assert(meta_set(m4, "starred"@, "yes"@) == m5);
        assert(m5 == m);
        assert(ps[5] == "---\n"@);
    } else {
        assert(m4 == m);
        assert(ps[4] == "---\n"@);
    }
    assert(trim_end("---\n"@) == "---"@) by {
        lemma_trim_end_ws_tail("---"@, seq!['\n']);
        assert("---\n"@ =~= "---"@ + seq!['\n']);
        lemma_trim_end_fixed("---"@);
    }
    assert(fm_fold(ps, k) == (m, Some(pieces_len(ps, k)), pieces_len(ps, k)));
    lemma_fm_settled(ps, k, ps.len());
}

/// The front matter of faithful details reads back as those details, and
/// the body starts on the blank line after the closing fence.
proof fn lemma_front_matter(m: MetaV, body: Seq<char>)
    requires
        meta_faithful(m),
    ensures
        md_head(m).len() > 0,
        front_matter(md_head(m) + body) == (m, (md_head(m).len() - 1) as nat),
{
    reveal_strlit("---\n");
    reveal_strlit("---\n\n");
    reveal_strlit("\n");
    lemma_head_pieces(m, body);
    let es = head_entries(m);
    let rest = incl_pieces("\n"@ + body);
    lemma_head_fold(m, rest);
    let ps = es + seq!["---\n"@] + rest;
    lemma_esc_value(m.title);
    lemma_esc_value(m.author);
    lemma_esc_value(m.contact);
    lemma_esc_value(m.draft);
    let st: Seq<char> = if m.starred {
        "starred: yes\n"@
    } else {
        seq![]
    };
    assert(pieces_len(ps, 0) == 0);
    assert(pieces_len(ps, 1) == es[0].len());
    assert(pieces_len(ps, 2) == es[0].len() + es[1].len());
    assert(pieces_len(ps, 3) == es[0].len() + es[1].len() + es[2].len());
    assert(pieces_len(ps, 4) == es[0].len() + es[1].len() + es[2].len() + es[3].len());
    assert(pieces_len(ps, 5) == es[0].len() + es[1].len() + es[2].len() + es[3].len()
        + ps[4].len());
    if m.starred {
        reveal_strlit("starred: yes\n");
        assert(pieces_len(ps, 6) == pieces_len(ps, 5) + ps[5].len());
        assert(ps[4] == st);
    } else {
        assert(st.len() == 0);
    }
    assert(md_head(m).len() == 4 + es[0].len() + es[1].len() + es[2].len() + es[3].len()
        + st.len() + 5);
}

/// The round trip is lossless. A script whose details and blocks the
/// markdown file carries exactly reads back from its markdown as it was:
/// the same title-page details, and the same blocks in the same order, each
/// with its element and its text, and a scene heading with its card; the
/// blocks are numbered afresh from 1.
pub proof fn law_markdown_round_trip(m: MetaV, bs: Seq<BlockV>)
    requires
        meta_faithful(m),
        bs.len() > 0,
        forall|i: int| 0 <= i < bs.len() ==> md_faithful(#[trigger] bs[i]),
    ensures
        front_matter(md_text(m, bs)).0 == m,
        md_doc_blocks(md_text(m, bs)) == read_backs(bs, 0),
{
    reveal_strlit("---\n\n");
    reveal_strlit("\n");
    let body = md_blocks(bs);
    let text = md_text(m, bs);
    lemma_front_matter(m, body);
    let h = md_head(m);
    assert(h[h.len() - 1] == '\n');
    assert(text.skip(h.len() - 1) =~= Seq::<char>::empty() + seq!['\n'] + body);
    let empty = Seq::<char>::empty();
    assert(!empty.contains('\n'));
    crate::text::lemma_lines_cons(empty, body);
    assert(strip_cr(empty) =~= empty);
    let ls = lines(text.skip(h.len() - 1));
    assert(ls =~= seq![empty] + lines(body));
    assert(ls.take(ls.len() as int) =~= ls);
    let st0 = (Seq::<BlockV>::empty(), 0nat);
    lemma_md_run_append(st0, seq![empty], lines(body));
    assert(seq![empty].drop_last() =~= Seq::<Seq<char>>::empty());
    assert(md_run(st0, Seq::<Seq<char>>::empty()) == st0);
    assert(md_run(st0, seq![empty]) == st0);
    lemma_blocks_read(bs, st0);
    assert(st0.0 + read_backs(bs, 0) =~= read_backs(bs, 0));
}

} // verus!
