//! Why a settings file reads back as it was written: each line the file
//! writes is read as the entry it was written for, and reading those
//! entries in order sets each setting to what it was.

use vstd::prelude::*;

use crate::settings::{
    after_from, after_slug, blur_slug, default_prefs, default_youtrack, extra_entries, entry_line,
    entry_lines, law_slugs_round_trip, panel_entries, pref_step, prefs_entries, prefs_fold,
    prefs_of, prefs_text, setting_of, settings_of, shared_entries, sort_slug, yes_no, yes_word,
    ExtrasV, Panels, PdfPrefs, PrefsV,
};
use crate::text::{
    dec, is_digit, is_ws, lemma_dec_digits, lemma_index_of_char_is, lemma_lines_append,
    lemma_lines_cons, lemma_trim_end_fixed, lemma_trim_end_prefix, lemma_trim_end_ws_tail,
    lemma_trim_fixed, lemma_trim_start_ws_head, lines, parse_up_to, strip_cr, trim, trim_end,
    trim_start_by, Strip,
};
use crate::theme::{law_theme_slug_round_trip, theme_slug};

verus! {

/// No line break in a text.
pub open spec fn one_line(s: Seq<char>) -> bool {
    forall|i: int| 0 <= i < s.len() ==> #[trigger] s[i] != '\n'
}

/// A key as the file writes it: something, with no white space, `=` or
/// line break in it, and not a comment.
pub open spec fn plain_key(k: Seq<char>) -> bool {
    &&& k.len() > 0
    &&& k[0] != '#'
    &&& forall|i: int| 0 <= i < k.len() ==> !is_ws(#[trigger] k[i]) && k[i] != '='
}

/// A value that reads back as it was written: something, on one line, not
/// starting or ending in white space.
pub open spec fn plain_value(v: Seq<char>) -> bool {
    &&& v.len() > 0
    &&& one_line(v)
    &&& !is_ws(v[0])
    &&& !is_ws(v.last())
}

/// The lines a run of entries is written as, each read as `str::lines`
/// gives it.
pub open spec fn written_lines(es: Seq<(Seq<char>, Seq<char>)>) -> Seq<Seq<char>> {
    es.map_values(|e: (Seq<char>, Seq<char>)| strip_cr(e.0 + " = "@ + e.1))
}

/// The lines a run of entries is written as.
proof fn lemma_entry_lines_lines(es: Seq<(Seq<char>, Seq<char>)>)
    requires
        forall|i: int| 0 <= i < es.len() ==> one_line(#[trigger] es[i].0) && one_line(es[i].1),
    ensures
        lines(entry_lines(es)) == written_lines(es),
        entry_lines(es).len() == 0 || entry_lines(es).last() == '\n',
    decreases es.len(),
{
    reveal_strlit(" = ");
    reveal_strlit("\n");
    if es.len() == 0 {
        assert(lines(Seq::<char>::empty()) =~= Seq::<Seq<char>>::empty());
        assert(written_lines(es) =~= Seq::<Seq<char>>::empty());
    } else {
        let d = es.drop_last();
        assert forall|i: int| 0 <= i < d.len() implies one_line(#[trigger] d[i].0) && one_line(
            d[i].1,
        ) by {
            assert(d[i] == es[i]);
        }
        lemma_entry_lines_lines(d);
        let (k, v) = es.last();
        assert(one_line(es[es.len() - 1].0) && one_line(es[es.len() - 1].1));
        let a = k + " = "@ + v;
        assert(!a.contains('\n')) by {
            assert forall|i: int| 0 <= i < a.len() implies a[i] != '\n' by {
                if i < k.len() {
                    assert(a[i] == k[i]);
                } else if i < k.len() + 3 {
                } else {
                    assert(a[i] == v[i - k.len() - 3]);
                }
            }
        }
        lemma_lines_cons(a, Seq::<char>::empty());
        assert(entry_line(k, v) =~= a + seq!['\n'] + Seq::<char>::empty());
        assert(lines(Seq::<char>::empty()) =~= Seq::<Seq<char>>::empty());
        lemma_lines_append(entry_lines(d), entry_line(k, v));
        assert(written_lines(es) =~= written_lines(d).push(strip_cr(a)));
        assert(entry_lines(es).last() == entry_line(k, v).last());
    }
}

/// The entries of two runs of lines are the first run's, then the second's.
proof fn lemma_settings_add(a: Seq<Seq<char>>, b: Seq<Seq<char>>)
    ensures
        settings_of(a + b) == settings_of(a) + settings_of(b),
    decreases b.len(),
{
    if b.len() == 0 {
        assert(a + b =~= a);
        assert(settings_of(a) + Seq::<(Seq<char>, Seq<char>)>::empty() =~= settings_of(a));
    } else {
        lemma_settings_add(a, b.drop_last());
        assert((a + b).drop_last() =~= a + b.drop_last());
        assert((a + b).last() == b.last());
        match setting_of(b.last()) {
            Some(kv) => {
                assert(settings_of(a) + settings_of(b.drop_last()).push(kv) =~= (settings_of(a)
                    + settings_of(b.drop_last())).push(kv));
            },
            None => {},
        }
    }
}

/// A character that is not white space stays in `trim_end`.
proof fn lemma_trim_end_keeps(s: Seq<char>, j: int)
    requires
        0 <= j < s.len(),
        !is_ws(s[j]),
    ensures
        j < trim_end(s).len() <= s.len(),
        trim_end(s) == s.take(trim_end(s).len() as int),
    decreases s.len(),
{
    lemma_trim_end_prefix(s, Strip::Space);
    if is_ws(s.last()) {
        assert(s.drop_last()[j] == s[j]);
        lemma_trim_end_keeps(s.drop_last(), j);
    }
}

/// A line the file writes for an entry reads as an entry with that key,
/// and, where the value is plain, with that value.
proof fn lemma_entry_read(k: Seq<char>, v: Seq<char>)
    requires
        plain_key(k),
        one_line(v),
    ensures
        setting_of(strip_cr(k + " = "@ + v)) matches Some(kv) && kv.0 == k && (plain_value(v)
            ==> kv.1 == v),
{
    reveal_strlit(" = ");
    let sv = strip_cr(v);
    let line = k + " = "@ + v;
    let l0 = strip_cr(line);
    assert(l0 =~= k + " = "@ + sv) by {
        if v.len() > 0 {
            assert(line.last() == v.last());
            if v.last() == '\r' {
                assert(line.drop_last() =~= k + " = "@ + v.drop_last());
            }
        } else {
            assert(line.last() == ' ');
        }
    }
    let n = k.len() as int;
    assert(l0[n] == ' ' && l0[n + 1] == '=');
    assert(!is_ws(l0[0])) by {
        assert(l0[0] == k[0]);
    }
    assert(trim_start_by(l0, Strip::Space) == l0);
    let l = trim(l0);
    lemma_trim_end_keeps(l0, n + 1);
    assert(l == trim_end(l0));
    assert(l.len() > n + 1);
    assert(l == l0.take(l.len() as int));
    assert forall|j: int| 0 <= j < n + 2 implies l[j] == l0[j] by {
        assert(l0.take(l.len() as int)[j] == l0[j]);
    }
    assert(l.take(n + 2) =~= l0.take(n + 2));
    assert forall|j: int| 0 <= j < n + 1 implies l[j] != '=' by {
        assert(l[j] == l0[j]);
        if j < n {
            assert(l0[j] == k[j]);
        }
    }
    assert(l[n + 1] == '=');
    lemma_index_of_char_is(l, '=', n + 1);
    assert(l[0] == k[0]);
    assert(l.take(n + 1) =~= k + seq![' ']);
    assert(trim(k + seq![' ']) == k) by {
        lemma_trim_end_ws_tail(k, seq![' ']);
        lemma_trim_end_fixed(k);
        assert(trim_start_by(k + seq![' '], Strip::Space) == k + seq![' ']);
    }
    if plain_value(v) {
        assert(sv == v);
        assert(l0 =~= line);
        assert(!is_ws(l0.last()));
        lemma_trim_fixed(l0);
        assert(l == l0);
        assert(l.skip(n + 2) =~= seq![' '] + v);
        lemma_trim_start_ws_head(seq![' '], v);
        assert(trim_start_by(v, Strip::Space) == v);
        lemma_trim_end_fixed(v);
    }
}

/// Reading a run of entries on from what was read before them.
#[verifier::opaque]
pub open spec fn fold_from(st: (PrefsV, bool), es: Seq<(Seq<char>, Seq<char>)>) -> (PrefsV, bool)
    decreases es.len(),
{
    if es.len() == 0 {
        st
    } else {
        pref_step(fold_from(st, es.drop_last()), es.last().0, es.last().1)
    }
}

proof fn lemma_fold_add(st: (PrefsV, bool), a: Seq<(Seq<char>, Seq<char>)>, b: Seq<(Seq<char>, Seq<char>)>)
    ensures
        fold_from(st, a + b) == fold_from(fold_from(st, a), b),
    decreases b.len(),
{
    reveal(fold_from);
    if b.len() == 0 {
        assert(a + b =~= a);
    } else {
        lemma_fold_add(st, a, b.drop_last());
        assert((a + b).drop_last() =~= a + b.drop_last());
        assert((a + b).last() == b.last());
    }
}

proof fn lemma_fold_is_from(es: Seq<(Seq<char>, Seq<char>)>)
    ensures
        prefs_fold(es) == fold_from((default_prefs(), false), es),
    decreases es.len(),
{
    reveal(fold_from);
    if es.len() > 0 {
        lemma_fold_is_from(es.drop_last());
    }
}

/// Nothing read leaves what was read.
proof fn lemma_fold_none(st: (PrefsV, bool), t: Seq<(Seq<char>, Seq<char>)>)
    ensures
        fold_from(st, t.take(0)) == st,
{
    reveal(fold_from);
    assert(t.take(0) =~= Seq::<(Seq<char>, Seq<char>)>::empty());
}

/// One more entry read.
proof fn lemma_fold_step(st: (PrefsV, bool), t: Seq<(Seq<char>, Seq<char>)>, j: int)
    requires
        0 <= j < t.len(),
    ensures
        fold_from(st, t.take(j + 1)) == pref_step(fold_from(st, t.take(j)), t[j].0, t[j].1),
{
    reveal(fold_from);
    assert(t.take(j + 1).drop_last() =~= t.take(j));
    assert(t.take(j + 1).last() == t[j]);
}

proof fn lemma_yes_no(b: bool)
    ensures
        yes_word(yes_no(b)) == b,
        plain_value(yes_no(b)),
{
    reveal_strlit("yes");
    reveal_strlit("no");
    reveal_strlit("true");
    reveal_strlit("1");
    reveal_strlit("on");
    assert(!is_ws('y') && !is_ws('s') && !is_ws('n') && !is_ws('o'));
    if !b {
        assert("no"@.len() != "yes"@.len());
        assert("no"@.len() != "true"@.len());
        assert("no"@.len() != "1"@.len());
        assert("no"@[0] != "on"@[0]);
    }
}

/// A number the file writes reads back as itself.
proof fn lemma_number_reads_back(n: nat, max: nat)
    requires
        n <= max,
    ensures
        parse_up_to(dec(n), max) == Some(n),
        plain_value(dec(n)),
{
    lemma_dec_digits(n);
    let d = dec(n);
    assert(!is_ws(d[0])) by {
        assert(is_digit(d[0]));
    }
    assert(!is_ws(d.last())) by {
        assert(is_digit(d[d.len() - 1]));
    }
    assert(one_line(d)) by {
        assert forall|i: int| 0 <= i < d.len() implies #[trigger] d[i] != '\n' by {
            assert(is_digit(d[i]));
        }
    }
}

/// The shared settings, written and read back, are what was written; the
/// glass and the text's scale, among them, are the application's to read.
proof fn lemma_fold_shared(
    st: (PrefsV, bool),
    t: Seq<(Seq<char>, Seq<char>)>,
    p: PrefsV,
    glass_opacity: Seq<char>,
    font_scale: Seq<char>,
)
    requires
        t.len() == 10,
        forall|i: int| 0 <= i < 10 ==> #[trigger] t[i].0 == shared_entries(p, glass_opacity, font_scale)[i].0,
        forall|i: int|
            0 <= i < 10 && i != 4 && i != 5 ==> #[trigger] t[i].1 == shared_entries(
                p,
                glass_opacity,
                font_scale,
            )[i].1,
        150 <= p.shared.autosave_ms <= 10000,
    ensures
        fold_from(st, t) == (PrefsV { shared: p.shared, ..st.0 }, st.1),
{
    reveal(pref_step);
    reveal_strlit("theme");
    reveal_strlit("light_mode");
    reveal_strlit("animations");
    reveal_strlit("blur");
    reveal_strlit("glass_opacity");
    reveal_strlit("font_scale");
    reveal_strlit("splash");
    reveal_strlit("starred_first");
    reveal_strlit("sort_by");
    reveal_strlit("autosave_ms");
    reveal_strlit("match_tesseract");
    reveal_strlit("show_library");
    reveal_strlit("show_scenes");
    reveal_strlit("show_cast");
    reveal_strlit("page_px");
    reveal_strlit("page_breaks");
    reveal_strlit("scene_numbers");
    reveal_strlit("smart_type");
    reveal_strlit("typewriter");
    reveal_strlit("after_export");
    reveal_strlit("session_goal");
    reveal_strlit("show_details");
    reveal_strlit("element_colors");
    reveal_strlit("character_colors");
    reveal_strlit("character_colors_reading");
    reveal_strlit("colour_seed");
    reveal_strlit("youtrack_url");
    reveal_strlit("pdf_title_page");
    reveal_strlit("pdf_scene_numbers");
    reveal_strlit("pdf_character_colors");
    assert("light_mode"@.len() != "theme"@.len());
    assert("animations"@.len() != "theme"@.len());
    assert("animations"@[0] != "light_mode"@[0]);
    assert("blur"@.len() != "theme"@.len());
    assert("blur"@.len() != "light_mode"@.len());
    assert("blur"@.len() != "animations"@.len());
    assert("glass_opacity"@.len() != "theme"@.len());
    assert("glass_opacity"@.len() != "light_mode"@.len());
    assert("glass_opacity"@.len() != "animations"@.len());
    assert("glass_opacity"@.len() != "blur"@.len());
    assert("glass_opacity"@.len() != "splash"@.len());
    assert("glass_opacity"@[0] != "starred_first"@[0]);
    assert("glass_opacity"@.len() != "sort_by"@.len());
    assert("glass_opacity"@.len() != "autosave_ms"@.len());
    assert("glass_opacity"@.len() != "match_tesseract"@.len());
    assert("glass_opacity"@.len() != "show_library"@.len());
    assert("glass_opacity"@.len() != "show_scenes"@.len());
    assert("glass_opacity"@.len() != "show_cast"@.len());
    assert("glass_opacity"@.len() != "show_details"@.len());
    assert("glass_opacity"@.len() != "page_breaks"@.len());
    assert("glass_opacity"@[0] != "scene_numbers"@[0]);
    assert("glass_opacity"@.len() != "smart_type"@.len());
    assert("glass_opacity"@.len() != "typewriter"@.len());
    assert("glass_opacity"@.len() != "after_export"@.len());
    assert("glass_opacity"@.len() != "session_goal"@.len());
    assert("glass_opacity"@.len() != "element_colors"@.len());
    assert("glass_opacity"@.len() != "character_colors"@.len());
    assert("glass_opacity"@.len() != "character_colors_reading"@.len());
    assert("glass_opacity"@.len() != "colour_seed"@.len());
    assert("glass_opacity"@.len() != "youtrack_url"@.len());
    assert("glass_opacity"@.len() != "pdf_title_page"@.len());
    assert("glass_opacity"@.len() != "pdf_scene_numbers"@.len());
    assert("glass_opacity"@.len() != "pdf_character_colors"@.len());
    assert("font_scale"@.len() != "theme"@.len());
    assert("font_scale"@[0] != "light_mode"@[0]);
    assert("font_scale"@[0] != "animations"@[0]);
    assert("font_scale"@.len() != "blur"@.len());
    assert("font_scale"@.len() != "splash"@.len());
    assert("font_scale"@.len() != "starred_first"@.len());
    assert("font_scale"@.len() != "sort_by"@.len());
    assert("font_scale"@.len() != "autosave_ms"@.len());
    assert("font_scale"@.len() != "match_tesseract"@.len());
    assert("font_scale"@.len() != "show_library"@.len());
    assert("font_scale"@.len() != "show_scenes"@.len());
    assert("font_scale"@.len() != "show_cast"@.len());
    assert("font_scale"@.len() != "show_details"@.len());
    assert("font_scale"@.len() != "page_breaks"@.len());
    assert("font_scale"@.len() != "scene_numbers"@.len());
    assert("font_scale"@[0] != "smart_type"@[0]);
    assert("font_scale"@[0] != "typewriter"@[0]);
    assert("font_scale"@.len() != "after_export"@.len());
    assert("font_scale"@.len() != "session_goal"@.len());
    assert("font_scale"@.len() != "element_colors"@.len());
    assert("font_scale"@.len() != "character_colors"@.len());
    assert("font_scale"@.len() != "character_colors_reading"@.len());
    assert("font_scale"@.len() != "colour_seed"@.len());
    assert("font_scale"@.len() != "youtrack_url"@.len());
    assert("font_scale"@.len() != "pdf_title_page"@.len());
    assert("font_scale"@.len() != "pdf_scene_numbers"@.len());
    assert("font_scale"@.len() != "pdf_character_colors"@.len());
    assert("splash"@.len() != "theme"@.len());
    assert("splash"@.len() != "light_mode"@.len());
    assert("splash"@.len() != "animations"@.len());
    assert("splash"@.len() != "blur"@.len());
    assert("starred_first"@.len() != "theme"@.len());
    assert("starred_first"@.len() != "light_mode"@.len());
    assert("starred_first"@.len() != "animations"@.len());
    assert("starred_first"@.len() != "blur"@.len());
    assert("starred_first"@.len() != "splash"@.len());
    assert("sort_by"@.len() != "theme"@.len());
    assert("sort_by"@.len() != "light_mode"@.len());
    assert("sort_by"@.len() != "animations"@.len());
    assert("sort_by"@.len() != "blur"@.len());
    assert("sort_by"@.len() != "splash"@.len());
    assert("sort_by"@.len() != "starred_first"@.len());
    assert("autosave_ms"@.len() != "theme"@.len());
    assert("autosave_ms"@.len() != "light_mode"@.len());
    assert("autosave_ms"@.len() != "animations"@.len());
    assert("autosave_ms"@.len() != "blur"@.len());
    assert("autosave_ms"@.len() != "splash"@.len());
    assert("autosave_ms"@.len() != "starred_first"@.len());
    assert("autosave_ms"@.len() != "sort_by"@.len());
    let e = shared_entries(p, glass_opacity, font_scale);
    law_theme_slug_round_trip(p.shared.theme);
    law_slugs_round_trip(p.shared.blur, p.shared.sort_by, p.extras.after_export);
    lemma_yes_no(p.shared.light_mode);
    lemma_yes_no(p.shared.animations);
    lemma_yes_no(p.shared.splash);
    lemma_yes_no(p.shared.starred_first);
    lemma_number_reads_back(p.shared.autosave_ms as nat, u64::MAX as nat);
    lemma_fold_none(st, t);
    lemma_fold_step(st, t, 0);
    assert(fold_from(st, t.take(1)).1 == st.1 && fold_from(st, t.take(1)).0.panels == st.0.panels && fold_from(st, t.take(1)).0.extras == st.0.extras && fold_from(st, t.take(1)).0.pdf == st.0.pdf && fold_from(st, t.take(1)).0.shared.theme == p.shared.theme);
    lemma_fold_step(st, t, 1);
    assert(fold_from(st, t.take(2)).1 == st.1 && fold_from(st, t.take(2)).0.panels == st.0.panels && fold_from(st, t.take(2)).0.extras == st.0.extras && fold_from(st, t.take(2)).0.pdf == st.0.pdf && fold_from(st, t.take(2)).0.shared.theme == p.shared.theme && fold_from(st, t.take(2)).0.shared.light_mode == p.shared.light_mode);
    lemma_fold_step(st, t, 2);
    assert(fold_from(st, t.take(3)).1 == st.1 && fold_from(st, t.take(3)).0.panels == st.0.panels && fold_from(st, t.take(3)).0.extras == st.0.extras && fold_from(st, t.take(3)).0.pdf == st.0.pdf && fold_from(st, t.take(3)).0.shared.theme == p.shared.theme && fold_from(st, t.take(3)).0.shared.light_mode == p.shared.light_mode && fold_from(st, t.take(3)).0.shared.animations == p.shared.animations);
    lemma_fold_step(st, t, 3);
    assert(fold_from(st, t.take(4)).1 == st.1 && fold_from(st, t.take(4)).0.panels == st.0.panels && fold_from(st, t.take(4)).0.extras == st.0.extras && fold_from(st, t.take(4)).0.pdf == st.0.pdf && fold_from(st, t.take(4)).0.shared.theme == p.shared.theme && fold_from(st, t.take(4)).0.shared.light_mode == p.shared.light_mode && fold_from(st, t.take(4)).0.shared.animations == p.shared.animations && fold_from(st, t.take(4)).0.shared.blur == p.shared.blur);
    lemma_fold_step(st, t, 4);
    assert(fold_from(st, t.take(5)).1 == st.1 && fold_from(st, t.take(5)).0.panels == st.0.panels && fold_from(st, t.take(5)).0.extras == st.0.extras && fold_from(st, t.take(5)).0.pdf == st.0.pdf && fold_from(st, t.take(5)).0.shared.theme == p.shared.theme && fold_from(st, t.take(5)).0.shared.light_mode == p.shared.light_mode && fold_from(st, t.take(5)).0.shared.animations == p.shared.animations && fold_from(st, t.take(5)).0.shared.blur == p.shared.blur);
    lemma_fold_step(st, t, 5);
    assert(fold_from(st, t.take(6)).1 == st.1 && fold_from(st, t.take(6)).0.panels == st.0.panels && fold_from(st, t.take(6)).0.extras == st.0.extras && fold_from(st, t.take(6)).0.pdf == st.0.pdf && fold_from(st, t.take(6)).0.shared.theme == p.shared.theme && fold_from(st, t.take(6)).0.shared.light_mode == p.shared.light_mode && fold_from(st, t.take(6)).0.shared.animations == p.shared.animations && fold_from(st, t.take(6)).0.shared.blur == p.shared.blur);
    lemma_fold_step(st, t, 6);
    assert(fold_from(st, t.take(7)).1 == st.1 && fold_from(st, t.take(7)).0.panels == st.0.panels && fold_from(st, t.take(7)).0.extras == st.0.extras && fold_from(st, t.take(7)).0.pdf == st.0.pdf && fold_from(st, t.take(7)).0.shared.theme == p.shared.theme && fold_from(st, t.take(7)).0.shared.light_mode == p.shared.light_mode && fold_from(st, t.take(7)).0.shared.animations == p.shared.animations && fold_from(st, t.take(7)).0.shared.blur == p.shared.blur && fold_from(st, t.take(7)).0.shared.splash == p.shared.splash);
    lemma_fold_step(st, t, 7);
    assert(fold_from(st, t.take(8)).1 == st.1 && fold_from(st, t.take(8)).0.panels == st.0.panels && fold_from(st, t.take(8)).0.extras == st.0.extras && fold_from(st, t.take(8)).0.pdf == st.0.pdf && fold_from(st, t.take(8)).0.shared.theme == p.shared.theme && fold_from(st, t.take(8)).0.shared.light_mode == p.shared.light_mode && fold_from(st, t.take(8)).0.shared.animations == p.shared.animations && fold_from(st, t.take(8)).0.shared.blur == p.shared.blur && fold_from(st, t.take(8)).0.shared.splash == p.shared.splash && fold_from(st, t.take(8)).0.shared.starred_first == p.shared.starred_first);
    lemma_fold_step(st, t, 8);
    assert(fold_from(st, t.take(9)).1 == st.1 && fold_from(st, t.take(9)).0.panels == st.0.panels && fold_from(st, t.take(9)).0.extras == st.0.extras && fold_from(st, t.take(9)).0.pdf == st.0.pdf && fold_from(st, t.take(9)).0.shared.theme == p.shared.theme && fold_from(st, t.take(9)).0.shared.light_mode == p.shared.light_mode && fold_from(st, t.take(9)).0.shared.animations == p.shared.animations && fold_from(st, t.take(9)).0.shared.blur == p.shared.blur && fold_from(st, t.take(9)).0.shared.splash == p.shared.splash && fold_from(st, t.take(9)).0.shared.starred_first == p.shared.starred_first && fold_from(st, t.take(9)).0.shared.sort_by == p.shared.sort_by);
    lemma_fold_step(st, t, 9);
    assert(fold_from(st, t.take(10)).1 == st.1 && fold_from(st, t.take(10)).0.panels == st.0.panels && fold_from(st, t.take(10)).0.extras == st.0.extras && fold_from(st, t.take(10)).0.pdf == st.0.pdf && fold_from(st, t.take(10)).0.shared.theme == p.shared.theme && fold_from(st, t.take(10)).0.shared.light_mode == p.shared.light_mode && fold_from(st, t.take(10)).0.shared.animations == p.shared.animations && fold_from(st, t.take(10)).0.shared.blur == p.shared.blur && fold_from(st, t.take(10)).0.shared.splash == p.shared.splash && fold_from(st, t.take(10)).0.shared.starred_first == p.shared.starred_first && fold_from(st, t.take(10)).0.shared.sort_by == p.shared.sort_by && fold_from(st, t.take(10)).0.shared.autosave_ms == p.shared.autosave_ms);
    assert(t.take(10) =~= t);
}

/// Every key the file writes is a plain key.
proof fn lemma_keys_plain()
    ensures
        plain_key("theme"@),
        plain_key("light_mode"@),
        plain_key("animations"@),
        plain_key("blur"@),
        plain_key("glass_opacity"@),
        plain_key("font_scale"@),
        plain_key("splash"@),
        plain_key("starred_first"@),
        plain_key("sort_by"@),
        plain_key("autosave_ms"@),
        plain_key("match_tesseract"@),
        plain_key("show_library"@),
        plain_key("show_scenes"@),
        plain_key("show_cast"@),
        plain_key("page_px"@),
        plain_key("page_breaks"@),
        plain_key("scene_numbers"@),
        plain_key("smart_type"@),
        plain_key("typewriter"@),
        plain_key("after_export"@),
        plain_key("session_goal"@),
        plain_key("show_details"@),
        plain_key("element_colors"@),
        plain_key("character_colors"@),
        plain_key("character_colors_reading"@),
        plain_key("colour_seed"@),
        plain_key("youtrack_url"@),
        plain_key("pdf_title_page"@),
        plain_key("pdf_scene_numbers"@),
        plain_key("pdf_character_colors"@),
{
    reveal_strlit("theme");
    assert forall|i: int| 0 <= i < 5 implies !is_ws(#[trigger] "theme"@[i]) && "theme"@[i] != '=' by {
        assert(i == 0 || i == 1 || i == 2 || i == 3 || i == 4);
    }
    reveal_strlit("light_mode");
    assert forall|i: int| 0 <= i < 10 implies !is_ws(#[trigger] "light_mode"@[i]) && "light_mode"@[i] != '=' by {
        assert(i == 0 || i == 1 || i == 2 || i == 3 || i == 4 || i == 5 || i == 6 || i == 7 || i == 8 || i == 9);
    }
    reveal_strlit("animations");
    assert forall|i: int| 0 <= i < 10 implies !is_ws(#[trigger] "animations"@[i]) && "animations"@[i] != '=' by {
        assert(i == 0 || i == 1 || i == 2 || i == 3 || i == 4 || i == 5 || i == 6 || i == 7 || i == 8 || i == 9);
    }
    reveal_strlit("blur");
    assert forall|i: int| 0 <= i < 4 implies !is_ws(#[trigger] "blur"@[i]) && "blur"@[i] != '=' by {
        assert(i == 0 || i == 1 || i == 2 || i == 3);
    }
    reveal_strlit("glass_opacity");
    assert forall|i: int| 0 <= i < 13 implies !is_ws(#[trigger] "glass_opacity"@[i]) && "glass_opacity"@[i] != '=' by {
        assert(i == 0 || i == 1 || i == 2 || i == 3 || i == 4 || i == 5 || i == 6 || i == 7 || i == 8 || i == 9 || i == 10 || i == 11 || i == 12);
    }
    reveal_strlit("font_scale");
    assert forall|i: int| 0 <= i < 10 implies !is_ws(#[trigger] "font_scale"@[i]) && "font_scale"@[i] != '=' by {
        assert(i == 0 || i == 1 || i == 2 || i == 3 || i == 4 || i == 5 || i == 6 || i == 7 || i == 8 || i == 9);
    }
    reveal_strlit("splash");
    assert forall|i: int| 0 <= i < 6 implies !is_ws(#[trigger] "splash"@[i]) && "splash"@[i] != '=' by {
        assert(i == 0 || i == 1 || i == 2 || i == 3 || i == 4 || i == 5);
    }
    reveal_strlit("starred_first");
    assert forall|i: int| 0 <= i < 13 implies !is_ws(#[trigger] "starred_first"@[i]) && "starred_first"@[i] != '=' by {
        assert(i == 0 || i == 1 || i == 2 || i == 3 || i == 4 || i == 5 || i == 6 || i == 7 || i == 8 || i == 9 || i == 10 || i == 11 || i == 12);
    }
    reveal_strlit("sort_by");
    assert forall|i: int| 0 <= i < 7 implies !is_ws(#[trigger] "sort_by"@[i]) && "sort_by"@[i] != '=' by {
        assert(i == 0 || i == 1 || i == 2 || i == 3 || i == 4 || i == 5 || i == 6);
    }
    reveal_strlit("autosave_ms");
    assert forall|i: int| 0 <= i < 11 implies !is_ws(#[trigger] "autosave_ms"@[i]) && "autosave_ms"@[i] != '=' by {
        assert(i == 0 || i == 1 || i == 2 || i == 3 || i == 4 || i == 5 || i == 6 || i == 7 || i == 8 || i == 9 || i == 10);
    }
    reveal_strlit("match_tesseract");
    assert forall|i: int| 0 <= i < 15 implies !is_ws(#[trigger] "match_tesseract"@[i]) && "match_tesseract"@[i] != '=' by {
        assert(i == 0 || i == 1 || i == 2 || i == 3 || i == 4 || i == 5 || i == 6 || i == 7 || i == 8 || i == 9 || i == 10 || i == 11 || i == 12 || i == 13 || i == 14);
    }
    reveal_strlit("show_library");
    assert forall|i: int| 0 <= i < 12 implies !is_ws(#[trigger] "show_library"@[i]) && "show_library"@[i] != '=' by {
        assert(i == 0 || i == 1 || i == 2 || i == 3 || i == 4 || i == 5 || i == 6 || i == 7 || i == 8 || i == 9 || i == 10 || i == 11);
    }
    reveal_strlit("show_scenes");
    assert forall|i: int| 0 <= i < 11 implies !is_ws(#[trigger] "show_scenes"@[i]) && "show_scenes"@[i] != '=' by {
        assert(i == 0 || i == 1 || i == 2 || i == 3 || i == 4 || i == 5 || i == 6 || i == 7 || i == 8 || i == 9 || i == 10);
    }
    reveal_strlit("show_cast");
    assert forall|i: int| 0 <= i < 9 implies !is_ws(#[trigger] "show_cast"@[i]) && "show_cast"@[i] != '=' by {
        assert(i == 0 || i == 1 || i == 2 || i == 3 || i == 4 || i == 5 || i == 6 || i == 7 || i == 8);
    }
    reveal_strlit("page_px");
    assert forall|i: int| 0 <= i < 7 implies !is_ws(#[trigger] "page_px"@[i]) && "page_px"@[i] != '=' by {
        assert(i == 0 || i == 1 || i == 2 || i == 3 || i == 4 || i == 5 || i == 6);
    }
    reveal_strlit("page_breaks");
    assert forall|i: int| 0 <= i < 11 implies !is_ws(#[trigger] "page_breaks"@[i]) && "page_breaks"@[i] != '=' by {
        assert(i == 0 || i == 1 || i == 2 || i == 3 || i == 4 || i == 5 || i == 6 || i == 7 || i == 8 || i == 9 || i == 10);
    }
    reveal_strlit("scene_numbers");
    assert forall|i: int| 0 <= i < 13 implies !is_ws(#[trigger] "scene_numbers"@[i]) && "scene_numbers"@[i] != '=' by {
        assert(i == 0 || i == 1 || i == 2 || i == 3 || i == 4 || i == 5 || i == 6 || i == 7 || i == 8 || i == 9 || i == 10 || i == 11 || i == 12);
    }
    reveal_strlit("smart_type");
    assert forall|i: int| 0 <= i < 10 implies !is_ws(#[trigger] "smart_type"@[i]) && "smart_type"@[i] != '=' by {
        assert(i == 0 || i == 1 || i == 2 || i == 3 || i == 4 || i == 5 || i == 6 || i == 7 || i == 8 || i == 9);
    }
    reveal_strlit("typewriter");
    assert forall|i: int| 0 <= i < 10 implies !is_ws(#[trigger] "typewriter"@[i]) && "typewriter"@[i] != '=' by {
        assert(i == 0 || i == 1 || i == 2 || i == 3 || i == 4 || i == 5 || i == 6 || i == 7 || i == 8 || i == 9);
    }
    reveal_strlit("after_export");
    assert forall|i: int| 0 <= i < 12 implies !is_ws(#[trigger] "after_export"@[i]) && "after_export"@[i] != '=' by {
        assert(i == 0 || i == 1 || i == 2 || i == 3 || i == 4 || i == 5 || i == 6 || i == 7 || i == 8 || i == 9 || i == 10 || i == 11);
    }
    reveal_strlit("session_goal");
    assert forall|i: int| 0 <= i < 12 implies !is_ws(#[trigger] "session_goal"@[i]) && "session_goal"@[i] != '=' by {
        assert(i == 0 || i == 1 || i == 2 || i == 3 || i == 4 || i == 5 || i == 6 || i == 7 || i == 8 || i == 9 || i == 10 || i == 11);
    }
    reveal_strlit("show_details");
    assert forall|i: int| 0 <= i < 12 implies !is_ws(#[trigger] "show_details"@[i]) && "show_details"@[i] != '=' by {
        assert(i == 0 || i == 1 || i == 2 || i == 3 || i == 4 || i == 5 || i == 6 || i == 7 || i == 8 || i == 9 || i == 10 || i == 11);
    }
    reveal_strlit("element_colors");
    assert forall|i: int| 0 <= i < 14 implies !is_ws(#[trigger] "element_colors"@[i]) && "element_colors"@[i] != '=' by {
        assert(i == 0 || i == 1 || i == 2 || i == 3 || i == 4 || i == 5 || i == 6 || i == 7 || i == 8 || i == 9 || i == 10 || i == 11 || i == 12 || i == 13);
    }
    reveal_strlit("character_colors");
    assert forall|i: int| 0 <= i < 16 implies !is_ws(#[trigger] "character_colors"@[i]) && "character_colors"@[i] != '=' by {
        assert(i == 0 || i == 1 || i == 2 || i == 3 || i == 4 || i == 5 || i == 6 || i == 7 || i == 8 || i == 9 || i == 10 || i == 11 || i == 12 || i == 13 || i == 14 || i == 15);
    }
    reveal_strlit("character_colors_reading");
    assert forall|i: int| 0 <= i < 24 implies !is_ws(#[trigger] "character_colors_reading"@[i]) && "character_colors_reading"@[i] != '=' by {
        assert(i == 0 || i == 1 || i == 2 || i == 3 || i == 4 || i == 5 || i == 6 || i == 7 || i == 8 || i == 9 || i == 10 || i == 11 || i == 12 || i == 13 || i == 14 || i == 15 || i == 16 || i == 17 || i == 18 || i == 19 || i == 20 || i == 21 || i == 22 || i == 23);
    }
    reveal_strlit("colour_seed");
    assert forall|i: int| 0 <= i < 11 implies !is_ws(#[trigger] "colour_seed"@[i]) && "colour_seed"@[i] != '=' by {
        assert(i == 0 || i == 1 || i == 2 || i == 3 || i == 4 || i == 5 || i == 6 || i == 7 || i == 8 || i == 9 || i == 10);
    }
    reveal_strlit("youtrack_url");
    assert forall|i: int| 0 <= i < 12 implies !is_ws(#[trigger] "youtrack_url"@[i]) && "youtrack_url"@[i] != '=' by {
        assert(i == 0 || i == 1 || i == 2 || i == 3 || i == 4 || i == 5 || i == 6 || i == 7 || i == 8 || i == 9 || i == 10 || i == 11);
    }
    reveal_strlit("pdf_title_page");
    assert forall|i: int| 0 <= i < 14 implies !is_ws(#[trigger] "pdf_title_page"@[i]) && "pdf_title_page"@[i] != '=' by {
        assert(i == 0 || i == 1 || i == 2 || i == 3 || i == 4 || i == 5 || i == 6 || i == 7 || i == 8 || i == 9 || i == 10 || i == 11 || i == 12 || i == 13);
    }
    reveal_strlit("pdf_scene_numbers");
    assert forall|i: int| 0 <= i < 17 implies !is_ws(#[trigger] "pdf_scene_numbers"@[i]) && "pdf_scene_numbers"@[i] != '=' by {
        assert(i == 0 || i == 1 || i == 2 || i == 3 || i == 4 || i == 5 || i == 6 || i == 7 || i == 8 || i == 9 || i == 10 || i == 11 || i == 12 || i == 13 || i == 14 || i == 15 || i == 16);
    }
    reveal_strlit("pdf_character_colors");
    assert forall|i: int| 0 <= i < 20 implies !is_ws(#[trigger] "pdf_character_colors"@[i]) && "pdf_character_colors"@[i] != '=' by {
        assert(i == 0 || i == 1 || i == 2 || i == 3 || i == 4 || i == 5 || i == 6 || i == 7 || i == 8 || i == 9 || i == 10 || i == 11 || i == 12 || i == 13 || i == 14 || i == 15 || i == 16 || i == 17 || i == 18 || i == 19);
    }
}

/// Every word the file writes for a choice is a plain value.
proof fn lemma_words_plain()
    ensures
        plain_value("zen"@),
        plain_value("ember"@),
        plain_value("frostbite"@),
        plain_value("bloodmoon"@),
        plain_value("void"@),
        plain_value("jetbrains"@),
        plain_value("auto"@),
        plain_value("always"@),
        plain_value("off"@),
        plain_value("recent"@),
        plain_value("title"@),
        plain_value("length"@),
        plain_value("open"@),
        plain_value("reveal"@),
        plain_value("nothing"@),
{
    reveal_strlit("zen");
    assert forall|i: int| 0 <= i < 3 implies #[trigger] "zen"@[i] != '\n' by {
        assert(i == 0 || i == 1 || i == 2);
    }
    assert(!is_ws("zen"@[0]) && !is_ws("zen"@[2]));
    reveal_strlit("ember");
    assert forall|i: int| 0 <= i < 5 implies #[trigger] "ember"@[i] != '\n' by {
        assert(i == 0 || i == 1 || i == 2 || i == 3 || i == 4);
    }
    assert(!is_ws("ember"@[0]) && !is_ws("ember"@[4]));
    reveal_strlit("frostbite");
    assert forall|i: int| 0 <= i < 9 implies #[trigger] "frostbite"@[i] != '\n' by {
        assert(i == 0 || i == 1 || i == 2 || i == 3 || i == 4 || i == 5 || i == 6 || i == 7 || i == 8);
    }
    assert(!is_ws("frostbite"@[0]) && !is_ws("frostbite"@[8]));
    reveal_strlit("bloodmoon");
    assert forall|i: int| 0 <= i < 9 implies #[trigger] "bloodmoon"@[i] != '\n' by {
        assert(i == 0 || i == 1 || i == 2 || i == 3 || i == 4 || i == 5 || i == 6 || i == 7 || i == 8);
    }
    assert(!is_ws("bloodmoon"@[0]) && !is_ws("bloodmoon"@[8]));
    reveal_strlit("void");
    assert forall|i: int| 0 <= i < 4 implies #[trigger] "void"@[i] != '\n' by {
        assert(i == 0 || i == 1 || i == 2 || i == 3);
    }
    assert(!is_ws("void"@[0]) && !is_ws("void"@[3]));
    reveal_strlit("jetbrains");
    assert forall|i: int| 0 <= i < 9 implies #[trigger] "jetbrains"@[i] != '\n' by {
        assert(i == 0 || i == 1 || i == 2 || i == 3 || i == 4 || i == 5 || i == 6 || i == 7 || i == 8);
    }
    assert(!is_ws("jetbrains"@[0]) && !is_ws("jetbrains"@[8]));
    reveal_strlit("auto");
    assert forall|i: int| 0 <= i < 4 implies #[trigger] "auto"@[i] != '\n' by {
        assert(i == 0 || i == 1 || i == 2 || i == 3);
    }
    assert(!is_ws("auto"@[0]) && !is_ws("auto"@[3]));
    reveal_strlit("always");
    assert forall|i: int| 0 <= i < 6 implies #[trigger] "always"@[i] != '\n' by {
        assert(i == 0 || i == 1 || i == 2 || i == 3 || i == 4 || i == 5);
    }
    assert(!is_ws("always"@[0]) && !is_ws("always"@[5]));
    reveal_strlit("off");
    assert forall|i: int| 0 <= i < 3 implies #[trigger] "off"@[i] != '\n' by {
        assert(i == 0 || i == 1 || i == 2);
    }
    assert(!is_ws("off"@[0]) && !is_ws("off"@[2]));
    reveal_strlit("recent");
    assert forall|i: int| 0 <= i < 6 implies #[trigger] "recent"@[i] != '\n' by {
        assert(i == 0 || i == 1 || i == 2 || i == 3 || i == 4 || i == 5);
    }
    assert(!is_ws("recent"@[0]) && !is_ws("recent"@[5]));
    reveal_strlit("title");
    assert forall|i: int| 0 <= i < 5 implies #[trigger] "title"@[i] != '\n' by {
        assert(i == 0 || i == 1 || i == 2 || i == 3 || i == 4);
    }
    assert(!is_ws("title"@[0]) && !is_ws("title"@[4]));
    reveal_strlit("length");
    assert forall|i: int| 0 <= i < 6 implies #[trigger] "length"@[i] != '\n' by {
        assert(i == 0 || i == 1 || i == 2 || i == 3 || i == 4 || i == 5);
    }
    assert(!is_ws("length"@[0]) && !is_ws("length"@[5]));
    reveal_strlit("open");
    assert forall|i: int| 0 <= i < 4 implies #[trigger] "open"@[i] != '\n' by {
        assert(i == 0 || i == 1 || i == 2 || i == 3);
    }
    assert(!is_ws("open"@[0]) && !is_ws("open"@[3]));
    reveal_strlit("reveal");
    assert forall|i: int| 0 <= i < 6 implies #[trigger] "reveal"@[i] != '\n' by {
        assert(i == 0 || i == 1 || i == 2 || i == 3 || i == 4 || i == 5);
    }
    assert(!is_ws("reveal"@[0]) && !is_ws("reveal"@[5]));
    reveal_strlit("nothing");
    assert forall|i: int| 0 <= i < 7 implies #[trigger] "nothing"@[i] != '\n' by {
        assert(i == 0 || i == 1 || i == 2 || i == 3 || i == 4 || i == 5 || i == 6);
    }
    assert(!is_ws("nothing"@[0]) && !is_ws("nothing"@[6]));
}

/// The slugs of the choices are plain values.
proof fn lemma_choices_plain(p: PrefsV)
    ensures
        plain_value(theme_slug(p.shared.theme)),
        plain_value(blur_slug(p.shared.blur)),
        plain_value(sort_slug(p.shared.sort_by)),
        plain_value(after_slug(p.extras.after_export)),
{
    lemma_words_plain();
}

/// Written lines read back as entries with the keys written and, where
/// the value is plain, the values written.
proof fn lemma_entries_read(es: Seq<(Seq<char>, Seq<char>)>)
    requires
        forall|i: int| 0 <= i < es.len() ==> plain_key(#[trigger] es[i].0) && one_line(es[i].1),
    ensures
        settings_of(written_lines(es)).len()
            == es.len(),
        forall|i: int|
            0 <= i < es.len() ==> #[trigger] settings_of(
                written_lines(es),
            )[i].0 == es[i].0 && (plain_value(es[i].1) ==> settings_of(
                written_lines(es),
            )[i].1 == es[i].1),
    decreases es.len(),
{
    if es.len() > 0 {
        let d = es.drop_last();
        assert forall|i: int| 0 <= i < d.len() implies plain_key(#[trigger] d[i].0) && one_line(
            d[i].1,
        ) by {
            assert(d[i] == es[i]);
        }
        lemma_entries_read(d);
        assert(written_lines(es).drop_last() =~= written_lines(d));
        assert(written_lines(es).last() == strip_cr(es.last().0 + " = "@ + es.last().1));
        let n = es.len() - 1;
        assert(plain_key(es[n].0) && one_line(es[n].1));
        lemma_entry_read(es[n].0, es[n].1);
        let sd = settings_of(written_lines(d));
        assert forall|i: int| 0 <= i < es.len() implies #[trigger] settings_of(written_lines(es))[i].0
            == es[i].0 && (plain_value(es[i].1) ==> settings_of(written_lines(es))[i].1
            == es[i].1) by {
            if i < n {
                assert(settings_of(written_lines(es))[i] == sd[i]);
                assert(d[i] == es[i]);
            }
        }
    } else {
        assert(written_lines(es) =~= Seq::<Seq<char>>::empty());
    }
}

/// What a `match_tesseract` entry sets.
proof fn lemma_read_match_tesseract(x: (PrefsV, bool), v: Seq<char>)
    ensures
        pref_step(x, "match_tesseract"@, v) == (PrefsV { panels: Panels { match_tesseract: yes_word(v), ..x.0.panels }, ..x.0 }, x.1),
{
    reveal(pref_step);
    reveal_strlit("match_tesseract");
    reveal_strlit("theme");
    reveal_strlit("light_mode");
    reveal_strlit("animations");
    reveal_strlit("blur");
    reveal_strlit("splash");
    reveal_strlit("starred_first");
    reveal_strlit("sort_by");
    reveal_strlit("autosave_ms");
    assert("match_tesseract"@.len() != "theme"@.len());
    assert("match_tesseract"@.len() != "light_mode"@.len());
    assert("match_tesseract"@.len() != "animations"@.len());
    assert("match_tesseract"@.len() != "blur"@.len());
    assert("match_tesseract"@.len() != "splash"@.len());
    assert("match_tesseract"@.len() != "starred_first"@.len());
    assert("match_tesseract"@.len() != "sort_by"@.len());
    assert("match_tesseract"@.len() != "autosave_ms"@.len());
}

/// What a `show_library` entry sets.
proof fn lemma_read_show_library(x: (PrefsV, bool), v: Seq<char>)
    ensures
        pref_step(x, "show_library"@, v) == (PrefsV { panels: Panels { show_library: yes_word(v), ..x.0.panels }, ..x.0 }, x.1),
{
    reveal(pref_step);
    reveal_strlit("show_library");
    reveal_strlit("theme");
    reveal_strlit("light_mode");
    reveal_strlit("animations");
    reveal_strlit("blur");
    reveal_strlit("splash");
    reveal_strlit("starred_first");
    reveal_strlit("sort_by");
    reveal_strlit("autosave_ms");
    reveal_strlit("match_tesseract");
    assert("show_library"@.len() != "theme"@.len());
    assert("show_library"@.len() != "light_mode"@.len());
    assert("show_library"@.len() != "animations"@.len());
    assert("show_library"@.len() != "blur"@.len());
    assert("show_library"@.len() != "splash"@.len());
    assert("show_library"@.len() != "starred_first"@.len());
    assert("show_library"@.len() != "sort_by"@.len());
    assert("show_library"@.len() != "autosave_ms"@.len());
    assert("show_library"@.len() != "match_tesseract"@.len());
}

/// What a `show_scenes` entry sets.
proof fn lemma_read_show_scenes(x: (PrefsV, bool), v: Seq<char>)
    ensures
        pref_step(x, "show_scenes"@, v) == (PrefsV { panels: Panels { show_scenes: yes_word(v), ..x.0.panels }, ..x.0 }, x.1),
{
    reveal(pref_step);
    reveal_strlit("show_scenes");
    reveal_strlit("theme");
    reveal_strlit("light_mode");
    reveal_strlit("animations");
    reveal_strlit("blur");
    reveal_strlit("splash");
    reveal_strlit("starred_first");
    reveal_strlit("sort_by");
    reveal_strlit("autosave_ms");
    reveal_strlit("match_tesseract");
    reveal_strlit("show_library");
    assert("show_scenes"@.len() != "theme"@.len());
    assert("show_scenes"@.len() != "light_mode"@.len());
    assert("show_scenes"@.len() != "animations"@.len());
    assert("show_scenes"@.len() != "blur"@.len());
    assert("show_scenes"@.len() != "splash"@.len());
    assert("show_scenes"@.len() != "starred_first"@.len());
    assert("show_scenes"@.len() != "sort_by"@.len());
    assert("show_scenes"@[0] != "autosave_ms"@[0]);
    assert("show_scenes"@.len() != "match_tesseract"@.len());
    assert("show_scenes"@.len() != "show_library"@.len());
}

/// What a `show_cast` entry sets.
proof fn lemma_read_show_cast(x: (PrefsV, bool), v: Seq<char>)
    ensures
        pref_step(x, "show_cast"@, v) == (PrefsV { panels: Panels { show_cast: yes_word(v), ..x.0.panels }, ..x.0 }, x.1),
{
    reveal(pref_step);
    reveal_strlit("show_cast");
    reveal_strlit("theme");
    reveal_strlit("light_mode");
    reveal_strlit("animations");
    reveal_strlit("blur");
    reveal_strlit("splash");
    reveal_strlit("starred_first");
    reveal_strlit("sort_by");
    reveal_strlit("autosave_ms");
    reveal_strlit("match_tesseract");
    reveal_strlit("show_library");
    reveal_strlit("show_scenes");
    assert("show_cast"@.len() != "theme"@.len());
    assert("show_cast"@.len() != "light_mode"@.len());
    assert("show_cast"@.len() != "animations"@.len());
    assert("show_cast"@.len() != "blur"@.len());
    assert("show_cast"@.len() != "splash"@.len());
    assert("show_cast"@.len() != "starred_first"@.len());
    assert("show_cast"@.len() != "sort_by"@.len());
    assert("show_cast"@.len() != "autosave_ms"@.len());
    assert("show_cast"@.len() != "match_tesseract"@.len());
    assert("show_cast"@.len() != "show_library"@.len());
    assert("show_cast"@.len() != "show_scenes"@.len());
}

/// What a `page_breaks` entry sets.
proof fn lemma_read_page_breaks(x: (PrefsV, bool), v: Seq<char>)
    ensures
        pref_step(x, "page_breaks"@, v) == (PrefsV { panels: Panels { page_breaks: yes_word(v), ..x.0.panels }, ..x.0 }, x.1),
{
    reveal(pref_step);
    reveal_strlit("page_breaks");
    reveal_strlit("theme");
    reveal_strlit("light_mode");
    reveal_strlit("animations");
    reveal_strlit("blur");
    reveal_strlit("splash");
    reveal_strlit("starred_first");
    reveal_strlit("sort_by");
    reveal_strlit("autosave_ms");
    reveal_strlit("match_tesseract");
    reveal_strlit("show_library");
    reveal_strlit("show_scenes");
    reveal_strlit("show_cast");
    reveal_strlit("show_details");
    assert("page_breaks"@.len() != "theme"@.len());
    assert("page_breaks"@.len() != "light_mode"@.len());
    assert("page_breaks"@.len() != "animations"@.len());
    assert("page_breaks"@.len() != "blur"@.len());
    assert("page_breaks"@.len() != "splash"@.len());
    assert("page_breaks"@.len() != "starred_first"@.len());
    assert("page_breaks"@.len() != "sort_by"@.len());
    assert("page_breaks"@[0] != "autosave_ms"@[0]);
    assert("page_breaks"@.len() != "match_tesseract"@.len());
    assert("page_breaks"@.len() != "show_library"@.len());
    assert("page_breaks"@[0] != "show_scenes"@[0]);
    assert("page_breaks"@.len() != "show_cast"@.len());
    assert("page_breaks"@.len() != "show_details"@.len());
}

/// What a `scene_numbers` entry sets.
proof fn lemma_read_scene_numbers(x: (PrefsV, bool), v: Seq<char>)
    ensures
        pref_step(x, "scene_numbers"@, v) == (PrefsV { panels: Panels { scene_numbers: yes_word(v), ..x.0.panels }, ..x.0 }, x.1),
{
    reveal(pref_step);
    reveal_strlit("scene_numbers");
    reveal_strlit("theme");
    reveal_strlit("light_mode");
    reveal_strlit("animations");
    reveal_strlit("blur");
    reveal_strlit("splash");
    reveal_strlit("starred_first");
    reveal_strlit("sort_by");
    reveal_strlit("autosave_ms");
    reveal_strlit("match_tesseract");
    reveal_strlit("show_library");
    reveal_strlit("show_scenes");
    reveal_strlit("show_cast");
    reveal_strlit("show_details");
    reveal_strlit("page_breaks");
    assert("scene_numbers"@.len() != "theme"@.len());
    assert("scene_numbers"@.len() != "light_mode"@.len());
    assert("scene_numbers"@.len() != "animations"@.len());
    assert("scene_numbers"@.len() != "blur"@.len());
    assert("scene_numbers"@.len() != "splash"@.len());
    assert("scene_numbers"@[1] != "starred_first"@[1]);
    assert("scene_numbers"@.len() != "sort_by"@.len());
    assert("scene_numbers"@.len() != "autosave_ms"@.len());
    assert("scene_numbers"@.len() != "match_tesseract"@.len());
    assert("scene_numbers"@.len() != "show_library"@.len());
    assert("scene_numbers"@.len() != "show_scenes"@.len());
    assert("scene_numbers"@.len() != "show_cast"@.len());
    assert("scene_numbers"@.len() != "show_details"@.len());
    assert("scene_numbers"@.len() != "page_breaks"@.len());
}

/// What a `smart_type` entry sets.
proof fn lemma_read_smart_type(x: (PrefsV, bool), v: Seq<char>)
    ensures
        pref_step(x, "smart_type"@, v) == (PrefsV { panels: Panels { smart_type: yes_word(v), ..x.0.panels }, ..x.0 }, x.1),
{
    reveal(pref_step);
    reveal_strlit("smart_type");
    reveal_strlit("theme");
    reveal_strlit("light_mode");
    reveal_strlit("animations");
    reveal_strlit("blur");
    reveal_strlit("splash");
    reveal_strlit("starred_first");
    reveal_strlit("sort_by");
    reveal_strlit("autosave_ms");
    reveal_strlit("match_tesseract");
    reveal_strlit("show_library");
    reveal_strlit("show_scenes");
    reveal_strlit("show_cast");
    reveal_strlit("show_details");
    reveal_strlit("page_breaks");
    reveal_strlit("scene_numbers");
    assert("smart_type"@.len() != "theme"@.len());
    assert("smart_type"@[0] != "light_mode"@[0]);
    assert("smart_type"@[0] != "animations"@[0]);
    assert("smart_type"@.len() != "blur"@.len());
    assert("smart_type"@.len() != "splash"@.len());
    assert("smart_type"@.len() != "starred_first"@.len());
    assert("smart_type"@.len() != "sort_by"@.len());
    assert("smart_type"@.len() != "autosave_ms"@.len());
    assert("smart_type"@.len() != "match_tesseract"@.len());
    assert("smart_type"@.len() != "show_library"@.len());
    assert("smart_type"@.len() != "show_scenes"@.len());
    assert("smart_type"@.len() != "show_cast"@.len());
    assert("smart_type"@.len() != "show_details"@.len());
    assert("smart_type"@.len() != "page_breaks"@.len());
    assert("smart_type"@.len() != "scene_numbers"@.len());
}

/// What a `typewriter` entry sets.
proof fn lemma_read_typewriter(x: (PrefsV, bool), v: Seq<char>)
    ensures
        pref_step(x, "typewriter"@, v) == (PrefsV { panels: Panels { typewriter: yes_word(v), ..x.0.panels }, ..x.0 }, x.1),
{
    reveal(pref_step);
    reveal_strlit("typewriter");
    reveal_strlit("theme");
    reveal_strlit("light_mode");
    reveal_strlit("animations");
    reveal_strlit("blur");
    reveal_strlit("splash");
    reveal_strlit("starred_first");
    reveal_strlit("sort_by");
    reveal_strlit("autosave_ms");
    reveal_strlit("match_tesseract");
    reveal_strlit("show_library");
    reveal_strlit("show_scenes");
    reveal_strlit("show_cast");
    reveal_strlit("show_details");
    reveal_strlit("page_breaks");
    reveal_strlit("scene_numbers");
    reveal_strlit("smart_type");
    assert("typewriter"@.len() != "theme"@.len());
    assert("typewriter"@[0] != "light_mode"@[0]);
    assert("typewriter"@[0] != "animations"@[0]);
    assert("typewriter"@.len() != "blur"@.len());
    assert("typewriter"@.len() != "splash"@.len());
    assert("typewriter"@.len() != "starred_first"@.len());
    assert("typewriter"@.len() != "sort_by"@.len());
    assert("typewriter"@.len() != "autosave_ms"@.len());
    assert("typewriter"@.len() != "match_tesseract"@.len());
    assert("typewriter"@.len() != "show_library"@.len());
    assert("typewriter"@.len() != "show_scenes"@.len());
    assert("typewriter"@.len() != "show_cast"@.len());
    assert("typewriter"@.len() != "show_details"@.len());
    assert("typewriter"@.len() != "page_breaks"@.len());
    assert("typewriter"@.len() != "scene_numbers"@.len());
    assert("typewriter"@[0] != "smart_type"@[0]);
}

/// What a `show_details` entry sets.
proof fn lemma_read_show_details(x: (PrefsV, bool), v: Seq<char>)
    ensures
        pref_step(x, "show_details"@, v) == (PrefsV { panels: Panels { show_details: yes_word(v), ..x.0.panels }, ..x.0 }, x.1),
{
    reveal(pref_step);
    reveal_strlit("show_details");
    reveal_strlit("theme");
    reveal_strlit("light_mode");
    reveal_strlit("animations");
    reveal_strlit("blur");
    reveal_strlit("splash");
    reveal_strlit("starred_first");
    reveal_strlit("sort_by");
    reveal_strlit("autosave_ms");
    reveal_strlit("match_tesseract");
    reveal_strlit("show_library");
    reveal_strlit("show_scenes");
    reveal_strlit("show_cast");
    assert("show_details"@.len() != "theme"@.len());
    assert("show_details"@.len() != "light_mode"@.len());
    assert("show_details"@.len() != "animations"@.len());
    assert("show_details"@.len() != "blur"@.len());
    assert("show_details"@.len() != "splash"@.len());
    assert("show_details"@.len() != "starred_first"@.len());
    assert("show_details"@.len() != "sort_by"@.len());
    assert("show_details"@.len() != "autosave_ms"@.len());
    assert("show_details"@.len() != "match_tesseract"@.len());
    assert("show_details"@[5] != "show_library"@[5]);
    assert("show_details"@.len() != "show_scenes"@.len());
    assert("show_details"@.len() != "show_cast"@.len());
}

/// A `page_px` entry is the application's to read.
proof fn lemma_read_page_px(x: (PrefsV, bool), v: Seq<char>)
    ensures
        pref_step(x, "page_px"@, v) == x,
{
    reveal(pref_step);
    reveal_strlit("page_px");
    reveal_strlit("theme");
    reveal_strlit("light_mode");
    reveal_strlit("animations");
    reveal_strlit("blur");
    reveal_strlit("splash");
    reveal_strlit("starred_first");
    reveal_strlit("sort_by");
    reveal_strlit("autosave_ms");
    reveal_strlit("match_tesseract");
    reveal_strlit("show_library");
    reveal_strlit("show_scenes");
    reveal_strlit("show_cast");
    reveal_strlit("show_details");
    reveal_strlit("page_breaks");
    reveal_strlit("scene_numbers");
    reveal_strlit("smart_type");
    reveal_strlit("typewriter");
    reveal_strlit("after_export");
    reveal_strlit("session_goal");
    reveal_strlit("element_colors");
    reveal_strlit("character_colors");
    reveal_strlit("character_colors_reading");
    reveal_strlit("colour_seed");
    reveal_strlit("youtrack_url");
    reveal_strlit("pdf_title_page");
    reveal_strlit("pdf_scene_numbers");
    reveal_strlit("pdf_character_colors");
    assert("page_px"@.len() != "theme"@.len());
    assert("page_px"@.len() != "light_mode"@.len());
    assert("page_px"@.len() != "animations"@.len());
    assert("page_px"@.len() != "blur"@.len());
    assert("page_px"@.len() != "splash"@.len());
    assert("page_px"@.len() != "starred_first"@.len());
    assert("page_px"@[0] != "sort_by"@[0]);
    assert("page_px"@.len() != "autosave_ms"@.len());
    assert("page_px"@.len() != "match_tesseract"@.len());
    assert("page_px"@.len() != "show_library"@.len());
    assert("page_px"@.len() != "show_scenes"@.len());
    assert("page_px"@.len() != "show_cast"@.len());
    assert("page_px"@.len() != "show_details"@.len());
    assert("page_px"@.len() != "page_breaks"@.len());
    assert("page_px"@.len() != "scene_numbers"@.len());
    assert("page_px"@.len() != "smart_type"@.len());
    assert("page_px"@.len() != "typewriter"@.len());
    assert("page_px"@.len() != "after_export"@.len());
    assert("page_px"@.len() != "session_goal"@.len());
    assert("page_px"@.len() != "element_colors"@.len());
    assert("page_px"@.len() != "character_colors"@.len());
    assert("page_px"@.len() != "character_colors_reading"@.len());
    assert("page_px"@.len() != "colour_seed"@.len());
    assert("page_px"@.len() != "youtrack_url"@.len());
    assert("page_px"@.len() != "pdf_title_page"@.len());
    assert("page_px"@.len() != "pdf_scene_numbers"@.len());
    assert("page_px"@.len() != "pdf_character_colors"@.len());
}

/// What a `after_export` entry sets.
proof fn lemma_read_after_export(x: (PrefsV, bool), v: Seq<char>)
    ensures
        pref_step(x, "after_export"@, v) == (PrefsV { extras: ExtrasV { after_export: after_from(v), ..x.0.extras }, ..x.0 }, x.1),
{
    reveal(pref_step);
    reveal_strlit("after_export");
    reveal_strlit("theme");
    reveal_strlit("light_mode");
    reveal_strlit("animations");
    reveal_strlit("blur");
    reveal_strlit("splash");
    reveal_strlit("starred_first");
    reveal_strlit("sort_by");
    reveal_strlit("autosave_ms");
    reveal_strlit("match_tesseract");
    reveal_strlit("show_library");
    reveal_strlit("show_scenes");
    reveal_strlit("show_cast");
    reveal_strlit("show_details");
    reveal_strlit("page_breaks");
    reveal_strlit("scene_numbers");
    reveal_strlit("smart_type");
    reveal_strlit("typewriter");
    assert("after_export"@.len() != "theme"@.len());
    assert("after_export"@.len() != "light_mode"@.len());
    assert("after_export"@.len() != "animations"@.len());
    assert("after_export"@.len() != "blur"@.len());
    assert("after_export"@.len() != "splash"@.len());
    assert("after_export"@.len() != "starred_first"@.len());
    assert("after_export"@.len() != "sort_by"@.len());
    assert("after_export"@.len() != "autosave_ms"@.len());
    assert("after_export"@.len() != "match_tesseract"@.len());
    assert("after_export"@[0] != "show_library"@[0]);
    assert("after_export"@.len() != "show_scenes"@.len());
    assert("after_export"@.len() != "show_cast"@.len());
    assert("after_export"@[0] != "show_details"@[0]);
    assert("after_export"@.len() != "page_breaks"@.len());
    assert("after_export"@.len() != "scene_numbers"@.len());
    assert("after_export"@.len() != "smart_type"@.len());
    assert("after_export"@.len() != "typewriter"@.len());
}

/// What a `session_goal` entry sets.
proof fn lemma_read_session_goal(x: (PrefsV, bool), v: Seq<char>)
    ensures
        pref_step(x, "session_goal"@, v) == (PrefsV { extras: ExtrasV { session_goal: match parse_up_to(v, u32::MAX as nat) { Some(n) => if n > 20000 { 20000 } else { n as u32 }, None => 0 }, ..x.0.extras }, ..x.0 }, x.1),
{
    reveal(pref_step);
    reveal_strlit("session_goal");
    reveal_strlit("theme");
    reveal_strlit("light_mode");
    reveal_strlit("animations");
    reveal_strlit("blur");
    reveal_strlit("splash");
    reveal_strlit("starred_first");
    reveal_strlit("sort_by");
    reveal_strlit("autosave_ms");
    reveal_strlit("match_tesseract");
    reveal_strlit("show_library");
    reveal_strlit("show_scenes");
    reveal_strlit("show_cast");
    reveal_strlit("show_details");
    reveal_strlit("page_breaks");
    reveal_strlit("scene_numbers");
    reveal_strlit("smart_type");
    reveal_strlit("typewriter");
    reveal_strlit("after_export");
    assert("session_goal"@.len() != "theme"@.len());
    assert("session_goal"@.len() != "light_mode"@.len());
    assert("session_goal"@.len() != "animations"@.len());
    assert("session_goal"@.len() != "blur"@.len());
    assert("session_goal"@.len() != "splash"@.len());
    assert("session_goal"@.len() != "starred_first"@.len());
    assert("session_goal"@.len() != "sort_by"@.len());
    assert("session_goal"@.len() != "autosave_ms"@.len());
    assert("session_goal"@.len() != "match_tesseract"@.len());
    assert("session_goal"@[1] != "show_library"@[1]);
    assert("session_goal"@.len() != "show_scenes"@.len());
    assert("session_goal"@.len() != "show_cast"@.len());
    assert("session_goal"@[1] != "show_details"@[1]);
    assert("session_goal"@.len() != "page_breaks"@.len());
    assert("session_goal"@.len() != "scene_numbers"@.len());
    assert("session_goal"@.len() != "smart_type"@.len());
    assert("session_goal"@.len() != "typewriter"@.len());
    assert("session_goal"@[0] != "after_export"@[0]);
}

/// What a `element_colors` entry sets.
proof fn lemma_read_element_colors(x: (PrefsV, bool), v: Seq<char>)
    ensures
        pref_step(x, "element_colors"@, v) == (PrefsV { extras: ExtrasV { element_colors: yes_word(v), ..x.0.extras }, ..x.0 }, x.1),
{
    reveal(pref_step);
    reveal_strlit("element_colors");
    reveal_strlit("theme");
    reveal_strlit("light_mode");
    reveal_strlit("animations");
    reveal_strlit("blur");
    reveal_strlit("splash");
    reveal_strlit("starred_first");
    reveal_strlit("sort_by");
    reveal_strlit("autosave_ms");
    reveal_strlit("match_tesseract");
    reveal_strlit("show_library");
    reveal_strlit("show_scenes");
    reveal_strlit("show_cast");
    reveal_strlit("show_details");
    reveal_strlit("page_breaks");
    reveal_strlit("scene_numbers");
    reveal_strlit("smart_type");
    reveal_strlit("typewriter");
    reveal_strlit("after_export");
    reveal_strlit("session_goal");
    assert("element_colors"@.len() != "theme"@.len());
    assert("element_colors"@.len() != "light_mode"@.len());
    assert("element_colors"@.len() != "animations"@.len());
    assert("element_colors"@.len() != "blur"@.len());
    assert("element_colors"@.len() != "splash"@.len());
    assert("element_colors"@.len() != "starred_first"@.len());
    assert("element_colors"@.len() != "sort_by"@.len());
    assert("element_colors"@.len() != "autosave_ms"@.len());
    assert("element_colors"@.len() != "match_tesseract"@.len());
    assert("element_colors"@.len() != "show_library"@.len());
    assert("element_colors"@.len() != "show_scenes"@.len());
    assert("element_colors"@.len() != "show_cast"@.len());
    assert("element_colors"@.len() != "show_details"@.len());
    assert("element_colors"@.len() != "page_breaks"@.len());
    assert("element_colors"@.len() != "scene_numbers"@.len());
    assert("element_colors"@.len() != "smart_type"@.len());
    assert("element_colors"@.len() != "typewriter"@.len());
    assert("element_colors"@.len() != "after_export"@.len());
    assert("element_colors"@.len() != "session_goal"@.len());
}

/// What a `character_colors` entry sets.
proof fn lemma_read_character_colors(x: (PrefsV, bool), v: Seq<char>)
    ensures
        pref_step(x, "character_colors"@, v) == (PrefsV { extras: ExtrasV { character_colors: yes_word(v), ..x.0.extras }, ..x.0 }, x.1),
{
    reveal(pref_step);
    reveal_strlit("character_colors");
    reveal_strlit("theme");
    reveal_strlit("light_mode");
    reveal_strlit("animations");
    reveal_strlit("blur");
    reveal_strlit("splash");
    reveal_strlit("starred_first");
    reveal_strlit("sort_by");
    reveal_strlit("autosave_ms");
    reveal_strlit("match_tesseract");
    reveal_strlit("show_library");
    reveal_strlit("show_scenes");
    reveal_strlit("show_cast");
    reveal_strlit("show_details");
    reveal_strlit("page_breaks");
    reveal_strlit("scene_numbers");
    reveal_strlit("smart_type");
    reveal_strlit("typewriter");
    reveal_strlit("after_export");
    reveal_strlit("session_goal");
    reveal_strlit("element_colors");
    assert("character_colors"@.len() != "theme"@.len());
    assert("character_colors"@.len() != "light_mode"@.len());
    assert("character_colors"@.len() != "animations"@.len());
    assert("character_colors"@.len() != "blur"@.len());
    assert("character_colors"@.len() != "splash"@.len());
    assert("character_colors"@.len() != "starred_first"@.len());
    assert("character_colors"@.len() != "sort_by"@.len());
    assert("character_colors"@.len() != "autosave_ms"@.len());
    assert("character_colors"@.len() != "match_tesseract"@.len());
    assert("character_colors"@.len() != "show_library"@.len());
    assert("character_colors"@.len() != "show_scenes"@.len());
    assert("character_colors"@.len() != "show_cast"@.len());
    assert("character_colors"@.len() != "show_details"@.len());
    assert("character_colors"@.len() != "page_breaks"@.len());
    assert("character_colors"@.len() != "scene_numbers"@.len());
    assert("character_colors"@.len() != "smart_type"@.len());
    assert("character_colors"@.len() != "typewriter"@.len());
    assert("character_colors"@.len() != "after_export"@.len());
    assert("character_colors"@.len() != "session_goal"@.len());
    assert("character_colors"@.len() != "element_colors"@.len());
}

/// What a `character_colors_reading` entry sets.
proof fn lemma_read_character_colors_reading(x: (PrefsV, bool), v: Seq<char>)
    ensures
        pref_step(x, "character_colors_reading"@, v) == (PrefsV { extras: ExtrasV { character_colors_reading: yes_word(v), ..x.0.extras }, ..x.0 }, x.1),
{
    reveal(pref_step);
    reveal_strlit("character_colors_reading");
    reveal_strlit("theme");
    reveal_strlit("light_mode");
    reveal_strlit("animations");
    reveal_strlit("blur");
    reveal_strlit("splash");
    reveal_strlit("starred_first");
    reveal_strlit("sort_by");
    reveal_strlit("autosave_ms");
    reveal_strlit("match_tesseract");
    reveal_strlit("show_library");
    reveal_strlit("show_scenes");
    reveal_strlit("show_cast");
    reveal_strlit("show_details");
    reveal_strlit("page_breaks");
    reveal_strlit("scene_numbers");
    reveal_strlit("smart_type");
    reveal_strlit("typewriter");
    reveal_strlit("after_export");
    reveal_strlit("session_goal");
    reveal_strlit("element_colors");
    reveal_strlit("character_colors");
    assert("character_colors_reading"@.len() != "theme"@.len());
    assert("character_colors_reading"@.len() != "light_mode"@.len());
    assert("character_colors_reading"@.len() != "animations"@.len());
    assert("character_colors_reading"@.len() != "blur"@.len());
    assert("character_colors_reading"@.len() != "splash"@.len());
    assert("character_colors_reading"@.len() != "starred_first"@.len());
    assert("character_colors_reading"@.len() != "sort_by"@.len());
    assert("character_colors_reading"@.len() != "autosave_ms"@.len());
    assert("character_colors_reading"@.len() != "match_tesseract"@.len());
    assert("character_colors_reading"@.len() != "show_library"@.len());
    assert("character_colors_reading"@.len() != "show_scenes"@.len());
    assert("character_colors_reading"@.len() != "show_cast"@.len());
    assert("character_colors_reading"@.len() != "show_details"@.len());
    assert("character_colors_reading"@.len() != "page_breaks"@.len());
    assert("character_colors_reading"@.len() != "scene_numbers"@.len());
    assert("character_colors_reading"@.len() != "smart_type"@.len());
    assert("character_colors_reading"@.len() != "typewriter"@.len());
    assert("character_colors_reading"@.len() != "after_export"@.len());
    assert("character_colors_reading"@.len() != "session_goal"@.len());
    assert("character_colors_reading"@.len() != "element_colors"@.len());
    assert("character_colors_reading"@.len() != "character_colors"@.len());
}

/// What a `colour_seed` entry sets.
proof fn lemma_read_colour_seed(x: (PrefsV, bool), v: Seq<char>)
    ensures
        pref_step(x, "colour_seed"@, v) == (PrefsV { extras: ExtrasV { colour_seed: match parse_up_to(v, u32::MAX as nat) { Some(n) => n as u32, None => 0 }, ..x.0.extras }, ..x.0 }, x.1),
{
    reveal(pref_step);
    reveal_strlit("colour_seed");
    reveal_strlit("theme");
    reveal_strlit("light_mode");
    reveal_strlit("animations");
    reveal_strlit("blur");
    reveal_strlit("splash");
    reveal_strlit("starred_first");
    reveal_strlit("sort_by");
    reveal_strlit("autosave_ms");
    reveal_strlit("match_tesseract");
    reveal_strlit("show_library");
    reveal_strlit("show_scenes");
    reveal_strlit("show_cast");
    reveal_strlit("show_details");
    reveal_strlit("page_breaks");
    reveal_strlit("scene_numbers");
    reveal_strlit("smart_type");
    reveal_strlit("typewriter");
    reveal_strlit("after_export");
    reveal_strlit("session_goal");
    reveal_strlit("element_colors");
    reveal_strlit("character_colors");
    reveal_strlit("character_colors_reading");
    assert("colour_seed"@.len() != "theme"@.len());
    assert("colour_seed"@.len() != "light_mode"@.len());
    assert("colour_seed"@.len() != "animations"@.len());
    assert("colour_seed"@.len() != "blur"@.len());
    assert("colour_seed"@.len() != "splash"@.len());
    assert("colour_seed"@.len() != "starred_first"@.len());
    assert("colour_seed"@.len() != "sort_by"@.len());
    assert("colour_seed"@[0] != "autosave_ms"@[0]);
    assert("colour_seed"@.len() != "match_tesseract"@.len());
    assert("colour_seed"@.len() != "show_library"@.len());
    assert("colour_seed"@[0] != "show_scenes"@[0]);
    assert("colour_seed"@.len() != "show_cast"@.len());
    assert("colour_seed"@.len() != "show_details"@.len());
    assert("colour_seed"@[0] != "page_breaks"@[0]);
    assert("colour_seed"@.len() != "scene_numbers"@.len());
    assert("colour_seed"@.len() != "smart_type"@.len());
    assert("colour_seed"@.len() != "typewriter"@.len());
    assert("colour_seed"@.len() != "after_export"@.len());
    assert("colour_seed"@.len() != "session_goal"@.len());
    assert("colour_seed"@.len() != "element_colors"@.len());
    assert("colour_seed"@.len() != "character_colors"@.len());
    assert("colour_seed"@.len() != "character_colors_reading"@.len());
}

/// What a `youtrack_url` entry sets.
proof fn lemma_read_youtrack_url(x: (PrefsV, bool), v: Seq<char>)
    ensures
        pref_step(x, "youtrack_url"@, v) == (PrefsV { extras: ExtrasV { youtrack_url: if v.len() == 0 { default_youtrack() } else { v }, ..x.0.extras }, ..x.0 }, x.1),
{
    reveal(pref_step);
    reveal_strlit("youtrack_url");
    reveal_strlit("theme");
    reveal_strlit("light_mode");
    reveal_strlit("animations");
    reveal_strlit("blur");
    reveal_strlit("splash");
    reveal_strlit("starred_first");
    reveal_strlit("sort_by");
    reveal_strlit("autosave_ms");
    reveal_strlit("match_tesseract");
    reveal_strlit("show_library");
    reveal_strlit("show_scenes");
    reveal_strlit("show_cast");
    reveal_strlit("show_details");
    reveal_strlit("page_breaks");
    reveal_strlit("scene_numbers");
    reveal_strlit("smart_type");
    reveal_strlit("typewriter");
    reveal_strlit("after_export");
    reveal_strlit("session_goal");
    reveal_strlit("element_colors");
    reveal_strlit("character_colors");
    reveal_strlit("character_colors_reading");
    reveal_strlit("colour_seed");
    assert("youtrack_url"@.len() != "theme"@.len());
    assert("youtrack_url"@.len() != "light_mode"@.len());
    assert("youtrack_url"@.len() != "animations"@.len());
    assert("youtrack_url"@.len() != "blur"@.len());
    assert("youtrack_url"@.len() != "splash"@.len());
    assert("youtrack_url"@.len() != "starred_first"@.len());
    assert("youtrack_url"@.len() != "sort_by"@.len());
    assert("youtrack_url"@.len() != "autosave_ms"@.len());
    assert("youtrack_url"@.len() != "match_tesseract"@.len());
    assert("youtrack_url"@[0] != "show_library"@[0]);
    assert("youtrack_url"@.len() != "show_scenes"@.len());
    assert("youtrack_url"@.len() != "show_cast"@.len());
    assert("youtrack_url"@[0] != "show_details"@[0]);
    assert("youtrack_url"@.len() != "page_breaks"@.len());
    assert("youtrack_url"@.len() != "scene_numbers"@.len());
    assert("youtrack_url"@.len() != "smart_type"@.len());
    assert("youtrack_url"@.len() != "typewriter"@.len());
    assert("youtrack_url"@[0] != "after_export"@[0]);
    assert("youtrack_url"@[0] != "session_goal"@[0]);
    assert("youtrack_url"@.len() != "element_colors"@.len());
    assert("youtrack_url"@.len() != "character_colors"@.len());
    assert("youtrack_url"@.len() != "character_colors_reading"@.len());
    assert("youtrack_url"@.len() != "colour_seed"@.len());
}

/// What a `pdf_title_page` entry sets.
proof fn lemma_read_pdf_title_page(x: (PrefsV, bool), v: Seq<char>)
    ensures
        pref_step(x, "pdf_title_page"@, v) == (PrefsV { pdf: PdfPrefs { title_page: yes_word(v), ..x.0.pdf }, ..x.0 }, x.1),
{
    reveal(pref_step);
    reveal_strlit("pdf_title_page");
    reveal_strlit("theme");
    reveal_strlit("light_mode");
    reveal_strlit("animations");
    reveal_strlit("blur");
    reveal_strlit("splash");
    reveal_strlit("starred_first");
    reveal_strlit("sort_by");
    reveal_strlit("autosave_ms");
    reveal_strlit("match_tesseract");
    reveal_strlit("show_library");
    reveal_strlit("show_scenes");
    reveal_strlit("show_cast");
    reveal_strlit("show_details");
    reveal_strlit("page_breaks");
    reveal_strlit("scene_numbers");
    reveal_strlit("smart_type");
    reveal_strlit("typewriter");
    reveal_strlit("after_export");
    reveal_strlit("session_goal");
    reveal_strlit("element_colors");
    reveal_strlit("character_colors");
    reveal_strlit("character_colors_reading");
    reveal_strlit("colour_seed");
    reveal_strlit("youtrack_url");
    reveal_strlit("pdf_scene_numbers");
    assert("pdf_title_page"@.len() != "theme"@.len());
    assert("pdf_title_page"@.len() != "light_mode"@.len());
    assert("pdf_title_page"@.len() != "animations"@.len());
    assert("pdf_title_page"@.len() != "blur"@.len());
    assert("pdf_title_page"@.len() != "splash"@.len());
    assert("pdf_title_page"@.len() != "starred_first"@.len());
    assert("pdf_title_page"@.len() != "sort_by"@.len());
    assert("pdf_title_page"@.len() != "autosave_ms"@.len());
    assert("pdf_title_page"@.len() != "match_tesseract"@.len());
    assert("pdf_title_page"@.len() != "show_library"@.len());
    assert("pdf_title_page"@.len() != "show_scenes"@.len());
    assert("pdf_title_page"@.len() != "show_cast"@.len());
    assert("pdf_title_page"@.len() != "show_details"@.len());
    assert("pdf_title_page"@.len() != "page_breaks"@.len());
    assert("pdf_title_page"@.len() != "scene_numbers"@.len());
    assert("pdf_title_page"@.len() != "smart_type"@.len());
    assert("pdf_title_page"@.len() != "typewriter"@.len());
    assert("pdf_title_page"@.len() != "after_export"@.len());
    assert("pdf_title_page"@.len() != "session_goal"@.len());
    assert("pdf_title_page"@[0] != "element_colors"@[0]);
    assert("pdf_title_page"@.len() != "character_colors"@.len());
    assert("pdf_title_page"@.len() != "character_colors_reading"@.len());
    assert("pdf_title_page"@.len() != "colour_seed"@.len());
    assert("pdf_title_page"@.len() != "youtrack_url"@.len());
    assert("pdf_title_page"@.len() != "pdf_scene_numbers"@.len());
}

/// What a `pdf_scene_numbers` entry sets.
proof fn lemma_read_pdf_scene_numbers(x: (PrefsV, bool), v: Seq<char>)
    ensures
        pref_step(x, "pdf_scene_numbers"@, v) == (PrefsV { pdf: PdfPrefs { scene_numbers: yes_word(v), ..x.0.pdf }, ..x.0 }, true),
{
    reveal(pref_step);
    reveal_strlit("pdf_scene_numbers");
    reveal_strlit("theme");
    reveal_strlit("light_mode");
    reveal_strlit("animations");
    reveal_strlit("blur");
    reveal_strlit("splash");
    reveal_strlit("starred_first");
    reveal_strlit("sort_by");
    reveal_strlit("autosave_ms");
    reveal_strlit("match_tesseract");
    reveal_strlit("show_library");
    reveal_strlit("show_scenes");
    reveal_strlit("show_cast");
    reveal_strlit("show_details");
    reveal_strlit("page_breaks");
    reveal_strlit("scene_numbers");
    reveal_strlit("smart_type");
    reveal_strlit("typewriter");
    reveal_strlit("after_export");
    reveal_strlit("session_goal");
    reveal_strlit("element_colors");
    reveal_strlit("character_colors");
    reveal_strlit("character_colors_reading");
    reveal_strlit("colour_seed");
    reveal_strlit("youtrack_url");
    reveal_strlit("pdf_title_page");
    assert("pdf_scene_numbers"@.len() != "theme"@.len());
    assert("pdf_scene_numbers"@.len() != "light_mode"@.len());
    assert("pdf_scene_numbers"@.len() != "animations"@.len());
    assert("pdf_scene_numbers"@.len() != "blur"@.len());
    assert("pdf_scene_numbers"@.len() != "splash"@.len());
    assert("pdf_scene_numbers"@.len() != "starred_first"@.len());
    assert("pdf_scene_numbers"@.len() != "sort_by"@.len());
    assert("pdf_scene_numbers"@.len() != "autosave_ms"@.len());
    assert("pdf_scene_numbers"@.len() != "match_tesseract"@.len());
    assert("pdf_scene_numbers"@.len() != "show_library"@.len());
    assert("pdf_scene_numbers"@.len() != "show_scenes"@.len());
    assert("pdf_scene_numbers"@.len() != "show_cast"@.len());
    assert("pdf_scene_numbers"@.len() != "show_details"@.len());
    assert("pdf_scene_numbers"@.len() != "page_breaks"@.len());
    assert("pdf_scene_numbers"@.len() != "scene_numbers"@.len());
    assert("pdf_scene_numbers"@.len() != "smart_type"@.len());
    assert("pdf_scene_numbers"@.len() != "typewriter"@.len());
    assert("pdf_scene_numbers"@.len() != "after_export"@.len());
    assert("pdf_scene_numbers"@.len() != "session_goal"@.len());
    assert("pdf_scene_numbers"@.len() != "element_colors"@.len());
    assert("pdf_scene_numbers"@.len() != "character_colors"@.len());
    assert("pdf_scene_numbers"@.len() != "character_colors_reading"@.len());
    assert("pdf_scene_numbers"@.len() != "colour_seed"@.len());
    assert("pdf_scene_numbers"@.len() != "youtrack_url"@.len());
    assert("pdf_scene_numbers"@.len() != "pdf_title_page"@.len());
}

/// What a `pdf_character_colors` entry sets.
proof fn lemma_read_pdf_character_colors(x: (PrefsV, bool), v: Seq<char>)
    ensures
        pref_step(x, "pdf_character_colors"@, v) == (PrefsV { pdf: PdfPrefs { character_colors: yes_word(v), ..x.0.pdf }, ..x.0 }, x.1),
{
    reveal(pref_step);
    reveal_strlit("pdf_character_colors");
    reveal_strlit("theme");
    reveal_strlit("light_mode");
    reveal_strlit("animations");
    reveal_strlit("blur");
    reveal_strlit("splash");
    reveal_strlit("starred_first");
    reveal_strlit("sort_by");
    reveal_strlit("autosave_ms");
    reveal_strlit("match_tesseract");
    reveal_strlit("show_library");
    reveal_strlit("show_scenes");
    reveal_strlit("show_cast");
    reveal_strlit("show_details");
    reveal_strlit("page_breaks");
    reveal_strlit("scene_numbers");
    reveal_strlit("smart_type");
    reveal_strlit("typewriter");
    reveal_strlit("after_export");
    reveal_strlit("session_goal");
    reveal_strlit("element_colors");
    reveal_strlit("character_colors");
    reveal_strlit("character_colors_reading");
    reveal_strlit("colour_seed");
    reveal_strlit("youtrack_url");
    reveal_strlit("pdf_title_page");
    reveal_strlit("pdf_scene_numbers");
    assert("pdf_character_colors"@.len() != "theme"@.len());
    assert("pdf_character_colors"@.len() != "light_mode"@.len());
    assert("pdf_character_colors"@.len() != "animations"@.len());
    assert("pdf_character_colors"@.len() != "blur"@.len());
    assert("pdf_character_colors"@.len() != "splash"@.len());
    assert("pdf_character_colors"@.len() != "starred_first"@.len());
    assert("pdf_character_colors"@.len() != "sort_by"@.len());
    assert("pdf_character_colors"@.len() != "autosave_ms"@.len());
    assert("pdf_character_colors"@.len() != "match_tesseract"@.len());
    assert("pdf_character_colors"@.len() != "show_library"@.len());
    assert("pdf_character_colors"@.len() != "show_scenes"@.len());
    assert("pdf_character_colors"@.len() != "show_cast"@.len());
    assert("pdf_character_colors"@.len() != "show_details"@.len());
    assert("pdf_character_colors"@.len() != "page_breaks"@.len());
    assert("pdf_character_colors"@.len() != "scene_numbers"@.len());
    assert("pdf_character_colors"@.len() != "smart_type"@.len());
    assert("pdf_character_colors"@.len() != "typewriter"@.len());
    assert("pdf_character_colors"@.len() != "after_export"@.len());
    assert("pdf_character_colors"@.len() != "session_goal"@.len());
    assert("pdf_character_colors"@.len() != "element_colors"@.len());
    assert("pdf_character_colors"@.len() != "character_colors"@.len());
    assert("pdf_character_colors"@.len() != "character_colors_reading"@.len());
    assert("pdf_character_colors"@.len() != "colour_seed"@.len());
    assert("pdf_character_colors"@.len() != "youtrack_url"@.len());
    assert("pdf_character_colors"@.len() != "pdf_title_page"@.len());
    assert("pdf_character_colors"@.len() != "pdf_scene_numbers"@.len());
    assert("pdf_character_colors"@.len() != "pdf_scene_numbers"@.len());
}

/// The window's switches, written and read back, are what was written; the
/// page's text size, among them, is the application's to read.


/// The window's switches after the first `j` of their lines are read.
pub open spec fn panels_read(before: Panels, p: Panels, j: int) -> Panels {
    Panels {
        match_tesseract: if j > 0 { p.match_tesseract } else { before.match_tesseract },
        show_library: if j > 1 { p.show_library } else { before.show_library },
        show_scenes: if j > 2 { p.show_scenes } else { before.show_scenes },
        show_cast: if j > 3 { p.show_cast } else { before.show_cast },
        page_breaks: if j > 5 { p.page_breaks } else { before.page_breaks },
        scene_numbers: if j > 6 { p.scene_numbers } else { before.scene_numbers },
        smart_type: if j > 7 { p.smart_type } else { before.smart_type },
        typewriter: if j > 8 { p.typewriter } else { before.typewriter },
        show_details: before.show_details,
    }
}

proof fn lemma_panels_line_0(st: (PrefsV, bool), t: Seq<(Seq<char>, Seq<char>)>, p: PrefsV, page_px: Seq<char>)
    requires
        t.len() == 9,
        forall|i: int| 0 <= i < 9 ==> #[trigger] t[i].0 == panel_entries(p, page_px)[i].0,
        forall|i: int| 0 <= i < 9 && i != 4 ==> #[trigger] t[i].1 == panel_entries(p, page_px)[i].1,
        fold_from(st, t.take(0)) == (
        PrefsV { panels: panels_read(st.0.panels, p.panels, 0), ..st.0 },
        st.1,
    ),
    ensures
        fold_from(st, t.take(1)) == (
        PrefsV { panels: panels_read(st.0.panels, p.panels, 1), ..st.0 },
        st.1,
    ),
{
    lemma_fold_step(st, t, 0);
    let e = panel_entries(p, page_px);
    assert(t[0].0 == e[0].0);
    lemma_read_match_tesseract(fold_from(st, t.take(0)), t[0].1);
    assert(t[0].1 == e[0].1);
    lemma_yes_no(p.panels.match_tesseract);
}

proof fn lemma_panels_line_1(st: (PrefsV, bool), t: Seq<(Seq<char>, Seq<char>)>, p: PrefsV, page_px: Seq<char>)
    requires
        t.len() == 9,
        forall|i: int| 0 <= i < 9 ==> #[trigger] t[i].0 == panel_entries(p, page_px)[i].0,
        forall|i: int| 0 <= i < 9 && i != 4 ==> #[trigger] t[i].1 == panel_entries(p, page_px)[i].1,
        fold_from(st, t.take(1)) == (
        PrefsV { panels: panels_read(st.0.panels, p.panels, 1), ..st.0 },
        st.1,
    ),
    ensures
        fold_from(st, t.take(2)) == (
        PrefsV { panels: panels_read(st.0.panels, p.panels, 2), ..st.0 },
        st.1,
    ),
{
    lemma_fold_step(st, t, 1);
    let e = panel_entries(p, page_px);
    assert(t[1].0 == e[1].0);
    lemma_read_show_library(fold_from(st, t.take(1)), t[1].1);
    assert(t[1].1 == e[1].1);
    lemma_yes_no(p.panels.show_library);
}

proof fn lemma_panels_line_2(st: (PrefsV, bool), t: Seq<(Seq<char>, Seq<char>)>, p: PrefsV, page_px: Seq<char>)
    requires
        t.len() == 9,
        forall|i: int| 0 <= i < 9 ==> #[trigger] t[i].0 == panel_entries(p, page_px)[i].0,
        forall|i: int| 0 <= i < 9 && i != 4 ==> #[trigger] t[i].1 == panel_entries(p, page_px)[i].1,
        fold_from(st, t.take(2)) == (
        PrefsV { panels: panels_read(st.0.panels, p.panels, 2), ..st.0 },
        st.1,
    ),
    ensures
        fold_from(st, t.take(3)) == (
        PrefsV { panels: panels_read(st.0.panels, p.panels, 3), ..st.0 },
        st.1,
    ),
{
    lemma_fold_step(st, t, 2);
    let e = panel_entries(p, page_px);
    assert(t[2].0 == e[2].0);
    lemma_read_show_scenes(fold_from(st, t.take(2)), t[2].1);
    assert(t[2].1 == e[2].1);
    lemma_yes_no(p.panels.show_scenes);
}

proof fn lemma_panels_line_3(st: (PrefsV, bool), t: Seq<(Seq<char>, Seq<char>)>, p: PrefsV, page_px: Seq<char>)
    requires
        t.len() == 9,
        forall|i: int| 0 <= i < 9 ==> #[trigger] t[i].0 == panel_entries(p, page_px)[i].0,
        forall|i: int| 0 <= i < 9 && i != 4 ==> #[trigger] t[i].1 == panel_entries(p, page_px)[i].1,
        fold_from(st, t.take(3)) == (
        PrefsV { panels: panels_read(st.0.panels, p.panels, 3), ..st.0 },
        st.1,
    ),
    ensures
        fold_from(st, t.take(4)) == (
        PrefsV { panels: panels_read(st.0.panels, p.panels, 4), ..st.0 },
        st.1,
    ),
{
    lemma_fold_step(st, t, 3);
    let e = panel_entries(p, page_px);
    assert(t[3].0 == e[3].0);
    lemma_read_show_cast(fold_from(st, t.take(3)), t[3].1);
    assert(t[3].1 == e[3].1);
    lemma_yes_no(p.panels.show_cast);
}

proof fn lemma_panels_line_4(st: (PrefsV, bool), t: Seq<(Seq<char>, Seq<char>)>, p: PrefsV, page_px: Seq<char>)
    requires
        t.len() == 9,
        forall|i: int| 0 <= i < 9 ==> #[trigger] t[i].0 == panel_entries(p, page_px)[i].0,
        forall|i: int| 0 <= i < 9 && i != 4 ==> #[trigger] t[i].1 == panel_entries(p, page_px)[i].1,
        fold_from(st, t.take(4)) == (
        PrefsV { panels: panels_read(st.0.panels, p.panels, 4), ..st.0 },
        st.1,
    ),
    ensures
        fold_from(st, t.take(5)) == (
        PrefsV { panels: panels_read(st.0.panels, p.panels, 5), ..st.0 },
        st.1,
    ),
{
    lemma_fold_step(st, t, 4);
    let e = panel_entries(p, page_px);
    assert(t[4].0 == e[4].0);
    lemma_read_page_px(fold_from(st, t.take(4)), t[4].1);
}

proof fn lemma_panels_line_5(st: (PrefsV, bool), t: Seq<(Seq<char>, Seq<char>)>, p: PrefsV, page_px: Seq<char>)
    requires
        t.len() == 9,
        forall|i: int| 0 <= i < 9 ==> #[trigger] t[i].0 == panel_entries(p, page_px)[i].0,
        forall|i: int| 0 <= i < 9 && i != 4 ==> #[trigger] t[i].1 == panel_entries(p, page_px)[i].1,
        fold_from(st, t.take(5)) == (
        PrefsV { panels: panels_read(st.0.panels, p.panels, 5), ..st.0 },
        st.1,
    ),
    ensures
        fold_from(st, t.take(6)) == (
        PrefsV { panels: panels_read(st.0.panels, p.panels, 6), ..st.0 },
        st.1,
    ),
{
    lemma_fold_step(st, t, 5);
    let e = panel_entries(p, page_px);
    assert(t[5].0 == e[5].0);
    lemma_read_page_breaks(fold_from(st, t.take(5)), t[5].1);
    assert(t[5].1 == e[5].1);
    lemma_yes_no(p.panels.page_breaks);
}

proof fn lemma_panels_line_6(st: (PrefsV, bool), t: Seq<(Seq<char>, Seq<char>)>, p: PrefsV, page_px: Seq<char>)
    requires
        t.len() == 9,
        forall|i: int| 0 <= i < 9 ==> #[trigger] t[i].0 == panel_entries(p, page_px)[i].0,
        forall|i: int| 0 <= i < 9 && i != 4 ==> #[trigger] t[i].1 == panel_entries(p, page_px)[i].1,
        fold_from(st, t.take(6)) == (
        PrefsV { panels: panels_read(st.0.panels, p.panels, 6), ..st.0 },
        st.1,
    ),
    ensures
        fold_from(st, t.take(7)) == (
        PrefsV { panels: panels_read(st.0.panels, p.panels, 7), ..st.0 },
        st.1,
    ),
{
    lemma_fold_step(st, t, 6);
    let e = panel_entries(p, page_px);
    assert(t[6].0 == e[6].0);
    lemma_read_scene_numbers(fold_from(st, t.take(6)), t[6].1);
    assert(t[6].1 == e[6].1);
    lemma_yes_no(p.panels.scene_numbers);
}

proof fn lemma_panels_line_7(st: (PrefsV, bool), t: Seq<(Seq<char>, Seq<char>)>, p: PrefsV, page_px: Seq<char>)
    requires
        t.len() == 9,
        forall|i: int| 0 <= i < 9 ==> #[trigger] t[i].0 == panel_entries(p, page_px)[i].0,
        forall|i: int| 0 <= i < 9 && i != 4 ==> #[trigger] t[i].1 == panel_entries(p, page_px)[i].1,
        fold_from(st, t.take(7)) == (
        PrefsV { panels: panels_read(st.0.panels, p.panels, 7), ..st.0 },
        st.1,
    ),
    ensures
        fold_from(st, t.take(8)) == (
        PrefsV { panels: panels_read(st.0.panels, p.panels, 8), ..st.0 },
        st.1,
    ),
{
    lemma_fold_step(st, t, 7);
    let e = panel_entries(p, page_px);
    assert(t[7].0 == e[7].0);
    lemma_read_smart_type(fold_from(st, t.take(7)), t[7].1);
    assert(t[7].1 == e[7].1);
    lemma_yes_no(p.panels.smart_type);
}

proof fn lemma_panels_line_8(st: (PrefsV, bool), t: Seq<(Seq<char>, Seq<char>)>, p: PrefsV, page_px: Seq<char>)
    requires
        t.len() == 9,
        forall|i: int| 0 <= i < 9 ==> #[trigger] t[i].0 == panel_entries(p, page_px)[i].0,
        forall|i: int| 0 <= i < 9 && i != 4 ==> #[trigger] t[i].1 == panel_entries(p, page_px)[i].1,
        fold_from(st, t.take(8)) == (
        PrefsV { panels: panels_read(st.0.panels, p.panels, 8), ..st.0 },
        st.1,
    ),
    ensures
        fold_from(st, t.take(9)) == (
        PrefsV { panels: panels_read(st.0.panels, p.panels, 9), ..st.0 },
        st.1,
    ),
{
    lemma_fold_step(st, t, 8);
    let e = panel_entries(p, page_px);
    assert(t[8].0 == e[8].0);
    lemma_read_typewriter(fold_from(st, t.take(8)), t[8].1);
    assert(t[8].1 == e[8].1);
    lemma_yes_no(p.panels.typewriter);
}

/// The window's switches, written and read back, are what was written; the
/// page's text size, among them, is the application's to read.
proof fn lemma_fold_panels(st: (PrefsV, bool), t: Seq<(Seq<char>, Seq<char>)>, p: PrefsV, page_px: Seq<char>)
    requires
        t.len() == 9,
        forall|i: int| 0 <= i < 9 ==> #[trigger] t[i].0 == panel_entries(p, page_px)[i].0,
        forall|i: int| 0 <= i < 9 && i != 4 ==> #[trigger] t[i].1 == panel_entries(p, page_px)[i].1,
    ensures
        fold_from(st, t) == (
        PrefsV { panels: Panels { show_details: st.0.panels.show_details, ..p.panels }, ..st.0 },
        st.1,
    ),
{
    lemma_fold_none(st, t);
    assert(panels_read(st.0.panels, p.panels, 0) == st.0.panels);
    lemma_panels_line_0(st, t, p, page_px);
    lemma_panels_line_1(st, t, p, page_px);
    lemma_panels_line_2(st, t, p, page_px);
    lemma_panels_line_3(st, t, p, page_px);
    lemma_panels_line_4(st, t, p, page_px);
    lemma_panels_line_5(st, t, p, page_px);
    lemma_panels_line_6(st, t, p, page_px);
    lemma_panels_line_7(st, t, p, page_px);
    lemma_panels_line_8(st, t, p, page_px);
    assert(t.take(9) =~= t);
}

/// What is read after the first `j` of the rest of the lines.
pub open spec fn extras_read(st: (PrefsV, bool), p: PrefsV, j: int) -> (PrefsV, bool) {
    (
        PrefsV {
            panels: Panels {
                show_details: if j > 2 {
                    p.panels.show_details
                } else {
                    st.0.panels.show_details
                },
                ..st.0.panels
            },
            extras: ExtrasV {
                after_export: if j > 0 { p.extras.after_export } else { st.0.extras.after_export },
                session_goal: if j > 1 { p.extras.session_goal } else { st.0.extras.session_goal },
                element_colors: if j > 3 { p.extras.element_colors } else { st.0.extras.element_colors },
                character_colors: if j > 4 {
                    p.extras.character_colors
                } else {
                    st.0.extras.character_colors
                },
                character_colors_reading: if j > 5 {
                    p.extras.character_colors_reading
                } else {
                    st.0.extras.character_colors_reading
                },
                colour_seed: if j > 6 { p.extras.colour_seed } else { st.0.extras.colour_seed },
                youtrack_url: if j > 7 { p.extras.youtrack_url } else { st.0.extras.youtrack_url },
            },
            pdf: PdfPrefs {
                title_page: if j > 8 { p.pdf.title_page } else { st.0.pdf.title_page },
                scene_numbers: if j > 9 { p.pdf.scene_numbers } else { st.0.pdf.scene_numbers },
                character_colors: if j > 10 { p.pdf.character_colors } else { st.0.pdf.character_colors },
            },
            ..st.0
        },
        if j > 9 {
            true
        } else {
            st.1
        },
    )
}

proof fn lemma_extras_line_0(st: (PrefsV, bool), t: Seq<(Seq<char>, Seq<char>)>, p: PrefsV)
    requires
        t.len() == 11,
        forall|i: int| 0 <= i < 11 ==> #[trigger] t[i] == extra_entries(p)[i],
        p.extras.session_goal <= 20000,
        plain_value(p.extras.youtrack_url),
        fold_from(st, t.take(0)) == extras_read(st, p, 0),
    ensures
        fold_from(st, t.take(1)) == extras_read(st, p, 1),
{
    lemma_fold_step(st, t, 0);
    let e = extra_entries(p);
    assert(t[0] == e[0]);
    lemma_read_after_export(fold_from(st, t.take(0)), t[0].1);
    law_slugs_round_trip(p.shared.blur, p.shared.sort_by, p.extras.after_export);
}

proof fn lemma_extras_line_1(st: (PrefsV, bool), t: Seq<(Seq<char>, Seq<char>)>, p: PrefsV)
    requires
        t.len() == 11,
        forall|i: int| 0 <= i < 11 ==> #[trigger] t[i] == extra_entries(p)[i],
        p.extras.session_goal <= 20000,
        plain_value(p.extras.youtrack_url),
        fold_from(st, t.take(1)) == extras_read(st, p, 1),
    ensures
        fold_from(st, t.take(2)) == extras_read(st, p, 2),
{
    lemma_fold_step(st, t, 1);
    let e = extra_entries(p);
    assert(t[1] == e[1]);
    lemma_read_session_goal(fold_from(st, t.take(1)), t[1].1);
    lemma_number_reads_back(p.extras.session_goal as nat, u32::MAX as nat);
}

#[verifier::rlimit(60)]
proof fn lemma_extras_line_2(st: (PrefsV, bool), t: Seq<(Seq<char>, Seq<char>)>, p: PrefsV)
    requires
        t.len() == 11,
        forall|i: int| 0 <= i < 11 ==> #[trigger] t[i] == extra_entries(p)[i],
        p.extras.session_goal <= 20000,
        plain_value(p.extras.youtrack_url),
        fold_from(st, t.take(2)) == extras_read(st, p, 2),
    ensures
        fold_from(st, t.take(3)) == extras_read(st, p, 3),
{
    lemma_fold_step(st, t, 2);
    let e = extra_entries(p);
    assert(t[2] == e[2]);
    lemma_read_show_details(fold_from(st, t.take(2)), t[2].1);
    lemma_yes_no(p.panels.show_details);
}

proof fn lemma_extras_line_3(st: (PrefsV, bool), t: Seq<(Seq<char>, Seq<char>)>, p: PrefsV)
    requires
        t.len() == 11,
        forall|i: int| 0 <= i < 11 ==> #[trigger] t[i] == extra_entries(p)[i],
        p.extras.session_goal <= 20000,
        plain_value(p.extras.youtrack_url),
        fold_from(st, t.take(3)) == extras_read(st, p, 3),
    ensures
        fold_from(st, t.take(4)) == extras_read(st, p, 4),
{
    lemma_fold_step(st, t, 3);
    let e = extra_entries(p);
    assert(t[3] == e[3]);
    lemma_read_element_colors(fold_from(st, t.take(3)), t[3].1);
    lemma_yes_no(p.extras.element_colors);
}

proof fn lemma_extras_line_4(st: (PrefsV, bool), t: Seq<(Seq<char>, Seq<char>)>, p: PrefsV)
    requires
        t.len() == 11,
        forall|i: int| 0 <= i < 11 ==> #[trigger] t[i] == extra_entries(p)[i],
        p.extras.session_goal <= 20000,
        plain_value(p.extras.youtrack_url),
        fold_from(st, t.take(4)) == extras_read(st, p, 4),
    ensures
        fold_from(st, t.take(5)) == extras_read(st, p, 5),
{
    lemma_fold_step(st, t, 4);
    let e = extra_entries(p);
    assert(t[4] == e[4]);
    lemma_read_character_colors(fold_from(st, t.take(4)), t[4].1);
    lemma_yes_no(p.extras.character_colors);
}

proof fn lemma_extras_line_5(st: (PrefsV, bool), t: Seq<(Seq<char>, Seq<char>)>, p: PrefsV)
    requires
        t.len() == 11,
        forall|i: int| 0 <= i < 11 ==> #[trigger] t[i] == extra_entries(p)[i],
        p.extras.session_goal <= 20000,
        plain_value(p.extras.youtrack_url),
        fold_from(st, t.take(5)) == extras_read(st, p, 5),
    ensures
        fold_from(st, t.take(6)) == extras_read(st, p, 6),
{
    lemma_fold_step(st, t, 5);
    let e = extra_entries(p);
    assert(t[5] == e[5]);
    lemma_read_character_colors_reading(fold_from(st, t.take(5)), t[5].1);
    lemma_yes_no(p.extras.character_colors_reading);
}

proof fn lemma_extras_line_6(st: (PrefsV, bool), t: Seq<(Seq<char>, Seq<char>)>, p: PrefsV)
    requires
        t.len() == 11,
        forall|i: int| 0 <= i < 11 ==> #[trigger] t[i] == extra_entries(p)[i],
        p.extras.session_goal <= 20000,
        plain_value(p.extras.youtrack_url),
        fold_from(st, t.take(6)) == extras_read(st, p, 6),
    ensures
        fold_from(st, t.take(7)) == extras_read(st, p, 7),
{
    lemma_fold_step(st, t, 6);
    let e = extra_entries(p);
    assert(t[6] == e[6]);
    lemma_read_colour_seed(fold_from(st, t.take(6)), t[6].1);
    lemma_number_reads_back(p.extras.colour_seed as nat, u32::MAX as nat);
}

proof fn lemma_extras_line_7(st: (PrefsV, bool), t: Seq<(Seq<char>, Seq<char>)>, p: PrefsV)
    requires
        t.len() == 11,
        forall|i: int| 0 <= i < 11 ==> #[trigger] t[i] == extra_entries(p)[i],
        p.extras.session_goal <= 20000,
        plain_value(p.extras.youtrack_url),
        fold_from(st, t.take(7)) == extras_read(st, p, 7),
    ensures
        fold_from(st, t.take(8)) == extras_read(st, p, 8),
{
    lemma_fold_step(st, t, 7);
    let e = extra_entries(p);
    assert(t[7] == e[7]);
    lemma_read_youtrack_url(fold_from(st, t.take(7)), t[7].1);
    lemma_trim_fixed(p.extras.youtrack_url);
}

proof fn lemma_extras_line_8(st: (PrefsV, bool), t: Seq<(Seq<char>, Seq<char>)>, p: PrefsV)
    requires
        t.len() == 11,
        forall|i: int| 0 <= i < 11 ==> #[trigger] t[i] == extra_entries(p)[i],
        p.extras.session_goal <= 20000,
        plain_value(p.extras.youtrack_url),
        fold_from(st, t.take(8)) == extras_read(st, p, 8),
    ensures
        fold_from(st, t.take(9)) == extras_read(st, p, 9),
{
    lemma_fold_step(st, t, 8);
    let e = extra_entries(p);
    assert(t[8] == e[8]);
    lemma_read_pdf_title_page(fold_from(st, t.take(8)), t[8].1);
    lemma_yes_no(p.pdf.title_page);
}

proof fn lemma_extras_line_9(st: (PrefsV, bool), t: Seq<(Seq<char>, Seq<char>)>, p: PrefsV)
    requires
        t.len() == 11,
        forall|i: int| 0 <= i < 11 ==> #[trigger] t[i] == extra_entries(p)[i],
        p.extras.session_goal <= 20000,
        plain_value(p.extras.youtrack_url),
        fold_from(st, t.take(9)) == extras_read(st, p, 9),
    ensures
        fold_from(st, t.take(10)) == extras_read(st, p, 10),
{
    lemma_fold_step(st, t, 9);
    let e = extra_entries(p);
    assert(t[9] == e[9]);
    lemma_read_pdf_scene_numbers(fold_from(st, t.take(9)), t[9].1);
    lemma_yes_no(p.pdf.scene_numbers);
}

proof fn lemma_extras_line_10(st: (PrefsV, bool), t: Seq<(Seq<char>, Seq<char>)>, p: PrefsV)
    requires
        t.len() == 11,
        forall|i: int| 0 <= i < 11 ==> #[trigger] t[i] == extra_entries(p)[i],
        p.extras.session_goal <= 20000,
        plain_value(p.extras.youtrack_url),
        fold_from(st, t.take(10)) == extras_read(st, p, 10),
    ensures
        fold_from(st, t.take(11)) == extras_read(st, p, 11),
{
    lemma_fold_step(st, t, 10);
    let e = extra_entries(p);
    assert(t[10] == e[10]);
    lemma_read_pdf_character_colors(fold_from(st, t.take(10)), t[10].1);
    lemma_yes_no(p.pdf.character_colors);
}

/// The rest, written and read back, are what was written, and the file
/// says what the PDF's scene numbers are.
proof fn lemma_fold_extras(st: (PrefsV, bool), t: Seq<(Seq<char>, Seq<char>)>, p: PrefsV)
    requires
        t.len() == 11,
        forall|i: int| 0 <= i < 11 ==> #[trigger] t[i] == extra_entries(p)[i],
        p.extras.session_goal <= 20000,
        plain_value(p.extras.youtrack_url),
    ensures
        fold_from(st, t) == (
        PrefsV {
            panels: Panels { show_details: p.panels.show_details, ..st.0.panels },
            extras: p.extras,
            pdf: p.pdf,
            ..st.0
        },
        true,
    ),
{
    lemma_fold_none(st, t);
    assert(extras_read(st, p, 0) == st);
    lemma_extras_line_0(st, t, p);
    lemma_extras_line_1(st, t, p);
    lemma_extras_line_2(st, t, p);
    lemma_extras_line_3(st, t, p);
    lemma_extras_line_4(st, t, p);
    lemma_extras_line_5(st, t, p);
    lemma_extras_line_6(st, t, p);
    lemma_extras_line_7(st, t, p);
    lemma_extras_line_8(st, t, p);
    lemma_extras_line_9(st, t, p);
    lemma_extras_line_10(st, t, p);
    assert(t.take(11) =~= t);
}

/// A key is on one line.
proof fn lemma_key_one_line(k: Seq<char>)
    requires
        plain_key(k),
    ensures
        one_line(k),
{
    assert forall|i: int| 0 <= i < k.len() implies #[trigger] k[i] != '\n' by {
        assert(!is_ws(k[i]));
    }
}

proof fn lemma_shared_values_plain(p: PrefsV, glass_opacity: Seq<char>, font_scale: Seq<char>)
    ensures
        forall|i: int|
            0 <= i < 10 && i != 4 && i != 5 ==> plain_value(
                #[trigger] shared_entries(p, glass_opacity, font_scale)[i].1,
            ),
{
    lemma_choices_plain(p);
    lemma_yes_no(p.shared.light_mode);
    lemma_yes_no(p.shared.animations);
    lemma_yes_no(p.shared.splash);
    lemma_yes_no(p.shared.starred_first);
    lemma_number_reads_back(p.shared.autosave_ms as nat, u64::MAX as nat);
    let e = shared_entries(p, glass_opacity, font_scale);
    assert forall|i: int| 0 <= i < 10 && i != 4 && i != 5 implies plain_value(#[trigger] e[i].1) by {
        assert(i == 0 || i == 1 || i == 2 || i == 3 || i == 6 || i == 7 || i == 8 || i == 9);
    }
}

proof fn lemma_panel_values_plain(p: PrefsV, page_px: Seq<char>)
    ensures
        forall|i: int| 0 <= i < 9 && i != 4 ==> plain_value(#[trigger] panel_entries(p, page_px)[i].1),
{
    lemma_yes_no(p.panels.match_tesseract);
    lemma_yes_no(p.panels.show_library);
    lemma_yes_no(p.panels.show_scenes);
    lemma_yes_no(p.panels.show_cast);
    lemma_yes_no(p.panels.page_breaks);
    lemma_yes_no(p.panels.scene_numbers);
    lemma_yes_no(p.panels.smart_type);
    lemma_yes_no(p.panels.typewriter);
    let e = panel_entries(p, page_px);
    assert forall|i: int| 0 <= i < 9 && i != 4 implies plain_value(#[trigger] e[i].1) by {
        assert(i == 0 || i == 1 || i == 2 || i == 3 || i == 5 || i == 6 || i == 7 || i == 8);
    }
}

proof fn lemma_extra_values_plain(p: PrefsV)
    requires
        plain_value(p.extras.youtrack_url),
    ensures
        forall|i: int| 0 <= i < 11 ==> plain_value(#[trigger] extra_entries(p)[i].1),
{
    lemma_choices_plain(p);
    lemma_number_reads_back(p.extras.session_goal as nat, u32::MAX as nat);
    lemma_number_reads_back(p.extras.colour_seed as nat, u32::MAX as nat);
    lemma_yes_no(p.panels.show_details);
    lemma_yes_no(p.extras.element_colors);
    lemma_yes_no(p.extras.character_colors);
    lemma_yes_no(p.extras.character_colors_reading);
    lemma_yes_no(p.pdf.title_page);
    lemma_yes_no(p.pdf.scene_numbers);
    lemma_yes_no(p.pdf.character_colors);
    lemma_trim_fixed(p.extras.youtrack_url);
    let e = extra_entries(p);
    assert forall|i: int| 0 <= i < 11 implies plain_value(#[trigger] e[i].1) by {
        assert(i == 0 || i == 1 || i == 2 || i == 3 || i == 4 || i == 5 || i == 6 || i == 7 || i
            == 8 || i == 9 || i == 10);
    }
}

/// The file's first line is a comment, and reads as nothing.
proof fn lemma_heading_line(rest: Seq<char>)
    ensures
        settings_of(lines("# Northstar settings.\n"@ + rest)) == settings_of(lines(rest)),
{
    reveal_strlit("# Northstar settings.\n");
    let h = "# Northstar settings.\n"@;
    let hd = h.drop_last();
    reveal_strlit("# Northstar settings.");
    assert(hd =~= "# Northstar settings."@);
    assert forall|i: int| 0 <= i < 21 implies #[trigger] "# Northstar settings."@[i] != '\n' by {
        assert(i == 0 || i == 1 || i == 2 || i == 3 || i == 4 || i == 5 || i == 6 || i == 7 || i == 8 || i == 9 || i == 10 || i == 11 || i == 12 || i == 13 || i == 14 || i == 15 || i == 16 || i == 17 || i == 18 || i == 19 || i == 20);
    }
    assert(!hd.contains('\n'));
    assert(h =~= hd + seq!['\n'] + Seq::<char>::empty());
    lemma_lines_cons(hd, Seq::<char>::empty());
    assert(lines(Seq::<char>::empty()) =~= Seq::<Seq<char>>::empty());
    assert(lines(h) =~= seq![hd]);
    lemma_lines_append(h, rest);
    lemma_settings_add(seq![hd], lines(rest));
    assert(strip_cr(hd) == hd);
    assert(!is_ws(hd[0]) && !is_ws(hd.last()));
    lemma_trim_fixed(hd);
    assert(setting_of(hd) is None);
    assert(seq![hd].drop_last() =~= Seq::<Seq<char>>::empty());
    assert(seq![hd].last() == hd);
    assert(settings_of(Seq::<Seq<char>>::empty()) =~= Seq::<(Seq<char>, Seq<char>)>::empty());
    assert(settings_of(seq![hd]) =~= Seq::<(Seq<char>, Seq<char>)>::empty());
    assert(seq![hd] + lines(rest) == lines(h + rest));
    assert(Seq::<(Seq<char>, Seq<char>)>::empty() + settings_of(lines(rest)) =~= settings_of(lines(rest)));
}

/// What the settings file is written as reads back as what was written —
/// every setting but the three fractions, which the application reads
/// itself — as long as each is a value the file can hold: the autosave
/// delay and the session goal within the bounds reading puts them in, and
/// the YouTrack address a plain value.
#[verifier::rlimit(80)]
#[verifier::spinoff_prover]
pub proof fn law_settings_read_back(
    p: PrefsV,
    glass_opacity: Seq<char>,
    font_scale: Seq<char>,
    page_px: Seq<char>,
)
    requires
        150 <= p.shared.autosave_ms <= 10000,
        p.extras.session_goal <= 20000,
        plain_value(p.extras.youtrack_url),
        one_line(glass_opacity),
        one_line(font_scale),
        one_line(page_px),
    ensures
        prefs_of(prefs_text(p, glass_opacity, font_scale, page_px)) == p,
{
    let a = shared_entries(p, glass_opacity, font_scale);
    let b = panel_entries(p, page_px);
    let c = extra_entries(p);
    let es = prefs_entries(p, glass_opacity, font_scale, page_px);
    assert(es == a + b + c);
    lemma_keys_plain();
    lemma_shared_values_plain(p, glass_opacity, font_scale);
    lemma_panel_values_plain(p, page_px);
    lemma_extra_values_plain(p);
    assert forall|i: int| 0 <= i < es.len() implies plain_key(#[trigger] es[i].0) && one_line(
        es[i].1,
    ) by {
        if i < 10 {
            assert(es[i] == a[i]);
            assert(i == 0 || i == 1 || i == 2 || i == 3 || i == 4 || i == 5 || i == 6 || i == 7
                || i == 8 || i == 9);
        } else if i < 19 {
            assert(es[i] == b[i - 10]);
            assert(i == 10 || i == 11 || i == 12 || i == 13 || i == 14 || i == 15 || i == 16 || i
                == 17 || i == 18);
        } else {
            assert(es[i] == c[i - 19]);
            assert(i == 19 || i == 20 || i == 21 || i == 22 || i == 23 || i == 24 || i == 25 || i
                == 26 || i == 27 || i == 28 || i == 29);
        }
    }
    assert forall|i: int| 0 <= i < es.len() implies one_line(#[trigger] es[i].0) && one_line(es[i].1) by {
        lemma_key_one_line(es[i].0);
    }
    lemma_entry_lines_lines(es);
    lemma_heading_line(entry_lines(es));
    lemma_entries_read(es);
    let sv = settings_of(written_lines(es));
    assert(settings_of(lines(prefs_text(p, glass_opacity, font_scale, page_px))) == sv);
    let (x, y, z) = (sv.take(10), sv.subrange(10, 19), sv.skip(19));
    assert(sv =~= x + y + z);
    assert forall|i: int| 0 <= i < 10 implies #[trigger] x[i].0 == a[i].0 by {
        assert(x[i] == sv[i]);
        assert(es[i] == a[i]);
    }
    assert forall|i: int| 0 <= i < 10 && i != 4 && i != 5 implies #[trigger] x[i].1 == a[i].1 by {
        assert(x[i] == sv[i]);
        assert(es[i] == a[i]);
        assert(plain_value(a[i].1));
        assert(plain_value(es[i].1));
        assert(sv[i].0 == es[i].0);
    }
    assert forall|i: int| 0 <= i < 9 implies #[trigger] y[i].0 == b[i].0 by {
        assert(y[i] == sv[i + 10]);
        assert(es[i + 10] == b[i]);
    }
    assert forall|i: int| 0 <= i < 9 && i != 4 implies #[trigger] y[i].1 == b[i].1 by {
        assert(y[i] == sv[i + 10]);
        assert(es[i + 10] == b[i]);
        assert(plain_value(b[i].1));
        assert(plain_value(es[i + 10].1));
        assert(sv[i + 10].0 == es[i + 10].0);
    }
    assert forall|i: int| 0 <= i < 11 implies #[trigger] z[i] == c[i] by {
        assert(z[i] == sv[i + 19]);
        assert(es[i + 19] == c[i]);
        assert(plain_value(c[i].1));
        assert(sv[i + 19].0 == es[i + 19].0);
    }
    let d = (default_prefs(), false);
    lemma_fold_is_from(sv);
    lemma_fold_add(d, x, y);
    lemma_fold_add(d, x + y, z);
    lemma_fold_shared(d, x, p, glass_opacity, font_scale);
    let st1 = fold_from(d, x);
    lemma_fold_panels(st1, y, p, page_px);
    let st2 = fold_from(st1, y);
    lemma_fold_extras(st2, z, p);
    assert(fold_from(d, sv).0 == p);
}

} // verus!
