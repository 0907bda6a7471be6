//! What the user has decided the app should be like.
//!
//! Written to `settings.conf` next to the scripts as plain `key = value`
//! lines, so it can be read and fixed with a text editor if it ever gets into
//! a state the app will not open. Every key Northstar shares with Tesseract is
//! spelled exactly as Tesseract spells it, so one parser reads both files —
//! that is what lets Northstar follow Tesseract's theme.
//!
//! The choices that are words, and the reading of the file into its entries,
//! are here; the settings record itself, which holds sizes and opacities as
//! fractions, is the application's.

use vstd::prelude::*;

use crate::text::{
    chars_of, dec, decimal_u64, index_of, index_of_char, is_str, lemma_index_of_char, lines,
    parse_bounded, parse_up_to, push_all, push_str, slice_of, split_lines, string_of, trim,
    trim_chars,
};
use crate::theme::{theme_from, theme_slug, ThemeId};

verus! {

/// How the window's glass is drawn.
#[derive(Clone, Copy, PartialEq, Eq, Debug, Structural)]
pub enum BlurMode {
    /// Ask the compositor; fall back to opaque islands if it says no.
    Auto,
    /// Stay translucent even if the blur could not be installed.
    Always,
    /// Never go translucent.
    Off,
}

/// The word a blur mode is written as in the settings file.
pub open spec fn blur_slug(m: BlurMode) -> Seq<char> {
    match m {
        BlurMode::Auto => "auto"@,
        BlurMode::Always => "always"@,
        BlurMode::Off => "off"@,
    }
}

/// The blur mode a word in the settings file means; anything unknown is Auto.
pub open spec fn blur_from(s: Seq<char>) -> BlurMode {
    if s == "always"@ {
        BlurMode::Always
    } else if s == "off"@ {
        BlurMode::Off
    } else {
        BlurMode::Auto
    }
}

impl Default for BlurMode {
    fn default() -> (r: BlurMode)
        ensures
            r == BlurMode::Auto,
    {
        BlurMode::Auto
    }
}

impl BlurMode {
    pub fn label(self) -> (r: &'static str)
        ensures
            r@ == (match self {
                BlurMode::Auto => "Auto"@,
                BlurMode::Always => "Always"@,
                BlurMode::Off => "Off"@,
            }),
    {
        match self {
            BlurMode::Auto => "Auto",
            BlurMode::Always => "Always",
            BlurMode::Off => "Off",
        }
    }

    pub fn slug(self) -> (r: &'static str)
        ensures
            r@ == blur_slug(self),
    {
        match self {
            BlurMode::Auto => "auto",
            BlurMode::Always => "always",
            BlurMode::Off => "off",
        }
    }

    pub fn from_slug(s: &str) -> (r: BlurMode)
        ensures
            r == blur_from(s@),
    {
        let c = chars_of(s);
        if is_str(c.as_slice(), "always") {
            BlurMode::Always
        } else if is_str(c.as_slice(), "off") {
            BlurMode::Off
        } else {
            BlurMode::Auto
        }
    }
}

/// How the library is ordered.
#[derive(Clone, Copy, PartialEq, Eq, Debug, Structural)]
pub enum SortBy {
    Recent,
    Title,
    Length,
}

pub open spec fn sort_slug(m: SortBy) -> Seq<char> {
    match m {
        SortBy::Recent => "recent"@,
        SortBy::Title => "title"@,
        SortBy::Length => "length"@,
    }
}

/// The order a word in the settings file means; anything unknown is Recent.
pub open spec fn sort_from(s: Seq<char>) -> SortBy {
    if s == "title"@ {
        SortBy::Title
    } else if s == "length"@ {
        SortBy::Length
    } else {
        SortBy::Recent
    }
}

impl Default for SortBy {
    fn default() -> (r: SortBy)
        ensures
            r == SortBy::Recent,
    {
        SortBy::Recent
    }
}

impl SortBy {
    pub fn label(self) -> (r: &'static str)
        ensures
            r@ == (match self {
                SortBy::Recent => "Last touched"@,
                SortBy::Title => "Title"@,
                SortBy::Length => "Length"@,
            }),
    {
        match self {
            SortBy::Recent => "Last touched",
            SortBy::Title => "Title",
            SortBy::Length => "Length",
        }
    }

    pub fn slug(self) -> (r: &'static str)
        ensures
            r@ == sort_slug(self),
    {
        match self {
            SortBy::Recent => "recent",
            SortBy::Title => "title",
            SortBy::Length => "length",
        }
    }

    pub fn from_slug(s: &str) -> (r: SortBy)
        ensures
            r == sort_from(s@),
    {
        let c = chars_of(s);
        if is_str(c.as_slice(), "title") {
            SortBy::Title
        } else if is_str(c.as_slice(), "length") {
            SortBy::Length
        } else {
            SortBy::Recent
        }
    }
}

/// What Quick Export (Ctrl+E) does with the PDF once it is written.
#[derive(Clone, Copy, PartialEq, Eq, Debug, Structural)]
pub enum AfterExport {
    /// Open it in the default PDF viewer — what Northstar always did.
    Open,
    /// Show it in the file manager — what Tesseract does.
    Reveal,
    /// Just say so.
    Nothing,
}

pub open spec fn after_slug(m: AfterExport) -> Seq<char> {
    match m {
        AfterExport::Open => "open"@,
        AfterExport::Reveal => "reveal"@,
        AfterExport::Nothing => "nothing"@,
    }
}

/// What a word in the settings file asks for; anything unknown is Open.
pub open spec fn after_from(s: Seq<char>) -> AfterExport {
    if s == "reveal"@ {
        AfterExport::Reveal
    } else if s == "nothing"@ {
        AfterExport::Nothing
    } else {
        AfterExport::Open
    }
}

impl Default for AfterExport {
    fn default() -> (r: AfterExport)
        ensures
            r == AfterExport::Open,
    {
        AfterExport::Open
    }
}

impl AfterExport {
    pub fn label(self) -> (r: &'static str)
        ensures
            r@ == (match self {
                AfterExport::Open => "Open it"@,
                AfterExport::Reveal => "Show file"@,
                AfterExport::Nothing => "Nothing"@,
            }),
    {
        match self {
            AfterExport::Open => "Open it",
            AfterExport::Reveal => "Show file",
            AfterExport::Nothing => "Nothing",
        }
    }

    pub fn slug(self) -> (r: &'static str)
        ensures
            r@ == after_slug(self),
    {
        match self {
            AfterExport::Open => "open",
            AfterExport::Reveal => "reveal",
            AfterExport::Nothing => "nothing",
        }
    }

    pub fn from_slug(s: &str) -> (r: AfterExport)
        ensures
            r == after_from(s@),
    {
        let c = chars_of(s);
        if is_str(c.as_slice(), "reveal") {
            AfterExport::Reveal
        } else if is_str(c.as_slice(), "nothing") {
            AfterExport::Nothing
        } else {
            AfterExport::Open
        }
    }
}

/// A choice written to the settings file reads back as itself.
pub proof fn law_slugs_round_trip(b: BlurMode, s: SortBy, a: AfterExport)
    ensures
        blur_from(blur_slug(b)) == b,
        sort_from(sort_slug(s)) == s,
        after_from(after_slug(a)) == a,
{
    reveal_strlit("auto");
    reveal_strlit("always");
    reveal_strlit("off");
    reveal_strlit("recent");
    reveal_strlit("title");
    reveal_strlit("length");
    reveal_strlit("open");
    reveal_strlit("reveal");
    reveal_strlit("nothing");
    assert("auto"@.len() != "always"@.len());
    assert("auto"@.len() != "off"@.len());
    assert("recent"@.len() != "title"@.len());
    assert("recent"@[0] != "length"@[0]);
    assert("length"@.len() != "title"@.len());
    assert("open"@.len() != "reveal"@.len());
    assert("open"@.len() != "nothing"@.len());
    assert("reveal"@.len() != "nothing"@.len());
}

/// A yes in a settings value.
pub open spec fn yes_word(v: Seq<char>) -> bool {
    v == "yes"@ || v == "true"@ || v == "1"@ || v == "on"@
}

pub fn is_yes(v: &str) -> (r: bool)
    ensures
        r == yes_word(v@),
{
    let c = chars_of(v);
    let s = c.as_slice();
    is_str(s, "yes") || is_str(s, "true") || is_str(s, "1") || is_str(s, "on")
}

/// A settings line's key and value, both trimmed; `None` for a blank line,
/// a comment, or a line without `=`.
pub open spec fn setting_of(line: Seq<char>) -> Option<(Seq<char>, Seq<char>)> {
    let l = trim(line);
    if l.len() == 0 || l[0] == '#' {
        None
    } else {
        match index_of_char(l, '=') {
            Some(k) => Some((trim(l.take(k)), trim(l.skip(k + 1)))),
            None => None,
        }
    }
}

/// The entries of a settings file, in order; a later one for a key wins.
pub open spec fn settings_of(ls: Seq<Seq<char>>) -> Seq<(Seq<char>, Seq<char>)>
    decreases ls.len(),
{
    if ls.len() == 0 {
        seq![]
    } else {
        let r = settings_of(ls.drop_last());
        match setting_of(ls.last()) {
            Some(kv) => r.push(kv),
            None => r,
        }
    }
}

/// The `key = value` entries of a settings file, in order.
pub fn settings_entries(text: &str) -> (r: Vec<(String, String)>)
    ensures
        r@.map_values(|e: (String, String)| (e.0@, e.1@)) == settings_of(lines(text@)),
{
    let raw = chars_of(text);
    let ls = split_lines(raw.as_slice());
    let ghost lv = ls@.map_values(|l: Vec<char>| l@);
    let mut out: Vec<(String, String)> = Vec::new();
    let mut i: usize = 0;
    proof {
        assert(lv.take(0) =~= Seq::<Seq<char>>::empty());
        assert(out@.map_values(|e: (String, String)| (e.0@, e.1@)) =~= Seq::<
            (Seq<char>, Seq<char>),
        >::empty());
    }
    while i < ls.len()
        invariant
            i <= ls@.len(),
            lv == ls@.map_values(|l: Vec<char>| l@),
            out@.map_values(|e: (String, String)| (e.0@, e.1@)) == settings_of(lv.take(i as int)),
        decreases ls@.len() - i,
    {
        proof {
            assert(lv.take(i + 1).drop_last() =~= lv.take(i as int));
            assert(lv.take(i + 1).last() == ls@[i as int]@);
        }
        let l = trim_chars(ls[i].as_slice());
        if l.len() > 0 && l[0] != '#' {
            proof {
                lemma_index_of_char(l@, '=');
            }
            match index_of(l.as_slice(), '=') {
                Some(k) => {
                    let ln = l.len();
                    let kk = slice_of(l.as_slice(), 0, k);
                    let vv = slice_of(l.as_slice(), k + 1, ln);
                    let kk = trim_chars(kk.as_slice());
                    let vv = trim_chars(vv.as_slice());
                    proof {
                        assert(l@.take(k as int) =~= l@.subrange(0, k as int));
                        assert(l@.skip(k + 1) =~= l@.subrange(k + 1, ln as int));
                    }
                    let ghost before = out@.map_values(|e: (String, String)| (e.0@, e.1@));
                    out.push((string_of(kk.as_slice()), string_of(vv.as_slice())));
                    proof {
                        assert(out@.map_values(|e: (String, String)| (e.0@, e.1@)) =~= before.push(
                            (kk@, vv@),
                        ));
                    }
                },
                None => {},
            }
        }
        i = i + 1;
    }
    proof {
        assert(lv.take(i as int) =~= lv);
    }
    out
}

// ------------------------------------------------------------ the record --

/// Where "View on YouTrack", at the foot of the library, goes unless the
/// file says otherwise.
pub const DEFAULT_YOUTRACK: &'static str = "https://markedexiled.youtrack.cloud/dashboard?id=177-0";

pub open spec fn default_youtrack() -> Seq<char> {
    "https://markedexiled.youtrack.cloud/dashboard?id=177-0"@
}

/// The settings Northstar shares with Tesseract, under the same keys.
#[derive(Clone, Copy, PartialEq, Eq, Debug, Structural)]
pub struct Shared {
    pub theme: ThemeId,
    /// The light/dark cast of the chosen theme.
    pub light_mode: bool,
    pub animations: bool,
    pub blur: BlurMode,
    pub splash: bool,
    pub starred_first: bool,
    pub sort_by: SortBy,
    /// Idle time before a touched script is written out, in milliseconds.
    pub autosave_ms: u64,
}

/// Northstar's own switches for what the window shows.
#[derive(Clone, Copy, PartialEq, Eq, Debug, Structural)]
pub struct Panels {
    /// Take theme, light/dark, glass, blur and motion from Tesseract whenever
    /// Tesseract's settings are there to read.
    pub match_tesseract: bool,
    pub show_library: bool,
    pub show_scenes: bool,
    pub show_cast: bool,
    /// The script's details — title page and figures — as a panel on the right.
    pub show_details: bool,
    /// Show where each printed page will break, in the editor.
    pub page_breaks: bool,
    /// Number the scenes in the editor.
    pub scene_numbers: bool,
    /// Offer character names, places and transitions as you type.
    pub smart_type: bool,
    /// Keep the line being written in the middle of the page.
    pub typewriter: bool,
}

/// The rest of Northstar's own.
pub struct Extras {
    pub after_export: AfterExport,
    /// Words to write per session; 0 is off.
    pub session_goal: u32,
    /// A faint band behind each block in Write, in its element's colour.
    pub element_colors: bool,
    /// Each speaking character's name and lines in a colour of their own.
    pub character_colors: bool,
    /// ... and in Reading mode too, not only while writing.
    pub character_colors_reading: bool,
    /// Turns the character colour wheel; Shuffle bumps it.
    pub colour_seed: u32,
    pub youtrack_url: String,
}

pub ghost struct ExtrasV {
    pub after_export: AfterExport,
    pub session_goal: u32,
    pub element_colors: bool,
    pub character_colors: bool,
    pub character_colors_reading: bool,
    pub colour_seed: u32,
    pub youtrack_url: Seq<char>,
}

impl View for Extras {
    type V = ExtrasV;

    open spec fn view(&self) -> ExtrasV {
        ExtrasV {
            after_export: self.after_export,
            session_goal: self.session_goal,
            element_colors: self.element_colors,
            character_colors: self.character_colors,
            character_colors_reading: self.character_colors_reading,
            colour_seed: self.colour_seed,
            youtrack_url: self.youtrack_url@,
        }
    }
}

/// What a PDF carries; remembered from the Export window.
#[derive(Clone, Copy, PartialEq, Eq, Debug, Structural)]
pub struct PdfPrefs {
    pub title_page: bool,
    pub scene_numbers: bool,
    /// Each speaker's cue and lines printed in their colour.
    pub character_colors: bool,
}

/// Every setting that is a choice, a switch, a count or a word. The three
/// that are sizes and opacities, fractions all, are kept beside these by
/// the application and written in the places the file gives them.
pub struct Prefs {
    pub shared: Shared,
    pub panels: Panels,
    pub extras: Extras,
    pub pdf: PdfPrefs,
}

pub ghost struct PrefsV {
    pub shared: Shared,
    pub panels: Panels,
    pub extras: ExtrasV,
    pub pdf: PdfPrefs,
}

impl View for Prefs {
    type V = PrefsV;

    open spec fn view(&self) -> PrefsV {
        PrefsV { shared: self.shared, panels: self.panels, extras: self.extras@, pdf: self.pdf }
    }
}

/// The settings of a first run.
pub open spec fn default_prefs() -> PrefsV {
    PrefsV {
        shared: Shared {
            theme: ThemeId::Bloodmoon,
            light_mode: false,
            animations: true,
            blur: BlurMode::Auto,
            splash: true,
            starred_first: true,
            sort_by: SortBy::Recent,
            autosave_ms: 1200,
        },
        panels: Panels {
            match_tesseract: true,
            show_library: true,
            show_scenes: true,
            show_cast: false,
            show_details: false,
            page_breaks: true,
            scene_numbers: false,
            smart_type: true,
            typewriter: false,
        },
        extras: ExtrasV {
            after_export: AfterExport::Open,
            session_goal: 0,
            element_colors: true,
            character_colors: false,
            character_colors_reading: false,
            colour_seed: 0,
            youtrack_url: default_youtrack(),
        },
        pdf: PdfPrefs { title_page: true, scene_numbers: false, character_colors: false },
    }
}

impl Default for Prefs {
    fn default() -> (r: Prefs)
        ensures
            r@ == default_prefs(),
    {
        Prefs {
            shared: Shared {
                theme: ThemeId::Bloodmoon,
                light_mode: false,
                animations: true,
                blur: BlurMode::Auto,
                splash: true,
                starred_first: true,
                sort_by: SortBy::Recent,
                autosave_ms: 1200,
            },
            panels: Panels {
                match_tesseract: true,
                show_library: true,
                show_scenes: true,
                show_cast: false,
                show_details: false,
                page_breaks: true,
                scene_numbers: false,
                smart_type: true,
                typewriter: false,
            },
            extras: Extras {
                after_export: AfterExport::Open,
                session_goal: 0,
                element_colors: true,
                character_colors: false,
                character_colors_reading: false,
                colour_seed: 0,
                youtrack_url: DEFAULT_YOUTRACK.to_owned(),
            },
            pdf: PdfPrefs { title_page: true, scene_numbers: false, character_colors: false },
        }
    }
}

/// `v` held between `lo` and `hi`.
pub open spec fn clamped(v: nat, lo: nat, hi: nat) -> nat {
    if v < lo {
        lo
    } else if v > hi {
        hi
    } else {
        v
    }
}

pub open spec fn shared_key(k: Seq<char>) -> bool {
    ||| k == "theme"@
    ||| k == "light_mode"@
    ||| k == "animations"@
    ||| k == "blur"@
    ||| k == "splash"@
    ||| k == "starred_first"@
    ||| k == "sort_by"@
    ||| k == "autosave_ms"@
}

/// What a `key = value` entry for one of the shared keys sets.
pub open spec fn shared_step(s: Shared, k: Seq<char>, v: Seq<char>) -> Shared {
    if k == "theme"@ {
        Shared { theme: match theme_from(v) { Some(t) => t, None => ThemeId::Bloodmoon }, ..s }
    } else if k == "light_mode"@ {
        Shared { light_mode: yes_word(v), ..s }
    } else if k == "animations"@ {
        Shared { animations: yes_word(v), ..s }
    } else if k == "blur"@ {
        Shared { blur: blur_from(v), ..s }
    } else if k == "splash"@ {
        Shared { splash: yes_word(v), ..s }
    } else if k == "starred_first"@ {
        Shared { starred_first: yes_word(v), ..s }
    } else if k == "sort_by"@ {
        Shared { sort_by: sort_from(v), ..s }
    } else {
        Shared {
            autosave_ms: match parse_up_to(v, u64::MAX as nat) {
                Some(n) => clamped(n, 150, 10000) as u64,
                None => 1200,
            },
            ..s
        }
    }
}

pub open spec fn panels_key(k: Seq<char>) -> bool {
    ||| k == "match_tesseract"@
    ||| k == "show_library"@
    ||| k == "show_scenes"@
    ||| k == "show_cast"@
    ||| k == "show_details"@
    ||| k == "page_breaks"@
    ||| k == "scene_numbers"@
    ||| k == "smart_type"@
    ||| k == "typewriter"@
}

/// What an entry for one of the window's switches sets.
pub open spec fn panels_step(s: Panels, k: Seq<char>, v: Seq<char>) -> Panels {
    let y = yes_word(v);
    if k == "match_tesseract"@ {
        Panels { match_tesseract: y, ..s }
    } else if k == "show_library"@ {
        Panels { show_library: y, ..s }
    } else if k == "show_scenes"@ {
        Panels { show_scenes: y, ..s }
    } else if k == "show_cast"@ {
        Panels { show_cast: y, ..s }
    } else if k == "show_details"@ {
        Panels { show_details: y, ..s }
    } else if k == "page_breaks"@ {
        Panels { page_breaks: y, ..s }
    } else if k == "scene_numbers"@ {
        Panels { scene_numbers: y, ..s }
    } else if k == "smart_type"@ {
        Panels { smart_type: y, ..s }
    } else {
        Panels { typewriter: y, ..s }
    }
}

pub open spec fn extras_key(k: Seq<char>) -> bool {
    ||| k == "after_export"@
    ||| k == "session_goal"@
    ||| k == "element_colors"@
    ||| k == "character_colors"@
    ||| k == "character_colors_reading"@
    ||| k == "colour_seed"@
    ||| k == "youtrack_url"@
}

/// What an entry for one of the other settings of Northstar's own sets.
pub open spec fn extras_step(s: ExtrasV, k: Seq<char>, v: Seq<char>) -> ExtrasV {
    if k == "after_export"@ {
        ExtrasV { after_export: after_from(v), ..s }
    } else if k == "session_goal"@ {
        ExtrasV {
            session_goal: match parse_up_to(v, u32::MAX as nat) {
                Some(n) => if n > 20000 {
                    20000
                } else {
                    n as u32
                },
                None => 0,
            },
            ..s
        }
    } else if k == "element_colors"@ {
        ExtrasV { element_colors: yes_word(v), ..s }
    } else if k == "character_colors"@ {
        ExtrasV { character_colors: yes_word(v), ..s }
    } else if k == "character_colors_reading"@ {
        ExtrasV { character_colors_reading: yes_word(v), ..s }
    } else if k == "colour_seed"@ {
        ExtrasV {
            colour_seed: match parse_up_to(v, u32::MAX as nat) {
                Some(n) => n as u32,
                None => 0,
            },
            ..s
        }
    } else {
        ExtrasV {
            youtrack_url: if v.len() == 0 {
                default_youtrack()
            } else {
                v
            },
            ..s
        }
    }
}

pub open spec fn pdf_key(k: Seq<char>) -> bool {
    ||| k == "pdf_title_page"@
    ||| k == "pdf_scene_numbers"@
    ||| k == "pdf_character_colors"@
}

/// What an entry for one of the PDF's settings sets.
pub open spec fn pdf_step(s: PdfPrefs, k: Seq<char>, v: Seq<char>) -> PdfPrefs {
    if k == "pdf_title_page"@ {
        PdfPrefs { title_page: yes_word(v), ..s }
    } else if k == "pdf_scene_numbers"@ {
        PdfPrefs { scene_numbers: yes_word(v), ..s }
    } else {
        PdfPrefs { character_colors: yes_word(v), ..s }
    }
}

/// What one `key = value` entry does to the settings read so far, and
/// whether the PDF's scene numbers have been said yet. Sizes, opacities
/// and keys the file does not know leave them as they are.
#[verifier::opaque]
pub open spec fn pref_step(st: (PrefsV, bool), k: Seq<char>, v: Seq<char>) -> (PrefsV, bool) {
    let p = st.0;
    if shared_key(k) {
        (PrefsV { shared: shared_step(p.shared, k, v), ..p }, st.1)
    } else if panels_key(k) {
        (PrefsV { panels: panels_step(p.panels, k, v), ..p }, st.1)
    } else if extras_key(k) {
        (PrefsV { extras: extras_step(p.extras, k, v), ..p }, st.1)
    } else if pdf_key(k) {
        (PrefsV { pdf: pdf_step(p.pdf, k, v), ..p }, st.1 || k == "pdf_scene_numbers"@)
    } else {
        st
    }
}

/// The settings the entries give, read in order from the first run's.
pub open spec fn prefs_fold(es: Seq<(Seq<char>, Seq<char>)>) -> (PrefsV, bool)
    decreases es.len(),
{
    if es.len() == 0 {
        (default_prefs(), false)
    } else {
        let st = prefs_fold(es.drop_last());
        pref_step(st, es.last().0, es.last().1)
    }
}

/// The settings a file holds. Scene numbers were once one switch for the
/// editor and the PDF; a file from then, which says nothing of the PDF's,
/// keeps its PDF as it was.
pub open spec fn prefs_of(text: Seq<char>) -> PrefsV {
    let st = prefs_fold(settings_of(lines(text)));
    if st.1 {
        st.0
    } else {
        PrefsV { pdf: PdfPrefs { scene_numbers: st.0.panels.scene_numbers, ..st.0.pdf }, ..st.0 }
    }
}

/// The bounds every read of a settings file keeps: autosave between 150 ms
/// and ten seconds, a session goal of at most 20 000 words, an address for
/// the issue tracker.
pub open spec fn prefs_in_bounds(p: PrefsV) -> bool {
    &&& 150 <= p.shared.autosave_ms <= 10000
    &&& p.extras.session_goal <= 20000
    &&& p.extras.youtrack_url.len() > 0
}

proof fn lemma_fold_in_bounds(es: Seq<(Seq<char>, Seq<char>)>)
    ensures
        prefs_in_bounds(prefs_fold(es).0),
    decreases es.len(),
{
    reveal_strlit("https://markedexiled.youtrack.cloud/dashboard?id=177-0");
    if es.len() > 0 {
        lemma_fold_in_bounds(es.drop_last());
        reveal(pref_step);
        let p = prefs_fold(es.drop_last()).0;
        let (k, v) = es.last();
        if shared_key(k) {
            assert(prefs_in_bounds(PrefsV { shared: shared_step(p.shared, k, v), ..p }));
        } else if extras_key(k) {
            assert(prefs_in_bounds(PrefsV { extras: extras_step(p.extras, k, v), ..p }));
        }
    }
}

/// Whatever the file says, the settings read from it keep their bounds; an
/// empty file reads as the settings of a first run.
pub proof fn law_settings_in_bounds(text: Seq<char>)
    ensures
        prefs_in_bounds(prefs_of(text)),
        text.len() == 0 ==> prefs_of(text) == default_prefs(),
{
    lemma_fold_in_bounds(settings_of(lines(text)));
    if text.len() == 0 {
        assert(lines(text) =~= Seq::<Seq<char>>::empty());
        assert(settings_of(lines(text)) =~= Seq::<(Seq<char>, Seq<char>)>::empty());
    }
}

proof fn lemma_fold_said(es: Seq<(Seq<char>, Seq<char>)>)
    requires
        forall|i: int| 0 <= i < es.len() ==> (#[trigger] es[i]).0 != "pdf_scene_numbers"@,
    ensures
        !prefs_fold(es).1,
    decreases es.len(),
{
    if es.len() > 0 {
        let q = es.drop_last();
        assert forall|i: int| 0 <= i < q.len() implies (#[trigger] q[i]).0 != "pdf_scene_numbers"@ by {
            assert(q[i] == es[i]);
        }
        lemma_fold_said(q);
        reveal(pref_step);
        assert(es.last() == es[es.len() - 1]);
    }
}

/// A file from before the PDF had its own scene numbering, one that never
/// sets `pdf_scene_numbers`, numbers the PDF's scenes as the editor's.
pub proof fn law_old_files_keep_pdf_numbering(text: Seq<char>)
    requires
        forall|i: int|
            0 <= i < settings_of(lines(text)).len() ==> (#[trigger] settings_of(lines(text))[i]).0
                != "pdf_scene_numbers"@,
    ensures
        prefs_of(text).pdf.scene_numbers == prefs_of(text).panels.scene_numbers,
{
    lemma_fold_said(settings_of(lines(text)));
}

/// Apply an entry for one of the shared keys; false, and nothing set, for
/// any other key.
fn take_shared(s: &mut Shared, k: &[char], v: &str, vv: &[char]) -> (known: bool)
    requires
        vv@ == v@,
    ensures
        known == shared_key(k@),
        known ==> *final(s) == shared_step(*old(s), k@, v@),
        !known ==> *final(s) == *old(s),
{
    if is_str(k, "theme") {
        s.theme = match ThemeId::from_slug(v) {
            Some(t) => t,
            None => ThemeId::Bloodmoon,
        };
    } else if is_str(k, "light_mode") {
        s.light_mode = is_yes(v);
    } else if is_str(k, "animations") {
        s.animations = is_yes(v);
    } else if is_str(k, "blur") {
        s.blur = BlurMode::from_slug(v);
    } else if is_str(k, "splash") {
        s.splash = is_yes(v);
    } else if is_str(k, "starred_first") {
        s.starred_first = is_yes(v);
    } else if is_str(k, "sort_by") {
        s.sort_by = SortBy::from_slug(v);
    } else if is_str(k, "autosave_ms") {
        s.autosave_ms = match parse_bounded(vv, 18446744073709551615u64) {
            Some(n) => if n < 150 {
                150
            } else if n > 10000 {
                10000
            } else {
                n
            },
            None => 1200,
        };
    } else {
        return false;
    }
    true
}

/// Apply an entry for one of the window's switches.
fn take_panels(s: &mut Panels, k: &[char], v: &str) -> (known: bool)
    ensures
        known == panels_key(k@),
        known ==> *final(s) == panels_step(*old(s), k@, v@),
        !known ==> *final(s) == *old(s),
{
    let y = is_yes(v);
    if is_str(k, "match_tesseract") {
        s.match_tesseract = y;
    } else if is_str(k, "show_library") {
        s.show_library = y;
    } else if is_str(k, "show_scenes") {
        s.show_scenes = y;
    } else if is_str(k, "show_cast") {
        s.show_cast = y;
    } else if is_str(k, "show_details") {
        s.show_details = y;
    } else if is_str(k, "page_breaks") {
        s.page_breaks = y;
    } else if is_str(k, "scene_numbers") {
        s.scene_numbers = y;
    } else if is_str(k, "smart_type") {
        s.smart_type = y;
    } else if is_str(k, "typewriter") {
        s.typewriter = y;
    } else {
        return false;
    }
    true
}

/// Apply an entry for one of the other settings of Northstar's own.
fn take_extras(s: &mut Extras, k: &[char], v: &str, vv: &[char]) -> (known: bool)
    requires
        vv@ == v@,
    ensures
        known == extras_key(k@),
        known ==> final(s)@ == extras_step(old(s)@, k@, v@),
        !known ==> final(s)@ == old(s)@,
{
    if is_str(k, "after_export") {
        s.after_export = AfterExport::from_slug(v);
    } else if is_str(k, "session_goal") {
        s.session_goal = match parse_bounded(vv, 4294967295u64) {
            Some(n) => if n > 20000 {
                20000
            } else {
                n as u32
            },
            None => 0,
        };
    } else if is_str(k, "element_colors") {
        s.element_colors = is_yes(v);
    } else if is_str(k, "character_colors") {
        s.character_colors = is_yes(v);
    } else if is_str(k, "character_colors_reading") {
        s.character_colors_reading = is_yes(v);
    } else if is_str(k, "colour_seed") {
        s.colour_seed = match parse_bounded(vv, 4294967295u64) {
            Some(n) => n as u32,
            None => 0,
        };
    } else if is_str(k, "youtrack_url") {
        s.youtrack_url = if vv.len() == 0 {
            DEFAULT_YOUTRACK.to_owned()
        } else {
            v.to_owned()
        };
    } else {
        return false;
    }
    true
}

/// Apply an entry for one of the PDF's settings.
fn take_pdf(s: &mut PdfPrefs, k: &[char], v: &str) -> (known: bool)
    ensures
        known == pdf_key(k@),
        known ==> *final(s) == pdf_step(*old(s), k@, v@),
        !known ==> *final(s) == *old(s),
{
    if is_str(k, "pdf_title_page") {
        s.title_page = is_yes(v);
    } else if is_str(k, "pdf_scene_numbers") {
        s.scene_numbers = is_yes(v);
    } else if is_str(k, "pdf_character_colors") {
        s.character_colors = is_yes(v);
    } else {
        return false;
    }
    true
}

/// A switch as the file writes it.
pub open spec fn yes_no(b: bool) -> Seq<char> {
    if b {
        "yes"@
    } else {
        "no"@
    }
}

/// One line of the file.
pub open spec fn entry_line(k: Seq<char>, v: Seq<char>) -> Seq<char> {
    k + " = "@ + v + "\n"@
}

/// The lines for a run of entries, in order.
pub open spec fn entry_lines(es: Seq<(Seq<char>, Seq<char>)>) -> Seq<char>
    decreases es.len(),
{
    if es.len() == 0 {
        seq![]
    } else {
        entry_lines(es.drop_last()) + entry_line(es.last().0, es.last().1)
    }
}

/// The entries for the shared settings, the glass's opacity and the text's
/// scale among them.
pub open spec fn shared_entries(p: PrefsV, glass_opacity: Seq<char>, font_scale: Seq<char>) -> Seq<
    (Seq<char>, Seq<char>),
> {
    seq![
        ("theme"@, theme_slug(p.shared.theme)),
        ("light_mode"@, yes_no(p.shared.light_mode)),
        ("animations"@, yes_no(p.shared.animations)),
        ("blur"@, blur_slug(p.shared.blur)),
        ("glass_opacity"@, glass_opacity),
        ("font_scale"@, font_scale),
        ("splash"@, yes_no(p.shared.splash)),
        ("starred_first"@, yes_no(p.shared.starred_first)),
        ("sort_by"@, sort_slug(p.shared.sort_by)),
        ("autosave_ms"@, dec(p.shared.autosave_ms as nat)),
    ]
}

/// The entries for the window's switches, the page's text size among them.
pub open spec fn panel_entries(p: PrefsV, page_px: Seq<char>) -> Seq<(Seq<char>, Seq<char>)> {
    seq![
        ("match_tesseract"@, yes_no(p.panels.match_tesseract)),
        ("show_library"@, yes_no(p.panels.show_library)),
        ("show_scenes"@, yes_no(p.panels.show_scenes)),
        ("show_cast"@, yes_no(p.panels.show_cast)),
        ("page_px"@, page_px),
        ("page_breaks"@, yes_no(p.panels.page_breaks)),
        ("scene_numbers"@, yes_no(p.panels.scene_numbers)),
        ("smart_type"@, yes_no(p.panels.smart_type)),
        ("typewriter"@, yes_no(p.panels.typewriter)),
    ]
}

/// The entries for the rest, the PDF's last.
pub open spec fn extra_entries(p: PrefsV) -> Seq<(Seq<char>, Seq<char>)> {
    seq![
        ("after_export"@, after_slug(p.extras.after_export)),
        ("session_goal"@, dec(p.extras.session_goal as nat)),
        ("show_details"@, yes_no(p.panels.show_details)),
        ("element_colors"@, yes_no(p.extras.element_colors)),
        ("character_colors"@, yes_no(p.extras.character_colors)),
        ("character_colors_reading"@, yes_no(p.extras.character_colors_reading)),
        ("colour_seed"@, dec(p.extras.colour_seed as nat)),
        ("youtrack_url"@, trim(p.extras.youtrack_url)),
        ("pdf_title_page"@, yes_no(p.pdf.title_page)),
        ("pdf_scene_numbers"@, yes_no(p.pdf.scene_numbers)),
        ("pdf_character_colors"@, yes_no(p.pdf.character_colors)),
    ]
}

/// Every entry the file holds, in the order it holds them, the sizes and
/// the opacity as the application wrote them out.
pub open spec fn prefs_entries(
    p: PrefsV,
    glass_opacity: Seq<char>,
    font_scale: Seq<char>,
    page_px: Seq<char>,
) -> Seq<(Seq<char>, Seq<char>)> {
    shared_entries(p, glass_opacity, font_scale) + panel_entries(p, page_px) + extra_entries(p)
}

/// The lines of two runs of entries are the first run's, then the second's.
proof fn lemma_entry_lines_add(a: Seq<(Seq<char>, Seq<char>)>, b: Seq<(Seq<char>, Seq<char>)>)
    ensures
        entry_lines(a + b) == entry_lines(a) + entry_lines(b),
    decreases b.len(),
{
    if b.len() == 0 {
        assert(a + b =~= a);
        assert(entry_lines(a) + Seq::<char>::empty() =~= entry_lines(a));
    } else {
        lemma_entry_lines_add(a, b.drop_last());
        assert((a + b).drop_last() =~= a + b.drop_last());
        assert((a + b).last() == b.last());
        assert(entry_lines(a) + entry_lines(b.drop_last()) + entry_line(b.last().0, b.last().1)
            =~= entry_lines(a) + (entry_lines(b.drop_last()) + entry_line(b.last().0, b.last().1)));
    }
}

/// The settings file.
pub open spec fn prefs_text(
    p: PrefsV,
    glass_opacity: Seq<char>,
    font_scale: Seq<char>,
    page_px: Seq<char>,
) -> Seq<char> {
    "# Northstar settings.\n"@ + entry_lines(prefs_entries(p, glass_opacity, font_scale, page_px))
}

fn yes_no_chars(b: bool) -> (r: Vec<char>)
    ensures
        r@ == yes_no(b),
{
    if b {
        chars_of("yes")
    } else {
        chars_of("no")
    }
}

/// Write a run of entries, a line each.
fn push_entries(out: &mut Vec<char>, es: &Vec<(&'static str, Vec<char>)>)
    ensures
        final(out)@ == old(out)@ + entry_lines(es@.map_values(|e: (&str, Vec<char>)| (e.0@, e.1@))),
{
    let ghost ev = es@.map_values(|e: (&str, Vec<char>)| (e.0@, e.1@));
    let ghost head = out@;
    let mut i: usize = 0;
    proof {
        assert(ev.take(0) =~= Seq::<(Seq<char>, Seq<char>)>::empty());
        assert(out@ =~= head + entry_lines(ev.take(0)));
    }
    while i < es.len()
        invariant
            i <= es@.len(),
            ev == es@.map_values(|e: (&str, Vec<char>)| (e.0@, e.1@)),
            out@ == head + entry_lines(ev.take(i as int)),
        decreases es@.len() - i,
    {
        proof {
            assert(ev.take(i + 1).drop_last() =~= ev.take(i as int));
            assert(ev.take(i + 1).last() == ev[i as int]);
        }
        push_str(out, es[i].0);
        push_str(out, " = ");
        push_all(out, es[i].1.as_slice());
        push_str(out, "\n");
        proof {
            assert(out@ =~= head + entry_lines(ev.take(i + 1)));
        }
        i = i + 1;
    }
    proof {
        assert(ev.take(i as int) =~= ev);
    }
}

impl Shared {
    /// Take the look from Tesseract's settings: theme, cast, blur and
    /// motion. Nothing about what either app *does* crosses over. True when
    /// anything changed.
    pub fn adopt_look(&mut self, from: &Shared) -> (r: bool)
        ensures
            *final(self) == (Shared {
                theme: from.theme,
                light_mode: from.light_mode,
                animations: from.animations,
                blur: from.blur,
                ..*old(self)
            }),
            r == (*final(self) != *old(self)),
    {
        let changed = self.theme != from.theme || self.light_mode != from.light_mode
            || self.animations != from.animations || self.blur != from.blur;
        self.theme = from.theme;
        self.light_mode = from.light_mode;
        self.animations = from.animations;
        self.blur = from.blur;
        changed
    }
}

impl Prefs {
    /// Apply one entry of the file.
    fn take_entry(&mut self, said: &mut bool, k: &str, v: &str)
        ensures
            (final(self)@, *final(said)) == pref_step((old(self)@, *old(said)), k@, v@),
    {
        proof {
            reveal(pref_step);
        }
        let kc = chars_of(k);
        let kk = kc.as_slice();
        let vc = chars_of(v);
        let vv = vc.as_slice();
        if take_shared(&mut self.shared, kk, v, vv) {
        } else if take_panels(&mut self.panels, kk, v) {
        } else if take_extras(&mut self.extras, kk, v, vv) {
        } else if take_pdf(&mut self.pdf, kk, v) {
            if is_str(kk, "pdf_scene_numbers") {
                *said = true;
            }
        }
    }

    /// The settings the entries give, and whether they said what the PDF's
    /// scene numbers are.
    fn fold_entries(es: &Vec<(String, String)>) -> (r: (Prefs, bool))
        ensures
            r.0@ == prefs_fold(es@.map_values(|e: (String, String)| (e.0@, e.1@))).0,
            r.1 == prefs_fold(es@.map_values(|e: (String, String)| (e.0@, e.1@))).1,
    {
        let ghost ev = es@.map_values(|e: (String, String)| (e.0@, e.1@));
        let mut p = Prefs::default();
        let mut said = false;
        let mut i: usize = 0;
        while i < es.len()
            invariant
                i <= es@.len(),
                ev == es@.map_values(|e: (String, String)| (e.0@, e.1@)),
                p@ == prefs_fold(ev.take(i as int)).0,
                said == prefs_fold(ev.take(i as int)).1,
            decreases es@.len() - i,
        {
            proof {
                assert(ev.take(i + 1).drop_last() =~= ev.take(i as int));
                assert(ev.take(i + 1).last() == ev[i as int]);
            }
            p.take_entry(&mut said, es[i].0.as_str(), es[i].1.as_str());
            i = i + 1;
        }
        proof {
            assert(ev.take(i as int) =~= ev);
        }
        (p, said)
    }

    fn shared_list(&self, glass_opacity: &str, font_scale: &str) -> (r: Vec<(&'static str, Vec<char>)>)
        ensures
            r@.map_values(|e: (&str, Vec<char>)| (e.0@, e.1@)) == shared_entries(
                self@,
                glass_opacity@,
                font_scale@,
            ),
    {
        let p = self;
        let mut es: Vec<(&'static str, Vec<char>)> = Vec::new();
        es.push(("theme", chars_of(p.shared.theme.slug())));
        es.push(("light_mode", yes_no_chars(p.shared.light_mode)));
        es.push(("animations", yes_no_chars(p.shared.animations)));
        es.push(("blur", chars_of(p.shared.blur.slug())));
        es.push(("glass_opacity", chars_of(glass_opacity)));
        es.push(("font_scale", chars_of(font_scale)));
        es.push(("splash", yes_no_chars(p.shared.splash)));
        es.push(("starred_first", yes_no_chars(p.shared.starred_first)));
        es.push(("sort_by", chars_of(p.shared.sort_by.slug())));
        es.push(("autosave_ms", decimal_u64(p.shared.autosave_ms)));
        proof {
            assert(es@.map_values(|e: (&str, Vec<char>)| (e.0@, e.1@)) =~= shared_entries(
                self@,
                glass_opacity@,
                font_scale@,
            ));
        }
        es
    }

    fn panel_list(&self, page_px: &str) -> (r: Vec<(&'static str, Vec<char>)>)
        ensures
            r@.map_values(|e: (&str, Vec<char>)| (e.0@, e.1@)) == panel_entries(self@, page_px@),
    {
        let p = self;
        let mut es: Vec<(&'static str, Vec<char>)> = Vec::new();
        es.push(("match_tesseract", yes_no_chars(p.panels.match_tesseract)));
        es.push(("show_library", yes_no_chars(p.panels.show_library)));
        es.push(("show_scenes", yes_no_chars(p.panels.show_scenes)));
        es.push(("show_cast", yes_no_chars(p.panels.show_cast)));
        es.push(("page_px", chars_of(page_px)));
        es.push(("page_breaks", yes_no_chars(p.panels.page_breaks)));
        es.push(("scene_numbers", yes_no_chars(p.panels.scene_numbers)));
        es.push(("smart_type", yes_no_chars(p.panels.smart_type)));
        es.push(("typewriter", yes_no_chars(p.panels.typewriter)));
        proof {
            assert(es@.map_values(|e: (&str, Vec<char>)| (e.0@, e.1@)) =~= panel_entries(
                self@,
                page_px@,
            ));
        }
        es
    }

    fn extra_list(&self) -> (r: Vec<(&'static str, Vec<char>)>)
        ensures
            r@.map_values(|e: (&str, Vec<char>)| (e.0@, e.1@)) == extra_entries(self@),
    {
        let p = self;
        let mut es: Vec<(&'static str, Vec<char>)> = Vec::new();
        es.push(("after_export", chars_of(p.extras.after_export.slug())));
        es.push(("session_goal", decimal_u64(p.extras.session_goal as u64)));
        es.push(("show_details", yes_no_chars(p.panels.show_details)));
        es.push(("element_colors", yes_no_chars(p.extras.element_colors)));
        es.push(("character_colors", yes_no_chars(p.extras.character_colors)));
        es.push(("character_colors_reading", yes_no_chars(p.extras.character_colors_reading)));
        es.push(("colour_seed", decimal_u64(p.extras.colour_seed as u64)));
        let url = chars_of(p.extras.youtrack_url.as_str());
        es.push(("youtrack_url", trim_chars(url.as_slice())));
        es.push(("pdf_title_page", yes_no_chars(p.pdf.title_page)));
        es.push(("pdf_scene_numbers", yes_no_chars(p.pdf.scene_numbers)));
        es.push(("pdf_character_colors", yes_no_chars(p.pdf.character_colors)));
        proof {
            assert(es@.map_values(|e: (&str, Vec<char>)| (e.0@, e.1@)) =~= extra_entries(self@));
        }
        es
    }

    /// The settings file, the glass's opacity, the text's scale and the
    /// page's text size written out as the application formats them.
    pub fn serialize(&self, glass_opacity: &str, font_scale: &str, page_px: &str) -> (r: String)
        ensures
            r@ == prefs_text(self@, glass_opacity@, font_scale@, page_px@),
    {
        let mut out: Vec<char> = Vec::new();
        push_str(&mut out, "# Northstar settings.\n");
        proof {
            assert(out@ =~= "# Northstar settings.\n"@);
        }
        let a = self.shared_list(glass_opacity, font_scale);
        push_entries(&mut out, &a);
        let b = self.panel_list(page_px);
        push_entries(&mut out, &b);
        let c = self.extra_list();
        push_entries(&mut out, &c);
        proof {
            let (x, y, z) = (
                shared_entries(self@, glass_opacity@, font_scale@),
                panel_entries(self@, page_px@),
                extra_entries(self@),
            );
            lemma_entry_lines_add(x, y);
            lemma_entry_lines_add(x + y, z);
            assert(out@ =~= "# Northstar settings.\n"@ + entry_lines(x + y + z));
        }
        string_of(out.as_slice())
    }

    /// Read a settings file; every key it does not give, or gives wrongly,
    /// keeps its first-run value.
    pub fn parse(text: &str) -> (r: Prefs)
        ensures
            r@ == prefs_of(text@),
    {
        let es = settings_entries(text);
        let (mut p, said) = Self::fold_entries(&es);
        if !said {
            p.pdf.scene_numbers = p.panels.scene_numbers;
        }
        p
    }
}

} // verus!
