//! The settings file, read and written.

use northstar::settings::{AfterExport, BlurMode, Prefs, SortBy, DEFAULT_YOUTRACK};
use northstar::theme::ThemeId;

#[test]
fn an_empty_file_gives_the_first_run_settings() {
    let p = Prefs::parse("");
    assert_eq!(p.shared.theme, ThemeId::Bloodmoon);
    assert!(p.shared.animations && p.shared.splash && p.shared.starred_first);
    assert!(!p.shared.light_mode);
    assert_eq!(p.shared.blur, BlurMode::Auto);
    assert_eq!(p.shared.sort_by, SortBy::Recent);
    assert_eq!(p.shared.autosave_ms, 1200);
    assert!(p.panels.match_tesseract && p.panels.show_library && p.panels.page_breaks);
    assert!(!p.panels.scene_numbers && !p.panels.typewriter);
    assert_eq!(p.extras.after_export, AfterExport::Open);
    assert_eq!(p.extras.session_goal, 0);
    assert_eq!(p.extras.youtrack_url, DEFAULT_YOUTRACK);
    assert!(p.pdf.title_page && !p.pdf.scene_numbers && !p.pdf.character_colors);
}

#[test]
fn keys_are_read_and_bad_values_fall_back() {
    let text = "# a comment\n\
                theme = zen\n\
                light_mode = on\n\
                blur = off\n\
                sort_by = length\n\
                autosave_ms = 20\n\
                session_goal = 999999\n\
                colour_seed = +7\n\
                after_export = reveal\n\
                youtrack_url =\n\
                not a setting\n\
                mystery = 3\n";
    let p = Prefs::parse(text);
    assert_eq!(p.shared.theme, ThemeId::Zen);
    assert!(p.shared.light_mode);
    assert_eq!(p.shared.blur, BlurMode::Off);
    assert_eq!(p.shared.sort_by, SortBy::Length);
    assert_eq!(p.shared.autosave_ms, 150, "clamped up");
    assert_eq!(p.extras.session_goal, 20000, "clamped down");
    assert_eq!(p.extras.colour_seed, 7);
    assert_eq!(p.extras.after_export, AfterExport::Reveal);
    assert_eq!(p.extras.youtrack_url, DEFAULT_YOUTRACK);

    let p = Prefs::parse("theme = neon\nautosave_ms = lots\nsession_goal = 4294967296\nautosave_ms = 99999999999999999999\n");
    assert_eq!(p.shared.theme, ThemeId::Bloodmoon, "an unknown theme is the default one");
    assert_eq!(p.shared.autosave_ms, 1200, "too big for the number type reads as nothing");
    assert_eq!(p.extras.session_goal, 0);
    assert_eq!(Prefs::parse("autosave_ms = 60000").shared.autosave_ms, 10000);
    assert_eq!(Prefs::parse("autosave_ms = 3000").shared.autosave_ms, 3000);
}

#[test]
fn an_old_file_keeps_its_pdf_scene_numbers() {
    let p = Prefs::parse("scene_numbers = yes\n");
    assert!(p.panels.scene_numbers);
    assert!(p.pdf.scene_numbers, "one switch for both, once");
    let p = Prefs::parse("scene_numbers = yes\npdf_scene_numbers = no\n");
    assert!(p.panels.scene_numbers);
    assert!(!p.pdf.scene_numbers);
}

#[test]
fn the_file_is_written_key_by_key() {
    let p = Prefs::default();
    let text = p.serialize("0.62", "1.00", "16");
    assert!(text.starts_with("# Northstar settings.\ntheme = bloodmoon\nlight_mode = no\n"));
    assert!(text.contains("\nglass_opacity = 0.62\nfont_scale = 1.00\nsplash = yes\n"));
    assert!(text.contains("\nshow_cast = no\npage_px = 16\npage_breaks = yes\n"));
    assert!(text.contains("\nautosave_ms = 1200\n"));
    assert!(text.ends_with("pdf_title_page = yes\npdf_scene_numbers = no\npdf_character_colors = no\n"));
    assert_eq!(text.lines().count(), 31);
}

#[test]
fn what_is_written_reads_back() {
    let mut p = Prefs::default();
    p.shared.theme = ThemeId::Frostbite;
    p.shared.light_mode = true;
    p.shared.blur = BlurMode::Always;
    p.shared.sort_by = SortBy::Title;
    p.shared.autosave_ms = 4000;
    p.panels.typewriter = true;
    p.panels.scene_numbers = true;
    p.extras.after_export = AfterExport::Nothing;
    p.extras.session_goal = 1500;
    p.extras.colour_seed = 4_000_000_000;
    p.extras.youtrack_url = "https://example.org/board".into();
    p.pdf.character_colors = true;
    let q = Prefs::parse(&p.serialize("0.80", "1.20", "18"));
    assert_eq!(q.shared, p.shared);
    assert_eq!(q.panels, p.panels);
    assert_eq!(q.pdf, p.pdf);
    assert_eq!(q.extras.after_export, p.extras.after_export);
    assert_eq!(q.extras.session_goal, 1500);
    assert_eq!(q.extras.colour_seed, 4_000_000_000);
    assert_eq!(q.extras.youtrack_url, "https://example.org/board");
}

#[test]
fn the_look_comes_over_from_tesseract_and_nothing_else() {
    let mut mine = Prefs::default();
    mine.shared.autosave_ms = 5000;
    let mut theirs = Prefs::default();
    theirs.shared.theme = ThemeId::Void;
    theirs.shared.light_mode = true;
    theirs.shared.splash = false;
    assert!(mine.shared.adopt_look(&theirs.shared));
    assert_eq!(mine.shared.theme, ThemeId::Void);
    assert!(mine.shared.light_mode);
    assert!(mine.shared.splash, "not part of the look");
    assert_eq!(mine.shared.autosave_ms, 5000);
    assert!(!mine.shared.adopt_look(&theirs.shared), "nothing left to change");
}
