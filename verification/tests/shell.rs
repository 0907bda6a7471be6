//! The shell's bookkeeping: the alert deck, settings, themes, and the small
//! text helpers around the page.

use northstar::alerts::{Deck, Tone};
use northstar::blur::{self, State};
use northstar::caret::{char_len, split_at_char};
use northstar::editor::hint_for;
use northstar::icons::Icon;
use northstar::model::{Element, PAGE_COLS};
use northstar::settings::{is_yes, settings_entries, AfterExport, BlurMode, SortBy};
use northstar::shell::{relative_time, shows_in_search, starter_document, truncate};
use northstar::theme::ThemeId;
use northstar::ui::{elide, Dismisser};

#[test]
fn a_question_waits_until_it_is_answered() {
    let mut deck: Deck<u32> = Deck::default();
    assert!(!deck.asking());
    deck.ok("Saved", "All good.");
    assert!(!deck.asking());
    deck.ask("Delete?", "It cannot be undone.", "Delete", Tone::Danger, 7);
    assert!(deck.asking());
    for i in 0..10 {
        deck.say("Toast", &format!("{i}"), Tone::Info);
    }
    assert!(deck.asking(), "toasts never push a question out");
    let a = deck.take_top(None).expect("the question");
    assert_eq!(a.action, 7);
    assert_eq!(a.text, None);
    assert!(!deck.asking());
    assert!(deck.take_top(None).is_none());
}

#[test]
fn a_prompt_answers_with_what_was_typed() {
    let mut deck: Deck<&str> = Deck::default();
    deck.prompt("Rename", "", "Title", "Old name", "Rename", "rename");
    let a = deck.take_top(None).unwrap();
    assert_eq!(a.action, "rename");
    assert_eq!(a.text.as_deref(), Some("Old name"));
    deck.prompt("Rename", "", "Title", "Old name", "Rename", "rename");
    let a = deck.take_top(Some("New name".to_string())).unwrap();
    assert_eq!(a.text.as_deref(), Some("New name"));
}

#[test]
fn dismissing_sends_the_newest_question_away() {
    let mut deck: Deck<u8> = Deck::default();
    deck.ask("First", "", "Yes", Tone::Warn, 1);
    deck.ask("Second", "", "Yes", Tone::Warn, 2);
    assert!(deck.dismiss_top());
    assert!(deck.asking());
    let a = deck.take_top(None).unwrap();
    assert_eq!(a.action, 1, "the dismissed one is leaving; the first is still open");
    assert!(!deck.dismiss_top());
    deck.warn("Careful", "");
    assert!(!deck.dismiss_top());
}

#[test]
fn tones_carry_their_marks() {
    assert_eq!(Tone::Success.icon(), Icon::Check);
    assert_eq!(Tone::Info.icon(), Icon::Info);
    assert_eq!(Tone::Warn.icon(), Icon::Warning);
    assert_eq!(Tone::Danger.icon(), Icon::Trash);
}

#[test]
fn settings_files_are_read_line_by_line() {
    let e = settings_entries("# Northstar settings.\ntheme = void\nlight_mode=yes\nno equals here\n\n  blur =  off  \nyoutrack_url =\n");
    let pairs: Vec<(&str, &str)> = e.iter().map(|(k, v)| (k.as_str(), v.as_str())).collect();
    assert_eq!(
        pairs,
        vec![("theme", "void"), ("light_mode", "yes"), ("blur", "off"), ("youtrack_url", "")]
    );
    assert!(is_yes("yes") && is_yes("true") && is_yes("1") && is_yes("on"));
    assert!(!is_yes("Yes") && !is_yes("no") && !is_yes(""));
}

#[test]
fn choices_are_written_as_words_and_read_back() {
    for m in [BlurMode::Auto, BlurMode::Always, BlurMode::Off] {
        assert_eq!(BlurMode::from_slug(m.slug()), m);
    }
    for m in [SortBy::Recent, SortBy::Title, SortBy::Length] {
        assert_eq!(SortBy::from_slug(m.slug()), m);
    }
    for m in [AfterExport::Open, AfterExport::Reveal, AfterExport::Nothing] {
        assert_eq!(AfterExport::from_slug(m.slug()), m);
    }
    assert_eq!(BlurMode::from_slug("sometimes"), BlurMode::Auto);
    assert_eq!(SortBy::from_slug(""), SortBy::Recent);
    assert_eq!(AfterExport::from_slug("OPEN"), AfterExport::Open);
    assert_eq!(SortBy::Recent.label(), "Last touched");
    assert_eq!(AfterExport::Reveal.label(), "Show file");
    assert_eq!(BlurMode::default(), BlurMode::Auto);
}

#[test]
fn themes_are_found_by_their_slug() {
    let all = [
        ThemeId::Zen,
        ThemeId::Ember,
        ThemeId::Frostbite,
        ThemeId::Bloodmoon,
        ThemeId::Void,
        ThemeId::JetBrains,
    ];
    for t in all {
        assert_eq!(ThemeId::from_slug(t.slug()), Some(t));
    }
    assert_eq!(ThemeId::from_slug("Void"), None);
    assert_eq!(ThemeId::JetBrains.name(), "JetBrains");
    assert_eq!(ThemeId::Bloodmoon.blurb(), "Deep crimson");
}

#[test]
fn carets_count_characters_not_bytes() {
    assert_eq!(split_at_char("h\u{e9}llo", 2), ("h\u{e9}".to_string(), "llo".to_string()));
    assert_eq!(split_at_char("h\u{e9}llo", 99), ("h\u{e9}llo".to_string(), String::new()));
    assert_eq!(split_at_char("abc", 0), (String::new(), "abc".to_string()));
    assert_eq!(char_len("h\u{e9}llo"), 5);
}

#[test]
fn long_labels_are_cut_with_an_ellipsis() {
    assert_eq!(elide("Hello world", 5), "Hell\u{2026}");
    assert_eq!(elide("Hello", 2), "Hel\u{2026}");
    assert_eq!(elide("Hi", 1), "Hi");
    assert_eq!(truncate("Hello", 3), "He\u{2026}");
    assert_eq!(truncate("Hello", 0), "\u{2026}");
    assert_eq!(truncate("Hello", 5), "Hello");
}

#[test]
fn times_read_as_how_long_ago() {
    assert_eq!(relative_time(None), "now");
    assert_eq!(relative_time(Some(30)), "just now");
    assert_eq!(relative_time(Some(600)), "10m ago");
    assert_eq!(relative_time(Some(7200)), "2h ago");
    assert_eq!(relative_time(Some(200_000)), "2d ago");
}

#[test]
fn a_new_script_shows_every_element() {
    let d = starter_document("May 1, 2026");
    assert_eq!(d.meta.title, "Untitled Script");
    assert_eq!(d.meta.draft, "May 1, 2026");
    let els: Vec<Element> = d.blocks.iter().map(|b| b.element).collect();
    assert_eq!(
        els,
        vec![
            Element::SceneHeading,
            Element::Action,
            Element::Character,
            Element::Parenthetical,
            Element::Dialogue,
            Element::Transition
        ]
    );
    assert_eq!(d.blocks[0].text, "INT. EDIT BAY - NIGHT");
    let ids: Vec<u64> = d.blocks.iter().map(|b| b.id).collect();
    assert_eq!(ids, vec![2, 3, 4, 5, 6, 7]);
}

#[test]
fn blur_state_in_words() {
    assert_eq!(State::default().describe(), "not asked for yet");
    let on = blur::set(Ok(()));
    assert!(on.is_on());
    assert_eq!(on.describe(), "on, via _KDE_NET_WM_BLUR_BEHIND_REGION");
    let off = blur::set(Err("no compositor".to_string()));
    assert_eq!(off.describe(), "off \u{2014} no compositor");
}

#[test]
fn empty_blocks_hint_at_what_goes_in_them() {
    assert_eq!(hint_for(Element::SceneHeading), "INT. LOCATION - DAY");
    assert_eq!(hint_for(Element::Transition), "CUT TO:");
    assert_eq!(PAGE_COLS, 60);
}

#[test]
fn a_popover_ignores_the_click_that_opened_it() {
    let d = Dismisser { opened_on: 10 };
    assert!(!d.past_opening(10));
    assert!(!d.past_opening(11));
    assert!(d.past_opening(12));
    assert!(!Dismisser { opened_on: u64::MAX }.past_opening(u64::MAX));
}

#[test]
fn the_session_names_what_it_knows() {
    assert_eq!(blur::session_label("", ""), "unknown session");
    assert_eq!(blur::session_label("wayland", ""), "wayland");
    assert_eq!(blur::session_label("", "KDE"), "KDE");
    assert_eq!(blur::session_label("x11", "KDE"), "KDE on x11");
}

#[test]
fn a_search_keeps_the_rows_that_hold_it() {
    assert!(shows_in_search("", "Anything", ""));
    assert!(shows_in_search("long", "The Long Way Down", ""));
    assert!(shows_in_search("RAIN", "Untitled", "Rain hammers the roof."));
    assert!(!shows_in_search("heist", "The Long Way Down", "Rain hammers the roof."));
}
