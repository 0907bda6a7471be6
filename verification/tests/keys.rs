//! The page's key table, where the caret lands, what Find marks, and the
//! deck's clock.

use northstar::alerts::{Deck, DeckEvent, Tone};
use northstar::editor::{
    act_for, after_typing, caret_index, find_hits, keep_focus, next_speaker, Act, Caret, Chord, Key,
    Typed,
};
use northstar::model::{Document, Element};
use northstar::theme::{palette, Rgba, ThemeId};

fn chord(key: Key, shift: bool, alt: bool) -> Chord {
    Chord { key, shift, alt }
}

fn is_split(a: &Option<Act>, at: usize, same: bool) -> bool {
    matches!(a, Some(Act::Split { id: 7, at: x, same: s }) if *x == at && *s == same)
}

#[test]
fn the_key_table_goes_in_order() {
    let e = Element::Character;
    assert!(is_split(&act_for(7, e, Some(3), 10, None, chord(Key::Enter, true, false)), 3, true));
    assert!(is_split(&act_for(7, e, Some(3), 10, None, chord(Key::Enter, false, false)), 3, false));
    // Alt+Enter is Enter: a modifier the key does not ask for is ignored
    assert!(is_split(&act_for(7, e, None, 10, None, chord(Key::Enter, false, true)), 10, false));
    assert!(matches!(
        act_for(7, e, Some(2), 10, None, chord(Key::Tab, true, false)),
        Some(Act::SetElement { id: 7, element: Element::Action, at: 2 })
    ));
    assert!(matches!(
        act_for(7, e, Some(2), 10, None, chord(Key::Tab, false, false)),
        Some(Act::SetElement { id: 7, element: Element::Parenthetical, at: 2 })
    ));
    // a suggestion is taken only with the caret at the end
    match act_for(7, e, Some(10), 10, Some("ECTIVE COLE"), chord(Key::Tab, false, false)) {
        Some(Act::Accept { id: 7, rest }) => assert_eq!(rest, "ECTIVE COLE"),
        _ => panic!("Tab takes the suggestion"),
    }
    assert!(matches!(
        act_for(7, e, Some(4), 10, Some("X"), chord(Key::Tab, false, false)),
        Some(Act::SetElement { .. })
    ));
    assert!(matches!(act_for(7, e, Some(4), 10, None, chord(Key::Up, false, true)), Some(Act::MoveUp { id: 7 })));
    assert!(matches!(act_for(7, e, Some(4), 10, None, chord(Key::Down, true, true)), Some(Act::MoveDown { id: 7 })));
    assert!(matches!(act_for(7, e, Some(0), 10, None, chord(Key::Backspace, false, false)), Some(Act::MergePrev { id: 7 })));
    assert!(act_for(7, e, Some(1), 10, None, chord(Key::Backspace, false, false)).is_none());
    assert!(matches!(act_for(7, e, Some(10), 10, None, chord(Key::Delete, false, false)), Some(Act::MergeNext { id: 7 })));
    assert!(matches!(act_for(7, e, Some(0), 10, None, chord(Key::Up, false, false)), Some(Act::FocusPrev { id: 7 })));
    assert!(matches!(act_for(7, e, Some(10), 10, None, chord(Key::Down, false, false)), Some(Act::FocusNext { id: 7 })));
    assert!(act_for(7, e, Some(5), 10, None, chord(Key::Down, false, false)).is_none());
    assert!(act_for(7, e, None, 10, None, chord(Key::Delete, false, false)).is_none(), "a selection is the text's");
}

#[test]
fn the_caret_is_held_to_the_block() {
    assert_eq!(caret_index(Caret::Start, 5), (0, 0));
    assert_eq!(caret_index(Caret::End, 5), (5, 5));
    assert_eq!(caret_index(Caret::At(3), 5), (3, 3));
    assert_eq!(caret_index(Caret::At(30), 5), (5, 5));
    assert_eq!(caret_index(Caret::Range(2, 9), 5), (2, 5));
}

#[test]
fn find_marks_whole_matches_in_any_case() {
    assert_eq!(find_hits("Rain, RAIN and rain.", "rain"), vec![0, 6, 15]);
    assert_eq!(find_hits("aaaa", "aa"), vec![0, 2]);
    assert!(find_hits("Rain", "").is_empty());
    assert!(find_hits("Rain", "snow").is_empty());
}

#[test]
fn typing_recases_and_fans_out() {
    assert!(matches!(after_typing(Element::Action, "one\ntwo"), Typed::Explode));
    match after_typing(Element::Character, "cole") {
        Typed::Recase(t) => assert_eq!(t, "COLE"),
        _ => panic!("a cue is capitals"),
    }
    assert!(matches!(after_typing(Element::Character, "COLE"), Typed::Keep));
    assert!(matches!(after_typing(Element::Action, "quiet"), Typed::Keep));
}

#[test]
fn a_cue_starts_a_speech_and_action_ends_it() {
    let s = next_speaker(None, Element::Character, "MARIA (V.O.)");
    assert_eq!(s.as_deref(), Some("MARIA"));
    let s = next_speaker(s, Element::Dialogue, "Hello.");
    assert_eq!(s.as_deref(), Some("MARIA"));
    assert_eq!(next_speaker(s, Element::Action, "She goes."), None);
}

#[test]
fn focus_falls_back_to_the_last_block() {
    let mut d = Document::default();
    d.push(Element::Action, "Two.");
    let last = d.blocks[1].id;
    let first = d.blocks[0].id;
    assert_eq!(keep_focus(Some(first), &d), Some(first));
    assert_eq!(keep_focus(Some(999), &d), Some(last));
    assert_eq!(keep_focus(None, &d), Some(last));
}

#[test]
fn every_theme_has_its_colours() {
    let p = palette(ThemeId::Zen, true);
    assert_eq!(p.backdrop, Rgba { r: 0x07, g: 0x0B, b: 0x09, a: 255 });
    assert_eq!(p.group(7), p.groups[1]);
    let q = palette(ThemeId::Zen, false);
    assert!(!q.dark && q.id == ThemeId::Zen);
    assert_eq!(q.glass, Rgba { r: 0xFA, g: 0xFD, b: 0xFB, a: 255 });
    for t in [ThemeId::Zen, ThemeId::Ember, ThemeId::Frostbite, ThemeId::Bloodmoon, ThemeId::Void, ThemeId::JetBrains] {
        for dark in [false, true] {
            let p = palette(t, dark);
            assert!(p.id == t && p.dark == dark);
        }
    }
}

#[test]
fn toasts_leave_on_their_own_and_questions_wait() {
    let mut d: Deck<u32> = Deck::default();
    d.say("Saved", "", Tone::Success);
    d.ask("Delete?", "", "Delete", Tone::Danger, 9);
    assert!(d.step(1000, DeckEvent::Nothing).is_none());
    assert!(d.step(4401, DeckEvent::Nothing).is_none(), "the toast starts to fall");
    assert!(d.step(4700, DeckEvent::Nothing).is_none(), "and is gone");
    assert!(d.asking(), "the question is still up");
    // pressing a card's button answers it; the card ids start at one
    let a = d.step(5000, DeckEvent::Confirm(2)).expect("the answer");
    assert_eq!(a.action, 9);
    assert!(a.text.is_none());
    assert!(!d.asking());
}

#[test]
fn a_question_sent_away_falls_without_an_answer() {
    let mut d: Deck<u32> = Deck::default();
    d.prompt("Rename", "", "Title", "Old", "Rename", 4);
    assert!(d.step(0, DeckEvent::Dismiss(1)).is_none());
    assert!(!d.asking());
    assert!(d.step(100, DeckEvent::Nothing).is_none());
    assert!(d.step(300, DeckEvent::Confirm(1)).is_none(), "it has fallen");
    let mut e: Deck<u32> = Deck::default();
    e.prompt("Rename", "", "Title", "Old", "Rename", 4);
    let a = e.step(0, DeckEvent::Confirm(1)).expect("answered");
    assert_eq!(a.text.as_deref(), Some("Old"));
}
