//! Reading mode: which sheet is on show, how the keys turn it, and who is
//! speaking on each printed line.

use northstar::export::{compose, page_count, paginate};
use northstar::model::{Document, Element};
use northstar::pages::{speakers, PageKey, PagesState};

fn three_scenes() -> Document {
    let mut d = Document::default();
    d.blocks.clear();
    d.meta.title = "Three Scenes".into();
    d.push(Element::SceneHeading, "INT. ONE - DAY");
    d.push(Element::Action, "One.");
    d.push(Element::SceneHeading, "EXT. TWO - NIGHT");
    d.push(Element::Action, "Two.");
    d.push(Element::SceneHeading, "INT. THREE - DAWN");
    d.push(Element::Action, "Three.");
    d.reseed_ids();
    d
}

#[test]
fn reading_mode_shows_one_page_at_a_time_and_turns() {
    let mut d = three_scenes();
    for _ in 0..160 {
        d.push(Element::Action, "Line after line after line of action on the page.");
    }
    d.push(Element::Action, "THE LAST LINE.");
    d.reseed_ids();
    let body = page_count(&d);
    assert!(body >= 3);
    // written near the end: Reading mode opens on that page, not the title
    let last = d.blocks.last().unwrap().id;
    let pages = paginate(&compose(&d));
    let mut st = PagesState::default();
    st.show_block = Some(last);
    st.settle(&pages);
    assert_eq!(st.sheets, 1 + body);
    assert_eq!(st.current, body, "opens where the writing was");
    assert_eq!(st.press(PageKey::First), Some(false));
    assert_eq!(st.current, 0, "Home is the title page");
    st.press(PageKey::Forward);
    st.press(PageKey::Forward);
    assert_eq!(st.current, 2);
    st.press(PageKey::Back);
    assert_eq!(st.current, 1);
    st.press(PageKey::Last);
    assert_eq!(st.current, body);
    assert_eq!(st.press(PageKey::Forward), None);
    assert_eq!(st.current, body, "no page past the last");
}

#[test]
fn the_title_page_turns_no_further_back() {
    let mut st = PagesState::default();
    st.sheets = 4;
    assert_eq!(st.press(PageKey::Back), None);
    assert_eq!(st.current, 0);
    assert_eq!(st.turn_to(99), Some(true));
    assert_eq!(st.current, 3);
    assert_eq!(st.turn_to(1), Some(false));
    assert_eq!(st.current, 1);
}

#[test]
fn settling_holds_the_sheet_to_the_pages_there_are() {
    let d = three_scenes();
    let pages = paginate(&compose(&d));
    let mut st = PagesState::default();
    st.current = 40;
    st.settle(&pages);
    assert_eq!(st.sheets, 2);
    assert_eq!(st.current, 1);
    // a block that is on no page leaves the sheet where it is
    st.show_block = Some(9999);
    st.settle(&pages);
    assert_eq!(st.current, 1);
    assert_eq!(st.show_block, None);
}

#[test]
fn a_speech_keeps_its_speaker_across_lines_and_ends_with_action() {
    let mut d = three_scenes();
    d.push(Element::Character, "MARIA (V.O.)");
    d.push(Element::Parenthetical, "(quietly)");
    d.push(Element::Dialogue, "Keep going.");
    d.push(Element::Action, "She goes.");
    d.reseed_ids();
    let pages = paginate(&compose(&d));
    let who = speakers(&pages);
    assert_eq!(who.len(), pages.len());
    let lines: Vec<_> = pages.iter().flatten().collect();
    let names: Vec<_> = who.iter().flatten().collect();
    assert_eq!(lines.len(), names.len());
    for (l, n) in lines.iter().zip(names.iter()) {
        match l.element {
            Some(Element::Character) | Some(Element::Dialogue) | Some(Element::Parenthetical) => {
                assert_eq!(n.as_deref(), Some("MARIA"))
            }
            Some(_) => assert_eq!(**n, None),
            None => {}
        }
    }
}
