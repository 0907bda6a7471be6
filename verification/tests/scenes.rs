//! Scenes as the cards show them, and what the keyboard and the card wall
//! do to a script.

use northstar::alerts::{Deck, Tone};
use northstar::editor::{apply, set_element, Act};
use northstar::export::{page_count, page_starts};
use northstar::history::History;
use northstar::model::{Document, Element};
use northstar::shell::starter_document;
use northstar::storage::to_markdown;

fn three_scenes() -> Document {
    let mut d = Document::default();
    d.blocks.clear();
    d.meta.title = "Three Scenes".into();
    d.push(Element::SceneHeading, "INT. ONE - DAY");
    d.push(Element::Character, "DETECTIVE COLE");
    d.push(Element::Dialogue, "One.");
    d.push(Element::SceneHeading, "EXT. TWO - NIGHT");
    d.push(Element::Action, "Two.");
    d.push(Element::SceneHeading, "INT. THREE - DAWN");
    d.push(Element::Action, "Three.");
    d.reseed_ids();
    d
}

fn ids(d: &Document) -> Vec<u64> {
    d.blocks.iter().map(|b| b.id).collect()
}

fn headings(d: &Document) -> Vec<String> {
    d.scenes().iter().map(|s| s.heading.clone()).collect()
}

#[test]
fn a_first_run_opens_on_a_starter_script_that_is_on_disk() {
    let d = starter_document("today");
    assert!(to_markdown(&d).contains("## INT. EDIT BAY - NIGHT"));
    assert_eq!(d.scenes().len(), 1);
}

#[test]
fn enter_makes_the_element_that_comes_next() {
    let mut d = three_scenes();
    let cue = d.blocks[1].id; // DETECTIVE COLE
    apply(&mut d, Act::Split { id: cue, at: 14, same: false });
    assert_eq!(d.blocks[2].element, Element::Dialogue, "Character → Dialogue");
    d.blocks[2].text = "Hello.".into();
    let line = d.blocks[2].id;
    apply(&mut d, Act::Split { id: line, at: 6, same: false });
    assert_eq!(d.blocks[3].element, Element::Action, "Dialogue → Action");
    let action = d.blocks[3].id;
    apply(
        &mut d,
        Act::SetElement { id: action, element: Element::Action.cycle(true), at: 0 },
    );
    assert_eq!(d.blocks[3].element, Element::Character);
    apply(&mut d, Act::Split { id: action, at: 0, same: true });
    assert_eq!(
        d.blocks[4].element,
        Element::Character,
        "Shift+Enter keeps the type rather than moving on to dialogue"
    );
}

#[test]
fn tab_cycles_and_ctrl_digits_set_the_element() {
    let mut d = starter_document("today");
    let mut h = History::new(&d);
    let id = d.blocks[1].id; // action
    let len = d.blocks[1].text.chars().count();
    apply(&mut d, Act::SetElement { id, element: Element::Action.cycle(true), at: len });
    h.mark_changed();
    assert_eq!(d.blocks[1].element, Element::Character);
    assert_eq!(d.blocks[1].text, d.blocks[1].text.to_uppercase(), "a cue is capitals");
    apply(&mut d, Act::SetElement { id, element: Element::Character.cycle(false), at: len });
    h.mark_changed();
    assert_eq!(d.blocks[1].element, Element::Action);
    set_element(&mut d, Some(id), Element::from_digit(6).unwrap());
    h.mark_changed();
    assert_eq!(d.blocks[1].element, Element::Transition);
    h.undo(&mut d);
    h.undo(&mut d);
    assert_ne!(d.blocks[1].element, Element::Transition, "undo walks it back");
}

#[test]
fn a_multi_line_paste_fans_out_into_typed_blocks() {
    let mut d = starter_document("today");
    let id = d.blocks[1].id;
    let before = d.blocks.len();
    d.blocks[1].text.push_str("\nINT. CAR - DAY\nMARIA\n(beat)\nDrive.\nCUT TO:");
    apply(&mut d, Act::Explode { id });
    let kinds: Vec<Element> = d.blocks.iter().map(|b| b.element).collect();
    assert_eq!(d.blocks.len(), before + 5);
    assert_eq!(
        kinds[2..7],
        [
            Element::SceneHeading,
            Element::Character,
            Element::Parenthetical,
            Element::Dialogue,
            Element::Transition
        ]
    );
}

#[test]
fn alt_arrows_move_the_block() {
    let mut d = starter_document("today");
    let before = ids(&d);
    apply(&mut d, Act::MoveUp { id: before[2] });
    let after = ids(&d);
    assert_eq!(after[1], before[2]);
    assert_eq!(after[2], before[1]);
}

#[test]
fn ctrl_enter_opens_a_new_scene_after_this_one() {
    let mut d = three_scenes();
    let in_first = d.blocks[2].id;
    let fresh = d.new_scene_after(in_first).expect("a new heading");
    let sc = d.scenes();
    assert_eq!(sc.len(), 4);
    assert_eq!(sc[1].heading, "", "a fresh heading straight after the first scene");
    assert_eq!(sc[1].id, fresh);
    assert_eq!(sc[2].heading, "EXT. TWO - NIGHT");
    let at = d.index_of(fresh).unwrap();
    d.blocks[at].text = "INT. NEW - DAY".into();
    assert_eq!(d.scenes()[1].heading, "INT. NEW - DAY");
    assert_eq!(d.new_scene_after(9999), None);
}

#[test]
fn page_breaks_are_marked_where_the_pdf_breaks() {
    let mut d = three_scenes();
    for _ in 0..90 {
        d.push(Element::Action, "They run, and they keep running until the corridor ends.");
    }
    d.reseed_ids();
    let starts = page_starts(&d);
    assert_eq!(starts.len() + 1, page_count(&d));
    assert!(starts.iter().any(|(n, _)| *n == 2));
}

#[test]
fn cards_move_a_whole_scene_by_dragging_its_head() {
    let mut d = three_scenes();
    let mut h = History::new(&d);
    // the first card dropped past the third
    assert!(d.move_scene(0, 3));
    h.mark_changed();
    assert_eq!(headings(&d), vec!["EXT. TWO - NIGHT", "INT. THREE - DAWN", "INT. ONE - DAY"]);
    assert_eq!(d.blocks.last().unwrap().text, "One.");
    assert!(h.undo(&mut d));
    assert_eq!(d.scenes()[0].heading, "INT. ONE - DAY", "and Ctrl+Z puts it back");
}

#[test]
fn a_card_dropped_where_it_is_moves_nothing() {
    let mut d = three_scenes();
    let before = ids(&d);
    assert!(!d.move_scene(1, 1));
    assert!(!d.move_scene(1, 2));
    assert!(!d.move_scene(3, 0));
    assert!(!d.move_scene(0, 4));
    assert_eq!(ids(&d), before);
    assert!(d.move_scene(2, 0));
    assert_eq!(headings(&d), vec!["INT. THREE - DAWN", "INT. ONE - DAY", "EXT. TWO - NIGHT"]);
    assert_eq!(d.blocks[1].text, "Three.");
    assert_eq!(d.blocks.len(), 7);
}

#[test]
fn deleting_a_scene_from_its_card_asks_and_can_be_undone() {
    let mut d = three_scenes();
    let mut h = History::new(&d);
    let mut deck: Deck<usize> = Deck::default();
    deck.ask("Delete this scene?", "Its heading and everything under it go.", "Delete", Tone::Danger, 1);
    assert!(deck.asking());
    assert_eq!(d.scenes().len(), 3, "nothing goes before the answer");
    let answer = deck.take_top(None).expect("the question");
    assert!(d.delete_scene(answer.action));
    h.mark_changed();
    assert_eq!(headings(&d), vec!["INT. ONE - DAY", "INT. THREE - DAWN"]);
    assert!(!d.blocks.iter().any(|b| b.text == "Two."), "its action went with it");
    assert!(h.undo(&mut d));
    assert_eq!(d.scenes().len(), 3);
    assert_eq!(d.scenes()[1].heading, "EXT. TWO - NIGHT");
}

#[test]
fn deleting_the_only_scene_leaves_a_heading_to_write_in() {
    let mut d = Document::default();
    d.blocks.clear();
    d.push(Element::SceneHeading, "INT. HALL - DAY");
    d.push(Element::Action, "Empty.");
    assert!(d.delete_scene(0));
    assert_eq!(d.blocks.len(), 1);
    assert_eq!(d.blocks[0].element, Element::SceneHeading);
    assert_eq!(d.blocks[0].text, "");
    assert!(!d.delete_scene(1));
}

#[test]
fn a_synopsis_typed_on_a_card_is_saved_with_the_scene() {
    let mut d = three_scenes();
    d.blocks[0].note = "Cole gets the call.".into();
    assert_eq!(d.scenes()[0].synopsis, "Cole gets the call.");
    assert!(to_markdown(&d).contains("<!-- scene: Cole gets the call. -->"));
}

#[test]
fn a_block_knows_its_scene() {
    let mut d = three_scenes();
    let two = d.blocks[3].id;
    assert_eq!(d.scene_of(d.blocks[4].id), Some(two));
    assert_eq!(d.scene_of(two), Some(two));
    assert_eq!(d.scene_of(12345), None);
    let first = d.blocks[0].id;
    d.blocks[0].element = Element::Action;
    assert_eq!(d.scene_of(first), None, "above the first heading");
}
