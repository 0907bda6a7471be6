//! Undo and redo over a whole script.

use northstar::history::{History, UNDO_DEPTH};
use northstar::model::{Document, Element};

fn script() -> Document {
    let mut d = Document::default();
    d.blocks.clear();
    d.meta.title = "Night Shift".into();
    d.push(Element::SceneHeading, "INT. DINER - NIGHT");
    d.push(Element::Action, "Rain on the glass.");
    d.reseed_ids();
    d
}

fn texts(d: &Document) -> Vec<String> {
    d.blocks.iter().map(|b| b.text.clone()).collect()
}

#[test]
fn undo_goes_back_to_the_version_before_a_change() {
    let mut d = script();
    let mut h = History::new(&d);
    assert!(!h.snapshot_due());
    d.blocks[1].text = "Rain hammers the glass.".into();
    h.mark_changed();
    assert!(h.snapshot_due());
    assert!(h.undo(&mut d));
    assert_eq!(texts(&d), vec!["INT. DINER - NIGHT", "Rain on the glass."]);
    assert!(!h.snapshot_due());
    assert!(h.redo(&mut d));
    assert_eq!(texts(&d), vec!["INT. DINER - NIGHT", "Rain hammers the glass."]);
    assert!(!h.redo(&mut d), "nothing more to redo");
}

#[test]
fn nothing_to_undo_leaves_the_script_alone() {
    let mut d = script();
    let mut h = History::new(&d);
    assert!(!h.undo(&mut d));
    assert_eq!(texts(&d), vec!["INT. DINER - NIGHT", "Rain on the glass."]);
    assert!(!h.redo(&mut d));
}

#[test]
fn the_title_is_part_of_the_history() {
    let mut d = script();
    let mut h = History::new(&d);
    d.meta.title = "Day Shift".into();
    h.snapshot_now(&d);
    assert!(h.undo(&mut d));
    assert_eq!(d.meta.title, "Night Shift");
    assert!(h.redo(&mut d));
    assert_eq!(d.meta.title, "Day Shift");
}

#[test]
fn a_new_change_clears_what_could_be_redone() {
    let mut d = script();
    let mut h = History::new(&d);
    d.blocks[1].text = "One.".into();
    h.snapshot_now(&d);
    assert!(h.undo(&mut d));
    d.blocks[1].text = "Two.".into();
    h.snapshot_now(&d);
    assert!(!h.redo(&mut d));
    assert!(h.undo(&mut d));
    assert_eq!(d.blocks[1].text, "Rain on the glass.");
}

#[test]
fn undoing_to_an_empty_script_leaves_a_scene_heading() {
    let mut d = Document::default();
    d.blocks.clear();
    d.ensure_not_empty();
    d.blocks.clear();
    let mut h = History::new(&d);
    d.ensure_not_empty();
    d.blocks[0].text = "INT. HALL - DAY".into();
    h.snapshot_now(&d);
    assert!(h.undo(&mut d));
    assert_eq!(d.blocks.len(), 1);
    assert_eq!(d.blocks[0].element, Element::SceneHeading);
    assert_eq!(d.blocks[0].text, "");
}

#[test]
fn the_history_reaches_back_a_fixed_number_of_steps() {
    let mut d = script();
    let mut h = History::new(&d);
    for i in 0..(UNDO_DEPTH + 5) {
        d.blocks[1].text = format!("Take {}.", i);
        h.snapshot_now(&d);
    }
    assert_eq!(h.depth(), UNDO_DEPTH);
    let mut steps = 0;
    while h.undo(&mut d) {
        steps += 1;
    }
    assert_eq!(steps, UNDO_DEPTH);
    assert_eq!(d.blocks[1].text, "Take 4.");
}

#[test]
fn ids_stay_distinct_after_undo() {
    let mut d = script();
    let mut h = History::new(&d);
    d.push(Element::Action, "Thunder.");
    h.snapshot_now(&d);
    assert!(h.undo(&mut d));
    assert_eq!(d.blocks.len(), 2);
    assert_ne!(d.blocks[0].id, d.blocks[1].id);
    let fresh = d.new_block(Element::Action, "");
    assert!(d.blocks.iter().all(|b| b.id != fresh.id));
}
