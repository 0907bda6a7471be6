//! The page's structural keystrokes, applied to a script.

use northstar::editor::{apply, current_element, set_element, Act, Caret};
use northstar::model::{Document, Element};
use northstar::shell::starter_document;

fn three_scenes() -> Document {
    let mut d = Document::default();
    d.blocks.clear();
    d.meta.title = "Three Scenes".into();
    d.push(Element::SceneHeading, "INT. ONE - DAY");
    d.push(Element::Character, "DETECTIVE COLE");
    d.push(Element::Dialogue, "One.");
    d.push(Element::SceneHeading, "EXT. TWO - NIGHT");
    d.push(Element::Action, "Two.");
    d.push(Element::SceneHeading, "INT. THREE - DAWN");
    d.push(Element::Action, "Three.");
    d.reseed_ids();
    d
}

fn ids(d: &Document) -> Vec<u64> {
    d.blocks.iter().map(|b| b.id).collect()
}

#[test]
fn enter_at_the_end_of_a_cue_opens_dialogue() {
    let mut d = three_scenes();
    let cue = d.blocks[1].id;
    let r = apply(&mut d, Act::Split { id: cue, at: usize::MAX, same: false });
    assert!(r.changed);
    assert_eq!(d.blocks[2].element, Element::Dialogue, "Character → Dialogue");
    assert_eq!(d.blocks[2].text, "");
    assert_eq!(r.focus, Some((d.blocks[2].id, Caret::Start)));
    let second = d.blocks[2].id;
    let r = apply(&mut d, Act::Split { id: second, at: 0, same: true });
    assert!(r.changed);
    assert_eq!(d.blocks[3].element, Element::Dialogue, "Shift+Enter keeps the type");
}

#[test]
fn enter_in_the_middle_keeps_the_type_and_carries_the_rest() {
    let mut d = three_scenes();
    let id = d.blocks[4].id; // "Two."
    apply(&mut d, Act::Split { id, at: 2, same: false });
    assert_eq!(d.blocks[4].text, "Tw");
    assert_eq!(d.blocks[5].text, "o.");
    assert_eq!(d.blocks[5].element, Element::Action);
    let fresh = d.blocks[5].id;
    assert!(ids(&d).iter().filter(|&&x| x == fresh).count() == 1);
    let r = apply(&mut d, Act::MergeNext { id });
    assert!(r.changed);
    assert_eq!(d.blocks[4].text, "Two.");
    assert_eq!(r.focus, Some((id, Caret::At(2))));
    assert_eq!(d.blocks.len(), 7);
}

#[test]
fn retyping_a_block_puts_a_cue_in_capitals() {
    let mut d = three_scenes();
    let id = d.blocks[4].id;
    let r = set_element(&mut d, Some(id), Element::Character);
    assert!(r.changed);
    assert_eq!(d.blocks[4].element, Element::Character);
    assert_eq!(d.blocks[4].text, "TWO.");
    assert_eq!(r.focus, Some((id, Caret::At(usize::MAX))));
    let again = set_element(&mut d, Some(id), Element::Character);
    assert!(!again.changed && again.focus.is_none());
    assert!(!set_element(&mut d, None, Element::Action).changed);
    assert_eq!(current_element(Some(id), &d), Some(Element::Character));
    assert_eq!(current_element(None, &d), None);
}

#[test]
fn a_pasted_scene_fans_out_into_typed_blocks() {
    let mut d = starter_document("today");
    let id = d.blocks[1].id;
    let before = d.blocks.len();
    d.blocks[1].text.push_str("\nINT. CAR - DAY\nMARIA\n(beat)\nDrive.\nCUT TO:");
    let r = apply(&mut d, Act::Explode { id });
    assert!(r.changed);
    let kinds: Vec<Element> = d.blocks.iter().map(|b| b.element).collect();
    assert_eq!(d.blocks.len(), before + 5);
    assert_eq!(
        kinds[2..7],
        [
            Element::SceneHeading,
            Element::Character,
            Element::Parenthetical,
            Element::Dialogue,
            Element::Transition
        ]
    );
    assert_eq!(r.focus, Some((d.blocks[6].id, Caret::End)));
    assert_eq!(d.blocks[1].text, "Monitors glow. Coffee gone cold. A cursor blinks in an empty document.");
}

#[test]
fn backspace_at_the_head_of_an_empty_block_removes_it() {
    let mut d = starter_document("today");
    let id = d.blocks[1].id;
    apply(&mut d, Act::Split { id, at: usize::MAX, same: false });
    let n = d.blocks.len();
    let fresh = d.blocks[2].id;
    let r = apply(&mut d, Act::MergePrev { id: fresh });
    assert!(r.changed);
    assert_eq!(d.blocks.len(), n - 1);
    let len = d.blocks[1].text.chars().count();
    assert_eq!(r.focus, Some((id, Caret::At(len))));
}

#[test]
fn backspace_between_different_types_only_moves_the_caret() {
    let mut d = three_scenes();
    let (line, cue, head) = (d.blocks[2].id, d.blocks[1].id, d.blocks[0].id);
    let r = apply(&mut d, Act::MergePrev { id: line });
    assert!(!r.changed);
    assert_eq!(d.blocks.len(), 7);
    assert_eq!(r.focus, Some((cue, Caret::At(14))));
    let first = apply(&mut d, Act::MergePrev { id: head });
    assert!(!first.changed && first.focus.is_none());
}

#[test]
fn alt_arrows_move_the_block_and_back() {
    let mut d = starter_document("today");
    let before = ids(&d);
    let r = apply(&mut d, Act::MoveUp { id: before[2] });
    assert!(r.changed);
    let after = ids(&d);
    assert_eq!(after[1], before[2]);
    assert_eq!(after[2], before[1]);
    apply(&mut d, Act::MoveDown { id: before[2] });
    assert_eq!(ids(&d), before);
    let top = apply(&mut d, Act::MoveUp { id: before[0] });
    assert!(!top.changed);
}

#[test]
fn arrows_at_the_edges_step_between_blocks() {
    let d0 = three_scenes();
    let mut d = three_scenes();
    let r = apply(&mut d, Act::FocusPrev { id: d0.blocks[1].id });
    assert_eq!(r.focus, Some((d0.blocks[0].id, Caret::End)));
    let r = apply(&mut d, Act::FocusNext { id: d0.blocks[1].id });
    assert_eq!(r.focus, Some((d0.blocks[2].id, Caret::Start)));
    assert!(!r.changed);
    let r = apply(&mut d, Act::FocusNext { id: d0.blocks[6].id });
    assert_eq!(r.focus, None);
}

#[test]
fn tab_takes_the_rest_of_a_suggestion() {
    let mut d = three_scenes();
    let cue = d.blocks[1].id;
    d.blocks[1].text = "det".into();
    let r = apply(&mut d, Act::Accept { id: cue, rest: "ective cole".into() });
    assert!(r.changed);
    assert_eq!(d.blocks[1].text, "DETECTIVE COLE");
    assert_eq!(r.focus, Some((cue, Caret::End)));
    let missing = apply(&mut d, Act::Accept { id: 999, rest: "x".into() });
    assert!(!missing.changed);
}
