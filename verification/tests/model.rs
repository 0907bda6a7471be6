//! The script model: elements, blocks and the document's bookkeeping.

use northstar::model::{base_character, guess_element, wrap, Block, Document, Element, Meta};

#[test]
fn tab_cycles_through_the_palette_and_back() {
    let all = [
        Element::SceneHeading,
        Element::Action,
        Element::Character,
        Element::Parenthetical,
        Element::Dialogue,
        Element::Transition,
        Element::Shot,
    ];
    for e in all {
        assert_eq!(e.cycle(true).cycle(false), e);
        assert_eq!(e.cycle(false).cycle(true), e);
    }
    assert_eq!(Element::Shot.cycle(true), Element::SceneHeading);
    assert_eq!(Element::SceneHeading.cycle(false), Element::Shot);
}

#[test]
fn ctrl_digits_name_the_elements() {
    assert_eq!(Element::from_digit(0), None);
    assert_eq!(Element::from_digit(1), Some(Element::SceneHeading));
    assert_eq!(Element::from_digit(7), Some(Element::Shot));
    assert_eq!(Element::from_digit(8), None);
}

#[test]
fn enter_makes_what_comes_next() {
    assert_eq!(Element::Character.on_enter(), Element::Dialogue);
    assert_eq!(Element::Parenthetical.on_enter(), Element::Dialogue);
    assert_eq!(Element::Dialogue.on_enter(), Element::Action);
    assert_eq!(Element::Transition.on_enter(), Element::SceneHeading);
    assert_eq!(Element::Character.label(), "Character");
    assert_eq!(Element::Dialogue.short(), "DIALOG");
    assert_eq!(Element::Transition.width_cols(), 15);
    assert_eq!(Element::SceneHeading.blank_lines_before(), 2);
    assert!(Element::Shot.is_upper() && !Element::Dialogue.is_upper());
}

fn doc() -> Document {
    let mut d = Document::default();
    d.push(Element::Action, "  Two   words ");
    d.push(Element::SceneHeading, "int. hall - day");
    d.push(Element::Parenthetical, " quietly ");
    d.push(Element::SceneHeading, "   ");
    d
}

#[test]
fn counts_and_outline() {
    let d = doc();
    assert_eq!(d.word_count(), 2 + 4 + 1);
    assert_eq!(d.scene_count(), 1);
    let o = d.outline();
    assert_eq!(o.len(), 3);
    assert_eq!(o[1], (3, "int. hall - day".to_string()));
    assert_eq!(d.index_of(3), Some(2));
    assert_eq!(d.index_of(99), None);
    assert_eq!(d.block(4).map(|b| b.text.clone()), Some(" quietly ".to_string()));
}

#[test]
fn normalize_tidies_before_saving() {
    let mut d = doc();
    d.normalize();
    assert_eq!(d.blocks[1].text, "Two   words");
    assert_eq!(d.blocks[2].text, "INT. HALL - DAY");
    assert_eq!(d.blocks[3].text, "(quietly)");
    assert_eq!(d.blocks[4].text, "");
}

#[test]
fn new_blocks_get_fresh_ids() {
    let mut d = Document::from_parts(Meta::default(), vec![Block::new(9, Element::Action, "x")]);
    let b = d.new_block(Element::Dialogue, "y");
    assert_eq!(b.id, 10);
    d.push(Element::Action, "z");
    assert_eq!(d.blocks.last().unwrap().id, 11);
    let empty = Document::from_parts(Meta::default(), Vec::new());
    assert_eq!(empty.blocks.len(), 1);
    assert_eq!(empty.blocks[0].element, Element::SceneHeading);
}

#[test]
fn guessing_follows_what_came_before() {
    assert_eq!(guess_element("   ", None), Element::Action);
    assert_eq!(guess_element("FADE IN:", None), Element::Transition);
    assert_eq!(guess_element("MARIA", Some(Element::Character)), Element::Dialogue);
    assert_eq!(guess_element("est. city - dawn", None), Element::SceneHeading);
}

#[test]
fn monster_words_are_broken_and_empty_text_is_one_line() {
    let w = wrap("abcdefghijklmnopqrstuvwxyz", 10);
    assert_eq!(w, vec!["abcdefghij", "klmnopqrst", "uvwxyz"]);
    assert_eq!(wrap("", 10), vec![String::new()]);
    assert_eq!(wrap("a b c", 3), vec!["a b c"]);
}

#[test]
fn a_cue_names_its_character() {
    assert_eq!(base_character("MARIA (V.O.)"), "MARIA");
    assert_eq!(base_character("COLE"), "COLE");
}
