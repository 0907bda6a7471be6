//! What the library does with scripts brought in, pages sent out, and the
//! look taken from Tesseract.

use northstar::export::{export_name, page_count, page_of_block, parse_page_range, Format};
use northstar::model::{Document, Element};
use northstar::settings::Prefs;
use northstar::shell::starter_document;
use northstar::storage::{candidate_name, import_text, stem_fits_title, to_markdown};
use northstar::theme::ThemeId;

fn three_scenes() -> Document {
    let mut d = Document::default();
    d.blocks.clear();
    d.meta.title = "Three Scenes".into();
    d.push(Element::SceneHeading, "INT. ONE - DAY");
    d.push(Element::Character, "DETECTIVE COLE");
    d.push(Element::Dialogue, "One.");
    d.push(Element::SceneHeading, "EXT. TWO - NIGHT");
    d.push(Element::Action, "Two.");
    d.push(Element::SceneHeading, "INT. THREE - DAWN");
    d.push(Element::Action, "Three.");
    d.reseed_ids();
    d
}

#[test]
fn a_fountain_file_is_imported_as_a_new_script() {
    let text = "Title: Bank Job\n\nEXT. BANK - DAY\n\nNobody moves.\n\nROSA\nNow.\n\nINT. VAULT - LATER\n\nEmpty.\n";
    let d = import_text(text, "fountain", "ns-ui-import");
    assert_eq!(d.meta.title, "Bank Job");
    assert_eq!(d.scenes().len(), 2);
    assert_eq!(candidate_name(&d.meta.title, 1), "bank-job.md");
}

#[test]
fn the_export_window_exports_the_pages_asked_for() {
    let mut d = three_scenes();
    for _ in 0..140 {
        d.push(Element::Action, "Line after line after line of action on the page.");
    }
    d.reseed_ids();
    let body = page_count(&d);
    let pages = parse_page_range("2-3", body).expect("pages 2 and 3");
    assert_eq!(pages, vec![2, 3]);
    assert_eq!(export_name(&d, Format::Pdf, &Some(pages)), "three-scenes-pages-2-3.pdf");
    // a selection that will not do exports nothing
    assert!(parse_page_range("40-2", body).is_err());
    // this page: the one the caret is on
    let id = d.blocks[1].id;
    let here = page_of_block(&d, id).expect("on a page");
    assert_eq!(here, 1);
    assert_eq!(export_name(&d, Format::Pdf, &Some(vec![here])), "three-scenes-pages-1.pdf");
}

#[test]
fn northstar_follows_tesseract_s_theme_live() {
    let mut mine = Prefs::parse("match_tesseract = yes\n");
    assert!(mine.panels.match_tesseract);
    let theirs = Prefs::parse(&format!("theme = zen\n{}", "theme = void\nlight_mode = yes\n"));
    mine.shared.adopt_look(&theirs.shared);
    assert_eq!(mine.shared.theme, ThemeId::Void);
    assert!(mine.shared.light_mode);
    // Tesseract changes its mind; Northstar follows
    let theirs = Prefs::parse(&format!("theme = zen\n{}", "theme = ember\nlight_mode = no\n"));
    assert!(mine.shared.adopt_look(&theirs.shared));
    assert_eq!(mine.shared.theme, ThemeId::Ember);
    assert!(!mine.shared.light_mode);
}

#[test]
fn ctrl_n_makes_a_new_script_with_its_title_ready_to_type_over() {
    let mut d = Document::default();
    assert_eq!(d.meta.title, "Untitled Script");
    assert_eq!(candidate_name(&d.meta.title, 1), "untitled-script.md");
    d.meta.title = "Heist".into();
    // saving asks whether the file still follows the title; it does not
    assert!(!stem_fits_title("untitled-script", &d.meta.title));
    assert_eq!(candidate_name(&d.meta.title, 1), "heist.md", "the file follows the title");
}

#[test]
fn typing_in_a_block_reaches_the_file() {
    let mut d = starter_document("today");
    d.blocks[1].text.push_str(" Rain.");
    assert!(d.blocks[1].text.ends_with("Rain."));
    assert!(to_markdown(&d).contains("empty document. Rain."));
}
