//! The library's laws on concrete values, and the steps that follow the
//! casing calls, given their results by hand.

use northstar::alerts::{Deck, Tone};
use northstar::export::{
    body_given, compose, page_count, page_label, page_of_block, page_starts, paginate, pdf_pages,
    pdf_title, title_page, to_plain_text, Line, PdfOptions, Place,
};
use northstar::fountain::{plain_line, title_case_with};
use northstar::model::{guess_element, guess_with, normal_form, wrap, Document, Element};
use northstar::settings::Prefs;
use northstar::storage::{from_markdown, slug_from, slugify, to_markdown};

#[test]
fn the_paste_guess_reads_the_capitals_it_is_given() {
    assert_eq!(guess_with("int. house - day", "INT. HOUSE - DAY", None), Element::SceneHeading);
    assert_eq!(guess_with("maria", "MARIA", None), Element::Action);
    assert_eq!(guess_with("MARIA", "MARIA", None), Element::Character);
    assert_eq!(guess_with("MARIA", "MARIA", Some(Element::Character)), Element::Dialogue);
    assert_eq!(guess_with("CUT TO:", "CUT TO:", None), Element::Transition);
    assert_eq!(guess_with("   ", "", None), Element::Action);
    // the guess itself finds the capitals: a heading typed in lower case
    assert_eq!(guess_element("ext. field - night", None), Element::SceneHeading);
}

#[test]
fn a_slug_is_built_from_the_pieces_of_a_title() {
    let p = |s: &str| Some(s.to_string());
    assert_eq!(slug_from(&[p("a"), None, None, p("b")]), "a-b");
    assert_eq!(slug_from(&[None, p("x"), p("y"), None]), "xy");
    assert_eq!(slug_from(&[None, None]), "untitled");
    assert_eq!(slug_from(&[]), "untitled");
    // slugify lowers what it keeps
    assert_eq!(slugify("  Hello, WORLD!  "), "hello-world");
    assert_eq!(slugify("--"), "untitled");
    assert!(!slugify("A  --  B").contains("--"));
}

#[test]
fn a_title_in_capitals_is_recased_word_by_word() {
    let words = vec!["Hello".to_string(), "World".to_string()];
    assert_eq!(title_case_with("HELLO  WORLD", "HELLO  WORLD", &words), "Hello World");
    assert_eq!(title_case_with("Hello world", "HELLO WORLD", &words), "Hello world");
    assert_eq!(title_case_with("", "", &[]), "");
}

#[test]
fn a_block_is_tidied_with_the_capitals_it_is_given() {
    assert_eq!(normal_form(Element::Character, "  maria  ", "MARIA"), "MARIA");
    assert_eq!(normal_form(Element::Parenthetical, " ((beat) ", "((BEAT)"), "(beat)");
    assert_eq!(normal_form(Element::Action, "  She runs.  ", "SHE RUNS."), "She runs.");
    assert_eq!(normal_form(Element::Parenthetical, "   ", ""), "");
}

#[test]
fn toasts_are_capped_and_the_question_is_answered_next() {
    let mut d: Deck<u32> = Deck::default();
    for i in 0..6 {
        d.say(&format!("toast {i}"), "", Tone::Info);
    }
    d.ask("Sure?", "", "Yes", Tone::Warn, 11);
    assert!(d.asking());
    let a = d.take_top(None).unwrap();
    assert_eq!(a.action, 11);
    assert_eq!(a.text, None);
    assert!(!d.asking());
    assert!(d.take_top(None).is_none());

    let mut e: Deck<u32> = Deck::default();
    e.prompt("Rename", "", "Title", "Draft", "Rename", 5);
    let b = e.take_top(None).unwrap();
    assert_eq!(b.action, 5);
    assert_eq!(b.text.as_deref(), Some("Draft"));
}

#[test]
fn settings_keep_their_bounds_whatever_the_file_says() {
    let p = Prefs::parse("autosave_ms = 5\nsession_goal = 99999\nyoutrack_url =\n");
    assert_eq!(p.shared.autosave_ms, 150);
    assert_eq!(p.extras.session_goal, 20000);
    assert!(!p.extras.youtrack_url.is_empty());
    let d = Prefs::parse("");
    let f = Prefs::default();
    assert_eq!(d.shared, f.shared);
    assert_eq!(d.panels, f.panels);
    assert_eq!(d.pdf, f.pdf);
    assert_eq!(d.extras.youtrack_url, f.extras.youtrack_url);
}

fn line(text: &str, element: Option<Element>) -> Line {
    Line { indent: 0, text: text.to_string(), element, block: Some(1), scene: None }
}

#[test]
fn a_page_never_ends_on_a_lone_cue() {
    let mut ls = Vec::new();
    for i in 0..53 {
        ls.push(line(&format!("action {i}"), Some(Element::Action)));
    }
    ls.push(line("MARIA", Some(Element::Character)));
    ls.push(line("(beat)", Some(Element::Parenthetical)));
    ls.push(line("Hello.", Some(Element::Dialogue)));
    let pages = paginate(&ls);
    assert_eq!(pages.len(), 2);
    assert_eq!(pages[0].len(), 53);
    assert_eq!(pages[1][0].text, "MARIA");
    assert_eq!(pages[1].len(), 3);
    assert_eq!(paginate(&[]).len(), 1);
    assert!(paginate(&[]).first().unwrap().is_empty());
}

#[test]
fn a_block_is_printed_with_the_capitals_it_is_given() {
    assert_eq!(body_given(Element::Character, "maria", "MARIA"), "MARIA");
    assert_eq!(body_given(Element::Action, "She runs.", "SHE RUNS."), "She runs.");
    assert_eq!(body_given(Element::Parenthetical, "((beat", "((BEAT"), "(beat)");
}

fn long_script() -> Document {
    let mut d = Document::default();
    d.blocks.clear();
    d.push(Element::SceneHeading, "INT. ONE - DAY");
    for i in 0..70 {
        d.push(Element::Action, &format!("Line {i} of the action, long enough to be printed."));
        if i % 9 == 0 {
            d.push(Element::Character, "MARIA");
            d.push(Element::Dialogue, "Keep going.");
        }
    }
    d.push(Element::Action, "   ");
    d.reseed_ids();
    d
}

#[test]
fn printed_lines_are_spacing_or_a_blocks_and_open_on_a_block() {
    let d = long_script();
    let ls = compose(&d);
    assert!(ls[0].element.is_some());
    for l in &ls {
        assert_eq!(l.element.is_none(), l.block.is_none());
        if l.element.is_none() {
            assert!(l.text.is_empty() && l.scene.is_none());
        }
        if l.scene.is_some() {
            assert_eq!(l.element, Some(Element::SceneHeading));
        }
        if matches!(l.element, Some(Element::Action) | Some(Element::Dialogue) | Some(Element::Parenthetical)) {
            assert!(!l.text.is_empty());
        }
    }
}

#[test]
fn every_page_after_the_first_is_marked_with_its_first_block() {
    let d = long_script();
    let starts = page_starts(&d);
    let n = page_count(&d);
    assert!(n >= 3);
    assert_eq!(starts.len(), n - 1);
    for (i, (page, _)) in starts.iter().enumerate() {
        assert_eq!(*page, i + 2);
    }
    let pages = paginate(&compose(&d));
    for (i, (_, id)) in starts.iter().enumerate() {
        let first = pages[i + 1].iter().find_map(|l| l.block);
        assert_eq!(first, Some(*id));
    }
}

#[test]
fn the_plain_text_breaks_each_page_with_one_form_feed() {
    let mut d = long_script();
    d.push(Element::Action, "A form\u{c}feed typed into the text.");
    d.reseed_ids();
    let text = to_plain_text(&d);
    assert_eq!(text.matches('\u{c}').count(), page_count(&d) - 1);
    let one = Document::default();
    assert_eq!(to_plain_text(&one).matches('\u{c}').count(), page_count(&one) - 1);
}

#[test]
fn pagination_keeps_every_printed_line_in_order() {
    let d = long_script();
    let ls = compose(&d);
    let pages = paginate(&ls);
    let printed = |l: &&Line| !l.text.trim().is_empty();
    let before: Vec<&Line> = ls.iter().filter(printed).collect();
    let after: Vec<&Line> = pages.iter().flatten().filter(printed).collect();
    assert_eq!(before.len(), after.len());
    for (a, b) in before.iter().zip(after.iter()) {
        assert_eq!(a.text, b.text);
        assert_eq!(a.block, b.block);
    }
    for p in &pages {
        assert!(!p.is_empty());
        assert!(!p[0].text.trim().is_empty());
    }
}

#[test]
fn scene_numbers_count_the_headings_blank_ones_too() {
    let mut d = Document::default();
    d.blocks.clear();
    d.push(Element::SceneHeading, "INT. ONE - DAY");
    d.push(Element::Action, "One.");
    d.push(Element::SceneHeading, "   ");
    d.push(Element::SceneHeading, "INT. THREE - NIGHT");
    d.push(Element::Action, "Three.");
    d.reseed_ids();
    let heads: Vec<u64> = d
        .blocks
        .iter()
        .filter(|b| b.element == Element::SceneHeading)
        .map(|b| b.id)
        .collect();
    let numbered: Vec<(usize, Option<u64>)> = compose(&d)
        .iter()
        .filter_map(|l| l.scene.map(|k| (k, l.block)))
        .collect();
    assert_eq!(numbered, vec![(1, Some(heads[0])), (3, Some(heads[2]))]);
}

#[test]
fn a_plain_fountain_line_is_read_by_its_capitals_and_the_blanks_around_it() {
    assert_eq!(plain_line("int. house - day", "INT. HOUSE - DAY", true, true), Element::SceneHeading);
    assert_eq!(plain_line("int. house - day", "INT. HOUSE - DAY", false, true), Element::Action);
    assert_eq!(plain_line("CUT TO:", "CUT TO:", true, true), Element::Transition);
    assert_eq!(plain_line("CUT TO:", "CUT TO:", true, false), Element::Character);
    assert_eq!(plain_line("MARIA", "MARIA", true, false), Element::Character);
    assert_eq!(plain_line("Maria", "MARIA", true, false), Element::Action);
    assert_eq!(plain_line("MARIA", "MARIA", false, false), Element::Action);
    assert_eq!(plain_line("123", "123", true, false), Element::Action);
}

#[test]
fn an_action_that_looks_like_markup_reads_back_as_action() {
    let mut d = Document::default();
    d.blocks.clear();
    d.push(Element::SceneHeading, "INT. ROOM - DAY");
    for t in ["(beat)", "# Act", "> quoted", "**BOLD**", "`CUT TO:`", "\\already", "<!-- scene: x -->", "Plain."] {
        d.push(Element::Action, t);
    }
    d.push(Element::Transition, "SMASH `CUT` TO:");
    d.reseed_ids();
    d.normalize();
    let md = to_markdown(&d);
    assert!(md.contains("\n\\(beat)\n"));
    assert!(md.contains("\nPlain.\n"));
    let b = from_markdown(&md);
    assert_eq!(b.blocks.len(), d.blocks.len());
    for (x, y) in d.blocks.iter().zip(b.blocks.iter()) {
        assert_eq!(x.element, y.element, "element for {:?}", x.text);
        assert_eq!(x.text, y.text);
    }
}

#[test]
fn a_blank_block_prints_nothing_and_is_on_no_page() {
    let mut d = long_script();
    d.push(Element::Dialogue, "  ");
    d.reseed_ids();
    let blank = d.blocks.last().unwrap().id;
    assert_eq!(page_of_block(&d, blank), None);
    for l in compose(&d) {
        if let Some(id) = l.block {
            let b = d.blocks.iter().find(|b| b.id == id).unwrap();
            assert!(!b.text.trim().is_empty());
            assert_eq!(l.element, Some(b.element));
        }
    }
    assert_eq!(page_of_block(&d, d.blocks[0].id), Some(1));
}

#[test]
fn the_title_page_carries_the_details_that_are_filled_in() {
    let mut d = Document::default();
    d.meta.title = "  The Heist ".into();
    d.meta.author = " Ana Ruiz ".into();
    d.meta.draft = "".into();
    d.meta.contact = "ana@example.com".into();
    let lines: Vec<(usize, String, Place, bool)> = title_page(&d.meta)
        .into_iter()
        .map(|l| (l.row, l.text, l.place, l.bold))
        .collect();
    assert_eq!(
        lines,
        vec![
            (20, "THE HEIST".to_string(), Place::Centre, true),
            (24, "written by".to_string(), Place::Centre, false),
            (26, "Ana Ruiz".to_string(), Place::Centre, false),
            (48, "ana@example.com".to_string(), Place::Left, false),
        ]
    );
    d.meta.title = "   ".into();
    assert_eq!(pdf_title(&d.meta), "Untitled Script");
    assert_eq!(title_page(&d.meta)[0].text, "UNTITLED SCRIPT");
}

#[test]
fn page_numbers_are_printed_from_the_second_page() {
    assert_eq!(page_label(1), None);
    assert_eq!(page_label(2).as_deref(), Some("2."));
    assert_eq!(page_label(12).as_deref(), Some("12."));
}

#[test]
fn a_pdf_with_no_pages_and_no_title_page_is_refused() {
    let d = long_script();
    let none = PdfOptions { title_page: false, pages: Some(vec![]), ..PdfOptions::default() };
    assert_eq!(pdf_pages(&d, &none).err().as_deref(), Some("Nothing to export: no pages chosen"));
    let title_only = PdfOptions { title_page: true, pages: Some(vec![]), ..PdfOptions::default() };
    assert_eq!(pdf_pages(&d, &title_only).unwrap().len(), 0);
    assert_eq!(pdf_pages(&d, &PdfOptions::default()).unwrap().len(), page_count(&d));
}

#[test]
fn wrapping_keeps_every_word_in_order() {
    let text = "  Rain hammers   the roof, and a supercalifragilisticexpialidocious word runs long.  ";
    for width in [8usize, 12, 35, 60] {
        let lines = wrap(text, width);
        let joined: String = lines.concat().chars().filter(|c| *c != ' ').collect();
        let words: String = text.split_whitespace().collect();
        assert_eq!(joined, words, "width {width}");
    }
}
