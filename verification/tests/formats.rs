//! Reading other formats, writing exports, and the library's file names.

use northstar::export::{self, Format, PdfOptions};
use northstar::fountain::{fdx_is_readable, parse, parse_fdx};
use northstar::model::{Document, Element};
use northstar::storage::{
    candidate_name, import_text, listing, snapshot_when, stem_fits_title, to_markdown,
};

const FOUNTAIN: &str = "Title: Bank Job\nAuthor: Sam Doe\nDraft date: May 1\n\nINT. BANK - DAY\n\n= The crew arrives.\n\nA clock ticks.\n\nCOLE\n(quietly)\nNobody moves.\nNobody breathes.\n\nCUT TO:\n\n.FLASHBACK #12#\n\n@mcCoy^\nWait.\n\n> THE END <\n\n[[a note]] /* boneyard */\n";

fn kinds(d: &Document) -> Vec<(Element, String)> {
    d.blocks.iter().map(|b| (b.element, b.text.clone())).collect()
}

#[test]
fn fountain_reads_every_element() {
    let d = parse(FOUNTAIN);
    assert_eq!(d.meta.title, "Bank Job");
    assert_eq!(d.meta.author, "Sam Doe");
    assert_eq!(d.meta.draft, "May 1");
    assert_eq!(
        kinds(&d),
        vec![
            (Element::SceneHeading, "INT. BANK - DAY".to_string()),
            (Element::Action, "A clock ticks.".to_string()),
            (Element::Character, "COLE".to_string()),
            (Element::Parenthetical, "(quietly)".to_string()),
            (Element::Dialogue, "Nobody moves. Nobody breathes.".to_string()),
            (Element::Transition, "CUT TO:".to_string()),
            (Element::SceneHeading, "FLASHBACK".to_string()),
            (Element::Character, "MCCOY".to_string()),
            (Element::Dialogue, "Wait.".to_string()),
            (Element::Action, "THE END".to_string()),
        ]
    );
    assert_eq!(d.blocks[0].note, "The crew arrives.");
    let ids: Vec<u64> = d.blocks.iter().map(|b| b.id).collect();
    assert_eq!(ids, vec![2, 3, 4, 5, 6, 7, 8, 9, 10, 11]);
}

#[test]
fn fountain_without_a_title_page_starts_at_the_top() {
    let d = parse("EXT. ROOF - NIGHT\n\n!FADE IN ON A CAT\n\n>SMASH cut to:\n");
    assert_eq!(d.meta.title, "");
    assert_eq!(
        kinds(&d),
        vec![
            (Element::SceneHeading, "EXT. ROOF - NIGHT".to_string()),
            (Element::Action, "FADE IN ON A CAT".to_string()),
            (Element::Transition, "SMASH CUT TO:".to_string()),
        ]
    );
}

#[test]
fn an_empty_fountain_file_is_one_empty_heading() {
    let d = parse("");
    assert_eq!(d.blocks.len(), 1);
    assert_eq!(d.blocks[0].element, Element::SceneHeading);
    assert_eq!(d.blocks[0].text, "");
    assert_eq!(d.blocks[0].id, 2);
}

const FDX: &str = "<?xml version=\"1.0\"?>\n<FinalDraft>\n<Content>\n<Paragraph Type=\"Scene Heading\"><SceneProperties><Summary><Paragraph><Text>They meet.</Text></Paragraph></Summary></SceneProperties><Text>int. diner - night</Text></Paragraph>\n<Paragraph Type=\"Action\"><Text>Rain &amp; neon.</Text></Paragraph>\n<Paragraph Type=\"Character\"><Text>ANA</Text></Paragraph>\n<Paragraph Type=\"Dialogue\"><Text>Coffee.</Text><Text/></Paragraph>\n<Paragraph Type=\"General\"><Text>  </Text></Paragraph>\n<Paragraph Type=\"Cast List\"><Text>Everyone</Text></Paragraph>\n</Content>\n<TitlePage><Content><Paragraph><Text>THE LONG NIGHT</Text></Paragraph><Paragraph><Text>Written by</Text></Paragraph><Paragraph><Text>Jo Bloggs</Text></Paragraph></Content></TitlePage>\n</FinalDraft>\n";

#[test]
fn final_draft_reads_paragraphs_and_title_page() {
    assert!(fdx_is_readable(FDX));
    let d = parse_fdx(FDX);
    assert_eq!(
        kinds(&d),
        vec![
            (Element::SceneHeading, "INT. DINER - NIGHT".to_string()),
            (Element::Action, "Rain & neon.".to_string()),
            (Element::Character, "ANA".to_string()),
            (Element::Dialogue, "Coffee.".to_string()),
            (Element::Action, "Everyone".to_string()),
        ]
    );
    assert_eq!(d.blocks[0].note, "They meet.");
    assert_eq!(d.meta.title, "The Long Night");
    assert_eq!(d.meta.author, "Jo Bloggs");
}

#[test]
fn a_summary_closed_before_it_opens_is_not_readable() {
    let bad = "<Content><Paragraph Type=\"Action\"></SceneProperties><SceneProperties><Text>x</Text></Paragraph></Content>";
    assert!(!fdx_is_readable(bad));
}

#[test]
fn an_empty_final_draft_file_is_one_empty_heading() {
    let d = parse_fdx("<FinalDraft></FinalDraft>");
    assert_eq!(d.blocks.len(), 1);
    assert_eq!(d.blocks[0].element, Element::SceneHeading);
}

#[test]
fn import_names_an_untitled_script_after_its_file() {
    let d = import_text("INT. CAR - DAY\n\nShe drives.\n", "FOUNTAIN", "night_drive-2");
    assert_eq!(d.meta.title, "night drive 2");
    assert_eq!(d.blocks[1].text, "She drives.");
    let titled = import_text(FOUNTAIN, "fountain", "whatever");
    assert_eq!(titled.meta.title, "Bank Job");
    let md = import_text("---\ntitle: Kept\n---\n\n## INT. A - DAY\n", "MD", "x");
    assert_eq!(md.meta.title, "Kept");
    assert_eq!(md.blocks[0].element, Element::SceneHeading);
    let fdx = import_text(FDX, "fdx", "x");
    assert_eq!(fdx.meta.title, "The Long Night");
}

#[test]
fn import_tidies_the_blocks() {
    let d = import_text("@ana\n(softly\n", "txt", "x");
    assert_eq!(d.blocks[0].text, "ANA");
    assert_eq!(d.blocks[1].element, Element::Dialogue);
}

#[test]
fn file_names_for_scripts_and_snapshots() {
    assert_eq!(candidate_name("The Long Way Down", 1), "the-long-way-down.md");
    assert_eq!(candidate_name("The Long Way Down", 3), "the-long-way-down-3.md");
    assert_eq!(candidate_name("", 2), "untitled-2.md");
    assert_eq!(snapshot_when("2026-09-24_14-05-09"), "2026-09-24 14:05:09");
    assert_eq!(snapshot_when("plain-name"), "plain-name");
}

#[test]
fn the_library_line_of_a_script() {
    let text = "---\ntitle: \nstarred: yes\n---\n\n## INT. ROOM - DAY\n<!-- scene: x -->\n\n";
    let l = listing(text, "my-script");
    assert_eq!(l.title, "my-script");
    assert_eq!(l.preview, "INT. ROOM - DAY");
    assert!(l.starred);
    let long = format!("---\ntitle: T\n---\n\n> {}\n", "a".repeat(100));
    let l = listing(&long, "x");
    assert_eq!(l.title, "T");
    assert_eq!(l.preview.chars().count(), 70);
    assert!(!l.starred);
}

fn three_scenes() -> Document {
    let mut d = Document::default();
    d.blocks.clear();
    d.meta.title = "Three Scenes".into();
    d.push(Element::SceneHeading, "INT. ONE - DAY");
    d.push(Element::Action, "One.");
    d.push(Element::SceneHeading, "EXT. TWO - NIGHT");
    d.push(Element::Action, "Two.");
    d.push(Element::SceneHeading, "INT. THREE - DAWN");
    d.push(Element::Action, "Three.");
    d.reseed_ids();
    d
}

#[test]
fn page_selections_are_read_like_a_print_dialog() {
    assert_eq!(export::parse_page_range("1-3, 7", 10), Ok(vec![1, 2, 3, 7]));
    assert_eq!(export::parse_page_range("7;2 2", 10), Ok(vec![2, 7]));
    assert_eq!(export::parse_page_range("8-", 10), Ok(vec![8, 9, 10]));
    assert_eq!(export::parse_page_range("-2", 10), Ok(vec![1, 2]));
    assert_eq!(export::parse_page_range("2-40", 3), Ok(vec![2, 3]));
    assert_eq!(export::parse_page_range("  ", 5), Err("Name at least one page".to_string()));
    assert_eq!(export::parse_page_range("0", 5), Err("Pages start at 1".to_string()));
    assert_eq!(export::parse_page_range("5-2", 9), Err("5-2 runs backwards".to_string()));
    assert_eq!(export::parse_page_range("9", 3), Err("There are only 3 pages".to_string()));
    assert_eq!(export::parse_page_range("2", 1), Err("There is only 1 page".to_string()));
    assert_eq!(
        export::parse_page_range("x", 5),
        Err("\u{201c}x\u{201d} is not a page number".to_string())
    );
}

#[test]
fn page_lists_are_written_compactly() {
    assert_eq!(export::describe_pages(&[1, 2, 3, 7, 10, 11, 12]), "1-3, 7, 10-12");
    assert_eq!(export::describe_pages(&[]), "");
    let back = export::parse_page_range(&export::describe_pages(&[2, 3, 5]), 9);
    assert_eq!(back, Ok(vec![2, 3, 5]));
}

#[test]
fn an_export_is_named_after_the_script_and_its_pages() {
    let d = three_scenes();
    assert_eq!(
        export::export_name(&d, Format::Pdf, &Some(vec![2, 3])),
        "three-scenes-pages-2-3.pdf"
    );
    assert_eq!(export::export_name(&d, Format::Pdf, &Some(vec![1])), "three-scenes-pages-1.pdf");
    assert_eq!(export::export_name(&d, Format::Pdf, &None), "three-scenes.pdf");
    assert_eq!(export::export_name(&d, Format::Text, &Some(vec![1])), "three-scenes.txt");
    assert_eq!(export::export_name(&d, Format::FinalDraft, &None), "three-scenes.fdx");
    assert_eq!(export::export_name(&d, Format::Fountain, &None), "three-scenes.fountain");
}

#[test]
fn scenes_are_found_on_their_pages() {
    let d = three_scenes();
    assert_eq!(export::page_count(&d), 1);
    assert_eq!(export::runtime_minutes(&d), 1);
    let first = d.blocks[0].id;
    assert_eq!(export::page_of_block(&d, first), Some(1));
    assert_eq!(export::page_of_block(&d, 999), None);
    assert!(export::page_starts(&d).is_empty());
    let lengths = export::scene_lengths(&d);
    assert_eq!(lengths.len(), 3);
    assert_eq!(lengths[0].0, first);
    assert_eq!(lengths[0].1, 1);
}

#[test]
fn a_pdf_plan_keeps_only_the_pages_asked_for() {
    let mut d = three_scenes();
    for _ in 0..200 {
        d.push(Element::Action, "They run.");
    }
    d.reseed_ids();
    let all = export::pdf_plan(&d, &PdfOptions::default());
    assert!(all.len() >= 3);
    let opts = PdfOptions { pages: Some(vec![2]), ..PdfOptions::default() };
    let some = export::pdf_plan(&d, &opts);
    assert_eq!(some.len(), 1);
    assert_eq!(some[0].number, 2);
    let starts = export::page_starts(&d);
    assert_eq!(starts.len(), all.len() - 1);
    assert_eq!(starts[0].0, 2);
}

#[test]
fn fountain_and_final_draft_exports_read_back() {
    let d = three_scenes();
    let f = export::to_fountain(&d);
    let back = parse(&f);
    assert_eq!(back.meta.title, "Three Scenes");
    assert_eq!(back.blocks.len(), 6);
    assert_eq!(back.blocks[2].text, "EXT. TWO - NIGHT");
    let x = export::to_fdx(&d);
    let back = parse_fdx(&x);
    assert_eq!(back.blocks.len(), 6);
    assert_eq!(back.blocks[4].text, "INT. THREE - DAWN");
    assert_eq!(export::xml("a<b & \"c\""), "a&lt;b &amp; &quot;c&quot;");
}

#[test]
fn markdown_keeps_a_heading_card() {
    let mut d = three_scenes();
    d.blocks[0].note = "Cole gets the call.".into();
    d.blocks[0].tint = Some(2);
    let md = to_markdown(&d);
    assert!(md.contains("<!-- scene: tint=2 | Cole gets the call. -->"));
    let back = northstar::storage::from_markdown(&md);
    assert_eq!(back.blocks[0].note, "Cole gets the call.");
    assert_eq!(back.blocks[0].tint, Some(2));
}

#[test]
fn a_file_keeps_its_name_while_it_follows_the_title() {
    assert!(stem_fits_title("the-long-way-down", "The Long Way Down"));
    assert!(stem_fits_title("the-long-way-down-3", "The Long Way Down"));
    assert!(stem_fits_title("the-long-way-down-+3", "The Long Way Down"));
    assert!(!stem_fits_title("the-long-way-down-x", "The Long Way Down"));
    assert!(!stem_fits_title("the-long-way-down-", "The Long Way Down"));
    assert!(!stem_fits_title("the-long-way-down-4294967296", "The Long Way Down"));
    assert!(stem_fits_title("the-long-way-down-4294967295", "The Long Way Down"));
    assert!(!stem_fits_title("the-long-way", "The Long Way Down"));
    assert!(stem_fits_title("untitled-2", ""));
    assert!(!stem_fits_title("episode-2", "Episode 3"));
}

#[test]
fn a_name_given_by_the_title_is_kept_on_the_next_save() {
    for title in ["The Long Way Down", "", "Episode 2: Fallout!"] {
        for n in [1usize, 2, 17] {
            let name = candidate_name(title, n);
            let stem = name.strip_suffix(".md").expect("a markdown file");
            assert!(stem_fits_title(stem, title), "{name} fits {title:?}");
        }
    }
}
