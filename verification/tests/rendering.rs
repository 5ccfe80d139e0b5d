use medpack::entities::TextEntity;
use medpack::pdf_tools::{PdfInfoError, PdfTools};
use medpack::strutil;
use medpack::structs::{Message, Record};
use medpack::toc::{Toc, TocItem};

fn record_with(date: &str, first_id: i64) -> Record {
    Record {
        date: date.to_string(),
        tags: vec!["cardio".to_string(), "mrt".to_string()],
        person: "A".to_string(),
        messages: vec![Message {
            id: first_id,
            type_field: "message".to_string(),
            has_contact_information: false,
            date: 0,
            edited: None,
            reply_to_message_id: None,
            text_entities: Vec::new(),
            file: None,
            mime_type: None,
            photo: Some("p.jpg".to_string()),
            export_path: Some("/export".to_string()),
        }],
        doctor: None,
        place: None,
    }
}

#[test]
fn u64_strings() {
    assert_eq!(strutil::u64_to_string(0), "0");
    assert_eq!(strutil::u64_to_string(7), "7");
    assert_eq!(strutil::u64_to_string(12345), "12345");
    assert_eq!(strutil::u64_to_string(u64::MAX), "18446744073709551615");
}

#[test]
fn i64_strings() {
    assert_eq!(strutil::i64_to_string(0), "0");
    assert_eq!(strutil::i64_to_string(-17), "-17");
    assert_eq!(strutil::i64_to_string(i64::MIN), "-9223372036854775808");
    assert_eq!(strutil::i64_to_string(i64::MAX), "9223372036854775807");
}

#[test]
fn join_and_paths() {
    let parts = vec!["a".to_string(), "b".to_string(), "c".to_string()];
    assert_eq!(strutil::join_strings(&parts, ", "), "a, b, c");
    assert_eq!(strutil::join_strings(&Vec::new(), ", "), "");
    assert_eq!(strutil::path_join(&"/tmp/x".to_string(), "f.pdf"), "/tmp/x/f.pdf");
}

#[test]
fn replace_newlines_inserts_breaks() {
    assert_eq!(strutil::replace_newlines("a\nb\n"), "a<br />b<br />");
    assert_eq!(strutil::replace_newlines(""), "");
}

#[test]
fn string_order_helpers() {
    assert!(strutil::str_lt(&"2024-01-01".to_string(), &"2024-01-02".to_string()));
    assert!(!strutil::str_lt(&"b".to_string(), &"a".to_string()));
    assert!(!strutil::str_lt(&"a".to_string(), &"a".to_string()));
    assert!(strutil::str_lt(&"a".to_string(), &"ab".to_string()));
    assert!(strutil::str_eq(&"x".to_string(), "x"));
    assert!(!strutil::str_eq(&"x".to_string(), "y"));
}

#[test]
fn entity_html_wrapping() {
    let bold = TextEntity::Bold { text: "a\nb".to_string() };
    assert_eq!(bold.to_html(), "<b>a<br />b</b>");
    let code = TextEntity::Code { text: "x".to_string() };
    assert_eq!(code.to_html(), "<code>x</code>");
    let hashtag = TextEntity::Hashtag { text: "tag".to_string() };
    assert_eq!(hashtag.to_html(), "<bold>tag</bold>");
    let strike = TextEntity::Strikethrough { text: "no".to_string() };
    assert_eq!(strike.to_html(), "<s>no</s>");
    let italic = TextEntity::Italic { text: "i".to_string() };
    assert_eq!(italic.to_html(), "<i>i</i>");
    let plain = TextEntity::Plain { text: "p".to_string() };
    assert_eq!(plain.to_html(), "<span>p</span>");
    let link = TextEntity::TextLink { text: "t".to_string(), href: "u".to_string() };
    assert_eq!(link.to_html(), "<span>t</span>");
}

#[test]
fn pre_html_passes_through() {
    let pre = TextEntity::Pre { text: "<p>raw</p>".to_string(), language: "html".to_string() };
    assert_eq!(pre.to_html(), "<p>raw</p>");
    let hidden = TextEntity::Pre { text: "secret".to_string(), language: "hidden".to_string() };
    assert_eq!(hidden.to_html(), "");
    let other = TextEntity::Pre { text: "x".to_string(), language: "rust".to_string() };
    assert_eq!(other.to_html(), "<pre>x</pre>");
}

#[test]
fn pre_csv_becomes_table() {
    let pre = TextEntity::Pre { text: "a,b\nc,d".to_string(), language: "csv".to_string() };
    let html = pre.to_html();
    let expected = "<table class='table table-bordered table-sm table-striped' style='width: inherit'>\n                <thead><tr><th>a</th><th>b</th></tr></thead>\n                <tbody><tr><td>c</td><td>d</td></tr></tbody>\n            </table>";
    assert_eq!(html, expected);
}

#[test]
fn malformed_csv_passes_through() {
    // The second row has fewer fields than the first: the reader rejects the
    // record and the text is passed through unchanged.
    let text = "a,b\nc";
    assert_eq!(TextEntity::csv_to_html(text), text);
}

#[test]
fn toc_offsets_and_total() {
    // Page counts [2, 1, 3]: walked from a shift of 1, the entries start on
    // pages 2, 4 and 5 and the document ends on page 7; the zero-shift walk
    // starts them on pages 1, 3 and 4.
    let items = vec![
        TocItem { pages: 2, record: record_with("2024-03-01", 30) },
        TocItem { pages: 1, record: record_with("2024-02-01", 20) },
        TocItem { pages: 3, record: record_with("2024-01-01", 10) },
    ];
    let toc = Toc::new_from(777, items);
    assert_eq!(toc.page_offsets(1), vec![2, 4, 5]);
    assert_eq!(toc.total_pages(1), 7);
    assert_eq!(toc.page_offsets(0), vec![1, 3, 4]);
    assert_eq!(toc.total_pages(0), 6);
}

#[test]
fn toc_single_entry_starts_after_itself() {
    // A one-page table of contents puts its single one-page record on page 2.
    let items = vec![TocItem { pages: 1, record: record_with("2024-01-01", 10) }];
    let toc = Toc::new_from(777, items);
    assert_eq!(toc.page_offsets(1), vec![2]);
    assert_eq!(toc.total_pages(1), 2);
}

#[test]
fn toc_second_pass_budget() {
    // A one-page table needs no second pass; a longer one is re-rendered once
    // with its measured page count as the shift.
    assert_eq!(Toc::second_pass_shift(1), None);
    assert_eq!(Toc::second_pass_shift(2), Some(2));
    assert_eq!(Toc::second_pass_shift(7), Some(7));
}

#[test]
fn toc_append_keeps_order() {
    let mut toc = Toc::new(5);
    assert!(toc.items.is_empty());
    toc.append(vec![TocItem { pages: 2, record: record_with("2024-01-01", 1) }]);
    toc.append(vec![TocItem { pages: 1, record: record_with("2024-02-01", 2) }]);
    assert_eq!(toc.items.len(), 2);
    assert_eq!(toc.items[0].pages, 2);
    assert_eq!(toc.items[1].pages, 1);
}

#[test]
fn toc_html_carries_pages_and_links() {
    let items = vec![
        TocItem { pages: 2, record: record_with("2024-03-01", 30) },
        TocItem { pages: 1, record: record_with("2024-02-01", 20) },
    ];
    let toc = Toc::new_from(777, items);
    let html = toc.generate_html(1);
    assert!(html.contains("https://t.me/c/777/30"));
    assert!(html.contains("https://t.me/c/777/20"));
    assert!(html.contains("<td style=\"text-align: right\">2</td>"));
    assert!(html.contains("<td style=\"text-align: right\">4</td>"));
    assert!(html.contains("<ul><li>cardio</li><li>mrt</li></ul>"));
    assert!(html.starts_with("\n            <table class=\"table table-striped table-sm\">"));
}

#[test]
fn toc_html_shows_place_and_doctor() {
    let mut rec = record_with("2024-03-01", 30);
    rec.place = Some("Clinic 9".to_string());
    rec.doctor = Some("Dr. Who".to_string());
    let toc = Toc::new_from(1, vec![TocItem { pages: 1, record: rec }]);
    let html = toc.generate_html(1);
    assert!(html.contains("<div class='small-font'>Clinic 9</div>"));
    assert!(html.contains("<div class='small-font'>Dr. Who</div>"));
}

#[test]
fn pages_count_reads_first_pages_line() {
    let out = "Title:          scan\nPages:          3\nEncrypted:      no\n";
    assert_eq!(PdfTools::get_pages_count(out), Ok(3));
}

#[test]
fn pages_count_first_match_wins() {
    let out = "Pages: 2\nPages: 9\n";
    assert_eq!(PdfTools::get_pages_count(out), Ok(2));
}

#[test]
fn pages_count_needs_whitespace_and_digits() {
    assert_eq!(PdfTools::get_pages_count("Pages:3\n"), Err(PdfInfoError::NoPages));
    assert_eq!(PdfTools::get_pages_count("Pages:   \n"), Err(PdfInfoError::NoPages));
    assert_eq!(PdfTools::get_pages_count("Pages: 3 extra\n"), Err(PdfInfoError::NoPages));
    assert_eq!(PdfTools::get_pages_count(""), Err(PdfInfoError::NoPages));
    assert_eq!(PdfTools::get_pages_count("no such field"), Err(PdfInfoError::NoPages));
}

#[test]
fn pages_count_overflow_is_an_error() {
    assert_eq!(PdfTools::get_pages_count("Pages: 256\n"), Err(PdfInfoError::PagesOutOfRange));
    assert_eq!(PdfTools::get_pages_count("Pages: 255\n"), Ok(255));
    assert_eq!(
        PdfTools::get_pages_count("Pages: 99999999999999999999999\n"),
        Err(PdfInfoError::PagesOutOfRange)
    );
}

#[test]
fn pages_count_without_trailing_newline() {
    assert_eq!(PdfTools::get_pages_count("Pages: 12"), Ok(12));
}

#[test]
fn document_html_wraps_fragment() {
    let html = PdfTools::document_html("BOOTSTRAP_CSS", "<p>body</p>");
    assert!(html.contains("<style>BOOTSTRAP_CSS</style>"));
    assert!(html.contains("<p>body</p>"));
    assert!(html.contains("font-family: \"DejaVu Sans\", sans-serif;"));
    assert!(html.trim_start().starts_with("<!doctype html>"));
}

#[test]
fn toc_html_exact_for_one_entry() {
    let mut rec = record_with("D", 3);
    rec.tags = vec!["t1".to_string(), "t2".to_string()];
    let toc = Toc::new_from(7, vec![TocItem { pages: 1, record: rec }]);
    let row = "\n                        <tr>\n                            <td>1</td>\n                            <td>D<div class=\"message-id\"><a href=\"https://t.me/c/7/3\">3</div></td>\n                            <td style=\"width: 100%\">\n                                \n                                <ul><li>t1</li><li>t2</li></ul>\n                                \n                            </td>\n                            <td style=\"text-align: right\">2</td>\n                        </tr>\n                    ";
    let expected = format!(
        "\n            <table class=\"table table-striped table-sm\">\n                <tr class=\"thead-dark\">\n                    <th style=\"text-align: left\">#</th>\n                    <th style=\"text-align: left\">date</th>\n                    <th style=\"width: 100%; text-align: left\">info</th>\n                    <th style=\"text-align: right\">#</th>\n                </tr>\n                {row}\n            </table>\n            "
    );
    assert_eq!(toc.generate_html(1), expected);
}
