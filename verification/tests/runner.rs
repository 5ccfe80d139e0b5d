use medpack::app::App;
use medpack::categorizer::{Categorizer, PersonRecords};
use medpack::command;
use medpack::entities::TextEntity;
use medpack::paginate::{FitPhase, FitSearch, FULL_PAGE_HEIGHT_MM, PAGE_MARGIN_MM};
use medpack::paginate::{fit_model, model_page_count};
use medpack::pipeline::{
    classify_message, deep_link, filter_people, page_footer_text, planned_steps, record_label,
    MessageRoute, RetryDecision, RetryPolicy,
};
use medpack::structs::{Message, Record};

fn msg(id: i64) -> Message {
    Message {
        id,
        type_field: "message".to_string(),
        has_contact_information: false,
        date: 0,
        edited: None,
        reply_to_message_id: None,
        text_entities: Vec::new(),
        file: None,
        mime_type: None,
        photo: None,
        export_path: Some("/export".to_string()),
    }
}

fn model(content: u64, height: u64) -> u64 {
    model_page_count(content, height, PAGE_MARGIN_MM)
}

#[test]
fn fit_model_lands_on_one_page() {
    // The synthetic renderer: page count = ceil(content / (height - 2 * margin)).
    for content in [1u64, 39, 40, 41, 100, 355, 1000, 4096, 99999] {
        let h = fit_model(content);
        assert_eq!(model(content, h), 1, "content {content} gave height {h}");
    }
}

#[test]
fn fit_model_exact_heights() {
    // content 40: probe says 1 page, first candidate 60 fits, the floor stops
    // the shrink there.
    assert_eq!(fit_model(40), 60);
    // content 100: probe 3 pages, candidate 140 fits, 100 overflows, expand
    // lands on 120.
    assert_eq!(fit_model(100), 120);
}

#[test]
fn fit_search_steps() {
    let s = FitSearch::start(3);
    assert_eq!(s.height, 140);
    assert_eq!(s.phase, FitPhase::Shrinking);
    // One page at 140: shrink to 100.
    let s = s.step(1);
    assert_eq!(s, FitSearch { height: 100, phase: FitPhase::Shrinking });
    // Overflow at 100: grow to 110 and expand.
    let s = s.step(2);
    assert_eq!(s, FitSearch { height: 110, phase: FitPhase::Expanding });
    // Still overflowing: 120.
    let s = s.step(3);
    assert_eq!(s, FitSearch { height: 120, phase: FitPhase::Expanding });
    // Fits: settled at 120.
    let s = s.step(1);
    assert_eq!(s, FitSearch { height: 120, phase: FitPhase::Done });
}

#[test]
fn fit_search_shrink_floor() {
    let s = FitSearch::start(1);
    assert_eq!(s.height, 60);
    let s = s.step(1);
    assert_eq!(s, FitSearch { height: 60, phase: FitPhase::Done });
}

#[test]
fn unadaptive_height_is_full_page() {
    assert_eq!(FULL_PAGE_HEIGHT_MM, 297);
}

#[test]
fn retry_policy_bounds_attempts() {
    let policy = RetryPolicy::new(3, 1000);
    assert_eq!(policy.after_failure(1), RetryDecision::RetryAfter(1000));
    assert_eq!(policy.after_failure(2), RetryDecision::RetryAfter(1000));
    assert_eq!(policy.after_failure(3), RetryDecision::RetryAfter(1000));
    assert_eq!(policy.after_failure(4), RetryDecision::GiveUp);
    let none = RetryPolicy::new(0, 50);
    assert_eq!(none.after_failure(1), RetryDecision::GiveUp);
}

#[test]
fn classify_routes_pdf_photo_text() {
    let mut pdf = msg(1);
    pdf.mime_type = Some("application/pdf".to_string());
    pdf.file = Some("doc.pdf".to_string());
    assert_eq!(classify_message(&pdf), MessageRoute::PdfFile("/export/doc.pdf".to_string()));

    let mut photo = msg(2);
    photo.photo = Some("p.jpg".to_string());
    assert_eq!(classify_message(&photo), MessageRoute::Photo("/export/p.jpg".to_string()));

    let mut text = msg(3);
    text.text_entities = vec![
        TextEntity::Pre { text: "header".to_string(), language: "yaml".to_string() },
        TextEntity::Plain { text: "body".to_string() },
        TextEntity::Bold { text: "strong".to_string() },
    ];
    assert_eq!(
        classify_message(&text),
        MessageRoute::Text("<span>body</span><b>strong</b>".to_string())
    );
}

#[test]
fn record_label_joins_and_dates() {
    let rec = Record {
        date: "2024-01-02".to_string(),
        tags: vec!["<b>cardio</b>".to_string(), "mrt".to_string()],
        person: "A".to_string(),
        messages: vec![],
        doctor: None,
        place: None,
    };
    assert_eq!(record_label(&rec), "cardio, mrt: 2024-01-02");
}

#[test]
fn record_label_truncates_long_tag_lines() {
    let rec = Record {
        date: "2024-01-02".to_string(),
        tags: vec!["a".repeat(40), "b".repeat(40)],
        person: "A".to_string(),
        messages: vec![],
        doctor: None,
        place: None,
    };
    let label = record_label(&rec);
    let expected_prefix: String = "a".repeat(40) + ", " + &"b".repeat(13);
    assert_eq!(label, format!("{expected_prefix}...: 2024-01-02"));
    assert_eq!(label.chars().count(), 55 + 3 + 2 + 10);
}

#[test]
fn deep_links() {
    assert_eq!(deep_link(777, 30), "https://t.me/c/777/30");
    assert_eq!(deep_link(-1, 0), "https://t.me/c/-1/0");
}

#[test]
fn page_footer_text_value() {
    assert_eq!(page_footer_text(), "\u{441}\u{442}\u{440} %Page \u{438}\u{437} %EndPage");
}

#[test]
fn planned_steps_exact() {
    let persons = vec![
        PersonRecords { person: "A".to_string(), records: vec![rec(), rec()] },
        PersonRecords { person: "B".to_string(), records: vec![rec()] },
    ];
    // One step per record plus two per person.
    assert_eq!(planned_steps(&persons), 7);
    assert_eq!(planned_steps(&Vec::new()), 0);
}

fn rec() -> Record {
    Record {
        date: "2024".to_string(),
        tags: vec![],
        person: "A".to_string(),
        messages: vec![],
        doctor: None,
        place: None,
    }
}

fn two_persons() -> Vec<PersonRecords> {
    vec![
        PersonRecords { person: "A".to_string(), records: vec![] },
        PersonRecords { person: "B".to_string(), records: vec![] },
    ]
}

#[test]
fn filter_people_by_name() {
    let all = filter_people(two_persons(), &Vec::new());
    assert_eq!(all.len(), 2);
    let only_b = filter_people(two_persons(), &vec!["B".to_string()]);
    assert_eq!(only_b.len(), 1);
    assert_eq!(only_b[0].person, "B");
}

#[test]
fn app_paths() {
    let app = App::new(
        "/tmp/img".to_string(),
        "/tmp/html".to_string(),
        "/tmp/label".to_string(),
        true,
    );
    assert!(app.process_ocr);
    assert_eq!(app.tmp_img("5-img.pdf"), "/tmp/img/5-img.pdf");
    assert_eq!(app.tmp_html("toc-A.html"), "/tmp/html/toc-A.html");
    assert_eq!(app.tmp_label("10.pdf"), "/tmp/label/10.pdf");
    // Distinct, prefix-free roots: files of different areas never collide,
    // even under names that reach into subdirectories.
    assert_ne!(app.tmp_img("a.pdf"), app.tmp_html("a.pdf"));
    assert_ne!(app.tmp_img("a.pdf"), app.tmp_label("a.pdf"));
    assert_ne!(app.tmp_html("a.pdf"), app.tmp_label("a.pdf"));
}

#[test]
fn command_lines_exact() {
    let deno = command::deno_args(
        &command::DenoArgs {
            in_path: "in.pdf".to_string(),
            out_path: "out.pdf".to_string(),
            left_text: "L".to_string(),
            right_text: "R".to_string(),
            bottom_text: "B".to_string(),
            bottom_link: "U".to_string(),
        },
        "/assets/index.ts",
        "/assets/font.ttf",
    );
    assert_eq!(
        deno,
        vec![
            "run",
            "--allow-read",
            "--allow-write",
            "/assets/index.ts",
            "-i",
            "in.pdf",
            "-o",
            "out.pdf",
            "-l",
            "L",
            "-r",
            "R",
            "-b",
            "B",
            "-u",
            "U",
            "-f",
            "/assets/font.ttf",
        ]
    );

    assert_eq!(
        command::img2pdf_args("a.jpg", "a.pdf"),
        vec!["--imgsize", "595x5000", "--fit", "into", "a.jpg", "-o", "a.pdf"]
    );

    assert_eq!(
        command::renderer_args(120, 10, "in.html", "out.pdf"),
        vec![
            "--encoding",
            "utf-8",
            "--zoom",
            "1.4",
            "--page-width",
            "210mm",
            "--page-height",
            "120mm",
            "-T",
            "10mm",
            "-B",
            "10mm",
            "in.html",
            "out.pdf",
        ]
    );

    assert_eq!(
        command::page_number_args("/f.ttf", "in.pdf", "out.pdf"),
        vec![
            "-add-text",
            "\u{441}\u{442}. %Page",
            "-bottomright",
            "5 5",
            "-load-ttf",
            "Roboto=/f.ttf",
            "-font",
            "Roboto",
            "-font-size",
            "11",
            "in.pdf",
            "-o",
            "out.pdf",
        ]
    );

    assert_eq!(
        command::ocr_args("in.pdf", "out.pdf"),
        vec![
            "-l",
            "rus+eng",
            "-O0",
            "--tesseract-oem",
            "1",
            "--output-type",
            "pdf",
            "in.pdf",
            "out.pdf",
        ]
    );
}

#[test]
fn full_person_flow_with_stub_tools() {
    // The end-to-end shape with stub collaborators: every converter returns a
    // one-page document. One header+photo message plus one continuation photo
    // and one unrelated text yield one record; with a one-page table of
    // contents, its single entry starts on page 2.
    let header = {
        let mut m = msg(10);
        m.photo = Some("p10.jpg".to_string());
        m.text_entities = vec![TextEntity::Pre {
            text: "date: 2024-01-02\ntags:\n- cardio\nperson: A\n".to_string(),
            language: "yaml".to_string(),
        }];
        m
    };
    let cont = {
        let mut m = msg(11);
        m.photo = Some("p11.jpg".to_string());
        m
    };
    let noise = {
        let mut m = msg(12);
        m.text_entities = vec![TextEntity::Plain { text: "spam".to_string() }];
        m
    };
    let export = medpack::structs::Export {
        id: 777,
        name: "clinic".to_string(),
        type_field: "private_supergroup".to_string(),
        messages: vec![header, cont, noise],
    };
    let persons = Categorizer::process_exports(vec![export]);
    assert_eq!(persons.len(), 1);
    let records = &persons[0].records;
    assert_eq!(records.len(), 1);
    assert_eq!(records[0].messages.len(), 2);

    // Stub converters: each message's document is one page, so the record
    // contributes one merged, labeled, one-page document.
    for m in &records[0].messages {
        match classify_message(m) {
            MessageRoute::Photo(path) => assert!(path.starts_with("/export/")),
            _ => panic!("photo run expected"),
        }
    }
    let stub_record_pages: u8 = 1;
    let mut toc = medpack::toc::Toc::new(777);
    toc.append(vec![medpack::toc::TocItem {
        pages: stub_record_pages,
        record: records[0].clone(),
    }]);
    // First pass renders with shift 1; the stub table of contents is itself
    // one page, so the second pass keeps shift 1.
    let toc_pages: u8 = 1;
    assert_eq!(toc_pages, 1);
    assert_eq!(toc.page_offsets(toc_pages), vec![2]);
    let html = toc.generate_html(toc_pages);
    assert!(html.contains("https://t.me/c/777/10"));
    assert!(html.contains("<td style=\"text-align: right\">2</td>"));
}
