use medpack::categorizer::Categorizer;
use medpack::entities::TextEntity;
use medpack::structs::{Export, HeaderError, Message, Record};

fn base_msg(id: i64) -> Message {
    Message {
        id,
        type_field: "message".to_string(),
        has_contact_information: false,
        date: 1000 + id,
        edited: None,
        reply_to_message_id: None,
        text_entities: Vec::new(),
        file: None,
        mime_type: None,
        photo: None,
        export_path: Some("/export".to_string()),
    }
}

fn header_yaml() -> String {
    "date: 2024-01-02\ntags:\n- cardio\n- checkup\nperson: A\n".to_string()
}

fn header_msg(id: i64, photo: bool) -> Message {
    let mut m = base_msg(id);
    m.text_entities = vec![TextEntity::Pre { text: header_yaml(), language: "yaml".to_string() }];
    if photo {
        m.photo = Some(format!("photos/{id}.jpg"));
    }
    m
}

fn photo_msg(id: i64) -> Message {
    let mut m = base_msg(id);
    m.photo = Some(format!("photos/{id}.jpg"));
    m
}

fn text_msg(id: i64, text: &str) -> Message {
    let mut m = base_msg(id);
    m.text_entities = vec![TextEntity::Plain { text: text.to_string() }];
    m
}

fn export_of(msgs: Vec<Message>) -> Export {
    Export {
        id: 777,
        name: "clinic".to_string(),
        type_field: "private_supergroup".to_string(),
        messages: msgs,
    }
}

#[test]
fn dedup_keeps_latest_edit_for_equal_dates() {
    let mut v1 = photo_msg(5);
    v1.date = 1000;
    v1.edited = Some(10);
    let mut v2 = photo_msg(5);
    v2.date = 1000;
    v2.edited = Some(30);
    let mut v3 = photo_msg(5);
    v3.date = 1000;
    v3.edited = Some(20);
    let out = Categorizer::messages(vec![export_of(vec![v1, v2.clone(), v3])]);
    assert_eq!(out.len(), 1);
    assert_eq!(out[0], v2);
}

#[test]
fn dedup_prefers_later_timestamp_over_edit() {
    // The sort key orders by timestamp before edit timestamp.
    let mut v1 = photo_msg(5);
    v1.date = 2000;
    v1.edited = None;
    let mut v2 = photo_msg(5);
    v2.date = 1000;
    v2.edited = Some(9999);
    let out = Categorizer::messages(vec![export_of(vec![v1.clone(), v2])]);
    assert_eq!(out.len(), 1);
    assert_eq!(out[0], v1);
}

#[test]
fn dedup_tie_keeps_last_seen() {
    let mut v1 = photo_msg(5);
    v1.photo = Some("first.jpg".to_string());
    let mut v2 = photo_msg(5);
    v2.photo = Some("second.jpg".to_string());
    let out = Categorizer::messages(vec![export_of(vec![v1, v2.clone()])]);
    assert_eq!(out.len(), 1);
    assert_eq!(out[0], v2);
}

#[test]
fn dedup_many_variants_yield_one() {
    let mut msgs = Vec::new();
    for e in 0..10 {
        let mut v = photo_msg(42);
        v.date = 1000;
        v.edited = Some(e);
        msgs.push(v);
    }
    let out = Categorizer::messages(vec![export_of(msgs)]);
    assert_eq!(out.len(), 1);
    assert_eq!(out[0].edited, Some(9));
}

#[test]
fn dedup_drops_services_and_contacts() {
    let mut service = photo_msg(1);
    service.type_field = "service".to_string();
    let mut contact = photo_msg(2);
    contact.has_contact_information = true;
    let keep = photo_msg(3);
    let out = Categorizer::messages(vec![export_of(vec![service, contact, keep.clone()])]);
    assert_eq!(out, vec![keep]);
}

#[test]
fn dedup_merges_sources() {
    let a = export_of(vec![photo_msg(1)]);
    let mut later = photo_msg(1);
    later.date = 99999;
    later.photo = Some("better.jpg".to_string());
    let b = export_of(vec![later.clone()]);
    let out = Categorizer::messages(vec![a, b]);
    assert_eq!(out, vec![later]);
}

#[test]
fn dedup_empty_input() {
    let out = Categorizer::messages(Vec::new());
    assert!(out.is_empty());
}

#[test]
fn grouping_header_and_photo_run() {
    // A header+photo message followed by two headerless photo-only messages
    // forms one record of three messages.
    let msgs = vec![header_msg(10, true), photo_msg(11), photo_msg(12)];
    let recs = Categorizer::group_messages(msgs);
    assert_eq!(recs.len(), 1);
    assert_eq!(recs[0].messages.len(), 3);
    assert_eq!(recs[0].date, "2024-01-02");
    assert_eq!(recs[0].person, "A");
    assert_eq!(recs[0].tags, vec!["cardio".to_string(), "checkup".to_string()]);
}

#[test]
fn grouping_text_breaks_run() {
    // A headerless text message closes the open record and joins nothing.
    let msgs = vec![header_msg(10, true), text_msg(11, "hello"), photo_msg(12)];
    let recs = Categorizer::group_messages(msgs);
    assert_eq!(recs.len(), 1);
    assert_eq!(recs[0].messages.len(), 1);
    assert_eq!(recs[0].messages[0].id, 10);
}

#[test]
fn grouping_header_without_photo_stays_alone() {
    // Continuation only opens when the header message itself carries a photo.
    let msgs = vec![header_msg(10, false), photo_msg(11)];
    let recs = Categorizer::group_messages(msgs);
    assert_eq!(recs.len(), 1);
    assert_eq!(recs[0].messages.len(), 1);
}

#[test]
fn grouping_sorts_by_id_first() {
    let msgs = vec![photo_msg(11), header_msg(10, true)];
    let recs = Categorizer::group_messages(msgs);
    assert_eq!(recs.len(), 1);
    assert_eq!(recs[0].messages.len(), 2);
    assert_eq!(recs[0].messages[0].id, 10);
    assert_eq!(recs[0].messages[1].id, 11);
}

#[test]
fn grouping_two_headers_two_records() {
    let msgs = vec![header_msg(10, true), photo_msg(11), header_msg(12, false)];
    let recs = Categorizer::group_messages(msgs);
    assert_eq!(recs.len(), 2);
    assert_eq!(recs[0].messages.len(), 2);
    assert_eq!(recs[1].messages.len(), 1);
}

#[test]
fn regrouping_flattened_records_is_identity() {
    // Re-running the assembler over its own flattened output reproduces the
    // record boundaries.
    let msgs = vec![
        header_msg(10, true),
        photo_msg(11),
        text_msg(12, "noise"),
        header_msg(13, false),
        header_msg(14, true),
        photo_msg(15),
    ];
    let recs = Categorizer::group_messages(msgs);
    let flattened: Vec<Message> =
        recs.iter().flat_map(|r| r.messages.clone().into_iter()).collect();
    let again = Categorizer::group_messages(flattened);
    assert_eq!(again, recs);
}

#[test]
fn topics_never_merge() {
    // Messages of another topic do not extend a record even when adjacent.
    let mut other = photo_msg(11);
    other.reply_to_message_id = Some(500);
    let msgs = vec![header_msg(10, true), other, photo_msg(12)];
    let topics = Categorizer::group_by_topic(msgs);
    assert_eq!(topics.len(), 2);
    assert_eq!(topics[0].topic, None);
    assert_eq!(topics[0].messages.len(), 2);
    assert_eq!(topics[1].topic, Some(500));
    assert_eq!(topics[1].messages.len(), 1);
}

#[test]
fn person_records_newest_first() {
    let mut h1 = header_msg(10, false);
    h1.text_entities = vec![TextEntity::Pre {
        text: "date: 2024-01-05\ntags:\n- a\nperson: A\n".to_string(),
        language: "yaml".to_string(),
    }];
    let mut h2 = header_msg(11, false);
    h2.text_entities = vec![TextEntity::Pre {
        text: "date: 2024-03-01\ntags:\n- b\nperson: A\n".to_string(),
        language: "yaml".to_string(),
    }];
    let topics = Categorizer::group_by_topic(vec![h1, h2]);
    let persons = Categorizer::person_records(topics);
    assert_eq!(persons.len(), 1);
    assert_eq!(persons[0].person, "A");
    assert_eq!(persons[0].records.len(), 2);
    assert_eq!(persons[0].records[0].date, "2024-03-01");
    assert_eq!(persons[0].records[1].date, "2024-01-05");
}

#[test]
fn process_exports_end_to_end() {
    // Three messages: header+photo, continuation photo, unrelated headerless
    // text. One record with two messages comes out for person A.
    let export = export_of(vec![header_msg(10, true), photo_msg(11), text_msg(12, "spam")]);
    let persons = Categorizer::process_exports(vec![export]);
    assert_eq!(persons.len(), 1);
    assert_eq!(persons[0].person, "A");
    assert_eq!(persons[0].records.len(), 1);
    assert_eq!(persons[0].records[0].messages.len(), 2);
    assert_eq!(persons[0].records[0].messages[0].id, 10);
    assert_eq!(persons[0].records[0].messages[1].id, 11);
}

#[test]
fn get_record_parses_header_fields() {
    let mut m = base_msg(1);
    m.text_entities = vec![TextEntity::Pre {
        text: "date: 2023-12-24\ntags:\n- mrt\nperson: Bob\ndoctor: Dr. Who\nplace: Clinic 9\n"
            .to_string(),
        language: "yaml".to_string(),
    }];
    let rec = m.get_record().unwrap();
    assert_eq!(rec.date, "2023-12-24");
    assert_eq!(rec.tags, vec!["mrt".to_string()]);
    assert_eq!(rec.person, "Bob");
    assert_eq!(rec.doctor, Some("Dr. Who".to_string()));
    assert_eq!(rec.place, Some("Clinic 9".to_string()));
    assert!(rec.messages.is_empty());
}

#[test]
fn get_record_no_pre_entity() {
    let m = text_msg(1, "plain");
    assert_eq!(m.get_record(), Err(HeaderError::NoEntry));
    let empty = base_msg(2);
    assert_eq!(empty.get_record(), Err(HeaderError::NoEntry));
}

#[test]
fn get_record_malformed_header() {
    let mut m = base_msg(1);
    m.text_entities = vec![TextEntity::Pre {
        text: "just some notes, not a header".to_string(),
        language: "yaml".to_string(),
    }];
    assert_eq!(m.get_record(), Err(HeaderError::Malformed));
    assert!(!m.has_record());
}

#[test]
fn get_record_rejects_non_string_doctor() {
    let mut m = base_msg(1);
    m.text_entities = vec![TextEntity::Pre {
        text: "date: 2024-01-01\ntags: []\nperson: A\ndoctor: 5\n".to_string(),
        language: "yaml".to_string(),
    }];
    assert_eq!(m.get_record(), Err(HeaderError::Malformed));
}

#[test]
fn get_record_null_optionals() {
    let mut m = base_msg(1);
    m.text_entities = vec![TextEntity::Pre {
        text: "date: 2024-01-01\ntags: []\nperson: A\ndoctor: ~\n".to_string(),
        language: "yaml".to_string(),
    }];
    let rec = m.get_record().unwrap();
    assert_eq!(rec.doctor, None);
    assert_eq!(rec.place, None);
    assert!(rec.tags.is_empty());
}

#[test]
fn record_id_sorts_and_joins() {
    let rec = Record {
        date: "2024-01-01".to_string(),
        tags: vec![],
        person: "A".to_string(),
        messages: vec![photo_msg(30), photo_msg(-2), photo_msg(7)],
        doctor: None,
        place: None,
    };
    assert_eq!(rec.record_id(), "-2-7-30");
    assert_eq!(rec.first_message_id(), 30);
    assert!(rec.is_images());
}

#[test]
fn message_kind_checks() {
    let mut pdf = base_msg(1);
    pdf.mime_type = Some("application/pdf".to_string());
    pdf.file = Some("doc.pdf".to_string());
    assert!(pdf.is_pdf());
    assert!(!pdf.is_photo());
    assert_eq!(pdf.unwrap_file(), "/export/doc.pdf");

    let mut img = base_msg(2);
    img.mime_type = Some("image/png".to_string());
    img.file = Some("scan.png".to_string());
    assert!(img.is_photo());
    assert_eq!(img.unwrap_photo(), "/export/scan.png");

    let p = photo_msg(3);
    assert!(p.is_photo());
    assert_eq!(p.unwrap_photo(), "/export/photos/3.jpg");
    assert!(p.is_text_empty());
}
