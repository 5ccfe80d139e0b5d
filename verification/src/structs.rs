//! The data model: messages of an exported chat, assembled records, and the
//! record header carried as embedded YAML in a message's first `Pre` entity.

use vstd::prelude::*;
use vstd::string::*;

use crate::entities::{EntityV, TextEntity};
use crate::strutil::{
    i64_to_string, join_strings, path_join, spec_i64_str, spec_join, spec_path_join, str_eq,
};

verus! {

/// One message of an export. Timestamps are modeled as plain integers
/// (seconds, as a chat export's unix timestamps are); the presence of a
/// contact card is all the engine reads of one, so it is kept as a flag;
/// attachment and export locations are path strings.
#[derive(Debug, PartialEq)]
pub struct Message {
    pub id: i64,
    pub type_field: String,
    pub has_contact_information: bool,
    pub date: i64,
    pub edited: Option<i64>,
    pub reply_to_message_id: Option<i64>,
    pub text_entities: Vec<TextEntity>,
    pub file: Option<String>,
    pub mime_type: Option<String>,
    pub photo: Option<String>,
    pub export_path: Option<String>,
}

/// The mathematical model of a message.
#[verifier::ext_equal]
pub struct MessageV {
    pub id: int,
    pub type_field: Seq<char>,
    pub has_contact_information: bool,
    pub date: int,
    pub edited: Option<int>,
    pub reply_to_message_id: Option<int>,
    pub text_entities: Seq<EntityV>,
    pub file: Option<Seq<char>>,
    pub mime_type: Option<Seq<char>>,
    pub photo: Option<Seq<char>>,
    pub export_path: Option<Seq<char>>,
}

pub open spec fn view_opt_int(o: Option<i64>) -> Option<int> {
    match o {
        Some(v) => Some(v as int),
        None => None,
    }
}

pub open spec fn view_opt_str(o: Option<String>) -> Option<Seq<char>> {
    match o {
        Some(s) => Some(s@),
        None => None,
    }
}

impl DeepView for Message {
    type V = MessageV;

    open spec fn deep_view(&self) -> MessageV {
        MessageV {
            id: self.id as int,
            type_field: self.type_field@,
            has_contact_information: self.has_contact_information,
            date: self.date as int,
            edited: view_opt_int(self.edited),
            reply_to_message_id: view_opt_int(self.reply_to_message_id),
            text_entities: self.text_entities.deep_view(),
            file: view_opt_str(self.file),
            mime_type: view_opt_str(self.mime_type),
            photo: view_opt_str(self.photo),
            export_path: view_opt_str(self.export_path),
        }
    }
}

fn clone_opt_string(o: &Option<String>) -> (r: Option<String>)
    ensures
        view_opt_str(r) == view_opt_str(*o),
{
    match o {
        Some(s) => Some(s.clone()),
        None => None,
    }
}

fn clone_entities(v: &Vec<TextEntity>) -> (r: Vec<TextEntity>)
    ensures
        r.deep_view() == v.deep_view(),
{
    let mut r: Vec<TextEntity> = Vec::new();
    let mut i: usize = 0;
    while i < v.len()
        invariant
            i <= v.len(),
            r.deep_view() =~= v.deep_view().take(i as int),
        decreases v.len() - i,
    {
        r.push(v[i].clone());
        proof {
            assert(v.deep_view().take(i + 1 as int) =~= v.deep_view().take(i as int).push(
                v.deep_view()[i as int],
            ));
        }
        i = i + 1;
    }
    proof {
        assert(v.deep_view().take(v.len() as int) =~= v.deep_view());
    }
    r
}

impl Clone for Message {
    fn clone(&self) -> (r: Self)
        ensures
            r.deep_view() == self.deep_view(),
    {
        let r = Message {
            id: self.id,
            type_field: self.type_field.clone(),
            has_contact_information: self.has_contact_information,
            date: self.date,
            edited: self.edited,
            reply_to_message_id: self.reply_to_message_id,
            text_entities: clone_entities(&self.text_entities),
            file: clone_opt_string(&self.file),
            mime_type: clone_opt_string(&self.mime_type),
            photo: clone_opt_string(&self.photo),
            export_path: clone_opt_string(&self.export_path),
        };
        proof {
            assert(r.deep_view() =~= self.deep_view());
        }
        r
    }
}

/// The metadata fields of a record header, as parsed out of embedded YAML.
#[derive(Debug, PartialEq)]
pub struct RecordHeader {
    pub date: String,
    pub tags: Vec<String>,
    pub person: String,
    pub doctor: Option<String>,
    pub place: Option<String>,
}

/// The mathematical model of a record header.
#[verifier::ext_equal]
pub struct HeaderV {
    pub date: Seq<char>,
    pub tags: Seq<Seq<char>>,
    pub person: Seq<char>,
    pub doctor: Option<Seq<char>>,
    pub place: Option<Seq<char>>,
}

impl DeepView for RecordHeader {
    type V = HeaderV;

    open spec fn deep_view(&self) -> HeaderV {
        HeaderV {
            date: self.date@,
            tags: self.tags.deep_view(),
            person: self.person@,
            doctor: view_opt_str(self.doctor),
            place: view_opt_str(self.place),
        }
    }
}

/// What a record-header YAML text parses to: the five header fields, or
/// nothing when the text is not such a header.
pub uninterp spec fn yaml_header_of(s: Seq<char>) -> Option<HeaderV>;

/// Relies on serde_yaml's `from_str` and the `Value` accessors: what a YAML
/// text parses to depends on the text alone. A header is a mapping with a
/// string `date`, a sequence of string `tags` and a string `person`; a
/// `doctor` or `place` that is missing or null is absent, and one with any
/// other non-string value makes the text no header at all.
#[verifier::external_body]
fn parse_header(text: &str) -> (r: Option<RecordHeader>)
    ensures
        r.deep_view() == yaml_header_of(text@),
{
    let v: serde_yaml::Value = serde_yaml::from_str(text).ok()?;
    let opt = |k: &str| match v.get(k) {
        None => Some(None),
        Some(x) if x.is_null() => Some(None),
        Some(x) => Some(Some(x.as_str()?.to_string())),
    };
    let date = v.get("date")?.as_str()?.to_string();
    let person = v.get("person")?.as_str()?.to_string();
    let mut tags: Vec<String> = Vec::new();
    for tag in v.get("tags")?.as_sequence()? {
        tags.push(tag.as_str()?.to_string());
    }
    Some(RecordHeader { date, tags, person, doctor: opt("doctor")?, place: opt("place")? })
}

/// One assembled record: header metadata plus the messages it was folded
/// from.
#[derive(Debug, PartialEq)]
pub struct Record {
    pub date: String,
    pub tags: Vec<String>,
    pub person: String,
    pub messages: Vec<Message>,
    pub doctor: Option<String>,
    pub place: Option<String>,
}

/// The mathematical model of a record.
#[verifier::ext_equal]
pub struct RecordV {
    pub date: Seq<char>,
    pub tags: Seq<Seq<char>>,
    pub person: Seq<char>,
    pub messages: Seq<MessageV>,
    pub doctor: Option<Seq<char>>,
    pub place: Option<Seq<char>>,
}

impl DeepView for Record {
    type V = RecordV;

    open spec fn deep_view(&self) -> RecordV {
        RecordV {
            date: self.date@,
            tags: self.tags.deep_view(),
            person: self.person@,
            messages: self.messages.deep_view(),
            doctor: view_opt_str(self.doctor),
            place: view_opt_str(self.place),
        }
    }
}

fn clone_strings(v: &Vec<String>) -> (r: Vec<String>)
    ensures
        r.deep_view() == v.deep_view(),
{
    let mut r: Vec<String> = Vec::new();
    let mut i: usize = 0;
    while i < v.len()
        invariant
            i <= v.len(),
            r.deep_view() =~= v.deep_view().take(i as int),
        decreases v.len() - i,
    {
        r.push(v[i].clone());
        proof {
            assert(v.deep_view().take(i + 1 as int) =~= v.deep_view().take(i as int).push(
                v.deep_view()[i as int],
            ));
        }
        i = i + 1;
    }
    proof {
        assert(v.deep_view().take(v.len() as int) =~= v.deep_view());
    }
    r
}

pub fn clone_messages(v: &Vec<Message>) -> (r: Vec<Message>)
    ensures
        r.deep_view() == v.deep_view(),
{
    let mut r: Vec<Message> = Vec::new();
    let mut i: usize = 0;
    while i < v.len()
        invariant
            i <= v.len(),
            r.deep_view() =~= v.deep_view().take(i as int),
        decreases v.len() - i,
    {
        r.push(v[i].clone());
        proof {
            assert(v.deep_view().take(i + 1 as int) =~= v.deep_view().take(i as int).push(
                v.deep_view()[i as int],
            ));
        }
        i = i + 1;
    }
    proof {
        assert(v.deep_view().take(v.len() as int) =~= v.deep_view());
    }
    r
}

pub fn clone_records(v: &Vec<Record>) -> (r: Vec<Record>)
    ensures
        r.deep_view() == v.deep_view(),
{
    let mut r: Vec<Record> = Vec::new();
    let mut i: usize = 0;
    while i < v.len()
        invariant
            i <= v.len(),
            r.deep_view() =~= v.deep_view().take(i as int),
        decreases v.len() - i,
    {
        r.push(v[i].clone());
        proof {
            assert(v.deep_view().take(i + 1 as int) =~= v.deep_view().take(i as int).push(
                v.deep_view()[i as int],
            ));
        }
        i = i + 1;
    }
    proof {
        assert(v.deep_view().take(v.len() as int) =~= v.deep_view());
    }
    r
}

impl Clone for Record {
    fn clone(&self) -> (r: Self)
        ensures
            r.deep_view() == self.deep_view(),
    {
        let r = Record {
            date: self.date.clone(),
            tags: clone_strings(&self.tags),
            person: self.person.clone(),
            messages: clone_messages(&self.messages),
            doctor: clone_opt_string(&self.doctor),
            place: clone_opt_string(&self.place),
        };
        proof {
            assert(r.deep_view() =~= self.deep_view());
        }
        r
    }
}

/// One export source: a parsed archive with its stream of messages.
#[derive(Debug, PartialEq)]
pub struct Export {
    pub id: i64,
    pub name: String,
    pub type_field: String,
    pub messages: Vec<Message>,
}

/// The mathematical model of an export.
#[verifier::ext_equal]
pub struct ExportV {
    pub id: int,
    pub name: Seq<char>,
    pub type_field: Seq<char>,
    pub messages: Seq<MessageV>,
}

impl DeepView for Export {
    type V = ExportV;

    open spec fn deep_view(&self) -> ExportV {
        ExportV {
            id: self.id as int,
            name: self.name@,
            type_field: self.type_field@,
            messages: self.messages.deep_view(),
        }
    }
}

/// Why a message carries no record header.
#[derive(Debug, PartialEq, Eq, Structural, Clone, Copy)]
pub enum HeaderError {
    /// The message's first text entity is not a `Pre` block.
    NoEntry,
    /// The `Pre` block's text is not a record header.
    Malformed,
}

/// The text of the message's first entity when that entity is a `Pre` block.
pub open spec fn spec_first_pre_text(m: MessageV) -> Option<Seq<char>> {
    if m.text_entities.len() > 0 {
        match m.text_entities[0] {
            EntityV::Pre { text, .. } => Some(text),
            _ => None,
        }
    } else {
        None
    }
}

/// Whether the message opens a record: its first entity is a `Pre` block
/// whose text parses as a record header.
pub open spec fn spec_has_header(m: MessageV) -> bool {
    match spec_first_pre_text(m) {
        Some(t) => yaml_header_of(t) is Some,
        None => false,
    }
}

/// The header a record-opening message carries.
pub open spec fn spec_header_of(m: MessageV) -> HeaderV
    recommends
        spec_has_header(m),
{
    yaml_header_of(spec_first_pre_text(m).unwrap()).unwrap()
}

pub open spec fn spec_is_photo(m: MessageV) -> bool {
    m.photo is Some || m.mime_type == Some("image/jpeg"@) || m.mime_type == Some("image/png"@)
}

pub open spec fn spec_is_pdf(m: MessageV) -> bool {
    m.mime_type == Some("application/pdf"@)
}

/// The path a photo message's image is read from.
pub open spec fn spec_photo_path(m: MessageV) -> Seq<char>
    recommends
        spec_is_photo(m),
{
    if m.photo is Some {
        spec_path_join(m.export_path.unwrap(), m.photo.unwrap())
    } else {
        spec_path_join(m.export_path.unwrap(), m.file.unwrap())
    }
}

impl Message {
    /// Whether the message carries no text entities at all.
    pub fn is_text_empty(&self) -> (r: bool)
        ensures
            r == (self.deep_view().text_entities.len() == 0),
    {
        self.text_entities.len() == 0
    }

    /// Whether the message carries an image: an attached photo, or a file
    /// whose MIME type is an image's.
    pub fn is_photo(&self) -> (r: bool)
        ensures
            r == spec_is_photo(self.deep_view()),
    {
        if self.photo.is_some() {
            return true;
        }
        match &self.mime_type {
            Some(m) => str_eq(m, "image/jpeg") || str_eq(m, "image/png"),
            None => false,
        }
    }

    /// Whether the message's attached file is a PDF document.
    pub fn is_pdf(&self) -> (r: bool)
        ensures
            r == spec_is_pdf(self.deep_view()),
    {
        match &self.mime_type {
            Some(m) => str_eq(m, "application/pdf"),
            None => false,
        }
    }

    /// The directory this message's export was read from.
    pub fn unwrap_export_path(&self) -> (r: String)
        requires
            self.deep_view().export_path is Some,
        ensures
            r@ == self.deep_view().export_path.unwrap(),
    {
        match &self.export_path {
            Some(p) => p.clone(),
            None => unreached(),
        }
    }

    /// The path of the message's attached file, inside its export directory.
    pub fn unwrap_file(&self) -> (r: String)
        requires
            self.deep_view().export_path is Some,
            self.deep_view().file is Some,
        ensures
            r@ == spec_path_join(
                self.deep_view().export_path.unwrap(),
                self.deep_view().file.unwrap(),
            ),
    {
        let dir = self.unwrap_export_path();
        match &self.file {
            Some(f) => path_join(&dir, f.as_str()),
            None => unreached(),
        }
    }

    /// The path of the message's image: the photo when one is attached, the
    /// image file otherwise.
    pub fn unwrap_photo(&self) -> (r: String)
        requires
            spec_is_photo(self.deep_view()),
            self.deep_view().export_path is Some,
            self.deep_view().photo is None ==> self.deep_view().file is Some,
        ensures
            r@ == spec_photo_path(self.deep_view()),
    {
        match &self.photo {
            Some(p) => {
                let dir = self.unwrap_export_path();
                path_join(&dir, p.as_str())
            },
            None => self.unwrap_file(),
        }
    }

    /// Whether the message opens a record.
    pub fn has_record(&self) -> (r: bool)
        ensures
            r == spec_has_header(self.deep_view()),
    {
        self.get_record().is_ok()
    }

    /// The record a record-opening message describes: the header fields with
    /// no messages attached yet. Tells a message with no leading `Pre` block
    /// apart from one whose header text does not parse.
    pub fn get_record(&self) -> (r: Result<Record, HeaderError>)
        ensures
            match spec_first_pre_text(self.deep_view()) {
                None => r == Err::<Record, HeaderError>(HeaderError::NoEntry),
                Some(t) => match yaml_header_of(t) {
                    None => r == Err::<Record, HeaderError>(HeaderError::Malformed),
                    Some(h) => r matches Ok(rec) && rec.deep_view() == (RecordV {
                        date: h.date,
                        tags: h.tags,
                        person: h.person,
                        messages: Seq::<MessageV>::empty(),
                        doctor: h.doctor,
                        place: h.place,
                    }),
                },
            },
    {
        if self.text_entities.len() == 0 {
            return Err(HeaderError::NoEntry);
        }
        match &self.text_entities[0] {
            TextEntity::Pre { text, .. } => {
                match parse_header(text.as_str()) {
                    Some(h) => {
                        let rec = Record {
                            date: h.date,
                            tags: h.tags,
                            person: h.person,
                            messages: Vec::new(),
                            doctor: h.doctor,
                            place: h.place,
                        };
                        proof {
                            assert(rec.deep_view() =~= RecordV {
                                date: h.date@,
                                tags: h.tags.deep_view(),
                                person: h.person@,
                                messages: Seq::<MessageV>::empty(),
                                doctor: view_opt_str(h.doctor),
                                place: view_opt_str(h.place),
                            });
                        }
                        Ok(rec)
                    },
                    None => Err(HeaderError::Malformed),
                }
            },
            _ => Err(HeaderError::NoEntry),
        }
    }
}

/// Ascending insertion of an id into a sorted sequence, before any equal id.
pub open spec fn spec_insert_id(x: i64, s: Seq<i64>) -> Seq<i64>
    decreases s.len(),
{
    if s.len() == 0 {
        seq![x]
    } else if s[0] < x {
        seq![s[0]] + spec_insert_id(x, s.drop_first())
    } else {
        seq![x] + s
    }
}

/// Stable ascending insertion sort of message ids.
pub open spec fn spec_sort_ids(s: Seq<i64>) -> Seq<i64>
    decreases s.len(),
{
    if s.len() == 0 {
        Seq::empty()
    } else {
        spec_insert_id(s[0], spec_sort_ids(s.drop_first()))
    }
}

proof fn lemma_insert_id_at(x: i64, s: Seq<i64>, p: int)
    requires
        0 <= p <= s.len(),
        forall|k: int| 0 <= k < p ==> s[k] < x,
        p < s.len() ==> !(s[p] < x),
    ensures
        spec_insert_id(x, s) == s.take(p) + seq![x] + s.skip(p),
    decreases p,
{
    if p == 0 {
        if s.len() == 0 {
            assert(spec_insert_id(x, s) =~= s.take(0) + seq![x] + s.skip(0));
        } else {
            assert(!(s[0] < x));
            assert(spec_insert_id(x, s) =~= s.take(0) + seq![x] + s.skip(0));
        }
    } else {
        assert(s[0] < x);
        lemma_insert_id_at(x, s.drop_first(), p - 1);
        assert(s.drop_first().take(p - 1) =~= s.take(p).drop_first());
        assert(s.drop_first().skip(p - 1) =~= s.skip(p));
        assert(seq![s[0]] + (s.take(p).drop_first() + seq![x] + s.skip(p)) =~= s.take(p) + seq![x]
            + s.skip(p));
    }
}

fn insert_id(x: i64, r: &mut Vec<i64>)
    ensures
        final(r)@ == spec_insert_id(x, old(r)@),
{
    let mut p: usize = 0;
    while p < r.len() && r[p] < x
        invariant
            p <= r.len(),
            forall|k: int| 0 <= k < p ==> r@[k] < x,
            r@ == old(r)@,
        decreases r.len() - p,
    {
        p = p + 1;
    }
    proof {
        lemma_insert_id_at(x, r@, p as int);
    }
    r.insert(p, x);
    proof {
        assert(old(r)@.take(p as int) + seq![x] + old(r)@.skip(p as int) =~= old(r)@.insert(
            p as int,
            x,
        ));
    }
}

fn sort_ids(v: &Vec<i64>) -> (r: Vec<i64>)
    ensures
        r@ == spec_sort_ids(v@),
{
    let mut r: Vec<i64> = Vec::new();
    let mut i: usize = v.len();
    proof {
        assert(v@.skip(v.len() as int) =~= Seq::<i64>::empty());
    }
    while i > 0
        invariant
            i <= v.len(),
            r@ == spec_sort_ids(v@.skip(i as int)),
        decreases i,
    {
        i = i - 1;
        insert_id(v[i], &mut r);
        proof {
            assert(v@.skip(i as int).drop_first() =~= v@.skip(i + 1 as int));
            assert(v@.skip(i as int)[0] == v@[i as int]);
        }
    }
    proof {
        assert(v@.skip(0) =~= v@);
    }
    r
}

/// A record's identity for caching: its message ids, sorted ascending and
/// joined with hyphens.
pub open spec fn spec_record_id(r: RecordV) -> Seq<char> {
    spec_join(
        spec_sort_ids(r.messages.map_values(|m: MessageV| m.id as i64)).map_values(
            |i: i64| spec_i64_str(i as int),
        ),
        "-"@,
    )
}

impl Record {
    /// The record's identity string: sorted, hyphen-joined message ids.
    pub fn record_id(&self) -> (r: String)
        ensures
            r@ == spec_record_id(self.deep_view()),
    {
        let mut ids: Vec<i64> = Vec::new();
        let mut i: usize = 0;
        while i < self.messages.len()
            invariant
                i <= self.messages.len(),
                ids@ =~= self.messages.deep_view().take(i as int).map_values(
                    |m: MessageV| m.id as i64,
                ),
            decreases self.messages.len() - i,
        {
            ids.push(self.messages[i].id);
            proof {
                let mv = self.messages.deep_view();
                assert(mv.take(i + 1 as int) =~= mv.take(i as int).push(mv[i as int]));
                assert(mv.take(i + 1 as int).map_values(|m: MessageV| m.id as i64) =~= mv.take(
                    i as int,
                ).map_values(|m: MessageV| m.id as i64).push(mv[i as int].id as i64));
                assert(mv[i as int].id as i64 == self.messages[i as int].id);
            }
            i = i + 1;
        }
        proof {
            let mv = self.messages.deep_view();
            assert(mv.take(self.messages.len() as int) =~= mv);
        }
        let sorted = sort_ids(&ids);
        let mut parts: Vec<String> = Vec::new();
        let mut j: usize = 0;
        while j < sorted.len()
            invariant
                j <= sorted.len(),
                parts.deep_view() =~= sorted@.take(j as int).map_values(
                    |i: i64| spec_i64_str(i as int),
                ),
            decreases sorted.len() - j,
        {
            parts.push(i64_to_string(sorted[j]));
            proof {
                assert(sorted@.take(j + 1 as int) =~= sorted@.take(j as int).push(
                    sorted@[j as int],
                ));
                assert(sorted@.take(j + 1 as int).map_values(|i: i64| spec_i64_str(i as int))
                    =~= sorted@.take(j as int).map_values(|i: i64| spec_i64_str(i as int)).push(
                    spec_i64_str(sorted@[j as int] as int),
                ));
            }
            j = j + 1;
        }
        proof {
            assert(sorted@.take(sorted.len() as int) =~= sorted@);
        }
        join_strings(&parts, "-")
    }

    /// The id of the record's first message, zero for an empty record.
    pub fn first_message_id(&self) -> (r: i64)
        ensures
            r as int == if self.deep_view().messages.len() > 0 {
                self.deep_view().messages[0].id
            } else {
                0
            },
    {
        if self.messages.len() > 0 {
            self.messages[0].id
        } else {
            0
        }
    }

    /// Whether any of the record's messages carries an image.
    pub fn is_images(&self) -> (r: bool)
        ensures
            r == exists|k: int|
                0 <= k < self.deep_view().messages.len() && spec_is_photo(
                    self.deep_view().messages[k],
                ),
    {
        let mut i: usize = 0;
        while i < self.messages.len()
            invariant
                i <= self.messages.len(),
                forall|k: int|
                    0 <= k < i ==> !spec_is_photo(#[trigger] self.deep_view().messages[k]),
            decreases self.messages.len() - i,
        {
            if self.messages[i].is_photo() {
                proof {
                    assert(spec_is_photo(self.deep_view().messages[i as int]));
                }
                return true;
            }
            i = i + 1;
        }
        false
    }
}

} // verus!
