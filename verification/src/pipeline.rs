//! Per-record pipeline decisions: how a message routes to a converter, the
//! texts a record's pages are labeled with, the deep link into the chat, the
//! bounded OCR retry policy, and the exact progress totals.

use vstd::prelude::*;
use vstd::string::*;

use crate::categorizer::PersonRecordsV;
use crate::entities::spec_entity_html;
use crate::strutil::{join_strings, spec_i64_str, spec_join, str_eq};
use crate::strutil::spec_path_join;
use crate::structs::{spec_is_pdf, spec_is_photo, spec_photo_path, Message, Record};
use crate::categorizer::PersonRecords;

verus! {

/// Where a message's content goes: an attached PDF is taken as it is, an
/// image goes to the image converter, anything else renders its entities
/// (all but the leading header block) as HTML.
#[derive(Debug, PartialEq)]
pub enum MessageRoute {
    PdfFile(String),
    Photo(String),
    Text(String),
}

/// The markup of a run of entities, concatenated.
pub open spec fn spec_entities_html(es: Seq<crate::entities::EntityV>) -> Seq<char>
    decreases es.len(),
{
    if es.len() == 0 {
        Seq::empty()
    } else {
        spec_entity_html(es[0]) + spec_entities_html(es.drop_first())
    }
}

/// Classify one message of a record and carry what its converter needs: the
/// PDF's path, the image's path, or the HTML of its text (the header entity
/// itself is not rendered).
pub fn classify_message(msg: &Message) -> (r: MessageRoute)
    requires
        spec_is_pdf(msg.deep_view()) ==> msg.deep_view().export_path is Some
            && msg.deep_view().file is Some,
        !spec_is_pdf(msg.deep_view()) && spec_is_photo(msg.deep_view()) ==> {
            &&& msg.deep_view().export_path is Some
            &&& (msg.deep_view().photo is None ==> msg.deep_view().file is Some)
        },
        !spec_is_pdf(msg.deep_view()) && !spec_is_photo(msg.deep_view())
            ==> msg.deep_view().text_entities.len() >= 1,
    ensures
        spec_is_pdf(msg.deep_view()) ==> (r matches MessageRoute::PdfFile(p) && p@
            == spec_path_join(
            msg.deep_view().export_path.unwrap(),
            msg.deep_view().file.unwrap(),
        )),
        !spec_is_pdf(msg.deep_view()) && spec_is_photo(msg.deep_view()) ==> (r
            matches MessageRoute::Photo(p) && p@ == spec_photo_path(msg.deep_view())),
        !spec_is_pdf(msg.deep_view()) && !spec_is_photo(msg.deep_view()) ==> (r
            matches MessageRoute::Text(h) && h@ == spec_entities_html(
            msg.deep_view().text_entities.drop_first(),
        )),
{
    if msg.is_pdf() {
        MessageRoute::PdfFile(msg.unwrap_file())
    } else if msg.is_photo() {
        MessageRoute::Photo(msg.unwrap_photo())
    } else {
        let ghost tail = msg.deep_view().text_entities.drop_first();
        let mut html = String::new();
        let mut i: usize = 1;
        proof {
            assert(tail.skip(0) =~= tail);
        }
        while i < msg.text_entities.len()
            invariant
                1 <= i <= msg.text_entities.len() || (msg.text_entities.len() == 0 && i == 1),
                tail == msg.deep_view().text_entities.drop_first(),
                spec_entities_html(tail) == html@ + spec_entities_html(
                    tail.skip(i - 1 as int),
                ),
            decreases msg.text_entities.len() - i,
        {
            proof {
                assert(tail.skip(i - 1 as int)[0] == tail[i - 1 as int]);
                assert(tail[i - 1 as int] == msg.deep_view().text_entities[i as int]);
                assert(tail.skip(i - 1 as int).drop_first() =~= tail.skip(i as int));
            }
            let ghost html_before = html@;
            let fragment = msg.text_entities[i].to_html();
            html.append(fragment.as_str());
            proof {
                assert(msg.deep_view().text_entities[i as int] == msg.text_entities@[
                    i as int].deep_view());
                assert(html_before + (spec_entity_html(tail.skip(i - 1 as int)[0])
                    + spec_entities_html(tail.skip(i as int))) =~= (html_before + spec_entity_html(
                    tail.skip(i - 1 as int)[0],
                )) + spec_entities_html(tail.skip(i as int)));
            }
            i = i + 1;
        }
        proof {
            assert(tail.skip(msg.text_entities@.len() - 1) =~= Seq::<
                crate::entities::EntityV,
            >::empty());
        }
        MessageRoute::Text(html)
    }
}

/// What the labeler receives: the given fragment's visible text, trimmed.
/// Named after scraper's fragment parsing and text extraction: the result
/// depends on the fragment alone.
pub uninterp spec fn tag_text_of(s: Seq<char>) -> Seq<char>;

/// Relies on scraper's `Html::parse_fragment` and `ElementRef::text` (the
/// text nodes joined with spaces), and on `str::trim`: strips the markup off
/// a tag and trims surrounding whitespace.
#[verifier::external_body]
pub(crate) fn strip_html_tags(html: &str) -> (r: String)
    ensures
        r@ == tag_text_of(html@),
{
    let fragment = scraper::Html::parse_fragment(html);
    let text = fragment.root_element().text().collect::<Vec<_>>().join(" ");
    text.trim().to_string()
}

/// The tag line of a record's label: the tags' visible texts joined with
/// commas, shortened with an ellipsis when too long for the label.
pub open spec fn spec_tags_line(tags: Seq<Seq<char>>) -> Seq<char> {
    let joined = spec_join(tags.map_values(|t: Seq<char>| tag_text_of(t)), ", "@);
    if joined.len() > 58 {
        joined.take(55) + "..."@
    } else {
        joined
    }
}

/// The right-hand label of a record's pages: its tag line and its date.
pub open spec fn spec_record_label(r: crate::structs::RecordV) -> Seq<char> {
    spec_tags_line(r.tags) + ": "@ + r.date
}

/// Build the label text for one record's pages.
pub fn record_label(rec: &Record) -> (r: String)
    ensures
        r@ == spec_record_label(rec.deep_view()),
{
    let ghost tv = rec.tags.deep_view();
    let mut parts: Vec<String> = Vec::new();
    let mut i: usize = 0;
    while i < rec.tags.len()
        invariant
            i <= rec.tags.len(),
            tv == rec.tags.deep_view(),
            parts.deep_view() =~= tv.take(i as int).map_values(|t: Seq<char>| tag_text_of(t)),
        decreases rec.tags.len() - i,
    {
        parts.push(strip_html_tags(rec.tags[i].as_str()));
        proof {
            assert(tv.take(i + 1 as int) =~= tv.take(i as int).push(tv[i as int]));
            assert(tv.take(i + 1 as int).map_values(|t: Seq<char>| tag_text_of(t)) =~= tv.take(
                i as int,
            ).map_values(|t: Seq<char>| tag_text_of(t)).push(tag_text_of(tv[i as int])));
            assert(tv[i as int] == rec.tags@[i as int]@);
        }
        i = i + 1;
    }
    proof {
        assert(tv.take(rec.tags.len() as int) =~= tv);
    }
    let joined = join_strings(&parts, ", ");
    let count = joined.as_str().unicode_len();
    let mut label: String;
    if count > 58 {
        label = joined.as_str().substring_char(0, 55).to_owned();
        label.append("...");
        proof {
            assert(joined@.subrange(0, 55) =~= joined@.take(55));
        }
    } else {
        label = joined;
    }
    label.append(": ");
    label.append(rec.date.as_str());
    proof {
        assert(label@ =~= spec_record_label(rec.deep_view()));
    }
    label
}

/// The deep link into the chat for a message.
pub open spec fn spec_deep_link(chat_id: int, message_id: int) -> Seq<char> {
    "https://t.me/c/"@ + spec_i64_str(chat_id) + "/"@ + spec_i64_str(message_id)
}

pub fn deep_link(chat_id: i64, message_id: i64) -> (r: String)
    ensures
        r@ == spec_deep_link(chat_id as int, message_id as int),
{
    let mut r = String::new();
    r.append("https://t.me/c/");
    let c = crate::strutil::i64_to_string(chat_id);
    r.append(c.as_str());
    r.append("/");
    let m = crate::strutil::i64_to_string(message_id);
    r.append(m.as_str());
    proof {
        assert(r@ =~= spec_deep_link(chat_id as int, message_id as int));
    }
    r
}

/// The left-hand label of a record's pages: the running page of the record.
pub fn page_footer_text() -> (r: String)
    ensures
        r@ == "\u{441}\u{442}\u{440} %Page \u{438}\u{437} %EndPage"@,
{
    "\u{441}\u{442}\u{440} %Page \u{438}\u{437} %EndPage".to_owned()
}

/// The bounded retry policy for the flaky OCR step: a fixed number of
/// retries with a constant delay between attempts.
#[derive(Debug, PartialEq, Eq, Structural, Clone, Copy)]
pub struct RetryPolicy {
    pub max_retries: u64,
    pub delay_ms: u64,
}

/// What to do after a failed attempt.
#[derive(Debug, PartialEq, Eq, Structural, Clone, Copy)]
pub enum RetryDecision {
    /// Wait that many milliseconds and try again.
    RetryAfter(u64),
    /// Retries are exhausted; the failure is final.
    GiveUp,
}

impl RetryPolicy {
    pub fn new(max_retries: u64, delay_ms: u64) -> (r: RetryPolicy)
        ensures
            r == (RetryPolicy { max_retries, delay_ms }),
    {
        RetryPolicy { max_retries, delay_ms }
    }

    /// Decide after the given number of failures so far (at least one): the
    /// call is retried, after the constant delay, exactly while the failures
    /// do not exceed the retry budget; so at most `max_retries` + 1 attempts
    /// happen in all.
    pub fn after_failure(&self, failures: u64) -> (d: RetryDecision)
        requires
            failures >= 1,
        ensures
            d == if failures <= self.max_retries {
                RetryDecision::RetryAfter(self.delay_ms)
            } else {
                RetryDecision::GiveUp
            },
    {
        if failures <= self.max_retries {
            RetryDecision::RetryAfter(self.delay_ms)
        } else {
            RetryDecision::GiveUp
        }
    }
}

/// How many records a person index holds in all.
pub open spec fn spec_total_records(ps: Seq<PersonRecordsV>) -> int
    decreases ps.len(),
{
    if ps.len() == 0 {
        0
    } else {
        spec_total_records(ps.drop_last()) + ps.last().records.len()
    }
}

/// The exact total of progress steps, known before any work starts: one per
/// record, plus two extra steps (table of contents, merge) per person.
pub fn planned_steps(persons: &Vec<PersonRecords>) -> (r: u64)
    requires
        spec_total_records(persons.deep_view()) + 2 * persons.deep_view().len() <= u64::MAX,
    ensures
        r as int == spec_total_records(persons.deep_view()) + 2 * persons.deep_view().len(),
{
    let ghost pv = persons.deep_view();
    let mut total: u64 = 0;
    let mut i: usize = 0;
    proof {
        assert(pv.take(0) =~= Seq::<PersonRecordsV>::empty());
        lemma_total_records_nonneg(pv);
    }
    while i < persons.len()
        invariant
            i <= persons.len(),
            pv == persons.deep_view(),
            spec_total_records(pv) + 2 * pv.len() <= u64::MAX,
            total as int == spec_total_records(pv.take(i as int)) + 2 * i,
            spec_total_records(pv.take(i as int)) + 2 * i <= spec_total_records(pv) + 2 * pv.len(),
        decreases persons.len() - i,
    {
        proof {
            assert(pv.take(i + 1 as int).drop_last() =~= pv.take(i as int));
            assert(pv.take(i + 1 as int).last() == pv[i as int]);
            lemma_total_records_prefix(pv, i + 1 as int);
            assert(pv[i as int].records.len() == persons@[i as int].records.deep_view().len());
        }
        total = total + (persons[i].records.len() as u64) + 2;
        i = i + 1;
    }
    proof {
        assert(pv.take(persons.len() as int) =~= pv);
    }
    total
}

proof fn lemma_total_records_nonneg(ps: Seq<PersonRecordsV>)
    ensures
        spec_total_records(ps) >= 0,
    decreases ps.len(),
{
    if ps.len() > 0 {
        lemma_total_records_nonneg(ps.drop_last());
    }
}

proof fn lemma_total_records_prefix(ps: Seq<PersonRecordsV>, i: int)
    requires
        0 <= i <= ps.len(),
    ensures
        spec_total_records(ps.take(i)) <= spec_total_records(ps),
    decreases ps.len() - i,
{
    if i == ps.len() {
        assert(ps.take(i) =~= ps);
    } else {
        lemma_total_records_prefix(ps, i + 1);
        assert(ps.take(i + 1).drop_last() =~= ps.take(i));
        assert(ps.take(i + 1).last() == ps[i]);
    }
}

/// Keep only the persons whose name stands in the filter; an empty filter
/// keeps everyone.
pub open spec fn spec_name_listed(people: Seq<Seq<char>>, name: Seq<char>) -> bool {
    exists|k: int| 0 <= k < people.len() && people[k] == name
}

pub open spec fn spec_filter_people(
    ps: Seq<PersonRecordsV>,
    people: Seq<Seq<char>>,
) -> Seq<PersonRecordsV>
    decreases ps.len(),
{
    if ps.len() == 0 {
        Seq::empty()
    } else {
        let rest = spec_filter_people(ps.drop_last(), people);
        if spec_name_listed(people, ps.last().person) {
            rest.push(ps.last())
        } else {
            rest
        }
    }
}

pub fn filter_people(persons: Vec<PersonRecords>, people: &Vec<String>) -> (r: Vec<PersonRecords>)
    ensures
        people.deep_view().len() == 0 ==> r.deep_view() == persons.deep_view(),
        people.deep_view().len() > 0 ==> r.deep_view() == spec_filter_people(
            persons.deep_view(),
            people.deep_view(),
        ),
{
    if people.len() == 0 {
        return persons;
    }
    let ghost pv = persons.deep_view();
    let mut r: Vec<PersonRecords> = Vec::new();
    let mut i: usize = 0;
    proof {
        assert(pv.take(0) =~= Seq::<PersonRecordsV>::empty());
    }
    while i < persons.len()
        invariant
            i <= persons.len(),
            pv == persons.deep_view(),
            r.deep_view() == spec_filter_people(pv.take(i as int), people.deep_view()),
        decreases persons.len() - i,
    {
        proof {
            assert(pv.take(i + 1 as int).drop_last() =~= pv.take(i as int));
            assert(pv.take(i + 1 as int).last() == pv[i as int]);
        }
        if name_listed(people, &persons[i].person) {
            let kept = PersonRecords {
                person: persons[i].person.clone(),
                records: crate::structs::clone_records(&persons[i].records),
            };
            proof {
                assert(kept.deep_view() =~= pv[i as int]);
            }
            r.push(kept);
        }
        i = i + 1;
    }
    proof {
        assert(pv.take(persons.len() as int) =~= pv);
    }
    r
}

fn name_listed(people: &Vec<String>, name: &String) -> (r: bool)
    ensures
        r == spec_name_listed(people.deep_view(), name@),
{
    let mut i: usize = 0;
    while i < people.len()
        invariant
            i <= people.len(),
            forall|k: int| 0 <= k < i ==> people.deep_view()[k] != name@,
        decreases people.len() - i,
    {
        if str_eq(&people[i], name.as_str()) {
            proof {
                assert(people.deep_view()[i as int] == name@);
            }
            return true;
        }
        proof {
            assert(people.deep_view()[i as int] == people@[i as int]@);
        }
        i = i + 1;
    }
    false
}

} // verus!
