//! The message engine: deduplication of edit-history variants, partitioning
//! by conversation topic, record assembly, and the per-person index.

use vstd::prelude::*;

use crate::strutil::{spec_str_lt, str_eq, str_lt};
use crate::structs::{
    clone_messages, spec_has_header, spec_header_of, spec_is_photo, view_opt_int, Export, ExportV,
    Message, MessageV, Record, RecordV,
};

verus! {

/// Which raw entries take part at all: plain chat messages that carry no
/// contact card.
pub open spec fn spec_keeps(m: MessageV) -> bool {
    m.type_field == "message"@ && !m.has_contact_information
}

/// The kept messages, in order.
pub open spec fn spec_filter_keep(s: Seq<MessageV>) -> Seq<MessageV>
    decreases s.len(),
{
    if s.len() == 0 {
        Seq::empty()
    } else {
        let rest = spec_filter_keep(s.drop_last());
        if spec_keeps(s.last()) {
            rest.push(s.last())
        } else {
            rest
        }
    }
}

/// All export sources merged into one message stream, in source order.
pub open spec fn spec_flat_messages(es: Seq<ExportV>) -> Seq<MessageV>
    decreases es.len(),
{
    if es.len() == 0 {
        Seq::empty()
    } else {
        es[0].messages + spec_flat_messages(es.drop_first())
    }
}

proof fn lemma_flat_messages_push(es: Seq<ExportV>, e: ExportV)
    ensures
        spec_flat_messages(es.push(e)) == spec_flat_messages(es) + e.messages,
    decreases es.len(),
{
    if es.len() == 0 {
        assert(es.push(e)[0] == e);
        assert(es.push(e).drop_first() =~= Seq::<ExportV>::empty());
        assert(spec_flat_messages(Seq::<ExportV>::empty()) =~= Seq::<MessageV>::empty());
        assert(spec_flat_messages(es.push(e)) =~= spec_flat_messages(es) + e.messages);
    } else {
        lemma_flat_messages_push(es.drop_first(), e);
        assert(es.push(e).drop_first() =~= es.drop_first().push(e));
        assert(es.push(e)[0] == es[0]);
        assert(es[0].messages + (spec_flat_messages(es.drop_first()) + e.messages) =~= (
        es[0].messages + spec_flat_messages(es.drop_first())) + e.messages);
    }
}

/// A message's edited timestamp, the epoch when it was never edited.
pub open spec fn spec_edited0(m: MessageV) -> int {
    match m.edited {
        Some(e) => e,
        None => 0,
    }
}

/// Whether the second variant wins against the first: its (timestamp,
/// edited-timestamp) key is at least the first's, so a later equal-key
/// variant replaces an earlier one.
pub open spec fn spec_key_le(a: MessageV, b: MessageV) -> bool {
    a.date < b.date || (a.date == b.date && spec_edited0(a) <= spec_edited0(b))
}

/// The index of the first entry with the given message id, -1 when none has
/// it.
pub open spec fn spec_find_id(s: Seq<MessageV>, id: int) -> int
    decreases s.len(),
{
    if s.len() == 0 {
        -1
    } else if s[0].id == id {
        0
    } else {
        let r = spec_find_id(s.drop_first(), id);
        if r == -1 {
            -1
        } else {
            r + 1
        }
    }
}

pub proof fn lemma_find_id_props(s: Seq<MessageV>, id: int)
    ensures
        spec_find_id(s, id) == -1 <==> (forall|k: int| 0 <= k < s.len() ==> s[k].id != id),
        spec_find_id(s, id) != -1 ==> {
            let r = spec_find_id(s, id);
            &&& 0 <= r < s.len()
            &&& s[r].id == id
            &&& forall|k: int| 0 <= k < r ==> s[k].id != id
        },
    decreases s.len(),
{
    if s.len() == 0 {
    } else if s[0].id == id {
    } else {
        lemma_find_id_props(s.drop_first(), id);
        let r = spec_find_id(s.drop_first(), id);
        if r != -1 {
            assert(forall|k: int| 0 <= k < r ==> s.drop_first()[k].id != id);
            assert(forall|k: int| 1 <= k < r + 1 ==> s[k].id == s.drop_first()[k - 1].id);
        } else {
            assert(forall|k: int| 1 <= k < s.len() ==> s[k].id == s.drop_first()[k - 1].id);
        }
    }
}

/// One message per id: scanning left to right, a new id is appended and a
/// seen id is replaced in place when the new variant's key is at least the
/// stored one.
pub open spec fn spec_dedup(s: Seq<MessageV>) -> Seq<MessageV>
    decreases s.len(),
{
    if s.len() == 0 {
        Seq::empty()
    } else {
        let acc = spec_dedup(s.drop_last());
        let m = s.last();
        let i = spec_find_id(acc, m.id);
        if i == -1 {
            acc.push(m)
        } else if spec_key_le(acc[i], m) {
            acc.update(i, m)
        } else {
            acc
        }
    }
}

fn keeps(m: &Message) -> (r: bool)
    ensures
        r == spec_keeps(m.deep_view()),
{
    str_eq(&m.type_field, "message") && !m.has_contact_information
}

fn key_le(a: &Message, b: &Message) -> (r: bool)
    ensures
        r == spec_key_le(a.deep_view(), b.deep_view()),
{
    let ea: i64 = match a.edited {
        Some(e) => e,
        None => 0,
    };
    let eb: i64 = match b.edited {
        Some(e) => e,
        None => 0,
    };
    a.date < b.date || (a.date == b.date && ea <= eb)
}

/// The deduplication engine and its companion stages.
pub struct Categorizer {}

impl Categorizer {
    /// Merge all exports into one stream, keep only plain contact-free
    /// messages, and collapse edit-history duplicates: for each id the
    /// variant with the greatest (timestamp, edited-timestamp) key survives,
    /// the latest seen among equals.
    pub fn messages(exports: Vec<Export>) -> (r: Vec<Message>)
        ensures
            r.deep_view() == spec_dedup(
                spec_filter_keep(spec_flat_messages(exports.deep_view())),
            ),
    {
        let kept = Self::flat_filtered(exports);
        Self::dedup_messages(kept)
    }

    fn flat_filtered(exports: Vec<Export>) -> (r: Vec<Message>)
        ensures
            r.deep_view() == spec_filter_keep(spec_flat_messages(exports.deep_view())),
    {
        let ghost ev = exports.deep_view();
        let mut r: Vec<Message> = Vec::new();
        let mut i: usize = 0;
        while i < exports.len()
            invariant
                i <= exports.len(),
                ev == exports.deep_view(),
                r.deep_view() == spec_filter_keep(spec_flat_messages(ev.take(i as int))),
            decreases exports.len() - i,
        {
            let n = exports[i].messages.len();
            let mut j: usize = 0;
            while j < n
                invariant
                    j <= n,
                    i < exports.len(),
                    n == exports[i as int].messages.len(),
                    ev == exports.deep_view(),
                    r.deep_view() == spec_filter_keep(
                        spec_flat_messages(ev.take(i as int)) + ev[i as int].messages.take(
                            j as int,
                        ),
                    ),
                decreases n - j,
            {
                let ghost before = spec_flat_messages(ev.take(i as int))
                    + ev[i as int].messages.take(j as int);
                let ghost after = spec_flat_messages(ev.take(i as int))
                    + ev[i as int].messages.take(j + 1 as int);
                proof {
                    assert(ev[i as int].messages.take(j + 1 as int) =~= ev[i as int].messages.take(
                        j as int,
                    ).push(ev[i as int].messages[j as int]));
                    assert(after =~= before.push(ev[i as int].messages[j as int]));
                    assert(after.drop_last() =~= before);
                    assert(ev[i as int].messages[j as int] == exports[i as int].messages[
                        j as int].deep_view());
                }
                if keeps(&exports[i].messages[j]) {
                    r.push(exports[i].messages[j].clone());
                }
                j = j + 1;
            }
            proof {
                assert(ev.take(i + 1 as int) =~= ev.take(i as int).push(ev[i as int]));
                lemma_flat_messages_push(ev.take(i as int), ev[i as int]);
                assert(ev[i as int].messages.take(n as int) =~= ev[i as int].messages);
            }
            i = i + 1;
        }
        proof {
            assert(ev.take(exports.len() as int) =~= ev);
            assert(Seq::<MessageV>::empty() + spec_flat_messages(ev.take(0)) =~= spec_flat_messages(
                ev.take(0),
            ));
        }
        r
    }

    /// Collapse edit-history duplicates out of an already filtered stream.
    pub fn dedup_messages(msgs: Vec<Message>) -> (r: Vec<Message>)
        ensures
            r.deep_view() == spec_dedup(msgs.deep_view()),
    {
        let ghost mv = msgs.deep_view();
        let mut out: Vec<Message> = Vec::new();
        let mut i: usize = 0;
        while i < msgs.len()
            invariant
                i <= msgs.len(),
                mv == msgs.deep_view(),
                out.deep_view() == spec_dedup(mv.take(i as int)),
            decreases msgs.len() - i,
        {
            proof {
                assert(mv.take(i + 1 as int) =~= mv.take(i as int).push(mv[i as int]));
                assert(mv.take(i + 1 as int).drop_last() =~= mv.take(i as int));
            }
            let m = msgs[i].clone();
            let ghost acc = out.deep_view();
            match Self::find_by_id(&out, m.id) {
                None => {
                    proof {
                        lemma_find_id_props(acc, m.deep_view().id);
                    }
                    out.push(m);
                },
                Some(p) => {
                    proof {
                        lemma_find_id_props(acc, m.deep_view().id);
                        assert(spec_find_id(acc, m.deep_view().id) == p as int);
                    }
                    if key_le(&out[p], &m) {
                        out.remove(p);
                        out.insert(p, m);
                        proof {
                            assert(out.deep_view() =~= acc.update(p as int, mv[i as int]));
                        }
                    }
                },
            }
            i = i + 1;
        }
        proof {
            assert(mv.take(msgs.len() as int) =~= mv);
        }
        out
    }

    /// The index of the first stored message with the given id.
    fn find_by_id(out: &Vec<Message>, id: i64) -> (r: Option<usize>)
        ensures
            match r {
                None => forall|k: int|
                    0 <= k < out.deep_view().len() ==> (#[trigger] out.deep_view()[k]).id
                        != id as int,
                Some(p) => {
                    &&& p < out.len()
                    &&& out.deep_view()[p as int].id == id as int
                    &&& forall|k: int|
                        0 <= k < p ==> (#[trigger] out.deep_view()[k]).id != id as int
                },
            },
    {
        let mut j: usize = 0;
        while j < out.len()
            invariant
                j <= out.len(),
                forall|k: int| 0 <= k < j ==> (#[trigger] out.deep_view()[k]).id != id as int,
            decreases out.len() - j,
        {
            if out[j].id == id {
                return Some(j);
            }
            j = j + 1;
        }
        None
    }
}

/// One conversation thread's messages: the partition of the stream keyed by
/// the id a message replies to, messages with no reply target forming their
/// own partition.
#[derive(Debug, PartialEq)]
pub struct TopicGroup {
    pub topic: Option<i64>,
    pub messages: Vec<Message>,
}

/// The mathematical model of a topic partition.
#[verifier::ext_equal]
pub struct TopicGroupV {
    pub topic: Option<int>,
    pub messages: Seq<MessageV>,
}

impl DeepView for TopicGroup {
    type V = TopicGroupV;

    open spec fn deep_view(&self) -> TopicGroupV {
        TopicGroupV { topic: view_opt_int(self.topic), messages: self.messages.deep_view() }
    }
}

/// The index of the partition with the given topic, -1 when none has it.
pub open spec fn spec_find_topic(acc: Seq<TopicGroupV>, key: Option<int>) -> int
    decreases acc.len(),
{
    if acc.len() == 0 {
        -1
    } else if acc[0].topic == key {
        0
    } else {
        let r = spec_find_topic(acc.drop_first(), key);
        if r == -1 {
            -1
        } else {
            r + 1
        }
    }
}

pub(crate) proof fn lemma_find_topic_props(s: Seq<TopicGroupV>, key: Option<int>)
    ensures
        spec_find_topic(s, key) == -1 <==> (forall|k: int|
            0 <= k < s.len() ==> (#[trigger] s[k]).topic != key),
        spec_find_topic(s, key) != -1 ==> {
            let r = spec_find_topic(s, key);
            &&& 0 <= r < s.len()
            &&& s[r].topic == key
            &&& forall|k: int| 0 <= k < r ==> (#[trigger] s[k]).topic != key
        },
    decreases s.len(),
{
    if s.len() == 0 {
    } else if s[0].topic == key {
    } else {
        lemma_find_topic_props(s.drop_first(), key);
        let r = spec_find_topic(s.drop_first(), key);
        if r != -1 {
            assert(forall|k: int| 1 <= k < r + 1 ==> s[k] == s.drop_first()[k - 1]);
        } else {
            assert(forall|k: int| 1 <= k < s.len() ==> s[k] == s.drop_first()[k - 1]);
        }
    }
}

/// The partition of the stream by topic: scanning left to right, a message
/// joins the partition of its topic, in first-seen partition order, keeping
/// message order within each partition.
pub open spec fn spec_group_topics(s: Seq<MessageV>) -> Seq<TopicGroupV>
    decreases s.len(),
{
    if s.len() == 0 {
        Seq::empty()
    } else {
        let acc = spec_group_topics(s.drop_last());
        let m = s.last();
        let i = spec_find_topic(acc, m.reply_to_message_id);
        if i == -1 {
            acc.push(TopicGroupV { topic: m.reply_to_message_id, messages: seq![m] })
        } else {
            acc.update(
                i,
                TopicGroupV { topic: acc[i].topic, messages: acc[i].messages.push(m) },
            )
        }
    }
}

fn opt_i64_eq(a: &Option<i64>, b: &Option<i64>) -> (r: bool)
    ensures
        r == (view_opt_int(*a) == view_opt_int(*b)),
{
    match (a, b) {
        (None, None) => true,
        (Some(x), Some(y)) => *x == *y,
        _ => false,
    }
}

/// Ascending insertion of a message into an id-sorted sequence, before any
/// message with an equal id.
pub open spec fn spec_insert_by_id(m: MessageV, s: Seq<MessageV>) -> Seq<MessageV>
    decreases s.len(),
{
    if s.len() == 0 {
        seq![m]
    } else if s[0].id < m.id {
        seq![s[0]] + spec_insert_by_id(m, s.drop_first())
    } else {
        seq![m] + s
    }
}

/// Stable ascending insertion sort of messages by id.
pub open spec fn spec_sort_by_id(s: Seq<MessageV>) -> Seq<MessageV>
    decreases s.len(),
{
    if s.len() == 0 {
        Seq::empty()
    } else {
        spec_insert_by_id(s[0], spec_sort_by_id(s.drop_first()))
    }
}

proof fn lemma_insert_by_id_at(m: MessageV, s: Seq<MessageV>, p: int)
    requires
        0 <= p <= s.len(),
        forall|k: int| 0 <= k < p ==> (#[trigger] s[k]).id < m.id,
        p < s.len() ==> !(s[p].id < m.id),
    ensures
        spec_insert_by_id(m, s) == s.take(p) + seq![m] + s.skip(p),
    decreases p,
{
    if p == 0 {
        assert(spec_insert_by_id(m, s) =~= s.take(0) + seq![m] + s.skip(0));
    } else {
        assert(s[0].id < m.id);
        lemma_insert_by_id_at(m, s.drop_first(), p - 1);
        assert(s.drop_first().take(p - 1) =~= s.take(p).drop_first());
        assert(s.drop_first().skip(p - 1) =~= s.skip(p));
        assert(seq![s[0]] + (s.take(p).drop_first() + seq![m] + s.skip(p)) =~= s.take(p) + seq![m]
            + s.skip(p));
    }
}

fn insert_by_id(m: Message, r: &mut Vec<Message>)
    ensures
        final(r).deep_view() == spec_insert_by_id(m.deep_view(), old(r).deep_view()),
{
    let ghost rv = r.deep_view();
    let mut p: usize = 0;
    while p < r.len() && r[p].id < m.id
        invariant
            p <= r.len(),
            forall|k: int| 0 <= k < p ==> (#[trigger] rv[k]).id < m.deep_view().id,
            r.deep_view() == rv,
            r@ == old(r)@,
        decreases r.len() - p,
    {
        proof {
            assert(rv[p as int].id == r@[p as int].deep_view().id);
        }
        p = p + 1;
    }
    proof {
        if p < r.len() {
            assert(rv[p as int].id == r@[p as int].deep_view().id);
        }
        lemma_insert_by_id_at(m.deep_view(), rv, p as int);
    }
    r.insert(p, m);
    proof {
        assert(final(r).deep_view() =~= rv.take(p as int) + seq![m.deep_view()] + rv.skip(p as int));
    }
}

fn sort_by_id(msgs: &Vec<Message>) -> (r: Vec<Message>)
    ensures
        r.deep_view() == spec_sort_by_id(msgs.deep_view()),
{
    let ghost mv = msgs.deep_view();
    let mut r: Vec<Message> = Vec::new();
    let mut i: usize = msgs.len();
    proof {
        assert(mv.skip(msgs.len() as int) =~= Seq::<MessageV>::empty());
    }
    while i > 0
        invariant
            i <= msgs.len(),
            mv == msgs.deep_view(),
            r.deep_view() == spec_sort_by_id(mv.skip(i as int)),
        decreases i,
    {
        i = i - 1;
        insert_by_id(msgs[i].clone(), &mut r);
        proof {
            assert(mv.skip(i as int).drop_first() =~= mv.skip(i + 1 as int));
            assert(mv.skip(i as int)[0] == mv[i as int]);
        }
    }
    proof {
        assert(mv.skip(0) =~= mv);
    }
    r
}

/// A message that may extend an open photo run: it carries an image and no
/// text at all.
pub open spec fn spec_photo_only(m: MessageV) -> bool {
    spec_is_photo(m) && m.text_entities.len() == 0
}

/// The record an open group closes into: the header fields of its first
/// message, carrying the whole group.
pub open spec fn spec_rec_of_group(g: Seq<MessageV>) -> RecordV
    recommends
        g.len() > 0,
        spec_has_header(g[0]),
{
    let h = spec_header_of(g[0]);
    RecordV {
        date: h.date,
        tags: h.tags,
        person: h.person,
        messages: g,
        doctor: h.doctor,
        place: h.place,
    }
}

/// The records an open group yields when it is closed: none when it is
/// empty.
pub open spec fn spec_close(open: Seq<MessageV>) -> Seq<RecordV> {
    if open.len() == 0 {
        Seq::empty()
    } else {
        seq![spec_rec_of_group(open)]
    }
}

/// The record-assembly state machine, folded over the remaining messages
/// with the open group and the continuation state: a header message closes
/// the open group and starts a new one (continuing only when it carries a
/// photo); a photo-only message extends the group while continuation holds;
/// anything else closes the group and joins nothing.
pub open spec fn spec_asm(s: Seq<MessageV>, open: Seq<MessageV>, cont: bool) -> Seq<RecordV>
    decreases s.len(),
{
    if s.len() == 0 {
        spec_close(open)
    } else {
        let m = s[0];
        let rest = s.drop_first();
        if spec_has_header(m) {
            spec_close(open) + spec_asm(rest, seq![m], spec_is_photo(m))
        } else if spec_photo_only(m) && cont {
            spec_asm(rest, open.push(m), cont)
        } else {
            spec_close(open) + spec_asm(rest, Seq::empty(), false)
        }
    }
}

/// The records assembled out of one topic's messages, scanned in order.
pub open spec fn spec_assemble(s: Seq<MessageV>) -> Seq<RecordV> {
    spec_asm(s, Seq::empty(), false)
}

impl Categorizer {
    /// Partition deduplicated messages by the id they reply to, so that
    /// records never merge messages of unrelated conversation threads.
    pub fn group_by_topic(msgs: Vec<Message>) -> (r: Vec<TopicGroup>)
        ensures
            r.deep_view() == spec_group_topics(msgs.deep_view()),
    {
        let ghost mv = msgs.deep_view();
        let mut groups: Vec<TopicGroup> = Vec::new();
        let mut i: usize = 0;
        while i < msgs.len()
            invariant
                i <= msgs.len(),
                mv == msgs.deep_view(),
                groups.deep_view() == spec_group_topics(mv.take(i as int)),
            decreases msgs.len() - i,
        {
            proof {
                assert(mv.take(i + 1 as int) =~= mv.take(i as int).push(mv[i as int]));
                assert(mv.take(i + 1 as int).drop_last() =~= mv.take(i as int));
            }
            let m = msgs[i].clone();
            let ghost acc = groups.deep_view();
            match Self::find_topic(&groups, &m.reply_to_message_id) {
                None => {
                    proof {
                        lemma_find_topic_props(acc, m.deep_view().reply_to_message_id);
                    }
                    let mut ms: Vec<Message> = Vec::new();
                    ms.push(m);
                    let topic = TopicGroup { topic: msgs[i].reply_to_message_id, messages: ms };
                    proof {
                        assert(topic.deep_view().messages =~= seq![mv[i as int]]);
                    }
                    groups.push(topic);
                    proof {
                        assert(groups.deep_view() =~~= acc.push(
                            TopicGroupV {
                                topic: mv[i as int].reply_to_message_id,
                                messages: seq![mv[i as int]],
                            },
                        ));
                    }
                },
                Some(p) => {
                    proof {
                        lemma_find_topic_props(acc, m.deep_view().reply_to_message_id);
                        assert(spec_find_topic(acc, m.deep_view().reply_to_message_id) == p as int);
                    }
                    let mut g = groups.remove(p);
                    g.messages.push(m);
                    proof {
                        assert(g.deep_view().messages =~= acc[p as int].messages.push(
                            mv[i as int],
                        ));
                    }
                    groups.insert(p, g);
                    proof {
                        assert(groups.deep_view() =~~= acc.update(
                            p as int,
                            TopicGroupV {
                                topic: acc[p as int].topic,
                                messages: acc[p as int].messages.push(mv[i as int]),
                            },
                        ));
                    }
                },
            }
            i = i + 1;
        }
        proof {
            assert(mv.take(msgs.len() as int) =~= mv);
        }
        groups
    }

    /// The index of the partition with the given topic.
    fn find_topic(groups: &Vec<TopicGroup>, key: &Option<i64>) -> (r: Option<usize>)
        ensures
            match r {
                None => forall|k: int|
                    0 <= k < groups.deep_view().len() ==> (#[trigger] groups.deep_view()[k]).topic
                        != view_opt_int(*key),
                Some(p) => {
                    &&& p < groups.len()
                    &&& groups.deep_view()[p as int].topic == view_opt_int(*key)
                    &&& forall|k: int|
                        0 <= k < p ==> (#[trigger] groups.deep_view()[k]).topic != view_opt_int(
                            *key,
                        )
                },
            },
    {
        let mut j: usize = 0;
        while j < groups.len()
            invariant
                j <= groups.len(),
                forall|k: int|
                    0 <= k < j ==> (#[trigger] groups.deep_view()[k]).topic != view_opt_int(*key),
            decreases groups.len() - j,
        {
            if opt_i64_eq(&groups[j].topic, key) {
                proof {
                    assert(groups.deep_view()[j as int].topic == view_opt_int(
                        groups@[j as int].topic,
                    ));
                }
                return Some(j);
            }
            proof {
                assert(groups.deep_view()[j as int].topic == view_opt_int(groups@[j as int].topic));
            }
            j = j + 1;
        }
        None
    }

    /// Fold one topic's messages, re-sorted ascending by id, into records.
    pub fn group_messages(msgs: Vec<Message>) -> (r: Vec<Record>)
        ensures
            r.deep_view() == spec_assemble(spec_sort_by_id(msgs.deep_view())),
    {
        let sorted = sort_by_id(&msgs);
        let ghost full = sorted.deep_view();
        let mut records: Vec<Record> = Vec::new();
        let mut group: Vec<Message> = Vec::new();
        let mut continue_group: bool = false;
        let mut i: usize = 0;
        proof {
            assert(full.skip(0) =~= full);
            assert(records.deep_view() + spec_asm(full, group.deep_view(), false) =~= spec_asm(
                full,
                Seq::<MessageV>::empty(),
                false,
            ));
        }
        while i < sorted.len()
            invariant
                i <= sorted.len(),
                full == sorted.deep_view(),
                group.deep_view().len() > 0 ==> spec_has_header(group.deep_view()[0]),
                continue_group ==> group.deep_view().len() > 0,
                spec_assemble(full) == records.deep_view() + spec_asm(
                    full.skip(i as int),
                    group.deep_view(),
                    continue_group,
                ),
            decreases sorted.len() - i,
        {
            proof {
                assert(full.skip(i as int).drop_first() =~= full.skip(i + 1 as int));
                assert(full.skip(i as int)[0] == full[i as int]);
            }
            let ghost open = group.deep_view();
            let ghost recs_before = records.deep_view();
            let ghost cont_before = continue_group;
            let m = sorted[i].clone();
            let has_rec = m.has_record();
            let to_push: bool;
            let close_prev: bool;
            if has_rec {
                to_push = true;
                close_prev = true;
                continue_group = m.is_photo();
            } else if m.is_photo() && m.is_text_empty() && continue_group {
                to_push = true;
                close_prev = false;
            } else {
                to_push = false;
                close_prev = true;
                continue_group = false;
            }
            if close_prev && group.len() > 0 {
                let rec = Self::group_to_record(group);
                records.push(rec);
                group = Vec::new();
                proof {
                    assert(records.deep_view() =~= recs_before + spec_close(open));
                }
            }
            proof {
                if close_prev && open.len() == 0 {
                    assert(records.deep_view() =~= recs_before + spec_close(open));
                }
            }
            if to_push {
                group.push(m);
            }
            proof {
                let mvi = full[i as int];
                if has_rec {
                    assert(group.deep_view() =~= seq![mvi]);
                    assert(spec_asm(full.skip(i as int), open, cont_before) == spec_close(open)
                        + spec_asm(full.skip(i + 1 as int), seq![mvi], spec_is_photo(mvi)));
                    assert(records.deep_view() + spec_asm(
                        full.skip(i + 1 as int),
                        group.deep_view(),
                        continue_group,
                    ) =~= recs_before + spec_asm(full.skip(i as int), open, cont_before));
                } else if to_push {
                    assert(group.deep_view() =~= open.push(mvi));
                    assert(spec_asm(full.skip(i as int), open, cont_before) == spec_asm(
                        full.skip(i + 1 as int),
                        open.push(mvi),
                        cont_before,
                    ));
                } else {
                    assert(group.deep_view() =~= Seq::<MessageV>::empty());
                    assert(spec_asm(full.skip(i as int), open, cont_before) == spec_close(open)
                        + spec_asm(full.skip(i + 1 as int), Seq::<MessageV>::empty(), false));
                    assert(records.deep_view() + spec_asm(
                        full.skip(i + 1 as int),
                        group.deep_view(),
                        continue_group,
                    ) =~= recs_before + spec_asm(full.skip(i as int), open, cont_before));
                }
            }
            i = i + 1;
        }
        if group.len() > 0 {
            let ghost open = group.deep_view();
            let ghost recs_before = records.deep_view();
            let rec = Self::group_to_record(group);
            records.push(rec);
            proof {
                assert(full.skip(sorted.len() as int) =~= Seq::<MessageV>::empty());
                assert(records.deep_view() =~= recs_before + spec_close(open));
            }
        } else {
            proof {
                assert(full.skip(sorted.len() as int) =~= Seq::<MessageV>::empty());
                assert(records.deep_view() + spec_close(group.deep_view()) =~= records.deep_view());
            }
        }
        records
    }

    /// Close an open group into a record: the header fields come from the
    /// group's first message, the messages are the whole group.
    fn group_to_record(group: Vec<Message>) -> (r: Record)
        requires
            group.deep_view().len() > 0,
            spec_has_header(group.deep_view()[0]),
        ensures
            r.deep_view() == spec_rec_of_group(group.deep_view()),
    {
        let mut rec = match group[0].get_record() {
            Ok(rec) => rec,
            Err(_) => unreached(),
        };
        rec.messages = group;
        proof {
            assert(rec.deep_view() =~= spec_rec_of_group(rec.messages.deep_view()));
        }
        rec
    }
}

/// One person's records, newest first.
#[derive(Debug, PartialEq)]
pub struct PersonRecords {
    pub person: String,
    pub records: Vec<Record>,
}

/// The mathematical model of a person's records.
#[verifier::ext_equal]
pub struct PersonRecordsV {
    pub person: Seq<char>,
    pub records: Seq<RecordV>,
}

impl DeepView for PersonRecords {
    type V = PersonRecordsV;

    open spec fn deep_view(&self) -> PersonRecordsV {
        PersonRecordsV { person: self.person@, records: self.records.deep_view() }
    }
}

/// All records assembled out of all topic partitions, in partition order.
pub open spec fn spec_flatten_records(ts: Seq<TopicGroupV>) -> Seq<RecordV>
    decreases ts.len(),
{
    if ts.len() == 0 {
        Seq::empty()
    } else {
        spec_assemble(spec_sort_by_id(ts[0].messages)) + spec_flatten_records(ts.drop_first())
    }
}

proof fn lemma_flatten_records_push(ts: Seq<TopicGroupV>, t: TopicGroupV)
    ensures
        spec_flatten_records(ts.push(t)) == spec_flatten_records(ts) + spec_assemble(
            spec_sort_by_id(t.messages),
        ),
    decreases ts.len(),
{
    if ts.len() == 0 {
        assert(ts.push(t)[0] == t);
        assert(ts.push(t).drop_first() =~= Seq::<TopicGroupV>::empty());
        assert(spec_flatten_records(Seq::<TopicGroupV>::empty()) =~= Seq::<RecordV>::empty());
        assert(spec_flatten_records(ts.push(t)) =~= spec_flatten_records(ts) + spec_assemble(
            spec_sort_by_id(t.messages),
        ));
    } else {
        lemma_flatten_records_push(ts.drop_first(), t);
        assert(ts.push(t).drop_first() =~= ts.drop_first().push(t));
        assert(ts.push(t)[0] == ts[0]);
        let head = spec_assemble(spec_sort_by_id(ts[0].messages));
        assert(head + (spec_flatten_records(ts.drop_first()) + spec_assemble(
            spec_sort_by_id(t.messages),
        )) =~= (head + spec_flatten_records(ts.drop_first())) + spec_assemble(
            spec_sort_by_id(t.messages),
        ));
    }
}

/// Descending insertion of a record into a date-sorted sequence, before any
/// record whose date is not later.
pub open spec fn spec_insert_rec_desc(r: RecordV, s: Seq<RecordV>) -> Seq<RecordV>
    decreases s.len(),
{
    if s.len() == 0 {
        seq![r]
    } else if spec_str_lt(r.date, s[0].date) {
        seq![s[0]] + spec_insert_rec_desc(r, s.drop_first())
    } else {
        seq![r] + s
    }
}

/// Stable descending insertion sort of records by their date string.
pub open spec fn spec_sort_desc_by_date(s: Seq<RecordV>) -> Seq<RecordV>
    decreases s.len(),
{
    if s.len() == 0 {
        Seq::empty()
    } else {
        spec_insert_rec_desc(s[0], spec_sort_desc_by_date(s.drop_first()))
    }
}

proof fn lemma_insert_rec_desc_at(r: RecordV, s: Seq<RecordV>, p: int)
    requires
        0 <= p <= s.len(),
        forall|k: int| 0 <= k < p ==> spec_str_lt(r.date, (#[trigger] s[k]).date),
        p < s.len() ==> !spec_str_lt(r.date, s[p].date),
    ensures
        spec_insert_rec_desc(r, s) == s.take(p) + seq![r] + s.skip(p),
    decreases p,
{
    if p == 0 {
        assert(spec_insert_rec_desc(r, s) =~= s.take(0) + seq![r] + s.skip(0));
    } else {
        assert(spec_str_lt(r.date, s[0].date));
        lemma_insert_rec_desc_at(r, s.drop_first(), p - 1);
        assert(s.drop_first().take(p - 1) =~= s.take(p).drop_first());
        assert(s.drop_first().skip(p - 1) =~= s.skip(p));
        assert(seq![s[0]] + (s.take(p).drop_first() + seq![r] + s.skip(p)) =~= s.take(p) + seq![r]
            + s.skip(p));
    }
}

fn insert_rec_desc(rec: Record, r: &mut Vec<Record>)
    ensures
        final(r).deep_view() == spec_insert_rec_desc(rec.deep_view(), old(r).deep_view()),
{
    let ghost rv = r.deep_view();
    let mut p: usize = 0;
    while p < r.len() && str_lt(&rec.date, &r[p].date)
        invariant
            p <= r.len(),
            forall|k: int| 0 <= k < p ==> spec_str_lt(rec.deep_view().date, (#[trigger] rv[k]).date),
            r.deep_view() == rv,
            r@ == old(r)@,
        decreases r.len() - p,
    {
        proof {
            assert(rv[p as int].date == r@[p as int].deep_view().date);
        }
        p = p + 1;
    }
    proof {
        if p < r.len() {
            assert(rv[p as int].date == r@[p as int].deep_view().date);
        }
        lemma_insert_rec_desc_at(rec.deep_view(), rv, p as int);
    }
    r.insert(p, rec);
    proof {
        assert(final(r).deep_view() =~= rv.take(p as int) + seq![rec.deep_view()] + rv.skip(
            p as int,
        ));
    }
}

/// The index of the person entry with the given name, -1 when none has it.
pub open spec fn spec_find_person(acc: Seq<PersonRecordsV>, name: Seq<char>) -> int
    decreases acc.len(),
{
    if acc.len() == 0 {
        -1
    } else if acc[0].person == name {
        0
    } else {
        let r = spec_find_person(acc.drop_first(), name);
        if r == -1 {
            -1
        } else {
            r + 1
        }
    }
}

proof fn lemma_find_person_props(s: Seq<PersonRecordsV>, name: Seq<char>)
    ensures
        spec_find_person(s, name) == -1 <==> (forall|k: int|
            0 <= k < s.len() ==> (#[trigger] s[k]).person != name),
        spec_find_person(s, name) != -1 ==> {
            let r = spec_find_person(s, name);
            &&& 0 <= r < s.len()
            &&& s[r].person == name
            &&& forall|k: int| 0 <= k < r ==> (#[trigger] s[k]).person != name
        },
    decreases s.len(),
{
    if s.len() == 0 {
    } else if s[0].person == name {
    } else {
        lemma_find_person_props(s.drop_first(), name);
        let r = spec_find_person(s.drop_first(), name);
        if r != -1 {
            assert(forall|k: int| 1 <= k < r + 1 ==> s[k] == s.drop_first()[k - 1]);
        } else {
            assert(forall|k: int| 1 <= k < s.len() ==> s[k] == s.drop_first()[k - 1]);
        }
    }
}

/// The per-person index of a record stream: scanning left to right, a record
/// joins its owner's list, owners in first-seen order, keeping record order
/// within each owner.
pub open spec fn spec_group_persons(s: Seq<RecordV>) -> Seq<PersonRecordsV>
    decreases s.len(),
{
    if s.len() == 0 {
        Seq::empty()
    } else {
        let acc = spec_group_persons(s.drop_last());
        let r = s.last();
        let i = spec_find_person(acc, r.person);
        if i == -1 {
            acc.push(PersonRecordsV { person: r.person, records: seq![r] })
        } else {
            acc.update(
                i,
                PersonRecordsV { person: acc[i].person, records: acc[i].records.push(r) },
            )
        }
    }
}

impl Categorizer {
    /// Assemble every topic partition, order all records newest first by
    /// their date string, and group them by owning person.
    pub fn person_records(grouped: Vec<TopicGroup>) -> (r: Vec<PersonRecords>)
        ensures
            r.deep_view() == spec_group_persons(
                spec_sort_desc_by_date(spec_flatten_records(grouped.deep_view())),
            ),
    {
        let ghost gv = grouped.deep_view();
        let mut all: Vec<Record> = Vec::new();
        let mut i: usize = 0;
        while i < grouped.len()
            invariant
                i <= grouped.len(),
                gv == grouped.deep_view(),
                all.deep_view() == spec_flatten_records(gv.take(i as int)),
            decreases grouped.len() - i,
        {
            let msgs = clone_messages(&grouped[i].messages);
            let mut recs = Self::group_messages(msgs);
            let ghost all_before = all.deep_view();
            let ghost recs_v = recs.deep_view();
            all.append(&mut recs);
            proof {
                assert(all.deep_view() =~= all_before + recs_v);
                assert(gv.take(i + 1 as int) =~= gv.take(i as int).push(gv[i as int]));
                lemma_flatten_records_push(gv.take(i as int), gv[i as int]);
                assert(grouped@[i as int].messages.deep_view() == gv[i as int].messages);
            }
            i = i + 1;
        }
        proof {
            assert(gv.take(grouped.len() as int) =~= gv);
        }
        let ghost av = all.deep_view();
        let mut sorted: Vec<Record> = Vec::new();
        let mut j: usize = all.len();
        proof {
            assert(av.skip(all.len() as int) =~= Seq::<RecordV>::empty());
        }
        while j > 0
            invariant
                j <= all.len(),
                av == all.deep_view(),
                sorted.deep_view() == spec_sort_desc_by_date(av.skip(j as int)),
            decreases j,
        {
            j = j - 1;
            insert_rec_desc(all[j].clone(), &mut sorted);
            proof {
                assert(av.skip(j as int).drop_first() =~= av.skip(j + 1 as int));
                assert(av.skip(j as int)[0] == av[j as int]);
            }
        }
        proof {
            assert(av.skip(0) =~= av);
        }
        let ghost sv = sorted.deep_view();
        let mut persons: Vec<PersonRecords> = Vec::new();
        let mut k: usize = 0;
        while k < sorted.len()
            invariant
                k <= sorted.len(),
                sv == sorted.deep_view(),
                persons.deep_view() == spec_group_persons(sv.take(k as int)),
            decreases sorted.len() - k,
        {
            proof {
                assert(sv.take(k + 1 as int) =~= sv.take(k as int).push(sv[k as int]));
                assert(sv.take(k + 1 as int).drop_last() =~= sv.take(k as int));
            }
            let rec = sorted[k].clone();
            let ghost acc = persons.deep_view();
            match Self::find_person(&persons, &rec.person) {
                None => {
                    proof {
                        lemma_find_person_props(acc, rec.deep_view().person);
                    }
                    let name = rec.person.clone();
                    let mut rs: Vec<Record> = Vec::new();
                    rs.push(rec);
                    let entry = PersonRecords { person: name, records: rs };
                    proof {
                        assert(entry.deep_view().records =~= seq![sv[k as int]]);
                    }
                    persons.push(entry);
                    proof {
                        assert(persons.deep_view() =~~= acc.push(
                            PersonRecordsV { person: sv[k as int].person, records: seq![sv[k as int]] },
                        ));
                    }
                },
                Some(p) => {
                    proof {
                        lemma_find_person_props(acc, rec.deep_view().person);
                        assert(spec_find_person(acc, rec.deep_view().person) == p as int);
                    }
                    let mut entry = persons.remove(p);
                    entry.records.push(rec);
                    proof {
                        assert(entry.deep_view().records =~= acc[p as int].records.push(
                            sv[k as int],
                        ));
                    }
                    persons.insert(p, entry);
                    proof {
                        assert(persons.deep_view() =~~= acc.update(
                            p as int,
                            PersonRecordsV {
                                person: acc[p as int].person,
                                records: acc[p as int].records.push(sv[k as int]),
                            },
                        ));
                    }
                },
            }
            k = k + 1;
        }
        proof {
            assert(sv.take(sorted.len() as int) =~= sv);
        }
        persons
    }

    /// The index of the person entry with the given name.
    fn find_person(persons: &Vec<PersonRecords>, name: &String) -> (r: Option<usize>)
        ensures
            match r {
                None => forall|k: int|
                    0 <= k < persons.deep_view().len() ==> (
                    #[trigger] persons.deep_view()[k]).person != name@,
                Some(p) => {
                    &&& p < persons.len()
                    &&& persons.deep_view()[p as int].person == name@
                    &&& forall|k: int|
                        0 <= k < p ==> (#[trigger] persons.deep_view()[k]).person != name@
                },
            },
    {
        let mut j: usize = 0;
        while j < persons.len()
            invariant
                j <= persons.len(),
                forall|k: int|
                    0 <= k < j ==> (#[trigger] persons.deep_view()[k]).person != name@,
            decreases persons.len() - j,
        {
            if str_eq(&persons[j].person, name.as_str()) {
                proof {
                    assert(persons.deep_view()[j as int].person == persons@[j as int].person@);
                }
                return Some(j);
            }
            proof {
                assert(persons.deep_view()[j as int].person == persons@[j as int].person@);
            }
            j = j + 1;
        }
        None
    }

    /// The whole engine: deduplicate the exports' merged stream, partition it
    /// by topic, assemble records, and index them by person, newest first.
    pub fn process_exports(exports: Vec<Export>) -> (r: Vec<PersonRecords>)
        ensures
            r.deep_view() == spec_group_persons(
                spec_sort_desc_by_date(
                    spec_flatten_records(
                        spec_group_topics(
                            spec_dedup(spec_filter_keep(spec_flat_messages(exports.deep_view()))),
                        ),
                    ),
                ),
            ),
    {
        let msgs = Self::messages(exports);
        let grouped = Self::group_by_topic(msgs);
        Self::person_records(grouped)
    }
}

} // verus!
