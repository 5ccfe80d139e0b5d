//! The table of contents: an ordered list of records with their rendered
//! page counts, the running page offsets a shift induces, and the HTML the
//! table renders to.

use vstd::prelude::*;
use vstd::string::*;

use crate::strutil::{
    i64_to_string, join_strings, spec_i64_str, spec_join, spec_u64_str, u64_to_string,
};
use crate::structs::{Record, RecordV};

verus! {

/// One table-of-contents entry: a record and the page count its rendered
/// output contributes.
#[derive(Debug, PartialEq)]
pub struct TocItem {
    pub pages: u8,
    pub record: Record,
}

/// The mathematical model of a table-of-contents entry.
#[verifier::ext_equal]
pub struct TocItemV {
    pub pages: int,
    pub record: RecordV,
}

impl DeepView for TocItem {
    type V = TocItemV;

    open spec fn deep_view(&self) -> TocItemV {
        TocItemV { pages: self.pages as int, record: self.record.deep_view() }
    }
}

/// The table of contents of one person's document.
#[derive(Debug, PartialEq)]
pub struct Toc {
    pub chat_id: i64,
    pub items: Vec<TocItem>,
}

/// The pages all entries contribute together.
pub open spec fn spec_pages_sum(items: Seq<TocItemV>) -> int
    decreases items.len(),
{
    if items.len() == 0 {
        0
    } else {
        spec_pages_sum(items.drop_last()) + items.last().pages
    }
}

pub proof fn lemma_pages_sum_split(items: Seq<TocItemV>, i: int)
    requires
        0 <= i <= items.len(),
    ensures
        spec_pages_sum(items) == spec_pages_sum(items.take(i)) + spec_pages_sum(items.skip(i)),
    decreases items.len() - i,
{
    if i == items.len() {
        assert(items.take(i) =~= items);
        assert(items.skip(i) =~= Seq::<TocItemV>::empty());
    } else {
        lemma_pages_sum_split(items, i + 1);
        assert(items.take(i + 1).drop_last() =~= items.take(i));
        assert(items.take(i + 1).last() == items[i]);
        lemma_pages_sum_skip(items, i);
    }
}

proof fn lemma_pages_sum_skip(items: Seq<TocItemV>, i: int)
    requires
        0 <= i < items.len(),
    ensures
        spec_pages_sum(items.skip(i)) == items[i].pages + spec_pages_sum(items.skip(i + 1)),
    decreases items.len() - i,
{
    if i + 1 == items.len() {
        assert(items.skip(i) =~= Seq::<TocItemV>::empty().push(items[i]));
        assert(items.skip(i + 1) =~= Seq::<TocItemV>::empty());
        assert(items.skip(i).drop_last() =~= Seq::<TocItemV>::empty());
    } else {
        lemma_pages_sum_skip(items.drop_last(), i);
        assert(items.drop_last().skip(i) =~= items.skip(i).drop_last());
        assert(items.drop_last().skip(i + 1) =~= items.skip(i + 1).drop_last());
        assert(items.drop_last()[i] == items[i]);
        assert(spec_pages_sum(items.skip(i)) == spec_pages_sum(items.skip(i).drop_last())
            + items.skip(i).last().pages);
        assert(items.skip(i).last() == items.last());
        assert(spec_pages_sum(items.skip(i + 1)) == spec_pages_sum(items.skip(i + 1).drop_last())
            + items.skip(i + 1).last().pages);
        assert(items.skip(i + 1).last() == items.last());
    }
}

pub proof fn lemma_pages_sum_nonneg(items: Seq<TocItemV>)
    requires
        forall|k: int| 0 <= k < items.len() ==> (#[trigger] items[k]).pages >= 0,
    ensures
        spec_pages_sum(items) >= 0,
    decreases items.len(),
{
    if items.len() > 0 {
        lemma_pages_sum_nonneg(items.drop_last());
    }
}

/// The id shown for an entry: its record's first message id, zero for an
/// empty record.
pub open spec fn spec_first_id(r: RecordV) -> int {
    if r.messages.len() > 0 {
        r.messages[0].id
    } else {
        0
    }
}

/// An optional detail rendered as a small-font block, empty when absent.
pub open spec fn spec_opt_div(o: Option<Seq<char>>) -> Seq<char> {
    match o {
        Some(s) => "<div class='small-font'>"@ + s + "</div>"@,
        None => Seq::empty(),
    }
}

fn opt_div(o: &Option<String>) -> (r: String)
    ensures
        r@ == spec_opt_div(crate::structs::view_opt_str(*o)),
{
    match o {
        Some(s) => {
            let mut r = String::new();
            r.append("<div class='small-font'>");
            r.append(s.as_str());
            r.append("</div>");
            proof {
                assert(r@ =~= spec_opt_div(Some(s@)));
            }
            r
        },
        None => String::new(),
    }
}

/// One table row: running index, date with a deep link to the record's first
/// message, place, tags and doctor, and the record's starting page.
pub open spec fn spec_toc_row(chat_id: int, idx1: int, item: TocItemV, page: int) -> Seq<char> {
    "\n                        <tr>\n                            <td>"@ + spec_u64_str(idx1)
        + "</td>\n                            <td>"@ + item.record.date
        + "<div class=\"message-id\"><a href=\"https://t.me/c/"@ + spec_i64_str(chat_id) + "/"@
        + spec_i64_str(spec_first_id(item.record)) + "\">"@ + spec_i64_str(
        spec_first_id(item.record),
    ) + "</div></td>\n                            <td style=\"width: 100%\">\n                                "@
        + spec_opt_div(item.record.place) + "\n                                <ul><li>"@
        + spec_join(item.record.tags, "</li><li>"@)
        + "</li></ul>\n                                "@ + spec_opt_div(item.record.doctor)
        + "\n                            </td>\n                            <td style=\"text-align: right\">"@
        + spec_u64_str(page)
        + "</td>\n                        </tr>\n                    "@
}

fn toc_row(chat_id: i64, idx1: u64, item: &TocItem, page: u64) -> (r: String)
    ensures
        r@ == spec_toc_row(chat_id as int, idx1 as int, item.deep_view(), page as int),
{
    let first_id = item.record.first_message_id();
    let mut r = String::new();
    r.append("\n                        <tr>\n                            <td>");
    let idx_str = u64_to_string(idx1);
    r.append(idx_str.as_str());
    r.append("</td>\n                            <td>");
    r.append(item.record.date.as_str());
    r.append("<div class=\"message-id\"><a href=\"https://t.me/c/");
    let chat_str = i64_to_string(chat_id);
    r.append(chat_str.as_str());
    r.append("/");
    let id_str = i64_to_string(first_id);
    r.append(id_str.as_str());
    r.append("\">");
    r.append(id_str.as_str());
    r.append(
        "</div></td>\n                            <td style=\"width: 100%\">\n                                ",
    );
    let place = opt_div(&item.record.place);
    r.append(place.as_str());
    r.append("\n                                <ul><li>");
    let tags = join_strings(&item.record.tags, "</li><li>");
    r.append(tags.as_str());
    r.append("</li></ul>\n                                ");
    let doctor = opt_div(&item.record.doctor);
    r.append(doctor.as_str());
    r.append(
        "\n                            </td>\n                            <td style=\"text-align: right\">",
    );
    let page_str = u64_to_string(page);
    r.append(page_str.as_str());
    r.append("</td>\n                        </tr>\n                    ");
    proof {
        assert(r@ =~= spec_toc_row(chat_id as int, idx1 as int, item.deep_view(), page as int));
    }
    r
}

/// The rows from a point on: the first remaining entry is shown with the
/// given 1-based index and starts one page past the pages already taken.
pub open spec fn spec_toc_rows(chat_id: int, items: Seq<TocItemV>, idx1: int, cur: int) -> Seq<
    char,
>
    decreases items.len(),
{
    if items.len() == 0 {
        Seq::empty()
    } else {
        spec_toc_row(chat_id, idx1, items[0], cur + 1) + spec_toc_rows(
            chat_id,
            items.drop_first(),
            idx1 + 1,
            cur + items[0].pages,
        )
    }
}

/// The whole table: a fixed head row, then one row per entry, walked in
/// append order from the given shift.
pub open spec fn spec_toc_html(chat_id: int, items: Seq<TocItemV>, shift: int) -> Seq<char> {
    "\n            <table class=\"table table-striped table-sm\">\n                <tr class=\"thead-dark\">\n                    <th style=\"text-align: left\">#</th>\n                    <th style=\"text-align: left\">date</th>\n                    <th style=\"width: 100%; text-align: left\">info</th>\n                    <th style=\"text-align: right\">#</th>\n                </tr>\n                "@
        + spec_toc_rows(chat_id, items, 1, shift)
        + "\n            </table>\n            "@
}

impl Toc {
    /// An empty table of contents for a chat.
    pub fn new(chat_id: i64) -> (r: Toc)
        ensures
            r.chat_id == chat_id,
            r.items.deep_view() == Seq::<TocItemV>::empty(),
    {
        Self::new_from(chat_id, Vec::new())
    }

    /// A table of contents over the given entries.
    pub fn new_from(chat_id: i64, toc_items: Vec<TocItem>) -> (r: Toc)
        ensures
            r.chat_id == chat_id,
            r.items.deep_view() == toc_items.deep_view(),
    {
        Toc { chat_id, items: toc_items }
    }

    /// Append entries in order.
    pub fn append(&mut self, toc_items: Vec<TocItem>)
        ensures
            final(self).chat_id == old(self).chat_id,
            final(self).items.deep_view() == old(self).items.deep_view() + toc_items.deep_view(),
    {
        let mut other = toc_items;
        let ghost before = self.items.deep_view();
        let ghost added = other.deep_view();
        self.items.append(&mut other);
        proof {
            assert(self.items.deep_view() =~= before + added);
        }
    }

    /// The starting page of every entry under the given shift: the pages of
    /// the entries before it, plus the shift, plus one.
    pub fn page_offsets(&self, shift: u8) -> (r: Vec<u8>)
        requires
            shift as int + spec_pages_sum(self.items.deep_view()) <= 255,
            forall|k: int|
                0 <= k < self.items.deep_view().len() ==> (#[trigger] self.items.deep_view()[k]).pages
                    >= 1,
        ensures
            r@.len() == self.items.deep_view().len(),
            forall|k: int|
                0 <= k < r@.len() ==> r@[k] as int == shift as int + spec_pages_sum(
                    self.items.deep_view().take(k),
                ) + 1,
    {
        let ghost iv = self.items.deep_view();
        let mut r: Vec<u8> = Vec::new();
        let mut current: u8 = shift;
        let mut i: usize = 0;
        proof {
            assert(iv.take(0) =~= Seq::<TocItemV>::empty());
        }
        while i < self.items.len()
            invariant
                i <= self.items.len(),
                iv == self.items.deep_view(),
                shift as int + spec_pages_sum(iv) <= 255,
                forall|k: int| 0 <= k < iv.len() ==> (#[trigger] iv[k]).pages >= 1,
                current as int == shift as int + spec_pages_sum(iv.take(i as int)),
                r@.len() == i,
                forall|k: int|
                    0 <= k < i ==> r@[k] as int == shift as int + spec_pages_sum(iv.take(k)) + 1,
            decreases self.items.len() - i,
        {
            proof {
                assert(iv.take(i + 1 as int).drop_last() =~= iv.take(i as int));
                assert(iv.take(i + 1 as int).last() == iv[i as int]);
                lemma_pages_sum_split(iv, i + 1 as int);
                assert(forall|k: int|
                    0 <= k < iv.skip(i + 1 as int).len() ==> (#[trigger] iv.skip(i + 1 as int)[k])
                        == iv[k + i + 1]);
                assert(forall|k: int|
                    0 <= k < iv.skip(i + 1 as int).len() ==> (#[trigger] iv.skip(
                        i + 1 as int,
                    )[k]).pages >= 0);
                lemma_pages_sum_nonneg(iv.skip(i + 1 as int));
                assert(forall|k: int|
                    0 <= k < iv.take(i as int).len() ==> (#[trigger] iv.take(i as int)[k]).pages
                        >= 0);
                lemma_pages_sum_nonneg(iv.take(i as int));
            }
            current = current + self.items[i].pages;
            r.push(current - self.items[i].pages + 1);
            i = i + 1;
        }
        r
    }

    /// The page on which the document ends: the shift plus every entry's
    /// pages.
    pub fn total_pages(&self, shift: u8) -> (r: u8)
        requires
            shift as int + spec_pages_sum(self.items.deep_view()) <= 255,
        ensures
            r as int == shift as int + spec_pages_sum(self.items.deep_view()),
    {
        let ghost iv = self.items.deep_view();
        let mut current: u8 = shift;
        let mut i: usize = 0;
        proof {
            assert(iv.take(0) =~= Seq::<TocItemV>::empty());
        }
        while i < self.items.len()
            invariant
                i <= self.items.len(),
                iv == self.items.deep_view(),
                shift as int + spec_pages_sum(iv) <= 255,
                current as int == shift as int + spec_pages_sum(iv.take(i as int)),
            decreases self.items.len() - i,
        {
            proof {
                assert(iv.take(i + 1 as int).drop_last() =~= iv.take(i as int));
                assert(iv.take(i + 1 as int).last() == iv[i as int]);
                lemma_pages_sum_split(iv, i + 1 as int);
                assert(forall|k: int|
                    0 <= k < iv.skip(i + 1 as int).len() ==> (#[trigger] iv.skip(
                        i + 1 as int,
                    )[k]).pages >= 0);
                lemma_pages_sum_nonneg(iv.skip(i + 1 as int));
            }
            current = current + self.items[i].pages;
            i = i + 1;
        }
        proof {
            assert(iv.take(self.items.len() as int) =~= iv);
        }
        current
    }

    /// The fixed two-pass budget for the table's own length: the first pass
    /// renders with a shift of one and measures the table's page count; a
    /// table longer than one page is rendered once more with the measured
    /// count as the shift, and that second pass is final whatever it
    /// measures — a documented limitation, not a guaranteed fixed point.
    pub fn second_pass_shift(first_pass_pages: u8) -> (r: Option<u8>)
        ensures
            r == if first_pass_pages == 1 {
                None::<u8>
            } else {
                Some(first_pass_pages)
            },
    {
        if first_pass_pages == 1 {
            None
        } else {
            Some(first_pass_pages)
        }
    }

    /// Render the table of contents, walking entries in append order with
    /// the running page starting at the shift.
    pub fn generate_html(&self, shift: u8) -> (r: String)
        requires
            shift as int + spec_pages_sum(self.items.deep_view()) <= 255,
            forall|k: int|
                0 <= k < self.items.deep_view().len() ==> (#[trigger] self.items.deep_view()[k]).pages
                    >= 1,
        ensures
            r@ == spec_toc_html(self.chat_id as int, self.items.deep_view(), shift as int),
    {
        let ghost iv = self.items.deep_view();
        let mut content = String::new();
        let mut current: u8 = shift;
        let mut i: usize = 0;
        proof {
            assert(iv.take(0) =~= Seq::<TocItemV>::empty());
            assert(iv.skip(0) =~= iv);
        }
        while i < self.items.len()
            invariant
                i <= self.items.len(),
                iv == self.items.deep_view(),
                shift as int + spec_pages_sum(iv) <= 255,
                forall|k: int| 0 <= k < iv.len() ==> (#[trigger] iv[k]).pages >= 1,
                current as int == shift as int + spec_pages_sum(iv.take(i as int)),
                spec_toc_rows(self.chat_id as int, iv, 1, shift as int) == content@ + spec_toc_rows(
                    self.chat_id as int,
                    iv.skip(i as int),
                    i + 1 as int,
                    current as int,
                ),
            decreases self.items.len() - i,
        {
            proof {
                assert(iv.take(i + 1 as int).drop_last() =~= iv.take(i as int));
                assert(iv.take(i + 1 as int).last() == iv[i as int]);
                lemma_pages_sum_split(iv, i + 1 as int);
                assert(forall|k: int|
                    0 <= k < iv.skip(i + 1 as int).len() ==> (#[trigger] iv.skip(
                        i + 1 as int,
                    )[k]).pages >= 0);
                lemma_pages_sum_nonneg(iv.skip(i + 1 as int));
                assert(iv.skip(i as int).drop_first() =~= iv.skip(i + 1 as int));
                assert(iv.skip(i as int)[0] == iv[i as int]);
                assert(forall|k: int|
                    0 <= k < iv.take(i as int).len() ==> (#[trigger] iv.take(i as int)[k]).pages
                        >= 0);
                lemma_pages_sum_nonneg(iv.take(i as int));
            }
            let ghost content_before = content@;
            current = current + self.items[i].pages;
            let row = toc_row(
                self.chat_id,
                (i as u64) + 1,
                &self.items[i],
                (current - self.items[i].pages + 1) as u64,
            );
            content.append(row.as_str());
            proof {
                assert(content@ =~= content_before + row@);
                assert(spec_toc_rows(
                    self.chat_id as int,
                    iv.skip(i as int),
                    i + 1 as int,
                    (current as int) - iv[i as int].pages,
                ) == spec_toc_row(
                    self.chat_id as int,
                    i + 1 as int,
                    iv[i as int],
                    (current as int) - iv[i as int].pages + 1,
                ) + spec_toc_rows(
                    self.chat_id as int,
                    iv.skip(i + 1 as int),
                    i + 2 as int,
                    current as int,
                ));
                assert(content_before + (spec_toc_row(
                    self.chat_id as int,
                    i + 1 as int,
                    iv[i as int],
                    (current as int) - iv[i as int].pages + 1,
                ) + spec_toc_rows(
                    self.chat_id as int,
                    iv.skip(i + 1 as int),
                    i + 2 as int,
                    current as int,
                )) =~= (content_before + spec_toc_row(
                    self.chat_id as int,
                    i + 1 as int,
                    iv[i as int],
                    (current as int) - iv[i as int].pages + 1,
                )) + spec_toc_rows(
                    self.chat_id as int,
                    iv.skip(i + 1 as int),
                    i + 2 as int,
                    current as int,
                ));
            }
            i = i + 1;
        }
        proof {
            assert(iv.skip(self.items.len() as int) =~= Seq::<TocItemV>::empty());
        }
        let mut r = String::new();
        r.append(
            "\n            <table class=\"table table-striped table-sm\">\n                <tr class=\"thead-dark\">\n                    <th style=\"text-align: left\">#</th>\n                    <th style=\"text-align: left\">date</th>\n                    <th style=\"width: 100%; text-align: left\">info</th>\n                    <th style=\"text-align: right\">#</th>\n                </tr>\n                ",
        );
        r.append(content.as_str());
        r.append("\n            </table>\n            ");
        proof {
            assert(r@ =~= spec_toc_html(self.chat_id as int, self.items.deep_view(), shift as int));
        }
        r
    }
}

} // verus!
