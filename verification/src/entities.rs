//! Text entities of a message and their rendering to HTML markup fragments.
//!
//! Every entity kind wraps its text in a fixed tag after replacing newlines
//! with line breaks; `Pre` entities are special-cased by language: raw HTML
//! passes through, CSV becomes a table, hidden text disappears.

use vstd::prelude::*;
use vstd::string::*;

use crate::strutil::{push_char, replace_newlines, spec_br_replaced, str_eq};

verus! {

/// One formatted fragment of a message's text.
#[derive(Debug, PartialEq)]
pub enum TextEntity {
    Bold { text: String },
    Code { text: String },
    CustomEmoji { text: String, document_id: String },
    Hashtag { text: String },
    Italic { text: String },
    Link { text: String },
    Phone { text: String },
    Plain { text: String },
    Pre { text: String, language: String },
    Strikethrough { text: String },
    TextLink { text: String, href: String },
}

/// The mathematical model of a text entity: the same shape over character
/// sequences.
pub enum EntityV {
    Bold { text: Seq<char> },
    Code { text: Seq<char> },
    CustomEmoji { text: Seq<char>, document_id: Seq<char> },
    Hashtag { text: Seq<char> },
    Italic { text: Seq<char> },
    Link { text: Seq<char> },
    Phone { text: Seq<char> },
    Plain { text: Seq<char> },
    Pre { text: Seq<char>, language: Seq<char> },
    Strikethrough { text: Seq<char> },
    TextLink { text: Seq<char>, href: Seq<char> },
}

impl DeepView for TextEntity {
    type V = EntityV;

    open spec fn deep_view(&self) -> EntityV {
        match self {
            TextEntity::Bold { text } => EntityV::Bold { text: text@ },
            TextEntity::Code { text } => EntityV::Code { text: text@ },
            TextEntity::CustomEmoji { text, document_id } => EntityV::CustomEmoji {
                text: text@,
                document_id: document_id@,
            },
            TextEntity::Hashtag { text } => EntityV::Hashtag { text: text@ },
            TextEntity::Italic { text } => EntityV::Italic { text: text@ },
            TextEntity::Link { text } => EntityV::Link { text: text@ },
            TextEntity::Phone { text } => EntityV::Phone { text: text@ },
            TextEntity::Plain { text } => EntityV::Plain { text: text@ },
            TextEntity::Pre { text, language } => EntityV::Pre {
                text: text@,
                language: language@,
            },
            TextEntity::Strikethrough { text } => EntityV::Strikethrough { text: text@ },
            TextEntity::TextLink { text, href } => EntityV::TextLink { text: text@, href: href@ },
        }
    }
}

impl Clone for TextEntity {
    fn clone(&self) -> (r: Self)
        ensures
            r.deep_view() == self.deep_view(),
    {
        match self {
            TextEntity::Bold { text } => TextEntity::Bold { text: text.clone() },
            TextEntity::Code { text } => TextEntity::Code { text: text.clone() },
            TextEntity::CustomEmoji { text, document_id } => TextEntity::CustomEmoji {
                text: text.clone(),
                document_id: document_id.clone(),
            },
            TextEntity::Hashtag { text } => TextEntity::Hashtag { text: text.clone() },
            TextEntity::Italic { text } => TextEntity::Italic { text: text.clone() },
            TextEntity::Link { text } => TextEntity::Link { text: text.clone() },
            TextEntity::Phone { text } => TextEntity::Phone { text: text.clone() },
            TextEntity::Plain { text } => TextEntity::Plain { text: text.clone() },
            TextEntity::Pre { text, language } => TextEntity::Pre {
                text: text.clone(),
                language: language.clone(),
            },
            TextEntity::Strikethrough { text } => TextEntity::Strikethrough {
                text: text.clone(),
            },
            TextEntity::TextLink { text, href } => TextEntity::TextLink {
                text: text.clone(),
                href: href.clone(),
            },
        }
    }
}

/// The text wrapped in the given tag, newlines replaced by line breaks.
pub open spec fn spec_wrap(text: Seq<char>, tag: Seq<char>) -> Seq<char> {
    "<"@ + tag + ">"@ + spec_br_replaced(text) + "</"@ + tag + ">"@
}

fn wrap_tag(text: &String, tag: &str) -> (r: String)
    ensures
        r@ == spec_wrap(text@, tag@),
{
    let mut r = String::new();
    r.append("<");
    r.append(tag);
    r.append(">");
    let body = replace_newlines(text.as_str());
    r.append(body.as_str());
    r.append("</");
    r.append(tag);
    r.append(">");
    proof {
        assert(r@ =~= spec_wrap(text@, tag@));
    }
    r
}

/// What the csv crate parses the given text into: the rows, each a sequence
/// of fields; nothing if some record is malformed.
pub uninterp spec fn csv_rows_of(s: Seq<char>) -> Option<Seq<Seq<Seq<char>>>>;

/// Relies on the csv crate's headerless reader: how a text splits into
/// records and fields depends on the text alone. Yields nothing as soon as
/// one record fails to parse.
#[verifier::external_body]
fn parse_csv(text: &str) -> (r: Option<Vec<Vec<String>>>)
    ensures
        r.deep_view() == csv_rows_of(text@),
{
    let reader = csv::ReaderBuilder::new().has_headers(false).from_reader(text.as_bytes());
    let mut rows: Vec<Vec<String>> = Vec::new();
    for record in reader.into_records() {
        match record {
            Ok(rec) => rows.push(rec.iter().map(|field| field.to_string()).collect()),
            Err(_) => return None,
        }
    }
    Some(rows)
}

/// One table cell: the field wrapped in the given tag, verbatim.
pub open spec fn spec_cell_html(tag: Seq<char>, item: Seq<char>) -> Seq<char> {
    "<"@ + tag + ">"@ + item + "</"@ + tag + ">"@
}

pub open spec fn spec_cells_html(tag: Seq<char>, row: Seq<Seq<char>>) -> Seq<char>
    decreases row.len(),
{
    if row.len() == 0 {
        Seq::empty()
    } else {
        spec_cell_html(tag, row[0]) + spec_cells_html(tag, row.drop_first())
    }
}

proof fn lemma_cells_html_push(tag: Seq<char>, row: Seq<Seq<char>>, x: Seq<char>)
    ensures
        spec_cells_html(tag, row.push(x)) == spec_cells_html(tag, row) + spec_cell_html(tag, x),
    decreases row.len(),
{
    if row.len() == 0 {
        assert(row.push(x)[0] == x);
        assert(row.push(x).drop_first() =~= Seq::<Seq<char>>::empty());
        assert(spec_cells_html(tag, Seq::<Seq<char>>::empty()) == Seq::<char>::empty());
        assert(spec_cells_html(tag, row.push(x)) =~= spec_cells_html(tag, row) + spec_cell_html(
            tag,
            x,
        ));
    } else {
        lemma_cells_html_push(tag, row.drop_first(), x);
        assert(row.push(x).drop_first() =~= row.drop_first().push(x));
        assert(row.push(x)[0] == row[0]);
        assert(spec_cell_html(tag, row[0]) + (spec_cells_html(tag, row.drop_first())
            + spec_cell_html(tag, x)) =~= (spec_cell_html(tag, row[0]) + spec_cells_html(
            tag,
            row.drop_first(),
        )) + spec_cell_html(tag, x));
    }
}

/// One table row: the cells wrapped in a row tag.
pub open spec fn spec_row_html(tag: Seq<char>, row: Seq<Seq<char>>) -> Seq<char> {
    "<tr>"@ + spec_cells_html(tag, row) + "</tr>"@
}

fn row_html(row: &Vec<String>, tag: &str) -> (r: String)
    ensures
        r@ == spec_row_html(tag@, row.deep_view()),
{
    let mut cells = String::new();
    let mut i: usize = 0;
    while i < row.len()
        invariant
            i <= row.len(),
            cells@ == spec_cells_html(tag@, row.deep_view().take(i as int)),
        decreases row.len() - i,
    {
        let cell = row_cell(&row[i], tag);
        cells.append(cell.as_str());
        proof {
            let rv = row.deep_view();
            assert(rv.take(i + 1 as int) =~= rv.take(i as int).push(rv[i as int]));
            lemma_cells_html_push(tag@, rv.take(i as int), rv[i as int]);
            assert(rv[i as int] == row[i as int]@);
        }
        i = i + 1;
    }
    proof {
        assert(row.deep_view().take(row.len() as int) =~= row.deep_view());
    }
    let mut r = String::new();
    r.append("<tr>");
    r.append(cells.as_str());
    r.append("</tr>");
    proof {
        assert(r@ =~= spec_row_html(tag@, row.deep_view()));
    }
    r
}

fn row_cell(item: &String, tag: &str) -> (r: String)
    ensures
        r@ == spec_cell_html(tag@, item@),
{
    let mut r = String::new();
    r.append("<");
    r.append(tag);
    r.append(">");
    r.append(item.as_str());
    r.append("</");
    r.append(tag);
    r.append(">");
    proof {
        assert(r@ =~= spec_cell_html(tag@, item@));
    }
    r
}

/// The body rows of the table: every row but the first, each wrapped with
/// `td` cells, concatenated.
pub open spec fn spec_tbody_html(rows: Seq<Seq<Seq<char>>>) -> Seq<char>
    decreases rows.len(),
{
    if rows.len() == 0 {
        Seq::empty()
    } else {
        spec_row_html("td"@, rows[0]) + spec_tbody_html(rows.drop_first())
    }
}

proof fn lemma_tbody_html_push(rows: Seq<Seq<Seq<char>>>, x: Seq<Seq<char>>)
    ensures
        spec_tbody_html(rows.push(x)) == spec_tbody_html(rows) + spec_row_html("td"@, x),
    decreases rows.len(),
{
    if rows.len() == 0 {
        assert(rows.push(x)[0] == x);
        assert(rows.push(x).drop_first() =~= Seq::<Seq<Seq<char>>>::empty());
        assert(spec_tbody_html(Seq::<Seq<Seq<char>>>::empty()) == Seq::<char>::empty());
        assert(spec_tbody_html(rows.push(x)) =~= spec_tbody_html(rows) + spec_row_html("td"@, x));
    } else {
        lemma_tbody_html_push(rows.drop_first(), x);
        assert(rows.push(x).drop_first() =~= rows.drop_first().push(x));
        assert(rows.push(x)[0] == rows[0]);
        assert(spec_row_html("td"@, rows[0]) + (spec_tbody_html(rows.drop_first())
            + spec_row_html("td"@, x)) =~= (spec_row_html("td"@, rows[0]) + spec_tbody_html(
            rows.drop_first(),
        )) + spec_row_html("td"@, x));
    }
}

/// The whole table built from parsed CSV rows: the first row becomes the
/// table head, the rest the body.
pub open spec fn spec_csv_table(rows: Seq<Seq<Seq<char>>>) -> Seq<char> {
    let header = if rows.len() == 0 {
        Seq::<char>::empty()
    } else {
        spec_row_html("th"@, rows[0])
    };
    let body = if rows.len() == 0 {
        Seq::<char>::empty()
    } else {
        spec_tbody_html(rows.drop_first())
    };
    "<table class='table table-bordered table-sm table-striped' style='width: inherit'>\n                <thead>"@
        + header
        + "</thead>\n                <tbody>"@
        + body
        + "</tbody>\n            </table>"@
}

/// What a `Pre` entity tagged as CSV renders to: the table when the text
/// parses, the text unchanged when it does not.
pub open spec fn spec_pre_csv(text: Seq<char>) -> Seq<char> {
    match csv_rows_of(text) {
        None => text,
        Some(rows) => spec_csv_table(rows),
    }
}

/// The markup fragment an entity renders to.
pub open spec fn spec_entity_html(e: EntityV) -> Seq<char> {
    match e {
        EntityV::Bold { text } => spec_wrap(text, "b"@),
        EntityV::Code { text } => spec_wrap(text, "code"@),
        EntityV::CustomEmoji { text, .. } => spec_wrap(text, "span"@),
        EntityV::Hashtag { text } => spec_wrap(text, "bold"@),
        EntityV::Italic { text } => spec_wrap(text, "i"@),
        EntityV::Link { text } => spec_wrap(text, "span"@),
        EntityV::Phone { text } => spec_wrap(text, "span"@),
        EntityV::Plain { text } => spec_wrap(text, "span"@),
        EntityV::Pre { text, language } => {
            if language == "html"@ {
                text
            } else if language == "csv"@ {
                spec_pre_csv(text)
            } else if language == "hidden"@ {
                Seq::empty()
            } else {
                spec_wrap(text, "pre"@)
            }
        },
        EntityV::Strikethrough { text } => spec_wrap(text, "s"@),
        EntityV::TextLink { text, .. } => spec_wrap(text, "span"@),
    }
}

impl TextEntity {
    /// Render one entity to its markup fragment.
    pub fn to_html(&self) -> (r: String)
        ensures
            r@ == spec_entity_html(self.deep_view()),
    {
        match self {
            TextEntity::Bold { text } => wrap_tag(text, "b"),
            TextEntity::Code { text } => wrap_tag(text, "code"),
            TextEntity::CustomEmoji { text, .. } => wrap_tag(text, "span"),
            TextEntity::Hashtag { text } => wrap_tag(text, "bold"),
            TextEntity::Italic { text } => wrap_tag(text, "i"),
            TextEntity::Link { text } => wrap_tag(text, "span"),
            TextEntity::Phone { text } => wrap_tag(text, "span"),
            TextEntity::Plain { text } => wrap_tag(text, "span"),
            TextEntity::Pre { text, language } => {
                if str_eq(language, "html") {
                    text.clone()
                } else if str_eq(language, "csv") {
                    Self::csv_to_html(text.as_str())
                } else if str_eq(language, "hidden") {
                    String::new()
                } else {
                    wrap_tag(text, "pre")
                }
            },
            TextEntity::Strikethrough { text } => wrap_tag(text, "s"),
            TextEntity::TextLink { text, .. } => wrap_tag(text, "span"),
        }
    }

    /// Render CSV text as an HTML table; malformed CSV is passed through
    /// unchanged.
    pub fn csv_to_html(text: &str) -> (r: String)
        ensures
            r@ == spec_pre_csv(text@),
    {
        match parse_csv(text) {
            None => text.to_owned(),
            Some(rows) => {
                let mut header = String::new();
                if rows.len() > 0 {
                    header = row_html(&rows[0], "th");
                }
                let mut body = String::new();
                let mut i: usize = 1;
                while i < rows.len()
                    invariant
                        1 <= i <= rows.len() || (rows.len() == 0 && i == 1),
                        rows.len() > 0 ==> body@ == spec_tbody_html(
                            rows.deep_view().drop_first().take(i - 1 as int),
                        ),
                        rows.len() == 0 ==> body@ == Seq::<char>::empty(),
                    decreases rows.len() - i,
                {
                    let row = row_html(&rows[i], "td");
                    body.append(row.as_str());
                    proof {
                        let tail = rows.deep_view().drop_first();
                        assert(tail.take(i as int) =~= tail.take(i - 1 as int).push(
                            tail[i - 1 as int],
                        ));
                        lemma_tbody_html_push(tail.take(i - 1 as int), tail[i - 1 as int]);
                        assert(tail[i - 1 as int] == rows.deep_view()[i as int]);
                        assert(rows.deep_view()[i as int] == rows[i as int].deep_view());
                    }
                    i = i + 1;
                }
                proof {
                    if rows.len() > 0 {
                        let tail = rows.deep_view().drop_first();
                        assert(tail.take(rows.len() - 1 as int) =~= tail);
                    }
                }
                let mut r = String::new();
                r.append(
                    "<table class='table table-bordered table-sm table-striped' style='width: inherit'>\n                <thead>",
                );
                r.append(header.as_str());
                r.append("</thead>\n                <tbody>");
                r.append(body.as_str());
                r.append("</tbody>\n            </table>");
                proof {
                    if rows.len() == 0 {
                        assert(header@ =~= Seq::<char>::empty());
                        assert(body@ =~= Seq::<char>::empty());
                    }
                    assert(r@ =~= spec_csv_table(rows.deep_view()));
                }
                r
            },
        }
    }
}

} // verus!
