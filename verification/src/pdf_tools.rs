//! Document-tool plumbing that is pure computation: reading the page count
//! out of a page-inspector's report, and wrapping a fragment into the fixed
//! HTML document layout handed to the renderer.

use vstd::prelude::*;
use vstd::string::*;

verus! {

/// Why no page count could be read from a report.
#[derive(Debug, PartialEq, Eq, Structural, Clone, Copy)]
pub enum PdfInfoError {
    /// No line of the report carries a page count.
    NoPages,
    /// The counted pages do not fit the page-count type.
    PagesOutOfRange,
}

/// Whitespace that may sit between the field name and the count on one line.
pub open spec fn spec_is_line_ws(c: char) -> bool {
    c == ' ' || c == '\t' || c == '\r' || c == '\u{000B}' || c == '\u{000C}'
}

pub open spec fn spec_is_digit(c: char) -> bool {
    ('0' as u32) <= (c as u32) && (c as u32) <= ('9' as u32)
}

/// The index of the first newline, -1 when there is none.
pub open spec fn spec_find_nl(s: Seq<char>) -> int
    decreases s.len(),
{
    if s.len() == 0 {
        -1
    } else if s[0] == '\n' {
        0
    } else {
        let r = spec_find_nl(s.drop_first());
        if r == -1 {
            -1
        } else {
            r + 1
        }
    }
}

proof fn lemma_find_nl_props(s: Seq<char>)
    ensures
        spec_find_nl(s) == -1 <==> (forall|k: int| 0 <= k < s.len() ==> s[k] != '\n'),
        spec_find_nl(s) != -1 ==> {
            let r = spec_find_nl(s);
            &&& 0 <= r < s.len()
            &&& s[r] == '\n'
            &&& forall|k: int| 0 <= k < r ==> s[k] != '\n'
        },
    decreases s.len(),
{
    if s.len() == 0 {
    } else if s[0] == '\n' {
    } else {
        lemma_find_nl_props(s.drop_first());
        let r = spec_find_nl(s.drop_first());
        if r != -1 {
            assert(forall|k: int| 1 <= k < r + 1 ==> s[k] == s.drop_first()[k - 1]);
        } else {
            assert(forall|k: int| 1 <= k < s.len() ==> s[k] == s.drop_first()[k - 1]);
        }
    }
}

/// The report split into lines at newlines; a trailing newline yields a final
/// empty line.
pub open spec fn spec_split_lines(s: Seq<char>) -> Seq<Seq<char>>
    decreases s.len(),
{
    let i = spec_find_nl(s);
    if 0 <= i < s.len() {
        seq![s.take(i)] + spec_split_lines(s.skip(i + 1))
    } else {
        seq![s]
    }
}

/// How many whitespace characters the text starts with.
pub open spec fn spec_ws_run(s: Seq<char>) -> int
    decreases s.len(),
{
    if s.len() > 0 && spec_is_line_ws(s[0]) {
        1 + spec_ws_run(s.drop_first())
    } else {
        0
    }
}

proof fn lemma_ws_run_at(s: Seq<char>, k: int)
    requires
        0 <= k <= s.len(),
        forall|j: int| 0 <= j < k ==> spec_is_line_ws(s[j]),
        k < s.len() ==> !spec_is_line_ws(s[k]),
    ensures
        spec_ws_run(s) == k,
    decreases k,
{
    if k == 0 {
    } else {
        lemma_ws_run_at(s.drop_first(), k - 1);
    }
}

pub open spec fn spec_all_digits(s: Seq<char>) -> bool {
    forall|k: int| 0 <= k < s.len() ==> spec_is_digit(#[trigger] s[k])
}

/// The digit run of a line of the shape `Pages:` + whitespace + digits, if
/// the line has that shape.
pub open spec fn spec_line_digits(line: Seq<char>) -> Option<Seq<char>> {
    if line.len() >= 6 && line.take(6) == "Pages:"@ {
        let rest = line.skip(6);
        let w = spec_ws_run(rest);
        if w >= 1 && rest.len() > w && spec_all_digits(rest.skip(w)) {
            Some(rest.skip(w))
        } else {
            None
        }
    } else {
        None
    }
}

/// The digit run of the first line carrying a page count.
pub open spec fn spec_first_pages_digits(lines: Seq<Seq<char>>) -> Option<Seq<char>>
    decreases lines.len(),
{
    if lines.len() == 0 {
        None
    } else {
        match spec_line_digits(lines[0]) {
            Some(d) => Some(d),
            None => spec_first_pages_digits(lines.drop_first()),
        }
    }
}

/// The value of a digit run, most significant digit first.
pub open spec fn spec_digits_val(s: Seq<char>) -> int
    decreases s.len(),
{
    if s.len() == 0 {
        0
    } else {
        spec_digits_val(s.drop_last()) * 10 + (s.last() as u32 - 48)
    }
}

/// What the page-count report yields: the value of the first `Pages:` line,
/// when there is one and it fits.
pub open spec fn spec_pages_count(out: Seq<char>) -> Result<u8, PdfInfoError> {
    match spec_first_pages_digits(spec_split_lines(out)) {
        None => Err(PdfInfoError::NoPages),
        Some(d) => if spec_digits_val(d) <= 255 {
            Ok(spec_digits_val(d) as u8)
        } else {
            Err(PdfInfoError::PagesOutOfRange)
        },
    }
}

fn is_line_ws(c: char) -> (r: bool)
    ensures
        r == spec_is_line_ws(c),
{
    c == ' ' || c == '\t' || c == '\r' || c == '\u{000B}' || c == '\u{000C}'
}

fn is_digit(c: char) -> (r: bool)
    ensures
        r == spec_is_digit(c),
{
    (c as u32) >= ('0' as u32) && (c as u32) <= ('9' as u32)
}

fn split_lines(s: &str) -> (r: Vec<String>)
    ensures
        r.deep_view() == spec_split_lines(s@),
{
    let n = s.unicode_len();
    let mut r: Vec<String> = Vec::new();
    let mut start: usize = 0;
    let mut i: usize = 0;
    proof {
        assert(s@.skip(0) =~= s@);
        assert(r.deep_view() + spec_split_lines(s@.skip(0)) =~= spec_split_lines(s@));
    }
    while i < n
        invariant
            start <= i <= n,
            n == s@.len(),
            forall|k: int| start <= k < i ==> s@[k] != '\n',
            spec_split_lines(s@) == r.deep_view() + spec_split_lines(s@.skip(start as int)),
        decreases n - i,
    {
        let c = s.get_char(i);
        if c == '\n' {
            let line = s.substring_char(start, i).to_owned();
            let ghost tail = s@.skip(start as int);
            proof {
                lemma_find_nl_props(tail);
                assert(tail[i - start as int] == '\n');
                assert(forall|k: int| 0 <= k < i - start as int ==> tail[k] == s@[k + start]);
                assert(forall|k: int| 0 <= k < i - start as int ==> tail[k] != '\n');
                let f = spec_find_nl(tail);
                assert(f != -1);
                assert(f == i - start as int) by {
                    if f < i - start as int {
                        assert(tail[f] != '\n');
                    }
                    if f > i - start as int {
                        assert(tail[i - start as int] != '\n');
                    }
                };
                assert(tail.take(f) =~= s@.subrange(start as int, i as int));
                assert(tail.skip(f + 1) =~= s@.skip(i + 1 as int));
                assert(line@ == tail.take(f));
            }
            r.push(line);
            proof {
                assert(r.deep_view() =~= r.deep_view().drop_last().push(
                    s@.skip(start as int).take(i - start as int),
                ));
                assert((r.deep_view().drop_last() + seq![
                    s@.skip(start as int).take(i - start as int),
                ]) =~= r.deep_view());
                assert(r.deep_view().drop_last() + (seq![
                    s@.skip(start as int).take(i - start as int),
                ] + spec_split_lines(s@.skip(i + 1 as int))) =~= r.deep_view() + spec_split_lines(
                    s@.skip(i + 1 as int),
                ));
            }
            start = i + 1;
        }
        i = i + 1;
    }
    let last = s.substring_char(start, n).to_owned();
    proof {
        let tail = s@.skip(start as int);
        lemma_find_nl_props(tail);
        assert(forall|k: int| 0 <= k < tail.len() ==> tail[k] == s@[k + start]);
        assert(forall|k: int| 0 <= k < tail.len() ==> tail[k] != '\n');
        assert(spec_find_nl(tail) == -1);
        assert(last@ == tail);
        assert(s@.subrange(start as int, n as int) =~= tail);
    }
    r.push(last);
    proof {
        assert(r.deep_view() =~= r.deep_view().drop_last() + seq![s@.skip(start as int)]);
    }
    r
}

/// The page count carried by one line, saturated one past the type's top so
/// an overflowing count is still told apart from a fitting one.
fn line_pages_value(line: &String) -> (r: Option<u64>)
    ensures
        match spec_line_digits(line@) {
            None => r is None,
            Some(d) => r matches Some(v) && ((spec_digits_val(d) <= 255 && v as int
                == spec_digits_val(d)) || (spec_digits_val(d) > 255 && v == 256)),
        },
{
    let s = line.as_str();
    let n = s.unicode_len();
    proof {
        reveal_strlit("Pages:");
    }
    if n < 6 {
        return None;
    }
    let mut k: usize = 0;
    while k < 6
        invariant
            k <= 6,
            6 <= n == line@.len(),
            s@ == line@,
            forall|t: int| 0 <= t < k ==> line@[t] == "Pages:"@[t],
        decreases 6 - k,
    {
        let c = s.get_char(k);
        let expected = pages_prefix_char(k);
        if c != expected {
            proof {
                reveal_strlit("Pages:");
                assert(line@.take(6)[k as int] != "Pages:"@[k as int]);
                assert(line@.take(6) != "Pages:"@);
            }
            return None;
        }
        k = k + 1;
    }
    proof {
        reveal_strlit("Pages:");
        assert(line@.take(6) =~= "Pages:"@);
    }
    let ghost rest = line@.skip(6);
    proof {
        assert(forall|t: int| 0 <= t < rest.len() ==> rest[t] == line@[t + 6]);
    }
    let mut i: usize = 6;
    while i < n && is_line_ws(s.get_char(i))
        invariant
            6 <= i <= n,
            n == line@.len(),
            s@ == line@,
            line@.take(6) == "Pages:"@,
            rest == line@.skip(6),
            forall|j: int| 0 <= j < i - 6 ==> spec_is_line_ws(#[trigger] rest[j]),
        decreases n - i,
    {
        proof {
            assert(rest[i - 6 as int] == line@[i as int]);
        }
        i = i + 1;
    }
    proof {
        if i < n {
            assert(rest[i - 6 as int] == line@[i as int]);
        }
        lemma_ws_run_at(rest, i - 6 as int);
    }
    if i == 6 {
        return None;
    }
    if i == n {
        return None;
    }
    let ghost w = i - 6 as int;
    let ghost digits = rest.skip(w);
    proof {
        assert(forall|t: int| 0 <= t < digits.len() ==> digits[t] == line@[t + i]);
    }
    let mut val: u64 = 0;
    let mut j: usize = i;
    proof {
        assert(digits.take(0) =~= Seq::<char>::empty());
    }
    while j < n
        invariant
            i <= j <= n,
            6 < i < n,
            n == line@.len(),
            s@ == line@,
            line@.take(6) == "Pages:"@,
            rest == line@.skip(6),
            spec_ws_run(rest) == i - 6,
            digits == rest.skip(i - 6 as int),
            w == i - 6,
            forall|t: int| 0 <= t < digits.len() ==> digits[t] == line@[t + i],
            spec_all_digits(digits.take(j - i as int)),
            (val as int == spec_digits_val(digits.take(j - i as int)) && val <= 255) || (val == 256
                && spec_digits_val(digits.take(j - i as int)) > 255),
            spec_digits_val(digits.take(j - i as int)) >= 0,
        decreases n - j,
    {
        let c = s.get_char(j);
        proof {
            assert(digits[j - i as int] == line@[j as int]);
        }
        if !is_digit(c) {
            proof {
                assert(!spec_is_digit(digits[j - i as int]));
                assert(!spec_all_digits(digits));
            }
            return None;
        }
        let d: u64 = (c as u32 as u64) - 48;
        proof {
            assert(digits.take(j - i + 1 as int).drop_last() =~= digits.take(j - i as int));
            assert(digits.take(j - i + 1 as int).last() == digits[j - i as int]);
            assert(forall|t: int|
                0 <= t < j - i + 1 ==> spec_is_digit(#[trigger] digits.take(j - i + 1 as int)[t]));
        }
        if val > 255 {
            proof {
                assert(spec_digits_val(digits.take(j - i + 1 as int)) > 255);
            }
        } else {
            val = val * 10 + d;
            if val > 255 {
                val = 256;
                proof {
                    assert(spec_digits_val(digits.take(j - i + 1 as int)) > 255);
                }
            }
        }
        j = j + 1;
    }
    proof {
        assert(digits.take(n - i as int) =~= digits);
        assert(rest.len() > w);
        assert(spec_line_digits(line@) == Some(digits));
    }
    Some(val)
}

/// The character the field name carries at a position.
fn pages_prefix_char(k: usize) -> (c: char)
    requires
        k < 6,
    ensures
        c == "Pages:"@[k as int],
{
    proof {
        reveal_strlit("Pages:");
    }
    match k {
        0 => 'P',
        1 => 'a',
        2 => 'g',
        3 => 'e',
        4 => 's',
        _ => ':',
    }
}

/// Pure document-tool computations.
pub struct PdfTools;

impl PdfTools {
    /// Read the page count out of a page-inspector report: the first line of
    /// the shape `Pages:` + whitespace + digits decides; a missing line or a
    /// count above the page-count type's top is an error.
    pub fn get_pages_count(output: &str) -> (r: Result<u8, PdfInfoError>)
        ensures
            r == spec_pages_count(output@),
    {
        let lines = split_lines(output);
        let ghost lv = lines.deep_view();
        let mut i: usize = 0;
        proof {
            assert(lv.skip(0) =~= lv);
        }
        while i < lines.len()
            invariant
                i <= lines.len(),
                lv == lines.deep_view(),
                lv == spec_split_lines(output@),
                spec_first_pages_digits(lv) == spec_first_pages_digits(lv.skip(i as int)),
            decreases lines.len() - i,
        {
            proof {
                assert(lv.skip(i as int)[0] == lv[i as int]);
                assert(lv.skip(i as int).drop_first() =~= lv.skip(i + 1 as int));
                assert(lv[i as int] == lines@[i as int]@);
            }
            match line_pages_value(&lines[i]) {
                Some(v) => {
                    if v <= 255 {
                        return Ok(v as u8);
                    } else {
                        return Err(PdfInfoError::PagesOutOfRange);
                    }
                },
                None => {},
            }
            i = i + 1;
        }
        proof {
            assert(lv.skip(lines.len() as int).len() == 0);
        }
        Err(PdfInfoError::NoPages)
    }

    /// The full HTML document handed to the renderer: the fixed layout with
    /// the framework stylesheet and the document's own styles wrapped around
    /// the fragment.
    pub fn document_html(bootstrap_css: &str, content: &str) -> (r: String)
        ensures
            r@ == spec_document_html(bootstrap_css@, content@),
    {
        let mut r = String::new();
        r.append(
            "\n            <!doctype html>\n            <html>\n                <head>\n                    <title>Page Title</title>\n                    <style>",
        );
        r.append(bootstrap_css);
        r.append("</style>\n                    <style>");
        r.append(
            "\n        html * {\n            font-family: \"DejaVu Sans\", sans-serif;\n            line-height: 1.1;\n        }\n\n        ul {\n            margin: 0;\n            padding-left: 30px;\n        }\n\n        .small-font {\n            font-size: 0.8em;\n        }\n\n        .message-id {\n            font-size: 0.5em;\n        }\n\n        .message-id a {\n            color: #c6c6c6;\n        }\n        ",
        );
        r.append("</style>\n                </head>\n                <body>\n                    ");
        r.append(content);
        r.append("\n                </body>\n            </html>\n            ");
        proof {
            assert(r@ =~= spec_document_html(bootstrap_css@, content@));
        }
        r
    }
}

/// The renderer document: fixed head with the framework stylesheet and the
/// document styles, then the fragment as the body.
pub open spec fn spec_document_html(bootstrap_css: Seq<char>, content: Seq<char>) -> Seq<char> {
    "\n            <!doctype html>\n            <html>\n                <head>\n                    <title>Page Title</title>\n                    <style>"@
        + bootstrap_css + "</style>\n                    <style>"@
        + "\n        html * {\n            font-family: \"DejaVu Sans\", sans-serif;\n            line-height: 1.1;\n        }\n\n        ul {\n            margin: 0;\n            padding-left: 30px;\n        }\n\n        .small-font {\n            font-size: 0.8em;\n        }\n\n        .message-id {\n            font-size: 0.5em;\n        }\n\n        .message-id a {\n            color: #c6c6c6;\n        }\n        "@
        + "</style>\n                </head>\n                <body>\n                    "@
        + content + "\n                </body>\n            </html>\n            "@
}

} // verus!
