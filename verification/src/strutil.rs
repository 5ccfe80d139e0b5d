//! Verified string building blocks: appending single characters, decimal
//! rendering of integers, joining with a separator, newline replacement and
//! lexicographic comparison of strings.

use vstd::prelude::*;
use vstd::string::*;

verus! {

/// Relies on std's `String::push`: appends exactly the given character to the
/// end of the string.
#[verifier::external_body]
pub(crate) fn push_char(s: &mut String, c: char)
    ensures
        final(s)@ == old(s)@.push(c),
{
    s.push(c);
}

/// The decimal digit character for a value below ten.
pub open spec fn spec_digit_char(d: int) -> char {
    if d == 0 {
        '0'
    } else if d == 1 {
        '1'
    } else if d == 2 {
        '2'
    } else if d == 3 {
        '3'
    } else if d == 4 {
        '4'
    } else if d == 5 {
        '5'
    } else if d == 6 {
        '6'
    } else if d == 7 {
        '7'
    } else if d == 8 {
        '8'
    } else {
        '9'
    }
}

pub fn digit_char(d: u64) -> (c: char)
    requires
        d < 10,
    ensures
        c == spec_digit_char(d as int),
{
    match d {
        0 => '0',
        1 => '1',
        2 => '2',
        3 => '3',
        4 => '4',
        5 => '5',
        6 => '6',
        7 => '7',
        8 => '8',
        _ => '9',
    }
}

/// The decimal rendering of a non-negative integer, most significant digit
/// first, with no leading zeros (a lone zero for 0).
pub open spec fn spec_u64_str(n: int) -> Seq<char>
    recommends
        n >= 0,
    decreases n,
{
    if n < 10 {
        Seq::empty().push(spec_digit_char(n))
    } else {
        spec_u64_str(n / 10).push(spec_digit_char(n % 10))
    }
}

pub fn u64_to_string(n: u64) -> (s: String)
    ensures
        s@ == spec_u64_str(n as int),
    decreases n,
{
    if n < 10 {
        let mut s = String::new();
        push_char(&mut s, digit_char(n));
        s
    } else {
        let mut s = u64_to_string(n / 10);
        push_char(&mut s, digit_char(n % 10));
        s
    }
}

/// The decimal rendering of a signed integer: a leading minus sign for
/// negative values.
pub open spec fn spec_i64_str(n: int) -> Seq<char> {
    if n >= 0 {
        spec_u64_str(n)
    } else {
        seq!['-'] + spec_u64_str(-n)
    }
}

pub fn i64_to_string(n: i64) -> (s: String)
    ensures
        s@ == spec_i64_str(n as int),
{
    if n >= 0 {
        u64_to_string(n as u64)
    } else {
        let magnitude = (-(n as i128)) as u64;
        assert(magnitude == -(n as int)) by {
            assert(-(n as i128) == -(n as int));
        };
        let mut s = String::new();
        push_char(&mut s, '-');
        let digits = u64_to_string(magnitude);
        s.append(digits.as_str());
        assert(s@ =~= seq!['-'] + spec_u64_str(-(n as int)));
        s
    }
}

/// The given parts joined with the separator between consecutive parts.
pub open spec fn spec_join(parts: Seq<Seq<char>>, sep: Seq<char>) -> Seq<char>
    decreases parts.len(),
{
    if parts.len() == 0 {
        Seq::empty()
    } else if parts.len() == 1 {
        parts[0]
    } else {
        parts[0] + sep + spec_join(parts.drop_first(), sep)
    }
}

pub proof fn lemma_join_push(parts: Seq<Seq<char>>, sep: Seq<char>, x: Seq<char>)
    ensures
        spec_join(parts.push(x), sep) == if parts.len() == 0 {
            x
        } else {
            spec_join(parts, sep) + sep + x
        },
    decreases parts.len(),
{
    if parts.len() == 0 {
        assert(parts.push(x).len() == 1);
        assert(parts.push(x)[0] == x);
    } else if parts.len() == 1 {
        assert(parts.push(x).drop_first() =~= parts.drop_first().push(x));
        assert(parts.push(x)[0] == parts[0]);
        assert(parts.drop_first().push(x) =~= Seq::empty().push(x));
        assert(spec_join(parts.push(x), sep) == parts[0] + sep + spec_join(
            parts.drop_first().push(x),
            sep,
        ));
        assert(spec_join(Seq::<Seq<char>>::empty().push(x), sep) == x);
    } else {
        lemma_join_push(parts.drop_first(), sep, x);
        assert(parts.push(x).drop_first() =~= parts.drop_first().push(x));
        assert(spec_join(parts, sep) + sep + x =~= parts[0] + sep + (spec_join(
            parts.drop_first(),
            sep,
        ) + sep + x));
    }
}

pub fn join_strings(parts: &Vec<String>, sep: &str) -> (r: String)
    ensures
        r@ == spec_join(parts.deep_view(), sep@),
{
    let mut r = String::new();
    let mut i: usize = 0;
    while i < parts.len()
        invariant
            i <= parts.len(),
            r@ == spec_join(parts.deep_view().take(i as int), sep@),
        decreases parts.len() - i,
    {
        if i > 0 {
            r.append(sep);
        }
        r.append(parts[i].as_str());
        proof {
            let pv = parts.deep_view();
            assert(pv.take(i + 1 as int) =~= pv.take(i as int).push(pv[i as int]));
            lemma_join_push(pv.take(i as int), sep@, pv[i as int]);
            assert(pv[i as int] == parts[i as int]@);
        }
        i = i + 1;
    }
    proof {
        assert(parts.deep_view().take(parts.len() as int) =~= parts.deep_view());
    }
    r
}

/// The text with every newline character replaced by an HTML line break.
pub open spec fn spec_br_replaced(s: Seq<char>) -> Seq<char>
    decreases s.len(),
{
    if s.len() == 0 {
        Seq::empty()
    } else {
        (if s[0] == '\n' {
            "<br />"@
        } else {
            Seq::empty().push(s[0])
        }) + spec_br_replaced(s.drop_first())
    }
}

pub proof fn lemma_br_replaced_push(s: Seq<char>, c: char)
    ensures
        spec_br_replaced(s.push(c)) == spec_br_replaced(s) + (if c == '\n' {
            "<br />"@
        } else {
            Seq::empty().push(c)
        }),
    decreases s.len(),
{
    let step = if c == '\n' {
        "<br />"@
    } else {
        Seq::empty().push(c)
    };
    if s.len() == 0 {
        assert(s.push(c)[0] == c);
        assert(s.push(c).drop_first() =~= Seq::<char>::empty());
        assert(spec_br_replaced(Seq::<char>::empty()) =~= Seq::<char>::empty());
        assert(spec_br_replaced(s.push(c)) =~= step);
        assert(spec_br_replaced(s) + step =~= step);
    } else {
        lemma_br_replaced_push(s.drop_first(), c);
        assert(s.push(c).drop_first() =~= s.drop_first().push(c));
        assert(s.push(c)[0] == s[0]);
        let head = if s[0] == '\n' {
            "<br />"@
        } else {
            Seq::empty().push(s[0])
        };
        assert(spec_br_replaced(s.push(c)) == head + (spec_br_replaced(s.drop_first()) + step));
        assert(head + (spec_br_replaced(s.drop_first()) + step) =~= (head + spec_br_replaced(
            s.drop_first(),
        )) + step);
    }
}

pub fn replace_newlines(s: &str) -> (r: String)
    ensures
        r@ == spec_br_replaced(s@),
{
    let n = s.unicode_len();
    let mut r = String::new();
    let mut i: usize = 0;
    while i < n
        invariant
            i <= n,
            n == s@.len(),
            r@ == spec_br_replaced(s@.take(i as int)),
        decreases n - i,
    {
        let c = s.get_char(i);
        if c == '\n' {
            r.append("<br />");
        } else {
            push_char(&mut r, c);
        }
        proof {
            assert(s@.take(i + 1 as int) =~= s@.take(i as int).push(s@[i as int]));
            lemma_br_replaced_push(s@.take(i as int), s@[i as int]);
        }
        i = i + 1;
    }
    proof {
        assert(s@.take(n as int) =~= s@);
    }
    r
}

/// A file name appended to a directory path, separated by a slash.
pub open spec fn spec_path_join(dir: Seq<char>, file: Seq<char>) -> Seq<char> {
    dir + "/"@ + file
}

pub fn path_join(dir: &String, file: &str) -> (r: String)
    ensures
        r@ == spec_path_join(dir@, file@),
{
    let mut r = dir.clone();
    r.append("/");
    r.append(file);
    proof {
        assert(r@ =~= spec_path_join(dir@, file@));
    }
    r
}

/// One character sequence is a prefix of another.
pub open spec fn spec_str_prefix(a: Seq<char>, b: Seq<char>) -> bool {
    a.len() <= b.len() && b.take(a.len() as int) == a
}

/// When two concatenations are the same string, the shorter head is a prefix
/// of the longer one.
pub proof fn lemma_concat_prefix(a1: Seq<char>, b1: Seq<char>, a2: Seq<char>, b2: Seq<char>)
    requires
        a1 + b1 == a2 + b2,
        a1.len() <= a2.len(),
    ensures
        spec_str_prefix(a1, a2),
{
    assert(a2.take(a1.len() as int) =~= a1) by {
        assert(forall|i: int| 0 <= i < a1.len() ==> (a1 + b1)[i] == a1[i]);
        assert(forall|i: int| 0 <= i < a2.len() ==> (a2 + b2)[i] == a2[i]);
    }
}

/// String equality between an owned string and a string slice, decided by
/// their character sequences.
pub fn str_eq(a: &String, b: &str) -> (r: bool)
    ensures
        r == (a@ == b@),
{
    let bs: String = b.to_owned();
    *a == bs
}

/// Strict lexicographic order on character sequences, by code point.
pub open spec fn spec_str_lt(a: Seq<char>, b: Seq<char>) -> bool
    decreases a.len(),
{
    if b.len() == 0 {
        false
    } else if a.len() == 0 {
        true
    } else if (a[0] as u32) < (b[0] as u32) {
        true
    } else if (a[0] as u32) > (b[0] as u32) {
        false
    } else {
        spec_str_lt(a.drop_first(), b.drop_first())
    }
}

pub fn str_lt(a: &String, b: &String) -> (r: bool)
    ensures
        r == spec_str_lt(a@, b@),
{
    let an = a.as_str().unicode_len();
    let bn = b.as_str().unicode_len();
    let mut i: usize = 0;
    proof {
        assert(a@.skip(0) =~= a@);
        assert(b@.skip(0) =~= b@);
    }
    loop
        invariant
            i <= an,
            i <= bn,
            an == a@.len(),
            bn == b@.len(),
            spec_str_lt(a@, b@) == spec_str_lt(a@.skip(i as int), b@.skip(i as int)),
        decreases an - i,
    {
        if i == bn {
            proof {
                assert(b@.skip(i as int).len() == 0);
            }
            return false;
        }
        if i == an {
            proof {
                assert(a@.skip(i as int).len() == 0);
                assert(b@.skip(i as int).len() > 0);
            }
            return true;
        }
        let ca = a.as_str().get_char(i);
        let cb = b.as_str().get_char(i);
        proof {
            assert(a@.skip(i as int)[0] == a@[i as int]);
            assert(b@.skip(i as int)[0] == b@[i as int]);
        }
        if (ca as u32) < (cb as u32) {
            return true;
        }
        if (ca as u32) > (cb as u32) {
            return false;
        }
        proof {
            assert(a@.skip(i as int).drop_first() =~= a@.skip(i + 1 as int));
            assert(b@.skip(i as int).drop_first() =~= b@.skip(i + 1 as int));
        }
        i = i + 1;
    }
}

} // verus!
