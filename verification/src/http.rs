//! The HTTP side of a fetch: the exact request text, and the reading of
//! a response header block down to the declared body length.

use crate::chars::{chars_of, subvec};
use crate::url::{find_char, first_char_from, Url};
use vstd::prelude::*;

verus! {

// ---------------------------------------------------------------------------
// Request text
// ---------------------------------------------------------------------------

/// The exact request written for a resource: a `GET` of the path (or
/// `/` when the path is empty), `HTTP/1.1`, the `Host`, `Connection:
/// keep-alive` and `User-Agent` headers, a blank line, `\r\n` endings
/// throughout, and no body.
pub open spec fn spec_request(host: Seq<char>, path: Seq<char>) -> Seq<char> {
    "GET "@ + (if path.len() == 0 {
        "/"@
    } else {
        path
    }) + " HTTP/1.1\r\nHost: "@ + host
        + "\r\nConnection: keep-alive\r\nUser-Agent: RustBrowser/1.0\r\n\r\n"@
}

/// Builds the request text for `url`.
pub fn request_text(url: &Url) -> (r: String)
    ensures
        r@ == spec_request(url.host@, url.path@),
{
    let mut r = String::new();
    r.append("GET ");
    if url.path.as_str().is_empty() {
        r.append("/");
    } else {
        r.append(url.path.as_str());
    }
    r.append(" HTTP/1.1\r\nHost: ");
    r.append(url.host.as_str());
    r.append("\r\nConnection: keep-alive\r\nUser-Agent: RustBrowser/1.0\r\n\r\n");
    proof {
        assert(r@ =~= spec_request(url.host@, url.path@));
    }
    r
}

// ---------------------------------------------------------------------------
// Whitespace and trimming
// ---------------------------------------------------------------------------

/// Whether the Unicode white-space property holds of `c`; it depends on
/// the character alone.
pub uninterp spec fn white_space(c: char) -> bool;

/// Relies on `char::is_whitespace`: tests the Unicode white-space
/// property, which holds of the blank, tab, carriage-return and newline
/// characters among others, and of no visible ASCII character.
pub assume_specification[ char::is_whitespace ](c: char) -> (r: bool)
    ensures
        r == white_space(c),
        c == ' ' || c == '\t' || c == '\r' || c == '\n' ==> r,
        33 <= c as u32 <= 126 ==> !r,
;

/// `s` without its leading white space.
pub open spec fn spec_trim_start(s: Seq<char>) -> Seq<char>
    decreases s.len(),
{
    if s.len() > 0 && white_space(s[0]) {
        spec_trim_start(s.drop_first())
    } else {
        s
    }
}

/// `s` without its trailing white space.
pub open spec fn spec_trim_end(s: Seq<char>) -> Seq<char>
    decreases s.len(),
{
    if s.len() > 0 && white_space(s.last()) {
        spec_trim_end(s.drop_last())
    } else {
        s
    }
}

/// `s` without leading or trailing white space.
pub open spec fn spec_trim(s: Seq<char>) -> Seq<char> {
    spec_trim_end(spec_trim_start(s))
}

/// The trimmed form of `v`.
fn trim_chars(v: &Vec<char>) -> (r: Vec<char>)
    ensures
        r@ == spec_trim(v@),
{
    let mut start: usize = 0;
    proof {
        assert(v@.skip(0) =~= v@);
    }
    while start < v.len() && v[start].is_whitespace()
        invariant
            start <= v@.len(),
            spec_trim_start(v@) == spec_trim_start(v@.skip(start as int)),
        decreases v.len() - start,
    {
        proof {
            assert(v@.skip(start as int)[0] == v@[start as int]);
            assert(v@.skip(start as int).drop_first() =~= v@.skip(start as int + 1));
        }
        start = start + 1;
    }
    let ghost t = v@.skip(start as int);
    proof {
        assert(spec_trim_start(t) == t);
    }
    let mut end: usize = v.len();
    while end > start && v[end - 1].is_whitespace()
        invariant
            start <= end <= v@.len(),
            spec_trim_start(v@) == t,
            t == v@.skip(start as int),
            spec_trim_end(t) == spec_trim_end(v@.subrange(start as int, end as int)),
        decreases end,
    {
        proof {
            let cur = v@.subrange(start as int, end as int);
            assert(cur.last() == v@[end as int - 1]);
            assert(cur.drop_last() =~= v@.subrange(start as int, end as int - 1));
        }
        end = end - 1;
    }
    proof {
        let cur = v@.subrange(start as int, end as int);
        assert(spec_trim_end(cur) == cur);
    }
    subvec(v, start, end)
}

// ---------------------------------------------------------------------------
// Case-insensitive header-name matching
// ---------------------------------------------------------------------------

/// ASCII upper-case letter.
pub open spec fn ascii_upper(c: char) -> bool {
    65 <= c as u32 <= 90
}

/// The two characters are equal up to ASCII case.
pub open spec fn char_eq_ignore_case(a: char, b: char) -> bool {
    ||| a as u32 == b as u32
    ||| (ascii_upper(a) && a as u32 + 32 == b as u32)
    ||| (ascii_upper(b) && b as u32 + 32 == a as u32)
}

/// The two texts are equal up to ASCII case.
pub open spec fn seq_eq_ignore_case(a: Seq<char>, b: Seq<char>) -> bool {
    a.len() == b.len() && forall|i: int| 0 <= i < a.len() ==> char_eq_ignore_case(a[i], b[i])
}

/// Compares two character vectors up to ASCII case.
fn eq_ignore_case_chars(a: &Vec<char>, b: &Vec<char>) -> (r: bool)
    ensures
        r == seq_eq_ignore_case(a@, b@),
{
    if a.len() != b.len() {
        return false;
    }
    let mut i: usize = 0;
    while i < a.len()
        invariant
            i <= a@.len(),
            a@.len() == b@.len(),
            forall|k: int| 0 <= k < i ==> char_eq_ignore_case(a@[k], b@[k]),
        decreases a.len() - i,
    {
        let ua = a[i] as u32;
        let ub = b[i] as u32;
        let same = ua == ub || (65 <= ua && ua <= 90 && ua + 32 == ub) || (65 <= ub && ub <= 90
            && ub + 32 == ua);
        if !same {
            return false;
        }
        i = i + 1;
    }
    true
}

// ---------------------------------------------------------------------------
// The content-length value
// ---------------------------------------------------------------------------

/// ASCII decimal digit.
pub open spec fn is_digit(c: char) -> bool {
    48 <= c as u32 <= 57
}

/// The value of a decimal digit.
pub open spec fn digit_val(c: char) -> nat {
    (c as u32 - 48) as nat
}

/// Every character of `s` is a decimal digit.
pub open spec fn all_digits(s: Seq<char>) -> bool {
    forall|i: int| 0 <= i < s.len() ==> is_digit(s[i])
}

/// The number that the digit text `s` denotes.
pub open spec fn dec_val(s: Seq<char>) -> nat
    decreases s.len(),
{
    if s.len() == 0 {
        0
    } else {
        dec_val(s.drop_last()) * 10 + digit_val(s.last())
    }
}

/// The digits of an unsigned number text: an optional leading `+` is
/// dropped.
pub open spec fn numeric_body(s: Seq<char>) -> Seq<char> {
    if s.len() > 0 && s[0] == '+' {
        s.drop_first()
    } else {
        s
    }
}

/// `s` is a well-formed unsigned number text: after the optional `+`,
/// one or more decimal digits and nothing else.
pub open spec fn is_uint_text(s: Seq<char>) -> bool {
    numeric_body(s).len() > 0 && all_digits(numeric_body(s))
}

/// The value a header's number text denotes: the text is trimmed, and
/// an unparsable or out-of-range text counts as zero rather than as a
/// failure.
pub open spec fn spec_value_or_zero(s: Seq<char>) -> nat {
    let t = spec_trim(s);
    if is_uint_text(t) && dec_val(numeric_body(t)) <= usize::MAX {
        dec_val(numeric_body(t))
    } else {
        0
    }
}

/// A longer digit text denotes no smaller a number.
proof fn lemma_dec_val_prefix(s: Seq<char>, i: int)
    requires
        0 <= i <= s.len(),
    ensures
        dec_val(s.take(i)) <= dec_val(s),
    decreases s.len() - i,
{
    if i < s.len() {
        lemma_dec_val_prefix(s, i + 1);
        assert(s.take(i + 1).drop_last() =~= s.take(i));
        assert(dec_val(s.take(i + 1)) == dec_val(s.take(i)) * 10 + digit_val(s.take(i + 1).last()));
    } else {
        assert(s.take(i) =~= s);
    }
}

/// Parses the trimmed text as an unsigned number, yielding zero for
/// anything unparsable or out of range.
fn value_or_zero(v: &Vec<char>) -> (r: usize)
    ensures
        r == spec_value_or_zero(v@),
{
    let t = trim_chars(v);
    let ghost body = numeric_body(t@);
    let start: usize = if t.len() > 0 && t[0] == '+' {
        1
    } else {
        0
    };
    proof {
        assert(body =~= t@.skip(start as int));
    }
    if t.len() == start {
        return 0;
    }
    let mut acc: usize = 0;
    let mut i: usize = start;
    while i < t.len()
        invariant
            start <= i <= t@.len(),
            t@.len() > start,
            t@ == spec_trim(v@),
            body == numeric_body(t@),
            body == t@.skip(start as int),
            all_digits(body.take(i - start as int)),
            acc == dec_val(body.take(i - start as int)),
            acc <= usize::MAX,
        decreases t.len() - i,
    {
        let u = t[i] as u32;
        proof {
            assert(body[i - start as int] == t@[i as int]);
            assert(body.take(i + 1 - start as int).drop_last() =~= body.take(i - start as int));
            assert(body.take(i + 1 - start as int).last() == body[i - start as int]);
        }
        if u < 48 || u > 57 {
            proof {
                assert(!is_digit(body[i - start as int]));
                assert(!all_digits(body));
                assert(!is_uint_text(t@));
            }
            return 0;
        }
        let d = (u - 48) as usize;
        if acc > (usize::MAX - d) / 10 {
            proof {
                assert(dec_val(body.take(i + 1 - start as int)) == acc * 10 + d);
                assert(acc * 10 + d > usize::MAX) by (nonlinear_arith)
                    requires
                        acc > (usize::MAX - d) / 10,
                        d <= 9,
                {
                }
                lemma_dec_val_prefix(body, i + 1 - start as int);
                assert(dec_val(body) > usize::MAX);
            }
            return 0;
        }
        proof {
            assert(acc * 10 + d <= usize::MAX) by (nonlinear_arith)
                requires
                    acc <= (usize::MAX - d) / 10,
                    d <= 9,
            {
            }
        }
        acc = acc * 10 + d;
        i = i + 1;
    }
    proof {
        assert(body.take(t@.len() - start as int) =~= body);
        assert(is_uint_text(t@));
    }
    acc
}

// ---------------------------------------------------------------------------
// Header lines
// ---------------------------------------------------------------------------

/// The line names the `content-length` header: it splits on a first
/// `:`, and the trimmed name before it matches up to ASCII case.
pub open spec fn is_content_length_line(line: Seq<char>) -> bool {
    let k = first_char_from(line, ':', 0);
    k >= 0 && seq_eq_ignore_case(spec_trim(line.take(k)), "content-length"@)
}

/// What stands after the first `:` of the line.
pub open spec fn spec_header_value(line: Seq<char>) -> Seq<char> {
    line.skip(first_char_from(line, ':', 0) + 1)
}

/// The declared body length, if this header line declares one: the
/// line is split on its first `:`, both sides are trimmed, the name is
/// compared up to ASCII case, and an unparsable value counts as zero.
pub fn header_content_length(line: &str) -> (r: Option<usize>)
    ensures
        match r {
            Some(n) => is_content_length_line(line@) && n == spec_value_or_zero(
                spec_header_value(line@),
            ),
            None => !is_content_length_line(line@),
        },
{
    let v = chars_of(line);
    let n = v.len();
    match find_char(&v, ':') {
        Some(k) => {
            let key = subvec(&v, 0, k);
            let name = chars_of("content-length");
            proof {
                assert(key@ =~= v@.take(k as int));
            }
            let trimmed = trim_chars(&key);
            if eq_ignore_case_chars(&trimmed, &name) {
                let value = subvec(&v, k + 1, n);
                proof {
                    assert(value@ =~= spec_header_value(line@));
                }
                Some(value_or_zero(&value))
            } else {
                None
            }
        },
        None => None,
    }
}

/// Whether the line is blank after trimming: the end of the header
/// block.
pub fn is_blank_line(line: &str) -> (r: bool)
    ensures
        r == (spec_trim(line@).len() == 0),
{
    let v = chars_of(line);
    let t = trim_chars(&v);
    t.len() == 0
}

} // verus!
