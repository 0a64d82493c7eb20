//! Resource references: parsing a URL-like string into scheme, host and
//! path.

use crate::chars::{chars_of, string_from_chars, subvec};
use vstd::prelude::*;

verus! {

/// A parsed resource reference.  The path always begins with `/`; the
/// host is empty for `file` references.
#[derive(Debug, Clone)]
pub struct Url {
    pub scheme: String,
    pub host: String,
    pub path: String,
}

/// The three-character scheme separator `://` starts at position `i` of `s`.
pub open spec fn sep_at(s: Seq<char>, i: int) -> bool {
    &&& 0 <= i
    &&& i + 3 <= s.len()
    &&& s[i] == ':'
    &&& s[i + 1] == '/'
    &&& s[i + 2] == '/'
}

/// The position of the first `://` at or after position `i` of `s`, or
/// `-1` if there is none.
pub open spec fn first_sep_from(s: Seq<char>, i: int) -> int
    recommends
        0 <= i,
    decreases s.len() - i,
{
    if i < 0 || i + 3 > s.len() {
        -1
    } else if sep_at(s, i) {
        i
    } else {
        first_sep_from(s, i + 1)
    }
}

/// The position of the first `c` at or after position `i` of `s`, or
/// `-1` if there is none.
pub open spec fn first_char_from(s: Seq<char>, c: char, i: int) -> int
    recommends
        0 <= i,
    decreases s.len() - i,
{
    if i < 0 || i >= s.len() {
        -1
    } else if s[i] == c {
        i
    } else {
        first_char_from(s, c, i + 1)
    }
}

/// The scheme of `s`: everything before the first `://`, empty if there
/// is none.
pub open spec fn spec_scheme(s: Seq<char>) -> Seq<char> {
    let j = first_sep_from(s, 0);
    if j >= 0 {
        s.take(j)
    } else {
        Seq::empty()
    }
}

/// What remains of `s` after the scheme separator: all of `s` if there
/// is none.
pub open spec fn spec_after_scheme(s: Seq<char>) -> Seq<char> {
    let j = first_sep_from(s, 0);
    if j >= 0 {
        s.skip(j + 3)
    } else {
        s
    }
}

/// The host of `s`: what stands between the scheme separator and the
/// first `/` after it.
pub open spec fn spec_host(s: Seq<char>) -> Seq<char> {
    let r = spec_after_scheme(s);
    let k = first_char_from(r, '/', 0);
    if k >= 0 {
        r.take(k)
    } else {
        r
    }
}

/// The path of `s`: everything after the first `/` that follows the
/// scheme separator, re-prefixed with `/`; a bare `/` if there is none.
pub open spec fn spec_path(s: Seq<char>) -> Seq<char> {
    let r = spec_after_scheme(s);
    let k = first_char_from(r, '/', 0);
    seq!['/'] + if k >= 0 {
        r.skip(k + 1)
    } else {
        Seq::empty()
    }
}

/// Positions before `j` hold no separator, so the search for the first
/// one may as well start at `j`.
proof fn lemma_sep_skip(s: Seq<char>, j: int)
    requires
        0 <= j,
        forall|k: int| 0 <= k < j ==> !sep_at(s, k),
    ensures
        first_sep_from(s, 0) == first_sep_from(s, j),
    decreases j,
{
    if j > 0 {
        lemma_sep_skip(s, j - 1);
    }
}

/// Positions before `j` do not hold `c`, so the search for the first
/// occurrence may as well start at `j`.
proof fn lemma_char_skip(s: Seq<char>, c: char, j: int)
    requires
        0 <= j,
        forall|k: int| 0 <= k < j ==> s[k] != c,
    ensures
        first_char_from(s, c, 0) == first_char_from(s, c, j),
    decreases j,
{
    if j > 0 {
        lemma_char_skip(s, c, j - 1);
    }
}

/// The position of the first `://` in `v`, if any.
fn find_sep(v: &Vec<char>) -> (r: Option<usize>)
    ensures
        match r {
            Some(j) => first_sep_from(v@, 0) == j && sep_at(v@, j as int),
            None => first_sep_from(v@, 0) == -1,
        },
{
    let mut i: usize = 0;
    while i < v.len() && v.len() - i >= 3
        invariant
            i <= v@.len(),
            forall|k: int| 0 <= k < i ==> !sep_at(v@, k),
        decreases v.len() - i,
    {
        if v[i] == ':' && v[i + 1] == '/' && v[i + 2] == '/' {
            proof {
                lemma_sep_skip(v@, i as int);
            }
            return Some(i);
        }
        i = i + 1;
    }
    proof {
        lemma_sep_skip(v@, i as int);
    }
    None
}

/// The position of the first `c` in `v`, if any.
pub(crate) fn find_char(v: &Vec<char>, c: char) -> (r: Option<usize>)
    ensures
        match r {
            Some(j) => first_char_from(v@, c, 0) == j && j < v@.len() && v@[j as int] == c,
            None => first_char_from(v@, c, 0) == -1,
        },
{
    let mut i: usize = 0;
    while i < v.len()
        invariant
            i <= v@.len(),
            forall|k: int| 0 <= k < i ==> v@[k] != c,
        decreases v.len() - i,
    {
        if v[i] == c {
            proof {
                lemma_char_skip(v@, c, i as int);
            }
            return Some(i);
        }
        i = i + 1;
    }
    proof {
        lemma_char_skip(v@, c, i as int);
    }
    None
}

impl Url {
    /// Parses a URL-like string: the scheme is what stands before the
    /// first `://` (empty if there is none), the host is what stands
    /// before the next `/`, and the path is everything after it,
    /// re-prefixed with `/`.  Parsing is total: it never fails, and no
    /// scheme or host syntax is checked here.
    pub fn new(input: &str) -> (url: Url)
        ensures
            url.scheme@ == spec_scheme(input@),
            url.host@ == spec_host(input@),
            url.path@ == spec_path(input@),
    {
        let chars = chars_of(input);
        let n = chars.len();
        let (scheme_v, rest) = match find_sep(&chars) {
            Some(j) => {
                (subvec(&chars, 0, j), subvec(&chars, j + 3, n))
            },
            None => {
                (Vec::new(), subvec(&chars, 0, n))
            },
        };
        proof {
            assert(scheme_v@ =~= spec_scheme(input@));
            assert(rest@ =~= spec_after_scheme(input@));
        }
        let (host_v, tail_v) = match find_char(&rest, '/') {
            Some(k) => {
                (subvec(&rest, 0, k), subvec(&rest, k + 1, rest.len()))
            },
            None => {
                let whole = subvec(&rest, 0, rest.len());
                (whole, Vec::new())
            },
        };
        proof {
            assert(host_v@ =~= spec_host(input@));
        }
        let mut path = String::new();
        crate::chars::push_char(&mut path, '/');
        let tail = string_from_chars(&tail_v);
        path.append(tail.as_str());
        proof {
            assert(path@ =~= spec_path(input@));
        }
        Url { scheme: string_from_chars(&scheme_v), host: string_from_chars(&host_v), path }
    }
}

/// Law: an input assembled as `scheme://host/tail` parses back into
/// exactly that scheme, that host, and the path `/tail`, provided the
/// scheme holds no `://` of its own and the host holds no `/`.
pub proof fn lemma_parse_components(scheme: Seq<char>, host: Seq<char>, tail: Seq<char>)
    requires
        forall|k: int| !sep_at(scheme, k),
        forall|k: int| 0 <= k < host.len() ==> host[k] != '/',
    ensures
        spec_scheme(scheme + seq![':', '/', '/'] + host + seq!['/'] + tail) == scheme,
        spec_host(scheme + seq![':', '/', '/'] + host + seq!['/'] + tail) == host,
        spec_path(scheme + seq![':', '/', '/'] + host + seq!['/'] + tail) == seq!['/'] + tail,
{
    let input = scheme + seq![':', '/', '/'] + host + seq!['/'] + tail;
    let n = scheme.len() as int;
    assert forall|k: int| 0 <= k < n implies !sep_at(input, k) by {
        if k + 3 <= n {
            assert(!sep_at(scheme, k));
            assert(input[k] == scheme[k] && input[k + 1] == scheme[k + 1] && input[k + 2]
                == scheme[k + 2]);
        } else if k == n - 1 {
            assert(input[k + 1] == ':');
        } else {
            assert(k == n - 2);
            assert(input[k + 2] == ':');
        }
    }
    lemma_sep_skip(input, n);
    assert(sep_at(input, n));
    assert(first_sep_from(input, 0) == n);
    assert(spec_scheme(input) =~= scheme);
    let r = spec_after_scheme(input);
    assert(r =~= host + seq!['/'] + tail);
    let m = host.len() as int;
    assert forall|k: int| 0 <= k < m implies r[k] != '/' by {
        assert(r[k] == host[k]);
    }
    lemma_char_skip(r, '/', m);
    assert(r[m] == '/');
    assert(first_char_from(r, '/', 0) == m);
    assert(spec_host(input) =~= host);
    assert(spec_path(input) =~= seq!['/'] + tail);
}

} // verus!
