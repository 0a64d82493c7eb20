//! Text extraction from markup: a tag-stripping pass followed by a
//! small fixed-table entity-decoding pass.

use crate::chars::{chars_of, string_from_chars};
use vstd::prelude::*;

verus! {

// ---------------------------------------------------------------------------
// Tag stripping
// ---------------------------------------------------------------------------

/// What remains of `s` after tag stripping, entered with the given
/// in-tag state: `<` enters a tag and `>` leaves it, every character
/// inside a tag (a newline among them) is dropped, and a newline
/// outside a tag is doubled as a paragraph break.
pub open spec fn strip_from(s: Seq<char>, in_tag: bool) -> Seq<char>
    decreases s.len(),
{
    if s.len() == 0 {
        Seq::empty()
    } else if s[0] == '<' {
        strip_from(s.drop_first(), true)
    } else if s[0] == '>' {
        strip_from(s.drop_first(), false)
    } else if in_tag {
        strip_from(s.drop_first(), true)
    } else if s[0] == '\n' {
        seq!['\n', '\n'] + strip_from(s.drop_first(), false)
    } else {
        seq![s[0]] + strip_from(s.drop_first(), false)
    }
}

/// The tag-stripped form of `s`, starting outside any tag.
pub open spec fn spec_strip(s: Seq<char>) -> Seq<char> {
    strip_from(s, false)
}

fn strip_chars(text: &Vec<char>) -> (out: Vec<char>)
    ensures
        out@ == spec_strip(text@),
{
    let mut out: Vec<char> = Vec::new();
    let mut in_tag = false;
    let mut i: usize = 0;
    proof {
        assert(text@.skip(0) =~= text@);
        assert(Seq::<char>::empty() + strip_from(text@, false) =~= strip_from(text@, false));
    }
    while i < text.len()
        invariant
            i <= text.len(),
            spec_strip(text@) == out@ + strip_from(text@.skip(i as int), in_tag),
        decreases text.len() - i,
    {
        proof {
            assert(text@.skip(i as int).drop_first() =~= text@.skip(i as int + 1));
            assert(text@.skip(i as int)[0] == text@[i as int]);
        }
        let ghost prev_out = out@;
        let c = text[i];
        if c == '<' {
            in_tag = true;
        } else if c == '>' {
            in_tag = false;
        } else if in_tag {
            // Inside a tag every character is dropped, a newline too.
        } else if c == '\n' {
            out.push('\n');
            out.push('\n');
            proof {
                assert(prev_out + (seq!['\n', '\n'] + strip_from(
                    text@.skip(i as int + 1),
                    in_tag,
                )) =~= out@ + strip_from(text@.skip(i as int + 1), in_tag));
            }
        } else {
            out.push(c);
            proof {
                assert(prev_out + (seq![c] + strip_from(text@.skip(i as int + 1), in_tag)) =~= out@
                    + strip_from(text@.skip(i as int + 1), in_tag));
            }
        }
        i = i + 1;
    }
    proof {
        assert(text@.skip(text@.len() as int) =~= Seq::<char>::empty());
        assert(out@ + Seq::<char>::empty() =~= out@);
    }
    out
}

/// Removes markup tags from `text`: characters between `<` and `>` are
/// dropped (the delimiters too), and each newline outside a tag is
/// doubled as a paragraph break.
pub fn strip_tags(text: &str) -> (r: String)
    ensures
        r@ == spec_strip(text@),
{
    let chars = chars_of(text);
    let stripped = strip_chars(&chars);
    string_from_chars(&stripped)
}

/// The character `c` does not occur in `s`.
pub open spec fn absent(s: Seq<char>, c: char) -> bool {
    forall|i: int| 0 <= i < s.len() ==> s[i] != c
}

/// Stripping leaves no `<` or `>` behind, and introduces a newline only
/// where the input already had one.
proof fn lemma_strip_alphabet(s: Seq<char>, t: bool)
    ensures
        absent(strip_from(s, t), '<'),
        absent(strip_from(s, t), '>'),
        absent(s, '\n') ==> absent(strip_from(s, t), '\n'),
    decreases s.len(),
{
    if s.len() == 0 {
    } else {
        let d = s.drop_first();
        assert(absent(s, '\n') ==> absent(d, '\n')) by {
            if absent(s, '\n') {
                assert forall|j: int| 0 <= j < d.len() implies d[j] != '\n' by {
                    assert(d[j] == s[j + 1]);
                }
            }
        }
        if s[0] == '<' {
            lemma_strip_alphabet(d, true);
        } else if s[0] == '>' {
            lemma_strip_alphabet(d, false);
        } else if t {
            lemma_strip_alphabet(d, true);
        } else if s[0] == '\n' {
            lemma_strip_alphabet(d, false);
            let r = strip_from(d, false);
            assert forall|i: int| 0 <= i < strip_from(s, t).len() implies #[trigger] strip_from(
                s,
                t,
            )[i] != '<' && strip_from(s, t)[i] != '>' by {
                if i >= 2 {
                    assert(strip_from(s, t)[i] == r[i - 2]);
                }
            }
        } else {
            lemma_strip_alphabet(d, false);
            let r = strip_from(d, false);
            assert forall|i: int| 0 <= i < strip_from(s, t).len() implies #[trigger] strip_from(
                s,
                t,
            )[i] != '<' && strip_from(s, t)[i] != '>' by {
                if i >= 1 {
                    assert(strip_from(s, t)[i] == r[i - 1]);
                } else {
                    assert(strip_from(s, t)[0] == s[0]);
                }
            }
            if absent(s, '\n') {
                assert forall|i: int|
                    0 <= i < strip_from(s, t).len() implies #[trigger] strip_from(s, t)[i]
                    != '\n' by {
                    if i >= 1 {
                        assert(strip_from(s, t)[i] == r[i - 1]);
                    } else {
                        assert(strip_from(s, t)[0] == s[0]);
                        assert(s[0] != '\n');
                    }
                }
            }
        }
    }
}

/// On text with no tag delimiter and no newline, stripping is the identity.
proof fn lemma_strip_plain_identity(s: Seq<char>)
    requires
        absent(s, '<'),
        absent(s, '>'),
        absent(s, '\n'),
    ensures
        strip_from(s, false) == s,
    decreases s.len(),
{
    if s.len() == 0 {
        assert(strip_from(s, false) =~= s);
    } else {
        let d = s.drop_first();
        assert forall|j: int| 0 <= j < d.len() implies d[j] == s[j + 1] by {}
        lemma_strip_plain_identity(d);
        assert(seq![s[0]] + d =~= s);
    }
}

/// Law: tag stripping is idempotent on text it has already stripped.  A
/// newline is excluded from the inputs, because each pass doubles it as a
/// paragraph break.
pub proof fn lemma_strip_idempotent(s: Seq<char>)
    requires
        absent(s, '\n'),
    ensures
        spec_strip(spec_strip(s)) == spec_strip(s),
{
    lemma_strip_alphabet(s, false);
    lemma_strip_plain_identity(spec_strip(s));
}

// ---------------------------------------------------------------------------
// Entity decoding
// ---------------------------------------------------------------------------

/// The four-character sequence `&lt;` starts at position `i` of `s`.
pub open spec fn lt_entity_at(s: Seq<char>, i: int) -> bool {
    i + 4 <= s.len() && s[i] == '&' && s[i + 1] == 'l' && s[i + 2] == 't' && s[i + 3] == ';'
}

/// The four-character sequence `&gt;` starts at position `i` of `s`.
pub open spec fn gt_entity_at(s: Seq<char>, i: int) -> bool {
    i + 4 <= s.len() && s[i] == '&' && s[i + 1] == 'g' && s[i + 2] == 't' && s[i + 3] == ';'
}

/// `s` with every `&lt;` replaced by `<` and every `&gt;` replaced by `>`;
/// all other characters pass through unchanged.
pub open spec fn spec_decode(s: Seq<char>) -> Seq<char>
    decreases s.len(),
{
    if s.len() == 0 {
        Seq::empty()
    } else if lt_entity_at(s, 0) {
        seq!['<'] + spec_decode(s.skip(4))
    } else if gt_entity_at(s, 0) {
        seq!['>'] + spec_decode(s.skip(4))
    } else {
        seq![s[0]] + spec_decode(s.drop_first())
    }
}

fn decode_chars(text: &Vec<char>) -> (out: Vec<char>)
    ensures
        out@ == spec_decode(text@),
{
    let mut out: Vec<char> = Vec::new();
    let mut i: usize = 0;
    proof {
        assert(text@.skip(0) =~= text@);
        assert(Seq::<char>::empty() + spec_decode(text@) =~= spec_decode(text@));
    }
    while i < text.len()
        invariant
            i <= text.len(),
            spec_decode(text@) == out@ + spec_decode(text@.skip(i as int)),
        decreases text.len() - i,
    {
        proof {
            assert(text@.skip(i as int).drop_first() =~= text@.skip(i as int + 1));
            assert forall|j: int| 0 <= j < text@.skip(i as int).len() implies text@.skip(
                i as int,
            )[j] == text@[i + j] by {}
        }
        let ghost prev_out = out@;
        let c = text[i];
        let mut entity = ' ';
        let mut is_entity = false;
        if c == '&' && text.len() - i > 3 && text[i + 2] == 't' && text[i + 3] == ';' {
            if text[i + 1] == 'l' {
                entity = '<';
                is_entity = true;
            } else if text[i + 1] == 'g' {
                entity = '>';
                is_entity = true;
            }
        }
        if is_entity {
            out.push(entity);
            i = i + 4;
            proof {
                assert(text@.skip(i as int - 4).skip(4) =~= text@.skip(i as int));
                assert(prev_out + (seq![entity] + spec_decode(text@.skip(i as int))) =~= out@
                    + spec_decode(text@.skip(i as int)));
            }
        } else {
            out.push(c);
            i = i + 1;
            proof {
                assert(prev_out + (seq![c] + spec_decode(text@.skip(i as int))) =~= out@
                    + spec_decode(text@.skip(i as int)));
            }
        }
    }
    proof {
        assert(text@.skip(text@.len() as int) =~= Seq::<char>::empty());
        assert(out@ + Seq::<char>::empty() =~= out@);
    }
    out
}

/// The plain text extracted from the markup `s`: tags are stripped first,
/// then the `&lt;`/`&gt;` entities of the remaining text are decoded.
pub open spec fn spec_extract(s: Seq<char>) -> Seq<char> {
    spec_decode(spec_strip(s))
}

/// Reduces markup to displayable text: strips tags, then decodes the
/// fixed entity table on the stripped text.
pub fn transform_entities(text: &str) -> (r: String)
    ensures
        r@ == spec_extract(text@),
{
    let chars = chars_of(text);
    let stripped = strip_chars(&chars);
    let decoded = decode_chars(&stripped);
    string_from_chars(&decoded)
}

// ---------------------------------------------------------------------------
// From body bytes to text
// ---------------------------------------------------------------------------

/// The characters that lossy UTF-8 decoding yields for the given bytes;
/// they depend on the bytes alone.
pub uninterp spec fn lossy_decode(bytes: Seq<u8>) -> Seq<char>;

/// Relies on `String::from_utf8_lossy`: decodes the bytes as UTF-8,
/// replacing invalid sequences, never failing.  The result is a
/// function of the bytes alone; no bytes decode to no characters, and
/// ASCII bytes, being valid UTF-8, decode to the same characters.
#[verifier::external_body]
fn utf8_lossy(bytes: &[u8]) -> (r: String)
    ensures
        r@ == lossy_decode(bytes@),
        bytes@.len() == 0 ==> r@.len() == 0,
        (forall|i: int| 0 <= i < bytes@.len() ==> bytes@[i] < 128) ==> r@ == bytes@.map_values(
            |b: u8| b as char,
        ),
{
    String::from_utf8_lossy(bytes).into_owned()
}

/// The displayable text of a response body: the bytes decoded as text
/// (invalid sequences replaced, never fatal), tags stripped, entities
/// decoded.
pub fn extract_text(body: &[u8]) -> (r: String)
    ensures
        r@ == spec_extract(lossy_decode(body@)),
{
    let text = utf8_lossy(body);
    transform_entities(text.as_str())
}

} // verus!
