//! Percent-encoding of path segments.
//!
//! A URI keeps percent-encoding verbatim: the model never decodes a stored
//! segment. Encoding enters in two places. The template validator requires a
//! static segment to stand for itself under encoding (every character is a
//! segment character), and the matcher compares static segments for equality
//! after percent-decoding, so `a%20b` and `a%20B` compare by their decoded
//! bytes.

use vstd::prelude::*;

verus! {

/// Whether `c` is an ASCII hexadecimal digit, of either case.
pub open spec fn spec_is_hex_digit(c: char) -> bool {
    ('0' <= c && c <= '9') || ('a' <= c && c <= 'f') || ('A' <= c && c <= 'F')
}

/// The numeric value of a hexadecimal digit.
pub open spec fn spec_hex_val(c: char) -> u8 {
    if '0' <= c && c <= '9' {
        (c as u8 - 48) as u8
    } else if 'a' <= c && c <= 'f' {
        (c as u8 - 87) as u8
    } else if 'A' <= c && c <= 'F' {
        (c as u8 - 55) as u8
    } else {
        0
    }
}

/// The uppercase hexadecimal digit for a value below sixteen.
pub open spec fn spec_upper_hex_digit(v: u8) -> char {
    if v < 10 {
        (48 + v) as char
    } else {
        (55 + v) as char
    }
}

/// A character accepted anywhere in a URI by the parser: the printable ASCII
/// range, space excluded. Stricter per-segment rules come on top of this.
pub open spec fn spec_uri_char(c: char) -> bool {
    '!' <= c && c <= '~'
}

/// A character that stands for itself in an encoded path segment: ASCII
/// letters and digits, the unreserved marks, the sub-delimiters, `:` and `@`,
/// and `%` (escapes are preserved verbatim, never re-encoded).
pub open spec fn spec_segment_char(c: char) -> bool {
    ('a' <= c && c <= 'z') || ('A' <= c && c <= 'Z') || ('0' <= c && c <= '9') || c == '-' || c
        == '.' || c == '_' || c == '~' || c == '!' || c == '$' || c == '&' || c == '\'' || c == '('
        || c == ')' || c == '*' || c == '+' || c == ',' || c == ';' || c == '=' || c == ':' || c
        == '@' || c == '%'
}

/// Every character of `s` stands for itself in an encoded segment.
pub open spec fn spec_segment_encoded(s: Seq<char>) -> bool {
    forall|i: int| 0 <= i < s.len() ==> spec_segment_char(#[trigger] s[i])
}

/// The percent-encoding of one ASCII character: itself when it is a segment
/// character, `%XX` with uppercase hexadecimal digits otherwise.
pub open spec fn spec_pct_encode_char(c: char) -> Seq<char> {
    if spec_segment_char(c) {
        seq![c]
    } else {
        seq!['%', spec_upper_hex_digit(c as u8 / 16), spec_upper_hex_digit(c as u8 % 16)]
    }
}

/// The percent-encoding of an ASCII character sequence.
pub open spec fn spec_pct_encode(s: Seq<char>) -> Seq<char>
    decreases s.len(),
{
    if s.len() == 0 {
        Seq::empty()
    } else {
        spec_pct_encode_char(s[0]) + spec_pct_encode(s.skip(1))
    }
}

/// The percent-decoding of an ASCII character sequence, as bytes: each `%`
/// followed by two hexadecimal digits (either case) becomes the byte they
/// name; every other character, a lone `%` included, keeps its own byte.
pub open spec fn spec_pct_decode(s: Seq<char>) -> Seq<u8>
    decreases s.len(),
{
    if s.len() == 0 {
        Seq::empty()
    } else if s[0] == '%' && s.len() >= 3 && spec_is_hex_digit(s[1]) && spec_is_hex_digit(s[2]) {
        seq![(spec_hex_val(s[1]) * 16 + spec_hex_val(s[2])) as u8] + spec_pct_decode(s.skip(3))
    } else {
        seq![s[0] as u8] + spec_pct_decode(s.skip(1))
    }
}

/// Relies on `percent_encoding::percent_encode_byte`: returns the
/// three-character string `%XX`, `XX` the byte's uppercase hexadecimal digits.
#[verifier::external_body]
pub(crate) fn pct_encode_byte(b: u8) -> (r: &'static str)
    ensures
        r@ == seq!['%', spec_upper_hex_digit(b / 16), spec_upper_hex_digit(b % 16)],
{
    percent_encoding::percent_encode_byte(b)
}

/// Relies on `percent_encoding::percent_decode_str`: replaces each `%` that
/// two hexadecimal digits follow with the byte they name, and hands every
/// other byte through unchanged.
#[verifier::external_body]
pub(crate) fn pct_decode_bytes(s: &str) -> (r: Vec<u8>)
    requires
        s.is_ascii(),
    ensures
        r@ == spec_pct_decode(s@),
{
    percent_encoding::percent_decode_str(s).collect()
}

/// Whether `c` is accepted anywhere in a URI by the parser.
pub fn is_uri_char(c: char) -> (r: bool)
    ensures
        r == spec_uri_char(c),
{
    let u = c as u32;
    33 <= u && u <= 126
}

/// Whether `c` stands for itself in an encoded segment.
pub fn is_segment_char(c: char) -> (r: bool)
    ensures
        r == spec_segment_char(c),
{
    let u = c as u32;
    (97 <= u && u <= 122) || (65 <= u && u <= 90) || (48 <= u && u <= 57) || c == '-' || c == '.'
        || c == '_' || c == '~' || c == '!' || c == '$' || c == '&' || c == '\'' || c == '(' || c
        == ')' || c == '*' || c == '+' || c == ',' || c == ';' || c == '=' || c == ':' || c == '@'
        || c == '%'
}

/// Whether every character of `s` stands for itself in an encoded segment,
/// that is, whether percent-encoding `s` yields `s` again.
pub fn segment_is_encoded(s: &str) -> (r: bool)
    ensures
        r == spec_segment_encoded(s@),
{
    let len = s.unicode_len();
    let mut i: usize = 0;
    while i < len
        invariant
            0 <= i <= len,
            len == s@.len(),
            forall|j: int| 0 <= j < i ==> spec_segment_char(#[trigger] s@[j]),
        decreases len - i,
    {
        if !is_segment_char(s.get_char(i)) {
            return false;
        }
        i += 1;
    }
    true
}

/// Percent-encoding distributes over concatenation.
pub proof fn lemma_pct_encode_concat(a: Seq<char>, b: Seq<char>)
    ensures
        spec_pct_encode(a + b) == spec_pct_encode(a) + spec_pct_encode(b),
    decreases a.len(),
{
    if a.len() == 0 {
        assert(a + b =~= b);
        assert(spec_pct_encode(a) + spec_pct_encode(b) =~= spec_pct_encode(b));
    } else {
        lemma_pct_encode_concat(a.skip(1), b);
        assert((a + b).skip(1) =~= a.skip(1) + b);
        assert(spec_pct_encode(a + b) =~= spec_pct_encode(a) + spec_pct_encode(b));
    }
}

/// Percent-encode `s`: segment characters stand for themselves, every other
/// character becomes `%XX`. The input is a single segment, so it is ASCII.
pub fn percent_encode(s: &str) -> (r: String)
    requires
        s.is_ascii(),
    ensures
        r@ == spec_pct_encode(s@),
{
    let len = s.unicode_len();
    let mut out = String::new();
    let mut i: usize = 0;
    while i < len
        invariant
            0 <= i <= len,
            len == s@.len(),
            s.is_ascii(),
            out@ == spec_pct_encode(s@.take(i as int)),
        decreases len - i,
    {
        let c = s.get_char(i);
        proof {
            assert(s@.take(i + 1) =~= s@.take(i as int) + seq![s@[i as int]]);
            lemma_pct_encode_concat(s@.take(i as int), seq![s@[i as int]]);
            assert(seq![s@[i as int]].skip(1) =~= Seq::<char>::empty());
            assert(spec_pct_encode(Seq::<char>::empty()) =~= Seq::<char>::empty());
            assert(spec_pct_encode(seq![s@[i as int]]) =~= spec_pct_encode_char(s@[i as int]));
        }
        if is_segment_char(c) {
            let piece = s.substring_char(i, i + 1);
            proof {
                assert(piece@ =~= seq![s@[i as int]]);
            }
            out.append(piece);
        } else {
            assert('\0' <= c <= '\u{7f}');
            out.append(pct_encode_byte(c as u8));
        }
        i += 1;
    }
    proof {
        assert(s@.take(len as int) =~= s@);
    }
    out
}

/// Percent-encoding an already-encoded segment yields the segment itself: the
/// public encoding operation is idempotent.
pub proof fn lemma_pct_encode_identity(s: Seq<char>)
    requires
        spec_segment_encoded(s),
    ensures
        spec_pct_encode(s) == s,
    decreases s.len(),
{
    if s.len() == 0 {
        assert(spec_pct_encode(s) =~= s);
    } else {
        lemma_pct_encode_identity(s.skip(1));
        assert(spec_pct_encode(s) =~= s);
    }
}

} // verus!
