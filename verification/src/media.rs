//! Media types and `Accept`-header negotiation.
//!
//! A route may declare one media type; a request carries an `Accept`-style
//! header, an ordered list of media ranges with quality values. Negotiation
//! scores the route's declared type against the header: an exact type and
//! subtype match with identical parameters ranks highest, a subtype wildcard
//! (`type/*`) lower, the full wildcard (`*/*`) lowest; a route matched by no
//! entry is excluded. Quality values are kept in thousandths, so `q=0.8` is
//! 800; a malformed quality value drops that entry alone, never the whole
//! header.

use vstd::prelude::*;

use crate::uri::find_char;
use crate::uri::lemma_find_char_present;
use crate::uri::lemma_find_char_sound;
use crate::uri::lemma_split_on_len;
use crate::uri::split_on;
use crate::uri::split_str;
use crate::uri::views;

verus! {

/// The ASCII lowercase of a character.
pub open spec fn spec_lower_char(c: char) -> char {
    if 'A' <= c && c <= 'Z' {
        ((c as u8) + 32) as char
    } else {
        c
    }
}

/// The ASCII lowercase of a character sequence.
pub open spec fn spec_lower(s: Seq<char>) -> Seq<char> {
    s.map_values(|c: char| spec_lower_char(c))
}

/// Case-insensitive equality of two texts, ASCII case only.
pub open spec fn spec_eq_ci(a: Seq<char>, b: Seq<char>) -> bool {
    spec_lower(a) == spec_lower(b)
}

/// Whether two strings are equal ignoring ASCII case.
pub fn eq_ignore_case(a: &str, b: &str) -> (r: bool)
    ensures
        r == spec_eq_ci(a@, b@),
{
    let alen = a.unicode_len();
    let blen = b.unicode_len();
    if alen != blen {
        proof {
            assert(spec_lower(a@).len() == a@.len());
            assert(spec_lower(b@).len() == b@.len());
        }
        return false;
    }
    let mut i: usize = 0;
    while i < alen
        invariant
            0 <= i <= alen,
            alen == a@.len(),
            alen == b@.len(),
            forall|j: int| 0 <= j < i ==> spec_lower(a@)[j] == spec_lower(b@)[j],
        decreases alen - i,
    {
        let ca = a.get_char(i);
        let cb = b.get_char(i);
        let la = if 65 <= ca as u32 && ca as u32 <= 90 {
            ((ca as u8) + 32) as char
        } else {
            ca
        };
        let lb = if 65 <= cb as u32 && cb as u32 <= 90 {
            ((cb as u8) + 32) as char
        } else {
            cb
        };
        if la != lb {
            proof {
                assert(spec_lower(a@)[i as int] != spec_lower(b@)[i as int]);
            }
            return false;
        }
        i += 1;
    }
    proof {
        assert(spec_lower(a@) =~= spec_lower(b@));
    }
    true
}

/// A media type: top-level type, subtype, and ordered parameters. `*` as top
/// or subtype is the wildcard. Stored as written; compared ignoring ASCII case
/// on type and subtype.
#[derive(Debug)]
pub struct MediaType {
    pub top: String,
    pub sub: String,
    pub params: Vec<(String, String)>,
}

/// One `Accept`-header entry: a media range and its quality in thousandths.
#[derive(Debug)]
pub struct QMedia {
    pub media: MediaType,
    pub q_millis: u16,
}

/// The failure of media-type or quality parsing.
#[derive(Clone, Copy, PartialEq, Eq, Structural, Debug)]
pub enum MediaError {
    MalformedMediaType,
    InvalidQuality,
}

/// The views of a parameter list.
pub open spec fn param_views(ps: Seq<(String, String)>) -> Seq<(Seq<char>, Seq<char>)> {
    ps.map_values(|p: (String, String)| (p.0@, p.1@))
}

/// How well an `Accept` entry covers a declared media type: an exact match
/// with identical parameters scores two, a subtype wildcard one, the full
/// wildcard zero, anything else no match.
pub open spec fn spec_entry_specificity(decl: MediaType, entry: MediaType) -> Option<int> {
    if spec_eq_ci(entry.top@, decl.top@) && spec_eq_ci(entry.sub@, decl.sub@) && param_views(
        entry.params@,
    ) == param_views(decl.params@) {
        Some(2int)
    } else if spec_eq_ci(entry.top@, decl.top@) && entry.sub@ == seq!['*'] {
        Some(1int)
    } else if entry.top@ == seq!['*'] && entry.sub@ == seq!['*'] {
        Some(0int)
    } else {
        None
    }
}

/// The negotiated score of a declared media type against an `Accept` list:
/// the specificity and quality of the best entry, specificity first, the
/// quality value breaking ties, earlier entries winning exact ties.
pub open spec fn spec_negotiate(decl: MediaType, accept: Seq<QMedia>) -> Option<(int, int)>
    decreases accept.len(),
{
    if accept.len() == 0 {
        None
    } else {
        let rest = spec_negotiate(decl, accept.skip(1));
        match spec_entry_specificity(decl, accept[0].media) {
            None => rest,
            Some(sp) => {
                let here = (sp, accept[0].q_millis as int);
                match rest {
                    None => Some(here),
                    Some(best) => if best.0 > here.0 || (best.0 == here.0 && best.1 > here.1) {
                        Some(best)
                    } else {
                        Some(here)
                    },
                }
            },
        }
    }
}

/// How well one entry covers the declared type.
fn entry_specificity(decl: &MediaType, entry: &MediaType) -> (r: Option<u8>)
    ensures
        match r {
            Some(sp) => spec_entry_specificity(*decl, *entry) == Some(sp as int),
            None => spec_entry_specificity(*decl, *entry) == None::<int>,
        },
{
    let top_eq = eq_ignore_case(entry.top.as_str(), decl.top.as_str());
    let sub_eq = eq_ignore_case(entry.sub.as_str(), decl.sub.as_str());
    if top_eq && sub_eq && params_equal(&entry.params, &decl.params) {
        Some(2)
    } else if top_eq && is_star(&entry.sub) {
        Some(1)
    } else if is_star(&entry.top) && is_star(&entry.sub) {
        Some(0)
    } else {
        None
    }
}

/// Whether `s` is the one-character wildcard `*`.
fn is_star(s: &String) -> (r: bool)
    ensures
        r == (s@ == seq!['*']),
{
    let len = s.as_str().unicode_len();
    if len != 1 {
        return false;
    }
    let r = s.as_str().get_char(0) == '*';
    proof {
        if r {
            assert(s@ =~= seq!['*']);
        }
    }
    r
}

/// Whether two parameter lists are equal, name for name and value for value.
fn params_equal(a: &Vec<(String, String)>, b: &Vec<(String, String)>) -> (r: bool)
    ensures
        r == (param_views(a@) == param_views(b@)),
{
    if a.len() != b.len() {
        proof {
            assert(param_views(a@).len() == a@.len());
            assert(param_views(b@).len() == b@.len());
        }
        return false;
    }
    let n = a.len();
    let mut i: usize = 0;
    while i < n
        invariant
            0 <= i <= n,
            n == a@.len(),
            n == b@.len(),
            forall|j: int| 0 <= j < i ==> param_views(a@)[j] == param_views(b@)[j],
        decreases n - i,
    {
        let name_eq = a[i].0 == b[i].0;
        let val_eq = a[i].1 == b[i].1;
        if !name_eq || !val_eq {
            proof {
                assert(param_views(a@)[i as int] == (a@[i as int].0@, a@[i as int].1@));
                assert(param_views(b@)[i as int] == (b@[i as int].0@, b@[i as int].1@));
            }
            return false;
        }
        i += 1;
    }
    proof {
        assert(param_views(a@) =~= param_views(b@));
    }
    true
}

/// The negotiated score of the declared type against an `Accept` list.
pub fn negotiate(decl: &MediaType, accept: &Vec<QMedia>) -> (r: Option<(u8, u16)>)
    ensures
        match r {
            Some(s) => spec_negotiate(*decl, accept@) == Some((s.0 as int, s.1 as int)),
            None => spec_negotiate(*decl, accept@) == None::<(int, int)>,
        },
{
    let n = accept.len();
    let mut best: Option<(u8, u16)> = None;
    proof {
        assert(accept@.skip(n as int) =~= Seq::<QMedia>::empty());
        assert(spec_negotiate(*decl, Seq::<QMedia>::empty()) == None::<(int, int)>);
    }
    let mut i: usize = n;
    while i > 0
        invariant
            0 <= i <= n,
            n == accept@.len(),
            match best {
                Some(s) => spec_negotiate(*decl, accept@.skip(i as int)) == Some(
                    (s.0 as int, s.1 as int),
                ),
                None => spec_negotiate(*decl, accept@.skip(i as int)) == None::<(int, int)>,
            },
        decreases i,
    {
        i = i - 1;
        proof {
            assert(accept@.skip(i as int)[0] == accept@[i as int]);
            assert(accept@.skip(i as int).skip(1) =~= accept@.skip(i as int + 1));
        }
        let sp = entry_specificity(decl, &accept[i].media);
        match sp {
            None => {},
            Some(spv) => {
                let here = (spv, accept[i].q_millis);
                best = match best {
                    None => Some(here),
                    Some(b) => if b.0 > here.0 || (b.0 == here.0 && b.1 > here.1) {
                        Some(b)
                    } else {
                        Some(here)
                    },
                };
            },
        }
    }
    proof {
        assert(accept@.skip(0) =~= accept@);
    }
    best
}

/// Whether `c` is an ASCII decimal digit.
pub open spec fn spec_is_digit(c: char) -> bool {
    '0' <= c && c <= '9'
}

/// The quality value named by a text, in thousandths: `0` or `1`, optionally
/// followed by `.` and at most three digits, worth at most one; anything else
/// is malformed.
pub open spec fn spec_parse_q(s: Seq<char>) -> Option<int> {
    if s.len() == 0 || !(s[0] == '0' || s[0] == '1') {
        None
    } else if s.len() == 1 {
        Some(if s[0] == '1' {
            1000int
        } else {
            0int
        })
    } else if s[1] != '.' || s.len() > 5 {
        None
    } else if !(forall|j: int| 2 <= j < s.len() ==> spec_is_digit(#[trigger] s[j])) {
        None
    } else {
        let v = spec_q_value(s);
        if v <= 1000 {
            Some(v)
        } else {
            None
        }
    }
}

/// The thousandths that the digits of `d.ddd` name.
pub open spec fn spec_q_value(s: Seq<char>) -> int {
    (if s[0] == '1' {
        1000int
    } else {
        0int
    }) + (if s.len() > 2 {
        (s[2] as int - 48) * 100
    } else {
        0int
    }) + (if s.len() > 3 {
        (s[3] as int - 48) * 10
    } else {
        0int
    }) + (if s.len() > 4 {
        (s[4] as int - 48) * 1
    } else {
        0int
    })
}

/// Parse a quality value into thousandths; [`MediaError::InvalidQuality`]
/// exactly when the text is not a quality value of at most one.
pub fn parse_q(s: &str) -> (r: Result<u16, MediaError>)
    ensures
        match r {
            Ok(v) => spec_parse_q(s@) == Some(v as int) && v <= 1000,
            Err(e) => spec_parse_q(s@) == None::<int> && e == MediaError::InvalidQuality,
        },
{
    let len = s.unicode_len();
    if len == 0 {
        return Err(MediaError::InvalidQuality);
    }
    let c0 = s.get_char(0);
    if !(c0 == '0' || c0 == '1') {
        return Err(MediaError::InvalidQuality);
    }
    let whole: u16 = if c0 == '1' {
        1000
    } else {
        0
    };
    if len == 1 {
        return Ok(whole);
    }
    if s.get_char(1) != '.' || len > 5 {
        return Err(MediaError::InvalidQuality);
    }
    let mut v: u16 = whole;
    let mut i: usize = 2;
    let mut scale: u16 = 100;
    while i < len
        invariant
            2 <= i <= len,
            len == s@.len(),
            2 <= len <= 5,
            forall|j: int| 2 <= j < i ==> spec_is_digit(#[trigger] s@[j]),
            scale == (if i == 2 {
                100int
            } else if i == 3 {
                10int
            } else if i == 4 {
                1int
            } else {
                0int
            }),
            v == (if s@[0] == '1' {
                1000int
            } else {
                0int
            }) + (if i > 2 {
                (s@[2] as int - 48) * 100
            } else {
                0int
            }) + (if i > 3 {
                (s@[3] as int - 48) * 10
            } else {
                0int
            }) + (if i > 4 {
                (s@[4] as int - 48) * 1
            } else {
                0int
            }),
        decreases len - i,
    {
        let c = s.get_char(i);
        let u = c as u32;
        if !(48 <= u && u <= 57) {
            return Err(MediaError::InvalidQuality);
        }
        v = v + (((u - 48) as u16) * scale);
        scale = scale / 10;
        i += 1;
    }
    if v > 1000 {
        return Err(MediaError::InvalidQuality);
    }
    Ok(v)
}

/// Leading spaces removed.
pub open spec fn spec_trim_front(s: Seq<char>) -> Seq<char>
    decreases s.len(),
{
    if s.len() > 0 && s[0] == ' ' {
        spec_trim_front(s.skip(1))
    } else {
        s
    }
}

/// Trailing spaces removed.
pub open spec fn spec_trim_back(s: Seq<char>) -> Seq<char>
    decreases s.len(),
{
    if s.len() > 0 && s.last() == ' ' {
        spec_trim_back(s.drop_last())
    } else {
        s
    }
}

/// Leading and trailing spaces removed.
pub open spec fn spec_trim(s: Seq<char>) -> Seq<char> {
    spec_trim_front(spec_trim_back(s))
}

/// Trimming the front takes the text from its first non-space character.
proof fn lemma_trim_front(s: Seq<char>, a: int)
    requires
        0 <= a <= s.len(),
        forall|j: int| 0 <= j < a ==> s[j] == ' ',
        a < s.len() ==> s[a] != ' ',
    ensures
        spec_trim_front(s) == s.skip(a),
    decreases a,
{
    if a == 0 {
        assert(s.skip(0) =~= s);
    } else {
        assert(forall|j: int| 0 <= j < s.skip(1).len() ==> s.skip(1)[j] == s[j + 1]);
        lemma_trim_front(s.skip(1), a - 1);
        assert(s.skip(1).skip(a - 1) =~= s.skip(a));
    }
}

/// Trimming the back takes the text up to past its last non-space character.
proof fn lemma_trim_back(s: Seq<char>, b: int)
    requires
        0 <= b <= s.len(),
        forall|j: int| b <= j < s.len() ==> s[j] == ' ',
        b > 0 ==> s[b - 1] != ' ',
    ensures
        spec_trim_back(s) == s.take(b),
    decreases s.len() - b,
{
    if b == s.len() {
        assert(s.take(b) =~= s);
    } else {
        assert(forall|j: int| 0 <= j < s.drop_last().len() ==> s.drop_last()[j] == s[j]);
        lemma_trim_back(s.drop_last(), b);
        assert(s.drop_last().take(b) =~= s.take(b));
    }
}

/// The text with leading and trailing spaces removed.
pub fn trim_str(s: &str) -> (r: String)
    ensures
        r@ == spec_trim(s@),
{
    let len = s.unicode_len();
    let mut b: usize = len;
    while b > 0 && s.get_char(b - 1) == ' '
        invariant
            0 <= b <= len,
            len == s@.len(),
            forall|j: int| b <= j < len ==> s@[j] == ' ',
        decreases b,
    {
        b = b - 1;
    }
    let mut a: usize = 0;
    while a < b && s.get_char(a) == ' '
        invariant
            0 <= a <= b <= len,
            len == s@.len(),
            forall|j: int| 0 <= j < a ==> s@[j] == ' ',
        decreases b - a,
    {
        a = a + 1;
    }
    proof {
        lemma_trim_back(s@, b as int);
        let t = s@.take(b as int);
        assert(forall|j: int| 0 <= j < a ==> t[j] == ' ');
        lemma_trim_front(t, a as int);
    }
    let r = s.substring_char(a, b);
    proof {
        assert(s@.take(b as int).skip(a as int) =~= s@.subrange(a as int, b as int));
    }
    r.to_owned()
}

/// Whether a `;`-separated clause is a parameter: after trimming, a `=` with
/// a non-empty name before it.
pub open spec fn spec_media_part_ok(part: Seq<char>) -> bool {
    match find_char(spec_trim(part), '=') {
        None => false,
        Some(e) => e > 0,
    }
}

/// The parameter a clause names: the text before the first `=` and the text
/// after it, the clause trimmed first.
pub open spec fn spec_param_of(part: Seq<char>) -> (Seq<char>, Seq<char>) {
    let t = spec_trim(part);
    match find_char(t, '=') {
        None => (t, Seq::empty()),
        Some(e) => (t.take(e), t.skip(e + 1)),
    }
}

/// Whether a media-type text is accepted: its first `;`-separated clause is
/// `top/sub` with both sides non-empty, and every further clause is a
/// parameter.
pub open spec fn spec_media_ok(s: Seq<char>) -> bool {
    let parts = split_on(s, ';');
    let tp = split_on(spec_trim(parts[0]), '/');
    &&& tp.len() == 2
    &&& tp[0].len() > 0
    &&& tp[1].len() > 0
    &&& forall|j: int| 1 <= j < parts.len() ==> spec_media_part_ok(#[trigger] parts[j])
}

/// The first occurrence of `c` in `s`, by scanning.
fn find_char_str(s: &str, c: char) -> (r: Option<usize>)
    ensures
        match r {
            Some(i) => find_char(s@, c) == Some(i as int),
            None => find_char(s@, c) == None::<int>,
        },
{
    let len = s.unicode_len();
    let mut i: usize = 0;
    while i < len
        invariant
            0 <= i <= len,
            len == s@.len(),
            forall|j: int| 0 <= j < i ==> s@[j] != c,
        decreases len - i,
    {
        if s.get_char(i) == c {
            proof {
                lemma_find_char_present(s@, c, i as int);
            }
            return Some(i);
        }
        i += 1;
    }
    proof {
        lemma_find_char_sound(s@, c);
        if find_char(s@, c) is Some {
            let k = find_char(s@, c)->0;
            assert(s@[k] != c);
        }
    }
    None
}

/// Parse a declared media-type text: `top/sub`, then `;`-separated `key=value`
/// parameters, each clause trimmed of surrounding spaces. Fails with
/// [`MediaError::MalformedMediaType`] exactly when the text is not of that
/// shape.
#[verifier::loop_isolation(false)]
pub fn parse_media_type(s: &str) -> (r: Result<MediaType, MediaError>)
    ensures
        match r {
            Ok(m) => {
                let parts = split_on(s@, ';');
                let tp = split_on(spec_trim(parts[0]), '/');
                &&& spec_media_ok(s@)
                &&& m.top@ == tp[0]
                &&& m.sub@ == tp[1]
                &&& param_views(m.params@) == Seq::new(
                    (parts.len() - 1) as nat,
                    |j: int| spec_param_of(parts[j + 1]),
                )
            },
            Err(e) => !spec_media_ok(s@) && e == MediaError::MalformedMediaType,
        },
{
    let parts = split_str(s, ';');
    let ghost pv = views(parts@);
    proof {
        lemma_split_on_len(s@, ';');
    }
    let head = trim_str(parts[0].as_str());
    let tp = split_str(head.as_str(), '/');
    if tp.len() != 2 {
        return Err(MediaError::MalformedMediaType);
    }
    let top = tp[0].as_str().to_owned();
    let sub = tp[1].as_str().to_owned();
    if top.as_str().unicode_len() == 0 || sub.as_str().unicode_len() == 0 {
        return Err(MediaError::MalformedMediaType);
    }
    let n = parts.len();
    let mut params: Vec<(String, String)> = Vec::new();
    proof {
        assert(param_views(params@) =~= Seq::new(0nat, |j: int| spec_param_of(pv[j + 1])));
    }
    let mut i: usize = 1;
    while i < n
        invariant
            1 <= i <= n,
            param_views(params@) == Seq::new(
                (i - 1) as nat,
                |j: int| spec_param_of(pv[j + 1]),
            ),
            forall|j: int| 1 <= j < i ==> spec_media_part_ok(#[trigger] pv[j]),
        decreases n - i,
    {
        let t = trim_str(parts[i].as_str());
        proof {
            assert(pv[i as int] == parts@[i as int]@);
        }
        match find_char_str(t.as_str(), '=') {
            None => {
                assert(!spec_media_part_ok(pv[i as int]));
                return Err(MediaError::MalformedMediaType);
            },
            Some(e) => {
                proof {
                    lemma_find_char_sound(t@, '=');
                }
                if e == 0 {
                    assert(!spec_media_part_ok(pv[i as int]));
                    return Err(MediaError::MalformedMediaType);
                }
                let tlen = t.as_str().unicode_len();
                let key = t.as_str().substring_char(0, e).to_owned();
                let val = t.as_str().substring_char(e + 1, tlen).to_owned();
                let ghost pre = params@;
                params.push((key, val));
                proof {
                    assert(t@.subrange(0, e as int) =~= t@.take(e as int));
                    assert(t@.subrange(e + 1, tlen as int) =~= t@.skip(e + 1));
                    assert(param_views(params@) =~= param_views(pre).push(
                        spec_param_of(pv[i as int]),
                    ));
                    assert(param_views(params@) =~= Seq::new(
                        i as nat,
                        |j: int| spec_param_of(pv[j + 1]),
                    ));
                }
            },
        }
        i += 1;
    }
    Ok(MediaType { top, sub, params })
}

/// The parameters that are not the quality parameter `q`.
pub open spec fn spec_drop_q(ps: Seq<(Seq<char>, Seq<char>)>) -> Seq<(Seq<char>, Seq<char>)>
    decreases ps.len(),
{
    if ps.len() == 0 {
        Seq::empty()
    } else if ps[0].0 == seq!['q'] {
        spec_drop_q(ps.skip(1))
    } else {
        seq![ps[0]] + spec_drop_q(ps.skip(1))
    }
}

/// The views of one `Accept` entry: top, subtype, parameters, quality.
pub open spec fn qmedia_view(e: QMedia) -> (Seq<char>, Seq<char>, Seq<(Seq<char>, Seq<char>)>, int) {
    (e.media.top@, e.media.sub@, param_views(e.media.params@), e.q_millis as int)
}

/// The views of an `Accept` entry list.
pub open spec fn qmedia_views(es: Seq<QMedia>) -> Seq<
    (Seq<char>, Seq<char>, Seq<(Seq<char>, Seq<char>)>, int),
> {
    es.map_values(|e: QMedia| qmedia_view(e))
}

/// What one comma-separated clause of an `Accept` header contributes: nothing
/// when it is not a media type or its quality value is malformed; otherwise
/// its media range with the `q` parameters removed, at the quality the first
/// `q` parameter names, a missing one worth one.
pub open spec fn spec_accept_entry(part: Seq<char>) -> Option<
    (Seq<char>, Seq<char>, Seq<(Seq<char>, Seq<char>)>, int),
> {
    if !spec_media_ok(part) {
        None
    } else {
        let parts = split_on(part, ';');
        let tp = split_on(spec_trim(parts[0]), '/');
        let ps = Seq::new((parts.len() - 1) as nat, |j: int| spec_param_of(parts[j + 1]));
        match crate::matcher::spec_lookup(ps, seq!['q']) {
            None => Some((tp[0], tp[1], spec_drop_q(ps), 1000int)),
            Some(qv) => match spec_parse_q(qv) {
                None => None,
                Some(v) => Some((tp[0], tp[1], spec_drop_q(ps), v)),
            },
        }
    }
}

/// The entries an `Accept` header's clauses contribute, in order.
pub open spec fn spec_parse_accept(parts: Seq<Seq<char>>) -> Seq<
    (Seq<char>, Seq<char>, Seq<(Seq<char>, Seq<char>)>, int),
>
    decreases parts.len(),
{
    if parts.len() == 0 {
        Seq::empty()
    } else {
        match spec_accept_entry(parts[0]) {
            None => spec_parse_accept(parts.skip(1)),
            Some(e) => seq![e] + spec_parse_accept(parts.skip(1)),
        }
    }
}

/// Whether `s` is the one-character parameter name `q`.
fn is_q(s: &String) -> (r: bool)
    ensures
        r == (s@ == seq!['q']),
{
    let len = s.as_str().unicode_len();
    if len != 1 {
        return false;
    }
    let r = s.as_str().get_char(0) == 'q';
    proof {
        if r {
            assert(s@ =~= seq!['q']);
        }
    }
    r
}

/// Split the quality parameter out of a parameter list: the parameters that
/// are not `q`, and the value of the first `q`, when one is present.
#[verifier::loop_isolation(false)]
fn extract_q(params: Vec<(String, String)>) -> (r: (Vec<(String, String)>, Option<String>))
    ensures
        param_views(r.0@) == spec_drop_q(param_views(params@)),
        match r.1 {
            Some(v) => crate::matcher::spec_lookup(param_views(params@), seq!['q']) == Some(v@),
            None => crate::matcher::spec_lookup(param_views(params@), seq!['q']) == None::<
                Seq<char>,
            >,
        },
{
    let ghost pvw = param_views(params@);
    let n = params.len();
    let mut kept: Vec<(String, String)> = Vec::new();
    let mut qv: Option<String> = None;
    proof {
        assert(pvw.skip(0) =~= pvw);
        assert(param_views(kept@) =~= Seq::<(Seq<char>, Seq<char>)>::empty());
    }
    let mut i: usize = 0;
    while i < n
        invariant
            0 <= i <= n,
            n == params@.len(),
            spec_drop_q(pvw) == param_views(kept@) + spec_drop_q(pvw.skip(i as int)),
            match qv {
                None => crate::matcher::spec_lookup(pvw, seq!['q']) == crate::matcher::spec_lookup(
                    pvw.skip(i as int),
                    seq!['q'],
                ),
                Some(v) => crate::matcher::spec_lookup(pvw, seq!['q']) == Some(v@),
            },
        decreases n - i,
    {
        proof {
            assert(pvw.skip(i as int)[0] == (params@[i as int].0@, params@[i as int].1@));
            assert(pvw.skip(i as int).skip(1) =~= pvw.skip(i as int + 1));
        }
        if is_q(&params[i].0) {
            if qv.is_none() {
                qv = Some(params[i].1.as_str().to_owned());
            }
        } else {
            let ghost pre = kept@;
            kept.push((params[i].0.as_str().to_owned(), params[i].1.as_str().to_owned()));
            proof {
                assert(param_views(kept@) =~= param_views(pre) + seq![pvw.skip(i as int)[0]]);
            }
        }
        i += 1;
    }
    proof {
        assert(pvw.skip(n as int) =~= Seq::<(Seq<char>, Seq<char>)>::empty());
        assert(param_views(kept@) + Seq::<(Seq<char>, Seq<char>)>::empty() =~= param_views(kept@));
    }
    (kept, qv)
}

/// Parse an `Accept`-style header: comma-separated media ranges, each with an
/// optional quality parameter `q` in thousandths, a missing one worth one.
/// A clause that is not a media type, or whose quality value is malformed, is
/// dropped alone; the rest of the header stands.
#[verifier::loop_isolation(false)]
pub fn parse_accept(header: &str) -> (r: Vec<QMedia>)
    ensures
        qmedia_views(r@) == spec_parse_accept(split_on(header@, ',')),
{
    let parts = split_str(header, ',');
    let ghost pv = views(parts@);
    let n = parts.len();
    let mut out: Vec<QMedia> = Vec::new();
    proof {
        assert(pv.skip(0) =~= pv);
        assert(qmedia_views(out@) =~= Seq::<
            (Seq<char>, Seq<char>, Seq<(Seq<char>, Seq<char>)>, int),
        >::empty());
    }
    let mut i: usize = 0;
    while i < n
        invariant
            0 <= i <= n,
            spec_parse_accept(pv) == qmedia_views(out@) + spec_parse_accept(pv.skip(i as int)),
        decreases n - i,
    {
        proof {
            assert(pv.skip(i as int)[0] == pv[i as int]);
            assert(pv.skip(i as int).skip(1) =~= pv.skip(i as int + 1));
            assert(pv[i as int] == parts@[i as int]@);
        }
        match parse_media_type(parts[i].as_str()) {
            Err(_) => {},
            Ok(m) => {
                let (kept, qv) = extract_q(m.params);
                let qopt: Option<u16> = match &qv {
                    None => Some(1000),
                    Some(qs) => match parse_q(qs.as_str()) {
                        Ok(v) => Some(v),
                        Err(_) => None,
                    },
                };
                match qopt {
                    Some(qm) => {
                        let ghost pre = out@;
                        out.push(
                            QMedia {
                                media: MediaType { top: m.top, sub: m.sub, params: kept },
                                q_millis: qm,
                            },
                        );
                        proof {
                            assert(qmedia_views(out@) =~= qmedia_views(pre).push(
                                spec_accept_entry(pv[i as int])->0,
                            ));
                            assert(qmedia_views(pre).push(spec_accept_entry(pv[i as int])->0)
                                =~= qmedia_views(pre) + seq![spec_accept_entry(pv[i as int])->0]);
                        }
                    },
                    None => {},
                }
            },
        }
        i += 1;
    }
    proof {
        assert(pv.skip(n as int) =~= Seq::<Seq<char>>::empty());
        assert(qmedia_views(out@) + Seq::<
            (Seq<char>, Seq<char>, Seq<(Seq<char>, Seq<char>)>, int),
        >::empty() =~= qmedia_views(out@));
    }
    out
}


/// Whether negotiated score `a` beats `b` for routes tied on path rank: a
/// route the header covers beats one it does not, a higher quality value
/// beats a lower one, and specificity breaks quality ties; what remains tied
/// falls to the rank resolver's declaration-order rule.
pub open spec fn spec_score_beats(a: Option<(int, int)>, b: Option<(int, int)>) -> bool {
    match a {
        None => false,
        Some(x) => match b {
            None => true,
            Some(y) => x.1 > y.1 || (x.1 == y.1 && x.0 > y.0),
        },
    }
}

/// Whether negotiated score `a` beats `b`.
pub fn score_beats(a: Option<(u8, u16)>, b: Option<(u8, u16)>) -> (r: bool)
    ensures
        r == spec_score_beats(
            match a {
                Some(x) => Some((x.0 as int, x.1 as int)),
                None => None,
            },
            match b {
                Some(y) => Some((y.0 as int, y.1 as int)),
                None => None,
            },
        ),
{
    match a {
        None => false,
        Some(x) => match b {
            None => true,
            Some(y) => x.1 > y.1 || (x.1 == y.1 && x.0 > y.0),
        },
    }
}

} // verus!
