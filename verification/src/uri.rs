//! The URI model: an immutable path-and-query value.
//!
//! A [`Uri`] keeps the raw path text, the ordered non-empty path segments
//! derived from it, and the optional raw query string. Percent-encoding is
//! preserved verbatim. A normalized URI has no empty segment and no trailing
//! separator beyond the root; parsing a normalized URI's string form yields
//! the URI back.

use vstd::prelude::*;

use crate::pct::spec_uri_char;
use crate::pct::is_uri_char;

verus! {

/// The views of a sequence of owned strings.
pub open spec fn views(ps: Seq<String>) -> Seq<Seq<char>> {
    ps.map_values(|p: String| p@)
}

/// The view of an optional owned string.
pub open spec fn opt_view(q: Option<String>) -> Option<Seq<char>> {
    match q {
        Some(s) => Some(s@),
        None => None,
    }
}

/// The index of the first occurrence of `c` in `s`.
pub open spec fn find_char(s: Seq<char>, c: char) -> Option<int>
    decreases s.len(),
{
    if s.len() == 0 {
        None
    } else if s[0] == c {
        Some(0int)
    } else {
        match find_char(s.skip(1), c) {
            None => None,
            Some(i) => Some(i + 1),
        }
    }
}

/// The parts of `s` between occurrences of `sep`: splitting yields one part
/// more than there are separators, and empty parts are kept.
pub open spec fn split_on(s: Seq<char>, sep: char) -> Seq<Seq<char>>
    decreases s.len(),
{
    if s.len() == 0 {
        seq![Seq::<char>::empty()]
    } else if s[0] == sep {
        seq![Seq::<char>::empty()] + split_on(s.skip(1), sep)
    } else {
        let rest = split_on(s.skip(1), sep);
        seq![seq![s[0]] + rest[0]] + rest.skip(1)
    }
}

/// The parts joined with `sep` between each pair.
pub open spec fn join_on(ps: Seq<Seq<char>>, sep: char) -> Seq<char>
    decreases ps.len(),
{
    if ps.len() == 0 {
        Seq::empty()
    } else if ps.len() == 1 {
        ps[0]
    } else {
        ps[0] + seq![sep] + join_on(ps.skip(1), sep)
    }
}

/// The non-empty parts, in order.
pub open spec fn nonempty_parts(ps: Seq<Seq<char>>) -> Seq<Seq<char>>
    decreases ps.len(),
{
    if ps.len() == 0 {
        Seq::empty()
    } else {
        let rest = nonempty_parts(ps.drop_last());
        if ps.last().len() > 0 {
            rest.push(ps.last())
        } else {
            rest
        }
    }
}

/// What `find_char` returns: the position of the first occurrence, or nothing
/// when the character does not occur.
pub proof fn lemma_find_char_sound(s: Seq<char>, c: char)
    ensures
        match find_char(s, c) {
            None => forall|j: int| 0 <= j < s.len() ==> s[j] != c,
            Some(i) => 0 <= i < s.len() && s[i] == c && (forall|j: int| 0 <= j < i ==> s[j] != c),
        },
    decreases s.len(),
{
    if s.len() == 0 {
    } else if s[0] == c {
    } else {
        lemma_find_char_sound(s.skip(1), c);
        assert(forall|j: int| 1 <= j < s.len() ==> s[j] == s.skip(1)[j - 1]);
    }
}

/// `find_char` finds the position of the first occurrence.
pub proof fn lemma_find_char_present(s: Seq<char>, c: char, i: int)
    requires
        0 <= i < s.len(),
        s[i] == c,
        forall|j: int| 0 <= j < i ==> s[j] != c,
    ensures
        find_char(s, c) == Some(i),
{
    lemma_find_char_sound(s, c);
    match find_char(s, c) {
        None => {
            assert(s[i] != c);
        },
        Some(k) => {
            if k < i {
                assert(s[k] != c);
            } else if i < k {
                assert(s[i] != c);
            }
        },
    }
}

/// Splitting yields at least one part.
pub proof fn lemma_split_on_len(s: Seq<char>, sep: char)
    ensures
        split_on(s, sep).len() >= 1,
    decreases s.len(),
{
    if s.len() == 0 {
    } else {
        lemma_split_on_len(s.skip(1), sep);
    }
}

/// Splitting at the first separator: the part before it, then the split of
/// what follows it.
pub proof fn lemma_split_first(s: Seq<char>, sep: char, i: int)
    requires
        0 <= i < s.len(),
        s[i] == sep,
        forall|j: int| 0 <= j < i ==> s[j] != sep,
    ensures
        split_on(s, sep) == seq![s.take(i)] + split_on(s.skip(i + 1), sep),
    decreases i,
{
    lemma_split_on_len(s.skip(1), sep);
    if i == 0 {
        assert(s.take(0) =~= Seq::<char>::empty());
        assert(split_on(s, sep) =~= seq![s.take(0)] + split_on(s.skip(1), sep));
    } else {
        let t = s.skip(1);
        assert(forall|j: int| 0 <= j < t.len() ==> t[j] == s[j + 1]);
        lemma_split_first(t, sep, i - 1);
        let rest = split_on(t, sep);
        assert(rest[0] == t.take(i - 1));
        assert(seq![s[0]] + t.take(i - 1) =~= s.take(i));
        assert(rest.skip(1) =~= (seq![t.take(i - 1)] + split_on(t.skip(i), sep)).skip(1));
        assert((seq![t.take(i - 1)] + split_on(t.skip(i), sep)).skip(1) =~= split_on(
            t.skip(i),
            sep,
        ));
        assert(t.skip(i) =~= s.skip(i + 1));
        assert(split_on(s, sep) =~= seq![s.take(i)] + split_on(s.skip(i + 1), sep));
    }
}

/// Splitting text without the separator yields that text as the one part.
pub proof fn lemma_split_no_sep(s: Seq<char>, sep: char)
    requires
        forall|j: int| 0 <= j < s.len() ==> s[j] != sep,
    ensures
        split_on(s, sep) == seq![s],
    decreases s.len(),
{
    if s.len() == 0 {
        assert(s =~= Seq::<char>::empty());
        assert(split_on(s, sep) =~= seq![s]);
    } else {
        let t = s.skip(1);
        assert(forall|j: int| 0 <= j < t.len() ==> t[j] == s[j + 1]);
        lemma_split_no_sep(t, sep);
        assert(seq![s[0]] + t =~= s);
        assert(split_on(s, sep) =~= seq![s]);
    }
}

/// Every character of every part of a split satisfies what every character of
/// the whole satisfied, and no part contains the separator.
pub proof fn lemma_split_chars(s: Seq<char>, sep: char, pred: spec_fn(char) -> bool)
    requires
        forall|i: int| 0 <= i < s.len() ==> pred(#[trigger] s[i]),
    ensures
        forall|k: int, j: int|
            0 <= k < split_on(s, sep).len() && 0 <= j < split_on(s, sep)[k].len() ==> pred(
                #[trigger] split_on(s, sep)[k][j],
            ) && split_on(s, sep)[k][j] != sep,
    decreases s.len(),
{
    if s.len() == 0 {
    } else {
        let t = s.skip(1);
        assert(forall|j: int| 0 <= j < t.len() ==> t[j] == s[j + 1]);
        lemma_split_chars(t, sep, pred);
        lemma_split_on_len(t, sep);
        let rest = split_on(t, sep);
        if s[0] == sep {
            assert(forall|k: int, j: int|
                1 <= k < split_on(s, sep).len() && 0 <= j < split_on(s, sep)[k].len()
                    ==> split_on(s, sep)[k][j] == rest[k - 1][j]);
        } else {
            assert(split_on(s, sep)[0] =~= seq![s[0]] + rest[0]);
            assert(forall|k: int, j: int|
                1 <= k < split_on(s, sep).len() && 0 <= j < split_on(s, sep)[k].len()
                    ==> split_on(s, sep)[k][j] == rest[k][j]);
        }
    }
}

/// Joining one more part appends a separator and that part.
pub proof fn lemma_join_push(ps: Seq<Seq<char>>, p: Seq<char>, sep: char)
    requires
        ps.len() >= 1,
    ensures
        join_on(ps.push(p), sep) == join_on(ps, sep) + seq![sep] + p,
    decreases ps.len(),
{
    if ps.len() == 1 {
        assert(ps.push(p).skip(1) =~= seq![p]);
        assert(join_on(seq![p], sep) == p);
        assert(join_on(ps.push(p), sep) =~= ps[0] + seq![sep] + p);
    } else {
        assert(ps.push(p).skip(1) =~= ps.skip(1).push(p));
        lemma_join_push(ps.skip(1), p, sep);
        assert(join_on(ps.push(p), sep) =~= join_on(ps, sep) + seq![sep] + p);
    }
}

/// Splitting a join of separator-free parts yields the parts back.
pub proof fn lemma_split_join(ps: Seq<Seq<char>>, sep: char)
    requires
        ps.len() >= 1,
        forall|k: int, j: int|
            0 <= k < ps.len() && 0 <= j < ps[k].len() ==> #[trigger] ps[k][j] != sep,
    ensures
        split_on(join_on(ps, sep), sep) == ps,
    decreases ps.len(),
{
    if ps.len() == 1 {
        lemma_split_no_sep(ps[0], sep);
        assert(seq![ps[0]] =~= ps);
    } else {
        let s = join_on(ps, sep);
        let n0 = ps[0].len() as int;
        assert(s =~= ps[0] + seq![sep] + join_on(ps.skip(1), sep));
        assert(s[n0] == sep);
        assert(forall|j: int| 0 <= j < n0 ==> s[j] == ps[0][j]);
        lemma_split_first(s, sep, n0);
        assert(s.take(n0) =~= ps[0]);
        assert(s.skip(n0 + 1) =~= join_on(ps.skip(1), sep));
        assert(forall|k: int, j: int|
            0 <= k < ps.skip(1).len() && 0 <= j < ps.skip(1)[k].len() ==> ps.skip(1)[k][j] == ps[k
                + 1][j]);
        lemma_split_join(ps.skip(1), sep);
        assert(split_on(s, sep) =~= ps);
    }
}

/// Keeping the non-empty parts of a sequence of non-empty parts changes
/// nothing.
pub proof fn lemma_nonempty_parts_all(ps: Seq<Seq<char>>)
    requires
        forall|k: int| 0 <= k < ps.len() ==> #[trigger] ps[k].len() > 0,
    ensures
        nonempty_parts(ps) == ps,
    decreases ps.len(),
{
    if ps.len() == 0 {
        assert(nonempty_parts(ps) =~= ps);
    } else {
        lemma_nonempty_parts_all(ps.drop_last());
        assert(ps[ps.len() - 1].len() > 0);
        assert(ps.drop_last().push(ps.last()) =~= ps);
    }
}

/// Every part that filtering for non-emptiness keeps is a non-empty element of
/// the original sequence.
pub proof fn lemma_nonempty_parts_elems(ps: Seq<Seq<char>>)
    ensures
        forall|k: int|
            0 <= k < nonempty_parts(ps).len() ==> #[trigger] nonempty_parts(ps)[k].len() > 0
                && ps.contains(nonempty_parts(ps)[k]),
    decreases ps.len(),
{
    if ps.len() == 0 {
    } else {
        lemma_nonempty_parts_elems(ps.drop_last());
        let shorter = nonempty_parts(ps.drop_last());
        assert forall|k: int|
            0 <= k < nonempty_parts(ps).len() implies #[trigger] nonempty_parts(ps)[k].len() > 0
            && ps.contains(nonempty_parts(ps)[k]) by {
            if k < shorter.len() {
                assert(nonempty_parts(ps)[k] == shorter[k]);
                let m = choose|m: int|
                    0 <= m < ps.drop_last().len() && ps.drop_last()[m] == shorter[k];
                assert(ps[m] == shorter[k]);
            } else {
                assert(nonempty_parts(ps)[k] == ps.last());
                assert(ps[ps.len() - 1] == ps.last());
            }
        }
    }
}

/// One more than the text length that a list of parts came from: each part's
/// length plus one for the separator after it.
pub open spec fn split_weight(ps: Seq<Seq<char>>) -> nat
    decreases ps.len(),
{
    if ps.len() == 0 {
        0
    } else {
        ps[0].len() + 1 + split_weight(ps.skip(1))
    }
}

/// The weight of a split is the split text's length plus one.
pub proof fn lemma_split_weight(s: Seq<char>, sep: char)
    ensures
        split_weight(split_on(s, sep)) == s.len() + 1,
    decreases s.len(),
{
    assert(split_weight(Seq::<Seq<char>>::empty()) == 0);
    if s.len() == 0 {
        assert(seq![Seq::<char>::empty()].skip(1) =~= Seq::<Seq<char>>::empty());
    } else {
        let t = s.skip(1);
        lemma_split_weight(t, sep);
        if s[0] == sep {
            assert((seq![Seq::<char>::empty()] + split_on(t, sep)).skip(1) =~= split_on(t, sep));
        } else {
            lemma_split_on_len(t, sep);
            let rest = split_on(t, sep);
            assert((seq![seq![s[0]] + rest[0]] + rest.skip(1)).skip(1) =~= rest.skip(1));
            assert(split_weight(rest) == rest[0].len() + 1 + split_weight(rest.skip(1)));
            assert((seq![s[0]] + rest[0]).len() == 1 + rest[0].len());
        }
    }
}

/// Keeping the non-empty parts distributes over concatenation.
pub proof fn lemma_nonempty_parts_concat(a: Seq<Seq<char>>, b: Seq<Seq<char>>)
    ensures
        nonempty_parts(a + b) == nonempty_parts(a) + nonempty_parts(b),
    decreases b.len(),
{
    if b.len() == 0 {
        assert(a + b =~= a);
        assert(nonempty_parts(b) =~= Seq::<Seq<char>>::empty());
        assert(nonempty_parts(a) + nonempty_parts(b) =~= nonempty_parts(a));
    } else {
        lemma_nonempty_parts_concat(a, b.drop_last());
        assert((a + b).drop_last() =~= a + b.drop_last());
        assert((a + b).last() == b.last());
        if b.last().len() > 0 {
            assert(nonempty_parts(a + b) == (nonempty_parts(a) + nonempty_parts(
                b.drop_last(),
            )).push(b.last()));
            assert((nonempty_parts(a) + nonempty_parts(b.drop_last())).push(b.last())
                =~= nonempty_parts(a) + nonempty_parts(b.drop_last()).push(b.last()));
        }
    }
}

/// The failure of URI parsing: the string is not a path-and-query in origin
/// form over the accepted character set.
#[derive(Clone, Copy, PartialEq, Eq, Structural, Debug)]
pub enum UriError {
    MalformedUri,
}

/// An immutable path-and-query value. `path` is the raw path text (always
/// beginning with `/`), `segments` its non-empty `/`-separated parts in order,
/// and `query` the raw text after the first `?`, when one was present.
#[derive(Debug)]
pub struct Uri {
    pub path: String,
    pub segments: Vec<String>,
    pub query: Option<String>,
}

/// The raw path and optional query of a path-and-query string: the text before
/// the first `?`, and the text after it.
pub open spec fn spec_split_raw(s: Seq<char>) -> (Seq<char>, Option<Seq<char>>) {
    match find_char(s, '?') {
        None => (s, None),
        Some(i) => (s.take(i), Some(s.skip(i + 1))),
    }
}

/// Whether a raw string is accepted by [`Uri::parse`]: its path part begins
/// with `/` and path and query hold URI characters only.
pub open spec fn spec_uri_ok(s: Seq<char>) -> bool {
    let (p, q) = spec_split_raw(s);
    &&& p.len() >= 1
    &&& p[0] == '/'
    &&& forall|i: int| 0 <= i < p.len() ==> spec_uri_char(#[trigger] p[i])
    &&& match q {
        None => true,
        Some(qs) => forall|i: int| 0 <= i < qs.len() ==> spec_uri_char(#[trigger] qs[i]),
    }
}

/// The path text that the segments alone determine: `/` followed by the
/// segments joined with `/`.
pub open spec fn spec_normal_path(segs: Seq<Seq<char>>) -> Seq<char> {
    seq!['/'] + join_on(segs, '/')
}

/// The string form of a URI: the raw path, then `?` and the query when one is
/// present.
pub open spec fn spec_uri_string(u: Uri) -> Seq<char> {
    match u.query {
        None => u.path@,
        Some(q) => u.path@ + seq!['?'] + q@,
    }
}

impl Uri {
    /// Validity: the path begins with `/`, holds URI characters and no `?`,
    /// the segments are exactly the non-empty parts of the path after the
    /// leading `/`, and the query holds URI characters.
    pub open spec fn wf(self) -> bool {
        &&& self.path@.len() >= 1
        &&& self.path@[0] == '/'
        &&& forall|i: int|
            0 <= i < self.path@.len() ==> spec_uri_char(#[trigger] self.path@[i])
                && self.path@[i] != '?'
        &&& views(self.segments@) == nonempty_parts(split_on(self.path@.skip(1), '/'))
        &&& match self.query {
            None => true,
            Some(q) => forall|i: int| 0 <= i < q@.len() ==> spec_uri_char(#[trigger] q@[i]),
        }
    }

    /// Whether the raw path is already the normal form its segments determine:
    /// no empty segment, no trailing separator beyond the root.
    pub open spec fn spec_is_normalized(self) -> bool {
        self.path@ == spec_normal_path(views(self.segments@))
    }

    /// The ordered non-empty path segments.
    pub fn segments(&self) -> (r: &Vec<String>)
        ensures
            r == &self.segments,
    {
        &self.segments
    }
}

/// The position of the first `?` in `s`, as `find_char` gives it.
fn find_qmark(s: &str) -> (r: Option<usize>)
    ensures
        match r {
            Some(i) => find_char(s@, '?') == Some(i as int),
            None => find_char(s@, '?') == None::<int>,
        },
{
    let len = s.unicode_len();
    let mut i: usize = 0;
    while i < len
        invariant
            0 <= i <= len,
            len == s@.len(),
            forall|j: int| 0 <= j < i ==> s@[j] != '?',
        decreases len - i,
    {
        if s.get_char(i) == '?' {
            proof {
                lemma_find_char_present(s@, '?', i as int);
            }
            return Some(i);
        }
        i += 1;
    }
    proof {
        lemma_find_char_sound(s@, '?');
        if find_char(s@, '?') is Some {
            let k = find_char(s@, '?')->0;
            assert(s@[k] != '?');
        }
    }
    None
}

/// Whether every character of `s` is a URI character.
fn all_uri_chars(s: &str) -> (r: bool)
    ensures
        r == (forall|i: int| 0 <= i < s@.len() ==> spec_uri_char(#[trigger] s@[i])),
{
    let len = s.unicode_len();
    let mut i: usize = 0;
    while i < len
        invariant
            0 <= i <= len,
            len == s@.len(),
            forall|j: int| 0 <= j < i ==> spec_uri_char(#[trigger] s@[j]),
        decreases len - i,
    {
        if !is_uri_char(s.get_char(i)) {
            return false;
        }
        i += 1;
    }
    true
}

/// The parts of `s` between occurrences of `sep`, empty parts kept.
pub(crate) fn split_str(s: &str, sep: char) -> (parts: Vec<String>)
    ensures
        views(parts@) == split_on(s@, sep),
{
    let len = s.unicode_len();
    let mut parts: Vec<String> = Vec::new();
    proof {
        assert(views(parts@) =~= Seq::<Seq<char>>::empty());
        assert(s@.skip(0) =~= s@);
        assert(views(parts@) + split_on(s@, sep) =~= split_on(s@, sep));
    }
    let mut start: usize = 0;
    let mut i: usize = 0;
    while i < len
        invariant
            0 <= start <= i <= len,
            len == s@.len(),
            split_on(s@, sep) == views(parts@) + split_on(s@.skip(start as int), sep),
            forall|j: int| start <= j < i ==> s@[j] != sep,
        decreases len - i,
    {
        if s.get_char(i) == sep {
            let piece = s.substring_char(start, i).to_owned();
            proof {
                let tail = s@.skip(start as int);
                assert(forall|j: int| 0 <= j < tail.len() ==> tail[j] == s@[start + j]);
                lemma_split_first(tail, sep, i - start);
                assert(tail.take(i - start) =~= piece@);
                assert(tail.skip(i - start + 1) =~= s@.skip(i + 1));
                assert(views(parts@.push(piece)) =~= views(parts@).push(piece@));
                assert(views(parts@.push(piece)) + split_on(s@.skip(i + 1), sep) =~= views(parts@)
                    + split_on(tail, sep));
            }
            parts.push(piece);
            start = i + 1;
        }
        i += 1;
    }
    let piece = s.substring_char(start, len).to_owned();
    proof {
        let tail = s@.skip(start as int);
        assert(forall|j: int| 0 <= j < tail.len() ==> tail[j] == s@[start + j]);
        lemma_split_no_sep(tail, sep);
        assert(tail =~= piece@);
        assert(views(parts@.push(piece)) =~= views(parts@).push(piece@));
        assert(views(parts@).push(piece@) =~= views(parts@) + seq![piece@]);
    }
    parts.push(piece);
    parts
}

/// The non-empty elements of `parts`, in order.
fn keep_nonempty(parts: Vec<String>) -> (r: Vec<String>)
    ensures
        views(r@) == nonempty_parts(views(parts@)),
{
    let n = parts.len();
    let mut out: Vec<String> = Vec::new();
    proof {
        assert(views(out@) =~= Seq::<Seq<char>>::empty());
        assert(views(parts@).take(0) =~= Seq::<Seq<char>>::empty());
        assert(nonempty_parts(Seq::<Seq<char>>::empty()) =~= Seq::<Seq<char>>::empty());
    }
    for i in 0..n
        invariant
            n == parts@.len(),
            views(out@) == nonempty_parts(views(parts@).take(i as int)),
    {
        let keep = !parts[i].as_str().is_empty();
        let ghost pre = out@;
        if keep {
            let piece = parts[i].as_str().to_owned();
            out.push(piece);
        }
        proof {
            let pv = views(parts@);
            assert(pv.take(i + 1).drop_last() =~= pv.take(i as int));
            assert(pv.take(i + 1).last() == parts@[i as int]@);
            if keep {
                assert(views(out@) =~= views(pre).push(parts@[i as int]@));
                assert(views(out@) =~= nonempty_parts(pv.take(i + 1)));
            } else {
                assert(views(out@) =~= nonempty_parts(pv.take(i + 1)));
            }
        }
    }
    proof {
        assert(views(parts@).take(n as int) =~= views(parts@));
    }
    out
}

/// Parse a raw path-and-query string. The text before the first `?` is the
/// path, the text after it the query; the path splits on `/` and the empty
/// parts collapse away; nothing is percent-decoded. Fails with
/// [`UriError::MalformedUri`] exactly when the path does not begin with `/`
/// or path or query holds a character outside the URI character set.
pub fn parse(raw: &str) -> (r: Result<Uri, UriError>)
    ensures
        match r {
            Ok(u) => {
                &&& spec_uri_ok(raw@)
                &&& u.wf()
                &&& u.path@ == spec_split_raw(raw@).0
                &&& opt_view(u.query) == spec_split_raw(raw@).1
            },
            Err(e) => !spec_uri_ok(raw@) && e == UriError::MalformedUri,
        },
{
    let len = raw.unicode_len();
    proof {
        lemma_find_char_sound(raw@, '?');
    }
    let (path_str, query): (String, Option<String>) = match find_qmark(raw) {
        Some(i) => (
            raw.substring_char(0, i).to_owned(),
            Some(raw.substring_char(i + 1, len).to_owned()),
        ),
        None => (raw.to_owned(), None),
    };
    proof {
        assert(raw@.take(0) =~= Seq::<char>::empty());
        if find_char(raw@, '?') is Some {
            let i = find_char(raw@, '?')->0;
            assert(raw@.subrange(0, i) =~= raw@.take(i));
            assert(raw@.subrange(i + 1, len as int) =~= raw@.skip(i + 1));
        } else {
            assert(raw@.subrange(0, len as int) =~= raw@);
        }
    }
    assert(path_str@ == spec_split_raw(raw@).0);
    assert(opt_view(query) == spec_split_raw(raw@).1);
    let plen = path_str.as_str().unicode_len();
    if plen == 0 {
        return Err(UriError::MalformedUri);
    }
    if path_str.as_str().get_char(0) != '/' {
        return Err(UriError::MalformedUri);
    }
    if !all_uri_chars(path_str.as_str()) {
        return Err(UriError::MalformedUri);
    }
    match &query {
        Some(q) => {
            if !all_uri_chars(q.as_str()) {
                proof {
                    let qs = spec_split_raw(raw@).1->0;
                    assert(q@ == qs);
                    assert(!(forall|i: int| 0 <= i < qs.len() ==> spec_uri_char(#[trigger] qs[i])));
                    assert(!spec_uri_ok(raw@));
                }
                return Err(UriError::MalformedUri);
            }
        },
        None => {},
    }
    let tail = path_str.as_str().substring_char(1, plen);
    let rawparts = split_str(tail, '/');
    let segments = keep_nonempty(rawparts);
    let u = Uri { path: path_str, segments, query };
    proof {
        assert(u.path@.skip(1) =~= tail@);
    }
    Ok(u)
}

impl Uri {
    /// The string form: the raw path, then `?` and the query when present.
    pub fn to_string(&self) -> (r: String)
        ensures
            r@ == spec_uri_string(*self),
    {
        let mut out = self.path.clone();
        proof {
            reveal_strlit("?");
        }
        match &self.query {
            Some(q) => {
                out.append("?");
                proof {
                    assert("?"@ =~= seq!['?']);
                }
                out.append(q.as_str());
            },
            None => {},
        }
        out
    }

    /// The normal form of the path: `/` followed by the segments joined
    /// with `/`.
    fn normal_path_string(&self) -> (r: String)
        ensures
            r@ == spec_normal_path(views(self.segments@)),
    {
        proof {
            reveal_strlit("/");
        }
        let mut out = String::from_str("/");
        proof {
            assert(out@ =~= seq!['/']);
            assert(join_on(views(self.segments@).take(0), '/') =~= Seq::<char>::empty());
            assert(out@ =~= seq!['/'] + join_on(views(self.segments@).take(0), '/'));
        }
        let n = self.segments.len();
        for i in 0..n
            invariant
                n == self.segments@.len(),
                out@ == seq!['/'] + join_on(views(self.segments@).take(i as int), '/'),
        {
            proof {
                reveal_strlit("/");
                let sv = views(self.segments@);
                if i == 0 {
                    assert(sv.take(1) =~= seq![self.segments@[0]@]);
                    assert(join_on(seq![self.segments@[0]@], '/') == self.segments@[0]@);
                    assert(join_on(sv.take(0), '/') =~= Seq::<char>::empty());
                } else {
                    assert(sv.take(i + 1) =~= sv.take(i as int).push(self.segments@[i as int]@));
                    lemma_join_push(sv.take(i as int), self.segments@[i as int]@, '/');
                }
            }
            if i > 0 {
                out.append("/");
            }
            out.append(self.segments[i].as_str());
            assert(out@ =~= seq!['/'] + join_on(views(self.segments@).take(i + 1), '/'));
        }
        proof {
            assert(views(self.segments@).take(n as int) =~= views(self.segments@));
        }
        out
    }

    /// Whether the raw path is already normal: no empty segments, no trailing
    /// separator beyond the root.
    pub fn is_normalized(&self) -> (r: bool)
        ensures
            r == self.spec_is_normalized(),
    {
        let normal = self.normal_path_string();
        self.path == normal
    }

    /// The same segments and query over the normal path form.
    pub fn to_normalized(&self) -> (r: Uri)
        requires
            self.wf(),
        ensures
            r.wf(),
            r.spec_is_normalized(),
            views(r.segments@) == views(self.segments@),
            opt_view(r.query) == opt_view(self.query),
    {
        let path = self.normal_path_string();
        let mut segments: Vec<String> = Vec::new();
        let n = self.segments.len();
        for i in 0..n
            invariant
                n == self.segments@.len(),
                views(segments@) == views(self.segments@).take(i as int),
        {
            let piece = self.segments[i].as_str().to_owned();
            proof {
                assert(views(segments@.push(piece)) =~= views(segments@).push(piece@));
                assert(views(self.segments@).take(i + 1) =~= views(self.segments@).take(
                    i as int,
                ).push(self.segments@[i as int]@));
            }
            segments.push(piece);
        }
        proof {
            assert(views(self.segments@).take(n as int) =~= views(self.segments@));
        }
        let query = match &self.query {
            Some(q) => Some(q.as_str().to_owned()),
            None => None,
        };
        let u = Uri { path, segments, query };
        proof {
            lemma_normal_path_wf(views(self.segments@), self.path@);
            let joined = join_on(views(self.segments@), '/');
            assert(u.path@.skip(1) =~= joined);
            assert forall|i: int|
                0 <= i < u.path@.len() implies spec_uri_char(#[trigger] u.path@[i]) && u.path@[i]
                != '?' by {
                if i == 0 {
                    assert(u.path@[0] == '/');
                } else {
                    assert(u.path@[i] == joined[i - 1]);
                }
            }
        }
        u
    }
}

/// The segments of a well-formed URI are non-empty, free of `/` and `?`, and
/// splitting the normal path they determine yields them back.
pub proof fn lemma_normal_path_wf(segs: Seq<Seq<char>>, path: Seq<char>)
    requires
        path.len() >= 1,
        path[0] == '/',
        forall|i: int| 0 <= i < path.len() ==> spec_uri_char(#[trigger] path[i]) && path[i] != '?',
        segs == nonempty_parts(split_on(path.skip(1), '/')),
    ensures
        nonempty_parts(split_on(join_on(segs, '/'), '/')) == segs,
        forall|k: int, j: int|
            0 <= k < segs.len() && 0 <= j < segs[k].len() ==> spec_uri_char(#[trigger] segs[k][j])
                && segs[k][j] != '?' && segs[k][j] != '/',
        forall|k: int| 0 <= k < segs.len() ==> #[trigger] segs[k].len() > 0,
        forall|i: int|
            0 <= i < join_on(segs, '/').len() ==> spec_uri_char(#[trigger] join_on(segs, '/')[i])
                && join_on(segs, '/')[i] != '?',
{
    let tail = path.skip(1);
    assert(forall|j: int| 0 <= j < tail.len() ==> tail[j] == path[j + 1]);
    let pred = |c: char| spec_uri_char(c) && c != '?';
    lemma_split_chars(tail, '/', pred);
    let parts = split_on(tail, '/');
    lemma_nonempty_parts_elems(parts);
    assert forall|k: int, j: int|
        0 <= k < segs.len() && 0 <= j < segs[k].len() implies spec_uri_char(
        #[trigger] segs[k][j],
    ) && segs[k][j] != '?' && segs[k][j] != '/' by {
        assert(parts.contains(segs[k]));
        let m = choose|m: int| 0 <= m < parts.len() && parts[m] == segs[k];
        assert(pred(parts[m][j]) && parts[m][j] != '/');
    }
    if segs.len() == 0 {
        assert(join_on(segs, '/') =~= Seq::<char>::empty());
        assert(split_on(Seq::<char>::empty(), '/') =~= seq![Seq::<char>::empty()]);
        assert(nonempty_parts(Seq::<Seq<char>>::empty()) =~= Seq::<Seq<char>>::empty());
        assert(seq![Seq::<char>::empty()].drop_last() =~= Seq::<Seq<char>>::empty());
        assert(nonempty_parts(seq![Seq::<char>::empty()]) =~= Seq::<Seq<char>>::empty());
        assert(nonempty_parts(split_on(join_on(segs, '/'), '/')) == segs);
    } else {
        lemma_split_join(segs, '/');
        lemma_nonempty_parts_all(segs);
    }
    lemma_join_chars(segs, '/', pred);
}

/// Every character of a join satisfies what every character of every part and
/// the separator satisfy.
proof fn lemma_join_chars(ps: Seq<Seq<char>>, sep: char, pred: spec_fn(char) -> bool)
    requires
        forall|k: int, j: int|
            0 <= k < ps.len() && 0 <= j < ps[k].len() ==> pred(#[trigger] ps[k][j]),
        pred(sep),
    ensures
        forall|i: int| 0 <= i < join_on(ps, sep).len() ==> pred(#[trigger] join_on(ps, sep)[i]),
    decreases ps.len(),
{
    if ps.len() == 0 {
    } else if ps.len() == 1 {
        assert(forall|i: int| 0 <= i < join_on(ps, sep).len() ==> join_on(ps, sep)[i] == ps[0][i]);
    } else {
        let t = ps.skip(1);
        assert(forall|k: int, j: int|
            0 <= k < t.len() && 0 <= j < t[k].len() ==> t[k][j] == ps[k + 1][j]);
        lemma_join_chars(t, sep, pred);
        let n0 = ps[0].len() as int;
        assert forall|i: int| 0 <= i < join_on(ps, sep).len() implies pred(
            #[trigger] join_on(ps, sep)[i],
        ) by {
            if i < n0 {
                assert(join_on(ps, sep)[i] == ps[0][i]);
            } else if i == n0 {
                assert(join_on(ps, sep)[i] == sep);
            } else {
                assert(join_on(ps, sep)[i] == join_on(t, sep)[i - n0 - 1]);
            }
        }
    }
}

/// The round trip: parsing the string form of a well-formed, normalized URI
/// yields that URI back, piece for piece. The parse accepts the string, its
/// path and query parts are the URI's own, and any well-formed URI over the
/// same path carries the same segments.
pub proof fn lemma_parse_round_trip(u: Uri)
    requires
        u.wf(),
        u.spec_is_normalized(),
    ensures
        spec_uri_ok(spec_uri_string(u)),
        spec_split_raw(spec_uri_string(u)).0 == u.path@,
        spec_split_raw(spec_uri_string(u)).1 == opt_view(u.query),
        forall|v: Uri|
            v.wf() && v.path@ == u.path@ && opt_view(v.query) == opt_view(u.query) ==> views(
                v.segments@,
            ) == views(u.segments@) && spec_uri_string(v) == spec_uri_string(u),
{
    let s = spec_uri_string(u);
    match u.query {
        None => {
            lemma_find_char_sound(s, '?');
            if find_char(s, '?') is Some {
                let k = find_char(s, '?')->0;
                assert(s[k] != '?');
            }
        },
        Some(q) => {
            assert(s[u.path@.len() as int] == '?');
            assert(forall|j: int| 0 <= j < u.path@.len() ==> s[j] == u.path@[j]);
            lemma_find_char_present(s, '?', u.path@.len() as int);
            assert(s.take(u.path@.len() as int) =~= u.path@);
            assert(s.skip(u.path@.len() as int + 1) =~= q@);
        },
    }
}

} // verus!
