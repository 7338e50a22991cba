//! The request-time matcher.
//!
//! Matching compares a template against a normalized request URI, segment by
//! segment. A static segment must equal the request segment after
//! percent-decoding; a dynamic segment matches any one non-empty request
//! segment and binds its raw text; a trailing wildcard matches the rest of
//! the path, zero segments included, and binds the remainder joined with `/`.
//! A declared query parameter always binds the request's whole raw query
//! string, the empty string when the request has none; extra query text never
//! rejects a match. A non-match is a normal outcome, never an error.

use vstd::prelude::*;

use crate::media::param_views;
use crate::pct::pct_decode_bytes;
use crate::pct::spec_pct_decode;
use crate::template::Segment;
use crate::template::Template;
use crate::uri::join_on;
use crate::uri::lemma_join_push;
use crate::uri::lemma_normal_path_wf;
use crate::uri::views;
use crate::uri::Uri;

verus! {

/// The bindings of one successful match: parameter names and the raw request
/// text each captured, in template order, path parameters first, the query
/// parameter last.
#[derive(Debug)]
pub struct Bindings {
    pub pairs: Vec<(String, String)>,
}

/// Whether one template segment accepts one request segment.
pub open spec fn spec_seg_matches(ts: Segment, s: Seq<char>) -> bool {
    match ts {
        Segment::Static(t) => spec_pct_decode(t@) == spec_pct_decode(s),
        Segment::Dynamic(_) => s.len() > 0,
        Segment::DynamicMulti(_) => true,
    }
}

/// The number of template segments before any trailing wildcard.
pub open spec fn spec_prefix_len(t: Template) -> int {
    if t.spec_has_multi() {
        t.segments@.len() - 1
    } else {
        t.segments@.len() as int
    }
}

/// Whether a template matches a request URI: without a wildcard the segment
/// counts agree exactly, with one the request has at least the prefix, and
/// every prefix segment accepts its request segment.
pub open spec fn spec_template_matches(t: Template, u: Uri) -> bool {
    let segs = views(u.segments@);
    let m = spec_prefix_len(t);
    &&& if t.spec_has_multi() {
        segs.len() >= m
    } else {
        segs.len() == m
    }
    &&& forall|k: int| 0 <= k < m ==> spec_seg_matches(t.segments@[k], #[trigger] segs[k])
}

/// The path bindings of a match: for each dynamic segment its request
/// segment's raw text, and for a trailing wildcard the remaining request
/// segments joined with `/`.
pub open spec fn spec_path_bindings(tsegs: Seq<Segment>, usegs: Seq<Seq<char>>) -> Seq<
    (Seq<char>, Seq<char>),
>
    decreases tsegs.len(),
{
    if tsegs.len() == 0 {
        Seq::empty()
    } else {
        match tsegs[0] {
            Segment::Static(_) => spec_path_bindings(tsegs.skip(1), usegs.skip(1)),
            Segment::Dynamic(n) => seq![(n@, usegs[0])] + spec_path_bindings(
                tsegs.skip(1),
                usegs.skip(1),
            ),
            Segment::DynamicMulti(n) => seq![(n@, join_on(usegs, '/'))],
        }
    }
}

/// All bindings of a match: the path bindings, then the query binding when
/// the template declares one, worth the request's raw query or the empty
/// string.
pub open spec fn spec_bindings(t: Template, u: Uri) -> Seq<(Seq<char>, Seq<char>)> {
    spec_path_bindings(t.segments@, views(u.segments@)) + (match t.query {
        None => Seq::<(Seq<char>, Seq<char>)>::empty(),
        Some(qp) => seq![
            (
                qp.name@,
                match u.query {
                    Some(q) => q@,
                    None => Seq::<char>::empty(),
                },
            ),
        ],
    })
}

/// The value bound to the first occurrence of a name.
pub open spec fn spec_lookup(pairs: Seq<(Seq<char>, Seq<char>)>, name: Seq<char>) -> Option<
    Seq<char>,
>
    decreases pairs.len(),
{
    if pairs.len() == 0 {
        None
    } else if pairs[0].0 == name {
        Some(pairs[0].1)
    } else {
        spec_lookup(pairs.skip(1), name)
    }
}

impl Bindings {
    /// The value bound to `name`, when the match bound one.
    pub fn get(&self, name: &str) -> (r: Option<&String>)
        ensures
            match r {
                Some(v) => spec_lookup(param_views(self.pairs@), name@) == Some(v@),
                None => spec_lookup(param_views(self.pairs@), name@) == None::<Seq<char>>,
            },
    {
        let n = self.pairs.len();
        proof {
            assert(param_views(self.pairs@).skip(0) =~= param_views(self.pairs@));
        }
        let mut i: usize = 0;
        while i < n
            invariant
                0 <= i <= n,
                n == self.pairs@.len(),
                spec_lookup(param_views(self.pairs@), name@) == spec_lookup(
                    param_views(self.pairs@).skip(i as int),
                    name@,
                ),
            decreases n - i,
        {
            proof {
                assert(param_views(self.pairs@).skip(i as int)[0] == (
                    self.pairs@[i as int].0@,
                    self.pairs@[i as int].1@,
                ));
                assert(param_views(self.pairs@).skip(i as int).skip(1) =~= param_views(
                    self.pairs@,
                ).skip(i as int + 1));
            }
            if self.pairs[i].0 == name.to_owned() {
                return Some(&self.pairs[i].1);
            }
            i += 1;
        }
        proof {
            assert(param_views(self.pairs@).skip(n as int) =~= Seq::<(Seq<char>, Seq<char>)>::empty());
        }
        None
    }
}

/// Whether two byte vectors are equal.
fn bytes_eq(a: &Vec<u8>, b: &Vec<u8>) -> (r: bool)
    ensures
        r == (a@ == b@),
{
    if a.len() != b.len() {
        return false;
    }
    let n = a.len();
    let mut i: usize = 0;
    while i < n
        invariant
            0 <= i <= n,
            n == a@.len(),
            n == b@.len(),
            forall|j: int| 0 <= j < i ==> a@[j] == b@[j],
        decreases n - i,
    {
        if a[i] != b[i] {
            return false;
        }
        i += 1;
    }
    proof {
        assert(a@ =~= b@);
    }
    true
}

/// Whether two texts are equal after percent-decoding.
fn decode_eq(a: &str, b: &str) -> (r: bool)
    requires
        a.is_ascii(),
        b.is_ascii(),
    ensures
        r == (spec_pct_decode(a@) == spec_pct_decode(b@)),
{
    let da = pct_decode_bytes(a);
    let db = pct_decode_bytes(b);
    bytes_eq(&da, &db)
}

/// The request segments from `from` on, joined with `/`.
fn join_segments(segs: &Vec<String>, from: usize) -> (r: String)
    requires
        from <= segs@.len(),
    ensures
        r@ == join_on(views(segs@).skip(from as int), '/'),
{
    let n = segs.len();
    let mut out = String::new();
    proof {
        assert(views(segs@).skip(from as int).take(0) =~= Seq::<Seq<char>>::empty());
        assert(out@ =~= join_on(views(segs@).skip(from as int).take(0), '/'));
    }
    let mut i: usize = from;
    while i < n
        invariant
            from <= i <= n,
            n == segs@.len(),
            out@ == join_on(views(segs@).skip(from as int).take(i - from), '/'),
        decreases n - i,
    {
        proof {
            reveal_strlit("/");
            assert("/"@ =~= seq!['/']);
            let sv = views(segs@).skip(from as int);
            assert(sv.take(i - from + 1) =~= sv.take(i - from).push(segs@[i as int]@));
            if i > from {
                lemma_join_push(sv.take(i - from), segs@[i as int]@, '/');
            } else {
                assert(sv.take(1) =~= seq![segs@[i as int]@]);
                assert(join_on(seq![segs@[i as int]@], '/') == segs@[i as int]@);
            }
        }
        if i > from {
            out.append("/");
        }
        out.append(segs[i].as_str());
        assert(out@ =~= join_on(views(segs@).skip(from as int).take(i - from + 1), '/'));
        i += 1;
    }
    proof {
        assert(views(segs@).skip(from as int).take(n - from) =~= views(segs@).skip(from as int));
    }
    out
}

/// Match a template against a request URI: the bindings of every declared
/// parameter when the template applies, and no match otherwise.
#[verifier::loop_isolation(false)]
pub fn match_template(t: &Template, u: &Uri) -> (r: Option<Bindings>)
    requires
        t.wf(),
        u.wf(),
    ensures
        r is Some <==> spec_template_matches(*t, *u),
        match r {
            Some(b) => param_views(b.pairs@) == spec_bindings(*t, *u),
            None => true,
        },
{
    proof {
        lemma_normal_path_wf(views(u.segments@), u.path@);
    }
    let tn = t.segments.len();
    let un = u.segments.len();
    let has_multi = tn > 0 && (match &t.segments[tn - 1] {
        Segment::DynamicMulti(_) => true,
        _ => false,
    });
    let m = if has_multi {
        tn - 1
    } else {
        tn
    };
    if has_multi {
        if un < m {
            return None;
        }
    } else {
        if un != m {
            return None;
        }
    }
    let ghost tsegs = t.segments@;
    let ghost usegs = views(u.segments@);
    let mut pairs: Vec<(String, String)> = Vec::new();
    proof {
        assert(tsegs.skip(0) =~= tsegs);
        assert(usegs.skip(0) =~= usegs);
        assert(param_views(pairs@) =~= Seq::<(Seq<char>, Seq<char>)>::empty());
    }
    let mut k: usize = 0;
    while k < m
        invariant
            0 <= k <= m,
            spec_path_bindings(tsegs, usegs) == param_views(pairs@) + spec_path_bindings(
                tsegs.skip(k as int),
                usegs.skip(k as int),
            ),
            forall|j: int| 0 <= j < k ==> spec_seg_matches(tsegs[j], #[trigger] usegs[j]),
        decreases m - k,
    {
        proof {
            assert(tsegs.skip(k as int)[0] == tsegs[k as int]);
            assert(usegs.skip(k as int)[0] == usegs[k as int]);
            assert(tsegs.skip(k as int).skip(1) =~= tsegs.skip(k as int + 1));
            assert(usegs.skip(k as int).skip(1) =~= usegs.skip(k as int + 1));
        }
        match &t.segments[k] {
            Segment::Static(s) => {
                proof {
                    assert(tsegs[k as int] matches Segment::Static(t) && t == s);
                    assert forall|j: int| 0 <= j < s@.len() implies '\0' <= #[trigger] s@[j]
                        <= '\u{7f}' by {
                        assert(crate::pct::spec_segment_char(s@[j]));
                    }
                    assert forall|j: int|
                        0 <= j < usegs[k as int].len() implies '\0' <= #[trigger] usegs[k as int][j]
                        <= '\u{7f}' by {
                        assert(crate::pct::spec_uri_char(usegs[k as int][j]));
                    }
                }
                if !decode_eq(s.as_str(), u.segments[k].as_str()) {
                    return None;
                }
            },
            Segment::Dynamic(n) => {
                let ghost pre = pairs@;
                pairs.push((n.as_str().to_owned(), u.segments[k].as_str().to_owned()));
                proof {
                    assert(param_views(pairs@) =~= param_views(pre).push(
                        (n@, usegs[k as int]),
                    ));
                    assert(param_views(pre).push((n@, usegs[k as int])) =~= param_views(pre)
                        + seq![(n@, usegs[k as int])]);
                }
            },
            Segment::DynamicMulti(_) => {
                proof {
                    assert(k as int == tsegs.len() - 1);
                    assert(false);
                }
                return None;
            },
        }
        k += 1;
    }
    if has_multi {
        match &t.segments[tn - 1] {
            Segment::DynamicMulti(n) => {
                let joined = join_segments(&u.segments, m);
                let ghost pre = pairs@;
                pairs.push((n.as_str().to_owned(), joined));
                proof {
                    assert(tsegs.skip(m as int)[0] == tsegs[m as int]);
                    assert(param_views(pairs@) =~= param_views(pre) + seq![
                        (n@, join_on(usegs.skip(m as int), '/')),
                    ]);
                }
            },
            _ => {
                proof {
                    assert(false);
                }
                return None;
            },
        }
    } else {
        proof {
            assert(tsegs.skip(m as int) =~= Seq::<Segment>::empty());
        }
    }
    let ghost path_done = pairs@;
    proof {
        assert(param_views(path_done) =~= spec_path_bindings(tsegs, usegs));
    }
    match &t.query {
        Some(qp) => {
            let qv: String = match &u.query {
                Some(q) => q.as_str().to_owned(),
                None => String::new(),
            };
            pairs.push((qp.name.as_str().to_owned(), qv));
            proof {
                assert(param_views(pairs@) =~= param_views(path_done) + seq![
                    (
                        qp.name@,
                        match u.query {
                            Some(q) => q@,
                            None => Seq::<char>::empty(),
                        },
                    ),
                ]);
            }
        },
        None => {
            proof {
                assert(param_views(pairs@) + Seq::<(Seq<char>, Seq<char>)>::empty() =~= param_views(
                    pairs@,
                ));
            }
        },
    }
    Some(Bindings { pairs })
}

} // verus!
