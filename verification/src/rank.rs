//! The rank resolver: a deterministic try-order for overlapping templates.
//!
//! Every template has a rank, lower tried first: the user-assigned rank when
//! one is set, otherwise a rank derived from specificity, where more static
//! segments rank earlier and a template with a trailing wildcard ranks after
//! any template without one at the same static-segment count. Candidates that
//! match the same request are ordered by rank, ties broken by declaration
//! order, first registered first — a pure function of the template values and
//! their positions alone.

use vstd::prelude::*;

use crate::matcher::match_template;
use crate::matcher::spec_bindings;
use crate::matcher::spec_template_matches;
use crate::matcher::Bindings;
use crate::media::param_views;
use crate::template::Segment;
use crate::template::Template;
use crate::uri::Uri;

verus! {

/// The number of static segments.
pub open spec fn count_static(segs: Seq<Segment>) -> int
    decreases segs.len(),
{
    if segs.len() == 0 {
        0
    } else {
        count_static(segs.drop_last()) + (if segs.last() is Static {
            1int
        } else {
            0int
        })
    }
}

/// The rank of a template: the user-assigned rank when set, otherwise derived
/// from specificity — two points earlier for every static segment, one point
/// later for a trailing wildcard. Lower ranks are tried first.
pub open spec fn spec_rank(t: Template) -> int {
    match t.rank {
        Some(r) => r as int,
        None => (if t.spec_has_multi() {
            1int
        } else {
            0int
        }) - 2 * count_static(t.segments@),
    }
}

/// The number of static segments of a template.
pub fn static_count(t: &Template) -> (r: usize)
    ensures
        r as int == count_static(t.segments@),
{
    let n = t.segments.len();
    let mut c: usize = 0;
    proof {
        assert(t.segments@.take(0) =~= Seq::<Segment>::empty());
    }
    let mut i: usize = 0;
    while i < n
        invariant
            0 <= i <= n,
            n == t.segments@.len(),
            c <= i,
            c as int == count_static(t.segments@.take(i as int)),
        decreases n - i,
    {
        proof {
            assert(t.segments@.take(i + 1).drop_last() =~= t.segments@.take(i as int));
            assert(t.segments@.take(i + 1).last() == t.segments@[i as int]);
        }
        let is_static = match &t.segments[i] {
            Segment::Static(_) => true,
            _ => false,
        };
        if is_static {
            c += 1;
        }
        i += 1;
    }
    proof {
        assert(t.segments@.take(n as int) =~= t.segments@);
    }
    c
}

/// Whether the template ends in a trailing wildcard.
pub fn has_multi(t: &Template) -> (r: bool)
    ensures
        r == t.spec_has_multi(),
{
    let n = t.segments.len();
    n > 0 && (match &t.segments[n - 1] {
        Segment::DynamicMulti(_) => true,
        _ => false,
    })
}

/// Whether `a` ranks at or before `b`: `spec_rank(a) <= spec_rank(b)`.
pub fn rank_le(a: &Template, b: &Template) -> (r: bool)
    ensures
        r == (spec_rank(*a) <= spec_rank(*b)),
{
    match (a.rank, b.rank) {
        (Some(x), Some(y)) => x <= y,
        (Some(x), None) => {
            let cb = static_count(b);
            if cb >= 2147483648 {
                false
            } else {
                let yb: i64 = (if has_multi(b) {
                    1i64
                } else {
                    0i64
                }) - 2 * (cb as i64);
                (x as i64) <= yb
            }
        },
        (None, Some(y)) => {
            let ca = static_count(a);
            if ca >= 2147483648 {
                true
            } else {
                let xa: i64 = (if has_multi(a) {
                    1i64
                } else {
                    0i64
                }) - 2 * (ca as i64);
                xa <= (y as i64)
            }
        },
        (None, None) => {
            let ca = static_count(a);
            let cb = static_count(b);
            if ca > cb {
                true
            } else if ca < cb {
                false
            } else {
                !has_multi(a) || has_multi(b)
            }
        },
    }
}

/// One entry of a resolved try-order: which template matched, by its position
/// in the route table, and the bindings its match produced.
pub struct Candidate {
    pub index: usize,
    pub bindings: Bindings,
}

/// Whether `out` is ordered by rank, declaration order breaking ties.
pub open spec fn spec_ordered(ts: Seq<Template>, out: Seq<Candidate>) -> bool {
    forall|p: int, q: int|
        0 <= p < q < out.len() ==> spec_rank(ts[#[trigger] out[p].index as int]) < spec_rank(
            ts[#[trigger] out[q].index as int],
        ) || (spec_rank(ts[out[p].index as int]) == spec_rank(ts[out[q].index as int])
            && out[p].index < out[q].index)
}

/// Whether every entry of `out` is a true match of `u` carrying its bindings.
pub open spec fn spec_entries_sound(ts: Seq<Template>, u: Uri, out: Seq<Candidate>) -> bool {
    forall|p: int|
        0 <= p < out.len() ==> (#[trigger] out[p].index as int) < ts.len()
            && spec_template_matches(ts[out[p].index as int], u) && param_views(
            out[p].bindings.pairs@,
        ) == spec_bindings(ts[out[p].index as int], u)
}

/// Resolve a request against the route table: every matching template, each
/// with its bindings, ordered by rank ascending, declaration order breaking
/// ties. The order is a pure function of the template values and their
/// positions: nothing else enters it.
#[verifier::loop_isolation(false)]
pub fn resolve(templates: &Vec<Template>, u: &Uri) -> (r: Vec<Candidate>)
    requires
        u.wf(),
        forall|i: int| 0 <= i < templates@.len() ==> (#[trigger] templates@[i]).wf(),
    ensures
        spec_ordered(templates@, r@),
        spec_entries_sound(templates@, *u, r@),
        forall|i: int|
            0 <= i < templates@.len() && spec_template_matches(templates@[i], *u) ==> exists|p: int|
                0 <= p < r@.len() && (#[trigger] r@[p].index) as int == i,
{
    let n = templates.len();
    let mut out: Vec<Candidate> = Vec::new();
    let mut i: usize = 0;
    while i < n
        invariant
            0 <= i <= n,
            spec_ordered(templates@, out@),
            spec_entries_sound(templates@, *u, out@),
            forall|p: int| 0 <= p < out@.len() ==> (#[trigger] out@[p].index) < i,
            forall|j: int|
                0 <= j < i && spec_template_matches(templates@[j], *u) ==> exists|p: int|
                    0 <= p < out@.len() && (#[trigger] out@[p].index) as int == j,
        decreases n - i,
    {
        match match_template(&templates[i], u) {
            None => {},
            Some(b) => {
                let mut p = out.len();
                while p > 0 && !rank_le(&templates[out[p - 1].index], &templates[i])
                    invariant
                        0 <= p <= out@.len(),
                        forall|q: int|
                            p <= q < out@.len() ==> spec_rank(
                                templates@[#[trigger] out@[q].index as int],
                            ) > spec_rank(templates@[i as int]),
                    decreases p,
                {
                    p = p - 1;
                }
                let ghost pre = out@;
                let cand = Candidate { index: i, bindings: b };
                out.insert(p, cand);
                proof {
                    let now = out@;
                    assert(now =~= pre.subrange(0, p as int).push(cand) + pre.subrange(
                        p as int,
                        pre.len() as int,
                    ));
                    assert(forall|q: int| 0 <= q < p ==> now[q] == pre[q]);
                    assert(now[p as int] == cand);
                    assert(forall|q: int| p < q < now.len() ==> now[q] == pre[q - 1]);
                    // order around the insertion point
                    if p > 0 {
                        assert(spec_rank(templates@[pre[p - 1].index as int]) <= spec_rank(
                            templates@[i as int],
                        ));
                    }
                    // every previously present match is still present
                    assert forall|j: int|
                        0 <= j < i + 1 && spec_template_matches(templates@[j], *u) implies exists|
                        q: int,
                    |
                        0 <= q < now.len() && (#[trigger] now[q].index) as int == j by {
                        if j == i {
                            assert(now[p as int].index as int == j);
                        } else {
                            let q0 = choose|q0: int|
                                0 <= q0 < pre.len() && (#[trigger] pre[q0].index) as int == j;
                            if q0 < p {
                                assert(now[q0].index as int == j);
                            } else {
                                assert(now[q0 + 1].index as int == j);
                            }
                        }
                    }
                }
            },
        }
        i += 1;
    }
    out
}

} // verus!
