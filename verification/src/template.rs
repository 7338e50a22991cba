//! The template parser and validator.
//!
//! A route declares a literal such as `/files/<path..>` or `/hello?<person>`.
//! Parsing splits the literal into path and query, classifies each non-empty
//! path segment as static, dynamic (`<name>`), or dynamic-multi (`<name..>`,
//! the trailing wildcard), and reads the query clause as one parameter
//! binding. Parameter names obey the identifier rules of [`crate::ident`] and
//! may not be the reserved `_`. All problems of one literal are collected and
//! the literal rejected whole: the walk continues past a faulty segment, the
//! normal-form check runs whatever the walk found, and only text after a
//! trailing wildcard ends the walk at once, since a wildcard must be final.

use vstd::prelude::*;

use crate::diag::Diagnostic;
use crate::diag::DiagnosticKind;
use crate::diag::Span;
use crate::ident::is_valid_ident;
use crate::ident::spec_valid_ident;
use crate::media::MediaType;
use crate::pct::segment_is_encoded;
use crate::pct::spec_segment_encoded;
use crate::uri::nonempty_parts;
use crate::uri::lemma_nonempty_parts_concat;
use crate::uri::lemma_split_weight;
use crate::uri::opt_view;
use crate::uri::split_weight;
use crate::uri::spec_normal_path;
use crate::uri::spec_split_raw;
use crate::uri::spec_uri_ok;
use crate::uri::split_on;
use crate::uri::split_str;
use crate::uri::views;
use crate::uri::Uri;

verus! {

/// One classified path segment of a template.
#[derive(Debug)]
pub enum Segment {
    /// Fixed text that a request segment must equal after percent-decoding.
    Static(String),
    /// `<name>`: matches any one non-empty request segment.
    Dynamic(String),
    /// `<name..>`: matches all remaining request segments, zero included.
    DynamicMulti(String),
}

/// The query clause of a template: `?<name>` binds the request's whole raw
/// query string; `?<name..>` marks the trailing form that accepts any and all
/// remaining parameters.
#[derive(Debug)]
pub struct QueryParam {
    pub name: String,
    pub trailing: bool,
}

/// A parsed, validated route template: the classified path segments, the
/// optional query binding, an optional declared media type, and an optional
/// user-assigned rank (lower is tried first).
#[derive(Debug)]
pub struct Template {
    pub segments: Vec<Segment>,
    pub query: Option<QueryParam>,
    pub media: Option<MediaType>,
    pub rank: Option<i32>,
}

/// Whether raw text has the parameter shape `<...>`.
pub open spec fn is_param_shape(s: Seq<char>) -> bool {
    s.len() >= 2 && s[0] == '<' && s[s.len() - 1] == '>'
}

/// Whether raw text has the trailing-wildcard shape `<...>` ending in `..>`.
pub open spec fn is_multi_shape(s: Seq<char>) -> bool {
    is_param_shape(s) && s.len() >= 4 && s[s.len() - 3] == '.' && s[s.len() - 2] == '.'
}

/// The name inside a parameter-shaped text.
pub open spec fn param_name(s: Seq<char>) -> Seq<char> {
    if is_multi_shape(s) {
        s.subrange(1, s.len() - 3)
    } else {
        s.subrange(1, s.len() - 1)
    }
}

/// What is wrong with a parameter name, if anything: empty, not an
/// identifier, or the reserved `_`, told apart in that order.
pub open spec fn param_diag(name: Seq<char>) -> Option<DiagnosticKind> {
    if name.len() == 0 {
        Some(DiagnosticKind::EmptyParameterName)
    } else if !spec_valid_ident(name) {
        Some(DiagnosticKind::InvalidParameterIdentifier)
    } else if name == seq!['_'] {
        Some(DiagnosticKind::ReservedParameterName)
    } else {
        None
    }
}

/// What is wrong with one non-empty path segment, if anything.
pub open spec fn seg_diag(s: Seq<char>) -> Option<DiagnosticKind> {
    if is_param_shape(s) {
        param_diag(param_name(s))
    } else if s.len() > 0 && s[0] == '<' {
        if s.skip(1).contains('<') || s.contains('>') {
            Some(DiagnosticKind::MalformedParameter)
        } else {
            Some(DiagnosticKind::UnclosedParameter)
        }
    } else if !spec_segment_encoded(s) {
        if s.contains('<') || s.contains('>') {
            Some(DiagnosticKind::MalformedParameter)
        } else {
            Some(DiagnosticKind::InvalidPathCharacters)
        }
    } else {
        None
    }
}

/// What is wrong with a query clause, if anything: it must be one parameter,
/// `<name>` or `<name..>`, whose name passes the parameter rules.
pub open spec fn query_diag(q: Seq<char>) -> Option<DiagnosticKind> {
    if is_param_shape(q) {
        param_diag(param_name(q))
    } else if q.len() > 0 && q[0] == '<' {
        if q.skip(1).contains('<') || q.contains('>') {
            Some(DiagnosticKind::MalformedParameter)
        } else {
            Some(DiagnosticKind::UnclosedParameter)
        }
    } else {
        Some(DiagnosticKind::MalformedParameter)
    }
}

/// Whether a template accepts a literal: the literal parses as a URI, the
/// query clause (when present) is one well-named parameter, every non-empty
/// segment classifies cleanly, a wildcard stands only last, and the path is
/// in its normal form.
pub open spec fn spec_template_ok(raw: Seq<char>) -> bool {
    let p = spec_split_raw(raw).0;
    let q = spec_split_raw(raw).1;
    let segs = nonempty_parts(split_on(p.skip(1), '/'));
    &&& spec_uri_ok(raw)
    &&& match q {
        None => true,
        Some(qs) => query_diag(qs) is None,
    }
    &&& forall|k: int| 0 <= k < segs.len() ==> seg_diag(#[trigger] segs[k]) is None
    &&& forall|k: int| 0 <= k < segs.len() && is_multi_shape(#[trigger] segs[k]) ==> k == segs.len() - 1
    &&& p == spec_normal_path(segs)
}

/// Whether one classified segment is the classification of raw text.
pub open spec fn spec_seg_classified(s: Segment, raw: Seq<char>) -> bool {
    match s {
        Segment::Static(t) => !is_param_shape(raw) && raw.len() > 0 && raw[0] != '<' && t@ == raw,
        Segment::Dynamic(n) => is_param_shape(raw) && !is_multi_shape(raw) && n@ == param_name(
            raw,
        ),
        Segment::DynamicMulti(n) => is_multi_shape(raw) && n@ == param_name(raw),
    }
}

/// Whether a classified segment list is the classification of a raw list.
pub open spec fn segs_classified(out: Seq<Segment>, raws: Seq<Seq<char>>) -> bool {
    &&& out.len() == raws.len()
    &&& forall|k: int| 0 <= k < out.len() ==> spec_seg_classified(#[trigger] out[k], raws[k])
}

/// Whether the parsed query binding is the classification of the raw query.
pub open spec fn query_classified(q: Option<QueryParam>, qs_opt: Option<Seq<char>>) -> bool {
    match qs_opt {
        None => q is None,
        Some(qs) => match q {
            Some(qp) => query_diag(qs) is None && qp.name@ == param_name(qs) && qp.trailing
                == is_multi_shape(qs),
            None => false,
        },
    }
}

/// What a diagnostic states, for contracts: its kind, the character span's
/// bounds, and the note's text. (The help text is advisory and not pinned.)
pub open spec fn diag_view(d: Diagnostic) -> (DiagnosticKind, int, int, Option<Seq<char>>) {
    (d.kind, d.span.start as int, d.span.end as int, opt_view(d.note))
}

/// The views of a diagnostic list.
pub open spec fn diag_views(ds: Seq<Diagnostic>) -> Seq<
    (DiagnosticKind, int, int, Option<Seq<char>>),
> {
    ds.map_values(|d: Diagnostic| diag_view(d))
}

/// The note a faulty segment's diagnostic carries: the rejected name when the
/// name is not an identifier, nothing otherwise.
pub open spec fn seg_note(s: Seq<char>) -> Option<Seq<char>> {
    if seg_diag(s) == Some(DiagnosticKind::InvalidParameterIdentifier) {
        Some(param_name(s))
    } else {
        None
    }
}

/// The note a faulty query clause's diagnostic carries.
pub open spec fn query_note(qs: Seq<char>) -> Option<Seq<char>> {
    if query_diag(qs) == Some(DiagnosticKind::InvalidParameterIdentifier) {
        Some(param_name(qs))
    } else {
        None
    }
}

/// The note of a path that is not in its normal form: both forms, the
/// expected normal one and the found one.
pub open spec fn both_forms_note(found: Seq<char>, expected: Seq<char>) -> Seq<char> {
    "expected '"@ + expected + "', found '"@ + found + "'"@
}

/// The diagnostics of the segment walk over the raw parts of a path, `pos`
/// the character position of the first part within the literal and `multi`
/// the text of the clean trailing wildcard already passed, if any. Empty
/// parts are the normal-form check's concern; a faulty non-empty part earns
/// its [`seg_diag`] kind over its own span; the first non-empty part after a
/// clean wildcard earns [`DiagnosticKind::TrailingTextAfterWildcard`], noting
/// the wildcard's text, and ends the walk, as a wildcard must be final.
pub open spec fn seg_diags(parts: Seq<Seq<char>>, pos: int, multi: Option<Seq<char>>) -> Seq<
    (DiagnosticKind, int, int, Option<Seq<char>>),
>
    decreases parts.len(),
{
    if parts.len() == 0 {
        Seq::empty()
    } else {
        let p = parts[0];
        let next = pos + p.len() + 1;
        if p.len() == 0 {
            seg_diags(parts.skip(1), next, multi)
        } else {
            match multi {
                Some(w) => seq![
                    (DiagnosticKind::TrailingTextAfterWildcard, pos, pos + p.len() as int, Some(w)),
                ],
                None => {
                    let passed = if is_multi_shape(p) && seg_diag(p) is None {
                        Some(p)
                    } else {
                        None
                    };
                    let rest = seg_diags(parts.skip(1), next, passed);
                    match seg_diag(p) {
                        None => rest,
                        Some(k) => seq![(k, pos, pos + p.len() as int, seg_note(p))] + rest,
                    }
                },
            }
        }
    }
}

/// The diagnostic of the query clause, if any: its kind over the clause's
/// span, after the `?`.
pub open spec fn query_diags(raw: Seq<char>) -> Seq<
    (DiagnosticKind, int, int, Option<Seq<char>>),
> {
    match spec_split_raw(raw).1 {
        None => Seq::empty(),
        Some(qs) => match query_diag(qs) {
            None => Seq::empty(),
            Some(k) => seq![
                (k, spec_split_raw(raw).0.len() as int + 1, raw.len() as int, query_note(qs)),
            ],
        },
    }
}

/// Every diagnostic a route literal earns, in order: one `MalformedUri` over
/// the whole literal when it is not a URI; otherwise the query clause's
/// diagnostic, then the segment walk's, then, when the path is not in its
/// normal form, one `EmptySegment` over the path noting both forms.
pub open spec fn spec_template_diags(raw: Seq<char>) -> Seq<
    (DiagnosticKind, int, int, Option<Seq<char>>),
> {
    if !spec_uri_ok(raw) {
        seq![(DiagnosticKind::MalformedUri, 0int, raw.len() as int, None)]
    } else {
        let p = spec_split_raw(raw).0;
        let parts = split_on(p.skip(1), '/');
        let normal = spec_normal_path(nonempty_parts(parts));
        query_diags(raw) + seg_diags(parts, 1, None) + (if p == normal {
            Seq::empty()
        } else {
            seq![
                (
                    DiagnosticKind::EmptySegment,
                    0int,
                    p.len() as int,
                    Some(both_forms_note(p, normal)),
                ),
            ]
        })
    }
}

impl Template {
    /// Structural validity: a wildcard segment stands only last, and every
    /// static segment is non-empty, fully encoded text.
    pub open spec fn wf(self) -> bool {
        &&& forall|k: int|
            0 <= k < self.segments@.len() && self.segments@[k] is DynamicMulti ==> k
                == self.segments@.len() - 1
        &&& forall|k: int|
            0 <= k < self.segments@.len() ==> (#[trigger] self.segments@[k] matches
            Segment::Static(t) ==> t@.len() > 0 && spec_segment_encoded(t@))
    }

    /// Whether the template ends in a trailing wildcard segment.
    pub open spec fn spec_has_multi(self) -> bool {
        self.segments@.len() > 0 && self.segments@[self.segments@.len() - 1] is DynamicMulti
    }
}

/// Whether `s` has the parameter shape `<...>`.
fn param_shape(s: &str) -> (r: bool)
    ensures
        r == is_param_shape(s@),
{
    let l = s.unicode_len();
    l >= 2 && s.get_char(0) == '<' && s.get_char(l - 1) == '>'
}

/// Whether `s` has the trailing-wildcard shape.
fn multi_shape(s: &str) -> (r: bool)
    ensures
        r == is_multi_shape(s@),
{
    param_shape(s) && s.unicode_len() >= 4 && s.get_char(s.unicode_len() - 3) == '.' && s.get_char(
        s.unicode_len() - 2,
    ) == '.'
}

/// Whether `c` occurs in `s` at or after position `from`.
fn contains_char(s: &str, from: usize, c: char) -> (r: bool)
    requires
        from <= s@.len(),
    ensures
        r == s@.skip(from as int).contains(c),
{
    let len = s.unicode_len();
    let mut i: usize = from;
    while i < len
        invariant
            from <= i <= len,
            len == s@.len(),
            forall|j: int| from <= j < i ==> s@[j] != c,
        decreases len - i,
    {
        if s.get_char(i) == c {
            proof {
                assert(s@.skip(from as int)[i - from] == c);
            }
            return true;
        }
        i += 1;
    }
    proof {
        if s@.skip(from as int).contains(c) {
            let k = choose|k: int|
                0 <= k < s@.skip(from as int).len() && s@.skip(from as int)[k] == c;
            assert(s@[from + k] == c);
        }
    }
    false
}

/// Whether `s` is exactly the reserved name `_`.
fn is_underscore(s: &str) -> (r: bool)
    ensures
        r == (s@ == seq!['_']),
{
    let l = s.unicode_len();
    if l != 1 {
        return false;
    }
    let r = s.get_char(0) == '_';
    proof {
        if r {
            assert(s@ =~= seq!['_']);
        }
    }
    r
}

/// Classify the inside of a parameter-shaped text: its name and whether it is
/// the trailing form, or the diagnostic kind its name earns.
fn classify_param(s: &str, span: Span) -> (r: Result<(String, bool), Diagnostic>)
    requires
        is_param_shape(s@),
    ensures
        match r {
            Ok(p) => param_diag(param_name(s@)) is None && p.0@ == param_name(s@) && p.1
                == is_multi_shape(s@),
            Err(d) => {
                &&& param_diag(param_name(s@)) == Some(d.kind)
                &&& d.span == span
                &&& opt_view(d.note) == (if d.kind == DiagnosticKind::InvalidParameterIdentifier {
                    Some(param_name(s@))
                } else {
                    None::<Seq<char>>
                })
            },
        },
{
    let l = s.unicode_len();
    let multi = multi_shape(s);
    let name = if multi {
        s.substring_char(1, l - 3)
    } else {
        s.substring_char(1, l - 1)
    };
    if name.unicode_len() == 0 {
        return Err(Diagnostic::new(DiagnosticKind::EmptyParameterName, span));
    }
    if !is_valid_ident(name) {
        let mut d = Diagnostic::new(DiagnosticKind::InvalidParameterIdentifier, span);
        d.note = Some(name.to_owned());
        return Err(d);
    }
    if is_underscore(name) {
        let mut d = Diagnostic::new(DiagnosticKind::ReservedParameterName, span);
        d.help = Some(String::from_str("use a name such as `_guard` or `_param`"));
        return Err(d);
    }
    Ok((name.to_owned(), multi))
}

/// Classify a raw query clause as a binding, or the diagnostic it earns.
fn classify_query(qs: &str, span: Span) -> (r: Result<QueryParam, Diagnostic>)
    ensures
        match r {
            Ok(qp) => query_diag(qs@) is None && qp.name@ == param_name(qs@) && qp.trailing
                == is_multi_shape(qs@),
            Err(d) => {
                &&& query_diag(qs@) == Some(d.kind)
                &&& d.span == span
                &&& opt_view(d.note) == query_note(qs@)
            },
        },
{
    let l = qs.unicode_len();
    if param_shape(qs) {
        match classify_param(qs, span) {
            Ok(p) => Ok(QueryParam { name: p.0, trailing: p.1 }),
            Err(d) => Err(d),
        }
    } else if l > 0 && qs.get_char(0) == '<' {
        proof {
            assert(qs@.skip(0) =~= qs@);
        }
        if contains_char(qs, 1, '<') || contains_char(qs, 0, '>') {
            Err(Diagnostic::new(DiagnosticKind::MalformedParameter, span))
        } else {
            let mut d = Diagnostic::new(DiagnosticKind::UnclosedParameter, span);
            let mut fix = qs.to_owned();
            proof {
                reveal_strlit(">");
                assert(">"@ =~= seq!['>']);
            }
            fix.append(">");
            d.help = Some(fix);
            Err(d)
        }
    } else {
        Err(Diagnostic::new(DiagnosticKind::MalformedParameter, span))
    }
}

/// Validate one non-empty raw path segment on its own, apart from any full
/// parse: the diagnostic kind it earns, or nothing when it is a clean static,
/// dynamic, or wildcard segment.
pub fn validate_segment(s: &str) -> (r: Option<DiagnosticKind>)
    ensures
        r == seg_diag(s@),
{
    let l = s.unicode_len();
    proof {
        assert(s@.skip(0) =~= s@);
    }
    if param_shape(s) {
        match classify_param(s, Span { start: 0, end: l }) {
            Ok(_) => None,
            Err(d) => Some(d.kind),
        }
    } else if l > 0 && s.get_char(0) == '<' {
        if contains_char(s, 1, '<') || contains_char(s, 0, '>') {
            Some(DiagnosticKind::MalformedParameter)
        } else {
            Some(DiagnosticKind::UnclosedParameter)
        }
    } else if !segment_is_encoded(s) {
        if contains_char(s, 0, '<') || contains_char(s, 0, '>') {
            Some(DiagnosticKind::MalformedParameter)
        } else {
            Some(DiagnosticKind::InvalidPathCharacters)
        }
    } else {
        None
    }
}

/// Validate a raw query clause on its own: the diagnostic kind it earns, or
/// nothing when it is one well-named `<name>` or `<name..>` parameter.
pub fn validate_query_clause(s: &str) -> (r: Option<DiagnosticKind>)
    ensures
        r == query_diag(s@),
{
    let l = s.unicode_len();
    match classify_query(s, Span { start: 0, end: l }) {
        Ok(_) => None,
        Err(d) => Some(d.kind),
    }
}

/// Parse and validate a route literal into a template.
///
/// The text before the first `?` is the path, the text after it the query
/// clause. Each non-empty path segment classifies as static text, `<name>`,
/// or `<name..>`; the query clause must be one `<name>` or `<name..>`. All
/// diagnostics of the literal are collected and returned together — the walk
/// continues past a faulty segment, text after a trailing wildcard ends the
/// walk at once, and the normal-form check runs regardless — and a literal
/// with any diagnostic yields no template. Succeeds exactly on the literals
/// that [`spec_template_ok`] accepts, and then returns the classification of
/// the literal's segments and query, with no media type and no rank assigned;
/// fails exactly with the kinds, spans and notes that [`spec_template_diags`]
/// lists.
#[verifier::rlimit(100)]
pub fn parse_template(raw: &str) -> (r: Result<Template, Vec<Diagnostic>>)
    ensures
        match r {
            Ok(t) => {
                &&& spec_template_ok(raw@)
                &&& t.wf()
                &&& segs_classified(
                    t.segments@,
                    nonempty_parts(split_on(spec_split_raw(raw@).0.skip(1), '/')),
                )
                &&& query_classified(t.query, spec_split_raw(raw@).1)
                &&& t.media is None
                &&& t.rank is None
            },
            Err(ds) => {
                &&& !spec_template_ok(raw@)
                &&& ds@.len() >= 1
                &&& diag_views(ds@) == spec_template_diags(raw@)
            },
        },
{
    let mut diags: Vec<Diagnostic> = Vec::new();
    let rawlen = raw.unicode_len();

    let u: Uri = match crate::uri::parse(raw) {
        Err(_) => {
            let mut d = Diagnostic::new(
                DiagnosticKind::MalformedUri,
                Span { start: 0, end: rawlen },
            );
            d.help = Some(String::from_str("example: /path/<route>"));
            diags.push(d);
            proof {
                assert(diag_views(diags@) =~= seq![
                    (DiagnosticKind::MalformedUri, 0int, raw@.len() as int, None::<Seq<char>>),
                ]);
            }
            return Err(diags);
        },
        Ok(u) => u,
    };

    let plen = u.path.as_str().unicode_len();
    let ghost qd = query_diags(raw@);

    // the query clause, over its span after the `?`
    let mut query: Option<QueryParam> = None;
    match &u.query {
        Some(qs) => {
            proof {
                // the raw literal holds the path, the `?`, and the clause
                crate::uri::lemma_find_char_sound(raw@, '?');
            }
            match classify_query(qs.as_str(), Span { start: plen + 1, end: rawlen }) {
                Ok(qp) => {
                    query = Some(qp);
                },
                Err(d) => {
                    proof {
                        assert(diag_views(diags@.push(d)) =~= seq![diag_view(d)]);
                    }
                    diags.push(d);
                },
            }
        },
        None => {},
    }
    assert(diag_views(diags@) == qd);
    assert(diags@.len() == 0 ==> query_classified(query, spec_split_raw(raw@).1));
    assert(diags@.len() > 0 ==> !spec_template_ok(raw@));

    // the path segments
    let tail = u.path.as_str().substring_char(1, plen);
    let parts = split_str(tail, '/');
    proof {
        assert(u.path@.skip(1) =~= tail@);
        lemma_split_weight(tail@, '/');
    }
    let ghost pv = views(parts@);
    let ghost all = nonempty_parts(pv);
    let n = parts.len();
    let mut segs_out: Vec<Segment> = Vec::new();
    let mut multi_text: Option<String> = None;
    let mut stopped: bool = false;
    let mut pos: usize = 1;
    let mut i: usize = 0;
    proof {
        assert(pv.take(0) =~= Seq::<Seq<char>>::empty());
        assert(nonempty_parts(Seq::<Seq<char>>::empty()) =~= Seq::<Seq<char>>::empty());
        assert(pv.skip(0) =~= pv);
        assert(diag_views(diags@).skip(qd.len() as int) =~= Seq::<
            (DiagnosticKind, int, int, Option<Seq<char>>),
        >::empty());
    }
    while i < n && !stopped
        invariant
            0 <= i <= n,
            n == parts@.len(),
            pv == views(parts@),
            all == nonempty_parts(pv),
            plen == u.path@.len(),
            plen >= 1,
            tail@ == u.path@.skip(1),
            pv == split_on(u.path@.skip(1), '/'),
            spec_uri_ok(raw@),
            u.path@ == spec_split_raw(raw@).0,
            opt_view(u.query) == spec_split_raw(raw@).1,
            qd == query_diags(raw@),
            diag_views(diags@).take(qd.len() as int) == qd,
            diag_views(diags@).len() >= qd.len(),
            stopped ==> seg_diags(pv, 1, None) == diag_views(diags@).skip(qd.len() as int),
            !stopped ==> seg_diags(pv, 1, None) == diag_views(diags@).skip(qd.len() as int)
                + seg_diags(pv.skip(i as int), pos as int, opt_view(multi_text)),
            i < n ==> pos as int + split_weight(pv.skip(i as int)) == tail@.len() + 2,
            stopped ==> diags@.len() > 0,
            diags@.len() > 0 ==> !spec_template_ok(raw@),
            diags@.len() == 0 ==> query_classified(query, spec_split_raw(raw@).1),
            diags@.len() == 0 ==> {
                let done = nonempty_parts(pv.take(i as int));
                &&& segs_classified(segs_out@, done)
                &&& forall|k: int| 0 <= k < done.len() ==> seg_diag(#[trigger] done[k]) is None
                &&& (multi_text is Some <==> done.len() > 0 && is_multi_shape(done[done.len() - 1]))
                &&& forall|k: int|
                    0 <= k < done.len() && is_multi_shape(#[trigger] done[k]) ==> k == done.len()
                        - 1
            },
        decreases n - i,
    {
        let ghost done = nonempty_parts(pv.take(i as int));
        let ghost sdone = diag_views(diags@).skip(qd.len() as int);
        proof {
            assert(pv.take(i + 1).drop_last() =~= pv.take(i as int));
            assert(pv.take(i + 1).last() == pv[i as int]);
            // the current non-empty part heads the remaining non-empty parts
            assert(pv =~= pv.take(i as int) + pv.skip(i as int));
            lemma_nonempty_parts_concat(pv.take(i as int), pv.skip(i as int));
            assert(pv.skip(i as int) =~= seq![pv[i as int]] + pv.skip(i as int + 1));
            lemma_nonempty_parts_concat(seq![pv[i as int]], pv.skip(i as int + 1));
            assert(seq![pv[i as int]].drop_last() =~= Seq::<Seq<char>>::empty());
            assert(nonempty_parts(Seq::<Seq<char>>::empty()) =~= Seq::<Seq<char>>::empty());
            // the walk's position and weight over the remaining parts
            assert(pv.skip(i as int)[0] == pv[i as int]);
            assert(pv.skip(i as int).skip(1) =~= pv.skip(i as int + 1));
            assert(split_weight(pv.skip(i as int)) == pv[i as int].len() + 1 + split_weight(
                pv.skip(i as int + 1),
            ));
            if i + 1 < n {
                assert(pv.skip(i as int + 1)[0] == pv[i as int + 1]);
                assert(split_weight(pv.skip(i as int + 1)) >= 1);
            }
        }
        let part = &parts[i];
        proof {
            assert(part@ == pv[i as int]);
        }
        let l = part.as_str().unicode_len();
        let send = pos + l;
        let span = Span { start: pos, end: send };
        let after_multi = multi_text.is_some();
        if l == 0 {
            // an empty part: the normal-form check reports these
            proof {
                assert(seg_diags(pv.skip(i as int), pos as int, opt_view(multi_text))
                    == seg_diags(pv.skip(i as int + 1), pos as int + 1, opt_view(multi_text)));
            }
        } else if after_multi {
            let wtext = match &multi_text {
                Some(w) => w.as_str().to_owned(),
                None => String::new(),
            };
            let mut d = Diagnostic::new(DiagnosticKind::TrailingTextAfterWildcard, span);
            d.note = Some(wtext);
            d.help = Some(String::from_str("a segments param must be the final text in a path"));
            proof {
                if diags@.len() == 0 {
                    // the wildcard that `multi_text` records is not last
                    assert(all[done.len() - 1] == done[done.len() - 1]);
                    assert(nonempty_parts(seq![pv[i as int]]) =~= seq![pv[i as int]]);
                    assert(all.len() >= done.len() + 1);
                    assert(is_multi_shape(all[done.len() - 1]));
                }
                assert(seg_diags(pv.skip(i as int), pos as int, opt_view(multi_text))
                    =~= seq![diag_view(d)]);
                assert(diag_views(diags@.push(d)) =~= diag_views(diags@).push(diag_view(d)));
                assert(diag_views(diags@).push(diag_view(d)).skip(qd.len() as int) =~= sdone
                    + seq![diag_view(d)]);
            }
            diags.push(d);
            stopped = true;
        } else if param_shape(part.as_str()) {
            match classify_param(part.as_str(), span) {
                Ok(p) => {
                    let multi = p.1;
                    if multi {
                        segs_out.push(Segment::DynamicMulti(p.0));
                        multi_text = Some(part.as_str().to_owned());
                    } else {
                        segs_out.push(Segment::Dynamic(p.0));
                    }
                    proof {
                        assert(nonempty_parts(pv.take(i + 1)) =~= done.push(pv[i as int]));
                        assert(seg_diag(pv[i as int]) is None);
                        assert(seg_diags(pv.skip(i as int), pos as int, None) == seg_diags(
                            pv.skip(i as int + 1),
                            pos as int + pv[i as int].len() + 1,
                            if is_multi_shape(pv[i as int]) {
                                Some(pv[i as int])
                            } else {
                                None
                            },
                        ));
                    }
                },
                Err(d) => {
                    proof {
                        if diags@.len() == 0 {
                            assert(nonempty_parts(seq![pv[i as int]]) =~= seq![pv[i as int]]);
                            assert(all[done.len() as int] == pv[i as int]);
                            assert(seg_diag(all[done.len() as int]) is Some);
                        }
                        let entry = diag_view(d);
                        let nxt = seg_diags(
                            pv.skip(i as int + 1),
                            pos as int + pv[i as int].len() + 1,
                            None,
                        );
                        assert(seg_diags(pv.skip(i as int), pos as int, opt_view(multi_text))
                            =~= seq![entry] + nxt);
                        assert(sdone + (seq![entry] + nxt) =~= (sdone + seq![entry]) + nxt);
                        if i + 1 == n {
                            assert(pv.skip(i as int + 1) =~= Seq::<Seq<char>>::empty());
                        }
                        assert(diag_views(diags@.push(d)) =~= diag_views(diags@).push(
                            diag_view(d),
                        ));
                        assert(diag_views(diags@).push(diag_view(d)).skip(qd.len() as int)
                            =~= sdone + seq![diag_view(d)]);
                    }
                    diags.push(d);
                },
            }
        } else {
            let first = part.as_str().get_char(0);
            proof {
                assert(part@.skip(0) =~= part@);
            }
            let bad: Option<Diagnostic> = if first == '<' {
                if contains_char(part.as_str(), 1, '<') || contains_char(part.as_str(), 0, '>') {
                    Some(Diagnostic::new(DiagnosticKind::MalformedParameter, span))
                } else {
                    let mut d = Diagnostic::new(DiagnosticKind::UnclosedParameter, span);
                    let mut fix = part.as_str().to_owned();
                    proof {
                        reveal_strlit(">");
                        assert(">"@ =~= seq!['>']);
                    }
                    fix.append(">");
                    d.help = Some(fix);
                    Some(d)
                }
            } else if !segment_is_encoded(part.as_str()) {
                if contains_char(part.as_str(), 0, '<') || contains_char(part.as_str(), 0, '>') {
                    Some(Diagnostic::new(DiagnosticKind::MalformedParameter, span))
                } else {
                    Some(Diagnostic::new(DiagnosticKind::InvalidPathCharacters, span))
                }
            } else {
                None
            };
            match bad {
                Some(d) => {
                    proof {
                        if diags@.len() == 0 {
                            assert(nonempty_parts(seq![pv[i as int]]) =~= seq![pv[i as int]]);
                            assert(all[done.len() as int] == pv[i as int]);
                            assert(seg_diag(all[done.len() as int]) is Some);
                        }
                        let entry = diag_view(d);
                        let nxt = seg_diags(
                            pv.skip(i as int + 1),
                            pos as int + pv[i as int].len() + 1,
                            None,
                        );
                        assert(seg_diags(pv.skip(i as int), pos as int, opt_view(multi_text))
                            =~= seq![entry] + nxt);
                        assert(sdone + (seq![entry] + nxt) =~= (sdone + seq![entry]) + nxt);
                        if i + 1 == n {
                            assert(pv.skip(i as int + 1) =~= Seq::<Seq<char>>::empty());
                        }
                        assert(diag_views(diags@.push(d)) =~= diag_views(diags@).push(
                            diag_view(d),
                        ));
                        assert(diag_views(diags@).push(diag_view(d)).skip(qd.len() as int)
                            =~= sdone + seq![diag_view(d)]);
                    }
                    diags.push(d);
                },
                None => {
                    segs_out.push(Segment::Static(part.as_str().to_owned()));
                    proof {
                        assert(nonempty_parts(pv.take(i + 1)) =~= done.push(pv[i as int]));
                        assert(seg_diag(pv[i as int]) is None);
                        assert(seg_diags(pv.skip(i as int), pos as int, None) == seg_diags(
                            pv.skip(i as int + 1),
                            pos as int + pv[i as int].len() + 1,
                            None,
                        ));
                    }
                },
            }
        }
        proof {
            if l == 0 {
                assert(nonempty_parts(pv.take(i + 1)) =~= done);
            }
            if i + 1 == n {
                assert(pv.skip(i as int + 1) =~= Seq::<Seq<char>>::empty());
            }
        }
        if i + 1 < n {
            pos = send + 1;
        }
        i += 1;
    }
    let ghost sd = seg_diags(pv, 1, None);
    proof {
        if !stopped {
            assert(pv.skip(n as int) =~= Seq::<Seq<char>>::empty());
        }
        assert(diag_views(diags@) =~= qd + sd);
    }

    // the normal-form check, whatever the walk found
    let normalized = u.is_normalized();
    if !normalized {
        let normal = u.to_normalized();
        let mut note = String::from_str("expected '");
        note.append(normal.path.as_str());
        note.append("', found '");
        note.append(u.path.as_str());
        note.append("'");
        let mut d = Diagnostic::new(DiagnosticKind::EmptySegment, Span { start: 0, end: plen });
        d.note = Some(note);
        proof {
            assert(views(u.segments@) == all);
            assert(d.note->0@ =~= both_forms_note(u.path@, spec_normal_path(all)));
            assert(diag_views(diags@.push(d)) =~= (qd + sd).push(diag_view(d)));
        }
        diags.push(d);
    }

    if diags.len() == 0 {
        proof {
            assert(pv.take(n as int) =~= pv);
            assert(views(u.segments@) == all);
        }
        Ok(Template { segments: segs_out, query, media: None, rank: None })
    } else {
        proof {
            assert(views(u.segments@) == all);
            if normalized {
                assert(diag_views(diags@) =~= spec_template_diags(raw@));
            } else {
                assert((qd + sd).push(diag_views(diags@).last()) =~= qd + sd + seq![
                    diag_views(diags@).last(),
                ]);
                assert(diag_views(diags@) =~= spec_template_diags(raw@));
            }
        }
        Err(diags)
    }
}

/// The dynamic segment forms, as the parser classifies them: for a valid
/// identifier `n` other than the reserved `_`, the text `<n>` is a clean
/// single-segment parameter named `n`, and `<n..>` is a clean trailing
/// wildcard named `n`.
pub proof fn lemma_dynamic_segment_forms(n: Seq<char>)
    requires
        spec_valid_ident(n),
        n != seq!['_'],
    ensures
        is_param_shape(seq!['<'] + n + seq!['>']),
        !is_multi_shape(seq!['<'] + n + seq!['>']),
        param_name(seq!['<'] + n + seq!['>']) == n,
        seg_diag(seq!['<'] + n + seq!['>']) is None,
        is_multi_shape(seq!['<'] + n + seq!['.', '.', '>']),
        param_name(seq!['<'] + n + seq!['.', '.', '>']) == n,
        seg_diag(seq!['<'] + n + seq!['.', '.', '>']) is None,
{
    let s1 = seq!['<'] + n + seq!['>'];
    let s2 = seq!['<'] + n + seq!['.', '.', '>'];
    assert(s1.len() == n.len() + 2);
    assert(s1[0] == '<' && s1[s1.len() - 1] == '>');
    if is_multi_shape(s1) {
        // the character before the closing bracket would be a `.`, which no
        // identifier contains
        let j = s1.len() - 3;
        assert(s1[j] == n[j - 1]);
        if j - 1 == 0 {
            assert(crate::ident::spec_ident_start(n[0]));
            assert(n[0] != '.');
        } else {
            assert(crate::ident::spec_ident_continue(n[j - 1]));
            assert(n[j - 1] != '.');
        }
    }
    assert(param_name(s1) =~= n);
    assert(s2.len() == n.len() + 4);
    assert(s2[0] == '<' && s2[s2.len() - 1] == '>');
    assert(s2[s2.len() - 3] == '.' && s2[s2.len() - 2] == '.');
    assert(is_multi_shape(s2));
    assert(param_name(s2) =~= n);
}

} // verus!
