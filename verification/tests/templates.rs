use uri_routing::diag::DiagnosticKind;
use uri_routing::template::parse_template;
use uri_routing::template::validate_query_clause;
use uri_routing::template::validate_segment;
use uri_routing::template::Segment;

#[test]
fn main() {
    // a route whose parameter name collides with common identifiers still
    // registers: `/<todo>` is a clean single dynamic segment
    let t = parse_template("/<todo>").unwrap();
    assert_eq!(t.segments.len(), 1);
    match &t.segments[0] {
        Segment::Dynamic(n) => assert_eq!(n.as_str(), "todo"),
        _ => panic!("expected a dynamic segment"),
    }
    assert!(t.query.is_none());
}

#[test]
fn dynamic_and_multi_forms() {
    let t = parse_template("/<name>").unwrap();
    assert!(matches!(&t.segments[0], Segment::Dynamic(n) if n == "name"));

    let t = parse_template("/files/<path..>").unwrap();
    assert_eq!(t.segments.len(), 2);
    assert!(matches!(&t.segments[0], Segment::Static(s) if s == "files"));
    assert!(matches!(&t.segments[1], Segment::DynamicMulti(n) if n == "path"));
}

#[test]
fn trailing_text_after_wildcard() {
    let ds = parse_template("/<a>/<b..>/<c>").unwrap_err();
    assert_eq!(ds.len(), 1);
    assert_eq!(ds[0].kind, DiagnosticKind::TrailingTextAfterWildcard);
    // the span points at the `<c>` segment: /<a>/<b..>/<c>
    assert_eq!(ds[0].span.start, 11);
    assert_eq!(ds[0].span.end, 14);
    // the note locates the wildcard the text follows
    assert_eq!(ds[0].note.as_deref(), Some("<b..>"));
}

#[test]
fn wildcard_followed_by_empty_or_text() {
    // an empty part after the wildcard is a normalization problem, not
    // trailing text; a non-empty one is trailing text
    let ds = parse_template("/a/<b..>/").unwrap_err();
    assert_eq!(ds[0].kind, DiagnosticKind::EmptySegment);
    let ds = parse_template("/<a..>//b").unwrap_err();
    assert_eq!(ds.len(), 2);
    assert_eq!(ds[0].kind, DiagnosticKind::TrailingTextAfterWildcard);
    assert_eq!(ds[1].kind, DiagnosticKind::EmptySegment);
}

#[test]
fn reserved_parameter_name() {
    let ds = parse_template("/<_>").unwrap_err();
    assert_eq!(ds.len(), 1);
    assert_eq!(ds[0].kind, DiagnosticKind::ReservedParameterName);
}

#[test]
fn empty_segment_notes_normal_form() {
    let ds = parse_template("/a//b").unwrap_err();
    assert_eq!(ds.len(), 1);
    assert_eq!(ds[0].kind, DiagnosticKind::EmptySegment);
    // the note shows the expected normal form and the found literal
    assert_eq!(ds[0].note.as_deref(), Some("expected '/a/b', found '/a//b'"));
}

#[test]
fn trailing_slash_is_an_empty_segment() {
    let ds = parse_template("/a/").unwrap_err();
    assert_eq!(ds[0].kind, DiagnosticKind::EmptySegment);
    assert_eq!(ds[0].note.as_deref(), Some("expected '/a', found '/a/'"));
}

#[test]
fn empty_parameter_name() {
    let ds = parse_template("/<>").unwrap_err();
    assert_eq!(ds[0].kind, DiagnosticKind::EmptyParameterName);
    let ds = parse_template("/<..>").unwrap_err();
    assert_eq!(ds[0].kind, DiagnosticKind::EmptyParameterName);
}

#[test]
fn invalid_parameter_identifier() {
    let ds = parse_template("/<a-b>").unwrap_err();
    assert_eq!(ds[0].kind, DiagnosticKind::InvalidParameterIdentifier);
    assert_eq!(ds[0].note.as_deref(), Some("a-b"));
}

#[test]
fn unclosed_parameter() {
    let ds = parse_template("/<a").unwrap_err();
    assert_eq!(ds[0].kind, DiagnosticKind::UnclosedParameter);
    assert_eq!(ds[0].help.as_deref(), Some("<a>"));
}

#[test]
fn malformed_parameter() {
    let ds = parse_template("/a<b>").unwrap_err();
    assert_eq!(ds[0].kind, DiagnosticKind::MalformedParameter);
    let ds = parse_template("/<a>b").unwrap_err();
    assert_eq!(ds[0].kind, DiagnosticKind::MalformedParameter);
}

#[test]
fn invalid_path_characters() {
    let ds = parse_template("/a[b").unwrap_err();
    assert_eq!(ds[0].kind, DiagnosticKind::InvalidPathCharacters);
}

#[test]
fn malformed_uri() {
    let ds = parse_template("a/b").unwrap_err();
    assert_eq!(ds[0].kind, DiagnosticKind::MalformedUri);
    let ds = parse_template("/a b").unwrap_err();
    assert_eq!(ds[0].kind, DiagnosticKind::MalformedUri);
    let ds = parse_template("").unwrap_err();
    assert_eq!(ds[0].kind, DiagnosticKind::MalformedUri);
}

#[test]
fn several_diagnostics_in_one_pass() {
    // both parameter problems of one literal surface together
    let ds = parse_template("/<_>/<a-b>").unwrap_err();
    assert_eq!(ds.len(), 2);
    assert_eq!(ds[0].kind, DiagnosticKind::ReservedParameterName);
    assert_eq!(ds[1].kind, DiagnosticKind::InvalidParameterIdentifier);
    // each span covers exactly the offending segment: /<_>/<a-b>
    assert_eq!((ds[0].span.start, ds[0].span.end), (1, 4));
    assert_eq!((ds[1].span.start, ds[1].span.end), (5, 10));
}

#[test]
fn segment_error_and_empty_segment_both_surface() {
    // a parameter problem does not silence the normal-form check
    let ds = parse_template("/a//<_>").unwrap_err();
    assert_eq!(ds.len(), 2);
    assert_eq!(ds[0].kind, DiagnosticKind::ReservedParameterName);
    assert_eq!(ds[1].kind, DiagnosticKind::EmptySegment);
    assert_eq!(ds[1].note.as_deref(), Some("expected '/a/<_>', found '/a//<_>'"));
}

#[test]
fn standalone_validation() {
    assert_eq!(validate_segment("files"), None);
    assert_eq!(validate_segment("<id>"), None);
    assert_eq!(validate_segment("<id..>"), None);
    assert_eq!(
        validate_segment("<_>"),
        Some(DiagnosticKind::ReservedParameterName)
    );
    assert_eq!(
        validate_segment("a b"),
        Some(DiagnosticKind::InvalidPathCharacters)
    );
    assert_eq!(validate_query_clause("<q1>"), None);
    assert_eq!(
        validate_query_clause("plain"),
        Some(DiagnosticKind::MalformedParameter)
    );
}

#[test]
fn query_parameter_forms() {
    let t = parse_template("/hello?<person>").unwrap();
    let q = t.query.unwrap();
    assert_eq!(q.name.as_str(), "person");
    assert!(!q.trailing);

    let t = parse_template("/x?<rest..>").unwrap();
    let q = t.query.unwrap();
    assert_eq!(q.name.as_str(), "rest");
    assert!(q.trailing);

    let ds = parse_template("/x?person").unwrap_err();
    assert_eq!(ds[0].kind, DiagnosticKind::MalformedParameter);

    let ds = parse_template("/x?<_>").unwrap_err();
    assert_eq!(ds[0].kind, DiagnosticKind::ReservedParameterName);
}
