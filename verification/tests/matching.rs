use uri_routing::ident::ident_continue;
use uri_routing::ident::ident_start;
use uri_routing::ident::is_valid_ident;
use uri_routing::matcher::match_template;
use uri_routing::media::negotiate;
use uri_routing::media::parse_accept;
use uri_routing::media::parse_media_type;
use uri_routing::media::parse_q;
use uri_routing::media::score_beats;
use uri_routing::media::MediaError;
use uri_routing::pct::percent_encode;
use uri_routing::pct::segment_is_encoded;
use uri_routing::rank::rank_le;
use uri_routing::rank::resolve;
use uri_routing::template::parse_template;
use uri_routing::uri::parse;

#[test]
fn uri_parse_and_round_trip() {
    let u = parse("/a/b?x=1").unwrap();
    assert_eq!(u.segments().len(), 2);
    assert_eq!(u.segments()[0].as_str(), "a");
    assert_eq!(u.segments()[1].as_str(), "b");
    assert_eq!(u.query.as_deref(), Some("x=1"));
    assert!(u.is_normalized());

    // the round trip: parsing the string form yields the URI back
    let s = u.to_string();
    assert_eq!(s.as_str(), "/a/b?x=1");
    let v = parse(s.as_str()).unwrap();
    assert_eq!(v.path, u.path);
    assert_eq!(v.segments(), u.segments());
    assert_eq!(v.query, u.query);
}

#[test]
fn root_round_trip() {
    let u = parse("/").unwrap();
    assert_eq!(u.segments().len(), 0);
    assert!(u.is_normalized());
    let v = parse(u.to_string().as_str()).unwrap();
    assert_eq!(v.segments().len(), 0);
    assert_eq!(v.query, None);
}

#[test]
fn uri_normalization() {
    let u = parse("/a//b/").unwrap();
    assert_eq!(u.segments().len(), 2);
    assert!(!u.is_normalized());
    let n = u.to_normalized();
    assert_eq!(n.path.as_str(), "/a/b");
    assert!(n.is_normalized());
}

#[test]
fn uri_rejects_bad_characters() {
    assert!(parse("no-slash").is_err());
    assert!(parse("/has space").is_err());
    assert!(parse("/ctl\u{7}").is_err());
}

#[test]
fn matcher_binds_query() {
    let t = parse_template("/hello?<person>").unwrap();
    let u = parse("/hello?name=Bob&age=30").unwrap();
    let b = match_template(&t, &u).unwrap();
    assert_eq!(b.get("person").unwrap().as_str(), "name=Bob&age=30");

    let v = parse("/hello/there").unwrap();
    assert!(match_template(&t, &v).is_none());

    // a missing query binds the empty string
    let w = parse("/hello").unwrap();
    let b = match_template(&t, &w).unwrap();
    assert_eq!(b.get("person").unwrap().as_str(), "");
}

#[test]
fn matcher_dynamic_segment() {
    let t = parse_template("/<todo>").unwrap();
    let b = match_template(&t, &parse("/abc").unwrap()).unwrap();
    assert_eq!(b.get("todo").unwrap().as_str(), "abc");
    assert!(match_template(&t, &parse("/").unwrap()).is_none());
    assert!(match_template(&t, &parse("/a/b").unwrap()).is_none());
}

#[test]
fn matcher_trailing_wildcard() {
    let t = parse_template("/files/<path..>").unwrap();
    let b = match_template(&t, &parse("/files").unwrap()).unwrap();
    assert_eq!(b.get("path").unwrap().as_str(), "");
    let b = match_template(&t, &parse("/files/a/b/c").unwrap()).unwrap();
    assert_eq!(b.get("path").unwrap().as_str(), "a/b/c");
    assert!(match_template(&t, &parse("/other/a").unwrap()).is_none());
}

#[test]
fn matcher_compares_static_segments_decoded() {
    // %2F and %2f name the same byte: the raw texts differ, the decoded
    // bytes agree
    let t = parse_template("/a%2Fb").unwrap();
    assert!(match_template(&t, &parse("/a%2fb").unwrap()).is_some());
    assert!(match_template(&t, &parse("/a%2Eb").unwrap()).is_none());
    // extra query text never rejects a match
    assert!(match_template(&t, &parse("/a%2Fb?x=1").unwrap()).is_some());
}

#[test]
fn resolver_orders_static_before_dynamic() {
    let templates = vec![
        parse_template("/<a>").unwrap(),
        parse_template("/fixed").unwrap(),
    ];
    let u = parse("/fixed").unwrap();
    let order = resolve(&templates, &u);
    assert_eq!(order.len(), 2);
    assert_eq!(order[0].index, 1);
    assert_eq!(order[1].index, 0);
    assert_eq!(order[1].bindings.get("a").unwrap().as_str(), "fixed");
}

#[test]
fn resolver_explicit_rank_wins() {
    let mut favored = parse_template("/<a>").unwrap();
    favored.rank = Some(-100);
    let templates = vec![favored, parse_template("/fixed").unwrap()];
    let u = parse("/fixed").unwrap();
    let order = resolve(&templates, &u);
    assert_eq!(order[0].index, 0);
    assert_eq!(order[1].index, 1);
}

#[test]
fn resolver_declaration_order_breaks_ties() {
    let templates = vec![
        parse_template("/<a>").unwrap(),
        parse_template("/<b>").unwrap(),
    ];
    let u = parse("/x").unwrap();
    let order = resolve(&templates, &u);
    assert_eq!(order[0].index, 0);
    assert_eq!(order[1].index, 1);
}

#[test]
fn wildcard_ranks_after_plain_routes() {
    let plain = parse_template("/a/<x>").unwrap();
    let wild = parse_template("/a/<x..>").unwrap();
    assert!(rank_le(&plain, &wild));
    assert!(!rank_le(&wild, &plain));
}

#[test]
fn negotiation_scores_the_header() {
    let json = parse_media_type("application/json").unwrap();
    let accept = parse_accept("text/html, application/json;q=0.8, */*;q=0.1");
    assert_eq!(accept.len(), 3);
    assert_eq!(accept[0].q_millis, 1000);

    // the JSON route matches its exact entry at q=0.8
    let score = negotiate(&json, &accept).unwrap();
    assert_eq!(score, (2, 800));

    // a route only reachable through */* scores below it
    let xml = parse_media_type("application/xml").unwrap();
    let other = negotiate(&xml, &accept).unwrap();
    assert_eq!(other, (0, 100));
    assert!(score.1 > other.1);

    // a route the header never covers is excluded
    let gif = parse_media_type("image/gif").unwrap();
    let image_accept = parse_accept("text/html;q=0.5");
    assert!(negotiate(&gif, &image_accept).is_none());
}

#[test]
fn negotiation_subtype_wildcard() {
    let json = parse_media_type("application/json").unwrap();
    let accept = parse_accept("application/*;q=0.3");
    assert_eq!(negotiate(&json, &accept).unwrap(), (1, 300));
    // type and subtype compare ignoring case
    let accept = parse_accept("Application/JSON");
    assert_eq!(negotiate(&json, &accept).unwrap(), (2, 1000));
}

#[test]
fn score_tie_breaking() {
    // covered beats uncovered; higher quality beats lower; specificity
    // breaks quality ties
    assert!(score_beats(Some((2, 800)), Some((0, 100))));
    assert!(score_beats(Some((0, 900)), Some((2, 800))));
    assert!(score_beats(Some((2, 800)), Some((1, 800))));
    assert!(score_beats(Some((0, 100)), None));
    assert!(!score_beats(None, Some((0, 0))));
    assert!(!score_beats(Some((2, 800)), Some((2, 800))));
}

#[test]
fn quality_values() {
    assert_eq!(parse_q("1"), Ok(1000));
    assert_eq!(parse_q("0"), Ok(0));
    assert_eq!(parse_q("0.8"), Ok(800));
    assert_eq!(parse_q("0.85"), Ok(850));
    assert_eq!(parse_q("0.851"), Ok(851));
    assert_eq!(parse_q("1.0"), Ok(1000));
    assert_eq!(parse_q("1.1"), Err(MediaError::InvalidQuality));
    assert_eq!(parse_q("0.8512"), Err(MediaError::InvalidQuality));
    assert_eq!(parse_q("abc"), Err(MediaError::InvalidQuality));
    assert_eq!(parse_q(""), Err(MediaError::InvalidQuality));
}

#[test]
fn malformed_quality_drops_the_entry_alone() {
    let accept = parse_accept("text/html;q=9.9, */*");
    assert_eq!(accept.len(), 1);
    assert_eq!(accept[0].media.top.as_str(), "*");
    assert_eq!(accept[0].q_millis, 1000);
}

#[test]
fn percent_encoding_of_segments() {
    assert_eq!(percent_encode("a b").as_str(), "a%20b");
    assert_eq!(percent_encode("hello").as_str(), "hello");
    // encoding an already-encoded segment yields itself
    assert_eq!(percent_encode("a%20b").as_str(), "a%20b");
    assert!(segment_is_encoded("a%20b"));
    assert!(!segment_is_encoded("a b"));
    assert!(!segment_is_encoded("a<b"));
}

#[test]
fn identifier_rules() {
    assert!(is_valid_ident("todo"));
    assert!(is_valid_ident("_guard"));
    assert!(is_valid_ident("_"));
    assert!(is_valid_ident("a9"));
    assert!(!is_valid_ident(""));
    assert!(!is_valid_ident("9a"));
    assert!(!is_valid_ident("a-b"));
    // non-ASCII identifier characters come from the Unicode tables
    assert!(is_valid_ident("caf\u{e9}"));
    assert!(!ident_start('\u{e9}') || ident_continue('\u{e9}'));
    assert!(ident_start('\u{e9}'));
    assert!(!ident_start('\u{2603}'));
}
