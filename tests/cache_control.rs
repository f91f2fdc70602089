use hyperx::{CacheControl, CacheDirective, ParseError, Raw};

fn raw(lines: &[&str]) -> Raw {
    Raw::new(lines.iter().map(|l| l.to_string()).collect())
}

#[test]
fn test_parse_multiple_headers() {
    let r = raw(&["no-cache", "private"]);
    let cache = CacheControl::parse_header(&r);
    assert_eq!(
        cache.ok(),
        Some(CacheControl(vec![CacheDirective::NoCache, CacheDirective::Private]))
    )
}

#[test]
fn test_parse_argument() {
    let r = raw(&["max-age=100, private"]);
    let cache = CacheControl::parse_header(&r);
    assert_eq!(
        cache.ok(),
        Some(CacheControl(vec![CacheDirective::MaxAge(100), CacheDirective::Private]))
    )
}

#[test]
fn test_parse_quote_form() {
    let r = raw(&["max-age=\"200\""]);
    let cache = CacheControl::parse_header(&r);
    assert_eq!(cache.ok(), Some(CacheControl(vec![CacheDirective::MaxAge(200)])))
}

#[test]
fn test_parse_extension() {
    let r = raw(&["foo, bar=baz"]);
    let cache = CacheControl::parse_header(&r);
    assert_eq!(
        cache.ok(),
        Some(CacheControl(vec![
            CacheDirective::Extension("foo".to_owned(), None),
            CacheDirective::Extension("bar".to_owned(), Some("baz".to_owned())),
        ]))
    )
}

#[test]
fn test_parse_bad_syntax() {
    let r = raw(&["foo="]);
    let cache = CacheControl::parse_header(&r);
    assert_eq!(cache.ok(), None)
}

#[test]
fn bad_syntax_is_malformed_directive() {
    assert_eq!(
        CacheControl::parse_header(&raw(&["foo="])),
        Err(ParseError::MalformedDirective)
    );
}

#[test]
fn empty_value_is_missing() {
    assert_eq!(CacheControl::parse_header(&raw(&[""])), Err(ParseError::MissingValue));
    assert_eq!(CacheControl::parse_header(&raw(&[])), Err(ParseError::MissingValue));
}

#[test]
fn blank_lines_read_as_their_joined_value() {
    assert_eq!(
        CacheControl::parse_header(&raw(&["", ""])),
        Err(ParseError::MalformedDirective)
    );
    assert_eq!(
        CacheControl::parse_header(&raw(&["", ""])),
        CacheControl::parse_header(&raw(&[", "]))
    );
    assert_eq!(
        CacheControl::parse_header(&raw(&["  ", "\t"])),
        Err(ParseError::MalformedDirective)
    );
}

#[test]
fn quoted_empty_extension_argument_is_kept() {
    assert_eq!(
        CacheControl::parse_header(&raw(&["foo=\"\""])),
        Ok(CacheControl(vec![CacheDirective::Extension("foo".to_owned(), Some(String::new()))]))
    );
    assert_eq!(
        CacheControl::parse_header(&raw(&["max-age=\"\""])),
        Err(ParseError::MalformedDirective)
    );
}

#[test]
fn extension_argument_with_equals_round_trips() {
    let c = CacheControl(vec![CacheDirective::Extension("a".to_owned(), Some("b=c".to_owned()))]);
    assert_eq!(c.fmt_header(), "a=b=c");
    assert_eq!(CacheControl::parse_header(&raw(&[&c.fmt_header()])), Ok(c));
}

#[test]
fn empty_segment_is_malformed() {
    assert_eq!(
        CacheControl::parse_header(&raw(&["no-cache,,private"])),
        Err(ParseError::MalformedDirective)
    );
    assert_eq!(
        CacheControl::parse_header(&raw(&["no-cache,"])),
        Err(ParseError::MalformedDirective)
    );
    assert_eq!(
        CacheControl::parse_header(&raw(&["no-cache", ""])),
        Err(ParseError::MalformedDirective)
    );
}

#[test]
fn bad_number_is_malformed() {
    assert_eq!(
        CacheControl::parse_header(&raw(&["max-age=abc"])),
        Err(ParseError::MalformedDirective)
    );
    assert_eq!(
        CacheControl::parse_header(&raw(&["s-maxage=4294967296"])),
        Err(ParseError::MalformedDirective)
    );
    assert_eq!(
        CacheControl::parse_header(&raw(&["min-fresh=4294967295"])),
        Ok(CacheControl(vec![CacheDirective::MinFresh(4294967295)]))
    );
}

#[test]
fn multi_line_equals_joined_line() {
    let two = CacheControl::parse_header(&raw(&["no-cache", "private"]));
    let one = CacheControl::parse_header(&raw(&["no-cache, private"]));
    assert_eq!(two, one);
}

#[test]
fn quoted_max_age_formats_without_quotes() {
    let c = CacheControl::parse_header(&raw(&["max-age=\"200\""])).unwrap();
    assert_eq!(c.fmt_header(), "max-age=200");
}

#[test]
fn format_joins_with_comma_space() {
    let c = CacheControl(vec![
        CacheDirective::NoCache,
        CacheDirective::Private,
        CacheDirective::MaxAge(360),
        CacheDirective::MaxStale(7),
        CacheDirective::SMaxAge(0),
        CacheDirective::Extension("foo".to_owned(), Some("bar".to_owned())),
        CacheDirective::Extension("baz".to_owned(), None),
    ]);
    assert_eq!(
        c.fmt_header(),
        "no-cache, private, max-age=360, max-stale=7, s-maxage=0, foo=bar, baz"
    );
    assert_eq!(CacheControl::parse_header(&raw(&[&c.fmt_header()])), Ok(c));
}

#[test]
fn every_flag_round_trips() {
    let flags = vec![
        CacheDirective::NoCache,
        CacheDirective::NoStore,
        CacheDirective::NoTransform,
        CacheDirective::OnlyIfCached,
        CacheDirective::MustRevalidate,
        CacheDirective::Public,
        CacheDirective::Private,
        CacheDirective::ProxyRevalidate,
    ];
    for d in flags {
        assert_eq!(CacheDirective::from_str(&d.to_string()), Ok(d));
    }
}

#[test]
fn directive_keyword_is_case_sensitive() {
    assert_eq!(
        CacheDirective::from_str("No-Cache"),
        Ok(CacheDirective::Extension("No-Cache".to_owned(), None))
    );
}

#[test]
fn extension_value_keeps_later_equals() {
    assert_eq!(
        CacheDirective::from_str("a=b=c"),
        Ok(CacheDirective::Extension("a".to_owned(), Some("b=c".to_owned())))
    );
}

#[test]
fn header_name_is_cache_control() {
    assert_eq!(CacheControl::header_name(), "Cache-Control");
}
