use hyperx::{ParseError, Raw, StrictTransportSecurity};

#[test]
fn test_parse_max_age() {
    let r = Raw::from_line("max-age=31536000");
    let h = StrictTransportSecurity::parse_header(&r);
    assert_eq!(
        h.ok(),
        Some(StrictTransportSecurity { include_subdomains: false, max_age: 31536000u64 })
    );
}

#[test]
fn test_parse_max_age_no_value() {
    let r = Raw::from_line("max-age");
    let h = StrictTransportSecurity::parse_header(&r);
    assert!(h.is_err());
}

#[test]
fn test_parse_quoted_max_age() {
    let r = Raw::from_line("max-age=\"31536000\"");
    let h = StrictTransportSecurity::parse_header(&r);
    assert_eq!(
        h.ok(),
        Some(StrictTransportSecurity { include_subdomains: false, max_age: 31536000u64 })
    );
}

#[test]
fn test_parse_spaces_max_age() {
    let r = Raw::from_line("max-age = 31536000");
    let h = StrictTransportSecurity::parse_header(&r);
    assert_eq!(
        h.ok(),
        Some(StrictTransportSecurity { include_subdomains: false, max_age: 31536000u64 })
    );
}

#[test]
fn test_parse_include_subdomains() {
    let r = Raw::from_line("max-age=15768000 ; includeSubDomains");
    let h = StrictTransportSecurity::parse_header(&r);
    assert_eq!(
        h.ok(),
        Some(StrictTransportSecurity { include_subdomains: true, max_age: 15768000u64 })
    );
}

#[test]
fn test_parse_no_max_age() {
    let r = Raw::from_line("includeSubDomains");
    let h = StrictTransportSecurity::parse_header(&r);
    assert!(h.is_err());
}

#[test]
fn test_parse_max_age_nan() {
    let r = Raw::from_line("max-age = derp");
    let h = StrictTransportSecurity::parse_header(&r);
    assert!(h.is_err());
}

#[test]
fn test_parse_duplicate_directives() {
    let r = Raw::from_line("max-age=100; max-age=5; max-age=0");
    assert!(StrictTransportSecurity::parse_header(&r).is_err());
}

#[test]
fn duplicate_max_age_conflicts() {
    let r = Raw::from_line("max-age=100; max-age=5");
    assert_eq!(StrictTransportSecurity::parse_header(&r), Err(ParseError::ConflictingDirective));
    let r = Raw::from_line("max-age=1; includeSubdomains; INCLUDESUBDOMAINS");
    assert_eq!(StrictTransportSecurity::parse_header(&r), Err(ParseError::ConflictingDirective));
}

#[test]
fn unknown_directives_are_ignored() {
    let r = Raw::from_line("preload; max-age=7; foo=bar");
    assert_eq!(
        StrictTransportSecurity::parse_header(&r),
        Ok(StrictTransportSecurity::excluding_subdomains(7))
    );
}

#[test]
fn hsts_error_kinds() {
    assert_eq!(
        StrictTransportSecurity::parse_header(&Raw::from_line("")),
        Err(ParseError::MissingValue)
    );
    assert_eq!(
        StrictTransportSecurity::parse_header(&Raw::new(vec![])),
        Err(ParseError::WrongLineCount)
    );
    assert_eq!(
        StrictTransportSecurity::parse_header(&Raw::new(vec![
            "max-age=1".to_owned(),
            "max-age=2".to_owned(),
        ])),
        Err(ParseError::WrongLineCount)
    );
    assert_eq!(
        StrictTransportSecurity::parse_header(&Raw::from_line("max-age=derp")),
        Err(ParseError::MalformedDirective)
    );
    assert_eq!(
        StrictTransportSecurity::parse_header(&Raw::from_line("includeSubDomains")),
        Err(ParseError::MalformedDirective)
    );
}

#[test]
fn hsts_format_and_round_trip() {
    let a = StrictTransportSecurity::including_subdomains(31536000);
    assert_eq!(a.fmt_header(), "max-age=31536000; includeSubdomains");
    let b = StrictTransportSecurity::excluding_subdomains(0);
    assert_eq!(b.fmt_header(), "max-age=0");
    let c = StrictTransportSecurity::excluding_subdomains(u64::MAX);
    for v in [a, b, c] {
        assert_eq!(StrictTransportSecurity::from_str(&v.fmt_header()), Ok(v));
    }
    assert_eq!(StrictTransportSecurity::header_name(), "Strict-Transport-Security");
}

#[test]
fn signed_max_age_is_read_as_std_reads_it() {
    assert_eq!(
        StrictTransportSecurity::parse_header(&Raw::from_line("max-age=+5")),
        Ok(StrictTransportSecurity::excluding_subdomains(5))
    );
}
