use hyperx::{
    CacheControl, CacheDirective, Connection, Header, ParseError, Raw, Referer, Response,
    StrictTransportSecurity,
};

fn round_trip<H: Header + PartialEq + std::fmt::Debug>(h: H) {
    let line = h.format();
    assert_eq!(H::parse(&Raw::from_line(&line)), Ok(h));
}

#[test]
fn typed_headers_round_trip() {
    round_trip(CacheControl(vec![CacheDirective::Public, CacheDirective::MaxAge(30)]));
    round_trip(Connection::close());
    round_trip(StrictTransportSecurity::including_subdomains(10));
    round_trip(Referer("http://www.example.org/hypertext/Overview.html".to_owned()));
}

#[test]
fn wire_names() {
    assert_eq!(<CacheControl as Header>::name(), "Cache-Control");
    assert_eq!(<Connection as Header>::name(), "Connection");
    assert_eq!(<StrictTransportSecurity as Header>::name(), "Strict-Transport-Security");
    assert_eq!(<Referer as Header>::name(), "Referer");
}

#[test]
fn referer_single_line() {
    assert_eq!(
        Referer::parse_header(&Raw::from_line(" /People.html#tim ")),
        Ok(Referer("/People.html#tim".to_owned()))
    );
    assert_eq!(Referer::parse_header(&Raw::from_line("  ")), Err(ParseError::MissingValue));
    assert_eq!(
        Referer::parse_header(&Raw::new(vec!["/a".to_owned(), "/b".to_owned()])),
        Err(ParseError::WrongLineCount)
    );
    assert_eq!(Referer("/x".to_owned()).fmt_header(), "/x");
}

#[test]
fn typed_set_on_response() {
    let mut res = Response::new();
    res.set(&Connection::keep_alive()).unwrap();
    res.set(&StrictTransportSecurity::excluding_subdomains(60)).unwrap();
    res.set(&Connection::close()).unwrap();
    assert_eq!(
        res.write_head(),
        "HTTP/1.1 200 OK\r\nConnection: close\r\nStrict-Transport-Security: max-age=60\r\n\r\n"
    );
}

#[test]
fn raw_lines_and_join() {
    let r = Raw::new(vec!["a".to_owned(), "b".to_owned(), "c".to_owned()]);
    assert_eq!(r.len(), 3);
    assert_eq!(r.joined(), "a, b, c");
    assert_eq!(r.one(), Err(ParseError::WrongLineCount));
    assert_eq!(Raw::from_line("x").one(), Ok("x"));
}
