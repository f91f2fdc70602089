use hyperx::{Connection, ConnectionOption, ParseError, Raw};

fn parse_option(header: &str) -> Connection {
    let val = Raw::from_line(header);
    Connection::parse_header(&val).unwrap()
}

#[test]
fn test_parse() {
    assert_eq!(Connection::close(), parse_option("close"));
    assert_eq!(Connection::keep_alive(), parse_option("keep-alive"));
    assert_eq!(Connection::keep_alive(), parse_option("Keep-Alive"));
    assert_eq!(
        Connection(vec![ConnectionOption::ConnectionHeader("upgrade".to_owned())]),
        parse_option("upgrade")
    );
}

#[test]
fn keep_alive_in_any_case() {
    for s in ["Keep-Alive", "keep-alive", "KEEP-ALIVE"] {
        assert_eq!(parse_option(s), Connection::keep_alive());
    }
    assert_eq!(parse_option("CLOSE"), Connection::close());
}

#[test]
fn connection_list_and_format() {
    let c = parse_option("close , Upgrade");
    assert_eq!(
        c,
        Connection(vec![
            ConnectionOption::Close,
            ConnectionOption::ConnectionHeader("Upgrade".to_owned()),
        ])
    );
    assert_eq!(c.fmt_header(), "close, Upgrade");
    assert_eq!(Connection::keep_alive().fmt_header(), "keep-alive");
    assert_eq!(Connection::header_name(), "Connection");
}

#[test]
fn connection_errors() {
    assert_eq!(Connection::parse_header(&Raw::from_line(" ")), Err(ParseError::MissingValue));
    assert_eq!(
        Connection::parse_header(&Raw::from_line("close,")),
        Err(ParseError::MalformedDirective)
    );
}

#[test]
fn header_names_compare_without_case() {
    assert_eq!(
        ConnectionOption::ConnectionHeader("Upgrade".to_owned()),
        ConnectionOption::ConnectionHeader("upgrade".to_owned())
    );
    assert_ne!(
        ConnectionOption::ConnectionHeader("upgrade".to_owned()),
        ConnectionOption::ConnectionHeader("upgrades".to_owned())
    );
    assert_ne!(ConnectionOption::Close, ConnectionOption::KeepAlive);
    assert_eq!(parse_option("UPGRADE"), parse_option("upgrade"));
}

#[test]
fn blank_connection_lines_join() {
    let r = Raw::new(vec![String::new(), String::new()]);
    assert_eq!(Connection::parse_header(&r), Err(ParseError::MalformedDirective));
}
