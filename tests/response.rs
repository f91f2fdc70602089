use hyperx::{CacheControl, CacheDirective, HttpVersion, Response, WriteError, WriteState};

#[test]
fn head_is_written_once() {
    let mut res = Response::new();
    let cc = CacheControl(vec![CacheDirective::NoCache]);
    res.set_header(CacheControl::header_name(), &cc.fmt_header()).unwrap();
    res.set_header("content-length", "5").unwrap();
    res.set_header("Content-Length", "0").unwrap();
    assert_eq!(res.header_count(), 2);
    let head = res.write_head();
    assert_eq!(
        head,
        "HTTP/1.1 200 OK\r\nCache-Control: no-cache\r\nContent-Length: 0\r\n\r\n"
    );
    assert_eq!(res.state(), WriteState::HeadersWritten);
    assert_eq!(res.write_head(), "");
    assert_eq!(res.write(), Ok(String::new()));
}

#[test]
fn body_write_forces_head() {
    let mut res = Response::new();
    res.set_status(404, "Not Found").unwrap();
    res.set_version(HttpVersion::Http10).unwrap();
    assert_eq!(res.write(), Ok("HTTP/1.0 404 Not Found\r\n\r\n".to_owned()));
    assert_eq!(res.flush(), Ok(String::new()));
    assert_eq!(res.status(), 404);
    assert_eq!(res.version(), HttpVersion::Http10);
}

#[test]
fn closed_response_refuses_writes() {
    let mut res = Response::new();
    assert_eq!(res.end(), Ok("HTTP/1.1 200 OK\r\n\r\n".to_owned()));
    assert_eq!(res.state(), WriteState::Closed);
    assert_eq!(res.write(), Err(WriteError::InvalidStateTransition));
    assert_eq!(res.flush(), Err(WriteError::InvalidStateTransition));
    assert_eq!(res.end(), Err(WriteError::InvalidStateTransition));
    assert_eq!(res.write_head(), "");
}

#[test]
fn headers_are_frozen_after_head() {
    let mut res = Response::new();
    res.write_head();
    assert_eq!(res.set_header("X", "y"), Err(WriteError::InvalidStateTransition));
    assert_eq!(res.set_status(500, "Oops"), Err(WriteError::InvalidStateTransition));
    assert_eq!(res.header_count(), 0);
    assert_eq!(res.status(), 200);
}
