//! The outgoing side of a connection: the status line and header block are
//! written once, before any body bytes, and the write direction is closed at
//! the end. Methods decide what must go on the wire and return it as text;
//! the caller owns the byte sink.
use vstd::prelude::*;
use vstd::string::*;
use crate::error::WriteError;
use crate::header::Header;
use crate::text::{decimal_str, eq_ignore_ascii_case, str_eq_ignore_ascii_case, fmt_decimal};

verus! {

/// The HTTP version written in the status line.
#[derive(Clone, Copy, PartialEq, Eq, Debug, Structural)]
pub enum HttpVersion {
    Http09,
    Http10,
    Http11,
    Http20,
}

pub open spec fn version_text(v: HttpVersion) -> Seq<char> {
    match v {
        HttpVersion::Http09 => "HTTP/0.9"@,
        HttpVersion::Http10 => "HTTP/1.0"@,
        HttpVersion::Http11 => "HTTP/1.1"@,
        HttpVersion::Http20 => "HTTP/2.0"@,
    }
}

impl HttpVersion {
    /// The version as written on the wire.
    pub fn as_str(&self) -> (r: &'static str)
        ensures
            r@ == version_text(*self),
    {
        match self {
            HttpVersion::Http09 => "HTTP/0.9",
            HttpVersion::Http10 => "HTTP/1.0",
            HttpVersion::Http11 => "HTTP/1.1",
            HttpVersion::Http20 => "HTTP/2.0",
        }
    }
}

/// Where a response is in its life: nothing sent, head sent, or closed.
#[derive(Clone, Copy, PartialEq, Eq, Debug, Structural)]
pub enum WriteState {
    Unwritten,
    HeadersWritten,
    Closed,
}

pub type HeaderLines = Seq<(Seq<char>, Seq<char>)>;

pub open spec fn crlf() -> Seq<char> {
    seq!['\r', '\n']
}

/// Index of the first header whose name equals `name` up to ASCII case.
pub open spec fn find_name(hs: HeaderLines, name: Seq<char>) -> Option<int>
    decreases hs.len(),
{
    if hs.len() == 0 {
        None
    } else if eq_ignore_ascii_case(hs[0].0, name) {
        Some(0)
    } else {
        match find_name(hs.drop_first(), name) {
            Some(i) => Some(i + 1),
            None => None,
        }
    }
}

/// `hs` with `name` set to `value`: the first header of that name (in any
/// ASCII case) is replaced in place, or the header is added at the end.
pub open spec fn with_header(hs: HeaderLines, name: Seq<char>, value: Seq<char>) -> HeaderLines {
    match find_name(hs, name) {
        Some(i) => hs.update(i, (name, value)),
        None => hs.push((name, value)),
    }
}

/// `<name>: <value>` CRLF for each header, in order.
pub open spec fn header_block(hs: HeaderLines) -> Seq<char>
    decreases hs.len(),
{
    if hs.len() == 0 {
        Seq::empty()
    } else {
        header_block(hs.drop_last()) + hs.last().0 + seq![':', ' '] + hs.last().1 + crlf()
    }
}

/// `<version> <code> <reason>` CRLF.
pub open spec fn status_line(version: HttpVersion, status: u16, reason: Seq<char>) -> Seq<char> {
    version_text(version) + seq![' '] + decimal_str(status as nat) + seq![' '] + reason + crlf()
}

/// The whole head: status line, header lines, and the blank line after them.
pub open spec fn head_text(version: HttpVersion, status: u16, reason: Seq<char>, hs: HeaderLines) -> Seq<char> {
    status_line(version, status, reason) + header_block(hs) + crlf()
}

/// What a `Response` holds.
pub struct ResponseModel {
    pub status: u16,
    pub reason: Seq<char>,
    pub version: HttpVersion,
    pub headers: HeaderLines,
    pub state: WriteState,
}

/// What the head-writing step sends: the head while nothing has been
/// written, nothing afterwards.
pub open spec fn head_output(m: ResponseModel) -> Seq<char> {
    if m.state == WriteState::Unwritten {
        head_text(m.version, m.status, m.reason, m.headers)
    } else {
        Seq::empty()
    }
}

/// The response after the head-writing step.
pub open spec fn after_head(m: ResponseModel) -> ResponseModel {
    if m.state == WriteState::Unwritten {
        ResponseModel { state: WriteState::HeadersWritten, ..m }
    } else {
        m
    }
}

/// What must precede body bytes (or a flush, or the end): the head if it
/// is still due; an error once the response is closed.
pub open spec fn body_output(m: ResponseModel) -> Result<Seq<char>, WriteError> {
    if m.state == WriteState::Closed {
        Err(WriteError::InvalidStateTransition)
    } else {
        Ok(head_output(m))
    }
}

/// The response after it has ended.
pub open spec fn after_end(m: ResponseModel) -> ResponseModel {
    ResponseModel { state: WriteState::Closed, ..m }
}

pub open spec fn text_result(r: Result<String, WriteError>) -> Result<Seq<char>, WriteError> {
    match r {
        Ok(s) => Ok(s@),
        Err(e) => Err(e),
    }
}

/// A response being written on one connection.
pub struct Response {
    status: u16,
    reason: String,
    version: HttpVersion,
    headers: Vec<(String, String)>,
    state: WriteState,
}

pub open spec fn pair_views(v: Seq<(String, String)>) -> HeaderLines {
    v.map_values(|p: (String, String)| (p.0@, p.1@))
}

impl View for Response {
    type V = ResponseModel;

    closed spec fn view(&self) -> ResponseModel {
        ResponseModel {
            status: self.status,
            reason: self.reason@,
            version: self.version,
            headers: pair_views(self.headers@),
            state: self.state,
        }
    }
}

/// Where no header before `i` has the name, `find_name` stops at `i` or
/// finds none.
pub proof fn lemma_find_name_at(hs: HeaderLines, name: Seq<char>, i: int)
    requires
        0 <= i <= hs.len(),
        forall|k: int| 0 <= k < i ==> !eq_ignore_ascii_case(#[trigger] hs[k].0, name),
        i < hs.len() ==> eq_ignore_ascii_case(hs[i].0, name),
    ensures
        i < hs.len() ==> find_name(hs, name) == Some(i),
        i == hs.len() ==> find_name(hs, name) is None,
    decreases i,
{
    if i > 0 {
        assert forall|k: int| 0 <= k < i - 1 implies !eq_ignore_ascii_case(
            #[trigger] hs.drop_first()[k].0,
            name,
        ) by {
            assert(hs.drop_first()[k] == hs[k + 1]);
        }
        lemma_find_name_at(hs.drop_first(), name, i - 1);
    }
}

impl Response {
    /// A `200 OK` HTTP/1.1 response with no headers and nothing written.
    pub fn new() -> (r: Response)
        ensures
            r@.status == 200,
            r@.reason == "OK"@,
            r@.version == HttpVersion::Http11,
            r@.headers.len() == 0,
            r@.state == WriteState::Unwritten,
    {
        let r = Response {
            status: 200,
            reason: String::from_str("OK"),
            version: HttpVersion::Http11,
            headers: Vec::new(),
            state: WriteState::Unwritten,
        };
        assert(r@.headers =~= Seq::<(Seq<char>, Seq<char>)>::empty());
        r
    }

    /// Where the response is in its life.
    pub fn state(&self) -> (r: WriteState)
        ensures
            r == self@.state,
    {
        self.state
    }

    /// The status code.
    pub fn status(&self) -> (r: u16)
        ensures
            r == self@.status,
    {
        self.status
    }

    /// The HTTP version.
    pub fn version(&self) -> (r: HttpVersion)
        ensures
            r == self@.version,
    {
        self.version
    }

    /// Sets the status code and reason phrase. Only allowed before the head
    /// is written.
    pub fn set_status(&mut self, status: u16, reason: &str) -> (r: Result<(), WriteError>)
        ensures
            old(self)@.state == WriteState::Unwritten ==> r is Ok && final(self)@.status == status
                && final(self)@.reason == reason@,
            old(self)@.state != WriteState::Unwritten ==> r == Err::<(), WriteError>(
                WriteError::InvalidStateTransition,
            ) && final(self)@ == old(self)@,
            final(self)@.headers == old(self)@.headers,
            final(self)@.version == old(self)@.version,
            final(self)@.state == old(self)@.state,
    {
        if self.state != WriteState::Unwritten {
            return Err(WriteError::InvalidStateTransition);
        }
        self.status = status;
        self.reason = String::from_str(reason);
        Ok(())
    }

    /// Sets the HTTP version. Only allowed before the head is written.
    pub fn set_version(&mut self, version: HttpVersion) -> (r: Result<(), WriteError>)
        ensures
            old(self)@.state == WriteState::Unwritten ==> r is Ok && final(self)@.version == version,
            old(self)@.state != WriteState::Unwritten ==> r == Err::<(), WriteError>(
                WriteError::InvalidStateTransition,
            ) && final(self)@ == old(self)@,
            final(self)@.status == old(self)@.status,
            final(self)@.reason == old(self)@.reason,
            final(self)@.headers == old(self)@.headers,
            final(self)@.state == old(self)@.state,
    {
        if self.state != WriteState::Unwritten {
            return Err(WriteError::InvalidStateTransition);
        }
        self.version = version;
        Ok(())
    }

    /// Number of headers set.
    pub fn header_count(&self) -> (r: usize)
        ensures
            r == self@.headers.len(),
    {
        self.headers.len()
    }

    /// Sets a header, replacing one of the same name in any ASCII case.
    /// Only allowed before the head is written.
    pub fn set_header(&mut self, name: &str, value: &str) -> (r: Result<(), WriteError>)
        ensures
            old(self)@.state == WriteState::Unwritten ==> r is Ok && final(self)@.headers
                == with_header(old(self)@.headers, name@, value@),
            old(self)@.state != WriteState::Unwritten ==> r == Err::<(), WriteError>(
                WriteError::InvalidStateTransition,
            ) && final(self)@.headers == old(self)@.headers,
            final(self)@.state == old(self)@.state,
            final(self)@.status == old(self)@.status,
            final(self)@.reason == old(self)@.reason,
            final(self)@.version == old(self)@.version,
    {
        if self.state != WriteState::Unwritten {
            return Err(WriteError::InvalidStateTransition);
        }
        let ghost hs = self@.headers;
        let n = self.headers.len();
        let mut i: usize = 0;
        while i < n
            invariant
                *self == *old(self),
                self.state == WriteState::Unwritten,
                n == self.headers@.len(),
                hs == pair_views(self.headers@),
                i <= n,
                forall|k: int| 0 <= k < i ==> !eq_ignore_ascii_case(#[trigger] hs[k].0, name@),
            decreases n - i,
        {
            assert(hs[i as int].0 == self.headers@[i as int].0@);
            if str_eq_ignore_ascii_case(self.headers[i].0.as_str(), name) {
                proof {
                    lemma_find_name_at(hs, name@, i as int);
                }
                self.headers.set(i, (String::from_str(name), String::from_str(value)));
                assert(pair_views(self.headers@) =~= with_header(hs, name@, value@));
                return Ok(());
            }
            i = i + 1;
        }
        proof {
            lemma_find_name_at(hs, name@, n as int);
        }
        self.headers.push((String::from_str(name), String::from_str(value)));
        assert(pair_views(self.headers@) =~= with_header(hs, name@, value@));
        Ok(())
    }

    /// Sets a typed header under its wire name. Only allowed before the head
    /// is written.
    pub fn set<H: Header>(&mut self, h: &H) -> (r: Result<(), WriteError>)
        ensures
            old(self)@.state == WriteState::Unwritten ==> r is Ok && final(self)@.headers
                == with_header(old(self)@.headers, H::wire_name(), h.wire_value()),
            old(self)@.state != WriteState::Unwritten ==> r == Err::<(), WriteError>(
                WriteError::InvalidStateTransition,
            ) && final(self)@.headers == old(self)@.headers,
            final(self)@.state == old(self)@.state,
            final(self)@.status == old(self)@.status,
            final(self)@.reason == old(self)@.reason,
            final(self)@.version == old(self)@.version,
    {
        let value = h.format();
        self.set_header(H::name(), value.as_str())
    }

    /// The head as it goes on the wire.
    fn head(&self) -> (r: String)
        ensures
            r@ == head_text(self@.version, self@.status, self@.reason, self@.headers),
    {
        proof {
            reveal_strlit(" ");
            reveal_strlit(": ");
            reveal_strlit("\r\n");
        }
        let ghost hs = self@.headers;
        let mut r = String::from_str(self.version.as_str());
        r.append(" ");
        let code = fmt_decimal(self.status as u64);
        r.append(code.as_str());
        r.append(" ");
        r.append(self.reason.as_str());
        r.append("\r\n");
        let ghost line = r@;
        assert(line =~= status_line(self.version, self.status, self.reason@));
        assert(hs.take(0) =~= Seq::<(Seq<char>, Seq<char>)>::empty());
        assert(r@ =~= line + header_block(hs.take(0)));
        let n = self.headers.len();
        let mut i: usize = 0;
        while i < n
            invariant
                n == self.headers@.len(),
                hs == pair_views(self.headers@),
                i <= n,
                r@ == line + header_block(hs.take(i as int)),
            decreases n - i,
        {
            r.append(self.headers[i].0.as_str());
            r.append(": ");
            r.append(self.headers[i].1.as_str());
            r.append("\r\n");
            proof {
                reveal_strlit(": ");
                reveal_strlit("\r\n");
                assert(": "@ =~= seq![':', ' ']);
                assert("\r\n"@ =~= crlf());
                assert(hs.take(i + 1).drop_last() =~= hs.take(i as int));
                assert(hs.take(i + 1).last() == (self.headers@[i as int].0@, self.headers@[i as int].1@));
                assert(r@ =~= line + header_block(hs.take(i + 1)));
            }
            i = i + 1;
        }
        r.append("\r\n");
        assert(hs.take(n as int) =~= hs);
        assert(r@ =~= head_text(self.version, self.status, self.reason@, hs));
        r
    }

    /// Writes the head if it has not been written yet: the first call returns
    /// the head and moves to `HeadersWritten`; later calls return nothing.
    pub fn write_head(&mut self) -> (r: String)
        ensures
            r@ == head_output(old(self)@),
            final(self)@ == after_head(old(self)@),
    {
        if self.state != WriteState::Unwritten {
            let r = String::new();
            assert(r@ =~= head_output(old(self)@));
            return r;
        }
        let r = self.head();
        self.state = WriteState::HeadersWritten;
        assert(self@ == after_head(old(self)@));
        r
    }

    /// Prepares for body bytes: returns what must precede them on the wire
    /// (the head, the first time). Fails once the response is closed.
    pub fn write(&mut self) -> (r: Result<String, WriteError>)
        ensures
            text_result(r) == body_output(old(self)@),
            final(self)@ == if old(self)@.state == WriteState::Closed {
                old(self)@
            } else {
                after_head(old(self)@)
            },
    {
        if self.state == WriteState::Closed {
            return Err(WriteError::InvalidStateTransition);
        }
        Ok(self.write_head())
    }

    /// Prepares a flush: like `write`, the head goes out first if it has not.
    pub fn flush(&mut self) -> (r: Result<String, WriteError>)
        ensures
            text_result(r) == body_output(old(self)@),
            final(self)@ == if old(self)@.state == WriteState::Closed {
                old(self)@
            } else {
                after_head(old(self)@)
            },
    {
        self.write()
    }

    /// Ends the response: returns what must still go out (the head, if it
    /// has not), after which the caller flushes and closes the write
    /// direction only. Fails if the response is already closed.
    pub fn end(&mut self) -> (r: Result<String, WriteError>)
        ensures
            text_result(r) == body_output(old(self)@),
            final(self)@ == after_end(old(self)@),
    {
        let r = self.flush();
        self.state = WriteState::Closed;
        assert(self@ == after_end(old(self)@));
        r
    }
}

/// The head goes out at most once: after the head-writing step, a second
/// one (or a body write) sends nothing more; once ended, every body write
/// fails with `InvalidStateTransition`; ending keeps the head's contents.
pub proof fn lemma_head_written_once(m: ResponseModel)
    ensures
        after_head(m).state != WriteState::Unwritten,
        head_output(after_head(m)).len() == 0,
        m.state != WriteState::Closed ==> body_output(after_head(m)) == Ok::<Seq<char>, WriteError>(
            Seq::empty(),
        ),
        after_head(after_head(m)) == after_head(m),
        body_output(after_end(m)) == Err::<Seq<char>, WriteError>(WriteError::InvalidStateTransition),
        after_end(m).headers == m.headers,
        after_end(m).status == m.status,
        after_end(m).reason == m.reason,
        after_end(m).version == m.version,
{
}

} // verus!
