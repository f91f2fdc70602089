//! The `Referer` header: one URI reference on exactly one line.
use vstd::prelude::*;
use vstd::string::*;
use crate::error::ParseError;
use crate::raw::Raw;
use crate::text::{trim_ws, trim_str};

verus! {

/// The address of the resource from which the request's target was obtained.
#[derive(Clone, PartialEq, Debug)]
pub struct Referer(pub String);

/// The reference carried by the given lines: the one line, trimmed.
pub open spec fn parse_referer(lines: Seq<Seq<char>>) -> Result<Seq<char>, ParseError> {
    if lines.len() != 1 {
        Err(ParseError::WrongLineCount)
    } else if trim_ws(lines[0]).len() == 0 {
        Err(ParseError::MissingValue)
    } else {
        Ok(trim_ws(lines[0]))
    }
}

pub open spec fn referer_view(r: Result<Referer, ParseError>) -> Result<Seq<char>, ParseError> {
    match r {
        Ok(v) => Ok(v.0@),
        Err(e) => Err(e),
    }
}

/// A trimmed, non-empty reference reads back as itself.
pub proof fn lemma_referer_round_trip(s: Seq<char>)
    requires
        s.len() > 0,
        trim_ws(s) == s,
    ensures
        parse_referer(seq![s]) == Ok::<Seq<char>, ParseError>(s),
{
    assert(seq![s][0] == s);
}

impl Referer {
    /// The field name, as written on the wire.
    pub fn header_name() -> (r: &'static str)
        ensures
            r@ == "Referer"@,
    {
        "Referer"
    }

    /// Reads the reference from a header that must have exactly one line.
    pub fn parse_header(raw: &Raw) -> (r: Result<Referer, ParseError>)
        ensures
            referer_view(r) == parse_referer(raw@),
    {
        let line = match raw.one() {
            Ok(l) => l,
            Err(e) => return Err(e),
        };
        let t = trim_str(line, false);
        if t.unicode_len() == 0 {
            return Err(ParseError::MissingValue);
        }
        Ok(Referer(String::from_str(t)))
    }

    /// The header's value on one line.
    pub fn fmt_header(&self) -> (r: String)
        ensures
            r@ == self.0@,
    {
        String::from_str(self.0.as_str())
    }
}

} // verus!
