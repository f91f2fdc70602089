//! The contract every typed header meets: a fixed wire name, a parse from
//! the raw lines, and a format to one line.
use vstd::prelude::*;
use crate::cache_control::{CacheControl, header_view, parse_cache_control, fmt_directives};
use crate::connection::{Connection, connection_view, parse_connection, fmt_options};
use crate::error::ParseError;
use crate::raw::Raw;
use crate::referer::{Referer, referer_view, parse_referer};
use crate::strict_transport_security::{StrictTransportSecurity, parse_hsts, fmt_hsts};

verus! {

/// A header kind with a typed value.
pub trait Header: Sized {
    /// The field name, as written on the wire.
    spec fn wire_name() -> Seq<char>;

    /// The value as written on one line.
    spec fn wire_value(&self) -> Seq<char>;

    /// Whether `r` is what parsing `lines` gives.
    spec fn parses_to(lines: Seq<Seq<char>>, r: Result<Self, ParseError>) -> bool;

    fn name() -> (r: &'static str)
        ensures
            r@ == Self::wire_name(),
    ;

    fn parse(raw: &Raw) -> (r: Result<Self, ParseError>)
        ensures
            Self::parses_to(raw@, r),
    ;

    fn format(&self) -> (r: String)
        ensures
            r@ == self.wire_value(),
    ;
}

impl Header for CacheControl {
    open spec fn wire_name() -> Seq<char> {
        "Cache-Control"@
    }

    open spec fn wire_value(&self) -> Seq<char> {
        fmt_directives(self@)
    }

    open spec fn parses_to(lines: Seq<Seq<char>>, r: Result<Self, ParseError>) -> bool {
        header_view(r) == parse_cache_control(lines)
    }

    fn name() -> (r: &'static str) {
        CacheControl::header_name()
    }

    fn parse(raw: &Raw) -> (r: Result<Self, ParseError>) {
        CacheControl::parse_header(raw)
    }

    fn format(&self) -> (r: String) {
        self.fmt_header()
    }
}

impl Header for Connection {
    open spec fn wire_name() -> Seq<char> {
        "Connection"@
    }

    open spec fn wire_value(&self) -> Seq<char> {
        fmt_options(self@)
    }

    open spec fn parses_to(lines: Seq<Seq<char>>, r: Result<Self, ParseError>) -> bool {
        connection_view(r) == parse_connection(lines)
    }

    fn name() -> (r: &'static str) {
        Connection::header_name()
    }

    fn parse(raw: &Raw) -> (r: Result<Self, ParseError>) {
        Connection::parse_header(raw)
    }

    fn format(&self) -> (r: String) {
        self.fmt_header()
    }
}

impl Header for StrictTransportSecurity {
    open spec fn wire_name() -> Seq<char> {
        "Strict-Transport-Security"@
    }

    open spec fn wire_value(&self) -> Seq<char> {
        fmt_hsts(*self)
    }

    open spec fn parses_to(lines: Seq<Seq<char>>, r: Result<Self, ParseError>) -> bool {
        r == parse_hsts(lines)
    }

    fn name() -> (r: &'static str) {
        StrictTransportSecurity::header_name()
    }

    fn parse(raw: &Raw) -> (r: Result<Self, ParseError>) {
        StrictTransportSecurity::parse_header(raw)
    }

    fn format(&self) -> (r: String) {
        self.fmt_header()
    }
}

impl Header for Referer {
    open spec fn wire_name() -> Seq<char> {
        "Referer"@
    }

    open spec fn wire_value(&self) -> Seq<char> {
        self.0@
    }

    open spec fn parses_to(lines: Seq<Seq<char>>, r: Result<Self, ParseError>) -> bool {
        referer_view(r) == parse_referer(lines)
    }

    fn name() -> (r: &'static str) {
        Referer::header_name()
    }

    fn parse(raw: &Raw) -> (r: Result<Self, ParseError>) {
        Referer::parse_header(raw)
    }

    fn format(&self) -> (r: String) {
        self.fmt_header()
    }
}

} // verus!
