//! The `Connection` header: a comma-separated list of connection options.
use vstd::prelude::*;
use vstd::string::*;
use crate::error::ParseError;
use crate::list::{parse_items, parse_list_value, join_items, lemma_items_error, lemma_list_round_trip};
use crate::raw::{Raw, join_lines, line_separator, lemma_merge_two_lines};
use crate::text::{
    is_token, is_token_char, wire_piece, lemma_split_single, lemma_trim_noop,
    lemma_trim_nonempty, ascii_lower, trim_ws, split, eq_ignore_ascii_case, views, trim_str,
    split_str, str_eq_ignore_ascii_case,
};

verus! {

/// What a `ConnectionOption` stands for.
pub enum OptionModel {
    KeepAlive,
    Close,
    ConnectionHeader(Seq<char>),
}

/// One value of the `Connection` header.
#[derive(Clone, Debug)]
pub enum ConnectionOption {
    /// The `keep-alive` connection value.
    KeepAlive,
    /// The `close` connection value.
    Close,
    /// The name of another header that concerns only this connection.
    ConnectionHeader(String),
}

impl View for ConnectionOption {
    type V = OptionModel;

    open spec fn view(&self) -> OptionModel {
        match self {
            ConnectionOption::KeepAlive => OptionModel::KeepAlive,
            ConnectionOption::Close => OptionModel::Close,
            ConnectionOption::ConnectionHeader(s) => OptionModel::ConnectionHeader(s@),
        }
    }
}

/// Options are equal when they are the same keyword, or name the same
/// header up to ASCII case.
pub open spec fn same_option(a: OptionModel, b: OptionModel) -> bool {
    match (a, b) {
        (OptionModel::KeepAlive, OptionModel::KeepAlive) => true,
        (OptionModel::Close, OptionModel::Close) => true,
        (OptionModel::ConnectionHeader(x), OptionModel::ConnectionHeader(y)) => eq_ignore_ascii_case(
            x,
            y,
        ),
        _ => false,
    }
}

impl PartialEq for ConnectionOption {
    fn eq(&self, other: &ConnectionOption) -> (r: bool) {
        match (self, other) {
            (ConnectionOption::KeepAlive, ConnectionOption::KeepAlive) => true,
            (ConnectionOption::Close, ConnectionOption::Close) => true,
            (ConnectionOption::ConnectionHeader(x), ConnectionOption::ConnectionHeader(y)) => {
                str_eq_ignore_ascii_case(x.as_str(), y.as_str())
            },
            _ => false,
        }
    }
}

impl vstd::std_specs::cmp::PartialEqSpecImpl for ConnectionOption {
    open spec fn obeys_eq_spec() -> bool {
        true
    }

    open spec fn eq_spec(&self, other: &ConnectionOption) -> bool {
        same_option(self@, other@)
    }
}

/// The option written as the segment `t`; the two keywords match in any
/// ASCII case.
pub open spec fn parse_option(t: Seq<char>) -> Result<OptionModel, ParseError> {
    if t.len() == 0 {
        Err(ParseError::MalformedDirective)
    } else if eq_ignore_ascii_case(t, "keep-alive"@) {
        Ok(OptionModel::KeepAlive)
    } else if eq_ignore_ascii_case(t, "close"@) {
        Ok(OptionModel::Close)
    } else {
        Ok(OptionModel::ConnectionHeader(t))
    }
}

/// The `Connection` value carried by the given lines.
pub open spec fn parse_connection(lines: Seq<Seq<char>>) -> Result<Seq<OptionModel>, ParseError> {
    parse_list_value(join_lines(lines), option_item())
}

/// The reader of one trimmed list segment.
pub open spec fn option_item() -> spec_fn(Seq<char>) -> Result<OptionModel, ParseError> {
    |t: Seq<char>| parse_option(t)
}

/// The writer of one option.
pub open spec fn option_text() -> spec_fn(OptionModel) -> Seq<char> {
    |o: OptionModel| fmt_option(o)
}

/// The wire form of one option.
pub open spec fn fmt_option(o: OptionModel) -> Seq<char> {
    match o {
        OptionModel::KeepAlive => "keep-alive"@,
        OptionModel::Close => "close"@,
        OptionModel::ConnectionHeader(s) => s,
    }
}

/// The wire form of an option list: the options joined by `", "`.
pub open spec fn fmt_options(os: Seq<OptionModel>) -> Seq<char> {
    join_items(os, option_text())
}

pub open spec fn option_result_view(r: Result<ConnectionOption, ParseError>) -> Result<OptionModel, ParseError> {
    match r {
        Ok(o) => Ok(o@),
        Err(e) => Err(e),
    }
}

impl ConnectionOption {
    /// The option written as the segment `s`.
    pub fn from_str(s: &str) -> (r: Result<ConnectionOption, ParseError>)
        ensures
            option_result_view(r) == parse_option(s@),
    {
        if s.unicode_len() == 0 {
            Err(ParseError::MalformedDirective)
        } else if str_eq_ignore_ascii_case(s, "keep-alive") {
            Ok(ConnectionOption::KeepAlive)
        } else if str_eq_ignore_ascii_case(s, "close") {
            Ok(ConnectionOption::Close)
        } else {
            Ok(ConnectionOption::ConnectionHeader(String::from_str(s)))
        }
    }

    /// The wire form of this option.
    pub fn to_string(&self) -> (r: String)
        ensures
            r@ == fmt_option(self@),
    {
        match self {
            ConnectionOption::KeepAlive => String::from_str("keep-alive"),
            ConnectionOption::Close => String::from_str("close"),
            ConnectionOption::ConnectionHeader(s) => String::from_str(s.as_str()),
        }
    }
}

/// The `Connection` header: its options in wire order.
#[derive(Clone, PartialEq, Debug)]
pub struct Connection(pub Vec<ConnectionOption>);

pub open spec fn option_views(os: Seq<ConnectionOption>) -> Seq<OptionModel> {
    os.map_values(|o: ConnectionOption| o@)
}

impl View for Connection {
    type V = Seq<OptionModel>;

    open spec fn view(&self) -> Seq<OptionModel> {
        option_views(self.0@)
    }
}

pub open spec fn connection_view(r: Result<Connection, ParseError>) -> Result<Seq<OptionModel>, ParseError> {
    match r {
        Ok(c) => Ok(c@),
        Err(e) => Err(e),
    }
}

/// Two lines of a header read as one line holding both, joined by `", "`.
pub proof fn lemma_connection_multi_line_merge(a: Seq<char>, b: Seq<char>)
    ensures
        parse_connection(seq![a, b]) == parse_connection(seq![a + line_separator() + b]),
{
    lemma_merge_two_lines(a, b);
}

/// `keep-alive` is recognised whatever the case of its letters.
pub proof fn lemma_keep_alive_any_case(t: Seq<char>)
    requires
        eq_ignore_ascii_case(t, "keep-alive"@),
    ensures
        parse_connection(seq![t]) == Ok::<Seq<OptionModel>, ParseError>(seq![OptionModel::KeepAlive]),
{
    reveal_strlit("keep-alive");
    let k = "keep-alive"@;
    assert forall|i: int| 0 <= i < t.len() implies t[i] != ',' by {
        assert(ascii_lower(t[i]) == ascii_lower(k[i]));
    }
    assert(ascii_lower(t[0]) == ascii_lower(k[0]));
    assert(ascii_lower(t.last()) == ascii_lower(k[9]));
    lemma_trim_nonempty(t, 0, false);
    lemma_trim_noop(t, false);
    lemma_split_single(t, ',');
    assert(seq![t].drop_last() =~= Seq::<Seq<char>>::empty());
    assert(seq![t][0] == t);
    assert(join_lines(seq![t]) == t);
    assert(trim_ws(seq![t].last()) == t);
    assert(parse_option(t) == Ok::<OptionModel, ParseError>(OptionModel::KeepAlive));
    assert(parse_items(Seq::<Seq<char>>::empty(), option_item()) == Ok::<Seq<OptionModel>, ParseError>(
        Seq::empty(),
    ));
    assert(Seq::<OptionModel>::empty().push(OptionModel::KeepAlive) =~= seq![OptionModel::KeepAlive]);
}

/// An option that reads back as itself: a header name is a token that is
/// neither keyword in any case.
pub open spec fn option_wire_safe(o: OptionModel) -> bool {
    match o {
        OptionModel::ConnectionHeader(s) => is_token(s) && !eq_ignore_ascii_case(s, "keep-alive"@)
            && !eq_ignore_ascii_case(s, "close"@),
        _ => true,
    }
}

/// A wire-safe option formats to a list piece that reads back as itself.
pub proof fn lemma_option_round_trip(o: OptionModel)
    requires
        option_wire_safe(o),
    ensures
        wire_piece(fmt_option(o)),
        parse_option(fmt_option(o)) == Ok::<OptionModel, ParseError>(o),
{
    reveal_strlit("keep-alive");
    reveal_strlit("close");
    let f = fmt_option(o);
    match o {
        OptionModel::ConnectionHeader(s) => {
            assert(s.last() == s[s.len() - 1]);
        },
        _ => {
            assert(eq_ignore_ascii_case(f, f));
            assert forall|i: int| 0 <= i < f.len() implies is_token_char(#[trigger] f[i]) by {
                assert(i == 0 || i == 1 || i == 2 || i == 3 || i == 4 || i == 5 || i == 6 || i == 7
                    || i == 8 || i == 9);
            }
            assert(f.last() == f[f.len() - 1]);
        },
    }
}

/// Reading back the formatted value of a non-empty list of wire-safe
/// options gives the same list.
pub proof fn lemma_connection_round_trip(v: Seq<OptionModel>)
    requires
        v.len() > 0,
        forall|i: int| 0 <= i < v.len() ==> option_wire_safe(#[trigger] v[i]),
    ensures
        parse_connection(seq![fmt_options(v)]) == Ok::<Seq<OptionModel>, ParseError>(v),
{
    assert forall|i: int| 0 <= i < v.len() implies wire_piece(#[trigger] option_text()(v[i]))
        && option_item()(option_text()(v[i])) == Ok::<OptionModel, ParseError>(v[i]) by {
        lemma_option_round_trip(v[i]);
    }
    lemma_list_round_trip(v, option_text(), option_item());
    let line = fmt_options(v);
    assert(seq![line][0] == line);
    assert(join_lines(seq![line]) == line);
}

impl Connection {
    /// `Connection: close`.
    pub fn close() -> (r: Connection)
        ensures
            r@ == seq![OptionModel::Close],
    {
        let r = Connection(vec![ConnectionOption::Close]);
        assert(r@ =~= seq![OptionModel::Close]);
        r
    }

    /// `Connection: keep-alive`.
    pub fn keep_alive() -> (r: Connection)
        ensures
            r@ == seq![OptionModel::KeepAlive],
    {
        let r = Connection(vec![ConnectionOption::KeepAlive]);
        assert(r@ =~= seq![OptionModel::KeepAlive]);
        r
    }

    /// The field name, as written on the wire.
    pub fn header_name() -> (r: &'static str)
        ensures
            r@ == "Connection"@,
    {
        "Connection"
    }

    /// Reads the header from its lines, which are taken as one list joined
    /// by `", "`. A blank joined value gives `MissingValue`.
    pub fn parse_header(raw: &Raw) -> (r: Result<Connection, ParseError>)
        ensures
            connection_view(r) == parse_connection(raw@),
    {
        let joined = raw.joined();
        if trim_str(joined.as_str(), false).unicode_len() == 0 {
            return Err(ParseError::MissingValue);
        }
        let parts = split_str(joined.as_str(), ',');
        let ghost segs = views(parts@);
        let mut out: Vec<ConnectionOption> = Vec::new();
        let mut i: usize = 0;
        assert(segs.take(0) =~= Seq::<Seq<char>>::empty());
        assert(option_views(out@) =~= Seq::<OptionModel>::empty());
        while i < parts.len()
            invariant
                segs == views(parts@),
                segs == split(join_lines(raw@), ','),
                trim_ws(join_lines(raw@)).len() != 0,
                i <= parts@.len(),
                parse_items(segs.take(i as int), option_item()) == Ok::<Seq<OptionModel>, ParseError>(
                    option_views(out@),
                ),
            decreases parts@.len() - i,
        {
            let seg = trim_str(parts[i], false);
            proof {
                assert(segs.take(i + 1).drop_last() =~= segs.take(i as int));
                assert(segs.take(i + 1).last() == parts@[i as int]@);
            }
            match ConnectionOption::from_str(seg) {
                Ok(o) => {
                    let ghost pre = option_views(out@);
                    out.push(o);
                    assert(option_views(out@) =~= pre.push(o@));
                },
                Err(e) => {
                    proof {
                        assert(parse_items(segs.take(i + 1), option_item()) == Err::<
                            Seq<OptionModel>,
                            ParseError,
                        >(e));
                        lemma_items_error(segs, option_item(), i as int + 1);
                    }
                    return Err(e);
                },
            }
            i = i + 1;
        }
        assert(segs.take(parts@.len() as int) =~= segs);
        Ok(Connection(out))
    }

    /// The header's value on one line: the options joined by `", "`.
    pub fn fmt_header(&self) -> (r: String)
        ensures
            r@ == fmt_options(self@),
    {
        let ghost f = self@.map_values(option_text());
        let n = self.0.len();
        if n == 0 {
            let r = String::new();
            assert(r@ =~= fmt_options(self@));
            return r;
        }
        let mut r = self.0[0].to_string();
        let mut i: usize = 1;
        assert(f.take(1).len() == 1);
        assert(f.take(1)[0] == f[0]);
        while i < n
            invariant
                n == self.0@.len(),
                f == self@.map_values(option_text()),
                1 <= i <= n,
                r@ == join_lines(f.take(i as int)),
            decreases n - i,
        {
            r.append(", ");
            let item = self.0[i].to_string();
            r.append(item.as_str());
            proof {
                reveal_strlit(", ");
                assert(", "@ =~= crate::raw::line_separator());
                assert(f.take(i + 1).drop_last() =~= f.take(i as int));
            }
            i = i + 1;
        }
        assert(f.take(n as int) =~= f);
        r
    }
}

} // verus!
