//! The `Cache-Control` header: a comma-separated list of directives in which
//! unknown directives are kept as extensions.
use vstd::prelude::*;
use vstd::string::*;
use crate::error::ParseError;
use crate::list::{parse_items, parse_list_value, join_items, lemma_items_error, lemma_list_round_trip};
use crate::raw::{Raw, join_lines, line_separator, lemma_merge_two_lines};
use crate::text::{
    is_token_char, is_token, is_arg_char, is_arg, wire_piece, is_digit, lemma_find_at,
    lemma_trim_noop, lemma_decimal_str, lemma_decimal_round_trip, unquote, split, find,
    decimal_of, decimal_str, views, str_eq, trim_str, find_char, split_str, parse_decimal,
    fmt_decimal,
};

verus! {

/// What a `CacheDirective` stands for.
pub enum DirectiveModel {
    NoCache,
    NoStore,
    NoTransform,
    OnlyIfCached,
    MaxAge(u32),
    MaxStale(u32),
    MinFresh(u32),
    MustRevalidate,
    Public,
    Private,
    ProxyRevalidate,
    SMaxAge(u32),
    Extension(Seq<char>, Option<Seq<char>>),
}

/// One directive of a `Cache-Control` value.
#[derive(PartialEq, Clone, Debug)]
pub enum CacheDirective {
    /// "no-cache"
    NoCache,
    /// "no-store"
    NoStore,
    /// "no-transform"
    NoTransform,
    /// "only-if-cached"
    OnlyIfCached,
    /// "max-age=delta"
    MaxAge(u32),
    /// "max-stale=delta"
    MaxStale(u32),
    /// "min-fresh=delta"
    MinFresh(u32),
    /// "must-revalidate"
    MustRevalidate,
    /// "public"
    Public,
    /// "private"
    Private,
    /// "proxy-revalidate"
    ProxyRevalidate,
    /// "s-maxage=delta"
    SMaxAge(u32),
    /// Any other directive, with its argument if it has one.
    Extension(String, Option<String>),
}

pub open spec fn opt_view(a: Option<String>) -> Option<Seq<char>> {
    match a {
        Some(s) => Some(s@),
        None => None,
    }
}

impl View for CacheDirective {
    type V = DirectiveModel;

    open spec fn view(&self) -> DirectiveModel {
        match self {
            CacheDirective::NoCache => DirectiveModel::NoCache,
            CacheDirective::NoStore => DirectiveModel::NoStore,
            CacheDirective::NoTransform => DirectiveModel::NoTransform,
            CacheDirective::OnlyIfCached => DirectiveModel::OnlyIfCached,
            CacheDirective::MaxAge(n) => DirectiveModel::MaxAge(*n),
            CacheDirective::MaxStale(n) => DirectiveModel::MaxStale(*n),
            CacheDirective::MinFresh(n) => DirectiveModel::MinFresh(*n),
            CacheDirective::MustRevalidate => DirectiveModel::MustRevalidate,
            CacheDirective::Public => DirectiveModel::Public,
            CacheDirective::Private => DirectiveModel::Private,
            CacheDirective::ProxyRevalidate => DirectiveModel::ProxyRevalidate,
            CacheDirective::SMaxAge(n) => DirectiveModel::SMaxAge(*n),
            CacheDirective::Extension(name, arg) => DirectiveModel::Extension(
                name@,
                opt_view(*arg),
            ),
        }
    }
}

/// The flag directive written as `t`, if `t` is one.
pub open spec fn flag_of(t: Seq<char>) -> Option<DirectiveModel> {
    if t == "no-cache"@ {
        Some(DirectiveModel::NoCache)
    } else if t == "no-store"@ {
        Some(DirectiveModel::NoStore)
    } else if t == "no-transform"@ {
        Some(DirectiveModel::NoTransform)
    } else if t == "only-if-cached"@ {
        Some(DirectiveModel::OnlyIfCached)
    } else if t == "must-revalidate"@ {
        Some(DirectiveModel::MustRevalidate)
    } else if t == "public"@ {
        Some(DirectiveModel::Public)
    } else if t == "private"@ {
        Some(DirectiveModel::Private)
    } else if t == "proxy-revalidate"@ {
        Some(DirectiveModel::ProxyRevalidate)
    } else {
        None
    }
}

/// A seconds argument: a decimal number that fits in `u32`.
pub open spec fn seconds_of(v: Seq<char>) -> Result<u32, ParseError> {
    match decimal_of(v, u32::MAX as nat) {
        Some(n) => Ok(n as u32),
        None => Err(ParseError::MalformedDirective),
    }
}

/// The directive written as the segment `t`.
pub open spec fn parse_directive(t: Seq<char>) -> Result<DirectiveModel, ParseError> {
    if flag_of(t) is Some {
        Ok(flag_of(t)->0)
    } else if t.len() == 0 {
        Err(ParseError::MalformedDirective)
    } else {
        match find(t, '=') {
            None => Ok(DirectiveModel::Extension(t, None)),
            Some(i) => {
                let name = t.take(i);
                let value = unquote(t.skip(i + 1));
                if t.skip(i + 1).len() == 0 {
                    Err(ParseError::MalformedDirective)
                } else if name == "max-age"@ {
                    match seconds_of(value) {
                        Ok(n) => Ok(DirectiveModel::MaxAge(n)),
                        Err(e) => Err(e),
                    }
                } else if name == "max-stale"@ {
                    match seconds_of(value) {
                        Ok(n) => Ok(DirectiveModel::MaxStale(n)),
                        Err(e) => Err(e),
                    }
                } else if name == "min-fresh"@ {
                    match seconds_of(value) {
                        Ok(n) => Ok(DirectiveModel::MinFresh(n)),
                        Err(e) => Err(e),
                    }
                } else if name == "s-maxage"@ {
                    match seconds_of(value) {
                        Ok(n) => Ok(DirectiveModel::SMaxAge(n)),
                        Err(e) => Err(e),
                    }
                } else {
                    Ok(DirectiveModel::Extension(name, Some(value)))
                }
            },
        }
    }
}

/// The names whose argument is a number of seconds.
pub open spec fn is_seconds_name(name: Seq<char>) -> bool {
    name == "max-age"@ || name == "max-stale"@ || name == "min-fresh"@ || name == "s-maxage"@
}

/// A directive that reads back as itself: extension names are tokens,
/// arguments are non-empty and hold no comma, quote or whitespace, and an extension does not take the name of a known directive
/// of the same shape.
pub open spec fn wire_safe(d: DirectiveModel) -> bool {
    match d {
        DirectiveModel::Extension(name, None) => is_token(name) && flag_of(name) is None,
        DirectiveModel::Extension(name, Some(arg)) => is_token(name) && !is_seconds_name(name)
            && is_arg(arg),
        _ => true,
    }
}

/// Every keyword is a token.
pub proof fn lemma_keywords_are_tokens()
    ensures
        forall|t: Seq<char>| flag_of(t) is Some ==> #[trigger] is_token(t),
        is_token("max-age"@),
        is_token("max-stale"@),
        is_token("min-fresh"@),
        is_token("s-maxage"@),
        "no-store"@ != "no-cache"@,
        "max-stale"@ != "min-fresh"@,
        "max-age"@ != "s-maxage"@,
{
    reveal_strlit("no-cache");
    reveal_strlit("no-store");
    reveal_strlit("no-transform");
    reveal_strlit("only-if-cached");
    reveal_strlit("must-revalidate");
    reveal_strlit("public");
    reveal_strlit("private");
    reveal_strlit("proxy-revalidate");
    reveal_strlit("max-age");
    reveal_strlit("max-stale");
    reveal_strlit("min-fresh");
    reveal_strlit("s-maxage");
    assert forall|i: int| 0 <= i < "no-cache"@.len() implies is_token_char(#[trigger] "no-cache"@[i]) by {
        assert(i == 0 || i == 1 || i == 2 || i == 3 || i == 4 || i == 5 || i == 6 || i == 7);
    }
    assert forall|i: int| 0 <= i < "no-store"@.len() implies is_token_char(#[trigger] "no-store"@[i]) by {
        assert(i == 0 || i == 1 || i == 2 || i == 3 || i == 4 || i == 5 || i == 6 || i == 7);
    }
    assert forall|i: int| 0 <= i < "no-transform"@.len() implies is_token_char(#[trigger] "no-transform"@[i]) by {
        assert(i == 0 || i == 1 || i == 2 || i == 3 || i == 4 || i == 5 || i == 6 || i == 7 || i == 8 || i == 9 || i == 10 || i == 11);
    }
    assert forall|i: int| 0 <= i < "only-if-cached"@.len() implies is_token_char(#[trigger] "only-if-cached"@[i]) by {
        assert(i == 0 || i == 1 || i == 2 || i == 3 || i == 4 || i == 5 || i == 6 || i == 7 || i == 8 || i == 9 || i == 10 || i == 11 || i == 12 || i == 13);
    }
    assert forall|i: int| 0 <= i < "must-revalidate"@.len() implies is_token_char(#[trigger] "must-revalidate"@[i]) by {
        assert(i == 0 || i == 1 || i == 2 || i == 3 || i == 4 || i == 5 || i == 6 || i == 7 || i == 8 || i == 9 || i == 10 || i == 11 || i == 12 || i == 13 || i == 14);
    }
    assert forall|i: int| 0 <= i < "public"@.len() implies is_token_char(#[trigger] "public"@[i]) by {
        assert(i == 0 || i == 1 || i == 2 || i == 3 || i == 4 || i == 5);
    }
    assert forall|i: int| 0 <= i < "private"@.len() implies is_token_char(#[trigger] "private"@[i]) by {
        assert(i == 0 || i == 1 || i == 2 || i == 3 || i == 4 || i == 5 || i == 6);
    }
    assert forall|i: int| 0 <= i < "proxy-revalidate"@.len() implies is_token_char(#[trigger] "proxy-revalidate"@[i]) by {
        assert(i == 0 || i == 1 || i == 2 || i == 3 || i == 4 || i == 5 || i == 6 || i == 7 || i == 8 || i == 9 || i == 10 || i == 11 || i == 12 || i == 13 || i == 14 || i == 15);
    }
    assert forall|i: int| 0 <= i < "max-age"@.len() implies is_token_char(#[trigger] "max-age"@[i]) by {
        assert(i == 0 || i == 1 || i == 2 || i == 3 || i == 4 || i == 5 || i == 6);
    }
    assert forall|i: int| 0 <= i < "max-stale"@.len() implies is_token_char(#[trigger] "max-stale"@[i]) by {
        assert(i == 0 || i == 1 || i == 2 || i == 3 || i == 4 || i == 5 || i == 6 || i == 7 || i == 8);
    }
    assert forall|i: int| 0 <= i < "min-fresh"@.len() implies is_token_char(#[trigger] "min-fresh"@[i]) by {
        assert(i == 0 || i == 1 || i == 2 || i == 3 || i == 4 || i == 5 || i == 6 || i == 7 || i == 8);
    }
    assert forall|i: int| 0 <= i < "s-maxage"@.len() implies is_token_char(#[trigger] "s-maxage"@[i]) by {
        assert(i == 0 || i == 1 || i == 2 || i == 3 || i == 4 || i == 5 || i == 6 || i == 7);
    }
    assert("no-store"@[3] != "no-cache"@[3]);
    assert("max-stale"@[1] != "min-fresh"@[1]);
}

/// `name=value` reads back as that name and that value.
pub proof fn lemma_name_value_parts(name: Seq<char>, value: Seq<char>)
    requires
        is_token(name),
        is_arg(value),
    ensures
        flag_of(name_value(name, value)) is None,
        find(name_value(name, value), '=') == Some(name.len() as int),
        name_value(name, value).take(name.len() as int) == name,
        unquote(name_value(name, value).skip(name.len() as int + 1)) == value,
        wire_piece(name_value(name, value)),
{
    let f = name_value(name, value);
    let k = name.len() as int;
    lemma_keywords_are_tokens();
    assert(f[k] == '=');
    if flag_of(f) is Some {
        assert(is_token(f));
        assert(!is_token_char(f[k]));
    }
    assert forall|j: int| 0 <= j < k implies f[j] != '=' by {
        assert(f[j] == name[j]);
    }
    lemma_find_at(f, '=', k);
    assert(f.take(k) =~= name);
    assert(f.skip(k + 1) =~= value);
    assert(value.last() == value[value.len() - 1]);
    lemma_trim_noop(value, true);
    assert(f[0] == name[0]);
    assert(f.last() == value.last());
    assert forall|i: int| 0 <= i < f.len() implies #[trigger] f[i] != ',' by {
        if i < k {
            assert(f[i] == name[i]);
        } else if i > k {
            assert(f[i] == value[i - k - 1]);
        }
    }
}

/// A wire-safe directive formats to a list piece that reads back as itself.
pub proof fn lemma_directive_round_trip(d: DirectiveModel)
    requires
        wire_safe(d),
    ensures
        wire_piece(fmt_directive(d)),
        parse_directive(fmt_directive(d)) == Ok::<DirectiveModel, ParseError>(d),
{
    reveal_strlit("no-cache");
    reveal_strlit("no-store");
    reveal_strlit("no-transform");
    reveal_strlit("only-if-cached");
    reveal_strlit("must-revalidate");
    reveal_strlit("public");
    reveal_strlit("private");
    reveal_strlit("proxy-revalidate");
    reveal_strlit("max-age");
    reveal_strlit("max-stale");
    reveal_strlit("min-fresh");
    reveal_strlit("s-maxage");
    lemma_keywords_are_tokens();
    let f = fmt_directive(d);
    match d {
        DirectiveModel::MaxAge(n) => lemma_seconds_piece("max-age"@, n),
        DirectiveModel::MaxStale(n) => lemma_seconds_piece("max-stale"@, n),
        DirectiveModel::MinFresh(n) => lemma_seconds_piece("min-fresh"@, n),
        DirectiveModel::SMaxAge(n) => lemma_seconds_piece("s-maxage"@, n),
        DirectiveModel::Extension(name, None) => {
            lemma_find_at(name, '=', name.len() as int);
            assert(name.last() == name[name.len() - 1]);
        },
        DirectiveModel::Extension(name, Some(arg)) => {
            lemma_name_value_parts(name, arg);
        },
        _ => {
            assert(flag_of(f) is Some);
            assert(is_token(f));
            assert(f.last() == f[f.len() - 1]);
        },
    }
}

/// `name=<decimal n>` reads back as `n` seconds.
pub proof fn lemma_seconds_piece(name: Seq<char>, n: u32)
    requires
        is_token(name),
    ensures
        flag_of(name_value(name, decimal_str(n as nat))) is None,
        find(name_value(name, decimal_str(n as nat)), '=') == Some(name.len() as int),
        name_value(name, decimal_str(n as nat)).take(name.len() as int) == name,
        unquote(name_value(name, decimal_str(n as nat)).skip(name.len() as int + 1)) == decimal_str(
            n as nat,
        ),
        wire_piece(name_value(name, decimal_str(n as nat))),
        seconds_of(decimal_str(n as nat)) == Ok::<u32, ParseError>(n),
{
    let ds = decimal_str(n as nat);
    lemma_decimal_str(n as nat);
    lemma_decimal_round_trip(n as nat, u32::MAX as nat);
    assert forall|i: int| 0 <= i < ds.len() implies is_arg_char(#[trigger] ds[i]) by {
        assert(is_digit(ds[i]));
    }
    lemma_name_value_parts(name, ds);
}

/// The reader of one trimmed list segment.
pub open spec fn directive_item() -> spec_fn(Seq<char>) -> Result<DirectiveModel, ParseError> {
    |t: Seq<char>| parse_directive(t)
}

/// The writer of one directive.
pub open spec fn directive_text() -> spec_fn(DirectiveModel) -> Seq<char> {
    |d: DirectiveModel| fmt_directive(d)
}

/// The directives of one logical value.
pub open spec fn parse_list(s: Seq<char>) -> Result<Seq<DirectiveModel>, ParseError> {
    parse_items(split(s, ','), directive_item())
}

/// The `Cache-Control` value carried by the given lines.
pub open spec fn parse_cache_control(lines: Seq<Seq<char>>) -> Result<Seq<DirectiveModel>, ParseError> {
    parse_value(join_lines(lines))
}

/// The directives of one logical value; a blank value is a missing one.
pub open spec fn parse_value(s: Seq<char>) -> Result<Seq<DirectiveModel>, ParseError> {
    parse_list_value(s, directive_item())
}

pub open spec fn name_value(name: Seq<char>, value: Seq<char>) -> Seq<char> {
    name + seq!['='] + value
}

/// The wire form of one directive.
pub open spec fn fmt_directive(d: DirectiveModel) -> Seq<char> {
    match d {
        DirectiveModel::NoCache => "no-cache"@,
        DirectiveModel::NoStore => "no-store"@,
        DirectiveModel::NoTransform => "no-transform"@,
        DirectiveModel::OnlyIfCached => "only-if-cached"@,
        DirectiveModel::MaxAge(n) => name_value("max-age"@, decimal_str(n as nat)),
        DirectiveModel::MaxStale(n) => name_value("max-stale"@, decimal_str(n as nat)),
        DirectiveModel::MinFresh(n) => name_value("min-fresh"@, decimal_str(n as nat)),
        DirectiveModel::MustRevalidate => "must-revalidate"@,
        DirectiveModel::Public => "public"@,
        DirectiveModel::Private => "private"@,
        DirectiveModel::ProxyRevalidate => "proxy-revalidate"@,
        DirectiveModel::SMaxAge(n) => name_value("s-maxage"@, decimal_str(n as nat)),
        DirectiveModel::Extension(name, None) => name,
        DirectiveModel::Extension(name, Some(arg)) => name_value(name, arg),
    }
}

/// The wire form of a directive list: the directives joined by `", "`.
pub open spec fn fmt_directives(ds: Seq<DirectiveModel>) -> Seq<char> {
    join_items(ds, directive_text())
}

pub open spec fn result_view(r: Result<CacheDirective, ParseError>) -> Result<DirectiveModel, ParseError> {
    match r {
        Ok(d) => Ok(d@),
        Err(e) => Err(e),
    }
}

fn seconds(value: &str) -> (r: Result<u32, ParseError>)
    ensures
        r == seconds_of(value@),
{
    match parse_decimal(value, 0xffff_ffff) {
        Some(n) => Ok(n as u32),
        None => Err(ParseError::MalformedDirective),
    }
}

fn name_value_str(name: &str, value: &str) -> (r: String)
    ensures
        r@ == name_value(name@, value@),
{
    let mut r = String::from_str(name);
    r.append("=");
    r.append(value);
    proof {
        reveal_strlit("=");
    }
    assert(r@ =~= name_value(name@, value@));
    r
}

impl CacheDirective {
    /// The directive written as the segment `s`.
    pub fn from_str(s: &str) -> (r: Result<CacheDirective, ParseError>)
        ensures
            result_view(r) == parse_directive(s@),
    {
        if str_eq(s, "no-cache") {
            return Ok(CacheDirective::NoCache);
        } else if str_eq(s, "no-store") {
            return Ok(CacheDirective::NoStore);
        } else if str_eq(s, "no-transform") {
            return Ok(CacheDirective::NoTransform);
        } else if str_eq(s, "only-if-cached") {
            return Ok(CacheDirective::OnlyIfCached);
        } else if str_eq(s, "must-revalidate") {
            return Ok(CacheDirective::MustRevalidate);
        } else if str_eq(s, "public") {
            return Ok(CacheDirective::Public);
        } else if str_eq(s, "private") {
            return Ok(CacheDirective::Private);
        } else if str_eq(s, "proxy-revalidate") {
            return Ok(CacheDirective::ProxyRevalidate);
        }
        let n = s.unicode_len();
        if n == 0 {
            return Err(ParseError::MalformedDirective);
        }
        match find_char(s, '=') {
            None => Ok(CacheDirective::Extension(String::from_str(s), None)),
            Some(i) => {
                let name = s.substring_char(0, i);
                let rest = s.substring_char(i + 1, n);
                let value = trim_str(rest, true);
                proof {
                    assert(name@ =~= s@.take(i as int));
                    assert(rest@ =~= s@.skip(i + 1));
                }
                if rest.unicode_len() == 0 {
                    Err(ParseError::MalformedDirective)
                } else if str_eq(name, "max-age") {
                    match seconds(value) {
                        Ok(v) => Ok(CacheDirective::MaxAge(v)),
                        Err(e) => Err(e),
                    }
                } else if str_eq(name, "max-stale") {
                    match seconds(value) {
                        Ok(v) => Ok(CacheDirective::MaxStale(v)),
                        Err(e) => Err(e),
                    }
                } else if str_eq(name, "min-fresh") {
                    match seconds(value) {
                        Ok(v) => Ok(CacheDirective::MinFresh(v)),
                        Err(e) => Err(e),
                    }
                } else if str_eq(name, "s-maxage") {
                    match seconds(value) {
                        Ok(v) => Ok(CacheDirective::SMaxAge(v)),
                        Err(e) => Err(e),
                    }
                } else {
                    Ok(
                        CacheDirective::Extension(
                            String::from_str(name),
                            Some(String::from_str(value)),
                        ),
                    )
                }
            },
        }
    }

    /// The wire form of this directive.
    pub fn to_string(&self) -> (r: String)
        ensures
            r@ == fmt_directive(self@),
    {
        match self {
            CacheDirective::NoCache => String::from_str("no-cache"),
            CacheDirective::NoStore => String::from_str("no-store"),
            CacheDirective::NoTransform => String::from_str("no-transform"),
            CacheDirective::OnlyIfCached => String::from_str("only-if-cached"),
            CacheDirective::MaxAge(n) => name_value_str("max-age", fmt_decimal(*n as u64).as_str()),
            CacheDirective::MaxStale(n) => name_value_str(
                "max-stale",
                fmt_decimal(*n as u64).as_str(),
            ),
            CacheDirective::MinFresh(n) => name_value_str(
                "min-fresh",
                fmt_decimal(*n as u64).as_str(),
            ),
            CacheDirective::MustRevalidate => String::from_str("must-revalidate"),
            CacheDirective::Public => String::from_str("public"),
            CacheDirective::Private => String::from_str("private"),
            CacheDirective::ProxyRevalidate => String::from_str("proxy-revalidate"),
            CacheDirective::SMaxAge(n) => name_value_str("s-maxage", fmt_decimal(*n as u64).as_str()),
            CacheDirective::Extension(name, None) => String::from_str(name.as_str()),
            CacheDirective::Extension(name, Some(arg)) => name_value_str(name.as_str(), arg.as_str()),
        }
    }
}

/// The `Cache-Control` header: its directives in wire order.
#[derive(PartialEq, Clone, Debug)]
pub struct CacheControl(pub Vec<CacheDirective>);

pub open spec fn directive_views(ds: Seq<CacheDirective>) -> Seq<DirectiveModel> {
    ds.map_values(|d: CacheDirective| d@)
}

impl View for CacheControl {
    type V = Seq<DirectiveModel>;

    open spec fn view(&self) -> Seq<DirectiveModel> {
        directive_views(self.0@)
    }
}

pub open spec fn list_view(r: Result<Vec<CacheDirective>, ParseError>) -> Result<Seq<DirectiveModel>, ParseError> {
    match r {
        Ok(ds) => Ok(directive_views(ds@)),
        Err(e) => Err(e),
    }
}

pub open spec fn header_view(r: Result<CacheControl, ParseError>) -> Result<Seq<DirectiveModel>, ParseError> {
    match r {
        Ok(h) => Ok(h@),
        Err(e) => Err(e),
    }
}

/// The directives of one logical value: split on `,`, each segment trimmed
/// and read as a directive.
pub fn parse_directive_list(s: &str) -> (r: Result<Vec<CacheDirective>, ParseError>)
    ensures
        list_view(r) == parse_list(s@),
{
    let parts = split_str(s, ',');
    let ghost segs = views(parts@);
    let mut out: Vec<CacheDirective> = Vec::new();
    let mut i: usize = 0;
    assert(segs.take(0) =~= Seq::<Seq<char>>::empty());
    assert(directive_views(out@) =~= Seq::<DirectiveModel>::empty());
    while i < parts.len()
        invariant
            segs == views(parts@),
            segs == split(s@, ','),
            i <= parts@.len(),
            parse_items(segs.take(i as int), directive_item()) == Ok::<Seq<DirectiveModel>, ParseError>(
                directive_views(out@),
            ),
        decreases parts@.len() - i,
    {
        let seg = trim_str(parts[i], false);
        proof {
            assert(segs.take(i + 1).drop_last() =~= segs.take(i as int));
            assert(segs.take(i + 1).last() == parts@[i as int]@);
        }
        match CacheDirective::from_str(seg) {
            Ok(d) => {
                let ghost pre = directive_views(out@);
                out.push(d);
                assert(directive_views(out@) =~= pre.push(d@));
            },
            Err(e) => {
                proof {
                    assert(parse_items(segs.take(i + 1), directive_item()) == Err::<
                        Seq<DirectiveModel>,
                        ParseError,
                    >(e));
                    lemma_items_error(segs, directive_item(), i as int + 1);
                }
                return Err(e);
            },
        }
        i = i + 1;
    }
    assert(segs.take(parts@.len() as int) =~= segs);
    Ok(out)
}

/// Two lines of a header read as one line holding both, joined by `", "`.
pub proof fn lemma_multi_line_merge(a: Seq<char>, b: Seq<char>)
    ensures
        parse_cache_control(seq![a, b]) == parse_cache_control(seq![a + line_separator() + b]),
{
    lemma_merge_two_lines(a, b);
}

/// Reading back the formatted value of a non-empty list of wire-safe
/// directives gives the same list.
pub proof fn lemma_cache_control_round_trip(v: Seq<DirectiveModel>)
    requires
        v.len() > 0,
        forall|i: int| 0 <= i < v.len() ==> wire_safe(#[trigger] v[i]),
    ensures
        parse_cache_control(seq![fmt_directives(v)]) == Ok::<Seq<DirectiveModel>, ParseError>(v),
{
    assert forall|i: int| 0 <= i < v.len() implies wire_piece(#[trigger] directive_text()(v[i]))
        && directive_item()(directive_text()(v[i])) == Ok::<DirectiveModel, ParseError>(v[i]) by {
        lemma_directive_round_trip(v[i]);
    }
    lemma_list_round_trip(v, directive_text(), directive_item());
    let line = fmt_directives(v);
    assert(seq![line][0] == line);
    assert(join_lines(seq![line]) == line);
}

impl CacheControl {
    /// The field name, as written on the wire.
    pub fn header_name() -> (r: &'static str)
        ensures
            r@ == "Cache-Control"@,
    {
        "Cache-Control"
    }

    /// Reads the header from its lines, which are taken as one list joined
    /// by `", "`. A blank joined value gives `MissingValue`.
    pub fn parse_header(raw: &Raw) -> (r: Result<CacheControl, ParseError>)
        ensures
            header_view(r) == parse_cache_control(raw@),
    {
        let joined = raw.joined();
        if trim_str(joined.as_str(), false).unicode_len() == 0 {
            return Err(ParseError::MissingValue);
        }
        match parse_directive_list(joined.as_str()) {
            Ok(ds) => Ok(CacheControl(ds)),
            Err(e) => Err(e),
        }
    }

    /// The header's value on one line: the directives joined by `", "`.
    pub fn fmt_header(&self) -> (r: String)
        ensures
            r@ == fmt_directives(self@),
    {
        let ghost f = self@.map_values(directive_text());
        let n = self.0.len();
        if n == 0 {
            let r = String::new();
            assert(r@ =~= fmt_directives(self@));
            return r;
        }
        let mut r = self.0[0].to_string();
        let mut i: usize = 1;
        assert(f.take(1).len() == 1);
        assert(f.take(1)[0] == f[0]);
        while i < n
            invariant
                n == self.0@.len(),
                f == self@.map_values(directive_text()),
                1 <= i <= n,
                r@ == join_lines(f.take(i as int)),
            decreases n - i,
        {
            r.append(", ");
            let item = self.0[i].to_string();
            r.append(item.as_str());
            proof {
                reveal_strlit(", ");
                assert(", "@ =~= crate::raw::line_separator());
                assert(f.take(i + 1).drop_last() =~= f.take(i as int));
            }
            i = i + 1;
        }
        assert(f.take(n as int) =~= f);
        r
    }
}

} // verus!
