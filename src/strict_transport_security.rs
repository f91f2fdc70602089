//! The `Strict-Transport-Security` header: `;`-separated directives folded
//! into one record, where a repeated directive is a conflict and an unknown
//! one is ignored.
use vstd::prelude::*;
use vstd::string::*;
use crate::error::ParseError;
use crate::raw::Raw;
use crate::text::{
    lemma_decimal_str, lemma_decimal_round_trip, lemma_find_at, lemma_split_append,
    lemma_split_single, lemma_trim_noop, lemma_trim_nonempty, ascii_lower,
    trim_ws, unquote, split, find, decimal_of, decimal_str, eq_ignore_ascii_case, views, trim_str,
    find_char, split_str, parse_decimal, fmt_decimal, str_eq_ignore_ascii_case,
};

verus! {

/// The HSTS policy of a host.
#[derive(Clone, Copy, PartialEq, Eq, Debug, Structural)]
pub struct StrictTransportSecurity {
    /// Whether the policy covers the host's subdomains too.
    pub include_subdomains: bool,
    /// How many seconds the policy holds after the header was received.
    pub max_age: u64,
}

/// What one `;`-separated segment says.
#[derive(Clone, Copy, PartialEq, Eq, Debug, Structural)]
pub enum HstsDirective {
    MaxAge(u64),
    IncludeSubdomains,
    Unknown,
}

/// Directives read so far: the max-age, if seen, and whether
/// includeSubdomains was seen.
pub type HstsState = (Option<u64>, bool);

/// The directive written as the trimmed segment `t`. Names match in any
/// ASCII case; anything unrecognised is `Unknown`.
pub open spec fn classify(t: Seq<char>) -> Result<HstsDirective, ParseError> {
    if eq_ignore_ascii_case(t, "includeSubdomains"@) {
        Ok(HstsDirective::IncludeSubdomains)
    } else {
        match find(t, '=') {
            Some(i) => if eq_ignore_ascii_case(trim_ws(t.take(i)), "max-age"@) {
                match decimal_of(unquote(trim_ws(t.skip(i + 1))), u64::MAX as nat) {
                    Some(n) => Ok(HstsDirective::MaxAge(n as u64)),
                    None => Err(ParseError::MalformedDirective),
                }
            } else {
                Ok(HstsDirective::Unknown)
            },
            None => Ok(HstsDirective::Unknown),
        }
    }
}

/// One step of the fold: a second max-age or a second includeSubdomains
/// is a conflict.
pub open spec fn accumulate(st: HstsState, d: Result<HstsDirective, ParseError>) -> Result<HstsState, ParseError> {
    match d {
        Err(e) => Err(e),
        Ok(HstsDirective::MaxAge(n)) => if st.0 is Some {
            Err(ParseError::ConflictingDirective)
        } else {
            Ok((Some(n), st.1))
        },
        Ok(HstsDirective::IncludeSubdomains) => if st.1 {
            Err(ParseError::ConflictingDirective)
        } else {
            Ok((st.0, true))
        },
        Ok(HstsDirective::Unknown) => Ok(st),
    }
}

/// The directives of `segs` folded left to right; the first error stays.
pub open spec fn fold_segments(segs: Seq<Seq<char>>) -> Result<HstsState, ParseError>
    decreases segs.len(),
{
    if segs.len() == 0 {
        Ok((None, false))
    } else {
        match fold_segments(segs.drop_last()) {
            Err(e) => Err(e),
            Ok(st) => accumulate(st, classify(trim_ws(segs.last()))),
        }
    }
}

/// The policy written on one line: blank is a missing value, and a line
/// without a max-age is malformed.
pub open spec fn parse_hsts_line(s: Seq<char>) -> Result<StrictTransportSecurity, ParseError> {
    if trim_ws(s).len() == 0 {
        Err(ParseError::MissingValue)
    } else {
        match fold_segments(split(s, ';')) {
            Err(e) => Err(e),
            Ok((None, _)) => Err(ParseError::MalformedDirective),
            Ok((Some(n), sub)) => Ok(StrictTransportSecurity { max_age: n, include_subdomains: sub }),
        }
    }
}

/// The policy carried by the given lines; it must arrive on exactly one.
pub open spec fn parse_hsts(lines: Seq<Seq<char>>) -> Result<StrictTransportSecurity, ParseError> {
    if lines.len() != 1 {
        Err(ParseError::WrongLineCount)
    } else {
        parse_hsts_line(lines[0])
    }
}

/// The wire form: `max-age=<n>`, then `; includeSubdomains` where it applies.
pub open spec fn fmt_hsts(v: StrictTransportSecurity) -> Seq<char> {
    "max-age="@ + decimal_str(v.max_age as nat) + if v.include_subdomains {
        "; includeSubdomains"@
    } else {
        Seq::<char>::empty()
    }
}

fn classify_segment(t: &str) -> (r: Result<HstsDirective, ParseError>)
    ensures
        r == classify(t@),
{
    if str_eq_ignore_ascii_case(t, "includeSubdomains") {
        return Ok(HstsDirective::IncludeSubdomains);
    }
    match find_char(t, '=') {
        Some(i) => {
            let n = t.unicode_len();
            let left = t.substring_char(0, i);
            let right = t.substring_char(i + 1, n);
            proof {
                assert(left@ =~= t@.take(i as int));
                assert(right@ =~= t@.skip(i + 1));
            }
            if str_eq_ignore_ascii_case(trim_str(left, false), "max-age") {
                let value = trim_str(trim_str(right, false), true);
                match parse_decimal(value, 0xffff_ffff_ffff_ffff) {
                    Some(v) => Ok(HstsDirective::MaxAge(v)),
                    None => Err(ParseError::MalformedDirective),
                }
            } else {
                Ok(HstsDirective::Unknown)
            }
        },
        None => Ok(HstsDirective::Unknown),
    }
}

/// An error in the first `k` segments is the error of the whole fold.
pub proof fn lemma_fold_error(segs: Seq<Seq<char>>, k: int)
    requires
        0 <= k <= segs.len(),
        fold_segments(segs.take(k)) is Err,
    ensures
        fold_segments(segs) == fold_segments(segs.take(k)),
    decreases segs.len() - k,
{
    if k < segs.len() {
        assert(segs.take(k + 1).drop_last() =~= segs.take(k));
        lemma_fold_error(segs, k + 1);
    } else {
        assert(segs.take(k) =~= segs);
    }
}

/// Reading back the formatted policy gives the same policy, for every value.
pub proof fn lemma_hsts_round_trip(v: StrictTransportSecurity)
    ensures
        parse_hsts(seq![fmt_hsts(v)]) == Ok::<StrictTransportSecurity, ParseError>(v),
{
    reveal_strlit("max-age=");
    reveal_strlit("max-age");
    reveal_strlit("includeSubdomains");
    reveal_strlit("; includeSubdomains");
    let n = v.max_age as nat;
    let d = decimal_str(n);
    lemma_decimal_str(n);
    lemma_decimal_round_trip(n, u64::MAX as nat);
    let key = "max-age"@;
    let inc = "includeSubdomains"@;
    let m = "max-age="@ + d;
    let w = seq![' '] + inc;
    let s = fmt_hsts(v);
    assert(m[0] == 'm');
    assert(m.last() == d.last());
    assert(d[0] != ' ' && d[0] != '"');
    assert(d.last() == d[d.len() - 1]);
    lemma_trim_noop(m, false);
    lemma_trim_noop(d, false);
    lemma_trim_noop(d, true);
    lemma_trim_noop(key, false);
    assert forall|i: int| 0 <= i < m.len() implies m[i] != ';' by {
        if i >= 8 {
            assert(m[i] == d[i - 8]);
        }
    }
    lemma_split_single(m, ';');
    assert forall|k: int| 0 <= k < 7 implies m[k] != '=' by {}
    lemma_find_at(m, '=', 7);
    assert(m.take(7) =~= key);
    assert(m.skip(8) =~= d);
    assert(eq_ignore_ascii_case(key, key));
    assert(ascii_lower(m[0]) != ascii_lower(inc[0]));
    assert(!eq_ignore_ascii_case(m, inc));
    assert(classify(m) == Ok::<HstsDirective, ParseError>(HstsDirective::MaxAge(v.max_age)));
    lemma_trim_nonempty(s, 0, false);
    assert(s[0] == 'm');
    assert(seq![m].last() == m);
    assert(trim_ws(m) == m);
    assert(fold_segments(Seq::<Seq<char>>::empty()) == Ok::<HstsState, ParseError>((None, false)));
    if v.include_subdomains {
        assert(s =~= m + seq![';'] + w);
        lemma_split_append(m, w, ';');
        assert forall|i: int| 0 <= i < w.len() implies w[i] != ';' by {
            if i >= 1 {
                assert(w[i] == inc[i - 1]);
            }
        }
        lemma_split_single(w, ';');
        assert(split(s, ';') =~= seq![m, w]);
        assert(w.drop_first() =~= inc);
        lemma_trim_noop(inc, false);
        assert(trim_ws(w) == inc);
        assert(eq_ignore_ascii_case(inc, inc));
        assert(seq![m, w].drop_last() =~= seq![m]);
        assert(seq![m].drop_last() =~= Seq::<Seq<char>>::empty());
        assert(fold_segments(seq![m]) == Ok::<HstsState, ParseError>((Some(v.max_age), false)));
        assert(classify(inc) == Ok::<HstsDirective, ParseError>(HstsDirective::IncludeSubdomains));
        assert(fold_segments(seq![m, w]) == Ok::<HstsState, ParseError>((Some(v.max_age), true)));
    } else {
        assert(s =~= m);
        assert(seq![m].drop_last() =~= Seq::<Seq<char>>::empty());
        assert(fold_segments(seq![m]) == Ok::<HstsState, ParseError>((Some(v.max_age), false)));
    }
    assert(seq![s][0] == s);
}

impl StrictTransportSecurity {
    /// A policy that covers subdomains.
    pub fn including_subdomains(max_age: u64) -> (r: StrictTransportSecurity)
        ensures
            r.max_age == max_age,
            r.include_subdomains,
    {
        StrictTransportSecurity { max_age: max_age, include_subdomains: true }
    }

    /// A policy for the host alone.
    pub fn excluding_subdomains(max_age: u64) -> (r: StrictTransportSecurity)
        ensures
            r.max_age == max_age,
            !r.include_subdomains,
    {
        StrictTransportSecurity { max_age: max_age, include_subdomains: false }
    }

    /// The field name, as written on the wire.
    pub fn header_name() -> (r: &'static str)
        ensures
            r@ == "Strict-Transport-Security"@,
    {
        "Strict-Transport-Security"
    }

    /// Reads the policy from one line.
    pub fn from_str(s: &str) -> (r: Result<StrictTransportSecurity, ParseError>)
        ensures
            r == parse_hsts_line(s@),
    {
        if trim_str(s, false).unicode_len() == 0 {
            return Err(ParseError::MissingValue);
        }
        let parts = split_str(s, ';');
        let ghost segs = views(parts@);
        let mut max_age: Option<u64> = None;
        let mut sub = false;
        let mut i: usize = 0;
        assert(segs.take(0) =~= Seq::<Seq<char>>::empty());
        while i < parts.len()
            invariant
                segs == views(parts@),
                segs == split(s@, ';'),
                trim_ws(s@).len() != 0,
                i <= parts@.len(),
                fold_segments(segs.take(i as int)) == Ok::<HstsState, ParseError>((max_age, sub)),
            decreases parts@.len() - i,
        {
            let seg = trim_str(parts[i], false);
            proof {
                assert(segs.take(i + 1).drop_last() =~= segs.take(i as int));
                assert(segs.take(i + 1).last() == parts@[i as int]@);
            }
            let d = classify_segment(seg);
            let ghost next = accumulate((max_age, sub), d);
            match d {
                Err(e) => {
                    proof {
                        lemma_fold_error(segs, i + 1);
                    }
                    return Err(e);
                },
                Ok(HstsDirective::MaxAge(n)) => {
                    if max_age.is_some() {
                        proof {
                            lemma_fold_error(segs, i + 1);
                        }
                        return Err(ParseError::ConflictingDirective);
                    }
                    max_age = Some(n);
                },
                Ok(HstsDirective::IncludeSubdomains) => {
                    if sub {
                        proof {
                            lemma_fold_error(segs, i + 1);
                        }
                        return Err(ParseError::ConflictingDirective);
                    }
                    sub = true;
                },
                Ok(HstsDirective::Unknown) => {},
            }
            i = i + 1;
        }
        assert(segs.take(parts@.len() as int) =~= segs);
        match max_age {
            Some(n) => Ok(StrictTransportSecurity { max_age: n, include_subdomains: sub }),
            None => Err(ParseError::MalformedDirective),
        }
    }

    /// Reads the policy from a header that must have exactly one line.
    pub fn parse_header(raw: &Raw) -> (r: Result<StrictTransportSecurity, ParseError>)
        ensures
            r == parse_hsts(raw@),
    {
        match raw.one() {
            Ok(line) => StrictTransportSecurity::from_str(line),
            Err(e) => Err(e),
        }
    }

    /// The header's value on one line.
    pub fn fmt_header(&self) -> (r: String)
        ensures
            r@ == fmt_hsts(*self),
    {
        let mut r = String::from_str("max-age=");
        let digits = fmt_decimal(self.max_age);
        r.append(digits.as_str());
        if self.include_subdomains {
            r.append("; includeSubdomains");
        }
        assert(r@ =~= fmt_hsts(*self));
        r
    }
}

} // verus!
