//! The comma-separated list grammar shared by list-valued headers: the
//! logical value is split on `,`, each segment is trimmed and read by the
//! header's own item parser, and the first bad segment fails the whole list.
use vstd::prelude::*;
use crate::error::ParseError;
use crate::raw::join_lines;
use crate::text::{
    trim_ws, split, wire_piece, lemma_split_single, lemma_split_append, lemma_trim_noop,
    lemma_trim_nonempty,
};

verus! {

/// The items written by the segments `segs`, each trimmed and read by
/// `item`; the first segment that is no item decides the error.
pub open spec fn parse_items<T>(
    segs: Seq<Seq<char>>,
    item: spec_fn(Seq<char>) -> Result<T, ParseError>,
) -> Result<Seq<T>, ParseError>
    decreases segs.len(),
{
    if segs.len() == 0 {
        Ok(Seq::empty())
    } else {
        match parse_items(segs.drop_last(), item) {
            Err(e) => Err(e),
            Ok(xs) => match item(trim_ws(segs.last())) {
                Ok(x) => Ok(xs.push(x)),
                Err(e) => Err(e),
            },
        }
    }
}

/// The items of one logical value; a blank value is a missing one.
pub open spec fn parse_list_value<T>(
    s: Seq<char>,
    item: spec_fn(Seq<char>) -> Result<T, ParseError>,
) -> Result<Seq<T>, ParseError> {
    if trim_ws(s).len() == 0 {
        Err(ParseError::MissingValue)
    } else {
        parse_items(split(s, ','), item)
    }
}

/// The wire form of a list: each item formatted by `fmt`, joined by `", "`.
pub open spec fn join_items<T>(v: Seq<T>, fmt: spec_fn(T) -> Seq<char>) -> Seq<char> {
    join_lines(v.map_values(fmt))
}

/// An error in the first `k` segments is the error of the whole list.
pub proof fn lemma_items_error<T>(
    segs: Seq<Seq<char>>,
    item: spec_fn(Seq<char>) -> Result<T, ParseError>,
    k: int,
)
    requires
        0 <= k <= segs.len(),
        parse_items(segs.take(k), item) is Err,
    ensures
        parse_items(segs, item) == parse_items(segs.take(k), item),
    decreases segs.len() - k,
{
    if k < segs.len() {
        assert(segs.take(k + 1).drop_last() =~= segs.take(k));
        lemma_items_error(segs, item, k + 1);
    } else {
        assert(segs.take(k) =~= segs);
    }
}

/// The first `k` formatted items, joined, split back into the first `k` items.
pub proof fn lemma_items_read_back<T>(
    v: Seq<T>,
    fmt: spec_fn(T) -> Seq<char>,
    item: spec_fn(Seq<char>) -> Result<T, ParseError>,
    k: int,
)
    requires
        1 <= k <= v.len(),
        forall|i: int|
            0 <= i < v.len() ==> wire_piece(#[trigger] fmt(v[i])) && item(fmt(v[i])) == Ok::<
                T,
                ParseError,
            >(v[i]),
    ensures
        parse_items(split(join_lines(v.map_values(fmt).take(k)), ','), item) == Ok::<
            Seq<T>,
            ParseError,
        >(v.take(k)),
        trim_ws(join_lines(v.map_values(fmt).take(k))).len() > 0,
    decreases k,
{
    let f = v.map_values(fmt);
    let g = f.take(k);
    let last = f[k - 1];
    assert(last == fmt(v[k - 1]));
    assert(g.last() == last);
    lemma_trim_noop(last, false);
    if k == 1 {
        assert(join_lines(g) == last);
        lemma_split_single(last, ',');
        assert(seq![last].drop_last() =~= Seq::<Seq<char>>::empty());
        assert(seq![last].last() == last);
        assert(Seq::<T>::empty().push(v[0]) =~= v.take(1));
        lemma_trim_nonempty(last, 0, false);
        assert(split(join_lines(g), ',') == seq![last]);
        assert(parse_items(Seq::<Seq<char>>::empty(), item) == Ok::<Seq<T>, ParseError>(
            Seq::empty(),
        ));
        assert(parse_items(seq![last], item) == Ok::<Seq<T>, ParseError>(v.take(1)));
    } else {
        lemma_items_read_back(v, fmt, item, k - 1);
        let prev = join_lines(f.take(k - 1));
        let y = seq![' '] + last;
        assert(g.drop_last() =~= f.take(k - 1));
        assert(join_lines(g) =~= prev + seq![','] + y);
        lemma_split_append(prev, y, ',');
        assert forall|i: int| 0 <= i < y.len() implies y[i] != ',' by {
            if i > 0 {
                assert(y[i] == last[i - 1]);
            }
        }
        lemma_split_single(y, ',');
        let segs = split(prev, ',') + seq![y];
        assert(segs.drop_last() =~= split(prev, ','));
        assert(segs.last() == y);
        assert(y.drop_first() =~= last);
        assert(trim_ws(y) == last);
        assert(v.take(k - 1).push(v[k - 1]) =~= v.take(k));
        assert((prev + seq![','] + y)[prev.len() as int] == ',');
        lemma_trim_nonempty(prev + seq![','] + y, prev.len() as int, false);
        assert(split(join_lines(g), ',') == segs);
        assert(parse_items(segs, item) == Ok::<Seq<T>, ParseError>(v.take(k)));
    }
}

/// A non-empty list whose items each format to a list piece that reads
/// back as the item reads back as itself.
pub proof fn lemma_list_round_trip<T>(
    v: Seq<T>,
    fmt: spec_fn(T) -> Seq<char>,
    item: spec_fn(Seq<char>) -> Result<T, ParseError>,
)
    requires
        v.len() > 0,
        forall|i: int|
            0 <= i < v.len() ==> wire_piece(#[trigger] fmt(v[i])) && item(fmt(v[i])) == Ok::<
                T,
                ParseError,
            >(v[i]),
    ensures
        parse_list_value(join_items(v, fmt), item) == Ok::<Seq<T>, ParseError>(v),
{
    lemma_items_read_back(v, fmt, item, v.len() as int);
    assert(v.map_values(fmt).take(v.len() as int) =~= v.map_values(fmt));
    assert(v.take(v.len() as int) =~= v);
}

} // verus!
