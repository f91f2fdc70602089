//! A header value as it arrives: one string per physical header line.
use vstd::prelude::*;
use vstd::string::*;
use crate::error::ParseError;

verus! {

/// The separator placed between lines when they are read as one list.
pub open spec fn line_separator() -> Seq<char> {
    seq![',', ' ']
}

/// All lines read as one logical value, joined by `", "` in arrival order.
pub open spec fn join_lines(lines: Seq<Seq<char>>) -> Seq<char>
    decreases lines.len(),
{
    if lines.len() == 0 {
        Seq::empty()
    } else if lines.len() == 1 {
        lines[0]
    } else {
        join_lines(lines.drop_last()) + line_separator() + lines.last()
    }
}

/// Two lines carry the same logical value as the single line that joins
/// them.
pub proof fn lemma_merge_two_lines(a: Seq<char>, b: Seq<char>)
    ensures
        join_lines(seq![a, b]) == join_lines(seq![a + line_separator() + b]),
{
    let j = a + line_separator() + b;
    assert(seq![j][0] == j);
    assert(seq![a, b][0] == a);
    assert(seq![a, b][1] == b);
    assert(seq![a, b].drop_last() =~= seq![a]);
    assert(join_lines(seq![a]) == a);
    assert(seq![a, b].last() == b);
    assert(join_lines(seq![j]) == j);
}

/// The physical lines of one header, in the order they arrived.
pub struct Raw {
    lines: Vec<String>,
}

impl View for Raw {
    type V = Seq<Seq<char>>;

    closed spec fn view(&self) -> Seq<Seq<char>> {
        self.lines@.map_values(|l: String| l@)
    }
}

impl Raw {
    /// A value made of the given lines.
    pub fn new(lines: Vec<String>) -> (r: Raw)
        ensures
            r@ == lines@.map_values(|l: String| l@),
    {
        Raw { lines }
    }

    /// A value made of one line.
    pub fn from_line(line: &str) -> (r: Raw)
        ensures
            r@ == seq![line@],
    {
        let mut lines: Vec<String> = Vec::new();
        lines.push(line.to_owned());
        let r = Raw { lines };
        assert(r@ =~= seq![line@]);
        r
    }

    /// Number of physical lines.
    pub fn len(&self) -> (r: usize)
        ensures
            r == self@.len(),
    {
        self.lines.len()
    }

    /// The only line, for single-valued headers.
    pub fn one(&self) -> (r: Result<&str, ParseError>)
        ensures
            self@.len() == 1 ==> (r matches Ok(l) && l@ == self@[0]),
            self@.len() != 1 ==> r == Err::<&str, ParseError>(ParseError::WrongLineCount),
    {
        if self.lines.len() == 1 {
            Ok(self.lines[0].as_str())
        } else {
            Err(ParseError::WrongLineCount)
        }
    }

    /// All lines as one logical value, joined by `", "`.
    pub fn joined(&self) -> (r: String)
        ensures
            r@ == join_lines(self@),
    {
        let n = self.lines.len();
        if n == 0 {
            let r = String::new();
            assert(r@ =~= join_lines(self@));
            return r;
        }
        let mut r = String::from_str(self.lines[0].as_str());
        let mut i: usize = 1;
        proof {
            assert(self@[0] == self.lines@[0]@);
            assert(self@.take(1).len() == 1);
        }
        while i < n
            invariant
                n == self@.len(),
                1 <= i <= n,
                r@ == join_lines(self@.take(i as int)),
            decreases n - i,
        {
            r.append(", ");
            r.append(self.lines[i].as_str());
            proof {
                assert(self@[i as int] == self.lines@[i as int]@);
                reveal_strlit(", ");
                assert(", "@ =~= line_separator());
                assert(self@.take(i + 1).drop_last() =~= self@.take(i as int));
            }
            i = i + 1;
        }
        assert(self@.take(n as int) =~= self@);
        r
    }
}

} // verus!
