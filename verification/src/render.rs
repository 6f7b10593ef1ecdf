//! Turning search results into output lines: for each match, the source
//! identifier, a colon, the 1-based line number in decimal, a space, and
//! the trimmed line contents.

use vstd::prelude::*;
use vstd::string::StrSliceExecFns;
use vstd::string::StringExecFns;

use crate::engine::search;
use crate::engine::search_spec;
use crate::engine::SearchResult;

verus! {

/// The decimal digit character for a value between 0 and 9.
pub open spec fn dec_digit(d: int) -> char {
    if d == 0 {
        '0'
    } else if d == 1 {
        '1'
    } else if d == 2 {
        '2'
    } else if d == 3 {
        '3'
    } else if d == 4 {
        '4'
    } else if d == 5 {
        '5'
    } else if d == 6 {
        '6'
    } else if d == 7 {
        '7'
    } else if d == 8 {
        '8'
    } else {
        '9'
    }
}

/// The usual decimal rendering of a non-negative integer: no sign, no
/// leading zeroes (except for the single digit of zero itself).
pub open spec fn dec_str(n: int) -> Seq<char>
    decreases n,
{
    if n <= 9 {
        seq![dec_digit(n)]
    } else {
        dec_str(n / 10).push(dec_digit(n % 10))
    }
}

/// Appends the single digit character for `d` to `s`.
fn push_digit(s: &mut String, d: usize)
    requires
        d < 10,
    ensures
        final(s)@ == old(s)@.push(dec_digit(d as int)),
{
    let digits = "0123456789";
    proof {
        reveal_strlit("0123456789");
    }
    let ds = digits.substring_char(d, d + 1);
    proof {
        assert(ds@ =~= seq![dec_digit(d as int)]);
    }
    s.append(ds);
    proof {
        assert(s@ =~= old(s)@.push(dec_digit(d as int)));
    }
}

/// Appends the decimal rendering of `n` to `s`.
fn push_dec(s: &mut String, n: usize)
    ensures
        final(s)@ == old(s)@ + dec_str(n as int),
    decreases n,
{
    if n <= 9 {
        push_digit(s, n);
        proof {
            assert(old(s)@.push(dec_digit(n as int)) =~= old(s)@ + dec_str(n as int));
        }
    } else {
        push_dec(s, n / 10);
        push_digit(s, n % 10);
        proof {
            assert((old(s)@ + dec_str(n as int / 10)).push(dec_digit(n as int % 10)) =~= old(s)@
                + dec_str(n as int));
        }
    }
}

/// One line of output: the source identifier, a colon, the decimal line
/// number, a space, and the line contents.
pub open spec fn rendered(source: Seq<char>, line_number: int, contents: Seq<char>) -> Seq<char> {
    source + seq![':'] + dec_str(line_number) + seq![' '] + contents
}

/// Formats one search result as the output line
/// `<source>:<line_number> <contents>`.
pub fn render_result(source: &str, result: &SearchResult) -> (out: String)
    ensures
        out@ == rendered(source@, result.line_number as int, result.contents@),
{
    let mut out = String::from_str(source);
    out.append(":");
    push_dec(&mut out, result.line_number);
    out.append(" ");
    out.append(result.contents.as_str());
    proof {
        reveal_strlit(":");
        reveal_strlit(" ");
        assert(out@ =~= rendered(source@, result.line_number as int, result.contents@));
    }
    out
}

/// The pure heart of a run: searches `text` for `query` and returns the
/// finished output lines, one per match and in match order, each reading
/// `<source>:<line_number> <contents>`. The caller reads the source and
/// prints the lines.
pub fn run_lines(source: &str, query: &str, text: &str) -> (out: Vec<String>)
    ensures
        out@.len() == search_spec(query@, text@).len(),
        forall|k: int| 0 <= k < out@.len() ==> (#[trigger] out@[k])@ == rendered(
            source@,
            search_spec(query@, text@)[k].0,
            search_spec(query@, text@)[k].1,
        ),
{
    let results = search(query, text);
    let mut out: Vec<String> = Vec::new();
    let mut i: usize = 0;
    while i < results.len()
        invariant
            results@.len() == search_spec(query@, text@).len(),
            forall|k: int| 0 <= k < results@.len() ==> {
                &&& (#[trigger] results@[k]).line_number as int == search_spec(query@, text@)[k].0
                &&& results@[k].contents@ == search_spec(query@, text@)[k].1
            },
            i <= results@.len(),
            out@.len() == i,
            forall|k: int| 0 <= k < i ==> (#[trigger] out@[k])@ == rendered(
                source@,
                search_spec(query@, text@)[k].0,
                search_spec(query@, text@)[k].1,
            ),
        decreases results@.len() - i,
    {
        let line = render_result(source, &results[i]);
        out.push(line);
        i += 1;
    }
    out
}

} // verus!
