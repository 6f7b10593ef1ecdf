//! The search engine: a pure function from (query, text) to the ordered
//! sequence of matching lines.
//!
//! The text is split into lines on `'\n'`, with no trailing empty line when
//! the text ends in a newline. A line matches when it contains the query as
//! a contiguous, case-sensitive substring; the empty query matches every
//! line. Each match is reported with its 1-based line number, counted over
//! the original text, and with its contents stripped of leading whitespace
//! only.

use vstd::prelude::*;
use vstd::string::StrSliceExecFns;

verus! {

/// One matching line: its 1-based position among the lines of the original
/// text, and its contents with the leading run of whitespace removed.
#[derive(Debug)]
pub struct SearchResult {
    pub line_number: usize,
    pub contents: String,
}

impl PartialEq for SearchResult {
    /// Two results are equal exactly when both the line number and the
    /// contents are equal.
    fn eq(&self, other: &Self) -> bool {
        self.line_number == other.line_number && self.contents == other.contents
    }
}

impl vstd::std_specs::cmp::PartialEqSpecImpl for SearchResult {
    open spec fn obeys_eq_spec() -> bool {
        true
    }

    open spec fn eq_spec(&self, other: &Self) -> bool {
        self.line_number == other.line_number && self.contents@ == other.contents@
    }
}

/// The characters that count as whitespace when a matching line is trimmed:
/// the Unicode white-space characters, as listed in the Unicode character
/// database.
pub open spec fn is_space_char(c: char) -> bool {
    ||| c == ' '
    ||| c == '\t'
    ||| c == '\n'
    ||| c == '\r'
    ||| c == '\u{000B}'
    ||| c == '\u{000C}'
    ||| c == '\u{0085}'
    ||| c == '\u{00A0}'
    ||| c == '\u{1680}'
    ||| c == '\u{2000}'
    ||| c == '\u{2001}'
    ||| c == '\u{2002}'
    ||| c == '\u{2003}'
    ||| c == '\u{2004}'
    ||| c == '\u{2005}'
    ||| c == '\u{2006}'
    ||| c == '\u{2007}'
    ||| c == '\u{2008}'
    ||| c == '\u{2009}'
    ||| c == '\u{200A}'
    ||| c == '\u{2028}'
    ||| c == '\u{2029}'
    ||| c == '\u{202F}'
    ||| c == '\u{205F}'
    ||| c == '\u{3000}'
}

/// Decides [`is_space_char`] for a single character.
pub fn is_space(c: char) -> (r: bool)
    ensures
        r == is_space_char(c),
{
    c == ' ' || c == '\t' || c == '\n' || c == '\r'
        || c == '\u{000B}' || c == '\u{000C}' || c == '\u{0085}' || c == '\u{00A0}'
        || c == '\u{1680}' || c == '\u{2000}' || c == '\u{2001}' || c == '\u{2002}'
        || c == '\u{2003}' || c == '\u{2004}' || c == '\u{2005}' || c == '\u{2006}'
        || c == '\u{2007}' || c == '\u{2008}' || c == '\u{2009}' || c == '\u{200A}'
        || c == '\u{2028}' || c == '\u{2029}' || c == '\u{202F}' || c == '\u{205F}'
        || c == '\u{3000}'
}

/// `needle` occurs in `hay` starting exactly at position `i`.
pub open spec fn match_at(hay: Seq<char>, needle: Seq<char>, i: int) -> bool {
    &&& 0 <= i
    &&& i + needle.len() <= hay.len()
    &&& hay.subrange(i, i + needle.len() as int) == needle
}

/// `needle` occurs somewhere in `hay` as a contiguous substring. The empty
/// needle occurs in every sequence.
pub open spec fn contains_seq(hay: Seq<char>, needle: Seq<char>) -> bool {
    exists|i: int| match_at(hay, needle, i)
}

/// Checks whether `needle` occurs at position `i` of `hay`, comparing
/// character by character.
fn match_at_exec(hay: &str, needle: &str, i: usize, hay_len: usize, needle_len: usize) -> (r: bool)
    requires
        hay_len == hay@.len(),
        needle_len == needle@.len(),
        i + needle_len <= hay_len,
    ensures
        r == match_at(hay@, needle@, i as int),
{
    let mut j: usize = 0;
    while j < needle_len
        invariant
            hay_len == hay@.len(),
            needle_len == needle@.len(),
            i + needle_len <= hay_len,
            j <= needle_len,
            forall|t: int| 0 <= t < j ==> hay@[i + t] == needle@[t],
        decreases needle_len - j,
    {
        if hay.get_char(i + j) != needle.get_char(j) {
            proof {
                assert(hay@.subrange(i as int, i + needle@.len() as int)[j as int]
                    == hay@[i + j]);
            }
            return false;
        }
        j += 1;
    }
    proof {
        assert(hay@.subrange(i as int, i + needle@.len() as int) =~= needle@);
    }
    true
}

/// Decides [`contains_seq`]: does `hay` contain `needle` as a contiguous,
/// case-sensitive substring? The empty needle is contained in every string.
pub fn contains_substring(hay: &str, needle: &str) -> (r: bool)
    ensures
        r == contains_seq(hay@, needle@),
{
    let hay_len: usize = hay.unicode_len();
    let needle_len: usize = needle.unicode_len();
    if needle_len == 0 {
        proof {
            assert(hay@.subrange(0, 0) =~= needle@);
            assert(match_at(hay@, needle@, 0));
        }
        return true;
    }
    if needle_len > hay_len {
        return false;
    }
    let last: usize = hay_len - needle_len;
    let mut i: usize = 0;
    while i <= last
        invariant
            hay_len == hay@.len(),
            needle_len == needle@.len(),
            1 <= needle_len <= hay_len,
            last == hay_len - needle_len,
            i <= last + 1,
            forall|k: int| 0 <= k < i ==> !match_at(hay@, needle@, k),
        decreases last + 1 - i,
    {
        if match_at_exec(hay, needle, i, hay_len, needle_len) {
            proof {
                assert(contains_seq(hay@, needle@));
            }
            return true;
        }
        i += 1;
    }
    false
}

/// A sequence of characters with its leading run of whitespace removed.
/// Everything from the first non-whitespace character on, trailing and
/// interior whitespace included, is kept verbatim.
pub open spec fn trim_start_spec(s: Seq<char>) -> Seq<char>
    decreases s.len(),
{
    if s.len() > 0 && is_space_char(s[0]) {
        trim_start_spec(s.drop_first())
    } else {
        s
    }
}

/// The trimmed sequence is a suffix of the original: some leading run of
/// whitespace is removed, and the first kept character (if any) is not
/// whitespace. This is the whole effect of trimming; nothing after that
/// point changes.
pub proof fn lemma_trim_start_leading_only(s: Seq<char>)
    ensures
        exists|k: int|
            {
                &&& 0 <= k <= s.len()
                &&& (forall|j: int| 0 <= j < k ==> is_space_char(s[j]))
                &&& (k < s.len() ==> !is_space_char(s[k]))
                &&& trim_start_spec(s) == #[trigger] s.skip(k)
            },
    decreases s.len(),
{
    if s.len() > 0 && is_space_char(s[0]) {
        lemma_trim_start_leading_only(s.drop_first());
        let k0 = choose|k0: int|
            {
                &&& 0 <= k0 <= s.drop_first().len()
                &&& (forall|j: int| 0 <= j < k0 ==> is_space_char(s.drop_first()[j]))
                &&& (k0 < s.drop_first().len() ==> !is_space_char(s.drop_first()[k0]))
                &&& trim_start_spec(s.drop_first()) == #[trigger] s.drop_first().skip(k0)
            };
        assert forall|j: int| 0 <= j < k0 + 1 implies is_space_char(s[j]) by {
            if j > 0 {
                assert(s.drop_first()[j - 1] == s[j]);
            }
        }
        assert(s.drop_first().skip(k0) =~= s.skip(k0 + 1));
        assert({
            &&& 0 <= k0 + 1 <= s.len()
            &&& (forall|j: int| 0 <= j < k0 + 1 ==> is_space_char(s[j]))
            &&& (k0 + 1 < s.len() ==> !is_space_char(s[k0 + 1]))
            &&& trim_start_spec(s) == s.skip(k0 + 1)
        });
    } else {
        assert(s.skip(0) =~= s);
        assert({
            &&& 0 <= 0 <= s.len()
            &&& (forall|j: int| 0 <= j < 0 ==> is_space_char(s[j]))
            &&& (0 < s.len() ==> !is_space_char(s[0]))
            &&& trim_start_spec(s) == s.skip(0)
        });
    }
}

/// Returns an owned copy of `line` with its leading whitespace removed.
/// Trailing and interior whitespace are preserved verbatim.
pub fn trim_start_owned(line: &str) -> (r: String)
    ensures
        r@ == trim_start_spec(line@),
{
    let len: usize = line.unicode_len();
    let mut k: usize = 0;
    proof {
        assert(line@.skip(0) =~= line@);
    }
    while k < len && is_space(line.get_char(k))
        invariant
            len == line@.len(),
            k <= len,
            trim_start_spec(line@) == trim_start_spec(line@.skip(k as int)),
        decreases len - k,
    {
        proof {
            assert(line@.skip(k as int)[0] == line@[k as int]);
            assert(line@.skip(k as int).drop_first() =~= line@.skip(k as int + 1));
        }
        k += 1;
    }
    proof {
        if k == len {
            assert(line@.skip(k as int) =~= Seq::<char>::empty());
        } else {
            assert(line@.skip(k as int)[0] == line@[k as int]);
        }
        assert(trim_start_spec(line@) =~= line@.subrange(k as int, len as int));
    }
    line.substring_char(k, len).to_owned()
}

/// The index of the first `'\n'` in `s`, or `s.len()` when there is none.
pub open spec fn find_newline(s: Seq<char>) -> int
    decreases s.len(),
{
    if s.len() == 0 {
        0
    } else if s[0] == '\n' {
        0
    } else {
        1 + find_newline(s.drop_first())
    }
}

/// `find_newline` always lands inside the sequence (or just past its end).
pub proof fn lemma_find_newline_range(s: Seq<char>)
    ensures
        0 <= find_newline(s) <= s.len(),
    decreases s.len(),
{
    if s.len() > 0 && s[0] != '\n' {
        lemma_find_newline_range(s.drop_first());
    }
}

/// `find_newline` returns exactly the position `k` when everything before
/// `k` is newline-free and `k` is a newline or the end of the sequence.
pub proof fn lemma_find_newline_at(s: Seq<char>, k: int)
    requires
        0 <= k <= s.len(),
        forall|j: int| 0 <= j < k ==> s[j] != '\n',
        k < s.len() ==> s[k] == '\n',
    ensures
        find_newline(s) == k,
    decreases s.len(),
{
    if k > 0 {
        assert(s[0] != '\n');
        assert forall|j: int| 0 <= j < k - 1 implies s.drop_first()[j] != '\n' by {
            assert(s.drop_first()[j] == s[j + 1]);
        }
        if k - 1 < s.drop_first().len() {
            assert(s.drop_first()[k - 1] == s[k]);
        }
        lemma_find_newline_at(s.drop_first(), k - 1);
    }
}

/// The lines of `text`: the segments between successive `'\n'` characters,
/// in order. A final newline does not produce a trailing empty line; the
/// empty text has no lines at all.
pub open spec fn lines_spec(text: Seq<char>) -> Seq<Seq<char>>
    decreases text.len(),
    via lines_spec_decreases
{
    if text.len() == 0 {
        Seq::empty()
    } else {
        let i = find_newline(text);
        if i == text.len() {
            seq![text]
        } else {
            seq![text.take(i)] + lines_spec(text.skip(i + 1))
        }
    }
}

#[via_fn]
proof fn lines_spec_decreases(text: Seq<char>) {
    lemma_find_newline_range(text);
}

/// The views of a sequence of owned strings.
pub open spec fn str_views(ss: Seq<String>) -> Seq<Seq<char>> {
    ss.map_values(|s: String| s@)
}

/// Splits `text` into its lines, exactly as [`lines_spec`] describes: the
/// segments between `'\n'` characters, with no trailing empty line when the
/// text ends in a newline.
pub fn split_lines(text: &str) -> (lines: Vec<String>)
    ensures
        lines@.len() == lines_spec(text@).len(),
        forall|i: int| 0 <= i < lines@.len() ==> lines@[i]@ == lines_spec(text@)[i],
{
    let text_len: usize = text.unicode_len();
    let mut lines: Vec<String> = Vec::new();
    let mut start: usize = 0;
    let mut i: usize = 0;
    proof {
        assert(text@.skip(0) =~= text@);
        assert(str_views(lines@) =~= Seq::<Seq<char>>::empty());
        assert(str_views(lines@) + lines_spec(text@) =~= lines_spec(text@));
    }
    while i < text_len
        invariant
            text_len == text@.len(),
            start <= i <= text_len,
            forall|j: int| start <= j < i ==> text@[j] != '\n',
            lines_spec(text@) == str_views(lines@) + lines_spec(text@.skip(start as int)),
        decreases text_len - i,
    {
        if text.get_char(i) == '\n' {
            let seg = text.substring_char(start, i).to_owned();
            proof {
                let rest = text@.skip(start as int);
                assert forall|j: int| 0 <= j < i - start implies rest[j] != '\n' by {
                    assert(rest[j] == text@[start + j]);
                }
                assert(rest[i - start] == text@[i as int]);
                lemma_find_newline_at(rest, i - start);
                assert(rest.take(i - start) =~= text@.subrange(start as int, i as int));
                assert(rest.skip(i - start + 1) =~= text@.skip(i as int + 1));
                assert(lines_spec(rest) == seq![seg@] + lines_spec(text@.skip(i as int + 1)));
                assert(str_views(lines@.push(seg)) =~= str_views(lines@) + seq![seg@]);
                assert(str_views(lines@) + (seq![seg@] + lines_spec(text@.skip(i as int + 1)))
                    =~= (str_views(lines@) + seq![seg@]) + lines_spec(text@.skip(i as int + 1)));
            }
            lines.push(seg);
            start = i + 1;
        }
        i += 1;
    }
    proof {
        let rest = text@.skip(start as int);
        assert forall|j: int| 0 <= j < rest.len() implies rest[j] != '\n' by {
            assert(rest[j] == text@[start + j]);
        }
        lemma_find_newline_at(rest, rest.len() as int);
    }
    if start < text_len {
        let seg = text.substring_char(start, text_len).to_owned();
        proof {
            let rest = text@.skip(start as int);
            assert(rest =~= text@.subrange(start as int, text_len as int));
            assert(lines_spec(rest) == seq![rest]);
            assert(str_views(lines@.push(seg)) =~= str_views(lines@) + seq![seg@]);
            assert(seq![seg@] =~= seq![rest]);
        }
        lines.push(seg);
    } else {
        proof {
            let rest = text@.skip(start as int);
            assert(rest =~= Seq::<char>::empty());
            assert(lines_spec(rest) == Seq::<Seq<char>>::empty());
            assert(str_views(lines@) + lines_spec(rest) =~= str_views(lines@));
        }
    }
    proof {
        assert forall|j: int| 0 <= j < lines@.len() implies lines@[j]@ == lines_spec(text@)[j] by {
            assert(str_views(lines@)[j] == lines@[j]@);
        }
    }
    lines
}

/// The matches among a sequence of lines, where a line may also be absent
/// (`None` stands for a line that could not be read or decoded: it keeps
/// its position, and so its line number, but can never match).
///
/// Each match is the pair of the line's 1-based number and its contents
/// trimmed of leading whitespace, and matches appear in line order.
pub open spec fn matches_of(query: Seq<char>, olines: Seq<Option<Seq<char>>>) -> Seq<(int, Seq<char>)>
    decreases olines.len(),
{
    if olines.len() == 0 {
        Seq::empty()
    } else {
        let prefix = matches_of(query, olines.drop_last());
        match olines.last() {
            Some(l) => if contains_seq(l, query) {
                prefix.push((olines.len() as int, trim_start_spec(l)))
            } else {
                prefix
            },
            None => prefix,
        }
    }
}

/// The views of a sequence of optional owned lines.
pub open spec fn opt_views(ss: Seq<Option<String>>) -> Seq<Option<Seq<char>>> {
    ss.map_values(
        |o: Option<String>|
            match o {
                Some(s) => Some(s@),
                None => None,
            },
    )
}

/// Every line of `text`, present.
pub open spec fn some_lines(lines: Seq<Seq<char>>) -> Seq<Option<Seq<char>>> {
    lines.map_values(|l: Seq<char>| Some(l))
}

/// What [`search`] returns, as a sequence of (1-based line number, trimmed
/// contents) pairs over the lines of `text`.
pub open spec fn search_spec(query: Seq<char>, text: Seq<char>) -> Seq<(int, Seq<char>)> {
    matches_of(query, some_lines(lines_spec(text)))
}

/// Scans a sequence of already-read lines, in order, and returns one
/// [`SearchResult`] for every present line that contains `query`. A `None`
/// entry stands for a line that could not be read or decoded: it is
/// skipped, but still occupies its 1-based position in the numbering.
pub fn search_lines(query: &str, lines: &Vec<Option<String>>) -> (results: Vec<SearchResult>)
    ensures
        results@.len() == matches_of(query@, opt_views(lines@)).len(),
        forall|k: int| 0 <= k < results@.len() ==> {
            &&& (#[trigger] results@[k]).line_number as int == matches_of(query@, opt_views(lines@))[k].0
            &&& results@[k].contents@ == matches_of(query@, opt_views(lines@))[k].1
        },
{
    let ghost olines = opt_views(lines@);
    let mut results: Vec<SearchResult> = Vec::new();
    let mut i: usize = 0;
    proof {
        assert(olines.take(0) =~= Seq::<Option<Seq<char>>>::empty());
    }
    while i < lines.len()
        invariant
            olines == opt_views(lines@),
            olines.len() == lines@.len(),
            i <= lines@.len(),
            results@.len() == matches_of(query@, olines.take(i as int)).len(),
            forall|k: int| 0 <= k < results@.len() ==> {
                &&& (#[trigger] results@[k]).line_number as int == matches_of(
                    query@,
                    olines.take(i as int),
                )[k].0
                &&& results@[k].contents@ == matches_of(query@, olines.take(i as int))[k].1
            },
        decreases lines@.len() - i,
    {
        proof {
            assert(olines.take(i + 1).drop_last() =~= olines.take(i as int));
            assert(olines.take(i + 1).last() == olines[i as int]);
            assert(olines[i as int] == match lines@[i as int] {
                Some(s) => Some(s@),
                None => None::<Seq<char>>,
            });
        }
        match &lines[i] {
            Some(line) => {
                if contains_substring(line.as_str(), query) {
                    let contents = trim_start_owned(line.as_str());
                    results.push(SearchResult { line_number: i + 1, contents });
                }
            },
            None => {},
        }
        i += 1;
    }
    proof {
        assert(olines.take(lines@.len() as int) =~= olines);
    }
    results
}

/// Searches `text` for `query`, line by line: returns one result for every
/// line that contains `query` as a contiguous, case-sensitive substring,
/// in original line order, carrying the line's 1-based number and its
/// contents with leading whitespace stripped. The empty query matches
/// every line. No match yields an empty vector, never an error.
pub fn search(query: &str, text: &str) -> (results: Vec<SearchResult>)
    ensures
        results@.len() == search_spec(query@, text@).len(),
        forall|k: int| 0 <= k < results@.len() ==> {
            &&& (#[trigger] results@[k]).line_number as int == search_spec(query@, text@)[k].0
            &&& results@[k].contents@ == search_spec(query@, text@)[k].1
        },
{
    let raw = split_lines(text);
    let mut lines: Vec<Option<String>> = Vec::new();
    let mut i: usize = 0;
    while i < raw.len()
        invariant
            i <= raw@.len(),
            lines@.len() == i,
            forall|j: int| 0 <= j < i ==> lines@[j] == Some(raw@[j]),
        decreases raw@.len() - i,
    {
        lines.push(Some(raw[i].clone()));
        i += 1;
    }
    proof {
        assert(opt_views(lines@) =~= some_lines(lines_spec(text@)));
    }
    search_lines(query, &lines)
}

/// Every match points back at a present line that really contains the
/// query, carries that line's 1-based number, and carries its contents
/// trimmed of leading whitespace; and matches come in strictly increasing
/// line order.
proof fn lemma_matches_of_props(query: Seq<char>, olines: Seq<Option<Seq<char>>>)
    ensures
        forall|k: int| 0 <= k < matches_of(query, olines).len() ==> {
            &&& 1 <= (#[trigger] matches_of(query, olines)[k]).0 <= olines.len()
            &&& olines[matches_of(query, olines)[k].0 - 1] matches Some(l)
                && contains_seq(l, query)
                && matches_of(query, olines)[k].1 == trim_start_spec(l)
        },
        forall|k1: int, k2: int|
            0 <= k1 < k2 < matches_of(query, olines).len() ==> (#[trigger] matches_of(
                query,
                olines,
            )[k1]).0 < (#[trigger] matches_of(query, olines)[k2]).0,
    decreases olines.len(),
{
    if olines.len() > 0 {
        let pre = olines.drop_last();
        lemma_matches_of_props(query, pre);
        let m = matches_of(query, olines);
        let mp = matches_of(query, pre);
        assert(olines.last() == olines[olines.len() - 1]);
        assert forall|k: int| 0 <= k < m.len() implies {
            &&& 1 <= (#[trigger] m[k]).0 <= olines.len()
            &&& olines[m[k].0 - 1] matches Some(l)
                && contains_seq(l, query)
                && m[k].1 == trim_start_spec(l)
        } by {
            if k < mp.len() {
                assert(m[k] == mp[k]);
                assert(pre[mp[k].0 - 1] == olines[mp[k].0 - 1]);
            } else {
                assert(m[k].0 == olines.len());
            }
        }
        assert forall|k1: int, k2: int| 0 <= k1 < k2 < m.len() implies (m[k1]).0 < (m[k2]).0 by {
            assert(m[k1] == mp[k1]);
            if k2 < mp.len() {
                assert(m[k2] == mp[k2]);
            } else {
                assert(1 <= mp[k1].0 <= pre.len());
                assert(m[k2].0 == olines.len());
            }
        }
    }
}

/// Line numbering invariant: every result of a search points at a line of
/// the original text by its 1-based position among all lines (matching or
/// not), that line contains the query, and the result's contents are that
/// line trimmed of leading whitespace.
pub proof fn lemma_search_line_numbers(query: Seq<char>, text: Seq<char>)
    ensures
        forall|k: int| 0 <= k < search_spec(query, text).len() ==> {
            &&& 1 <= (#[trigger] search_spec(query, text)[k]).0 <= lines_spec(text).len()
            &&& contains_seq(lines_spec(text)[search_spec(query, text)[k].0 - 1], query)
            &&& search_spec(query, text)[k].1 == trim_start_spec(
                lines_spec(text)[search_spec(query, text)[k].0 - 1],
            )
        },
{
    let olines = some_lines(lines_spec(text));
    lemma_matches_of_props(query, olines);
    assert forall|k: int| 0 <= k < search_spec(query, text).len() implies {
        &&& 1 <= (#[trigger] search_spec(query, text)[k]).0 <= lines_spec(text).len()
        &&& contains_seq(lines_spec(text)[search_spec(query, text)[k].0 - 1], query)
        &&& search_spec(query, text)[k].1 == trim_start_spec(
            lines_spec(text)[search_spec(query, text)[k].0 - 1],
        )
    } by {
        assert(search_spec(query, text)[k] == matches_of(query, olines)[k]);
        let n = matches_of(query, olines)[k].0;
        assert(1 <= n <= olines.len());
        assert(olines[n - 1] == Some(lines_spec(text)[n - 1]));
    }
}

/// Order preservation: the results of a search carry strictly increasing
/// line numbers, so they are a subsequence of the original lines in
/// original order, with no reordering and no duplication.
pub proof fn lemma_search_order(query: Seq<char>, text: Seq<char>)
    ensures
        forall|k1: int, k2: int|
            0 <= k1 < k2 < search_spec(query, text).len() ==> (#[trigger] search_spec(
                query,
                text,
            )[k1]).0 < (#[trigger] search_spec(query, text)[k2]).0,
{
    let olines = some_lines(lines_spec(text));
    lemma_matches_of_props(query, olines);
    assert forall|k1: int, k2: int|
        0 <= k1 < k2 < search_spec(query, text).len() implies (#[trigger] search_spec(
        query,
        text,
    )[k1]).0 < (#[trigger] search_spec(query, text)[k2]).0 by {
        assert(search_spec(query, text)[k1] == matches_of(query, olines)[k1]);
        assert(search_spec(query, text)[k2] == matches_of(query, olines)[k2]);
        assert(matches_of(query, olines)[k1].0 < matches_of(query, olines)[k2].0);
    }
}

/// When no present line contains the query, there are no matches at all.
proof fn lemma_matches_of_no_match(query: Seq<char>, olines: Seq<Option<Seq<char>>>)
    requires
        forall|j: int|
            0 <= j < olines.len() ==> ((#[trigger] olines[j]) matches Some(l) ==> !contains_seq(
                l,
                query,
            )),
    ensures
        matches_of(query, olines).len() == 0,
    decreases olines.len(),
{
    if olines.len() > 0 {
        let pre = olines.drop_last();
        assert forall|j: int|
            0 <= j < pre.len() implies ((#[trigger] pre[j]) matches Some(l) ==> !contains_seq(
            l,
            query,
        )) by {
            assert(pre[j] == olines[j]);
        }
        lemma_matches_of_no_match(query, pre);
        assert(olines.last() == olines[olines.len() - 1]);
    }
}

/// No match: searching for a substring that is absent from every line of
/// the text yields an empty sequence of results.
pub proof fn lemma_search_no_match(query: Seq<char>, text: Seq<char>)
    requires
        forall|j: int|
            0 <= j < lines_spec(text).len() ==> !contains_seq(
                #[trigger] lines_spec(text)[j],
                query,
            ),
    ensures
        search_spec(query, text).len() == 0,
{
    let olines = some_lines(lines_spec(text));
    assert forall|j: int|
        0 <= j < olines.len() implies ((#[trigger] olines[j]) matches Some(l) ==> !contains_seq(
        l,
        query,
    )) by {
        assert(olines[j] == Some(lines_spec(text)[j]));
    }
    lemma_matches_of_no_match(query, olines);
}

/// The empty needle occurs in every sequence, at position zero.
pub proof fn lemma_contains_empty(hay: Seq<char>, needle: Seq<char>)
    requires
        needle.len() == 0,
    ensures
        contains_seq(hay, needle),
{
    assert(hay.subrange(0, 0) =~= needle);
    assert(match_at(hay, needle, 0));
}

/// With the empty query, every present line is a match, in order.
proof fn lemma_matches_of_empty_query(query: Seq<char>, olines: Seq<Option<Seq<char>>>)
    requires
        query.len() == 0,
        forall|j: int| 0 <= j < olines.len() ==> (#[trigger] olines[j]) is Some,
    ensures
        matches_of(query, olines).len() == olines.len(),
        forall|k: int| 0 <= k < olines.len() ==> {
            &&& (#[trigger] matches_of(query, olines)[k]).0 == k + 1
            &&& matches_of(query, olines)[k].1 == trim_start_spec(olines[k]->0)
        },
    decreases olines.len(),
{
    if olines.len() > 0 {
        let pre = olines.drop_last();
        assert forall|j: int| 0 <= j < pre.len() implies (#[trigger] pre[j]) is Some by {
            assert(pre[j] == olines[j]);
        }
        lemma_matches_of_empty_query(query, pre);
        assert(olines.last() == olines[olines.len() - 1]);
        lemma_contains_empty(olines.last()->0, query);
        assert forall|k: int| 0 <= k < olines.len() implies {
            &&& (#[trigger] matches_of(query, olines)[k]).0 == k + 1
            &&& matches_of(query, olines)[k].1 == trim_start_spec(olines[k]->0)
        } by {
            if k < pre.len() {
                assert(matches_of(query, olines)[k] == matches_of(query, pre)[k]);
                assert(pre[k] == olines[k]);
            }
        }
    }
}

/// Empty-query property: searching with the empty query returns every line
/// of the text, numbered from 1 in order, each with its leading whitespace
/// stripped.
pub proof fn lemma_search_empty_query(query: Seq<char>, text: Seq<char>)
    requires
        query.len() == 0,
    ensures
        search_spec(query, text).len() == lines_spec(text).len(),
        forall|k: int| 0 <= k < lines_spec(text).len() ==> {
            &&& (#[trigger] search_spec(query, text)[k]).0 == k + 1
            &&& search_spec(query, text)[k].1 == trim_start_spec(lines_spec(text)[k])
        },
{
    let olines = some_lines(lines_spec(text));
    assert forall|j: int| 0 <= j < olines.len() implies (#[trigger] olines[j]) is Some by {
        assert(olines[j] == Some(lines_spec(text)[j]));
    }
    lemma_matches_of_empty_query(query, olines);
    assert forall|k: int| 0 <= k < lines_spec(text).len() implies {
        &&& (#[trigger] search_spec(query, text)[k]).0 == k + 1
        &&& search_spec(query, text)[k].1 == trim_start_spec(lines_spec(text)[k])
    } by {
        assert(search_spec(query, text)[k] == matches_of(query, olines)[k]);
        assert(olines[k] == Some(lines_spec(text)[k]));
        assert(matches_of(query, olines)[k].0 == k + 1);
        assert(matches_of(query, olines)[k].1 == trim_start_spec(olines[k]->0));
    }
}

} // verus!
