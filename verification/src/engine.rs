//! The search engine.
//!
//! The engine walks the lines of an input in order, numbering them from 1,
//! and collects a match for every line that the query matches.  Lines must
//! be valid UTF-8: when one is not, the pass aborts with an error that
//! carries the number of lines processed before the bad one, and no partial
//! result is handed out as a success.  A push-driven [`Searcher`] takes one
//! line at a time, so a caller can stream arbitrarily large inputs without
//! holding more than one line in memory; [`search`] runs a whole buffer
//! through it.

use vstd::prelude::*;
use crate::ascii::fold_seq;
use crate::encoding::check_utf8;
use crate::encoding::is_valid_utf8;
use crate::matcher::line_matches;
use crate::matcher::lemma_contains_empty;
use crate::matcher::lemma_sensitive_implies_insensitive;
use crate::query::Query;
use crate::reader::lines_of;
use crate::reader::split_lines;

verus! {

/// The mathematical model of one match: a 1-based line number and the full
/// text of the matched line.
pub ghost struct MatchSpec {
    pub line_number: int,
    pub text: Seq<u8>,
}

/// One located occurrence: the 1-based number of the matched line and the
/// full line, without its line ending.
#[derive(Debug, PartialEq, Eq)]
pub struct Match {
    pub line_number: usize,
    pub text: Vec<u8>,
}

impl View for Match {
    type V = MatchSpec;

    open spec fn view(&self) -> MatchSpec {
        MatchSpec { line_number: self.line_number as int, text: self.text@ }
    }
}

impl DeepView for Match {
    type V = MatchSpec;

    open spec fn deep_view(&self) -> MatchSpec {
        self.view()
    }
}

/// An ordered sequence of matches, in source line order.
pub type SearchResult = Vec<Match>;

/// Why a search pass aborted.  Each variant carries the number of lines
/// that were fully processed before the failure.
#[derive(Debug, Clone, Copy, PartialEq, Eq, Structural)]
pub enum SearchError {
    /// A line was not valid UTF-8.
    InvalidEncoding { lines_processed: usize },
    /// The underlying source failed before the input was exhausted.
    SourceUnavailable { lines_processed: usize },
}

/// The matches among `lines`, in order, where the first line of `lines`
/// has line number `base`.
pub open spec fn search_from(lines: Seq<Seq<u8>>, pattern: Seq<u8>, cs: bool, base: int) -> Seq<
    MatchSpec,
>
    decreases lines.len(),
{
    if lines.len() == 0 {
        Seq::empty()
    } else {
        let rest = search_from(lines.skip(1), pattern, cs, base + 1);
        if line_matches(pattern, cs, lines[0]) {
            seq![MatchSpec { line_number: base, text: lines[0] }] + rest
        } else {
            rest
        }
    }
}

/// The matches of a search over `lines` with 1-based line numbers: what a
/// whole search pass returns when every line is valid.
pub open spec fn search_lines(lines: Seq<Seq<u8>>, pattern: Seq<u8>, cs: bool) -> Seq<MatchSpec> {
    search_from(lines, pattern, cs, 1)
}

/// Every line of `lines` is valid UTF-8.
pub open spec fn all_lines_valid(lines: Seq<Seq<u8>>) -> bool {
    forall|i: int| 0 <= i < lines.len() ==> is_valid_utf8(#[trigger] lines[i])
}

/// The number of leading lines of `lines` that are valid UTF-8: the lines
/// a pass processes before it aborts, or all of them.
pub open spec fn valid_prefix_len(lines: Seq<Seq<u8>>) -> int
    decreases lines.len(),
{
    if lines.len() == 0 {
        0
    } else if !is_valid_utf8(lines[0]) {
        0
    } else {
        1 + valid_prefix_len(lines.skip(1))
    }
}

/// `valid_prefix_len` is in bounds, every line before it is valid, and it
/// covers the whole input exactly when every line is valid.
pub proof fn lemma_valid_prefix(lines: Seq<Seq<u8>>)
    ensures
        0 <= valid_prefix_len(lines) <= lines.len(),
        forall|j: int| 0 <= j < valid_prefix_len(lines) ==> is_valid_utf8(#[trigger] lines[j]),
        valid_prefix_len(lines) < lines.len() ==> !is_valid_utf8(lines[valid_prefix_len(lines)]),
        valid_prefix_len(lines) == lines.len() <==> all_lines_valid(lines),
    decreases lines.len(),
{
    if lines.len() == 0 {
    } else if !is_valid_utf8(lines[0]) {
    } else {
        lemma_valid_prefix(lines.skip(1));
        let v = valid_prefix_len(lines);
        assert forall|j: int| 0 <= j < v implies is_valid_utf8(#[trigger] lines[j]) by {
            if j > 0 {
                assert(lines.skip(1)[j - 1] == lines[j]);
            }
        }
        if v < lines.len() {
            assert(lines.skip(1)[v - 1] == lines[v]);
        }
        if v == lines.len() {
            assert forall|i: int| 0 <= i < lines.len() implies is_valid_utf8(
                #[trigger] lines[i],
            ) by {
                if i > 0 {
                    assert(lines.skip(1)[i - 1] == lines[i]);
                }
            }
        } else {
            assert(!is_valid_utf8(lines[v]));
        }
    }
}

/// A position whose every earlier line is valid, and whose own line is
/// invalid or the end of the input, is exactly `valid_prefix_len`.
pub proof fn lemma_valid_prefix_at(lines: Seq<Seq<u8>>, m: int)
    requires
        0 <= m <= lines.len(),
        forall|j: int| 0 <= j < m ==> is_valid_utf8(#[trigger] lines[j]),
        m < lines.len() ==> !is_valid_utf8(lines[m]),
    ensures
        valid_prefix_len(lines) == m,
    decreases lines.len(),
{
    if m == 0 {
        if lines.len() > 0 {
            lemma_valid_prefix(lines);
        }
    } else {
        assert(is_valid_utf8(lines[0]));
        assert forall|j: int| 0 <= j < m - 1 implies is_valid_utf8(#[trigger] lines.skip(1)[j]) by {
            assert(lines.skip(1)[j] == lines[j + 1]);
        }
        if m - 1 < lines.skip(1).len() {
            assert(lines.skip(1)[m - 1] == lines[m]);
        }
        lemma_valid_prefix_at(lines.skip(1), m - 1);
    }
}

/// Appending one line to the input appends its match, if it is one, to the
/// result, and changes nothing else.
pub proof fn lemma_search_from_push(
    lines: Seq<Seq<u8>>,
    pattern: Seq<u8>,
    cs: bool,
    base: int,
    line: Seq<u8>,
)
    ensures
        search_from(lines.push(line), pattern, cs, base) == search_from(lines, pattern, cs, base)
            + (if line_matches(pattern, cs, line) {
            seq![MatchSpec { line_number: base + lines.len(), text: line }]
        } else {
            Seq::<MatchSpec>::empty()
        }),
    decreases lines.len(),
{
    let l2 = lines.push(line);
    let tail = if line_matches(pattern, cs, line) {
        seq![MatchSpec { line_number: base + lines.len(), text: line }]
    } else {
        Seq::<MatchSpec>::empty()
    };
    if lines.len() == 0 {
        assert(l2[0] == line);
        assert(l2.skip(1) =~= Seq::<Seq<u8>>::empty());
        assert(search_from(Seq::<Seq<u8>>::empty(), pattern, cs, base + 1) == Seq::<
            MatchSpec,
        >::empty());
        assert(search_from(lines, pattern, cs, base) == Seq::<MatchSpec>::empty());
        assert(search_from(l2, pattern, cs, base) =~= search_from(lines, pattern, cs, base)
            + tail);
    } else {
        lemma_search_from_push(lines.skip(1), pattern, cs, base + 1, line);
        assert(l2[0] == lines[0]);
        assert(l2.skip(1) =~= lines.skip(1).push(line));
        let rest = search_from(lines.skip(1), pattern, cs, base + 1);
        if line_matches(pattern, cs, lines[0]) {
            let head = seq![MatchSpec { line_number: base, text: lines[0] }];
            assert(search_from(l2, pattern, cs, base) == head + (rest + tail));
            assert(head + (rest + tail) =~= (head + rest) + tail);
        }
    }
}

/// The result never holds more matches than the input has lines.
pub proof fn lemma_search_count(lines: Seq<Seq<u8>>, pattern: Seq<u8>, cs: bool, base: int)
    ensures
        search_from(lines, pattern, cs, base).len() <= lines.len(),
    decreases lines.len(),
{
    if lines.len() > 0 {
        lemma_search_count(lines.skip(1), pattern, cs, base + 1);
    }
}

/// Line numbers in a result sequence are strictly increasing.
pub open spec fn strictly_increasing(ms: Seq<MatchSpec>) -> bool {
    forall|i: int, j: int|
        #![trigger ms[i], ms[j]]
        0 <= i < j < ms.len() ==> ms[i].line_number < ms[j].line_number
}

/// Every line number in `ms` lies in `lo..hi`.
pub open spec fn numbers_in_range(ms: Seq<MatchSpec>, lo: int, hi: int) -> bool {
    forall|i: int| 0 <= i < ms.len() ==> lo <= #[trigger] ms[i].line_number < hi
}

/// The line numbers of a result are strictly increasing, and all lie among
/// the numbers the input's lines carry.
pub proof fn lemma_search_increasing(lines: Seq<Seq<u8>>, pattern: Seq<u8>, cs: bool, base: int)
    ensures
        numbers_in_range(search_from(lines, pattern, cs, base), base, base + lines.len()),
        strictly_increasing(search_from(lines, pattern, cs, base)),
    decreases lines.len(),
{
    if lines.len() > 0 {
        lemma_search_increasing(lines.skip(1), pattern, cs, base + 1);
        let r = search_from(lines, pattern, cs, base);
        let rest = search_from(lines.skip(1), pattern, cs, base + 1);
        if line_matches(pattern, cs, lines[0]) {
            assert forall|i: int| 0 <= i < r.len() implies base <= #[trigger] r[i].line_number
                < base + lines.len() by {
                if i > 0 {
                    assert(r[i] == rest[i - 1]);
                }
            }
            assert forall|i: int, j: int|
                #![trigger r[i], r[j]]
                0 <= i < j < r.len() implies r[i].line_number < r[j].line_number by {
                assert(r[j] == rest[j - 1]);
                if i > 0 {
                    assert(r[i] == rest[i - 1]);
                }
            }
        }
    }
}

/// Whether some match in `ms` carries the line number `ln`.
pub open spec fn has_line_number(ms: Seq<MatchSpec>, ln: int) -> bool {
    exists|i: int| 0 <= i < ms.len() && #[trigger] ms[i].line_number == ln
}

/// A line number is in the result exactly when it names a line of the
/// input and that line matches.
pub proof fn lemma_search_from_has(
    lines: Seq<Seq<u8>>,
    pattern: Seq<u8>,
    cs: bool,
    base: int,
    ln: int,
)
    ensures
        has_line_number(search_from(lines, pattern, cs, base), ln) <==> (base <= ln < base
            + lines.len() && line_matches(pattern, cs, lines[ln - base])),
    decreases lines.len(),
{
    if lines.len() == 0 {
    } else {
        lemma_search_from_has(lines.skip(1), pattern, cs, base + 1, ln);
        let r = search_from(lines, pattern, cs, base);
        let rest = search_from(lines.skip(1), pattern, cs, base + 1);
        if base + 1 <= ln < base + lines.len() {
            assert(lines.skip(1)[ln - base - 1] == lines[ln - base]);
        }
        if line_matches(pattern, cs, lines[0]) {
            if has_line_number(r, ln) {
                let i = choose|i: int| 0 <= i < r.len() && #[trigger] r[i].line_number == ln;
                if i > 0 {
                    assert(r[i] == rest[i - 1]);
                    assert(has_line_number(rest, ln));
                }
            }
            if base <= ln < base + lines.len() && line_matches(pattern, cs, lines[ln - base]) {
                if ln == base {
                    assert(r[0].line_number == ln);
                } else {
                    let j = choose|j: int|
                        0 <= j < rest.len() && #[trigger] rest[j].line_number == ln;
                    assert(r[j + 1] == rest[j]);
                }
                assert(has_line_number(r, ln));
            }
        } else {
            if has_line_number(r, ln) {
                assert(has_line_number(rest, ln));
            }
            if base <= ln < base + lines.len() && line_matches(pattern, cs, lines[ln - base])
                && ln != base {
                assert(has_line_number(rest, ln));
                let j = choose|j: int| 0 <= j < rest.len() && #[trigger] rest[j].line_number == ln;
                assert(r[j] == rest[j]);
            }
        }
    }
}

/// Every line number that a case-sensitive search finds, a case-insensitive
/// search for the same pattern finds as well.
pub proof fn lemma_insensitive_superset(lines: Seq<Seq<u8>>, pattern: Seq<u8>)
    ensures
        forall|ln: int|
            has_line_number(search_lines(lines, pattern, true), ln) ==> #[trigger] has_line_number(
                search_lines(lines, fold_seq(pattern), false),
                ln,
            ),
{
    assert forall|ln: int|
        has_line_number(search_lines(lines, pattern, true), ln) implies #[trigger] has_line_number(
        search_lines(lines, fold_seq(pattern), false),
        ln,
    ) by {
        lemma_search_from_has(lines, pattern, true, 1, ln);
        lemma_search_from_has(lines, fold_seq(pattern), false, 1, ln);
        lemma_sensitive_implies_insensitive(pattern, lines[ln - 1]);
    }
}

/// An empty pattern matches every line: the result has one match per input
/// line, in order, with the line's own number and text.
pub proof fn lemma_empty_pattern_matches_all(lines: Seq<Seq<u8>>, pattern: Seq<u8>, cs: bool)
    requires
        pattern.len() == 0,
    ensures
        search_lines(lines, pattern, cs).len() == lines.len(),
        forall|i: int|
            0 <= i < lines.len() ==> #[trigger] search_lines(lines, pattern, cs)[i]
                == (MatchSpec { line_number: i + 1, text: lines[i] }),
{
    lemma_empty_pattern_from(lines, pattern, cs, 1);
}

proof fn lemma_empty_pattern_from(lines: Seq<Seq<u8>>, pattern: Seq<u8>, cs: bool, base: int)
    requires
        pattern.len() == 0,
    ensures
        search_from(lines, pattern, cs, base).len() == lines.len(),
        forall|i: int|
            0 <= i < lines.len() ==> #[trigger] search_from(lines, pattern, cs, base)[i]
                == (MatchSpec { line_number: base + i, text: lines[i] }),
    decreases lines.len(),
{
    if lines.len() > 0 {
        if cs {
            lemma_contains_empty(lines[0], pattern);
        } else {
            lemma_contains_empty(fold_seq(lines[0]), pattern);
        }
        lemma_empty_pattern_from(lines.skip(1), pattern, cs, base + 1);
        let r = search_from(lines, pattern, cs, base);
        let rest = search_from(lines.skip(1), pattern, cs, base + 1);
        assert forall|i: int| 0 <= i < lines.len() implies #[trigger] r[i] == (MatchSpec {
            line_number: base + i,
            text: lines[i],
        }) by {
            if i > 0 {
                assert(r[i] == rest[i - 1]);
                assert(lines.skip(1)[i - 1] == lines[i]);
            }
        }
    }
}

/// The push-driven search engine for one pass over one source.
///
/// A caller feeds it lines in source order, one at a time, so only the
/// current line needs to be in memory; the searcher keeps the running
/// line count and the matches found so far.  The sequence of lines pushed
/// so far is kept as ghost state, so the contracts can say that the
/// collected matches are exactly the search result over those lines.
pub struct Searcher {
    pub query: Query,
    pub count: usize,
    pub matches: Vec<Match>,
    pub lines: Ghost<Seq<Seq<u8>>>,
}

impl Searcher {
    /// The searcher's invariant: the count is the number of lines pushed,
    /// every pushed line was valid UTF-8, and the matches collected so far
    /// are exactly the search result over the pushed lines.
    pub open spec fn wf(self) -> bool {
        &&& self.count as int == self.lines@.len()
        &&& all_lines_valid(self.lines@)
        &&& self.matches.deep_view() == search_lines(
            self.lines@,
            self.query.pattern@,
            self.query.case_sensitive,
        )
    }

    /// Starts a pass: no lines seen, no matches yet.
    pub fn new(query: Query) -> (s: Searcher)
        ensures
            s.wf(),
            s.query == query,
            s.lines@ == Seq::<Seq<u8>>::empty(),
    {
        let s = Searcher { query, count: 0, matches: Vec::new(), lines: Ghost(Seq::empty()) };
        proof {
            assert(s.matches.deep_view() =~= Seq::<MatchSpec>::empty());
        }
        s
    }

    /// Takes the next line of the source.  A valid line is counted and, if
    /// it matches, collected; an invalid line aborts the pass with an
    /// encoding error that carries the number of lines processed before it,
    /// and leaves the searcher unchanged.
    pub fn push_line(&mut self, line: Vec<u8>) -> (r: Result<(), SearchError>)
        requires
            old(self).wf(),
            old(self).count < usize::MAX,
        ensures
            final(self).wf(),
            final(self).query == old(self).query,
            match r {
                Ok(_) => is_valid_utf8(line@) && final(self).lines@ == old(self).lines@.push(line@)
                    && final(self).count == old(self).count + 1,
                Err(e) => !is_valid_utf8(line@) && *final(self) == *old(self) && e
                    == (SearchError::InvalidEncoding { lines_processed: old(self).count }),
            },
    {
        let ghost lv = line@;
        let ghost prev_lines = self.lines@;
        let ghost prev_matches = self.matches.deep_view();
        if !check_utf8(&line) {
            return Err(SearchError::InvalidEncoding { lines_processed: self.count });
        }
        let matched = self.query.matches(&line);
        let number = self.count + 1;
        if matched {
            self.matches.push(Match { line_number: number, text: line });
        }
        self.count = number;
        proof {
            self.lines@ = prev_lines.push(lv);
        }
        proof {
            lemma_search_from_push(
                prev_lines,
                self.query.pattern@,
                self.query.case_sensitive,
                1,
                lv,
            );
            assert forall|i: int| 0 <= i < self.lines@.len() implies is_valid_utf8(
                #[trigger] self.lines@[i],
            ) by {
                if i < prev_lines.len() {
                    assert(self.lines@[i] == prev_lines[i]);
                }
            }
            if matched {
                let m = MatchSpec { line_number: 1 + prev_lines.len() as int, text: lv };
                assert(self.matches.deep_view() =~~= prev_matches.push(m));
                assert(prev_matches.push(m) =~= prev_matches + seq![m]);
            } else {
                assert(prev_matches + Seq::<MatchSpec>::empty() =~= prev_matches);
            }
        }
        Ok(())
    }

    /// Records that the underlying source failed before it was exhausted:
    /// the pass aborts with the number of lines processed before the
    /// failure.
    pub fn source_failed(&self) -> (e: SearchError)
        ensures
            e == (SearchError::SourceUnavailable { lines_processed: self.count }),
    {
        SearchError::SourceUnavailable { lines_processed: self.count }
    }

    /// The number of lines this pass has processed so far.
    pub fn lines_processed(&self) -> (n: usize)
        requires
            self.wf(),
        ensures
            n as int == self.lines@.len(),
    {
        self.count
    }

    /// Ends the pass and hands out the collected matches: exactly the
    /// search result over the lines that were pushed.
    pub fn into_matches(self) -> (r: SearchResult)
        requires
            self.wf(),
        ensures
            r.deep_view() == search_lines(self.lines@, self.query.pattern@, self.query.case_sensitive),
    {
        let Searcher { query: _, count: _, matches, lines: _ } = self;
        matches
    }
}

/// Searches a whole input buffer: splits it into lines and runs one pass.
///
/// Returns the matches in source order when every line is valid UTF-8;
/// otherwise returns the encoding error together with the number of lines
/// processed before the first invalid one, and no partial result.
pub fn search(input: &Vec<u8>, query: &Query) -> (r: Result<SearchResult, SearchError>)
    ensures
        match r {
            Ok(ms) => all_lines_valid(lines_of(input@)) && ms.deep_view() == search_lines(
                lines_of(input@),
                query.pattern@,
                query.case_sensitive,
            ),
            Err(e) => !all_lines_valid(lines_of(input@)) && (e
                matches SearchError::InvalidEncoding { lines_processed } && lines_processed as int
                == valid_prefix_len(lines_of(input@))),
        },
{
    let lines = split_lines(input);
    let ghost lseq = lines.deep_view();
    let mut searcher = Searcher::new(query.duplicate());
    let mut idx: usize = 0;
    proof {
        assert(lseq.take(0) =~= Seq::<Seq<u8>>::empty());
    }
    while idx < lines.len()
        invariant
            lseq == lines_of(input@),
            lines.deep_view() == lseq,
            idx <= lines@.len(),
            searcher.wf(),
            searcher.query.pattern@ == query.pattern@,
            searcher.query.case_sensitive == query.case_sensitive,
            searcher.lines@ == lseq.take(idx as int),
            searcher.count == idx,
        decreases lines@.len() - idx,
    {
        let line = lines[idx].clone();
        proof {
            assert(line@ =~= lines@[idx as int]@);
            assert(lines@[idx as int].deep_view() =~= lines@[idx as int]@);
            assert(lseq[idx as int] == line@);
        }
        match searcher.push_line(line) {
            Ok(_) => {
                proof {
                    assert(lseq.take(idx + 1) =~= lseq.take(idx as int).push(lseq[idx as int]));
                }
                idx += 1;
            },
            Err(e) => {
                proof {
                    assert forall|j: int| 0 <= j < idx implies is_valid_utf8(
                        #[trigger] lseq[j],
                    ) by {
                        assert(lseq.take(idx as int)[j] == lseq[j]);
                    }
                    lemma_valid_prefix_at(lseq, idx as int);
                    assert(!is_valid_utf8(lseq[idx as int]));
                }
                return Err(e);
            },
        }
    }
    proof {
        assert(lseq.take(lines@.len() as int) =~= lseq);
        lemma_valid_prefix(lseq);
    }
    Ok(searcher.into_matches())
}

/// One search, one answer: the result of a pass is a function of the lines
/// and the query alone, so two passes over independent reads of identical
/// input with the same query yield identical results.
pub proof fn lemma_search_deterministic(
    lines1: Seq<Seq<u8>>,
    lines2: Seq<Seq<u8>>,
    pattern: Seq<u8>,
    cs: bool,
    r1: Seq<MatchSpec>,
    r2: Seq<MatchSpec>,
)
    requires
        lines1 == lines2,
        r1 == search_lines(lines1, pattern, cs),
        r2 == search_lines(lines2, pattern, cs),
    ensures
        r1 == r2,
{
}

} // verus!
