//! The search query.
//!
//! A query is an immutable pair of a pattern and a case-sensitivity flag,
//! created once before a search.  When the query is case-insensitive the
//! pattern is folded to lowercase at construction time, so matching a line
//! never has to normalize the pattern again.

use vstd::prelude::*;
use crate::ascii::fold_bytes;
use crate::ascii::fold_seq;
use crate::ascii::lemma_fold_seq_idempotent;
use crate::matcher::contains_bytes;
use crate::matcher::line_matches;

verus! {

/// An immutable search request: the pattern to look for and whether case
/// matters.  For a case-insensitive query the stored pattern is the
/// lowercase folding of the pattern the caller gave.
pub struct Query {
    pub pattern: Vec<u8>,
    pub case_sensitive: bool,
}

impl Query {
    /// Builds a query, folding the pattern to lowercase up front when the
    /// query is case-insensitive.  Folding once up front loses nothing:
    /// folding the stored pattern again would give the same bytes as
    /// folding the pattern the caller gave.
    pub fn new(pattern: Vec<u8>, case_sensitive: bool) -> (q: Query)
        ensures
            q.case_sensitive == case_sensitive,
            q.pattern@ == if case_sensitive {
                pattern@
            } else {
                fold_seq(pattern@)
            },
            fold_seq(q.pattern@) == fold_seq(pattern@) || case_sensitive,
    {
        proof {
            lemma_fold_seq_idempotent(pattern@);
        }
        if case_sensitive {
            Query { pattern, case_sensitive }
        } else {
            let folded = fold_bytes(&pattern);
            Query { pattern: folded, case_sensitive }
        }
    }

    /// Decides whether a line matches this query.  A case-insensitive
    /// query folds the line and compares it against the pre-folded
    /// pattern; a case-sensitive query compares the raw bytes.
    pub fn matches(&self, line: &Vec<u8>) -> (r: bool)
        ensures
            r == line_matches(self.pattern@, self.case_sensitive, line@),
    {
        if self.case_sensitive {
            contains_bytes(line, &self.pattern)
        } else {
            let folded = fold_bytes(line);
            contains_bytes(&folded, &self.pattern)
        }
    }

    /// Makes an independent copy of this query.
    pub fn duplicate(&self) -> (q: Query)
        ensures
            q.pattern@ == self.pattern@,
            q.case_sensitive == self.case_sensitive,
    {
        let pattern = self.pattern.clone();
        proof {
            assert(pattern@ =~= self.pattern@);
        }
        Query { pattern, case_sensitive: self.case_sensitive }
    }
}

} // verus!
