//! The case-insensitive literal containment test, compiled once per query
//! and applied to every row of the table.

use vstd::prelude::*;

verus! {

/// Whether `line` contains `query` as a case-insensitive literal substring,
/// as the pattern engine decides it. The answer depends on the two strings
/// alone, but the engine's case folding is too large to restate here, so the
/// result only carries this name.
pub uninterp spec fn ci_contains(query: Seq<char>, line: Seq<char>) -> bool;

/// Whether the pattern engine accepts the pattern compiled from `query`
/// (escaped, with case folding switched on). Acceptance is a function of
/// the pattern alone — the engine refuses only on its fixed size cap — and
/// so of the query; it holds for every query of ordinary size.
pub uninterp spec fn engine_accepts(query: Seq<char>) -> bool;

#[verifier::external_type_specification]
#[verifier::external_body]
pub struct ExRegex(regex::Regex);

/// The containment test for one query: a pattern compiled from the query
/// with every pattern-language character neutralized and case folding
/// switched on, together with the query it was compiled from.
pub struct CiMatcher {
    re: regex::Regex,
    query: String,
}

impl CiMatcher {
    /// The query this matcher was compiled from.
    pub closed spec fn query_view(&self) -> Seq<char> {
        self.query@
    }

    /// Relies on regex::escape and regex::Regex::new: escaping yields a
    /// pattern that stands for the query literally, the `(?i)` flag makes
    /// the match case-insensitive, and compilation fails exactly when the
    /// engine's size cap refuses the pattern — a function of the query
    /// alone, named `engine_accepts`.
    #[verifier::external_body]
    fn build(query: &str) -> (r: Option<CiMatcher>)
        ensures
            r is Some <==> engine_accepts(query@),
            r matches Some(m) ==> m.query_view() == query@,
    {
        let pattern = format!("(?i){}", regex::escape(query));
        match regex::Regex::new(&pattern) {
            Ok(re) => Some(CiMatcher { re, query: query.to_string() }),
            Err(_) => None,
        }
    }

    /// Compiles the case-insensitive containment test for `query`. Any
    /// character of `query` that the pattern language gives a meaning is
    /// neutralized, so the test is plain literal containment. `None` comes
    /// exactly when the pattern engine refuses the compiled query.
    pub fn compile(query: &str) -> (r: Option<CiMatcher>)
        ensures
            r is Some <==> engine_accepts(query@),
            r matches Some(m) ==> m.query_view() == query@,
    {
        CiMatcher::build(query)
    }

    /// Relies on regex::Regex::is_match: for a matcher built above, the
    /// answer is the engine's case-insensitive literal containment test,
    /// a function of the query and the line alone.
    #[verifier::external_body]
    pub(crate) fn matches_line(&self, line: &str) -> (r: bool)
        ensures
            r == ci_contains(self.query_view(), line@),
    {
        self.re.is_match(line)
    }
}

} // verus!
