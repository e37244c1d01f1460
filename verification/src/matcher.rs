//! Building a line predicate from a configuration, and applying it.

use vstd::prelude::*;
use crate::casefold::{lowercase, to_lowercase};
use crate::config::Grep;
use crate::engine::{
    compile, is_match, regex_finds, regex_ignores_case, regex_pattern, Compiled,
};
use crate::substring::{contains, has_substring, lemma_empty_needle};

verus! {

/// A line predicate, in one of the three matching modes.
#[derive(Debug)]
pub enum Matcher {
    /// Accepts the lines that hold the query as it stands.
    SubstringExact(String),
    /// Accepts the lines whose lowercase form holds the query, which is kept
    /// in lowercase.
    SubstringFolded(String),
    /// Accepts the lines in which the compiled expression has a match.
    Regex(Compiled),
}

/// What a [`Matcher`] stands for.
pub enum SpecMatcher {
    /// Accepts the lines that hold `query`.
    SubstringExact { query: Seq<char> },
    /// Accepts the lines whose lowercase form holds `query`.
    SubstringFolded { query: Seq<char> },
    /// Accepts the lines in which the regular expression `pattern` has a
    /// match, with or without regard to letter case.
    Regex { pattern: Seq<char>, ignore_case: bool },
}

impl SpecMatcher {
    /// Whether the predicate accepts `line`.
    pub open spec fn accepts(self, line: Seq<char>) -> bool {
        match self {
            SpecMatcher::SubstringExact { query } => has_substring(line, query),
            SpecMatcher::SubstringFolded { query } => has_substring(lowercase(line), query),
            SpecMatcher::Regex { pattern, ignore_case } => regex_finds(pattern, ignore_case, line),
        }
    }

    /// The predicate as a function on lines.
    pub open spec fn predicate(self) -> spec_fn(Seq<char>) -> bool {
        |line: Seq<char>| self.accepts(line)
    }
}

impl View for Matcher {
    type V = SpecMatcher;

    open spec fn view(&self) -> SpecMatcher {
        match self {
            Matcher::SubstringExact(query) => SpecMatcher::SubstringExact { query: query@ },
            Matcher::SubstringFolded(query) => SpecMatcher::SubstringFolded { query: query@ },
            Matcher::Regex(compiled) => SpecMatcher::Regex {
                pattern: regex_pattern(*compiled),
                ignore_case: regex_ignores_case(*compiled),
            },
        }
    }
}

/// Why a matcher could not be built.
#[derive(Debug)]
pub enum MatcherError {
    /// The query is not a regular expression that the engine takes; the
    /// engine's own error says why.
    InvalidPattern(regex::Error),
}

/// The predicate that a configuration and a query ask for.
///
/// Regex mode wins over substring mode. In regex mode the query is the
/// pattern, and case is ignored by the engine. In substring mode with case
/// ignored, the query is folded to lowercase once, here.
pub open spec fn spec_build_matcher(
    is_regexp: bool,
    ignore_case: bool,
    query: Seq<char>,
) -> SpecMatcher {
    if is_regexp {
        SpecMatcher::Regex { pattern: query, ignore_case }
    } else if ignore_case {
        SpecMatcher::SubstringFolded { query: lowercase(query) }
    } else {
        SpecMatcher::SubstringExact { query }
    }
}

impl Matcher {
    /// Turns the outcome of compiling a regular expression into the outcome
    /// of building a matcher.
    pub fn from_compiled(compiled: Result<Compiled, regex::Error>) -> (r: Result<
        Matcher,
        MatcherError,
    >)
        ensures
            match compiled {
                Ok(expression) => r == Ok::<Matcher, MatcherError>(Matcher::Regex(expression)),
                Err(e) => r == Err::<Matcher, MatcherError>(MatcherError::InvalidPattern(e)),
            },
    {
        match compiled {
            Ok(expression) => Ok(Matcher::Regex(expression)),
            Err(e) => Err(MatcherError::InvalidPattern(e)),
        }
    }

    /// Whether the predicate accepts `line`.
    pub fn matches(&self, line: &str) -> (hit: bool)
        ensures
            hit == self@.accepts(line@),
    {
        match self {
            Matcher::SubstringExact(query) => contains(line, query.as_str()),
            Matcher::SubstringFolded(query) => {
                let lowered = to_lowercase(line);
                contains(lowered.as_str(), query.as_str())
            },
            Matcher::Regex(compiled) => is_match(compiled, line),
        }
    }
}

/// Builds the predicate that `grep` asks for, for the query `q`.
///
/// Only the two mode flags of `grep` are read. Building fails only in regex
/// mode, when the engine does not take `q` as a pattern; it fails at once,
/// before any line is looked at.
pub fn build_matcher(grep: &Grep, q: &str) -> (r: Result<Matcher, MatcherError>)
    ensures
        !grep.is_regexp ==> r is Ok,
        r matches Ok(matcher) ==> matcher@ == spec_build_matcher(
            grep.is_regexp,
            grep.ignore_case,
            q@,
        ),
        r is Err ==> grep.is_regexp,
{
    if grep.is_regexp {
        Matcher::from_compiled(compile(q, grep.ignore_case))
    } else if grep.ignore_case {
        Ok(Matcher::SubstringFolded(to_lowercase(q)))
    } else {
        Ok(Matcher::SubstringExact(q.to_owned()))
    }
}

/// In substring mode without case folding, the empty query accepts every
/// line.
pub proof fn lemma_empty_query_accepts_every_line(line: Seq<char>)
    ensures
        spec_build_matcher(false, false, Seq::empty()).accepts(line),
{
    lemma_empty_needle(line);
}

} // verus!
