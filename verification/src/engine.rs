//! The regular-expression engine behind the regex matching mode.
//!
//! Compiling and running regular expressions is left to the `regex` crate.
//! Nothing in this module is proved: each item states what the rest of the
//! library takes for granted about that crate.
//!
//! An expression reaches the engine only as a [`Compiled`], and a
//! [`Compiled`] is made by `compile` alone. So every expression that is ever
//! run was built from a pattern and a case option, with every other option
//! of the engine at its default.

use vstd::prelude::*;

verus! {

/// `regex::Regex`, a compiled regular expression. Its inside is hidden from
/// the verifier.
#[verifier::external_type_specification]
#[verifier::external_body]
pub struct ExRegex(regex::Regex);

/// `regex::Error`, the reason why a pattern did not compile. Its inside is
/// hidden from the verifier.
#[verifier::external_type_specification]
#[verifier::external_body]
pub struct ExRegexError(regex::Error);

/// A regular expression that this library compiled.
///
/// The field is private and only `compile` fills it, so no expression built
/// with other options of the engine can stand here.
#[derive(Debug)]
pub struct Compiled {
    re: regex::Regex,
}

/// The pattern text that a compiled expression was built from.
pub uninterp spec fn regex_pattern(compiled: Compiled) -> Seq<char>;

/// Whether a compiled expression was built to ignore letter case.
pub uninterp spec fn regex_ignores_case(compiled: Compiled) -> bool;

/// Whether the expression `pattern`, compiled with case insensitivity set to
/// `ignore_case` and every other option at its default, has a match anywhere
/// in `haystack`.
///
/// The syntax and the meaning of patterns are those of the `regex` crate and
/// are not spelled out here.
pub uninterp spec fn regex_finds(pattern: Seq<char>, ignore_case: bool, haystack: Seq<char>) -> bool;

/// Compiles `pattern` by `regex::RegexBuilder::new(pattern)`,
/// `case_insensitive(ignore_case)` and `build()`, every other option left at
/// its default.
///
/// Taken for granted: an expression that comes back is the one that was
/// asked for. Nothing is said of which patterns compile: besides the syntax
/// of the pattern, that depends on a limit on the size of the compiled
/// program, which is counted in bytes of memory and so differs between
/// machines.
#[verifier::external_body]
pub(crate) fn compile(pattern: &str, ignore_case: bool) -> (r: Result<Compiled, regex::Error>)
    ensures
        r matches Ok(compiled) ==> regex_pattern(compiled) == pattern@ && regex_ignores_case(
            compiled,
        ) == ignore_case,
{
    match regex::RegexBuilder::new(pattern).case_insensitive(ignore_case).build() {
        Ok(re) => Ok(Compiled { re }),
        Err(e) => Err(e),
    }
}

/// Calls `regex::Regex::is_match`, which returns true if and only if the
/// expression has a match anywhere in the haystack.
///
/// Taken for granted, of the expressions that `compile` built, which are
/// the only ones that a [`Compiled`] can hold: the answer depends only on
/// the haystack and on the pattern and the case option that the expression
/// was compiled from.
#[verifier::external_body]
pub(crate) fn is_match(compiled: &Compiled, haystack: &str) -> (found: bool)
    ensures
        found == regex_finds(regex_pattern(*compiled), regex_ignores_case(*compiled), haystack@),
{
    compiled.re.is_match(haystack)
}

} // verus!
