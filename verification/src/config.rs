//! The configuration of one search run.

use vstd::prelude::*;

verus! {

/// The configuration of a search: what to look for, where, and how.
#[derive(Debug)]
pub struct Grep {
    /// The text or regular expression to look for.
    pub query: String,
    /// The glob pattern that selects the files to scan.
    pub filename: String,
    /// Whether letter case is ignored when matching.
    pub ignore_case: bool,
    /// Whether `query` is a regular expression rather than a plain substring.
    pub is_regexp: bool,
}

/// What a [`Grep`] holds.
pub struct SpecGrep {
    pub query: Seq<char>,
    pub filename: Seq<char>,
    pub ignore_case: bool,
    pub is_regexp: bool,
}

impl View for Grep {
    type V = SpecGrep;

    open spec fn view(&self) -> SpecGrep {
        SpecGrep {
            query: self.query@,
            filename: self.filename@,
            ignore_case: self.ignore_case,
            is_regexp: self.is_regexp,
        }
    }
}

/// Why a configuration could not be built.
#[derive(Debug, Clone, Copy, PartialEq, Eq, Structural)]
pub enum ConfigError {
    /// The argument list holds no query, or no file pattern.
    MissingArguments,
}

/// The configuration that an argument list and the two mode flags ask for,
/// if the list names a query and a file pattern.
///
/// The first argument is the program's name, the second the query, the third
/// the file pattern. Further arguments are ignored.
pub open spec fn spec_grep_from_args(args: Seq<Seq<char>>, ignore_case: bool, is_regexp: bool) -> Option<
    SpecGrep,
> {
    if args.len() >= 3 {
        Some(SpecGrep { query: args[1], filename: args[2], ignore_case, is_regexp })
    } else {
        None
    }
}

/// The texts of an argument list.
pub open spec fn arguments(args: Seq<String>) -> Seq<Seq<char>> {
    args.map_values(|arg: String| arg@)
}

impl Grep {
    /// Builds the configuration from the program's argument list, program
    /// name first, and the two mode flags.
    ///
    /// Fails when the list is too short to name both a query and a file
    /// pattern.
    pub fn construct_grep_from_args(args: &Vec<String>, ignore_case: bool, is_regexp: bool) -> (r:
        Result<Grep, ConfigError>)
        ensures
            match spec_grep_from_args(arguments(args@), ignore_case, is_regexp) {
                Some(grep) => r is Ok && r->Ok_0@ == grep,
                None => r == Err::<Grep, ConfigError>(ConfigError::MissingArguments),
            },
    {
        if args.len() < 3 {
            return Err(ConfigError::MissingArguments);
        }
        let query = args[1].clone();
        let filename = args[2].clone();
        Ok(Grep { query, filename, ignore_case, is_regexp })
    }
}

} // verus!
