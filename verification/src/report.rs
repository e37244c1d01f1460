//! Searching a text with a matcher and laying out what was found.

use vstd::prelude::*;
use vstd::string::StringExecFns;
use crate::matcher::{Matcher, SpecMatcher};
use crate::search::{found_lines, select_lines};
use crate::text::lines_of;

verus! {

/// The character that stands for a decimal digit.
pub open spec fn digit(d: nat) -> char
    recommends
        d < 10,
{
    if d == 0 {
        '0'
    } else if d == 1 {
        '1'
    } else if d == 2 {
        '2'
    } else if d == 3 {
        '3'
    } else if d == 4 {
        '4'
    } else if d == 5 {
        '5'
    } else if d == 6 {
        '6'
    } else if d == 7 {
        '7'
    } else if d == 8 {
        '8'
    } else {
        '9'
    }
}

/// A natural number in decimal, without leading zeros.
pub open spec fn decimal(n: nat) -> Seq<char>
    decreases n,
{
    if n < 10 {
        seq![digit(n)]
    } else {
        decimal(n / 10).push(digit(n % 10))
    }
}

/// The report line for a matching line: a colon, the line number, a space,
/// and the line as it stands in the text.
pub open spec fn spec_format_match(number: nat, line: Seq<char>) -> Seq<char> {
    seq![':'] + decimal(number) + seq![' '] + line
}

/// The report for a text: one report line for each line that `matcher`
/// accepts, in the order of the text.
pub open spec fn spec_search_in_text(contents: Seq<char>, matcher: SpecMatcher) -> Seq<Seq<char>> {
    select_lines(lines_of(contents), matcher.predicate()).map_values(
        |m: (nat, Seq<char>)| spec_format_match(m.0, m.1),
    )
}

fn digit_str(d: usize) -> (s: &'static str)
    requires
        d < 10,
    ensures
        s@ == seq![digit(d as nat)],
{
    proof {
        reveal_strlit("0");
        reveal_strlit("1");
        reveal_strlit("2");
        reveal_strlit("3");
        reveal_strlit("4");
        reveal_strlit("5");
        reveal_strlit("6");
        reveal_strlit("7");
        reveal_strlit("8");
        reveal_strlit("9");
    }
    if d == 0 {
        "0"
    } else if d == 1 {
        "1"
    } else if d == 2 {
        "2"
    } else if d == 3 {
        "3"
    } else if d == 4 {
        "4"
    } else if d == 5 {
        "5"
    } else if d == 6 {
        "6"
    } else if d == 7 {
        "7"
    } else if d == 8 {
        "8"
    } else {
        "9"
    }
}

/// Writes `n` in decimal.
pub fn decimal_string(n: usize) -> (s: String)
    ensures
        s@ == decimal(n as nat),
    decreases n,
{
    if n < 10 {
        String::from_str(digit_str(n))
    } else {
        let mut s = decimal_string(n / 10);
        s.append(digit_str(n % 10));
        s
    }
}

/// Lays out one matching line for the report.
pub fn format_match(number: usize, line: &str) -> (s: String)
    ensures
        s@ == spec_format_match(number as nat, line@),
{
    proof {
        reveal_strlit(":");
        reveal_strlit(" ");
    }
    let mut s = String::from_str(":");
    s.append(decimal_string(number).as_str());
    s.append(" ");
    s.append(line);
    s
}

/// The texts of a sequence of strings.
pub open spec fn texts(lines: Seq<String>) -> Seq<Seq<char>> {
    lines.map_values(|s: String| s@)
}

/// Searches `contents` with `matcher` and returns the report lines for the
/// matching lines, in the order of the text.
pub fn search_in_text(contents: &str, matcher: &Matcher) -> (report: Vec<String>)
    ensures
        texts(report@) == spec_search_in_text(contents@, matcher@),
{
    let ghost layout = |m: (nat, Seq<char>)| spec_format_match(m.0, m.1);
    let ghost selected = select_lines(lines_of(contents@), matcher@.predicate());
    let found = matcher.search(contents);
    let mut report: Vec<String> = Vec::new();
    let mut i: usize = 0;
    while i < found.len()
        invariant
            i <= found.len(),
            found_lines(found@) == selected,
            layout == |m: (nat, Seq<char>)| spec_format_match(m.0, m.1),
            texts(report@) == selected.take(i as int).map_values(layout),
        decreases found.len() - i,
    {
        let (number, line) = found[i];
        let formatted = format_match(number, line);
        proof {
            assert(selected.take(i + 1).map_values(layout) =~= selected.take(i as int).map_values(
                layout,
            ).push(layout(selected[i as int])));
        }
        report.push(formatted);
        i = i + 1;
    }
    report
}

} // verus!
