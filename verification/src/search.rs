//! Applying a predicate to every line of a text.

use vstd::prelude::*;
use vstd::string::StringSliceAdditionalSpecFns;
use crate::matcher::Matcher;
use crate::text::{lines_of, split_first_line};

verus! {

/// Every line of `lines` with its one-based position.
pub open spec fn numbered_lines(lines: Seq<Seq<char>>) -> Seq<(nat, Seq<char>)> {
    Seq::new(lines.len(), |k: int| ((k + 1) as nat, lines[k]))
}

/// The lines among `lines` that `keep` accepts, each with its one-based
/// position in `lines`, in the order in which they stand there.
pub open spec fn select_lines(lines: Seq<Seq<char>>, keep: spec_fn(Seq<char>) -> bool) -> Seq<
    (nat, Seq<char>),
> {
    numbered_lines(lines).filter(|m: (nat, Seq<char>)| keep(m.1))
}

/// Whether `keep` tells, for every line, the answer that `matcher` gives for
/// it.
pub open spec fn describes<F: Fn(&str) -> bool>(
    keep: spec_fn(Seq<char>) -> bool,
    matcher: F,
) -> bool {
    forall|line: &str, answer: bool| #[trigger]
        call_ensures(matcher, (line,), answer) ==> answer == keep(line@)
}

/// Whether `matcher` gives the same answer for every line.
pub open spec fn always_answers<F: Fn(&str) -> bool>(matcher: F, answer: bool) -> bool {
    forall|line: &str, given: bool| #[trigger]
        call_ensures(matcher, (line,), given) ==> given == answer
}

/// Whether line number `number` is among the entries of a search result.
pub open spec fn reported(found: Seq<(usize, &str)>, number: int) -> bool {
    exists|i: int| 0 <= i < found.len() && (#[trigger] found[i]).0 == number
}

/// Whether `matcher` answered `false` for a line whose text is `line`.
pub open spec fn rejected<F: Fn(&str) -> bool>(matcher: F, line: Seq<char>) -> bool {
    exists|text: &str| text@ == line && #[trigger] call_ensures(matcher, (text,), false)
}

/// What a search result says: the numbers and the texts of the lines found.
pub open spec fn found_lines(found: Seq<(usize, &str)>) -> Seq<(nat, Seq<char>)> {
    found.map_values(|m: (usize, &str)| (m.0 as nat, m.1@))
}

/// Selecting among one more line: the new line comes last, under the next
/// number, if `keep` accepts it.
pub proof fn lemma_select_push(
    lines: Seq<Seq<char>>,
    line: Seq<char>,
    keep: spec_fn(Seq<char>) -> bool,
)
    ensures
        select_lines(lines.push(line), keep) == if keep(line) {
            select_lines(lines, keep).push(((lines.len() + 1) as nat, line))
        } else {
            select_lines(lines, keep)
        },
{
    let entry = ((lines.len() + 1) as nat, line);
    assert(numbered_lines(lines.push(line)) =~= numbered_lines(lines).push(entry));
    numbered_lines(lines).lemma_filter_push(entry, |m: (nat, Seq<char>)| keep(m.1));
}

/// A predicate that accepts every line of a text selects all of them,
/// numbered from one, in order.
pub proof fn lemma_select_all(lines: Seq<Seq<char>>, keep: spec_fn(Seq<char>) -> bool)
    requires
        forall|k: int| 0 <= k < lines.len() ==> keep(#[trigger] lines[k]),
    ensures
        select_lines(lines, keep) == numbered_lines(lines),
    decreases lines.len(),
{
    if lines.len() > 0 {
        let before = lines.drop_last();
        assert forall|k: int| 0 <= k < before.len() implies keep(#[trigger] before[k]) by {
            assert(before[k] == lines[k]);
        }
        lemma_select_all(before, keep);
        assert(before.push(lines.last()) =~= lines);
        lemma_select_push(before, lines.last(), keep);
    }
}

/// A predicate that accepts no line of a text selects nothing.
pub proof fn lemma_select_none(lines: Seq<Seq<char>>, keep: spec_fn(Seq<char>) -> bool)
    requires
        forall|k: int| 0 <= k < lines.len() ==> !keep(#[trigger] lines[k]),
    ensures
        select_lines(lines, keep) == Seq::<(nat, Seq<char>)>::empty(),
    decreases lines.len(),
{
    if lines.len() > 0 {
        let before = lines.drop_last();
        assert forall|k: int| 0 <= k < before.len() implies !keep(#[trigger] before[k]) by {
            assert(before[k] == lines[k]);
        }
        lemma_select_none(before, keep);
        assert(before.push(lines.last()) =~= lines);
        lemma_select_push(before, lines.last(), keep);
    }
}

/// What a selection holds: each entry is a line that `keep` accepts, under
/// the number of its place in the text; the numbers strictly increase; and
/// every accepted line of the text is among the entries.
pub proof fn lemma_select_entries(lines: Seq<Seq<char>>, keep: spec_fn(Seq<char>) -> bool)
    ensures
        forall|i: int|
            #![trigger select_lines(lines, keep)[i]]
            0 <= i < select_lines(lines, keep).len() ==> {
                let (number, line) = select_lines(lines, keep)[i];
                &&& 1 <= number <= lines.len()
                &&& line == lines[number - 1]
                &&& keep(line)
            },
        forall|i: int, j: int|
            #![trigger select_lines(lines, keep)[i], select_lines(lines, keep)[j]]
            0 <= i < j < select_lines(lines, keep).len() ==> select_lines(lines, keep)[i].0
                < select_lines(lines, keep)[j].0,
        forall|k: int|
            0 <= k < lines.len() && keep(#[trigger] lines[k]) ==> select_lines(
                lines,
                keep,
            ).contains(((k + 1) as nat, lines[k])),
    decreases lines.len(),
{
    if lines.len() > 0 {
        // The selection among all lines but the last is the selection among
        // all lines, less the last line if `keep` accepts it.
        let before = lines.drop_last();
        lemma_select_entries(before, keep);
        assert(before.push(lines.last()) =~= lines);
        lemma_select_push(before, lines.last(), keep);
        let shorter = select_lines(before, keep);
        let longer = select_lines(lines, keep);
        assert forall|k: int| 0 <= k < lines.len() && keep(#[trigger] lines[k]) implies longer.contains(
            ((k + 1) as nat, lines[k]),
        ) by {
            let entry = ((k + 1) as nat, lines[k]);
            if k < lines.len() - 1 {
                let i = choose|i: int| 0 <= i < shorter.len() && shorter[i] == entry;
                assert(longer[i] == entry);
            } else {
                assert(longer.last() == entry);
            }
        }
    }
}

/// Runs `matcher` against each line of `contents` and returns the lines for
/// which it answers `true`, each with its one-based line number, in the
/// order of the text. A line is returned as it stands in `contents`,
/// without its terminator.
///
/// `matcher` is meant to be a pure predicate on the text of a line. Whatever
/// spec predicate tells its answers, the result is the selection that this
/// predicate makes among the lines of `contents`. So a `matcher` that always
/// answers `true` gets every line, numbered from one, and one that always
/// answers `false` gets nothing. Of any `matcher` at all, each entry of the
/// result is a line of `contents` under its number, for which `matcher`
/// answered `true`; the numbers strictly increase; and for every line that
/// is not in the result `matcher` answered `false`.
pub fn search<'a, F>(contents: &'a str, matcher: F) -> (found: Vec<(usize, &'a str)>) where
    F: Fn(&str) -> bool,

    requires
        forall|line: &str| #[trigger] call_requires(matcher, (line,)),
    ensures
        forall|keep: spec_fn(Seq<char>) -> bool| #[trigger]
            describes(keep, matcher) ==> found_lines(found@) == select_lines(
                lines_of(contents@),
                keep,
            ),
        always_answers(matcher, true) ==> found_lines(found@) == numbered_lines(
            lines_of(contents@),
        ),
        always_answers(matcher, false) ==> found@.len() == 0,
        forall|i: int|
            0 <= i < found@.len() ==> {
                let (number, line) = #[trigger] found@[i];
                &&& 1 <= number <= lines_of(contents@).len()
                &&& line@ == lines_of(contents@)[number - 1]
                &&& call_ensures(matcher, (line,), true)
            },
        forall|i: int, j: int|
            0 <= i < j < found@.len() ==> (#[trigger] found@[i]).0 < (#[trigger] found@[j]).0,
        forall|k: int|
            0 <= k < lines_of(contents@).len() ==> reported(found@, k + 1) || rejected(
                matcher,
                #[trigger] lines_of(contents@)[k],
            ),
{
    let ghost all = lines_of(contents@);
    let ghost mut done: Seq<Seq<char>> = Seq::empty();
    let mut found: Vec<(usize, &'a str)> = Vec::new();
    let mut rest: &'a str = contents;
    let mut number: usize = 0;
    let total: usize = contents.as_bytes().len();
    loop
        invariant
            forall|line: &str| #[trigger] call_requires(matcher, (line,)),
            all == done + lines_of(rest@),
            number == done.len(),
            number + rest.spec_bytes().len() <= total,
            forall|keep: spec_fn(Seq<char>) -> bool| #[trigger]
                describes(keep, matcher) ==> found_lines(found@) == select_lines(done, keep),
            forall|i: int|
                0 <= i < found@.len() ==> {
                    let (number, line) = #[trigger] found@[i];
                    &&& 1 <= number <= done.len()
                    &&& line@ == done[number - 1]
                    &&& call_ensures(matcher, (line,), true)
                },
            forall|i: int, j: int|
                0 <= i < j < found@.len() ==> (#[trigger] found@[i]).0 < (#[trigger] found@[j]).0,
            forall|k: int|
                0 <= k < done.len() ==> reported(found@, k + 1) || rejected(
                    matcher,
                    #[trigger] done[k],
                ),
        ensures
            all == done,
        decreases rest.spec_bytes().len(),
    {
        match split_first_line(rest) {
            None => {
                break ;
            },
            Some((line, tail)) => {
                number = number + 1;
                let hit = matcher(line);
                proof {
                    assert forall|keep: spec_fn(Seq<char>) -> bool| #[trigger]
                        describes(keep, matcher) implies select_lines(done.push(line@), keep)
                        == if hit {
                        found_lines(found@).push((number as nat, line@))
                    } else {
                        found_lines(found@)
                    } by {
                        lemma_select_push(done, line@, keep);
                    }
                    let after = if hit {
                        found@.push((number, line))
                    } else {
                        found@
                    };
                    assert forall|k: int| 0 <= k < done.len() + 1 implies reported(after, k + 1)
                        || rejected(matcher, #[trigger] done.push(line@)[k]) by {
                        if k < done.len() && reported(found@, k + 1) {
                            let i = choose|i: int|
                                0 <= i < found@.len() && (#[trigger] found@[i]).0 == k + 1;
                            assert(after[i].0 == k + 1);
                        } else if k == done.len() && hit {
                            assert(after[found@.len() as int].0 == number);
                        }
                    }
                    done = done.push(line@);
                }
                if hit {
                    found.push((number, line));
                }
                rest = tail;
            },
        }
    }
    proof {
        let always = |line: Seq<char>| true;
        let never = |line: Seq<char>| false;
        if always_answers(matcher, true) {
            assert(describes(always, matcher));
            lemma_select_all(all, always);
        }
        if always_answers(matcher, false) {
            assert(describes(never, matcher));
            lemma_select_none(all, never);
        }
    }
    found
}

impl Matcher {
    /// Returns the lines of `contents` that this matcher accepts, each with
    /// its one-based line number, in the order of the text.
    pub fn search<'a>(&self, contents: &'a str) -> (found: Vec<(usize, &'a str)>)
        ensures
            found_lines(found@) == select_lines(lines_of(contents@), self@.predicate()),
    {
        let test = |line: &str| -> (hit: bool)
            ensures
                hit == self@.accepts(line@),
            { self.matches(line) };
        proof {
            assert(describes(self@.predicate(), test));
        }
        search(contents, test)
    }
}

} // verus!
