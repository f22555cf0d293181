//! Searching the lines of one file.
//!
//! A file is handed over as the sequence of attempts to read its lines, in
//! order. An attempt that failed, because the bytes were not text or the
//! read itself went wrong, ends the file there: lines before it count, the
//! failed line and whatever follows do not. Lines are numbered from 1.

use vstd::prelude::*;
use crate::text::{has_substring, str_contains};

verus! {

/// One attempt to read a line of a file.
#[derive(Debug)]
pub enum Line {
    /// The line, without its line terminator.
    Text(String),
    /// The line could not be read or decoded.
    Unreadable,
}

/// A line that contains the pattern, with its number in its file.
#[derive(Debug)]
pub struct LineMatch {
    /// The number of the line, counting from 1.
    pub number: usize,
    /// The line, exactly as it was read.
    pub text: String,
}

impl View for Line {
    type V = Option<Seq<char>>;

    open spec fn view(&self) -> Option<Seq<char>> {
        match *self {
            Line::Text(text) => Some(text@),
            Line::Unreadable => None,
        }
    }
}

impl DeepView for Line {
    type V = Option<Seq<char>>;

    open spec fn deep_view(&self) -> Option<Seq<char>> {
        self@
    }
}

impl View for LineMatch {
    type V = (nat, Seq<char>);

    open spec fn view(&self) -> (nat, Seq<char>) {
        (self.number as nat, self.text@)
    }
}

impl DeepView for LineMatch {
    type V = (nat, Seq<char>);

    open spec fn deep_view(&self) -> (nat, Seq<char>) {
        self@
    }
}

/// How many lines of the file count: those before the first failed attempt.
pub open spec fn readable(lines: Seq<Option<Seq<char>>>) -> nat
    decreases lines.len(),
{
    if lines.len() == 0 || lines[0] is None {
        0
    } else {
        1 + readable(lines.drop_first())
    }
}

/// The first `count` lines, each with its number.
pub open spec fn numbered(lines: Seq<Option<Seq<char>>>, count: nat) -> Seq<(nat, Seq<char>)> {
    Seq::new(count, |i: int| ((i + 1) as nat, lines[i]->Some_0))
}

/// The lines of a file that contain the pattern, with their numbers, in
/// ascending order.
pub open spec fn matching_lines(pattern: Seq<char>, lines: Seq<Option<Seq<char>>>) -> Seq<
    (nat, Seq<char>),
> {
    numbered(lines, readable(lines)).filter(
        |line: (nat, Seq<char>)| has_substring(line.1, pattern),
    )
}

/// The mapping from line number to text that a sequence of numbered lines
/// stands for; where a number occurs twice, the later line counts.
pub open spec fn line_map(lines: Seq<(nat, Seq<char>)>) -> Map<nat, Seq<char>>
    decreases lines.len(),
{
    if lines.len() == 0 {
        Map::empty()
    } else {
        line_map(lines.drop_last()).insert(lines.last().0, lines.last().1)
    }
}

/// The mapping that the matches of a file stand for, said directly: the
/// numbers of the readable lines that contain the pattern, each mapped to
/// its line.
pub open spec fn matching_map(pattern: Seq<char>, lines: Seq<Option<Seq<char>>>) -> Map<
    nat,
    Seq<char>,
> {
    Map::new(
        |number: nat|
            1 <= number <= readable(lines) && has_substring(lines[number - 1]->Some_0, pattern),
        |number: nat| lines[number - 1]->Some_0,
    )
}

/// The numbers go up strictly from one line to the next.
pub open spec fn ascending(lines: Seq<(nat, Seq<char>)>) -> bool {
    forall|i: int, j: int|
        0 <= i < j < lines.len() ==> (#[trigger] lines[i]).0 < (#[trigger] lines[j]).0
}

/// `readable` is the position of the first failed attempt, or the number of
/// lines if none failed.
pub proof fn lemma_readable(lines: Seq<Option<Seq<char>>>)
    ensures
        readable(lines) <= lines.len(),
        forall|i: int| 0 <= i < readable(lines) ==> (#[trigger] lines[i]) is Some,
        readable(lines) < lines.len() ==> lines[readable(lines) as int] is None,
    decreases lines.len(),
{
    if lines.len() > 0 && lines[0] is Some {
        let rest = lines.drop_first();
        lemma_readable(rest);
        assert forall|i: int| 0 <= i < readable(lines) implies (#[trigger] lines[i]) is Some by {
            if i > 0 {
                assert(rest[i - 1] == lines[i]);
            }
        }
    }
}

/// A position up to which every attempt succeeded, and at which the file
/// ends or an attempt failed, is `readable`.
pub proof fn lemma_readable_is(lines: Seq<Option<Seq<char>>>, count: nat)
    requires
        count <= lines.len(),
        forall|i: int| 0 <= i < count ==> (#[trigger] lines[i]) is Some,
        count < lines.len() ==> lines[count as int] is None,
    ensures
        readable(lines) == count,
{
    lemma_readable(lines);
}

/// The lines of a file that contain `pattern`, each with its number, in
/// ascending order.
///
/// Lines are numbered from 1 in the order given. Reading stops at the first
/// attempt that failed: matches before it are kept, nothing after it is
/// looked at. The text of a match is the line unchanged.
pub fn search_lines(pattern: &str, lines: &Vec<Line>) -> (matches: Vec<LineMatch>)
    ensures
        matches.deep_view() == matching_lines(pattern@, lines.deep_view()),
        ascending(matches.deep_view()),
        line_map(matches.deep_view()) == matching_map(pattern@, lines.deep_view()),
{
    let ghost all = lines.deep_view();
    let ghost hit = |line: (nat, Seq<char>)| has_substring(line.1, pattern@);
    let mut matches: Vec<LineMatch> = Vec::new();
    let mut i: usize = 0;
    proof {
        reveal(Seq::filter);
    }
    while i < lines.len()
        invariant
            i <= lines.len(),
            all == lines.deep_view(),
            hit == |line: (nat, Seq<char>)| has_substring(line.1, pattern@),
            forall|k: int| 0 <= k < i ==> (#[trigger] all[k]) is Some,
            matches.deep_view() == numbered(all, i as nat).filter(hit),
        ensures
            i < lines.len() ==> all[i as int] is None,
        decreases lines.len() - i,
    {
        match &lines[i] {
            Line::Unreadable => {
                break ;
            },
            Line::Text(text) => {
                let found = str_contains(text.as_str(), pattern);
                if found {
                    matches.push(LineMatch { number: i + 1, text: text.clone() });
                }
                proof {
                    let line = ((i + 1) as nat, text@);
                    assert(numbered(all, (i + 1) as nat) =~= numbered(all, i as nat).push(line));
                    numbered(all, i as nat).lemma_filter_push(line, hit);
                }
            },
        }
        i += 1;
    }
    proof {
        lemma_readable_is(all, i as nat);
        lemma_matching_ascending(pattern@, all);
        lemma_matching_map(pattern@, all);
    }
    matches
}

/// Every member of a filtered numbering is a numbered line that passes the
/// filter, and the members keep their order.
proof fn lemma_filter_numbered(
    lines: Seq<Option<Seq<char>>>,
    count: nat,
    keep: spec_fn((nat, Seq<char>)) -> bool,
)
    ensures
        ascending(numbered(lines, count).filter(keep)),
        forall|k: int|
            0 <= k < numbered(lines, count).filter(keep).len() ==> {
                let line = #[trigger] numbered(lines, count).filter(keep)[k];
                1 <= line.0 <= count && line.1 == lines[line.0 - 1]->Some_0 && keep(line)
            },
    decreases count,
{
    reveal(Seq::filter);
    if count > 0 {
        let shorter = numbered(lines, (count - 1) as nat);
        assert(numbered(lines, count).drop_last() =~= shorter);
        lemma_filter_numbered(lines, (count - 1) as nat, keep);
    }
}

/// Matches come out in ascending order of line number.
pub proof fn lemma_matching_ascending(pattern: Seq<char>, lines: Seq<Option<Seq<char>>>)
    ensures
        ascending(matching_lines(pattern, lines)),
{
    lemma_filter_numbered(
        lines,
        readable(lines),
        |line: (nat, Seq<char>)| has_substring(line.1, pattern),
    );
}

/// The mapping of a sequence with ascending numbers holds exactly its
/// members.
pub proof fn lemma_line_map_members(lines: Seq<(nat, Seq<char>)>)
    requires
        ascending(lines),
    ensures
        forall|k: int|
            0 <= k < lines.len() ==> line_map(lines).dom().contains((#[trigger] lines[k]).0)
                && line_map(lines)[lines[k].0] == lines[k].1,
        forall|number: nat| #[trigger]
            line_map(lines).dom().contains(number) ==> exists|k: int|
                0 <= k < lines.len() && (#[trigger] lines[k]).0 == number,
    decreases lines.len(),
{
    if lines.len() > 0 {
        let front = lines.drop_last();
        assert(ascending(front));
        lemma_line_map_members(front);
        assert forall|k: int| 0 <= k < lines.len() implies line_map(lines).dom().contains(
            (#[trigger] lines[k]).0,
        ) && line_map(lines)[lines[k].0] == lines[k].1 by {
            if k < front.len() {
                assert(front[k] == lines[k]);
            }
        }
        assert forall|number: nat| #[trigger]
            line_map(lines).dom().contains(number) implies exists|k: int|
            0 <= k < lines.len() && (#[trigger] lines[k]).0 == number by {
            if number != lines.last().0 {
                assert(line_map(front).dom().contains(number));
                let k = choose|k: int| 0 <= k < front.len() && (#[trigger] front[k]).0 == number;
                assert(lines[k].0 == number);
            }
        }
    }
}

/// The matches of a file map exactly the numbers of its readable lines
/// that contain the pattern, each to the text of that line, unchanged.
pub proof fn lemma_matching_map(pattern: Seq<char>, lines: Seq<Option<Seq<char>>>)
    ensures
        line_map(matching_lines(pattern, lines)) == matching_map(pattern, lines),
{
    let keep = |line: (nat, Seq<char>)| has_substring(line.1, pattern);
    let all = numbered(lines, readable(lines));
    let matches = matching_lines(pattern, lines);
    lemma_filter_numbered(lines, readable(lines), keep);
    lemma_line_map_members(matches);
    let left = line_map(matches);
    let right = matching_map(pattern, lines);
    assert forall|number: nat| left.dom().contains(number) == right.dom().contains(number) by {
        if right.dom().contains(number) {
            all.lemma_filter_contains(keep, number - 1);
            let k = choose|k: int| 0 <= k < matches.len() && matches[k] == all[number - 1];
            assert(matches[k].0 == number);
        }
    }
    assert(left =~= right);
}

/// A file has a matching line exactly when its mapping has an entry.
pub proof fn lemma_matching_some(pattern: Seq<char>, lines: Seq<Option<Seq<char>>>)
    ensures
        matching_lines(pattern, lines).len() > 0 <==> exists|number: nat|
            matching_map(pattern, lines).dom().contains(number),
{
    let matches = matching_lines(pattern, lines);
    lemma_matching_ascending(pattern, lines);
    lemma_line_map_members(matches);
    lemma_matching_map(pattern, lines);
    if matches.len() > 0 {
        assert(line_map(matches).dom().contains(matches[0].0));
    }
}

} // verus!
