//! What each command writes, as text.
//!
//! Nothing is printed here. These functions build the exact text that a
//! caller then writes to its output: one line per result, every line ended
//! by a newline.

use vstd::prelude::*;
use vstd::string::StringExecFns;
use crate::grep::{FileMatches, FileMatchesView, GrepResult};
use crate::lines::LineMatch;

verus! {

/// The decimal digits.
pub open spec fn digits() -> Seq<char> {
    seq!['0', '1', '2', '3', '4', '5', '6', '7', '8', '9']
}

/// A number in decimal, without sign, padding or leading zeros.
pub open spec fn decimal(number: nat) -> Seq<char>
    decreases number,
{
    if number < 10 {
        seq![digits()[number as int]]
    } else {
        decimal(number / 10).push(digits()[(number % 10) as int])
    }
}

/// A line followed by a newline.
pub open spec fn ended(line: Seq<char>) -> Seq<char> {
    line.push('\n')
}

/// Lines as one text, each line ended by a newline.
pub open spec fn lines_text(lines: Seq<Seq<char>>) -> Seq<char> {
    lines.flat_map(|line: Seq<char>| ended(line))
}

/// How a matching line is shown: a tab, the line number, a colon and a
/// space, then the line.
pub open spec fn match_line(line: (nat, Seq<char>)) -> Seq<char> {
    seq!['\t'] + decimal(line.0) + seq![':', ' '] + line.1
}

/// How a file with matches is shown: its name on a line of its own, then
/// its matching lines.
pub open spec fn file_lines(file: FileMatchesView) -> Seq<Seq<char>> {
    seq![file.name] + file.lines.map_values(|line: (nat, Seq<char>)| match_line(line))
}

/// How the result of `grep` is shown: file after file.
pub open spec fn grep_lines(files: Seq<FileMatchesView>) -> Seq<Seq<char>> {
    files.flat_map(|file: FileMatchesView| file_lines(file))
}

/// One decimal digit as a text.
fn digit_text(value: usize) -> (text: &'static str)
    requires
        value < 10,
    ensures
        text@ == seq![digits()[value as int]],
{
    proof {
        reveal_strlit("0");
        reveal_strlit("1");
        reveal_strlit("2");
        reveal_strlit("3");
        reveal_strlit("4");
        reveal_strlit("5");
        reveal_strlit("6");
        reveal_strlit("7");
        reveal_strlit("8");
        reveal_strlit("9");
    }
    match value {
        0 => "0",
        1 => "1",
        2 => "2",
        3 => "3",
        4 => "4",
        5 => "5",
        6 => "6",
        7 => "7",
        8 => "8",
        _ => "9",
    }
}

/// A number written in decimal.
pub fn decimal_text(number: usize) -> (text: String)
    ensures
        text@ == decimal(number as nat),
    decreases number,
{
    if number < 10 {
        digit_text(number).to_owned()
    } else {
        let mut text = decimal_text(number / 10);
        text.append(digit_text(number % 10));
        text
    }
}

/// What `echo` writes: the message and a newline.
pub fn echo(message: &str) -> (text: String)
    ensures
        text@ == ended(message@),
{
    proof {
        reveal_strlit("\n");
    }
    let mut text = message.to_owned();
    text.append("\n");
    text
}

/// The text that a command writes for its lines: each line in turn, ended
/// by a newline.
pub fn join_lines(lines: &Vec<String>) -> (text: String)
    ensures
        text@ == lines_text(lines.deep_view()),
{
    let ghost all = lines.deep_view();
    let ghost end = |line: Seq<char>| ended(line);
    let mut text = String::new();
    let mut i: usize = 0;
    proof {
        reveal_strlit("\n");
    }
    while i < lines.len()
        invariant
            i <= lines.len(),
            all == lines.deep_view(),
            end == |line: Seq<char>| ended(line),
            "\n"@ == seq!['\n'],
            text@ == lines_text(all.take(i as int)),
        decreases lines.len() - i,
    {
        text.append(lines[i].as_str());
        text.append("\n");
        proof {
            let line = all[i as int];
            assert(all.take(i + 1) =~= all.take(i as int).push(line));
            all.take(i as int).lemma_flat_map_push(end, line);
        }
        i += 1;
    }
    proof {
        assert(all.take(i as int) =~= all);
    }
    text
}

/// How a matching line is shown.
pub fn show_match(line: &LineMatch) -> (text: String)
    ensures
        text@ == match_line(line@),
{
    proof {
        reveal_strlit("\t");
        reveal_strlit(": ");
    }
    let mut text = "\t".to_owned();
    let number = decimal_text(line.number);
    text.append(number.as_str());
    text.append(": ");
    text.append(line.text.as_str());
    text
}

/// Adds to `out` the lines that show one file with matches.
fn show_file(out: &mut Vec<String>, file: &FileMatches)
    ensures
        final(out).deep_view() == old(out).deep_view() + file_lines(file@),
{
    let ghost before = out.deep_view();
    let ghost shown = file@.lines.map_values(|line: (nat, Seq<char>)| match_line(line));
    out.push(file.name.clone());
    let mut j: usize = 0;
    while j < file.lines.len()
        invariant
            j <= file.lines.len(),
            shown == file@.lines.map_values(|line: (nat, Seq<char>)| match_line(line)),
            out.deep_view() == before + seq![file@.name] + shown.take(j as int),
        decreases file.lines.len() - j,
    {
        let ghost earlier = out.deep_view();
        let text = show_match(&file.lines[j]);
        out.push(text);
        proof {
            assert(out.deep_view() =~= earlier.push(shown[j as int]));
        }
        j += 1;
    }
}

/// The lines that show the result of `grep`: for each file its name, then
/// each of its matching lines as a tab, the line number, a colon, a space
/// and the line. Files come in the order of the result, lines in the order
/// of their file.
pub fn show_grep(result: &GrepResult) -> (lines: Vec<String>)
    ensures
        lines.deep_view() == grep_lines(result@),
{
    let files = result.files();
    let ghost all = files.deep_view();
    let ghost show = |file: FileMatchesView| file_lines(file);
    let mut lines: Vec<String> = Vec::new();
    let mut i: usize = 0;
    while i < files.len()
        invariant
            i <= files.len(),
            all == files.deep_view(),
            show == |file: FileMatchesView| file_lines(file),
            lines.deep_view() == grep_lines(all.take(i as int)),
        decreases files.len() - i,
    {
        show_file(&mut lines, &files[i]);
        proof {
            let file = all[i as int];
            assert(all.take(i + 1) =~= all.take(i as int).push(file));
            all.take(i as int).lemma_flat_map_push(show, file);
        }
        i += 1;
    }
    proof {
        assert(all.take(i as int) =~= all);
    }
    lines
}

} // verus!
