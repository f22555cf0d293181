use cutils::grep::{grep, GrepResult, Scan};
use cutils::lines::{Line, LineMatch};
use cutils::output::{join_lines, show_grep};
use cutils::walk::{Entry, ErrorKind, Kind, Visit};

fn directory(path: &str, depth: usize) -> Scan {
    Scan {
        visit: Visit::Found(Entry { path: path.to_string(), depth, kind: Kind::Directory }),
        lines: vec![],
    }
}

fn file(path: &str, depth: usize, lines: &[&str]) -> Scan {
    Scan {
        visit: Visit::Found(Entry { path: path.to_string(), depth, kind: Kind::File }),
        lines: lines.iter().map(|line| Line::Text(line.to_string())).collect(),
    }
}

fn table(result: &GrepResult) -> Vec<(String, Vec<(usize, String)>)> {
    result
        .files()
        .iter()
        .map(|file| {
            (file.name.clone(), file.lines.iter().map(|line| (line.number, line.text.clone())).collect())
        })
        .collect()
}

fn hit(number: usize, text: &str) -> (usize, String) {
    (number, text.to_string())
}

fn some_match(number: usize, text: &str) -> LineMatch {
    LineMatch { number, text: text.to_string() }
}

fn sample_tree() -> Vec<Scan> {
    vec![
        directory("root", 0),
        directory("root/x", 1),
        file("root/x/hello.txt", 2, &["foo", "bar foo", "baz"]),
    ]
}

#[test]
fn grep_maps_file_name_to_line_number_to_line() {
    let result = grep("foo", &sample_tree()).unwrap();
    assert_eq!(table(&result), vec![("hello.txt".to_string(), vec![hit(1, "foo"), hit(2, "bar foo")])]);
}

#[test]
fn grep_output_is_name_then_indented_matches() {
    let result = grep("foo", &sample_tree()).unwrap();
    assert_eq!(
        show_grep(&result),
        vec!["hello.txt".to_string(), "\t1: foo".to_string(), "\t2: bar foo".to_string()]
    );
    assert_eq!(join_lines(&show_grep(&result)), "hello.txt\n\t1: foo\n\t2: bar foo\n");
}

#[test]
fn grep_leaves_out_a_file_without_a_match() {
    let scans = vec![
        directory("root", 0),
        file("root/a.txt", 1, &["nothing here"]),
        file("root/b.txt", 1, &["a foo"]),
        file("root/c.txt", 1, &[]),
    ];
    let result = grep("foo", &scans).unwrap();
    assert_eq!(table(&result), vec![("b.txt".to_string(), vec![hit(1, "a foo")])]);
    assert!(result.files().iter().all(|file| !file.lines.is_empty()));
}

#[test]
fn grep_counts_lines_anew_for_each_file() {
    let scans = vec![
        directory("root", 0),
        file("root/a.txt", 1, &["x", "x", "foo"]),
        file("root/b.txt", 1, &["foo", "x", "foo"]),
    ];
    let result = grep("foo", &scans).unwrap();
    assert_eq!(
        table(&result),
        vec![
            ("a.txt".to_string(), vec![hit(3, "foo")]),
            ("b.txt".to_string(), vec![hit(1, "foo"), hit(3, "foo")]),
        ]
    );
}

#[test]
fn grep_keeps_matches_before_an_unreadable_line() {
    let scans = vec![
        directory("root", 0),
        Scan {
            visit: Visit::Found(Entry { path: "root/data".to_string(), depth: 1, kind: Kind::File }),
            lines: vec![
                Line::Text("foo".to_string()),
                Line::Unreadable,
                Line::Text("foo again".to_string()),
            ],
        },
        file("root/next.txt", 1, &["more foo"]),
    ];
    let result = grep("foo", &scans).unwrap();
    assert_eq!(
        table(&result),
        vec![
            ("data".to_string(), vec![hit(1, "foo")]),
            ("next.txt".to_string(), vec![hit(1, "more foo")]),
        ]
    );
}

#[test]
fn grep_skips_a_file_that_could_not_be_opened() {
    let scans = vec![
        directory("root", 0),
        Scan {
            visit: Visit::Found(Entry { path: "root/locked".to_string(), depth: 1, kind: Kind::File }),
            lines: vec![Line::Unreadable],
        },
        file("root/open.txt", 1, &["foo"]),
    ];
    let result = grep("foo", &scans).unwrap();
    assert_eq!(table(&result), vec![("open.txt".to_string(), vec![hit(1, "foo")])]);
}

#[test]
fn grep_does_not_search_what_is_not_a_regular_file() {
    let scans = vec![
        Scan {
            visit: Visit::Found(Entry { path: "root".to_string(), depth: 0, kind: Kind::Directory }),
            lines: vec![Line::Text("foo".to_string())],
        },
        Scan {
            visit: Visit::Found(Entry { path: "root/pipe".to_string(), depth: 1, kind: Kind::Other }),
            lines: vec![Line::Text("foo".to_string())],
        },
        Scan {
            visit: Visit::Failed { depth: 1, cause: ErrorKind::PermissionDenied },
            lines: vec![Line::Text("foo".to_string())],
        },
    ];
    let result = grep("foo", &scans).unwrap();
    assert!(result.files().is_empty());
    assert_eq!(join_lines(&show_grep(&result)), "");
}

#[test]
fn grep_lets_a_later_file_replace_an_earlier_one_of_the_same_name() {
    let scans = vec![
        directory("root", 0),
        file("root/a/notes.txt", 2, &["foo one"]),
        file("root/other.txt", 1, &["foo"]),
        file("root/b/notes.txt", 2, &["x", "foo two"]),
    ];
    let result = grep("foo", &scans).unwrap();
    assert_eq!(
        table(&result),
        vec![
            ("notes.txt".to_string(), vec![hit(2, "foo two")]),
            ("other.txt".to_string(), vec![hit(1, "foo")]),
        ]
    );
}

#[test]
fn grep_keeps_the_earlier_file_when_the_later_one_has_no_match() {
    let scans = vec![
        directory("root", 0),
        file("root/a/notes.txt", 2, &["foo one"]),
        file("root/b/notes.txt", 2, &["nothing"]),
    ];
    let result = grep("foo", &scans).unwrap();
    assert_eq!(table(&result), vec![("notes.txt".to_string(), vec![hit(1, "foo one")])]);
}

#[test]
fn grep_fails_when_the_root_is_missing() {
    let scans = vec![Scan { visit: Visit::Failed { depth: 0, cause: ErrorKind::NotFound }, lines: vec![] }];
    assert_eq!(grep("foo", &scans).err(), Some(ErrorKind::NotFound));
}

#[test]
fn grep_fails_when_the_root_is_a_file() {
    let scans = vec![file("notes.txt", 0, &["foo"])];
    assert_eq!(grep("foo", &scans).err(), Some(ErrorKind::NotADirectory));
}

#[test]
fn grep_fails_on_a_root_problem_even_after_matches() {
    let scans = vec![
        directory("root", 0),
        file("root/a.txt", 1, &["foo"]),
        Scan { visit: Visit::Failed { depth: 0, cause: ErrorKind::Io }, lines: vec![] },
    ];
    assert_eq!(grep("foo", &scans).err(), Some(ErrorKind::Io));
}

#[test]
fn a_new_result_is_empty() {
    assert!(GrepResult::new().files().is_empty());
}

#[test]
fn record_adds_a_named_file_with_matches() {
    let mut result = GrepResult::new();
    result.record(Some("a.txt".to_string()), vec![some_match(4, "foo")]);
    result.record(Some("b.txt".to_string()), vec![some_match(1, "foo"), some_match(2, "foo")]);
    assert_eq!(
        table(&result),
        vec![
            ("a.txt".to_string(), vec![hit(4, "foo")]),
            ("b.txt".to_string(), vec![hit(1, "foo"), hit(2, "foo")]),
        ]
    );
}

#[test]
fn record_ignores_a_file_without_name_or_matches() {
    let mut result = GrepResult::new();
    result.record(None, vec![some_match(1, "foo")]);
    result.record(Some("a.txt".to_string()), vec![]);
    result.record(None, vec![]);
    assert!(result.files().is_empty());
}

#[test]
fn record_replaces_a_file_where_it_stands() {
    let mut result = GrepResult::new();
    result.record(Some("a".to_string()), vec![some_match(1, "one")]);
    result.record(Some("b".to_string()), vec![some_match(1, "two")]);
    result.record(Some("a".to_string()), vec![some_match(7, "three")]);
    result.record(Some("a".to_string()), vec![]);
    assert_eq!(
        table(&result),
        vec![("a".to_string(), vec![hit(7, "three")]), ("b".to_string(), vec![hit(1, "two")])]
    );
}
