use cutils::find::{find, name_contains};
use cutils::walk::{Entry, ErrorKind, Kind, Visit};

fn found(path: &str, depth: usize, kind: Kind) -> Visit {
    Visit::Found(Entry { path: path.to_string(), depth, kind })
}

fn sample_tree() -> Vec<Visit> {
    vec![
        found("root", 0, Kind::Directory),
        found("root/x", 1, Kind::Directory),
        found("root/x/hello.txt", 2, Kind::File),
        found("root/x/foo_report.txt", 2, Kind::File),
    ]
}

#[test]
fn find_reports_the_one_file_named_after_the_pattern() {
    assert_eq!(find("foo", &sample_tree()), Ok(vec!["root/x/foo_report.txt".to_string()]));
}

#[test]
fn find_matches_the_base_name_not_the_path() {
    assert_eq!(find("root", &sample_tree()), Ok(vec![]));
    assert_eq!(find("x", &sample_tree()), Ok(vec!["root/x/hello.txt".to_string(), "root/x/foo_report.txt".to_string()]));
}

#[test]
fn find_keeps_visiting_order() {
    let visits = vec![
        found("d", 0, Kind::Directory),
        found("d/b.log", 1, Kind::File),
        found("d/a.log", 1, Kind::File),
        found("d/c.txt", 1, Kind::File),
        found("d/z.log", 1, Kind::File),
    ];
    assert_eq!(
        find(".log", &visits),
        Ok(vec!["d/b.log".to_string(), "d/a.log".to_string(), "d/z.log".to_string()])
    );
}

#[test]
fn find_reports_every_matching_file_once() {
    let paths = find("o", &sample_tree()).unwrap();
    assert_eq!(paths.iter().filter(|path| path.as_str() == "root/x/hello.txt").count(), 1);
    assert_eq!(paths.iter().filter(|path| path.as_str() == "root/x/foo_report.txt").count(), 1);
    assert_eq!(paths.len(), 2);
}

#[test]
fn find_never_reports_a_directory() {
    let visits = vec![
        found("root", 0, Kind::Directory),
        found("root/foo", 1, Kind::Directory),
        found("root/foo/bar", 2, Kind::File),
        found("root/foo_link", 1, Kind::Other),
    ];
    assert_eq!(find("foo", &visits), Ok(vec![]));
}

#[test]
fn find_with_an_empty_pattern_reports_every_file() {
    assert_eq!(
        find("", &sample_tree()),
        Ok(vec!["root/x/hello.txt".to_string(), "root/x/foo_report.txt".to_string()])
    );
}

#[test]
fn find_skips_what_could_not_be_read_below_the_root() {
    let visits = vec![
        found("root", 0, Kind::Directory),
        Visit::Failed { depth: 1, cause: ErrorKind::PermissionDenied },
        found("root/foo.txt", 1, Kind::File),
        Visit::Failed { depth: 2, cause: ErrorKind::Io },
    ];
    assert_eq!(find("foo", &visits), Ok(vec!["root/foo.txt".to_string()]));
}

#[test]
fn find_fails_when_the_root_is_missing() {
    let visits = vec![Visit::Failed { depth: 0, cause: ErrorKind::NotFound }];
    assert_eq!(find("foo", &visits), Err(ErrorKind::NotFound));
}

#[test]
fn find_fails_when_the_root_cannot_be_opened() {
    let visits = vec![
        found("root", 0, Kind::Directory),
        Visit::Failed { depth: 0, cause: ErrorKind::PermissionDenied },
    ];
    assert_eq!(find("", &visits), Err(ErrorKind::PermissionDenied));
}

#[test]
fn find_fails_when_the_root_is_a_file() {
    let visits = vec![found("foo.txt", 0, Kind::File)];
    assert_eq!(find("foo", &visits), Err(ErrorKind::NotADirectory));
}

#[test]
fn find_on_an_empty_directory_reports_nothing() {
    assert_eq!(find("foo", &vec![found("root", 0, Kind::Directory)]), Ok(vec![]));
    assert_eq!(find("foo", &vec![]), Ok(vec![]));
}

#[test]
fn find_passes_over_a_file_without_a_base_name() {
    let visits = vec![found("root", 0, Kind::Directory), found("root/..", 1, Kind::File)];
    assert_eq!(find("", &visits), Ok(vec![]));
}

#[test]
fn a_missing_name_contains_nothing() {
    assert!(!name_contains("", &None));
    assert!(!name_contains("a", &None));
}

#[test]
fn a_name_is_searched_like_any_text() {
    assert!(name_contains("port", &Some("foo_report.txt".to_string())));
    assert!(name_contains("", &Some("a".to_string())));
    assert!(!name_contains("Port", &Some("foo_report.txt".to_string())));
}

#[test]
fn find_matches_names_beyond_ascii() {
    let visits = vec![
        found("r", 0, Kind::Directory),
        found("r/caf\u{e9}.txt", 1, Kind::File),
        found("r/cafe.txt", 1, Kind::File),
    ];
    assert_eq!(find("f\u{e9}", &visits), Ok(vec!["r/caf\u{e9}.txt".to_string()]));
}

#[test]
fn find_reads_the_name_past_a_trailing_separator() {
    let visits = vec![found("r", 0, Kind::Directory), found("r/foo.d/", 1, Kind::File)];
    assert_eq!(find("foo", &visits), Ok(vec!["r/foo.d/".to_string()]));
    assert_eq!(find("/", &visits), Ok(vec![]));
}
