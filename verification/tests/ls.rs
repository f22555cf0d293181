use cutils::ls::{ls, push_name};
use cutils::walk::{Entry, ErrorKind, Kind, Visit};

fn found(path: &str, depth: usize, kind: Kind) -> Visit {
    Visit::Found(Entry { path: path.to_string(), depth, kind })
}

#[test]
fn ls_names_the_file_and_the_subdirectory() {
    let visits = vec![found("D/a.txt", 1, Kind::File), found("D/sub", 1, Kind::Directory)];
    let mut names = ls(&visits).unwrap();
    names.sort();
    assert_eq!(names, vec!["a.txt".to_string(), "sub".to_string()]);
}

#[test]
fn ls_keeps_the_order_of_reading() {
    let visits = vec![
        found("/tmp/d/zeta", 1, Kind::Directory),
        found("/tmp/d/alpha.txt", 1, Kind::File),
        found("/tmp/d/socket", 1, Kind::Other),
    ];
    assert_eq!(
        ls(&visits),
        Ok(vec!["zeta".to_string(), "alpha.txt".to_string(), "socket".to_string()])
    );
}

#[test]
fn ls_does_not_descend() {
    let visits = vec![
        found("D", 0, Kind::Directory),
        found("D/sub", 1, Kind::Directory),
        found("D/sub/inner.txt", 2, Kind::File),
        found("D/a.txt", 1, Kind::File),
    ];
    assert_eq!(ls(&visits), Ok(vec!["sub".to_string(), "a.txt".to_string()]));
}

#[test]
fn ls_skips_entries_that_could_not_be_read() {
    let visits = vec![
        found("D/a.txt", 1, Kind::File),
        Visit::Failed { depth: 1, cause: ErrorKind::PermissionDenied },
        found("D/b.txt", 1, Kind::File),
    ];
    assert_eq!(ls(&visits), Ok(vec!["a.txt".to_string(), "b.txt".to_string()]));
}

#[test]
fn ls_of_an_empty_directory_is_empty() {
    assert_eq!(ls(&vec![]), Ok(vec![]));
    assert_eq!(ls(&vec![found("D", 0, Kind::Directory)]), Ok(vec![]));
}

#[test]
fn ls_fails_when_the_directory_cannot_be_opened() {
    assert_eq!(ls(&vec![Visit::Failed { depth: 0, cause: ErrorKind::NotFound }]), Err(ErrorKind::NotFound));
    assert_eq!(
        ls(&vec![Visit::Failed { depth: 0, cause: ErrorKind::NotADirectory }]),
        Err(ErrorKind::NotADirectory)
    );
    assert_eq!(ls(&vec![found("a.txt", 0, Kind::File)]), Err(ErrorKind::NotADirectory));
}

#[test]
fn ls_skips_an_entry_without_a_base_name() {
    let visits = vec![found("D/..", 1, Kind::Directory), found("D/x", 1, Kind::Directory)];
    assert_eq!(ls(&visits), Ok(vec!["x".to_string()]));
}

#[test]
fn push_name_adds_only_a_name_that_is_there() {
    let mut names = vec!["a".to_string()];
    push_name(&mut names, None);
    assert_eq!(names, vec!["a".to_string()]);
    push_name(&mut names, Some("b".to_string()));
    assert_eq!(names, vec!["a".to_string(), "b".to_string()]);
}

#[test]
fn ls_names_a_directory_given_with_a_trailing_separator() {
    let visits = vec![found("D/sub/", 1, Kind::Directory), found("D/./b", 1, Kind::Directory)];
    assert_eq!(ls(&visits), Ok(vec!["sub".to_string(), "b".to_string()]));
}
