use cutils::cat::{cat, concatenate};
use cutils::walk::ErrorKind;

#[test]
fn cat_joins_without_a_separator() {
    assert_eq!(cat("abc", "def"), "abcdef");
}

#[test]
fn cat_keeps_newlines_as_they_are() {
    assert_eq!(cat("one\n", "two\n"), "one\ntwo\n");
    assert_eq!(cat("", "x"), "x");
    assert_eq!(cat("x", ""), "x");
    assert_eq!(cat("", ""), "");
}

#[test]
fn concatenate_joins_two_files_that_were_read() {
    assert_eq!(concatenate(Ok("abc".to_string()), Ok("def".to_string())), Ok("abcdef".to_string()));
}

#[test]
fn concatenate_gives_nothing_when_the_first_file_failed() {
    assert_eq!(concatenate(Err(ErrorKind::NotFound), Ok("def".to_string())), Err(ErrorKind::NotFound));
}

#[test]
fn concatenate_gives_nothing_when_the_second_file_failed() {
    assert_eq!(concatenate(Ok("abc".to_string()), Err(ErrorKind::Decode)), Err(ErrorKind::Decode));
}

#[test]
fn concatenate_reports_the_first_failure() {
    assert_eq!(
        concatenate(Err(ErrorKind::PermissionDenied), Err(ErrorKind::NotFound)),
        Err(ErrorKind::PermissionDenied)
    );
}
