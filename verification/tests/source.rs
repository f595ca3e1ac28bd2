use wpdiff::source::strip_top_dir;

#[test]
fn strip_top_dir_normal() {
    assert_eq!(strip_top_dir("akismet/akismet.php"), "akismet.php");
}

#[test]
fn strip_top_dir_nested() {
    assert_eq!(strip_top_dir("akismet/languages/en.po"), "languages/en.po");
}

#[test]
fn strip_top_dir_directory_entry() {
    assert_eq!(strip_top_dir("akismet/"), "");
}

#[test]
fn strip_top_dir_no_slash() {
    assert_eq!(strip_top_dir("file.txt"), "");
}

#[test]
fn strip_top_dir_empty() {
    assert_eq!(strip_top_dir(""), "");
}
