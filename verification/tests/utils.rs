use embedded_cli::utils::{same_text, trim_start};

#[test]
fn trim_start_no_spaces() {
    assert_eq!(trim_start("abc"), "abc");
}

#[test]
fn trim_start_leading_spaces() {
    assert_eq!(trim_start("  abc"), "abc");
}

#[test]
fn trim_start_trailing_spaces() {
    assert_eq!(trim_start("abc  "), "abc  ");
}

#[test]
fn trim_start_both_spaces() {
    assert_eq!(trim_start("  abc   "), "abc   ");
}

#[test]
fn trim_start_space_inside() {
    assert_eq!(trim_start("  abc def  "), "abc def  ");
}

#[test]
fn trim_start_multiple_spaces_inside() {
    assert_eq!(trim_start("  abc   def  "), "abc   def  ");
}

#[test]
fn trim_start_utf8() {
    assert_eq!(
        trim_start("  abc dабвг佐  佗佟𑿁   𑿆𑿌  "),
        "abc dабвг佐  佗佟𑿁   𑿆𑿌  "
    );
}

#[test]
fn trim_start_empty() {
    assert_eq!(trim_start(""), "");
}

#[test]
fn trim_start_only_spaces() {
    assert_eq!(trim_start("     "), "");
}

#[test]
fn trim_start_keeps_tabs() {
    assert_eq!(trim_start(" \tabc"), "\tabc");
    assert_eq!(trim_start("\t abc"), "\t abc");
}

#[test]
fn trim_start_non_ascii_first() {
    assert_eq!(trim_start("   佐 x"), "佐 x");
}

#[test]
fn trim_start_borrows_from_the_input() {
    let line = String::from("   get --all");
    let rest = trim_start(&line);
    assert_eq!(rest.len() + 3, line.len());
    assert_eq!(rest.as_ptr(), line[3..].as_ptr());
}

#[test]
fn trim_start_is_idempotent() {
    let once = trim_start("   a b ");
    assert_eq!(trim_start(once), once);
}

#[test]
fn same_text_compares_characters() {
    assert!(same_text("port", "port"));
    assert!(same_text("", ""));
    assert!(!same_text("port", "Port"));
    assert!(!same_text("port", "por"));
    assert!(!same_text("por", "port"));
    assert!(!same_text("佐x", "佐y"));
    assert!(same_text("佐x", "佐x"));
}
