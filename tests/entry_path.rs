use maphp::entry_path::{get_extract_path, plan_entry, skip_if_prefix, split_components};
use maphp::entry_path::{EntryAction, Extraction, PathViolation};

const DEST: &str = "/home/user/.maphp/archives/8.4.11";

#[test]
fn traversal_entry_is_rejected() {
    assert_eq!(get_extract_path(DEST, "../../etc/passwd"), Err(PathViolation::Traversal));
    assert_eq!(
        get_extract_path(DEST, "php-php-src-php-8.4.11-0-ga42bbd3/../../etc/passwd"),
        Err(PathViolation::Traversal)
    );
    assert_eq!(get_extract_path(DEST, "a/b/.."), Err(PathViolation::Traversal));
}

#[test]
fn absolute_entry_is_rejected() {
    assert_eq!(get_extract_path(DEST, "/etc/passwd"), Err(PathViolation::Absolute));
    assert!(matches!(plan_entry(DEST, "//etc"), EntryAction::Reject(PathViolation::Absolute)));
}

#[test]
fn top_level_directory_is_stripped() {
    assert_eq!(
        get_extract_path(DEST, "php-php-src-php-8.4.11-0-ga42bbd3/ext/curl/config.m4"),
        Ok(format!("{DEST}/ext/curl/config.m4"))
    );
}

#[test]
fn prefix_is_only_stripped_at_the_top() {
    assert_eq!(
        get_extract_path(DEST, "ext/php-php-src-x/config.m4"),
        Ok(format!("{DEST}/ext/php-php-src-x/config.m4"))
    );
    assert_eq!(get_extract_path(DEST, "README.md"), Ok(format!("{DEST}/README.md")));
}

#[test]
fn top_level_entry_is_skipped() {
    assert!(matches!(plan_entry(DEST, "php-php-src-php-8.4.11-0-ga42bbd3/"), EntryAction::Skip));
    assert!(matches!(plan_entry(DEST, "./"), EntryAction::Skip));
    match plan_entry(DEST, "php-php-src-php-8.4.11-0-ga42bbd3/Zend/zend.c") {
        EntryAction::Unpack(p) => assert_eq!(p, format!("{DEST}/Zend/zend.c")),
        other => panic!("unexpected {other:?}"),
    }
}

#[test]
fn redundant_separators_and_dots_are_dropped() {
    assert_eq!(get_extract_path(DEST, "./a//b/./c/"), Ok(format!("{DEST}/a/b/c")));
    assert_eq!(get_extract_path("dest/", "a"), Ok("dest/a".to_string()));
    assert_eq!(get_extract_path("", "a/b"), Ok("a/b".to_string()));
}

#[test]
fn components_of_a_path() {
    assert_eq!(split_components("a//b/./c/"), vec!["a", "b", "c"]);
    assert_eq!(split_components("../x"), vec!["..", "x"]);
    assert!(split_components("").is_empty());
}

#[test]
fn skip_if_prefix_drops_only_the_first_component() {
    assert_eq!(skip_if_prefix(0, "php-php-src-php-8.4.11".to_string()), None);
    assert_eq!(skip_if_prefix(1, "php-php-src-php-8.4.11".to_string()), Some("php-php-src-php-8.4.11".to_string()));
    assert_eq!(skip_if_prefix(0, "ext".to_string()), Some("ext".to_string()));
}

#[test]
fn extraction_counts_written_bytes() {
    let mut e = Extraction::new(DEST.to_string());
    assert_eq!(e.dest(), DEST);
    e.record_file(10);
    e.record_file(32);
    assert_eq!(e.total(), 42);
    e.record_file(u64::MAX);
    assert_eq!(e.total(), u64::MAX);
    assert!(matches!(e.plan("php-php-src-x/"), EntryAction::Skip));
}
