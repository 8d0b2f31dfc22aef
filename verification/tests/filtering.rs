use viz_csv::chars::format_usize;
use viz_csv::filter::extension_allowed;
use viz_csv::split::split_str;

#[test]
fn filter_accepts_allowed_extensions() {
    assert!(extension_allowed("data.txt"));
    assert!(extension_allowed("data.csv"));
    assert!(extension_allowed("/home/user/table.txt"));
    assert!(extension_allowed("archive.tar.csv"));
}

#[test]
fn filter_rejects_other_paths() {
    assert!(!extension_allowed("data.json"));
    assert!(!extension_allowed("noext"));
    assert!(!extension_allowed(".hidden"));
    assert!(!extension_allowed("trailing."));
    assert!(!extension_allowed("dir.txt/file"));
    assert!(!extension_allowed("data.TXT"));
    assert!(!extension_allowed(""));
}

#[test]
fn format_usize_gives_decimal_digits() {
    assert_eq!(format_usize(0), "0");
    assert_eq!(format_usize(7), "7");
    assert_eq!(format_usize(1234), "1234");
    assert_eq!(format_usize(1000000), "1000000");
}

#[test]
fn split_str_keeps_empty_parts() {
    assert_eq!(split_str("", ' '), vec![""]);
    assert_eq!(split_str("a b", ' '), vec!["a", "b"]);
    assert_eq!(split_str(" a ", ' '), vec!["", "a", ""]);
    assert_eq!(split_str("a\n\nb", '\n'), vec!["a", "", "b"]);
}
