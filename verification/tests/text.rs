use ftp_sync::text::{join_path, replace_all, take_chars, text_is};

#[test]
fn join_path_adds_separator() {
    assert_eq!(join_path("/data", "a.txt"), "/data/a.txt");
}

#[test]
fn join_path_at_root_adds_none() {
    assert_eq!(join_path("/", "a.txt"), "/a.txt");
}

#[test]
fn join_path_with_empty_folder() {
    assert_eq!(join_path("", "a"), "/a");
}

#[test]
fn take_chars_shortens() {
    assert_eq!(take_chars("abcdef", 3), "abc");
}

#[test]
fn take_chars_keeps_short_text() {
    assert_eq!(take_chars("ab", 3), "ab");
    assert_eq!(take_chars("", 0), "");
}

#[test]
fn take_chars_counts_characters_not_bytes() {
    assert_eq!(take_chars("äöüß", 2), "äö");
}

#[test]
fn replace_all_replaces_every_occurrence() {
    assert_eq!(replace_all("a-b-c", "-", "+"), "a+b+c");
    assert_eq!(replace_all("aaaa", "aa", "b"), "bb");
    assert_eq!(replace_all("aaa", "aa", "b"), "ba");
}

#[test]
fn replace_all_matches_std() {
    let cases = [("x[t]y[t]", "[t]", "12"), ("[t", "[t]", "z"), ("abcabc", "bc", ""), ("ééé", "é", "e")];
    for (s, p, r) in cases.iter() {
        assert_eq!(replace_all(s, p, r), s.replace(p, r));
    }
}

#[test]
fn text_is_compares() {
    assert!(text_is(".trash", ".trash"));
    assert!(!text_is(".trash", ".tras"));
}
