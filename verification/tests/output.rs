use ftp_sync::output::{log_file_name, visible_text};

#[test]
fn visible_text_keeps_sixty_characters() {
    let long: String = std::iter::repeat('x').take(75).collect();
    assert_eq!(visible_text(&long).chars().count(), 60);
    assert_eq!(visible_text("short"), "short");
}

#[test]
fn log_file_name_fills_in_timestamp() {
    assert_eq!(
        log_file_name("/var/log/sync-[timestamp].log", "2020-01-01T00:00:00+00:00"),
        "/var/log/sync-2020-01-01T00:00:00+00:00.log"
    );
}

#[test]
fn log_file_name_without_marker_is_unchanged() {
    assert_eq!(log_file_name("/var/log/sync.log", "now"), "/var/log/sync.log");
}

#[test]
fn log_file_name_replaces_every_marker() {
    assert_eq!(log_file_name("[timestamp]/[timestamp]", "t"), "t/t");
}
