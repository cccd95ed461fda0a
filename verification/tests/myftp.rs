use ftp_sync::myftp::{ftp_address, local_path, remote_path, Download, DownloadProgress, BYTES_PER_MARK};
use ftp_sync::sql::models::NFile;

#[test]
fn remote_path_joins_folder_and_name() {
    let f = NFile { path: "/in".to_string(), filename: "x.pdf".to_string() };
    assert_eq!(remote_path(&f), "/in/x.pdf");
    let g = NFile { path: "/".to_string(), filename: "x.pdf".to_string() };
    assert_eq!(remote_path(&g), "/x.pdf");
}

#[test]
fn local_path_appends_name() {
    assert_eq!(local_path("/tmp/up/", "x.pdf"), "/tmp/up/x.pdf");
    assert_eq!(local_path("/tmp/up", "x.pdf"), "/tmp/upx.pdf");
}

#[test]
fn ftp_address_uses_port_21() {
    assert_eq!(ftp_address("ftp.example.org"), "ftp.example.org:21");
}

#[test]
fn progress_marks_every_half_million_bytes() {
    let mut p = DownloadProgress::new();
    let mut marks: Vec<(u64, String)> = Vec::new();
    let total = 4 * BYTES_PER_MARK + 7;
    for i in 1..=total {
        if let Some(t) = p.on_byte() {
            marks.push((i, t));
        }
    }
    assert_eq!(marks.len(), 4);
    assert_eq!(marks[0], (BYTES_PER_MARK, "getting   file .  ".to_string()));
    assert_eq!(marks[1], (2 * BYTES_PER_MARK, "getting   file .. ".to_string()));
    assert_eq!(marks[2], (3 * BYTES_PER_MARK, "getting   file ...".to_string()));
    assert_eq!(marks[3], (4 * BYTES_PER_MARK, "getting   file .  ".to_string()));
}

#[test]
fn progress_before_first_mark_is_silent() {
    let mut p = DownloadProgress::new();
    for _ in 1..BYTES_PER_MARK {
        assert!(p.on_byte().is_none());
    }
    assert!(p.on_byte().is_some());
}

fn single_slashes(p: &str) -> String {
    let mut out = String::new();
    for c in p.chars() {
        if !(c == '/' && out.ends_with('/')) {
            out.push(c);
        }
    }
    out
}

#[test]
fn upload_and_fetch_name_same_file_when_folder_ends_in_slash() {
    let fetched = local_path("/tmp/up/", "x.pdf");
    let sent = ftp_sync::web::api_form("/tmp/up/", "/in", "x.pdf").fullpath;
    assert_eq!(single_slashes(&fetched), single_slashes(&sent));
    let root_fetched = local_path("/", "x.pdf");
    let root_sent = ftp_sync::web::api_form("/", "/in", "x.pdf").fullpath;
    assert_eq!(root_fetched, root_sent);
}

#[test]
fn download_hands_out_every_byte_once_in_order() {
    let total = 2 * BYTES_PER_MARK as usize + 123;
    let data: Vec<u8> = (0..total).map(|i| (i % 251) as u8).collect();
    let mut d = Download::new();
    let mut written: Vec<u8> = Vec::new();
    let mut texts: Vec<String> = Vec::new();
    for b in data.iter() {
        if let Some(f) = d.on_byte(*b) {
            written.extend_from_slice(&f.bytes);
            texts.push(f.text);
        }
    }
    assert_eq!(written.len(), 2 * BYTES_PER_MARK as usize);
    written.extend_from_slice(&d.finish());
    assert_eq!(written, data);
    assert_eq!(texts, vec!["getting   file .  ".to_string(), "getting   file .. ".to_string()]);
}

#[test]
fn download_of_empty_file_writes_nothing() {
    assert!(Download::new().finish().is_empty());
}
