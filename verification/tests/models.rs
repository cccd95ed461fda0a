use ftp_sync::sql::get_ip;
use ftp_sync::sql::models::{File, Ip, NFile};

#[test]
fn to_nfile_keeps_folder_and_name() {
    let f = File { id: 7, path: "/data".to_string(), filename: "a.txt".to_string(), synced: true, deleted: true };
    let n = f.to_nfile();
    assert_eq!(n.path, "/data");
    assert_eq!(n.filename, "a.txt");
}

#[test]
fn to_file_makes_fresh_record() {
    let n = NFile { path: "/".to_string(), filename: "b.bin".to_string() };
    let f = n.to_file();
    assert_eq!(f.id, 0);
    assert_eq!(f.path, "/");
    assert_eq!(f.filename, "b.bin");
    assert!(!f.synced);
    assert!(!f.deleted);
}

#[test]
fn nfile_round_trip_is_identity() {
    let n = NFile { path: "/x/y".to_string(), filename: "z".to_string() };
    let back = n.clone().to_file().to_nfile();
    assert_eq!(back.path, n.path);
    assert_eq!(back.filename, n.filename);
}

#[test]
fn get_ip_takes_first_row() {
    let rows = vec![
        Ip { id: 1, c_ip: "10.0.0.1".to_string() },
        Ip { id: 2, c_ip: "10.0.0.2".to_string() },
    ];
    assert_eq!(get_ip(&rows), "10.0.0.1");
}

#[test]
fn get_ip_without_rows_is_empty() {
    let rows: Vec<Ip> = Vec::new();
    assert_eq!(get_ip(&rows), "");
}
