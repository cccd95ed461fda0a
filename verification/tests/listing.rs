use std::collections::HashMap;

use ftp_sync::listing::{classify_entry, Entry, FolderWalk, SizeReply, WalkAction};

fn kind(e: Entry) -> String {
    match e {
        Entry::File(f) => format!("file {} {}", f.path, f.filename),
        Entry::Folder(p) => format!("folder {}", p),
        Entry::Skip => "skip".to_string(),
    }
}

#[test]
fn classify_file_with_size() {
    assert_eq!(kind(classify_entry("/d", "a", SizeReply::Bytes(12))), "file /d a");
}

#[test]
fn classify_empty_file_is_skipped() {
    assert_eq!(kind(classify_entry("/d", "a", SizeReply::Bytes(0))), "skip");
}

#[test]
fn classify_unknown_size_is_file() {
    assert_eq!(kind(classify_entry("/", "a", SizeReply::Unknown)), "file / a");
}

#[test]
fn classify_failed_size_is_folder() {
    assert_eq!(kind(classify_entry("/d", "sub", SizeReply::Failed)), "folder /d/sub");
    assert_eq!(kind(classify_entry("/", "sub", SizeReply::Failed)), "folder /sub");
}

#[test]
fn classify_special_names_are_skipped() {
    for n in [".", "..", ".trash"].iter() {
        assert_eq!(kind(classify_entry("/d", n, SizeReply::Failed)), "skip");
    }
    assert_eq!(kind(classify_entry("/d", ".trashy", SizeReply::Failed)), "folder /d/.trashy");
}

struct FakeServer {
    folders: HashMap<String, Vec<String>>,
    sizes: HashMap<String, usize>,
}

impl FakeServer {
    fn size(&self, path: &str) -> SizeReply {
        if self.folders.contains_key(path) {
            SizeReply::Failed
        } else {
            match self.sizes.get(path) {
                Some(n) => SizeReply::Bytes(*n),
                None => SizeReply::Unknown,
            }
        }
    }
}

fn run(server: &FakeServer, root: &str) -> (Vec<(String, String)>, Vec<usize>, Vec<String>) {
    let mut walk = FolderWalk::new(root.to_string());
    let mut reports = Vec::new();
    let mut listed = Vec::new();
    loop {
        match walk.next_action() {
            WalkAction::List(p) => {
                let names = server.folders.get(&p).cloned().unwrap_or_default();
                listed.push(p);
                walk.on_listing(names);
            }
            WalkAction::Size(p) => {
                if let Some(n) = walk.on_size(server.size(&p)) {
                    reports.push(n);
                }
            }
            WalkAction::Leave(r) => {
                if let Some(n) = r {
                    reports.push(n);
                }
            }
            WalkAction::Done => break,
        }
    }
    let files = walk.into_files().into_iter().map(|f| (f.path, f.filename)).collect();
    (files, reports, listed)
}

fn names(v: &[&str]) -> Vec<String> {
    v.iter().map(|s| s.to_string()).collect()
}

#[test]
fn walk_lists_depth_first_in_order() {
    let mut folders = HashMap::new();
    folders.insert("/".to_string(), names(&["a", "sub", "b", ".", "..", ".trash", "empty"]));
    folders.insert("/sub".to_string(), names(&["c", "deeper", "d"]));
    folders.insert("/sub/deeper".to_string(), names(&["e"]));
    folders.insert("/.trash".to_string(), names(&["junk"]));
    folders.insert("/.".to_string(), names(&["loop"]));
    folders.insert("/..".to_string(), names(&["up"]));
    folders.insert("/empty".to_string(), names(&["zero"]));
    let mut sizes = HashMap::new();
    sizes.insert("/a".to_string(), 1);
    sizes.insert("/b".to_string(), 2);
    sizes.insert("/sub/c".to_string(), 3);
    sizes.insert("/sub/deeper/e".to_string(), 4);
    sizes.insert("/empty/zero".to_string(), 0);
    let server = FakeServer { folders, sizes };
    let (files, reports, listed) = run(&server, "/");
    let expect: Vec<(String, String)> = vec![
        ("/", "a"),
        ("/sub", "c"),
        ("/sub/deeper", "e"),
        ("/sub", "d"),
        ("/", "b"),
    ]
    .into_iter()
    .map(|(p, n)| (p.to_string(), n.to_string()))
    .collect();
    assert_eq!(files, expect);
    assert!(reports.is_empty());
    assert_eq!(listed, names(&["/", "/sub", "/sub/deeper", "/empty"]));
}

#[test]
fn walk_reports_every_hundred_files_of_a_folder() {
    let mut folders = HashMap::new();
    let many: Vec<String> = (0..250).map(|i| format!("f{}", i)).collect();
    folders.insert("/".to_string(), names(&["x", "sub"]));
    folders.insert("/sub".to_string(), many);
    let server = FakeServer { folders, sizes: HashMap::new() };
    let (files, reports, _) = run(&server, "/");
    assert_eq!(files.len(), 251);
    assert_eq!(reports, vec![100, 200]);
}

#[test]
fn walk_reports_count_of_parent_when_leaving_folder() {
    let mut folders = HashMap::new();
    let mut top: Vec<String> = (0..99).map(|i| format!("f{}", i)).collect();
    top.push("sub".to_string());
    folders.insert("/".to_string(), top);
    folders.insert("/sub".to_string(), names(&["g"]));
    let server = FakeServer { folders, sizes: HashMap::new() };
    let (files, reports, _) = run(&server, "/");
    assert_eq!(files.len(), 100);
    assert_eq!(reports, vec![100]);
}

#[test]
fn walk_of_empty_root_finds_nothing() {
    let server = FakeServer { folders: HashMap::new(), sizes: HashMap::new() };
    let (files, reports, listed) = run(&server, "/srv");
    assert!(files.is_empty());
    assert!(reports.is_empty());
    assert_eq!(listed, names(&["/srv"]));
}

#[test]
fn walk_ends_after_one_listing_and_leaving_per_folder_and_one_size_per_name() {
    let mut folders = HashMap::new();
    folders.insert("/".to_string(), names(&["a", "b"]));
    folders.insert("/b".to_string(), Vec::new());
    let mut sizes = HashMap::new();
    sizes.insert("/a".to_string(), 3);
    let server = FakeServer { folders, sizes };
    let mut walk = FolderWalk::new("/".to_string());
    let mut kinds = Vec::new();
    loop {
        match walk.next_action() {
            WalkAction::List(p) => {
                kinds.push(format!("list {}", p));
                walk.on_listing(server.folders.get(&p).cloned().unwrap_or_default());
            }
            WalkAction::Size(p) => {
                kinds.push(format!("size {}", p));
                let _ = walk.on_size(server.size(&p));
            }
            WalkAction::Leave(_) => kinds.push("leave".to_string()),
            WalkAction::Done => break,
        }
    }
    assert_eq!(kinds, names(&["list /", "size /a", "size /b", "list /b", "leave", "leave"]));
}
