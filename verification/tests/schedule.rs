use ftp_sync::schedule::{display_name, first_step, status_line, step_after, Scheduler, UploadStep};
use ftp_sync::sql::models::{File, NFile};

fn nf(name: &str) -> NFile {
    NFile { path: "/".to_string(), filename: name.to_string() }
}

fn record(id: i32, synced: bool) -> File {
    File { id, path: "/".to_string(), filename: "x".to_string(), synced, deleted: false }
}

#[test]
fn scheduler_refuses_negative_limit() {
    assert!(Scheduler::new(-1, false).is_none());
    assert!(Scheduler::new(0, false).is_some());
}

#[test]
fn scheduler_has_room_below_limit() {
    let s = Scheduler::new(3, false).unwrap();
    assert!(s.has_room(2));
    assert!(!s.has_room(3));
    let z = Scheduler::new(0, false).unwrap();
    assert!(!z.has_room(0));
}

#[test]
fn new_file_is_inserted_with_running_id() {
    let mut s = Scheduler::new(2, false).unwrap();
    let j = s.plan(nf("a"), None).unwrap();
    assert!(!j.update);
    assert_eq!(j.id, 1);
    assert_eq!(j.slot, 1);
    assert_eq!(j.file.filename, "a");
}

#[test]
fn unsynced_record_is_updated_with_its_id() {
    let mut s = Scheduler::new(2, false).unwrap();
    let j = s.plan(nf("a"), Some(record(42, false))).unwrap();
    assert!(j.update);
    assert_eq!(j.id, 42);
}

#[test]
fn synced_record_is_left_alone() {
    let mut s = Scheduler::new(2, false).unwrap();
    assert!(s.plan(nf("a"), Some(record(42, true))).is_none());
    let j = s.plan(nf("b"), None).unwrap();
    assert_eq!(j.id, 2);
    assert_eq!(j.slot, 1);
}

#[test]
fn ignoring_records_inserts_again() {
    let mut s = Scheduler::new(2, true).unwrap();
    let j = s.plan(nf("a"), Some(record(42, true))).unwrap();
    assert!(!j.update);
    assert_eq!(j.id, 1);
}

#[test]
fn slots_go_round() {
    let mut s = Scheduler::new(2, false).unwrap();
    let slots: Vec<i32> = (0..7).map(|i| s.plan(nf(&i.to_string()), None).unwrap().slot).collect();
    assert_eq!(slots, vec![1, 2, 0, 1, 2, 0, 1]);
}

#[test]
fn status_line_counts_up_from_cursor() {
    assert_eq!(status_line(4, 1), 4);
    assert_eq!(status_line(4, 0), 5);
    assert_eq!(status_line(4, 4), 1);
    assert_eq!(status_line(65534, 0), 65535);
}

#[test]
fn display_name_keeps_thirty_characters() {
    let long = "abcdefghijklmnopqrstuvwxyz0123456789";
    assert_eq!(display_name(long), "abcdefghijklmnopqrstuvwxyz0123");
    assert_eq!(display_name("short.txt"), "short.txt");
}

fn course(update: bool, sent: bool) -> Vec<UploadStep> {
    let mut v = Vec::new();
    let mut s = first_step(update);
    loop {
        v.push(s);
        if s == UploadStep::Finished {
            break;
        }
        s = step_after(s, sent);
    }
    v
}

#[test]
fn upload_of_new_file_that_succeeds() {
    assert_eq!(course(false, true), vec![UploadStep::Register, UploadStep::Fetch, UploadStep::Send, UploadStep::MarkSynced, UploadStep::RemoveLocal, UploadStep::Finished]);
}

#[test]
fn upload_that_fails_keeps_record_unsynced() {
    assert_eq!(course(true, false), vec![UploadStep::Fetch, UploadStep::Send, UploadStep::ReportFailure, UploadStep::Finished]);
    assert_eq!(step_after(UploadStep::Finished, true), UploadStep::Finished);
}
