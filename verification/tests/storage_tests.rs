use updates_storage::codec::AttemptRecord;
use updates_storage::storage::FileSystemUpdatesStorage;
use updates_storage::storage::split_lines;
use updates_storage::timestamp::Timestamp;

fn backend() -> FileSystemUpdatesStorage {
    FileSystemUpdatesStorage::from(String::from("state/check_file"))
}

fn sample_record(succeeded: bool) -> AttemptRecord {
    AttemptRecord {
        observed_at: Timestamp {
            weekday: 3,
            day: 1,
            month: 1,
            year: 2024,
            hour: 0,
            minute: 0,
            second: 0,
            offset_negative: false,
            offset_hours: 0,
            offset_minutes: 0,
        },
        address: b"203.0.113.7".to_vec(),
        last_notification_succeeded: succeeded,
    }
}

#[test]
fn from_keeps_the_configured_path() {
    let storage = backend();
    assert_eq!(storage.path(), "state/check_file");
    assert_eq!(storage.0, "state/check_file");
}

#[test]
fn save_writes_three_lines_on_success() {
    let content = backend().save_new_attempt(&sample_record(true));
    assert_eq!(
        content,
        b"Thu, 01 Jan 2024 00:00:00 +0000\n203.0.113.7\n1\n".to_vec()
    );
}

#[test]
fn save_writes_two_lines_on_failure() {
    let content = backend().save_new_attempt(&sample_record(false));
    assert_eq!(
        content,
        b"Thu, 01 Jan 2024 00:00:00 +0000\n203.0.113.7\n".to_vec()
    );
}

#[test]
fn saved_content_reads_back_as_the_same_record() {
    let storage = backend();
    for succeeded in [false, true] {
        let rec = sample_record(succeeded);
        let content = storage.save_new_attempt(&rec);
        let read = storage.get_last_ip_attempt(Some(content)).unwrap();
        assert_eq!(read.observed_at, rec.observed_at);
        assert_eq!(read.address, rec.address);
        assert_eq!(read.last_notification_succeeded, succeeded);
    }
}

#[test]
fn a_second_save_leaves_no_trace_of_the_first() {
    // record A carries the marker line; record B, saved over it, must not
    let storage = backend();
    let content_a = storage.save_new_attempt(&sample_record(true));
    let content_b = storage.save_new_attempt(&sample_record(false));
    assert!(content_a.ends_with(b"\n1\n"));
    assert!(!content_b.ends_with(b"\n1\n"));
    let read = storage.get_last_ip_attempt(Some(content_b)).unwrap();
    assert!(!read.last_notification_succeeded);
}

#[test]
fn an_unopenable_file_means_no_record() {
    assert!(backend().get_last_ip_attempt(None).is_none());
}

#[test]
fn unreadable_content_means_no_record() {
    let storage = backend();
    assert!(storage.get_last_ip_attempt(Some(Vec::new())).is_none());
    assert!(storage
        .get_last_ip_attempt(Some(b"garbage".to_vec()))
        .is_none());
    assert!(storage
        .get_last_ip_attempt(Some(b"Thu, 01 Jan 2024 00:00:00 +0000\n".to_vec()))
        .is_none());
}

#[test]
fn carriage_return_line_endings_read_back_the_same() {
    let storage = backend();
    let content = b"Thu, 01 Jan 2024 00:00:00 +0000\r\n203.0.113.7\r\n1\r\n".to_vec();
    let read = storage.get_last_ip_attempt(Some(content)).unwrap();
    let rec = sample_record(true);
    assert_eq!(read.observed_at, rec.observed_at);
    assert_eq!(read.address, rec.address);
    assert!(read.last_notification_succeeded);
}

#[test]
fn a_missing_final_terminator_reads_back_the_same() {
    let storage = backend();
    let content = b"Thu, 01 Jan 2024 00:00:00 +0000\n203.0.113.7".to_vec();
    let read = storage.get_last_ip_attempt(Some(content)).unwrap();
    assert_eq!(read.address, b"203.0.113.7".to_vec());
    assert!(!read.last_notification_succeeded);
}

#[test]
fn split_lines_matches_line_oriented_reading() {
    let lines = split_lines(&b"a\nbc\r\n\nd".to_vec());
    assert_eq!(
        lines,
        vec![b"a".to_vec(), b"bc".to_vec(), b"".to_vec(), b"d".to_vec()]
    );
    assert_eq!(split_lines(&Vec::new()), Vec::<Vec<u8>>::new());
    assert_eq!(split_lines(&b"x\n".to_vec()), vec![b"x".to_vec()]);
}
