use updates_storage::codec::AttemptRecord;
use updates_storage::codec::DecodeError;
use updates_storage::codec::decode_lines;
use updates_storage::timestamp::Timestamp;

fn sample_timestamp() -> Timestamp {
    Timestamp {
        weekday: 3,
        day: 1,
        month: 1,
        year: 2024,
        hour: 0,
        minute: 0,
        second: 0,
        offset_negative: false,
        offset_hours: 0,
        offset_minutes: 0,
    }
}

fn sample_record(succeeded: bool) -> AttemptRecord {
    AttemptRecord {
        observed_at: sample_timestamp(),
        address: b"203.0.113.7".to_vec(),
        last_notification_succeeded: succeeded,
    }
}

#[test]
fn to_rfc2822_renders_the_canonical_form() {
    let line = sample_timestamp().to_rfc2822();
    assert_eq!(line, b"Thu, 01 Jan 2024 00:00:00 +0000".to_vec());
}

#[test]
fn to_rfc2822_renders_a_negative_offset() {
    let t = Timestamp {
        weekday: 6,
        day: 31,
        month: 12,
        year: 1999,
        hour: 23,
        minute: 59,
        second: 59,
        offset_negative: true,
        offset_hours: 5,
        offset_minutes: 30,
    };
    assert_eq!(t.to_rfc2822(), b"Sun, 31 Dec 1999 23:59:59 -0530".to_vec());
}

#[test]
fn parse_rfc2822_inverts_the_rendering() {
    let t = sample_timestamp();
    let parsed = Timestamp::parse_rfc2822(&t.to_rfc2822());
    assert_eq!(parsed, Some(t));
}

#[test]
fn parse_rfc2822_inverts_a_negative_offset() {
    let t = Timestamp {
        weekday: 0,
        day: 29,
        month: 2,
        year: 2024,
        hour: 12,
        minute: 34,
        second: 56,
        offset_negative: true,
        offset_hours: 11,
        offset_minutes: 45,
    };
    assert_eq!(Timestamp::parse_rfc2822(&t.to_rfc2822()), Some(t));
}

#[test]
fn parse_rfc2822_rejects_malformed_lines() {
    assert_eq!(Timestamp::parse_rfc2822(&b"".to_vec()), None);
    assert_eq!(Timestamp::parse_rfc2822(&b"garbage".to_vec()), None);
    // wrong length
    assert_eq!(
        Timestamp::parse_rfc2822(&b"Thu, 1 Jan 2024 00:00:00 +0000".to_vec()),
        None
    );
    // unknown weekday name
    assert_eq!(
        Timestamp::parse_rfc2822(&b"Xxx, 01 Jan 2024 00:00:00 +0000".to_vec()),
        None
    );
    // unknown month name
    assert_eq!(
        Timestamp::parse_rfc2822(&b"Thu, 01 Foo 2024 00:00:00 +0000".to_vec()),
        None
    );
    // day out of range
    assert_eq!(
        Timestamp::parse_rfc2822(&b"Thu, 00 Jan 2024 00:00:00 +0000".to_vec()),
        None
    );
    assert_eq!(
        Timestamp::parse_rfc2822(&b"Thu, 32 Jan 2024 00:00:00 +0000".to_vec()),
        None
    );
    // hour out of range
    assert_eq!(
        Timestamp::parse_rfc2822(&b"Thu, 01 Jan 2024 24:00:00 +0000".to_vec()),
        None
    );
    // bad sign
    assert_eq!(
        Timestamp::parse_rfc2822(&b"Thu, 01 Jan 2024 00:00:00 00000".to_vec()),
        None
    );
    // letters where digits belong
    assert_eq!(
        Timestamp::parse_rfc2822(&b"Thu, 0x Jan 2024 00:00:00 +0000".to_vec()),
        None
    );
}

#[test]
fn encode_lines_marks_success_with_a_third_line() {
    let lines = sample_record(true).encode_lines();
    assert_eq!(lines.len(), 3);
    assert_eq!(lines[0], b"Thu, 01 Jan 2024 00:00:00 +0000".to_vec());
    assert_eq!(lines[1], b"203.0.113.7".to_vec());
    assert_eq!(lines[2], b"1".to_vec());
}

#[test]
fn encode_lines_marks_failure_by_absence() {
    let lines = sample_record(false).encode_lines();
    assert_eq!(lines.len(), 2);
    assert_eq!(lines[0], b"Thu, 01 Jan 2024 00:00:00 +0000".to_vec());
    assert_eq!(lines[1], b"203.0.113.7".to_vec());
}

#[test]
fn decode_lines_inverts_encode_lines() {
    for succeeded in [false, true] {
        let rec = sample_record(succeeded);
        let decoded = decode_lines(&rec.encode_lines()).unwrap();
        assert_eq!(decoded.observed_at, rec.observed_at);
        assert_eq!(decoded.address, rec.address);
        assert_eq!(decoded.last_notification_succeeded, succeeded);
    }
}

#[test]
fn decode_lines_treats_a_garbled_marker_as_failure() {
    let mut lines = sample_record(false).encode_lines();
    lines.push(b"0".to_vec());
    let decoded = decode_lines(&lines).unwrap();
    assert!(!decoded.last_notification_succeeded);

    let mut lines = sample_record(false).encode_lines();
    lines.push(b"11".to_vec());
    let decoded = decode_lines(&lines).unwrap();
    assert!(!decoded.last_notification_succeeded);
}

#[test]
fn decode_lines_rejects_truncated_input() {
    assert!(matches!(
        decode_lines(&Vec::new()),
        Err(DecodeError::MalformedRecord)
    ));
    let one_line = vec![b"Thu, 01 Jan 2024 00:00:00 +0000".to_vec()];
    assert!(matches!(
        decode_lines(&one_line),
        Err(DecodeError::MalformedRecord)
    ));
}

#[test]
fn decode_lines_rejects_an_unreadable_timestamp() {
    let lines = vec![b"not a date".to_vec(), b"203.0.113.7".to_vec()];
    assert!(matches!(
        decode_lines(&lines),
        Err(DecodeError::MalformedRecord)
    ));
}

#[test]
fn decode_lines_rejects_an_address_with_a_carriage_return() {
    let lines = vec![
        b"Thu, 01 Jan 2024 00:00:00 +0000".to_vec(),
        b"203.0\r113.7".to_vec(),
    ];
    assert!(matches!(
        decode_lines(&lines),
        Err(DecodeError::MalformedRecord)
    ));
}

#[test]
fn check_well_formed_accepts_the_sample_and_rejects_bad_fields() {
    assert!(sample_record(true).check_well_formed());

    let mut bad_day = sample_record(true);
    bad_day.observed_at.day = 0;
    assert!(!bad_day.check_well_formed());

    let mut bad_address = sample_record(true);
    bad_address.address = b"two\nlines".to_vec();
    assert!(!bad_address.check_well_formed());
}
