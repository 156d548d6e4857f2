use maqistor::engine::types::{
    timestamp_of_reading, unix_now, AcceptedJob, Execution, ExecutionStatus, Job, JobQueue, StoreError,
};
use maqistor::text::{
    contains, contains_char, decimal_text, ends_with, find_last, is_blank, join, lines,
    remove_first, same_text, signed_decimal_text, starts_with, trim, trim_end_char,
};

#[test]
fn texts_are_taken_apart() {
    assert_eq!(trim(" \t a b \u{a0}\n"), "a b");
    assert!(is_blank(" \u{2003}"));
    assert!(!is_blank(" x"));
    assert_eq!(trim_end_char("a//b//", '/'), "a//b");
    assert_eq!(remove_first("a b c", ' '), "ab c");
    assert_eq!(remove_first("abc", ' '), "abc");
    assert!(starts_with("abc", "ab"));
    assert!(!starts_with("a", "ab"));
    assert!(ends_with("abc", "bc"));
    assert!(contains("abc", "b"));
    assert!(contains("abc", ""));
    assert!(!contains("abc", "ac"));
    assert!(contains_char("abc", 'c'));
    assert_eq!(find_last(&"a-b-c".chars().collect(), '-'), Some(3));
    assert!(same_text("a", "a"));
}

#[test]
fn lines_end_at_line_feeds() {
    for text in ["", "\n", "a", "a\n", "a\r\nb", "a\r", "a\n\nb\n", "\r\n"] {
        let expected: Vec<String> = text.lines().map(String::from).collect();
        assert_eq!(lines(text), expected, "{text:?}");
    }
}

#[test]
fn numbers_are_spelled() {
    assert_eq!(decimal_text(0), "0");
    assert_eq!(decimal_text(u64::MAX), u64::MAX.to_string());
    assert_eq!(signed_decimal_text(-42), "-42");
    assert_eq!(signed_decimal_text(i64::MIN), i64::MIN.to_string());
    assert_eq!(join(&vec!["a".into(), "b".into()], ", "), "a, b");
}

#[test]
fn jobs_are_merged_with_their_attempt() {
    let mut accepted = AcceptedJob::new_at("email", vec![1], 5);
    accepted.id = 3;
    let pending = Job::from_accepted(accepted.clone(), None);
    assert_eq!(pending.status, ExecutionStatus::Pending);
    assert_eq!(pending.execution_count, 0);
    let execution = Execution {
        id: 1,
        job_id: 3,
        queue_name: "email".into(),
        status: ExecutionStatus::Failed,
        execution_count: 2,
        lease_expires_at: None,
        dispatch_id: "d".into(),
        result_payload: None,
        result_error: Some("why".into()),
        created_at: 6,
        updated_at: 7,
    };
    let retried = Job::from_accepted(accepted.clone(), Some(&execution));
    assert_eq!(retried.status, ExecutionStatus::Pending);
    accepted.dispatch_id = Some("d".into());
    let failed = Job::from_accepted(accepted, Some(&execution));
    assert_eq!(failed.status, ExecutionStatus::Failed);
    assert_eq!(failed.execution_count, 2);
    assert_eq!(failed.result_error.as_deref(), Some("why"));
    assert_eq!(failed.created_at, 5);
}

#[test]
fn statuses_are_spelled_and_read() {
    for status in [
        ExecutionStatus::Pending,
        ExecutionStatus::Running,
        ExecutionStatus::Completed,
        ExecutionStatus::Failed,
    ] {
        assert_eq!(ExecutionStatus::parse(status.as_str()), Some(status));
    }
    assert_eq!(ExecutionStatus::parse("done"), None);
    assert_eq!(
        StoreError::QueueNotFound("q".into()).to_text(),
        "queue not found: q"
    );
}

#[test]
fn white_space_is_what_unicode_says() {
    let listed = |code: u32| {
        (0x9..=0xd).contains(&code)
            || (0x2000..=0x200a).contains(&code)
            || [0x20, 0x85, 0xa0, 0x1680, 0x2028, 0x2029, 0x202f, 0x205f, 0x3000].contains(&code)
    };
    for code in 0..=0x10ffff {
        if let Some(c) = char::from_u32(code) {
            assert_eq!(is_blank(&c.to_string()), listed(code), "{code:x}");
        }
    }
}

#[test]
fn clocks_are_read_in_milliseconds() {
    assert_eq!(timestamp_of_reading(Some(1_700_000_000_123)), 1_700_000_000_123);
    assert_eq!(timestamp_of_reading(None), 0);
    let now = unix_now();
    assert!(now > 1_600_000_000_000);
    let queue = JobQueue::new("email");
    assert!(queue.created_at >= now);
    assert_eq!((queue.max_retries, queue.timeout_secs), (3, 60));
    assert!(AcceptedJob::new("email", vec![]).created_at >= now);
}
