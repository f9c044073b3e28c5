use imaging_lib::download::{
    Acquisition, Admission, FetchOutcome, ImageDownloadRecord, FETCH_INTERVAL_MS, MAX_IN_FLIGHT,
};
use imaging_lib::progress::Progress;

/// The line that reports a tally, with the percentage as a floating-point
/// quotient writes it.
fn line(progress: &Progress) -> String {
    if progress.total() == 0 {
        return progress.summary("");
    }
    let share = (progress.completed() + progress.failed()) as f64
        / (progress.total() - progress.skipped()) as f64;
    progress.summary(&format!("{:.2}", share * 100.0))
}

fn record(name: &str, completed: bool) -> ImageDownloadRecord {
    ImageDownloadRecord {
        filename: format!("{}.jpg", name),
        url: format!("http://images.test/{}", name),
        completed,
        error: None,
    }
}

fn fetch(run: &mut Acquisition, now_ms: u64) -> (usize, ImageDownloadRecord) {
    match run.next_fetch(now_ms) {
        Admission::Fetch { index, record } => (index, record),
        other => panic!("expected a record to fetch, got {:?}", other),
    }
}

#[test]
fn duplicate_keeps_every_field() {
    let line = ImageDownloadRecord {
        filename: "a.png".to_string(),
        url: "http://images.test/a".to_string(),
        completed: true,
        error: Some("gone".to_string()),
    };
    let copy = line.duplicate();
    assert_eq!(copy.filename, "a.png");
    assert_eq!(copy.url, "http://images.test/a");
    assert!(copy.completed);
    assert_eq!(copy.error, Some("gone".to_string()));
}

#[test]
fn three_records_one_done_one_fetched_one_missing() {
    let records = vec![record("done", true), record("fresh", false), record("missing", false)];
    let (mut run, passed) = Acquisition::begin(records, 0);

    assert_eq!(passed.len(), 1);
    assert_eq!(passed[0].filename, "done.jpg");
    assert_eq!(passed[0].url, "http://images.test/done");
    assert!(passed[0].completed);
    assert_eq!(passed[0].error, None);
    assert_eq!(run.progress().total(), 3);
    assert_eq!(run.progress().skipped(), 1);

    let (first, first_record) = fetch(&mut run, 0);
    assert_eq!(first, 1);
    assert_eq!(first_record.url, "http://images.test/fresh");
    let (second, second_record) = fetch(&mut run, FETCH_INTERVAL_MS);
    assert_eq!(second, 2);
    assert_eq!(second_record.url, "http://images.test/missing");
    assert!(matches!(run.next_fetch(2 * FETCH_INTERVAL_MS), Admission::Drained));

    let body: Vec<u8> = vec![1, 2, 3, 4, 5, 6, 7, 8, 9, 10];
    let fetched = run.resolve(first, FetchOutcome::Body(body.clone())).unwrap();
    assert_eq!(fetched.record.filename, "fresh.jpg");
    assert_eq!(fetched.record.url, "http://images.test/fresh");
    assert!(fetched.record.completed);
    assert_eq!(fetched.record.error, None);
    let member = fetched.member.unwrap();
    assert_eq!(member.name, "fresh.jpg");
    assert_eq!(member.bytes, body);
    assert_eq!(line(run.progress()), "1 of 2 completed. (1 skipped, 0 failed) (50.00%)");
    assert!(!run.is_finished());

    let failure = "HTTP status client error (404 Not Found)".to_string();
    let missing = run.resolve(second, FetchOutcome::Failed(failure.clone())).unwrap();
    assert_eq!(missing.record.filename, "missing.jpg");
    assert!(!missing.record.completed);
    assert_eq!(missing.record.error, Some(failure));
    assert!(missing.member.is_none());
    assert_eq!(line(run.progress()), "1 of 1 completed. (1 skipped, 1 failed) (100.00%)");

    assert!(run.is_finished());
    assert_eq!(run.progress().completed(), 1);
    assert_eq!(run.progress().skipped(), 1);
    assert_eq!(run.progress().failed(), 1);
    assert_eq!(run.progress().total(), 3);
    assert_eq!(run.ledger_order(), &vec![0, 1, 2]);
}

#[test]
fn completed_ledger_has_nothing_to_fetch() {
    let records = vec![record("a", true), record("b", true), record("c", true)];
    let (mut run, passed) = Acquisition::begin(records, 0);
    assert_eq!(passed.len(), 3);
    assert_eq!(passed[0].filename, "a.jpg");
    assert_eq!(passed[1].filename, "b.jpg");
    assert_eq!(passed[2].filename, "c.jpg");
    assert!(run.is_finished());
    assert!(matches!(run.next_fetch(0), Admission::Drained));
    assert!(run.resolve(0, FetchOutcome::Body(vec![1])).is_none());
    assert!(run.resolve(1, FetchOutcome::Failed("late".to_string())).is_none());
    assert_eq!(run.progress().skipped(), 3);
    assert_eq!(run.progress().completed(), 0);
    assert_eq!(run.progress().failed(), 0);
    assert_eq!(run.progress().total(), 3);
    assert_eq!(run.in_flight(), 0);
}

#[test]
fn empty_ledger_is_over_at_once() {
    let (mut run, passed) = Acquisition::begin(Vec::new(), 0);
    assert!(passed.is_empty());
    assert!(run.is_finished());
    assert!(matches!(run.next_fetch(0), Admission::Drained));
    assert_eq!(run.progress().total(), 0);
    assert_eq!(line(run.progress()), "0 completed. (0 skipped, 0 failed)");
}

#[test]
fn limit_counts_the_records_to_fetch() {
    let records = vec![
        record("a", false),
        record("b", true),
        record("c", false),
        record("d", false),
        record("e", true),
        record("f", false),
    ];
    let (mut run, passed) = Acquisition::begin(records, 2);
    // Every completed record is passed through, wherever it stands.
    assert_eq!(passed.len(), 2);
    assert_eq!(passed[0].filename, "b.jpg");
    assert_eq!(passed[1].filename, "e.jpg");
    assert_eq!(run.ledger_order(), &vec![1, 4]);
    // Two completed and two left out.
    assert_eq!(run.progress().total(), 6);
    assert_eq!(run.progress().skipped(), 4);

    let (first, _) = fetch(&mut run, 1_000);
    let (second, _) = fetch(&mut run, 2_000);
    assert_eq!((first, second), (0, 2));
    assert!(matches!(run.next_fetch(3_000), Admission::Drained));
    assert!(run.resolve(3, FetchOutcome::Body(vec![0])).is_none());
    assert!(run.resolve(5, FetchOutcome::Body(vec![0])).is_none());
    run.resolve(second, FetchOutcome::Body(vec![0])).unwrap();
    run.resolve(first, FetchOutcome::Failed("refused".to_string())).unwrap();
    assert!(run.is_finished());
    assert_eq!(run.ledger_order(), &vec![1, 4, 2, 0]);
    let tally = run.progress();
    assert_eq!(tally.completed(), 1);
    assert_eq!(tally.failed(), 1);
    assert_eq!(tally.completed() + tally.skipped() + tally.failed(), tally.total());
}

#[test]
fn limit_is_not_used_up_by_completed_records() {
    let records = vec![record("done", true), record("a", false), record("b", false)];
    let (mut run, passed) = Acquisition::begin(records, 1);
    assert_eq!(passed.len(), 1);
    let (index, fetched) = fetch(&mut run, 0);
    assert_eq!(index, 1);
    assert_eq!(fetched.filename, "a.jpg");
    assert!(matches!(run.next_fetch(1_000), Admission::Drained));
    run.resolve(index, FetchOutcome::Body(vec![7])).unwrap();
    assert!(run.is_finished());
    assert_eq!(run.ledger_order(), &vec![0, 1]);
    assert_eq!(run.progress().completed(), 1);
    assert_eq!(run.progress().skipped(), 2);
    assert_eq!(run.progress().failed(), 0);
}

#[test]
fn limit_at_or_above_the_records_to_fetch_takes_all() {
    let records = vec![record("a", false), record("b", true), record("c", false)];
    let (run, _) = Acquisition::begin(records, 2);
    assert_eq!(run.progress().skipped(), 1);
    let records = vec![record("a", false), record("b", false)];
    let (run, _) = Acquisition::begin(records, 9);
    assert_eq!(run.progress().skipped(), 0);
    assert_eq!(run.progress().total(), 2);
}

#[test]
fn gate_opens_once_per_interval() {
    let records = vec![record("a", false), record("b", false), record("c", false)];
    let (mut run, _) = Acquisition::begin(records, 0);
    fetch(&mut run, 5_000);
    match run.next_fetch(5_000) {
        Admission::Wait { millis } => assert_eq!(millis, 200),
        other => panic!("expected to wait, got {:?}", other),
    }
    match run.next_fetch(5_150) {
        Admission::Wait { millis } => assert_eq!(millis, 50),
        other => panic!("expected to wait, got {:?}", other),
    }
    match run.next_fetch(4_000) {
        Admission::Wait { millis } => assert_eq!(millis, 200),
        other => panic!("expected to wait, got {:?}", other),
    }
    let (index, _) = fetch(&mut run, 5_200);
    assert_eq!(index, 1);
    assert!(matches!(run.next_fetch(5_399), Admission::Wait { millis: 1 }));
    let (index, _) = fetch(&mut run, 5_400);
    assert_eq!(index, 2);
}

#[test]
fn no_more_than_six_fetches_at_once() {
    let records: Vec<ImageDownloadRecord> =
        (0..8).map(|i| record(&format!("image{}", i), false)).collect();
    let (mut run, _) = Acquisition::begin(records, 0);
    let mut now = 0;
    for expected in 0..MAX_IN_FLIGHT {
        let (index, _) = fetch(&mut run, now);
        assert_eq!(index, expected);
        now += FETCH_INTERVAL_MS;
    }
    assert_eq!(run.in_flight(), 6);
    assert!(matches!(run.next_fetch(now), Admission::Busy));
    assert!(matches!(run.next_fetch(now + 10_000), Admission::Busy));
    run.resolve(3, FetchOutcome::Body(vec![])).unwrap();
    assert_eq!(run.in_flight(), 5);
    let (index, _) = fetch(&mut run, now);
    assert_eq!(index, 6);
    assert!(matches!(run.next_fetch(now + FETCH_INTERVAL_MS), Admission::Busy));
}

#[test]
fn a_fetch_resolves_once() {
    let records = vec![record("a", false), record("b", false)];
    let (mut run, _) = Acquisition::begin(records, 0);
    assert!(run.resolve(0, FetchOutcome::Body(vec![1])).is_none());
    let (index, _) = fetch(&mut run, 0);
    assert!(run.resolve(1, FetchOutcome::Body(vec![1])).is_none());
    assert!(run.resolve(7, FetchOutcome::Body(vec![1])).is_none());
    assert!(run.resolve(index, FetchOutcome::Body(vec![1])).is_some());
    assert!(run.resolve(index, FetchOutcome::Body(vec![1])).is_none());
    assert_eq!(run.progress().completed(), 1);
    assert_eq!(run.ledger_order(), &vec![0]);
}

#[test]
fn failure_replaces_an_earlier_error_and_success_clears_it() {
    let stale = ImageDownloadRecord {
        filename: "a.jpg".to_string(),
        url: "http://images.test/a".to_string(),
        completed: false,
        error: Some("timed out".to_string()),
    };
    let (mut run, passed) = Acquisition::begin(vec![stale.duplicate(), stale], 0);
    assert!(passed.is_empty());
    let (first, admitted) = fetch(&mut run, 0);
    assert_eq!(admitted.error, Some("timed out".to_string()));
    let (second, _) = fetch(&mut run, 200);
    let cleared = run.resolve(first, FetchOutcome::Body(vec![9])).unwrap();
    assert_eq!(cleared.record.error, None);
    assert!(cleared.record.completed);
    let failed = run.resolve(second, FetchOutcome::Failed("refused".to_string())).unwrap();
    assert_eq!(failed.record.error, Some("refused".to_string()));
    assert!(!failed.record.completed);
}

#[test]
fn every_record_is_written_once_whatever_the_order() {
    let records: Vec<ImageDownloadRecord> =
        (0..20).map(|i| record(&format!("image{}", i), i % 3 == 0)).collect();
    let (mut run, passed) = Acquisition::begin(records, 0);
    let mut written: Vec<String> = passed.iter().map(|r| r.filename.clone()).collect();
    let mut outstanding: Vec<usize> = Vec::new();
    let mut now = 0;
    while !run.is_finished() {
        match run.next_fetch(now) {
            Admission::Fetch { index, .. } => outstanding.push(index),
            Admission::Wait { millis } => now += millis,
            Admission::Busy | Admission::Drained => {
                // The fetch admitted last is the first to come back.
                let index = outstanding.pop().unwrap();
                let outcome = if index % 2 == 0 {
                    FetchOutcome::Body(vec![index as u8])
                } else {
                    FetchOutcome::Failed("unreachable host".to_string())
                };
                let done = run.resolve(index, outcome).unwrap();
                assert_eq!(done.member.is_some(), index % 2 == 0);
                written.push(done.record.filename);
            }
        }
        assert!(run.in_flight() <= MAX_IN_FLIGHT);
        let tally = run.progress();
        assert!(tally.completed() + tally.skipped() + tally.failed() <= tally.total());
    }
    assert_eq!(written.len(), 20);
    let mut names = written.clone();
    names.sort();
    names.dedup();
    assert_eq!(names.len(), 20);
    let order = run.ledger_order();
    for (line, index) in order.iter().enumerate() {
        assert_eq!(written[line], format!("image{}.jpg", index));
    }
    let tally = run.progress();
    assert_eq!(tally.completed() + tally.skipped() + tally.failed(), 20);
    assert_eq!(tally.skipped(), 7);
}
