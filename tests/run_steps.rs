use wayback_fetch::index::parse_index;
use wayback_fetch::run::{Action, Event, Run, Stage};

fn record(fields: &[&str]) -> Vec<String> {
    fields.iter().map(|f| f.to_string()).collect()
}

#[test]
fn no_records_reports_none_and_downloads_nothing() {
    let mut run = Run::new(parse_index("urlkey,timestamp\n"), "out".to_string());
    assert!(matches!(run.step(Event::Proceed), Action::ReportNoSnapshots));
    assert_eq!(run.stage(), Stage::Finished);
    for _ in 0..3 {
        assert!(matches!(run.step(Event::Proceed), Action::Finish));
        assert!(matches!(run.step(Event::Failed), Action::Finish));
    }
}

#[test]
fn records_are_handled_in_listing_order() {
    let records = vec![
        record(&["k", "d", "20200101000000", "http://example.com"]),
        record(&["short", "row"]),
        record(&["k", "d", "20210101000000", "http://example.com/a"]),
    ];
    let mut run = Run::new(records, "out".to_string());
    assert_eq!(run.stage(), Stage::Ready);
    assert!(matches!(run.step(Event::Proceed), Action::Announce { count: 3 }));
    match run.step(Event::Proceed) {
        Action::Fetch { position, url, path } => {
            assert_eq!(position, 0);
            assert_eq!(url, "https://web.archive.org/web/20200101000000/http://example.com");
            assert_eq!(path, "out/20200101000000.html");
        }
        other => panic!("unexpected {:?}", other),
    }
    assert!(matches!(run.step(Event::Proceed), Action::SkipMalformed { position: 1 }));
    match run.step(Event::Proceed) {
        Action::Fetch { position, url, path } => {
            assert_eq!(position, 2);
            assert_eq!(url, "https://web.archive.org/web/20210101000000/http://example.com/a");
            assert_eq!(path, "out/20210101000000.html");
        }
        other => panic!("unexpected {:?}", other),
    }
    assert!(matches!(run.step(Event::Proceed), Action::Finish));
    assert_eq!(run.stage(), Stage::Finished);
}

#[test]
fn failed_download_aborts_remaining_work() {
    let records = vec![
        record(&["k", "d", "1", "http://a"]),
        record(&["k", "d", "2", "http://b"]),
    ];
    let mut run = Run::new(records, "o".to_string());
    assert!(matches!(run.step(Event::Proceed), Action::Announce { count: 2 }));
    assert!(matches!(run.step(Event::Proceed), Action::Fetch { position: 0, .. }));
    assert!(matches!(run.step(Event::Failed), Action::Abort));
    assert_eq!(run.stage(), Stage::Aborted);
    for _ in 0..3 {
        assert!(matches!(run.step(Event::Proceed), Action::Abort));
    }
}

#[test]
fn record_with_exactly_four_fields_is_fetched() {
    let mut run = Run::new(vec![record(&["", "", "t", "u"])], "".to_string());
    run.step(Event::Proceed);
    match run.step(Event::Proceed) {
        Action::Fetch { url, path, .. } => {
            assert_eq!(url, "https://web.archive.org/web/t/u");
            assert_eq!(path, "/t.html");
        }
        other => panic!("unexpected {:?}", other),
    }
}

#[test]
fn record_with_three_fields_is_skipped() {
    let mut run = Run::new(vec![record(&["a", "b", "c"])], "d".to_string());
    run.step(Event::Proceed);
    assert!(matches!(run.step(Event::Proceed), Action::SkipMalformed { position: 0 }));
    assert!(matches!(run.step(Event::Proceed), Action::Finish));
}
