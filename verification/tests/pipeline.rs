use youstat::parser::{Fault, HistoryRecord, InputError, ResolvedMetadata, Subtitle};
use youstat::pipeline::{
    backoff_millis, failure_of_status, Action, Event, ExportFailure, LookupFailure, Report, Run,
    RunError, RETRY_LIMIT,
};
use youstat::rank::top;
use youstat::render::render;
use youstat::Args;

fn listen(artist: &str, track: &str, time: &str) -> HistoryRecord {
    HistoryRecord {
        header: "YouTube Music".to_string(),
        title: format!("Watched {}", track),
        time: time.to_string(),
        subtitles: Some(vec![Subtitle { name: artist.to_string() }]),
    }
}

fn reference(id: &str, time: &str) -> HistoryRecord {
    HistoryRecord {
        header: "YouTube Music".to_string(),
        title: format!("Watched https://www.youtube.com/watch?v={}", id),
        time: time.to_string(),
        subtitles: None,
    }
}

fn conf(max: u64) -> Args<'static> {
    Args { api_key: "key", input_file: "history.json", year: 2023, max }
}

fn answer(channel: &str, title: &str) -> ResolvedMetadata {
    ResolvedMetadata { channel_name: channel.to_string(), title: title.to_string() }
}

fn report_of(action: Action) -> Report {
    match action {
        Action::Report(report) => report,
        other => panic!("no report: {:?}", other),
    }
}

#[test]
fn three_records_and_one_lookup_end_to_end() {
    let conf = conf(1);
    let export = vec![
        listen("Artist1", "Song A", "2023-01-05T10:00:00Z"),
        reference("vid1", "2023-02-05T10:00:00Z"),
        listen("Artist1", "Song B", "2023-03-05T10:00:00Z"),
    ];
    let (run, action) = Run::new().step(&conf, Event::Export(Ok(export)));
    assert_eq!(action, Action::Lookup { batch: "vid1".to_string(), attempt: 0 });
    let stub = vec![answer("Artist2", "Song C")];
    let (run, action) = run.step(&conf, Event::Resolved(stub));
    assert_eq!(run, Run::Finished);
    let report = report_of(action);
    let shown = top(report.artists.clone(), conf.max);
    assert_eq!(shown.len(), 1);
    assert_eq!(shown[0].identity.0, "Artist1");
    assert_eq!(shown[0].count, 2);
    assert_eq!(report.artists.len(), 2);
    assert_eq!(report.artists[1].identity.0, "Artist2");
    assert_eq!(report.artists[1].count, 1);
    let lines = render(&report, conf.year, conf.max);
    assert_eq!(
        lines,
        vec![
            "YouTube Music Statistics for 2023".to_string(),
            ">------- Top Artists -------<".to_string(),
            "1. Artist1 - 2 times".to_string(),
            "".to_string(),
            ">------- Top Songs -------<".to_string(),
            "1. Song A - 1 times".to_string(),
        ]
    );
}

#[test]
fn malformed_export_ends_the_run_without_a_report() {
    let decoded: Result<serde_json::Value, serde_json::Error> =
        serde_json::from_str("[{\"header\": \"YouTube Music\", ");
    assert!(decoded.is_err());
    let event = Event::Export(Err(ExportFailure::Malformed));
    let (run, action) = Run::new().step(&conf(10), event);
    assert_eq!(run, Run::Finished);
    assert_eq!(action, Action::Abort(RunError::Export(ExportFailure::Malformed)));
    let (run, action) = run.step(&conf(10), Event::Resolved(Vec::new()));
    assert_eq!(run, Run::Finished);
    assert_eq!(action, Action::Abort(RunError::OutOfTurn));
}

#[test]
fn missing_or_unreadable_export_ends_the_run() {
    for failure in [ExportFailure::Missing, ExportFailure::Unreadable] {
        let (run, action) = Run::new().step(&conf(10), Event::Export(Err(failure)));
        assert_eq!(run, Run::Finished);
        assert_eq!(action, Action::Abort(RunError::Export(failure)));
    }
}

#[test]
fn unusable_record_ends_the_run() {
    let export = vec![
        listen("A", "S", "2023-01-05T10:00:00Z"),
        listen("A", "S", "05/01/2023"),
    ];
    let (run, action) = Run::new().step(&conf(10), Event::Export(Ok(export)));
    assert_eq!(run, Run::Finished);
    assert_eq!(
        action,
        Action::Abort(RunError::Input(InputError { index: 1, fault: Fault::BadTimestamp }))
    );
}

#[test]
fn export_without_references_needs_no_lookup() {
    let export = vec![
        listen("b", "S1", "2023-01-05T10:00:00Z"),
        listen("a", "S2", "2023-01-06T10:00:00Z"),
        listen("a", "S3", "2022-01-06T10:00:00Z"),
    ];
    let (run, action) = Run::new().step(&conf(10), Event::Export(Ok(export)));
    assert_eq!(run, Run::Finished);
    let report = report_of(action);
    let names: Vec<(&str, usize)> =
        report.artists.iter().map(|e| (e.identity.0.as_str(), e.count)).collect();
    assert_eq!(names, vec![("A", 1), ("B", 1)]);
    let songs: Vec<(&str, usize)> =
        report.tracks.iter().map(|e| (e.identity.0.as_str(), e.count)).collect();
    assert_eq!(songs, vec![("S1", 1), ("S2", 1)]);
}

#[test]
fn empty_export_gives_an_empty_report() {
    let (run, action) = Run::new().step(&conf(10), Event::Export(Ok(Vec::new())));
    assert_eq!(run, Run::Finished);
    let report = report_of(action);
    assert!(report.artists.is_empty() && report.tracks.is_empty());
}

#[test]
fn batches_are_looked_up_one_after_another() {
    let conf = conf(10);
    let export: Vec<HistoryRecord> =
        (0..120).map(|i| reference(&format!("v{}", i), "2023-06-01T00:00:00Z")).collect();
    let (mut run, mut action) = Run::new().step(&conf, Event::Export(Ok(export)));
    let mut asked: Vec<String> = Vec::new();
    let mut rounds = 0;
    loop {
        match action {
            Action::Lookup { batch, attempt } => {
                assert_eq!(attempt, 0);
                let items: Vec<ResolvedMetadata> =
                    batch.split(',').map(|id| answer("Channel", id)).collect();
                asked.extend(batch.split(',').map(|id| id.to_string()));
                let next = run.step(&conf, Event::Resolved(items));
                run = next.0;
                action = next.1;
                rounds += 1;
            },
            Action::Report(report) => {
                assert_eq!(report.artists.len(), 1);
                assert_eq!(report.artists[0].identity.0, "Channel");
                assert_eq!(report.artists[0].count, 120);
                assert_eq!(report.tracks.len(), 120);
                break;
            },
            Action::Abort(error) => panic!("{:?}", error),
        }
    }
    assert_eq!(rounds, 3);
    let expected: Vec<String> = (0..120).map(|i| format!("v{}", i)).collect();
    assert_eq!(asked, expected);
    assert_eq!(run, Run::Finished);
}

#[test]
fn passing_failure_is_tried_again_up_to_the_limit() {
    let conf = conf(10);
    let export = vec![reference("v1", "2023-06-01T00:00:00Z")];
    let (mut run, action) = Run::new().step(&conf, Event::Export(Ok(export)));
    assert_eq!(action, Action::Lookup { batch: "v1".to_string(), attempt: 0 });
    assert_eq!(RETRY_LIMIT, 3);
    for tries in 1..=RETRY_LIMIT {
        let next = run.step(&conf, Event::LookupFailed(LookupFailure::Retryable));
        run = next.0;
        assert_eq!(next.1, Action::Lookup { batch: "v1".to_string(), attempt: tries });
    }
    let (run, action) = run.step(&conf, Event::LookupFailed(LookupFailure::Retryable));
    assert_eq!(run, Run::Finished);
    assert_eq!(
        action,
        Action::Abort(RunError::Lookup {
            batch: "v1".to_string(),
            failure: LookupFailure::Retryable
        })
    );
}

#[test]
fn answer_after_a_retry_goes_on() {
    let conf = conf(10);
    let export = vec![
        reference("v1", "2023-06-01T00:00:00Z"),
        listen("x", "Song", "2023-06-01T00:00:00Z"),
    ];
    let (run, _) = Run::new().step(&conf, Event::Export(Ok(export)));
    let (run, action) = run.step(&conf, Event::LookupFailed(LookupFailure::Retryable));
    assert_eq!(action, Action::Lookup { batch: "v1".to_string(), attempt: 1 });
    let (run, action) = run.step(&conf, Event::Resolved(vec![answer("x", "Other")]));
    assert_eq!(run, Run::Finished);
    let report = report_of(action);
    assert_eq!(report.artists.len(), 1);
    assert_eq!(report.artists[0].count, 2);
}

#[test]
fn lasting_failure_ends_the_run_and_names_the_batch() {
    let conf = conf(10);
    let export = vec![
        reference("v1", "2023-06-01T00:00:00Z"),
        reference("v2", "2023-06-02T00:00:00Z"),
    ];
    let (run, _) = Run::new().step(&conf, Event::Export(Ok(export)));
    let (run, action) = run.step(&conf, Event::LookupFailed(LookupFailure::Terminal));
    assert_eq!(run, Run::Finished);
    assert_eq!(
        action,
        Action::Abort(RunError::Lookup {
            batch: "v1,v2".to_string(),
            failure: LookupFailure::Terminal
        })
    );
}

#[test]
fn event_out_of_turn_ends_the_run() {
    let conf = conf(10);
    let (run, action) = Run::new().step(&conf, Event::Resolved(Vec::new()));
    assert_eq!(run, Run::Finished);
    assert_eq!(action, Action::Abort(RunError::OutOfTurn));
    let (_, action) = Run::new().step(&conf, Event::LookupFailed(LookupFailure::Terminal));
    assert_eq!(action, Action::Abort(RunError::OutOfTurn));
    let export = vec![reference("v1", "2023-06-01T00:00:00Z")];
    let (run, _) = Run::new().step(&conf, Event::Export(Ok(export)));
    let (run, action) = run.step(&conf, Event::Export(Ok(Vec::new())));
    assert_eq!(run, Run::Finished);
    assert_eq!(action, Action::Abort(RunError::OutOfTurn));
}

#[test]
fn answers_need_not_match_the_identifiers_asked_for() {
    let conf = conf(10);
    let export = vec![
        reference("v1", "2023-06-01T00:00:00Z"),
        reference("v2", "2023-06-02T00:00:00Z"),
    ];
    let (run, _) = Run::new().step(&conf, Event::Export(Ok(export)));
    let (run, action) = run.step(&conf, Event::Resolved(Vec::new()));
    assert_eq!(run, Run::Finished);
    let report = report_of(action);
    assert!(report.artists.is_empty());
}

#[test]
fn status_tells_how_a_lookup_failed() {
    for status in [200u16, 204, 299] {
        assert_eq!(failure_of_status(status), None);
    }
    for status in [429u16, 500, 502, 503, 599] {
        assert_eq!(failure_of_status(status), Some(LookupFailure::Retryable));
    }
    for status in [0u16, 100, 199, 300, 400, 401, 403, 404, 428, 430, 499, 600, u16::MAX] {
        assert_eq!(failure_of_status(status), Some(LookupFailure::Terminal));
    }
}

#[test]
fn pauses_grow_and_stay_bounded() {
    assert_eq!(backoff_millis(0), 0);
    assert_eq!(backoff_millis(1), 500);
    assert_eq!(backoff_millis(2), 1000);
    assert_eq!(backoff_millis(3), 2000);
    assert_eq!(backoff_millis(u32::MAX), 2000);
}

#[test]
fn states_of_a_run_are_well_formed() {
    let conf = conf(10);
    assert!(Run::new().well_formed());
    let export = vec![reference("v1", "2023-06-01T00:00:00Z")];
    let (run, _) = Run::new().step(&conf, Event::Export(Ok(export)));
    assert!(run.well_formed());
    let broken = Run::Resolving {
        artists: Vec::new(),
        tracks: Vec::new(),
        batches: Vec::new(),
        next: 0,
        attempts: 0,
    };
    assert!(!broken.well_formed());
}

#[test]
fn errors_name_what_went_wrong() {
    let path = "history.json";
    assert_eq!(
        RunError::Export(ExportFailure::Missing).message(path),
        "Provided input file 'history.json' does not exist."
    );
    assert_eq!(
        RunError::Export(ExportFailure::Unreadable).message(path),
        "Input file 'history.json' could not be read."
    );
    assert_eq!(
        RunError::Export(ExportFailure::Malformed).message(path),
        "Input file 'history.json' does not hold a list of history records."
    );
    assert_eq!(
        RunError::Input(InputError { index: 12, fault: Fault::BadTimestamp }).message(path),
        "Record 12 of 'history.json' has a timestamp that is not RFC 3339."
    );
    assert_eq!(
        RunError::Input(InputError { index: 0, fault: Fault::NoSubtitle }).message(path),
        "Record 0 of 'history.json' names a track but no artist."
    );
    assert_eq!(
        RunError::Lookup { batch: "a,b".to_string(), failure: LookupFailure::Retryable }
            .message(path),
        "Lookup kept failing for identifiers a,b."
    );
    assert_eq!(
        RunError::Lookup { batch: "a,b".to_string(), failure: LookupFailure::Terminal }
            .message(path),
        "Lookup was refused for identifiers a,b."
    );
    assert_eq!(
        RunError::OutOfTurn.message(path),
        "The run received an event that it was not waiting for."
    );
}
