//! How the relay runs: its metrics and its end.
use purple_wolf::numbers::{parse_numeral, NumberProblem};
use purple_wolf::relay::metrics::{family, latency_buckets_ms, Kind, FAMILY_COUNT};
use purple_wolf::relay::supervise::{run, task_outcome, Stop, TaskEnd};

#[test]
fn metrics_have_their_names() {
    let mut names: Vec<&str> = (0..FAMILY_COUNT).map(|i| family(i).name).collect();
    assert!(names.iter().all(|n| n.starts_with("pwrelay_")));
    assert_eq!(family(0).name, "pwrelay_build_info");
    names.sort();
    names.dedup();
    assert_eq!(names.len(), FAMILY_COUNT);
    assert_eq!((0..FAMILY_COUNT).filter(|i| family(*i).kind == Kind::Histogram).count(), 1);
    let buckets = latency_buckets_ms();
    assert_eq!(buckets.first(), Some(&5));
    assert_eq!(buckets.last(), Some(&10000));
}

#[test]
fn task_ends_are_reported() {
    assert_eq!(task_outcome("admin", &TaskEnd::Finished), Ok(()));
    assert_eq!(
        task_outcome("admin", &TaskEnd::Failed("x".into())),
        Err("admin task failed: x".to_string())
    );
    assert_eq!(
        task_outcome("pipeline", &TaskEnd::Broken("y".into())),
        Err("pipeline task join failure: y".to_string())
    );
}

#[test]
fn a_failed_source_ends_the_relay_with_its_error() {
    let failed = TaskEnd::Failed("source stdin failed".into());
    let e = run(Stop::Pipeline, &TaskEnd::Finished, &failed).unwrap_err();
    assert!(e.contains("source"), "{e}");
}

#[test]
fn the_relay_ends_well_only_where_everything_does() {
    let done = TaskEnd::Finished;
    assert_eq!(run(Stop::Signal(None), &done, &done), Ok(()));
    assert_eq!(run(Stop::Pipeline, &done, &done), Ok(()));
    assert_eq!(
        run(Stop::Admin, &done, &done),
        Err("admin task stopped unexpectedly".to_string())
    );
    assert_eq!(run(Stop::Signal(Some("s".into())), &done, &done), Err("s".to_string()));
}

fn digits(s: &str, max: u64) -> Result<u64, NumberProblem> {
    let c: Vec<char> = s.chars().collect();
    parse_numeral(&c, max)
}

#[test]
fn numerals_are_read_up_to_a_limit() {
    assert_eq!(digits("042", 100), Ok(42));
    assert_eq!(digits("+7", 100), Ok(7));
    assert_eq!(digits("", 100), Err(NumberProblem::Empty));
    assert_eq!(digits("-1", 100), Err(NumberProblem::InvalidDigit));
    assert_eq!(digits("101", 100), Err(NumberProblem::TooLarge));
    assert_eq!(digits("18446744073709551615", u64::MAX), Ok(u64::MAX));
    assert_eq!(digits("18446744073709551616", u64::MAX), Err(NumberProblem::TooLarge));
}
