use cvd::failure::Failure;
use cvd::inventory::{QueryMode, QueryOutcome};
use cvd::selector::SelectionRequest;
use cvd::session::{Action, Event, Progress, Session};

fn ids(names: &[&str]) -> Vec<String> {
    names.iter().map(|s| s.to_string()).collect()
}

fn answered(text: &str) -> Event {
    Event::Answered(QueryOutcome::Completed(text.as_bytes().to_vec()))
}

fn begin(empty_only: bool, count: Option<usize>) -> Session {
    let (session, action) = Session::start(SelectionRequest { empty_only, count });
    assert!(matches!(action, Action::ReadSearchPath));
    session
}

fn next(progress: Progress) -> (Session, Action) {
    match progress {
        Progress::Next(session, action) => (session, action),
        Progress::Done(result) => panic!("ended with {:?}", result),
    }
}

fn done(progress: Progress) -> Result<Vec<String>, Failure> {
    match progress {
        Progress::Next(_, action) => panic!("went on with {:?}", action),
        Progress::Done(result) => result,
    }
}

fn probed_file(action: Action) -> String {
    match action {
        Action::Probe(file) => file,
        other => panic!("asked for {:?}", other),
    }
}

fn found(empty_only: bool, count: Option<usize>) -> Session {
    let session = begin(empty_only, count);
    let (session, action) = next(session.step(Event::SearchPath(Some("/usr/bin".to_string()))));
    assert_eq!(probed_file(action), "/usr/bin/nvidia-smi");
    let (session, action) = next(session.step(Event::Probed(true)));
    assert!(matches!(action, Action::Query(QueryMode::Total)));
    session
}

#[test]
fn tool_not_found_without_search_path() {
    let session = begin(false, None);
    assert_eq!(done(session.step(Event::SearchPath(None))), Err(Failure::ToolNotFound));
}

#[test]
fn tool_not_found_on_search_path() {
    let session = begin(true, Some(1));
    let (session, action) = next(session.step(Event::SearchPath(Some("/a:/b::".to_string()))));
    assert_eq!(probed_file(action), "/a/nvidia-smi");
    let (session, action) = next(session.step(Event::Probed(false)));
    assert_eq!(probed_file(action), "/b/nvidia-smi");
    let (session, action) = next(session.step(Event::Probed(false)));
    assert_eq!(probed_file(action), "/nvidia-smi");
    let (session, action) = next(session.step(Event::Probed(false)));
    assert_eq!(probed_file(action), "/nvidia-smi");
    assert_eq!(done(session.step(Event::Probed(false))), Err(Failure::ToolNotFound));
}

#[test]
fn tool_not_found_on_empty_search_path() {
    let session = begin(false, None);
    let (session, action) = next(session.step(Event::SearchPath(Some(String::new()))));
    assert_eq!(probed_file(action), "/nvidia-smi");
    assert_eq!(done(session.step(Event::Probed(false))), Err(Failure::ToolNotFound));
}

#[test]
fn tool_found_in_a_later_directory() {
    let session = begin(false, None);
    let (session, action) = next(session.step(Event::SearchPath(Some("/a:/b:/c".to_string()))));
    assert_eq!(probed_file(action), "/a/nvidia-smi");
    let (session, action) = next(session.step(Event::Probed(false)));
    assert_eq!(probed_file(action), "/b/nvidia-smi");
    let (session, action) = next(session.step(Event::Probed(true)));
    assert!(matches!(action, Action::Query(QueryMode::Total)));
    assert_eq!(done(session.step(answered("x\n"))), Ok(ids(&["x"])));
}

#[test]
fn run_lists_all_devices() {
    let session = found(false, None);
    assert_eq!(done(session.step(answered("b\na\nc\n"))), Ok(ids(&["a", "b", "c"])));
}

#[test]
fn run_does_not_ask_for_used_devices_unless_needed() {
    let session = found(false, Some(2));
    match session.step(answered("b\na\nc\n")) {
        Progress::Done(result) => assert_eq!(result, Ok(ids(&["a", "b"]))),
        Progress::Next(_, action) => panic!("asked for {:?}", action),
    }
}

#[test]
fn run_lists_unused_devices() {
    let session = found(true, None);
    let (session, action) = next(session.step(answered("b\na\nc\n")));
    assert!(matches!(action, Action::Query(QueryMode::Used)));
    assert_eq!(done(session.step(answered("a\na\n"))), Ok(ids(&["b", "c"])));
}

#[test]
fn run_with_too_large_a_count() {
    let session = found(false, Some(5));
    assert_eq!(
        done(session.step(answered("b\na\nc\n"))),
        Err(Failure::InsufficientDevices { requested: 5, available: 3 })
    );
    let session = found(true, Some(3));
    let (session, _) = next(session.step(answered("b\na\nc\n")));
    assert_eq!(
        done(session.step(answered("c\n"))),
        Err(Failure::InsufficientDevices { requested: 3, available: 2 })
    );
}

#[test]
fn run_without_devices() {
    let session = found(false, None);
    assert_eq!(done(session.step(answered(""))), Err(Failure::NoDevicesAvailable));
    let session = found(true, None);
    let (session, action) = next(session.step(answered("")));
    assert!(matches!(action, Action::Query(QueryMode::Used)));
    assert_eq!(done(session.step(answered(""))), Err(Failure::NoDevicesAvailable));
    let session = found(true, Some(0));
    let (session, _) = next(session.step(answered("a\n")));
    assert_eq!(done(session.step(answered("a\n"))), Err(Failure::NoDevicesAvailable));
}

#[test]
fn run_with_count_zero() {
    let session = found(false, Some(0));
    assert_eq!(done(session.step(answered("a\n"))), Ok(Vec::<String>::new()));
}

#[test]
fn run_ends_when_the_tool_cannot_be_run() {
    let session = found(false, None);
    assert_eq!(
        done(session.step(Event::Answered(QueryOutcome::Failed))),
        Err(Failure::QueryExecutionError)
    );
    let session = found(true, None);
    let (session, _) = next(session.step(answered("a\n")));
    assert_eq!(
        done(session.step(Event::Answered(QueryOutcome::Failed))),
        Err(Failure::QueryExecutionError)
    );
}

#[test]
fn run_ends_when_the_output_is_not_text() {
    let session = found(false, None);
    let bad = Event::Answered(QueryOutcome::Completed(vec![0xc0, 0x80]));
    assert_eq!(done(session.step(bad)), Err(Failure::QueryOutputDecodeError));
    let session = found(true, None);
    let (session, _) = next(session.step(answered("a\n")));
    let bad = Event::Answered(QueryOutcome::Completed(vec![0x80]));
    assert_eq!(done(session.step(bad)), Err(Failure::QueryOutputDecodeError));
}

#[test]
fn event_out_of_turn_changes_nothing() {
    let session = begin(true, None);
    let (session, action) = next(session.step(Event::Probed(true)));
    assert!(matches!(action, Action::ReadSearchPath));
    let (session, action) = next(session.step(answered("a\n")));
    assert!(matches!(action, Action::ReadSearchPath));
    let (session, action) = next(session.step(Event::SearchPath(Some("/a:/b".to_string()))));
    assert_eq!(probed_file(action), "/a/nvidia-smi");
    let (session, action) = next(session.step(Event::SearchPath(None)));
    assert_eq!(probed_file(action), "/a/nvidia-smi");
    let (session, action) = next(session.step(Event::Probed(false)));
    assert_eq!(probed_file(action), "/b/nvidia-smi");
    let (session, action) = next(session.step(answered("")));
    assert_eq!(probed_file(action), "/b/nvidia-smi");
    let (session, action) = next(session.step(Event::Probed(true)));
    assert!(matches!(action, Action::Query(QueryMode::Total)));
    let (session, action) = next(session.step(Event::Probed(false)));
    assert!(matches!(action, Action::Query(QueryMode::Total)));
    let (session, action) = next(session.step(answered("a\nb\n")));
    assert!(matches!(action, Action::Query(QueryMode::Used)));
    let (session, action) = next(session.step(Event::SearchPath(None)));
    assert!(matches!(action, Action::Query(QueryMode::Used)));
    assert_eq!(done(session.step(answered("b\n"))), Ok(ids(&["a"])));
}
