use git_ignore::refresh::refresh;
use git_ignore::request::answer;
use git_ignore::{Answer, Core, Error, ReadError, Refresh, Update};

const SERVER: &str = "https://www.gitignore.io/api/list?format=json";

fn settings() -> Core {
    Core::new("cache".to_string(), "cache/ignore.json".to_string(), None)
}

fn nothing() -> Option<Vec<u8>> {
    Some(Vec::new())
}

fn is_failed(step: &Update, error: Error) -> bool {
    matches!(step, Update::Failed(found) if *found == error)
}

fn is_fetch(step: &Update) -> bool {
    matches!(step, Update::Fetch(address) if address == SERVER)
}

#[test]
fn a_refresh_that_is_asked_for_is_made() {
    assert_eq!(refresh(true, true), Refresh::Requested);
    assert_eq!(refresh(true, false), Refresh::Requested);
}

#[test]
fn a_missing_cache_forces_a_refresh() {
    assert_eq!(refresh(false, false), Refresh::Forced);
}

#[test]
fn a_cache_is_used_where_no_refresh_is_asked_for() {
    assert_eq!(refresh(false, true), Refresh::Cached);
}

#[test]
fn a_refresh_makes_the_directory_only_without_a_cache() {
    assert!(matches!(settings().update(false, false), Update::CreateDir(path) if path == "cache"));
    assert!(is_fetch(&settings().update(true, false)));
    assert!(is_fetch(&settings().update(false, true)));
    assert!(is_fetch(&settings().update(true, true)));
}

#[test]
fn a_refresh_writes_what_it_has_fetched() {
    let app = settings();
    let catalog = b"{\"rust\":{}}".to_vec();
    let step = app.update(false, false);
    assert!(!step.is_ended());
    let step = app.next(step, nothing());
    assert!(is_fetch(&step));
    assert!(!step.is_ended());
    let step = app.next(step, Some(catalog.clone()));
    match &step {
        Update::Write(path, bytes) => {
            assert_eq!(path, "cache/ignore.json");
            assert_eq!(bytes, &catalog);
        }
        other => panic!("{:?} follows the fetch", other),
    }
    assert!(!step.is_ended());
    let step = app.next(step, nothing());
    assert!(matches!(step, Update::Done));
    assert!(step.is_ended());
}

#[test]
fn a_refresh_with_a_cache_begins_with_the_fetch() {
    let app = settings();
    let step = app.next(app.update(true, true), Some(vec![1, 2, 3]));
    assert!(matches!(&step, Update::Write(_, bytes) if bytes == &vec![1, 2, 3]));
}

#[test]
fn a_failed_step_ends_the_refresh() {
    let app = settings();
    assert!(is_failed(&app.next(Update::CreateDir("cache".to_string()), None), Error::Write));
    assert!(is_failed(&app.next(Update::Fetch(SERVER.to_string()), None), Error::Fetch));
    let write = Update::Write("cache/ignore.json".to_string(), vec![1]);
    assert!(is_failed(&app.next(write, None), Error::Write));
    assert!(app.next(app.update(true, true), None).is_ended());
}

#[test]
fn nothing_follows_the_end_of_a_refresh() {
    let app = settings();
    for outcome in [None, Some(vec![7u8])] {
        assert!(matches!(app.next(Update::Done, outcome.clone()), Update::Done));
        assert!(is_failed(&app.next(Update::Failed(Error::Fetch), outcome.clone()), Error::Fetch));
        assert!(is_failed(&app.next(Update::Failed(Error::Write), outcome), Error::Write));
    }
}

#[test]
fn a_failure_to_read_is_an_error_of_its_own() {
    assert_eq!(Error::from(ReadError::NotFound), Error::Read(ReadError::NotFound));
    assert_eq!(Error::from(ReadError::Malformed), Error::Read(ReadError::Malformed));
    assert_ne!(Error::from(ReadError::Malformed), Error::Read(ReadError::NotFound));
}

#[test]
fn a_listing_is_given_where_it_is_asked_for() {
    assert_eq!(answer(true, &[]), Answer::Listing);
    assert_eq!(answer(true, &["rust".to_string()]), Answer::Listing);
}

#[test]
fn names_are_answered_with_their_templates() {
    assert_eq!(answer(false, &["rust".to_string()]), Answer::Templates);
    assert_eq!(answer(false, &["rust".to_string(), "node".to_string()]), Answer::Templates);
}

#[test]
fn no_names_are_answered_with_the_instructions() {
    assert_eq!(answer(false, &[]), Answer::Help);
}
