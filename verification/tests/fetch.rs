use cdn_seeder::error::ErrorKind;
use cdn_seeder::fetch::{FetchReply, FetchStep, RangeFetch};
use cdn_seeder::http::HttpStatus;
use cdn_seeder::storage::{CdnStorage, MAX_CONCURRENT_REQUESTS};

fn start() -> RangeFetch {
    let storage = CdnStorage::new("http://c".to_string(), 16, 100);
    let (fetch, step) = storage.fetch_range(&3, 4, 8);
    assert!(matches!(step, FetchStep::AcquirePermit));
    assert!(!fetch.holds_permit());
    fetch
}

fn status(code: u16) -> FetchReply {
    FetchReply::Responded(HttpStatus::from_u16(code).unwrap())
}

/// Hands over the replies and gives back the last step.
fn drive(replies: Vec<FetchReply>) -> (RangeFetch, FetchStep) {
    let mut fetch = start();
    let mut step = FetchStep::AcquirePermit;
    for reply in replies {
        let next = fetch.step(reply);
        fetch = next.0;
        step = next.1;
    }
    (fetch, step)
}

fn error_of(step: FetchStep) -> String {
    match step {
        FetchStep::Finish(Err(error)) => {
            assert_eq!(error.kind, ErrorKind::Other);
            error.message
        }
        other => panic!("{:?}", other),
    }
}

/// Two attempts that are not answered, with the pauses after them.
fn two_failures() -> Vec<FetchReply> {
    vec![
        FetchReply::PermitGranted,
        FetchReply::SendFailed("first".to_string()),
        FetchReply::Slept,
        FetchReply::PermitGranted,
        FetchReply::SendFailed("second".to_string()),
        FetchReply::Slept,
    ]
}

#[test]
fn request_names_piece_and_range() {
    match drive(vec![FetchReply::PermitGranted]).1 {
        FetchStep::Send { url, range } => {
            assert_eq!(url, "http://c/piece_3.bin");
            assert_eq!(range, "bytes=4-11");
        }
        other => panic!("{:?}", other),
    }
}

/// The length of a pause, and the error before it.
fn pause_of(step: FetchStep) -> (u64, String) {
    match step {
        FetchStep::Sleep { secs, error } => {
            assert_eq!(error.kind, ErrorKind::Other);
            (secs, error.message)
        }
        other => panic!("{:?}", other),
    }
}

#[test]
fn body_ends_the_fetch() {
    let (fetch, step) = drive(vec![
        FetchReply::PermitGranted,
        status(200),
        FetchReply::BodyRead(vec![1, 2, 3]),
    ]);
    match step {
        FetchStep::Finish(Ok(bytes)) => assert_eq!(bytes, [1, 2, 3]),
        other => panic!("{:?}", other),
    }
    assert!(!fetch.holds_permit());
}

#[test]
fn success_statuses_are_accepted() {
    for code in 100..=999u16 {
        let (_, step) = drive(vec![FetchReply::PermitGranted, status(code)]);
        let accepted = matches!(step, FetchStep::ReadBody);
        assert_eq!(accepted, 200 <= code && code <= 299);
        if !accepted {
            assert_eq!(pause_of(step).0, 1);
        }
    }
}

#[test]
fn pauses_grow() {
    let (fetch, step) =
        drive(vec![FetchReply::PermitGranted, FetchReply::SendFailed("first".to_string())]);
    assert_eq!(pause_of(step), (1, "HTTP error for piece 3: first".to_string()));
    assert!(!fetch.holds_permit());
    let (fetch, step) = fetch.step(FetchReply::Slept);
    assert!(matches!(step, FetchStep::AcquirePermit));
    let (fetch, _) = fetch.step(FetchReply::PermitGranted);
    assert!(fetch.holds_permit());
    let (_, step) = fetch.step(FetchReply::SendFailed("second".to_string()));
    assert_eq!(pause_of(step), (2, "HTTP error for piece 3: second".to_string()));
}

#[test]
fn third_error_is_reported() {
    let mut replies = two_failures();
    replies.push(FetchReply::PermitGranted);
    replies.push(FetchReply::SendFailed("third".to_string()));
    let (fetch, step) = drive(replies);
    assert_eq!(error_of(step), "HTTP error for piece 3: third");
    assert!(!fetch.holds_permit());
}

#[test]
fn retry_sends_the_same_request() {
    let mut replies = two_failures();
    replies.push(FetchReply::PermitGranted);
    match drive(replies).1 {
        FetchStep::Send { url, range } => {
            assert_eq!(url, "http://c/piece_3.bin");
            assert_eq!(range, "bytes=4-11");
        }
        other => panic!("{:?}", other),
    }
}

#[test]
fn third_attempt_can_succeed() {
    let mut replies = two_failures();
    replies.push(FetchReply::PermitGranted);
    replies.push(status(206));
    replies.push(FetchReply::BodyRead(vec![5]));
    match drive(replies).1 {
        FetchStep::Finish(Ok(bytes)) => assert_eq!(bytes, [5]),
        other => panic!("{:?}", other),
    }
}

#[test]
fn refused_status_is_reported() {
    let mut replies = two_failures();
    replies.push(FetchReply::PermitGranted);
    replies.push(status(404));
    assert_eq!(
        error_of(drive(replies).1),
        "HTTP 404 Not Found fetching piece 3 range bytes=4-11"
    );
}

#[test]
fn unnamed_status_is_reported() {
    let mut replies = two_failures();
    replies.push(FetchReply::PermitGranted);
    replies.push(status(599));
    assert_eq!(
        error_of(drive(replies).1),
        "HTTP 599 <unknown status code> fetching piece 3 range bytes=4-11"
    );
}

#[test]
fn closed_semaphore_is_reported() {
    let mut replies = two_failures();
    replies.push(FetchReply::SemaphoreClosed("semaphore closed".to_string()));
    assert_eq!(error_of(drive(replies).1), "semaphore closed: semaphore closed");
}

#[test]
fn broken_body_is_reported() {
    let mut replies = two_failures();
    replies.push(FetchReply::PermitGranted);
    replies.push(status(200));
    replies.push(FetchReply::BodyFailed("cut off".to_string()));
    assert_eq!(error_of(drive(replies).1), "response body error for piece 3: cut off");
}

#[test]
fn permits_limit_the_requests() {
    let holders = |fetches: &Vec<RangeFetch>| fetches.iter().filter(|f| f.holds_permit()).count();
    let mut fetches = Vec::new();
    let mut waiting: Vec<RangeFetch> = (0..MAX_CONCURRENT_REQUESTS + 3).map(|_| start()).collect();
    let mut sent = 0;
    while let Some(fetch) = waiting.pop() {
        if holders(&fetches) < MAX_CONCURRENT_REQUESTS {
            let (fetch, step) = fetch.step(FetchReply::PermitGranted);
            assert!(matches!(step, FetchStep::Send { .. }));
            fetches.push(fetch);
            sent += 1;
        } else {
            fetches.push(fetch);
        }
        assert!(holders(&fetches) <= MAX_CONCURRENT_REQUESTS);
    }
    assert_eq!(sent, 8);
    let endings = [FetchReply::SendFailed("gone".to_string()), status(503)];
    for (k, ending) in endings.into_iter().enumerate() {
        let fetch = fetches.remove(0);
        assert!(fetch.holds_permit());
        let (fetch, _) = fetch.step(ending);
        assert!(!fetch.holds_permit());
        assert_eq!(holders(&fetches), MAX_CONCURRENT_REQUESTS - k - 1);
    }
    for fetch in fetches.into_iter().filter(|f| f.holds_permit()) {
        let (fetch, _) = fetch.step(status(200));
        assert!(fetch.holds_permit());
        let (fetch, _) = fetch.step(FetchReply::BodyRead(Vec::new()));
        assert!(!fetch.holds_permit());
    }
}
