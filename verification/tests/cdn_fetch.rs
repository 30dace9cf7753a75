use cdn_seeder::cdn_fetch::{
    call_url, cdn_fetch, do_fetch, finish_cdn_fetch, DirectFetch, DirectReply, DirectStep,
};
use cdn_seeder::http::HttpStatus;

fn status(code: u16) -> DirectReply {
    DirectReply::Responded(HttpStatus::from_u16(code).unwrap())
}

#[test]
fn request_of_a_fetch() {
    let (fetch, step) = do_fetch("http://c/x", 10, 5);
    assert_eq!(fetch, DirectFetch::AwaitResponse);
    match step {
        DirectStep::Send { url, range } => {
            assert_eq!(url, "http://c/x");
            assert_eq!(range, "bytes=10-14");
        }
        other => panic!("{:?}", other),
    }
}

#[test]
fn only_ok_and_partial_content_are_read() {
    for code in 100..=999u16 {
        let mut fetch = DirectFetch::AwaitResponse;
        let step = fetch.step(status(code));
        assert_eq!(matches!(step, DirectStep::ReadBody), code == 200 || code == 206);
    }
}

#[test]
fn results_of_a_fetch() {
    let mut fetch = DirectFetch::AwaitResponse;
    match fetch.step(status(404)) {
        DirectStep::Finish(Err(error)) => assert_eq!(error, "HTTP 404 Not Found"),
        other => panic!("{:?}", other),
    }
    assert_eq!(fetch, DirectFetch::Finished);
    let mut fetch = DirectFetch::AwaitResponse;
    match fetch.step(DirectReply::SendFailed("refused".to_string())) {
        DirectStep::Finish(Err(error)) => assert_eq!(error, "request: refused"),
        other => panic!("{:?}", other),
    }
    let mut fetch = DirectFetch::AwaitBody;
    match fetch.step(DirectReply::BodyFailed("cut off".to_string())) {
        DirectStep::Finish(Err(error)) => assert_eq!(error, "body: cut off"),
        other => panic!("{:?}", other),
    }
    let mut fetch = DirectFetch::AwaitBody;
    match fetch.step(DirectReply::BodyRead(vec![1, 2])) {
        DirectStep::Finish(Ok(bytes)) => assert_eq!(bytes, [1, 2]),
        other => panic!("{:?}", other),
    }
}

#[test]
fn call_begins_with_a_request() {
    match cdn_fetch(Some("http://c/\u{e4}".as_bytes()), 0, 4, true) {
        Ok((DirectFetch::AwaitResponse, DirectStep::Send { url, range })) => {
            assert_eq!(url, "http://c/\u{e4}");
            assert_eq!(range, "bytes=0-3");
        }
        other => panic!("{:?}", other),
    }
}

#[test]
fn invalid_calls_fail() {
    assert_eq!(cdn_fetch(None, 0, 4, true).unwrap_err(), -1);
    assert_eq!(cdn_fetch(Some(b"http://c"), 0, 4, false).unwrap_err(), -1);
    assert_eq!(cdn_fetch(Some(b"http://c"), 0, 0, true).unwrap_err(), -1);
    assert_eq!(cdn_fetch(Some(b"http://c"), 0, -1, true).unwrap_err(), -1);
    assert_eq!(cdn_fetch(Some(b"http://c/\xff"), 0, 4, true).unwrap_err(), -1);
    assert_eq!(cdn_fetch(Some(b"\xff"), i32::MAX, 4, true).unwrap_err(), -1);
}

#[test]
fn body_is_cut_to_the_buffer() {
    let end = finish_cdn_fetch(Ok(vec![1, 2, 3]), 2);
    assert_eq!((end.code, end.bytes, end.complaint), (2, vec![1, 2], None));
    let end = finish_cdn_fetch(Ok(vec![1, 2, 3]), 3);
    assert_eq!((end.code, end.bytes), (3, vec![1, 2, 3]));
    let end = finish_cdn_fetch(Ok(vec![1, 2, 3]), i32::MAX);
    assert_eq!((end.code, end.bytes), (3, vec![1, 2, 3]));
    let end = finish_cdn_fetch(Ok(Vec::new()), 5);
    assert_eq!((end.code, end.bytes), (0, vec![]));
}

#[test]
fn failed_call_complains() {
    let end = finish_cdn_fetch(Err("HTTP 500 Internal Server Error".to_string()), 3);
    assert_eq!(end.code, -1);
    assert!(end.bytes.is_empty());
    assert_eq!(end.complaint.unwrap(), "[cdn_fetch] HTTP 500 Internal Server Error");
}

#[test]
fn urls_of_calls() {
    assert_eq!(call_url(Some("\u{e4}".as_bytes()), 1, true), Some("\u{e4}"));
    assert_eq!(call_url(None, 1, true), None);
    assert_eq!(call_url(Some(b"x"), 0, true), None);
    assert_eq!(call_url(Some(b"x"), 1, false), None);
    assert_eq!(call_url(Some(b"\xff"), 1, true), None);
}
