use cdn_seeder::error::{ErrorKind, StorageError};
use cdn_seeder::fetch::{FetchReply, FetchStep, RangeFetch};
use cdn_seeder::http::HttpStatus;
use cdn_seeder::layout::count_pieces;
use cdn_seeder::storage::{CdnStorage, ReadOutcome, ReadPlan, MAX_CONCURRENT_REQUESTS};

fn storage() -> CdnStorage {
    CdnStorage::new("https://cdn.example/t".to_string(), 4, 10)
}

fn request_of(started: (RangeFetch, FetchStep)) -> (String, String) {
    let (fetch, step) = started;
    assert!(matches!(step, FetchStep::AcquirePermit));
    match fetch.step(FetchReply::PermitGranted) {
        (_, FetchStep::Send { url, range }) => (url, range),
        other => panic!("{:?}", other),
    }
}

fn failed(message: &str) -> StorageError {
    StorageError { kind: ErrorKind::Other, message: message.to_string() }
}

#[test]
fn debug_shows_what_is_served() {
    assert_eq!(
        format!("{:?}", storage()),
        "CdnStorage { base_url: \"https://cdn.example/t\", piece_length: 4, total_length: 10, num_pieces: 3 }"
    );
}

#[test]
fn pieces_are_counted() {
    assert_eq!(count_pieces(4, 10), 3);
    assert_eq!(count_pieces(4, 8), 2);
    assert_eq!(count_pieces(4, 9), 3);
    assert_eq!(count_pieces(4, 1), 1);
    assert_eq!(count_pieces(4, 0), 0);
    assert_eq!(count_pieces(1, 7), 7);
    assert_eq!(count_pieces(usize::MAX, 0), 0);
}

#[test]
fn at_most_eight_requests() {
    assert_eq!(MAX_CONCURRENT_REQUESTS, 8);
}

#[test]
fn piece_urls() {
    let s = storage();
    assert_eq!(s.piece_url(&0), "https://cdn.example/t/piece_0.bin");
    assert_eq!(s.piece_url(&10), "https://cdn.example/t/piece_10.bin");
    assert_eq!(
        s.piece_url(&18446744073709551615),
        "https://cdn.example/t/piece_18446744073709551615.bin"
    );
}

#[test]
fn distinct_pieces_have_distinct_urls() {
    let s = storage();
    for a in 0..120usize {
        for b in 0..120usize {
            assert_eq!(a == b, s.piece_url(&a) == s.piece_url(&b));
        }
    }
}

#[test]
fn piece_sizes() {
    let s = storage();
    assert_eq!(s.piece_size(&0), 4);
    assert_eq!(s.piece_size(&1), 4);
    assert_eq!(s.piece_size(&2), 2);
}

#[test]
fn piece_sizes_add_up() {
    for total in 1..40usize {
        for length in 1..12usize {
            let s = CdnStorage::new(String::new(), length, total);
            let n = count_pieces(length, total);
            let sum: usize = (0..n).map(|p| s.piece_size(&p)).sum();
            assert_eq!(sum, total);
            assert!((0..n).all(|p| s.has_size(&p) && 1 <= s.piece_size(&p)));
        }
    }
}

#[test]
fn which_pieces_have_a_size() {
    let s = storage();
    assert!(s.has_size(&2));
    assert!(!s.has_size(&3));
    assert!(!s.has_size(&usize::MAX));
    let even = CdnStorage::new(String::new(), 4, 8);
    assert!(even.has_size(&2));
    assert_eq!(even.piece_size(&2), 0);
    assert!(!even.has_size(&3));
    let empty = CdnStorage::new(String::new(), 4, 0);
    assert!(!empty.has_size(&0));
}

#[test]
fn read_asks_for_what_fits() {
    let s = storage();
    match s.read(3, &1, 0) {
        ReadPlan::Fetch { fetch, step } => assert_eq!(
            request_of((fetch, step)),
            ("https://cdn.example/t/piece_1.bin".to_string(), "bytes=0-2".to_string())
        ),
        other => panic!("{:?}", other),
    }
    match s.read(100, &1, 1) {
        ReadPlan::Fetch { fetch, step } => {
            assert_eq!(request_of((fetch, step)).1, "bytes=1-3")
        }
        other => panic!("{:?}", other),
    }
    match s.read(100, &2, 1) {
        ReadPlan::Fetch { fetch, step } => {
            assert_eq!(request_of((fetch, step)).1, "bytes=1-1")
        }
        other => panic!("{:?}", other),
    }
}

#[test]
fn read_of_nothing() {
    let s = storage();
    assert!(matches!(s.read(0, &1, 0), ReadPlan::Nothing));
    assert!(matches!(s.read(5, &1, 4), ReadPlan::Nothing));
    assert!(matches!(s.read(5, &2, 2), ReadPlan::Nothing));
    assert!(matches!(s.read(5, &2, usize::MAX), ReadPlan::Nothing));
}

#[test]
fn fetched_bytes_go_to_the_front() {
    let mut buffer = [9u8; 5];
    let outcome = CdnStorage::finish_read(&mut buffer, Ok(vec![1, 2, 3])).unwrap();
    assert_eq!(buffer, [1, 2, 3, 9, 9]);
    assert_eq!(outcome, ReadOutcome { copied: 3, counted: 3 });
}

#[test]
fn surplus_bytes_are_dropped() {
    let mut buffer = [9u8; 2];
    let outcome = CdnStorage::finish_read(&mut buffer, Ok(vec![1, 2, 3])).unwrap();
    assert_eq!(buffer, [1, 2]);
    assert_eq!(outcome, ReadOutcome { copied: 2, counted: 2 });
}

#[test]
fn failed_read_leaves_the_buffer() {
    let mut buffer = [9u8; 2];
    let error = CdnStorage::finish_read(&mut buffer, Err(failed("gone"))).unwrap_err();
    assert_eq!(buffer, [9, 9]);
    assert_eq!(error.message, "gone");
    assert_eq!(error.kind, ErrorKind::Other);
}

/// Answers a fetch from `content`, as a server that keeps to the range would.
fn serve(content: &[u8], fetch: RangeFetch, step: FetchStep) -> Vec<u8> {
    let (_, range) = request_of((fetch, step));
    let (first, last) = range.strip_prefix("bytes=").unwrap().split_once('-').unwrap();
    content[first.parse().unwrap()..=last.parse().unwrap()].to_vec()
}

#[test]
fn reads_give_the_torrent_back() {
    let content: Vec<u8> = (0..10).collect();
    let s = storage();
    for buffer_len in 1..6usize {
        let mut seen: Vec<u8> = Vec::new();
        for piece in 0..3usize {
            let stored = &content[piece * 4..piece * 4 + s.piece_size(&piece)];
            let mut offset = 0;
            loop {
                let mut buffer = vec![0u8; buffer_len];
                match s.read(buffer.len(), &piece, offset) {
                    ReadPlan::Nothing => break,
                    ReadPlan::Fetch { fetch, step } => {
                        let bytes = serve(stored, fetch, step);
                        let done = CdnStorage::finish_read(&mut buffer, Ok(bytes)).unwrap();
                        seen.extend_from_slice(&buffer[..done.copied]);
                        offset += done.copied;
                    }
                }
            }
        }
        assert_eq!(seen, content);
    }
}

#[test]
fn hash_v1_asks_for_the_whole_piece() {
    let s = storage();
    assert_eq!(
        request_of(s.hash_v1(&0)),
        ("https://cdn.example/t/piece_0.bin".to_string(), "bytes=0-3".to_string())
    );
    assert_eq!(request_of(s.hash_v1(&2)).1, "bytes=0-1");
}

#[test]
fn hash_v1_is_the_sha1_digest() {
    let digest = CdnStorage::finish_hash_v1(Ok(b"abc".to_vec())).unwrap();
    assert_eq!(
        digest,
        [
            0xa9, 0x99, 0x3e, 0x36, 0x47, 0x06, 0x81, 0x6a, 0xba, 0x3e, 0x25, 0x71, 0x78, 0x50,
            0xc2, 0x6c, 0x9c, 0xd0, 0xd8, 0x9d
        ]
    );
    let empty = CdnStorage::finish_hash_v1(Ok(Vec::new())).unwrap();
    assert_eq!(empty[..4], [0xda, 0x39, 0xa3, 0xee]);
    let error = CdnStorage::finish_hash_v1(Err(failed("gone"))).unwrap_err();
    assert_eq!(error.message, "gone");
}

#[test]
fn hash_v2_is_not_supported() {
    let error = storage().hash_v2(&0).unwrap_err();
    assert_eq!(error.kind, ErrorKind::Unsupported);
    assert_eq!(error.message, "v2 hashing not supported");
}

#[test]
fn nothing_is_written_or_moved() {
    let s = storage();
    assert_eq!(s.write(&[1, 2, 3], &0, 0).unwrap(), 0);
    assert!(s.move_storage().is_ok());
}

#[test]
fn one_attempt() {
    let mut attempt = storage().fetch_range_inner(&1, 5, 0);
    assert!(!attempt.holds_permit());
    match attempt.step(FetchReply::PermitGranted) {
        FetchStep::Send { url, range } => {
            assert_eq!(url, "https://cdn.example/t/piece_1.bin");
            assert_eq!(range, "bytes=5-4");
        }
        other => panic!("{:?}", other),
    }
    assert!(attempt.holds_permit());
    let status = HttpStatus::from_u16(206).unwrap();
    assert!(matches!(attempt.step(FetchReply::Responded(status)), FetchStep::ReadBody));
    assert!(attempt.holds_permit());
    match attempt.step(FetchReply::BodyRead(vec![7])) {
        FetchStep::Finish(Ok(bytes)) => assert_eq!(bytes, [7]),
        other => panic!("{:?}", other),
    }
    assert!(!attempt.holds_permit());
}
