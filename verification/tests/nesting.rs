use cdn_seeder::nesting::{is_nesting_within, MAX_NESTING};
use cdn_seeder::torrent::{load_torrent, LoadError, TorrentLayout};

const INFO: &[u8] = b"4:infod6:lengthi10e4:name4:test12:piece lengthi4e";

fn repeated(bytes: &[u8], times: usize) -> Vec<u8> {
    bytes.repeat(times)
}

/// A torrent with `levels` lists below an unknown key beside the info dictionary.
fn lists_beside_info(levels: usize) -> Vec<u8> {
    [b"d", INFO, b"e1:z", &repeated(b"l", levels), &repeated(b"e", levels + 1)].concat()
}

/// A torrent with `levels` lists below an unknown key of the info dictionary.
fn lists_in_info(levels: usize) -> Vec<u8> {
    [b"d", INFO, b"1:z", &repeated(b"l", levels), &repeated(b"e", levels + 2)].concat()
}

/// A torrent with `levels` dictionaries below an unknown key of the info dictionary.
fn dictionaries_in_info(levels: usize) -> Vec<u8> {
    [b"d", INFO, b"1:z", &repeated(b"d1:a", levels), b"i1e", &repeated(b"e", levels + 2)].concat()
}

/// A torrent with `levels` dictionaries below an unknown key beside the info dictionary.
fn dictionaries_beside_info(levels: usize) -> Vec<u8> {
    [b"d", INFO, b"e1:z", &repeated(b"d1:a", levels), b"i1e", &repeated(b"e", levels + 1)].concat()
}

/// A torrent whose file lies below `levels` directories.
fn directories(levels: usize) -> Vec<u8> {
    [
        b"d4:infod9:file treed",
        repeated(b"1:ad", levels).as_slice(),
        b"0:d6:lengthi10ee",
        &repeated(b"e", levels + 1),
        b"12:meta versioni2e4:name4:test12:piece lengthi4eee",
    ]
    .concat()
}

fn assert_depth(bytes: &[u8], depth: usize) {
    assert!(is_nesting_within(bytes, depth));
    assert!(is_nesting_within(bytes, depth + 1));
    assert!(!is_nesting_within(bytes, depth - 1));
}

#[test]
fn depths() {
    assert!(is_nesting_within(b"", 0));
    assert!(is_nesting_within(b"i5e", 0));
    assert!(is_nesting_within(b"4:llll", 0));
    assert_depth(b"le", 1);
    assert_depth(b"llee", 2);
    assert_depth(b"d1:al1:bee", 2);
    assert_depth(b"llelelee", 2);
    assert_depth(b"lli-7e3:lllelleee", 3);
    assert_depth(&lists_beside_info(5), 6);
    assert_depth(&lists_in_info(5), 7);
    assert_depth(&dictionaries_in_info(5), 7);
    assert_depth(&directories(5), 9);
}

#[test]
fn bytes_of_strings_do_not_count() {
    assert_depth(b"l12:lllllllllllle", 1);
    assert_depth(b"l012:lllllllllllle", 1);
}

#[test]
fn scan_ends_with_the_value() {
    assert_depth(b"lelllll", 1);
    assert!(is_nesting_within(b"i5elllll", 0));
    assert!(is_nesting_within(b"1:alllll", 0));
}

#[test]
fn scan_ends_at_malformed_tokens() {
    assert_depth(b"lxllll", 1);
    assert_depth(b"li5xellll", 1);
    assert_depth(b"l1xllll", 1);
    assert_depth(b"l9:llll", 1);
    assert_depth(b"l99999999999999999999999999999999999999999:llll", 1);
    assert_depth(b"l5", 1);
    assert_depth(b"li5", 1);
    assert!(is_nesting_within(b"ellll", 0));
}

#[test]
fn deepest_torrents_are_read() {
    let expected = TorrentLayout { piece_length: 4, total_length: 10, num_pieces: 3 };
    for bytes in [
        lists_beside_info(MAX_NESTING - 1),
        dictionaries_beside_info(MAX_NESTING - 1),
        lists_in_info(MAX_NESTING - 2),
        dictionaries_in_info(MAX_NESTING - 2),
        directories(MAX_NESTING - 4),
    ] {
        assert_depth(&bytes, MAX_NESTING);
        assert_eq!(load_torrent(&bytes).unwrap().layout, expected);
    }
}

#[test]
fn deeper_torrents_are_refused() {
    for bytes in [
        lists_beside_info(MAX_NESTING),
        dictionaries_beside_info(MAX_NESTING),
        lists_in_info(MAX_NESTING - 1),
        dictionaries_in_info(MAX_NESTING - 1),
        directories(MAX_NESTING - 3),
        lists_beside_info(1_000_000),
        directories(1_000_000),
        [b"d1:z".as_slice(), &repeated(b"l", 1_000_000)].concat(),
    ] {
        assert!(matches!(load_torrent(&bytes), Err(LoadError::TooDeep)));
    }
}
