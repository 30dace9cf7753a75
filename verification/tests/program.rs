use cdn_seeder::client::{client, storage_client};
use cdn_seeder::program::{has_activity, parse_args};
use cdn_seeder::storage::CdnStorage;
use cdn_seeder::torrent::{
    load_torrent, seedable_torrent, torrent_layout, InfoSizes, LoadError, ParsedTorrent,
    TorrentLayout,
};
use fx_torrent::TorrentMetadata;

fn args(words: &[&str]) -> Vec<String> {
    words.iter().map(|w| w.to_string()).collect()
}

/// A torrent file with the given info dictionary entries for its files.
fn torrent(files: &str, piece_length: &str) -> Vec<u8> {
    let mut bytes = Vec::new();
    bytes.extend_from_slice(b"d8:announce12:http://a.b/c4:infod");
    bytes.extend_from_slice(files.as_bytes());
    bytes.extend_from_slice(b"4:name4:test12:piece length");
    bytes.extend_from_slice(piece_length.as_bytes());
    bytes.extend_from_slice(b"6:pieces20:aaaaaaaaaaaaaaaaaaaaee");
    bytes
}

#[test]
fn arguments() {
    let parsed = parse_args(&args(&["cdn-seeder", "a.torrent", "http://c"])).unwrap();
    assert_eq!(parsed.torrent_path, "a.torrent");
    assert_eq!(parsed.cdn_url, "http://c");
    assert!(parse_args(&args(&["cdn-seeder", "a", "b", "c"])).is_ok());
    let usage = "Usage: cdn-seeder <torrent-file> <cdn-url>";
    assert_eq!(parse_args(&args(&["cdn-seeder", "a.torrent"])).unwrap_err(), usage);
    assert_eq!(parse_args(&args(&[])).unwrap_err(), usage);
}

#[test]
fn activity() {
    assert!(!has_activity(0, 0, 0));
    assert!(has_activity(1, 0, 0));
    assert!(has_activity(0, 1, 0));
    assert!(has_activity(0, 0, 1));
}

#[test]
fn client_settings() {
    let settings = client();
    assert_eq!(settings.user_agent, Some("cdn_seed/1.0"));
    assert_eq!(settings.connect_timeout_secs, Some(5));
    assert_eq!(settings.timeout_secs, 15);
    assert_eq!(settings.pool_max_idle_per_host, 8);
    assert_eq!(settings.pool_idle_timeout_secs, Some(30));
    assert_eq!(settings.http2_keep_alive_interval_secs, Some(10));
    assert_eq!(settings.http2_keep_alive_timeout_secs, Some(5));
    let settings = storage_client();
    assert_eq!(settings.timeout_secs, 30);
    assert_eq!(settings.pool_max_idle_per_host, 8);
    assert_eq!(settings.user_agent, None);
}

#[test]
fn layouts() {
    let layout = |piece_length, file_lengths| torrent_layout(&InfoSizes { piece_length, file_lengths });
    assert_eq!(
        layout(4, vec![3, 7]),
        Some(TorrentLayout { piece_length: 4, total_length: 10, num_pieces: 3 })
    );
    assert_eq!(
        layout(4, vec![]),
        Some(TorrentLayout { piece_length: 4, total_length: 0, num_pieces: 0 })
    );
    assert_eq!(layout(0, vec![3]), None);
    assert_eq!(layout(1, vec![u64::MAX]), None);
    assert_eq!(layout(4, vec![u64::MAX, 1]), None);
}

#[test]
fn single_file_torrent() {
    let loaded = load_torrent(&torrent("6:lengthi10e", "i4e")).unwrap();
    assert_eq!(
        loaded.layout,
        TorrentLayout { piece_length: 4, total_length: 10, num_pieces: 3 }
    );
    assert_eq!(loaded.metadata.announce.as_deref(), Some("http://a.b/c"));
}

#[test]
fn torrent_with_two_files() {
    let files = "5:filesld6:lengthi3e4:pathl1:aeed6:lengthi7e4:pathl1:beee";
    let loaded = load_torrent(&torrent(files, "i5e")).unwrap();
    assert_eq!(
        loaded.layout,
        TorrentLayout { piece_length: 5, total_length: 10, num_pieces: 2 }
    );
}

#[test]
fn torrent_with_a_file_tree() {
    let bytes = b"d4:infod9:file treed1:ad0:d6:lengthi3eee1:bd1:cd0:d6:lengthi7eeeee12:meta versioni2e4:name4:test12:piece lengthi4eee";
    let loaded = load_torrent(bytes).unwrap();
    assert_eq!(
        loaded.layout,
        TorrentLayout { piece_length: 4, total_length: 10, num_pieces: 3 }
    );
    assert_eq!(loaded.metadata.info.unwrap().len(), 10);
}

#[test]
fn torrents_that_cannot_be_seeded() {
    assert!(matches!(load_torrent(b"no torrent"), Err(LoadError::NoTorrent(_))));
    assert!(matches!(load_torrent(b""), Err(LoadError::NoTorrent(_))));
    assert!(matches!(
        load_torrent(&torrent("6:lengthi10e", "i0e")),
        Err(LoadError::NoLayout)
    ));
}

#[test]
fn torrent_without_info() {
    match load_torrent(b"d8:announce12:http://a.b/ce") {
        Err(error) => assert_eq!(error.message().unwrap(), "torrent has no info dict"),
        Ok(loaded) => panic!("{:?}", loaded),
    }
}

#[test]
fn load_errors_speak() {
    let refusal = load_torrent(b"no torrent").unwrap_err();
    assert!(refusal.message().is_none());
    match refusal {
        LoadError::NoTorrent(error) => {
            assert!(error.to_string().starts_with("failed to parse torrent data"))
        }
        other => panic!("{:?}", other),
    }
    assert_eq!(LoadError::TooDeep.message().unwrap(), "torrent is nested too deep");
    assert_eq!(LoadError::NoInfo.message().unwrap(), "torrent has no info dict");
    assert_eq!(LoadError::NoLayout.message().unwrap(), "torrent cannot be cut into pieces");
}

#[test]
fn metadata_goes_with_its_layout() {
    let bytes = torrent("6:lengthi10e", "i4e");
    let metadata = TorrentMetadata::try_from(bytes.as_slice()).unwrap();
    let parsed = ParsedTorrent {
        metadata: metadata.clone(),
        info: Some(InfoSizes { piece_length: 4, file_lengths: vec![10] }),
    };
    let loaded = seedable_torrent(parsed).unwrap();
    assert!(loaded.metadata == metadata);
    assert_eq!(loaded.layout.num_pieces, 3);
    assert!(load_torrent(&bytes).unwrap().metadata == metadata);
    let parsed = ParsedTorrent { metadata: metadata.clone(), info: None };
    assert!(matches!(seedable_torrent(parsed), Err(LoadError::NoInfo)));
    let info = Some(InfoSizes { piece_length: 0, file_lengths: vec![10] });
    let parsed = ParsedTorrent { metadata, info };
    assert!(matches!(seedable_torrent(parsed), Err(LoadError::NoLayout)));
}

#[test]
fn info_hash_goes_with_the_file() {
    let bytes = torrent("6:lengthi10e", "i4e");
    let start = bytes.windows(6).position(|w| w == b"4:info").unwrap() + 6;
    let info = bytes[start..bytes.len() - 1].to_vec();
    let digest = CdnStorage::finish_hash_v1(Ok(info)).unwrap();
    let loaded = load_torrent(&bytes).unwrap();
    assert_eq!(loaded.metadata.info_hash.short_info_hash_bytes(), digest);
    let other = load_torrent(&torrent("6:lengthi11e", "i4e")).unwrap();
    assert_ne!(other.metadata.info_hash.short_info_hash_bytes(), digest);
}

#[test]
fn info_hash_of_a_file_tree_is_settled() {
    let bytes = b"d4:infod9:file treed1:ad0:d6:lengthi3eee1:bd0:d6:lengthi3eee1:cd0:d6:lengthi4eeee12:meta versioni2e4:name4:test12:piece lengthi4eee";
    let hash = || load_torrent(bytes).unwrap().metadata.info_hash.short_info_hash_bytes();
    let info = bytes[7..bytes.len() - 1].to_vec();
    let digest = CdnStorage::finish_hash_v1(Ok(info)).unwrap();
    for _ in 0..16 {
        assert_eq!(hash(), digest);
    }
}
