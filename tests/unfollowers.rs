use std::collections::HashSet;

use unfollower_core::{decode_collection, diff, find_unfollowers, serialize_followers_to_mpack};

fn ids(names: &[&str]) -> Vec<String> {
    names.iter().map(|s| s.to_string()).collect()
}

fn as_set(v: &[String]) -> HashSet<String> {
    v.iter().cloned().collect()
}

fn no_repeats(v: &[String]) -> bool {
    as_set(v).len() == v.len()
}

#[test]
fn diff_keeps_only_those_who_left() {
    let r = diff(&ids(&["alice", "bob", "carol"]), &ids(&["bob", "carol", "dave"]));
    assert_eq!(as_set(&r), as_set(&ids(&["alice"])));
    assert_eq!(r.len(), 1);
}

#[test]
fn diff_of_empty_previous_is_empty() {
    let r = diff(&ids(&[]), &ids(&["alice"]));
    assert!(r.is_empty());
}

#[test]
fn diff_collapses_duplicates() {
    let r = diff(&ids(&["alice", "alice", "bob"]), &ids(&[]));
    assert_eq!(as_set(&r), as_set(&ids(&["alice", "bob"])));
    assert!(no_repeats(&r));
}

#[test]
fn diff_is_one_directional() {
    let p = ids(&["alice", "bob"]);
    let n = ids(&["bob", "carol"]);
    let forward = diff(&p, &n);
    let backward = diff(&n, &p);
    assert_eq!(as_set(&forward), as_set(&ids(&["alice"])));
    assert_eq!(as_set(&backward), as_set(&ids(&["carol"])));
    assert_ne!(as_set(&forward), as_set(&backward));
}

#[test]
fn diff_is_empty_when_previous_is_covered() {
    let r = diff(&ids(&["bob", "alice", "bob"]), &ids(&["alice", "bob", "carol"]));
    assert!(r.is_empty());
}

#[test]
fn diff_ignores_duplicates_in_current() {
    let r = diff(&ids(&["alice", "bob", "carol", "carol"]), &ids(&["bob", "bob"]));
    assert_eq!(as_set(&r), as_set(&ids(&["alice", "carol"])));
    assert!(no_repeats(&r));
}

#[test]
fn diff_compares_exactly() {
    let r = diff(&ids(&["Alice", "bob "]), &ids(&["alice", "bob"]));
    assert_eq!(as_set(&r), as_set(&ids(&["Alice", "bob "])));
}

#[test]
fn empty_blob_decodes_to_empty_collection() {
    let r = decode_collection(&[]);
    assert!(matches!(r, Ok(ref v) if v.is_empty()));
}

#[test]
fn truncated_blob_is_a_decode_error() {
    let mut blob = serialize_followers_to_mpack(&ids(&["alice", "bob"])).unwrap();
    blob.pop();
    let r = decode_collection(&blob);
    assert!(r.is_err());
    assert!(!r.err().unwrap().message.is_empty());
}

#[test]
fn corrupted_blob_is_a_decode_error() {
    assert!(decode_collection(&[0xc1]).is_err());
    assert!(decode_collection(&[0x92, 0xa5, b'a']).is_err());
    assert!(decode_collection(&[0x91, 0x05]).is_err());
}

#[test]
fn encoding_of_small_collection_is_exact() {
    let b = serialize_followers_to_mpack(&ids(&["a", "bc"])).unwrap();
    assert_eq!(b, vec![0x92, 0xa1, b'a', 0xa2, b'b', b'c']);
}

#[test]
fn encoding_of_empty_collection_is_exact() {
    let b = serialize_followers_to_mpack(&ids(&[])).unwrap();
    assert_eq!(b, vec![0x90]);
}

#[test]
fn encoding_uses_longer_headers_for_long_strings() {
    let s = "x".repeat(40);
    let b = serialize_followers_to_mpack(&vec![s.clone()]).unwrap();
    let mut expected = vec![0x91, 0xd9, 40];
    expected.extend_from_slice(s.as_bytes());
    assert_eq!(b, expected);

    let s = "y".repeat(300);
    let b = serialize_followers_to_mpack(&vec![s.clone()]).unwrap();
    let mut expected = vec![0x91, 0xda, 0x01, 0x2c];
    expected.extend_from_slice(s.as_bytes());
    assert_eq!(b, expected);
}

#[test]
fn encoding_uses_longer_header_for_many_items() {
    let names: Vec<String> = (0..20).map(|i| format!("u{}", i % 10)).collect();
    let b = serialize_followers_to_mpack(&names).unwrap();
    assert_eq!(&b[..3], &[0xdc, 0x00, 20]);
}

#[test]
fn encoding_writes_utf8_bytes() {
    let b = serialize_followers_to_mpack(&ids(&["é"])).unwrap();
    assert_eq!(b, vec![0x91, 0xa2, 0xc3, 0xa9]);
}

#[test]
fn round_trip_keeps_collection() {
    let cases = vec![
        ids(&[]),
        ids(&["alice"]),
        ids(&["alice", "alice", "bob"]),
        ids(&["zoë", "", "bob", "zoë"]),
        (0..70000).map(|i| format!("user{}", i % 1000)).collect::<Vec<String>>(),
        vec!["z".repeat(70000), "w".repeat(255)],
    ];
    for c in cases {
        let blob = serialize_followers_to_mpack(&c).unwrap();
        let back = decode_collection(&blob).unwrap();
        assert_eq!(as_set(&back), as_set(&c));
        assert_eq!(back, c);
    }
}

#[test]
fn first_run_finds_no_unfollowers() {
    let r = find_unfollowers(&ids(&["alice", "bob"]), &[]).unwrap();
    assert!(r.is_empty());
}

#[test]
fn stored_baseline_yields_unfollowers() {
    let blob = serialize_followers_to_mpack(&ids(&["alice", "bob", "carol", "alice"])).unwrap();
    let r = find_unfollowers(&ids(&["bob", "dave"]), &blob).unwrap();
    assert_eq!(as_set(&r), as_set(&ids(&["alice", "carol"])));
    assert!(no_repeats(&r));
}

#[test]
fn corrupted_baseline_is_reported() {
    let r = find_unfollowers(&ids(&["bob"]), &[0x92, 0xa3, b'b']);
    assert!(r.is_err());
}

#[test]
fn encoding_of_one_identifier_is_exact() {
    let b = serialize_followers_to_mpack(&ids(&["alice"])).unwrap();
    assert_eq!(b, vec![0x91, 0xa5, 0x61, 0x6c, 0x69, 0x63, 0x65]);
}

#[test]
fn encoding_keeps_duplicates_and_order() {
    let b = serialize_followers_to_mpack(&ids(&["alice", "alice", "bob"])).unwrap();
    assert_eq!(
        b,
        vec![0x93, 0xa5, 0x61, 0x6c, 0x69, 0x63, 0x65, 0xa5, 0x61, 0x6c, 0x69, 0x63, 0x65, 0xa3, 0x62, 0x6f, 0x62]
    );
    let once = serialize_followers_to_mpack(&ids(&["alice"])).unwrap();
    let twice = serialize_followers_to_mpack(&ids(&["alice", "alice"])).unwrap();
    assert_ne!(once, twice);
}

#[test]
fn encoding_twice_gives_same_bytes() {
    let c = ids(&["carol", "bob", "carol"]);
    assert_eq!(serialize_followers_to_mpack(&c).unwrap(), serialize_followers_to_mpack(&c).unwrap());
}
