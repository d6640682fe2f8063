use cameo_core::crypto::sha256_hex;
use cameo_core::json::Json;
use cameo_core::store::{
    check_latest, check_snapshot, check_snapshot_file, check_snapshot_size, generation_file_name,
    next_generation, parse_generation_name, sort_generations, superseded, StoreError,
    SNAPSHOT_LIMIT,
};

fn text(s: &str) -> Json {
    Json::String(s.to_string())
}

fn obj(members: Vec<(&str, Json)>) -> Json {
    Json::Object(members.into_iter().map(|(k, v)| (k.to_string(), v)).collect())
}

fn lease(id: &str) -> (String, Json) {
    (
        id.to_string(),
        obj(vec![("session_id", text(id)), ("model", text("qwen")), ("endpoint_id", text("qwen-8080"))]),
    )
}

fn session(id: &str) -> (String, Json) {
    (id.to_string(), obj(vec![("id", text(id))]))
}

const STATE: &[u8] = br#"{"endpoints":{}}"#;

#[test]
fn generation_files_are_zero_padded_and_read_back() {
    assert_eq!(generation_file_name(1), "state-00000000000000000001.json");
    assert_eq!(generation_file_name(2), "state-00000000000000000002.json");
    assert_eq!(generation_file_name(u64::MAX), "state-18446744073709551615.json");
    for g in [0u64, 7, 42, 1_000_000, u64::MAX] {
        assert_eq!(parse_generation_name(&generation_file_name(g)), Some(Ok(g)));
    }
}

#[test]
fn other_files_are_ignored_and_bad_numbers_refused() {
    assert_eq!(parse_generation_name("owner.lock"), None);
    assert_eq!(parse_generation_name(".pending-abc"), None);
    assert_eq!(parse_generation_name("state-1.txt"), None);
    assert_eq!(parse_generation_name("state-7.json"), Some(Ok(7)));
    assert_eq!(parse_generation_name("state-+7.json"), Some(Ok(7)));
    assert_eq!(parse_generation_name("state-.json"), Some(Err(StoreError::GenerationName)));
    assert_eq!(parse_generation_name("state-x1.json"), Some(Err(StoreError::GenerationName)));
    assert_eq!(
        parse_generation_name("state-18446744073709551616.json"),
        Some(Err(StoreError::GenerationName))
    );
    assert_eq!(StoreError::GenerationName.message(), "invalid endpoint generation filename");
}

#[test]
fn a_snapshot_with_its_own_digest_is_accepted() {
    let digest = sha256_hex(STATE);
    assert_eq!(check_snapshot(3, &digest, STATE, 1, &[lease("s1")], &[session("s1")]), Ok(()));
    assert_eq!(check_snapshot(1, &digest, STATE, 0, &[], &[]), Ok(()));
}

#[test]
fn snapshot_integrity_and_collections_are_checked_in_order() {
    let digest = sha256_hex(STATE);
    assert_eq!(check_snapshot(4, &digest, STATE, 0, &[], &[]), Err(StoreError::Integrity));
    assert_eq!(check_snapshot(0, &digest, STATE, 0, &[], &[]), Err(StoreError::Integrity));
    assert_eq!(check_snapshot(3, "00", STATE, 0, &[], &[]), Err(StoreError::Integrity));
    assert_eq!(check_snapshot(3, &digest, STATE, 257, &[], &[]), Err(StoreError::TooManyEndpoints));
    assert_eq!(check_snapshot(1, &digest, STATE, 0, &[lease("s1")], &[]), Err(StoreError::LeaseCollection));
    let mut bad = lease("s1");
    bad.1 = obj(vec![("session_id", text("other")), ("model", text("m")), ("endpoint_id", text("e"))]);
    assert_eq!(check_snapshot(3, &digest, STATE, 0, &[bad], &[]), Err(StoreError::LeaseIdentity));
    let no_model = ("s2".to_string(), obj(vec![("session_id", text("s2")), ("model", text("")), ("endpoint_id", text("e"))]));
    assert_eq!(check_snapshot(3, &digest, STATE, 0, &[no_model], &[]), Err(StoreError::LeaseIdentity));
    assert_eq!(check_snapshot(2, &digest, STATE, 0, &[lease("s1")], &[session("s1")]), Err(StoreError::SessionCollection));
    let stray = ("s3".to_string(), obj(vec![("id", text("s4"))]));
    assert_eq!(check_snapshot(3, &digest, STATE, 0, &[], &[stray]), Err(StoreError::SessionIdentity));
    assert_eq!(check_snapshot(3, &digest, STATE, 0, &[], &[session("")]), Err(StoreError::SessionIdentity));
}

#[test]
fn snapshot_files_must_be_regular_and_bounded() {
    assert_eq!(check_snapshot_file(true, SNAPSHOT_LIMIT), Ok(()));
    assert_eq!(check_snapshot_file(true, SNAPSHOT_LIMIT + 1), Err(StoreError::SnapshotFile));
    assert_eq!(check_snapshot_file(false, 10), Err(StoreError::SnapshotFile));
    assert_eq!(check_snapshot_size(4 * 1024 * 1024), Ok(()));
    assert_eq!(check_snapshot_size(4 * 1024 * 1024 + 1), Err(StoreError::TooLarge));
}

#[test]
fn opening_adopts_only_a_matching_generation() {
    assert_eq!(check_latest(5, 5, 3), Ok(5));
    assert_eq!(check_latest(5, 4, 3), Err(StoreError::GenerationMismatch));
    assert_eq!(check_latest(5, 5, 300), Err(StoreError::TooManyEndpoints));
    assert_eq!(
        StoreError::GenerationMismatch.message(),
        "endpoint snapshot version/integrity mismatch; explicit recovery is required"
    );
}

#[test]
fn commits_respect_limits_and_take_the_next_generation() {
    assert_eq!(next_generation(0, 0, 0, 0), Ok(1));
    assert_eq!(next_generation(4096, 4096, 256, 9), Ok(10));
    assert_eq!(next_generation(4097, 0, 0, 0), Err(StoreError::SessionLimit));
    assert_eq!(next_generation(0, 4097, 0, 0), Err(StoreError::LeaseLimit));
    assert_eq!(next_generation(0, 0, 257, 0), Err(StoreError::EndpointLimit));
    assert_eq!(next_generation(0, 0, 0, u64::MAX), Err(StoreError::GenerationExhausted));
    assert_eq!(StoreError::EndpointLimit.message(), "endpoint limit is 256");
}

#[test]
fn listings_sort_by_generation_and_keep_the_newest_two() {
    let listing = vec![
        (3u64, "c".to_string()),
        (1, "a".to_string()),
        (2, "b".to_string()),
        (1, "a2".to_string()),
    ];
    let sorted = sort_generations(&listing);
    let order: Vec<&str> = sorted.iter().map(|e| e.1.as_str()).collect();
    assert_eq!(order, vec!["a", "a2", "b", "c"]);
    assert_eq!(superseded(&sorted), vec!["a".to_string(), "a2".to_string()]);
    assert!(superseded(&sorted[..2]).is_empty());
    assert!(superseded(&[]).is_empty());
}
