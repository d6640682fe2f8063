use cameo_core::json::Json;
use cameo_core::roster::gpu_summary;
use cameo_core::vram::{ensure_first_claim, ensure_refused, ensure_second_claim, EnsureStep, LeaseClaim};
use cameo_core::drain::{DrainPhase, DrainState, RegisterError};
use cameo_core::hub::{cap_id_len, pair_request_id, Farm, Registration, DROP_AFTER_MS, MAX_NODE_BLOB_BYTES, MAX_NODE_ID_LEN, ONLINE_WINDOW_MS};
use cameo_core::sessions::{Board, Session, VramCapability, STALE_MS};

fn session(id: &str) -> Session {
    Session {
        id: id.into(),
        name: String::new(),
        role: String::new(),
        mode: "ask".into(),
        state: String::new(),
        engine: String::new(),
        model: String::new(),
        plan_step: String::new(),
        halt: String::new(),
        verification: String::new(),
        files: Vec::new(),
        changed_files: Vec::new(),
        summary: String::new(),
        task: String::new(),
        workspace: String::new(),
        trace_ref: String::new(),
        vram: VramCapability::none(),
    }
}

#[test]
fn upsert_fills_blank_id_and_name_and_defaults_mode() {
    let mut board = Board::new();
    let mut s = session("");
    s.name = String::new();
    let saved = board.upsert(s);
    assert!(!saved.id.is_empty(), "a blank id is generated");
    assert!(saved.id.starts_with('s'));
    assert_eq!(saved.name, saved.id, "a blank name falls back to the id");
    assert_eq!(saved.mode, "ask");
}

#[test]
fn upsert_preserves_a_supplied_id_and_updates_in_place() {
    let mut board = Board::new();
    let mut first = session("sol-1");
    first.state = "thinking".into();
    board.upsert(first);
    let mut second = session("sol-1");
    second.state = "writing".into();
    second.engine = "cameo".into();
    second.plan_step = "verify parser".into();
    second.verification = "passed".into();
    second.changed_files = vec!["parser.rs".into()];
    second.trace_ref = "trace-42".into();
    board.upsert(second);
    let list = board.list();
    assert_eq!(list.len(), 1, "same id updates, not appends");
    let s = &list[0].0;
    assert_eq!(s.id, "sol-1");
    assert_eq!(s.state, "writing");
    assert_eq!(s.engine, "cameo");
    assert_eq!(s.plan_step, "verify parser");
    assert_eq!(s.verification, "passed");
    assert_eq!(s.changed_files, vec!["parser.rs".to_string()]);
    assert_eq!(s.trace_ref, "trace-42");
}

#[test]
fn list_marks_a_fresh_session_not_stale_and_carries_age() {
    let mut board = Board::new();
    let mut s = session("sol-2");
    s.name = "hands".into();
    board.upsert(s);
    let list = board.list();
    assert_eq!(list.len(), 1);
    assert!(!list[0].1, "just-seen is not stale");
    assert_eq!(list[0].2, 0);
    assert_eq!(list[0].0.name, "hands");
}

#[test]
fn sessions_remove_reports_whether_it_deleted() {
    let mut board = Board::new();
    board.upsert(session("sol-3"));
    assert!(board.remove("sol-3"));
    assert!(!board.remove("sol-3"));
    assert!(board.list().is_empty());
}

#[test]
fn contains_tracks_the_live_session_id() {
    let mut board = Board::new();
    board.upsert(session("sol-4"));
    assert!(board.contains("sol-4"));
    board.remove("sol-4");
    assert!(!board.contains("sol-4"));
}

#[test]
fn stale_sessions_are_not_eligible_for_leases_but_remain_visible() {
    let mut board = Board::new();
    board.upsert_at(session("sol-5"), 0, 7);
    let later = STALE_MS + 1_000;
    assert!(!board.contains_at("sol-5", later));
    assert_eq!(board.stale_ids_at(later), vec!["sol-5".to_string()]);
    assert_eq!(board.list_at(later).len(), 1, "the deck retains stale diagnostics");
    assert!(board.list_at(4 * STALE_MS).is_empty(), "long-dead sessions are dropped");
}

#[test]
fn vram_records_are_session_bound_and_refresh_the_heartbeat() {
    let mut board = Board::new();
    board.upsert(session("sol-vram"));
    let saved = board
        .record_vram(
            "sol-vram",
            VramCapability {
                status: "resident".into(),
                action: "ensure".into(),
                model: "daedalus-bitnet".into(),
                endpoint_id: "daedalus-8080".into(),
                impact: "reused resident model; no eviction".into(),
                evicts: Vec::new(),
            },
        )
        .expect("known session is updated");
    assert_eq!(saved.vram.status, "resident");
    assert_eq!(board.get("sol-vram").unwrap().vram.model, "daedalus-bitnet");
    assert!(board.record_vram("missing", VramCapability::none()).is_none());
}

#[test]
fn ordinary_heartbeat_keeps_cameo_owned_vram_record() {
    let mut board = Board::new();
    let mut s = session("sol-heartbeat");
    s.state = "planning".into();
    board.upsert(s);
    let mut vram = VramCapability::none();
    vram.status = "resident".into();
    vram.model = "daedalus-bitnet".into();
    board.record_vram("sol-heartbeat", vram).expect("known session is updated");
    let mut beat = session("sol-heartbeat");
    beat.state = "verifying".into();
    let refreshed = board.upsert(beat);
    assert_eq!(refreshed.state, "verifying");
    assert_eq!(refreshed.vram.status, "resident");
    assert_eq!(refreshed.vram.model, "daedalus-bitnet");
}

#[test]
fn generated_ids_come_from_the_wall_clock_stamp() {
    let mut board = Board::new();
    let saved = board.upsert_at(session(""), 0, 1234);
    assert_eq!(saved.id, "s1234");
    assert_eq!(saved.name, "s1234");
    let list = board.list_at(0);
    let ids: Vec<&str> = list.iter().map(|(s, _, _)| s.id.as_str()).collect();
    assert_eq!(ids, vec!["s1234"]);
}

#[test]
fn sessions_are_listed_in_id_order() {
    let mut board = Board::new();
    for id in ["b", "c", "a"] {
        board.upsert_at(session(id), 5, 0);
    }
    let ids: Vec<String> = board.list_at(5).into_iter().map(|(s, _, _)| s.id).collect();
    assert_eq!(ids, vec!["a", "b", "c"]);
}

#[test]
fn shutdown_drain_cannot_be_reopened() {
    let mut drain = DrainState::new();
    drain.begin_shutdown(30_000, 0);
    drain.resume(1);
    assert!(drain.shutting_down());
    assert!(drain.enter().is_none());
}

#[test]
fn draining_refuses_new_work_and_waits_for_owned_requests() {
    let mut drain = DrainState::new();
    let first = drain.enter().unwrap();
    let _second = drain.enter().unwrap();
    assert_eq!(drain.begin(0, 0).phase, DrainPhase::DeadlineExceeded);
    assert!(drain.enter().is_none());
    assert_eq!(drain.begin(60_000, 0).deadline_seconds, Some(0));
    drain.release();
    let status = drain.status(0);
    assert_eq!(status.active_requests, 1);
    assert!(!status.gateway_idle);
    drain.release();
    assert_eq!(drain.status(0).phase, DrainPhase::Drained);
    drain.resume(0);
    let next = drain.enter().unwrap();
    assert!(drain.cancelled(first, 0), "resume cannot revive cancelled request generations");
    assert!(!drain.cancelled(next, 0));
}

#[test]
fn a_cancelled_generation_cannot_register_sockets() {
    let mut drain = DrainState::new();
    let generation = drain.enter().unwrap();
    let socket = drain.register(generation, 0).unwrap();
    drain.begin(1_000, 0);
    assert!(drain.poll(500).is_empty());
    assert_eq!(drain.poll(1_000), vec![socket]);
    assert_eq!(drain.register(generation, 1_000), Err(RegisterError::Cancelled));
    drain.unregister(socket);
    drain.release();
    assert!(drain.status(2_000).accepting == false);
}

fn reg(node_id: &str, name: &str, address: &str, key: Option<&str>) -> Registration {
    Registration {
        node_id: node_id.into(),
        name: name.into(),
        address: address.into(),
        key: key.map(str::to_string),
        cameo_version: String::new(),
        node: None,
    }
}

#[test]
fn register_derives_a_stable_id_and_is_idempotent() {
    let mut farm = Farm::new();
    let id = farm.register(reg("", "box-a", "10.0.0.2:9090", None));
    assert_eq!(id, "box-a");
    farm.register(reg("", "box-a", "10.0.0.2:9090", None));
    assert_eq!(farm.list().len(), 1);
}

#[test]
fn id_falls_back_to_address_then_constant() {
    let mut farm = Farm::new();
    assert_eq!(farm.register(reg("", "", "10.0.0.9:9090", None)), "10.0.0.9:9090");
    assert_eq!(farm.register(reg("", "", "", None)), "node");
}

/// A minimal `/api/node`-shaped description with one GPU.
const NODE_DESC: &str = r#"{
    "name": "box-a",
    "gpus": [{
        "gpu": { "model": "Radeon RX 7900 XTX", "vram_mb": 24560, "vram_used_mb": 8192 },
        "tier": "Tier1"
    }],
    "endpoints": [{ "id": "tiny-8080", "model": "tinyllama" }],
    "sessions": [{ "id": "s1", "name": "alice", "model": "tinyllama" }]
}"#;

fn convert(v: &serde_json::Value) -> Json {
    match v {
        serde_json::Value::Null => Json::Null,
        serde_json::Value::Bool(b) => Json::Bool(*b),
        serde_json::Value::Number(n) => Json::Number(n.as_u64()),
        serde_json::Value::String(s) => Json::String(s.clone()),
        serde_json::Value::Array(a) => Json::Array(a.iter().map(convert).collect()),
        serde_json::Value::Object(m) => Json::Object(m.iter().map(|(k, v)| (k.clone(), convert(v))).collect()),
    }
}

/// The library's JSON value for a description the farm stored.
fn parsed(bytes: &[u8]) -> Json {
    convert(&serde_json::from_slice(bytes).unwrap())
}

/// The `gpus` rows of a stored description, as `(field, value)` text pairs.
fn gpu_rows(bytes: &[u8]) -> Vec<Vec<(String, String)>> {
    let Json::Array(rows) = gpu_summary(&parsed(bytes)) else { panic!("rows are an array") };
    rows.iter()
        .map(|row| {
            let Json::Object(members) = row else { panic!("a row is an object") };
            members
                .iter()
                .map(|(k, v)| {
                    let text = match v {
                        Json::String(s) => s.clone(),
                        Json::Number(Some(n)) => n.to_string(),
                        Json::Null => "null".to_string(),
                        _ => "?".to_string(),
                    };
                    (k.clone(), text)
                })
                .collect()
        })
        .collect()
}

fn field<'a>(row: &'a [(String, String)], name: &str) -> &'a str {
    &row.iter().find(|(k, _)| k == name).unwrap().1
}

#[test]
fn a_fresh_node_lists_online_with_its_gpu_summary() {
    let mut farm = Farm::new();
    let mut r = reg("", "box-a", "10.0.0.2:9090", None);
    r.cameo_version = "0.1.0".into();
    r.node = Some(NODE_DESC.as_bytes().to_vec());
    farm.register_at(r, 100);
    let list = farm.list_at(100);
    assert_eq!(list.len(), 1);
    assert!(list[0].online, "just-registered is online");
    assert_eq!(list[0].name, "box-a");
    assert_eq!(list[0].cameo_version, "0.1.0");
    let node = list[0].node.clone().unwrap();
    let gpus = gpu_rows(&node);
    assert_eq!(field(&gpus[0], "model"), "Radeon RX 7900 XTX");
    assert_eq!(field(&gpus[0], "vram_mb"), "24560");
    assert_eq!(field(&gpus[0], "vram_used_mb"), "8192");
    assert_eq!(field(&gpus[0], "tier"), "Tier1");
    let stored: serde_json::Value = serde_json::from_slice(&node).unwrap();
    assert_eq!(stored["endpoints"][0]["model"], "tinyllama");
    assert_eq!(stored["sessions"][0]["name"], "alice");
    let later = farm.list_at(100 + ONLINE_WINDOW_MS);
    assert!(!later[0].online);
    assert_eq!(later[0].age_secs, ONLINE_WINDOW_MS / 1000);
}

#[test]
fn gpu_summary_degrades_missing_facts_to_defaults() {
    let rows = gpu_rows(br#"{"gpus":[{"tier":"Tier2"},{"gpu":{"model":null,"vram_mb":[1]}}]}"#);
    assert_eq!(field(&rows[0], "model"), "GPU");
    assert_eq!(field(&rows[0], "vram_mb"), "null");
    assert_eq!(field(&rows[0], "tier"), "Tier2");
    assert_eq!(field(&rows[1], "model"), "null");
    assert_eq!(field(&rows[1], "vram_mb"), "null");
    assert_eq!(field(&rows[1], "tier"), "null");
    assert!(gpu_rows(b"{}").is_empty());
    assert!(gpu_rows(br#"{"gpus":7}"#).is_empty());
}

#[test]
fn heartbeat_refreshes_known_and_rejects_unknown() {
    let mut farm = Farm::new();
    let id = farm.register(reg("", "box-a", "10.0.0.2:9090", None));
    assert!(farm.heartbeat(&id, None));
    assert!(!farm.heartbeat("ghost", None));
}

#[test]
fn heartbeat_updates_the_live_description() {
    let mut farm = Farm::new();
    let id = farm.register_at(reg("", "box-a", "10.0.0.2:9090", None), 0);
    assert!(farm.heartbeat_at(&id, Some(NODE_DESC.as_bytes().to_vec()), 10));
    // The beat's description is now what the listing shows.
    assert_eq!(field(&gpu_rows(farm.list_at(10)[0].node.as_deref().unwrap())[0], "tier"), "Tier1");
    // A beat without a description (the wire's `null`) leaves the last-known one intact.
    assert!(farm.heartbeat_at(&id, None, 20));
    assert_eq!(field(&gpu_rows(farm.list_at(20)[0].node.as_deref().unwrap())[0], "tier"), "Tier1");
    let huge = vec![b'x'; MAX_NODE_BLOB_BYTES + 1];
    assert!(farm.heartbeat_at(&id, Some(huge), 30));
    assert_eq!(farm.list_at(30)[0].node.as_deref(), Some(NODE_DESC.as_bytes()));
}

#[test]
fn push_target_returns_address_and_key() {
    let mut farm = Farm::new();
    let id = farm.register(reg("", "box-a", "10.0.0.2:9090", Some("sekret")));
    assert_eq!(
        farm.push_target(&id),
        Some(("10.0.0.2:9090".to_string(), Some("sekret".to_string())))
    );
    assert_eq!(farm.push_target("ghost"), None);
}

#[test]
fn hub_remove_reports_whether_it_deleted() {
    let mut farm = Farm::new();
    let id = farm.register(reg("", "box-a", "10.0.0.2:9090", None));
    assert!(farm.remove(&id));
    assert!(!farm.remove(&id));
    assert!(farm.list().is_empty());
}

#[test]
fn reregistration_cannot_hijack_address_or_key() {
    let mut farm = Farm::new();
    let id = farm.register(reg("n1", "", "10.0.0.2:9090", Some("first")));
    farm.register(reg("n1", "", "10.6.6.6:9090", Some("stolen")));
    assert_eq!(
        farm.push_target(&id),
        Some(("10.0.0.2:9090".to_string(), Some("first".to_string())))
    );
}

#[test]
fn oversize_node_id_is_capped() {
    let mut farm = Farm::new();
    let huge = "x".repeat(MAX_NODE_ID_LEN * 4);
    let id = farm.register(reg("", &huge, "10.0.0.2:9090", None));
    assert!(id.len() <= MAX_NODE_ID_LEN);
    assert_eq!(cap_id_len("é".repeat(200)).len(), 256);
    assert_eq!(cap_id_len("aé".repeat(100)), "aé".repeat(85) + "a");
}

#[test]
fn oversize_self_description_is_dropped() {
    let mut farm = Farm::new();
    let mut r = reg("", "box-a", "10.0.0.2:9090", None);
    r.node = Some(vec![b' '; MAX_NODE_BLOB_BYTES + 1]);
    let id = farm.register(r);
    assert_eq!(farm.list()[0].node, None);
    assert_eq!(id, "box-a");
}

#[test]
fn silent_nodes_are_pruned_and_online_nodes_listed_in_id_order() {
    let mut farm = Farm::new();
    farm.register_at(reg("old", "", "10.0.0.1:9090", None), 0);
    farm.register_at(reg("new", "", "10.0.0.2:9090", None), 5);
    let online = farm.online_descriptions_at(5);
    assert_eq!(online.len(), 2);
    assert_eq!(online[0].0, "new");
    assert_eq!(online[1].0, "old");
    assert!(farm.list_at(DROP_AFTER_MS).iter().all(|row| row.node_id == "new"));
}

#[test]
fn pairing_ids_prefer_the_node_id_and_are_bounded() {
    assert_eq!(pair_request_id("  n1 ", "box").unwrap(), "n1");
    assert_eq!(pair_request_id("   ", " box ").unwrap(), "box");
    assert_eq!(
        pair_request_id("", "").unwrap_err(),
        "pairing requires a node id or name up to 256 bytes"
    );
    assert!(pair_request_id(&"x".repeat(257), "").is_err());
}

#[test]
fn vram_ensure_reuses_a_resident_model_first() {
    match ensure_first_claim("qwen", LeaseClaim::Claimed("qwen-8080".into())) {
        EnsureStep::Reply(reply) => {
            assert_eq!(reply.status, 200);
            assert!(reply.reused);
            assert!(reply.error.is_none());
            let record = reply.record.unwrap();
            assert_eq!(record.status, "resident");
            assert_eq!(record.action, "ensure");
            assert_eq!(record.model, "qwen");
            assert_eq!(record.endpoint_id, "qwen-8080");
            assert_eq!(record.impact, "reused resident model; no eviction");
            assert!(record.evicts.is_empty());
        }
        EnsureStep::StartModel => panic!("a held lease must be reused"),
    }
    assert!(matches!(ensure_first_claim("qwen", LeaseClaim::ModelUnavailable), EnsureStep::StartModel));
    match ensure_first_claim("qwen", LeaseClaim::StorageUnavailable) {
        EnsureStep::Reply(reply) => {
            assert_eq!(reply.status, 503);
            assert_eq!(reply.error.as_deref(), Some("lease storage unavailable; retry claim"));
            assert!(reply.record.is_none());
        }
        EnsureStep::StartModel => panic!("storage failures are answered"),
    }
}

#[test]
fn vram_ensure_records_why_a_start_was_refused() {
    let blocked = ensure_refused("big", Some("model needs more VRAM"), vec!["small-9000".into()]);
    assert_eq!(blocked.status, "blocked");
    assert_eq!(blocked.model, "big");
    assert_eq!(blocked.endpoint_id, "");
    assert_eq!(blocked.impact, "model needs more VRAM");
    assert_eq!(blocked.evicts, vec!["small-9000".to_string()]);
    assert_eq!(ensure_refused("big", None, vec![]).impact, "Cameo could not admit the model");
}

#[test]
fn vram_ensure_claims_again_after_a_start() {
    let approved = ensure_second_claim("m", true, LeaseClaim::Claimed("m-1".into()));
    assert_eq!(approved.status, 201);
    assert!(!approved.reused);
    assert_eq!(approved.record.unwrap().impact, "loaded after explicit operator-approved VRAM admission");
    let plain = ensure_second_claim("m", false, LeaseClaim::Claimed("m-1".into()));
    assert_eq!(plain.record.unwrap().impact, "loaded without evicting another endpoint");
    let not_ready = ensure_second_claim("m", false, LeaseClaim::ModelUnavailable);
    assert_eq!(not_ready.status, 502);
    assert_eq!(not_ready.error.as_deref(), Some("model process did not become ready; inspect /api/servers"));
    let record = not_ready.record.unwrap();
    assert_eq!(record.status, "blocked");
    assert_eq!(record.impact, "endpoint did not become ready; inspect Cameo servers");
    assert_eq!(ensure_second_claim("m", false, LeaseClaim::StorageUnavailable).status, 503);
}
