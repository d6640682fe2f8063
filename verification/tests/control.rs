use cameo_core::roster::load_from_endpoints;
use cameo_core::roster::{mesh_facts, MeshHealthFact, TrustFact};
use cameo_core::agent::{
    first_step, heartbeat_json, heartbeat_known, hub_endpoint, pairing_json, registration_json,
    HubConfig, legacy_keeps_node, node_id_from_response,
    validate_device_credential, DeviceCredential, FirstStep,
};
use cameo_core::auth::Posture;
use cameo_core::dispatch::{
    replay_answer, AdmissionBook, AdmissionError, AdmissionState, Begin, DispatchBody,
    MAX_ADMISSIONS,
};
use cameo_core::json::Json;
use cameo_core::net::{callback_authority, is_loopback, push_address_ok, IpLiteral};
use cameo_core::openai::{reject_token_ceiling, reject_unsupported, route_from_path, GatewayRoute};
use cameo_core::routes::{drain_deadline, heartbeat_node, pairing_label, route_of, ApiRoute, HubRoute, Route};
use cameo_core::startup::{check_bind, check_link, LinkRequest};
use cameo_core::tls::{fingerprint, subject_names};

fn s(text: &str) -> Json {
    Json::String(text.to_string())
}

fn n(v: u64) -> Json {
    Json::Number(Some(v))
}

fn obj(members: Vec<(&str, Json)>) -> Json {
    Json::Object(members.into_iter().map(|(k, v)| (k.to_string(), v)).collect())
}

fn body(model: &str, execute: bool) -> DispatchBody {
    DispatchBody {
        model: model.into(),
        quant: "Q4_K_M".into(),
        task: None,
        min_tier: None,
        execute,
        port: 8080,
        priority: 5,
        expected_output_tokens: 512,
        deadline_ms: None,
        protocol_major: 1,
        session_affinity: None,
        request_id: None,
    }
}

#[test]
fn malformed_dispatch_limits_are_rejected() {
    let mut request = body("qwen-7b", false);
    request.priority = 10;
    assert!(request.validate(true).is_err());
    request.priority = 5;
    request.expected_output_tokens = 0;
    assert!(request.validate(true).is_err());
}

#[test]
fn dispatch_limits_name_the_broken_rule() {
    let mut request = body("qwen-7b", true);
    assert!(request.validate(true).is_ok());
    assert_eq!(request.validate(false).unwrap_err(), "unsupported quant 'Q4_K_M'");
    request.port = 0;
    assert_eq!(request.validate(true).unwrap_err(), "port must be non-zero when execute is true");
    request.port = 8080;
    request.task = Some("train".into());
    assert!(request.validate(true).is_ok());
    request.task = Some("serve".into());
    assert_eq!(request.validate(true).unwrap_err(), "task must be inference or training");
    request.task = None;
    request.min_tier = Some(4);
    assert_eq!(request.validate(true).unwrap_err(), "min_tier must be 1, 2, or 3");
    request.min_tier = None;
    request.request_id = Some(String::new());
    assert_eq!(request.validate(true).unwrap_err(), "request_id must be 1..=128 bytes when present");
    request.request_id = None;
    request.model = "  ".into();
    assert_eq!(request.validate(true).unwrap_err(), "model must be 1..=512 bytes");
}

#[test]
fn execute_request_is_idempotent_and_conflicting_reuse_is_rejected() {
    let mut book: AdmissionBook<&'static str> = AdmissionBook::new();
    fn route(book: &mut AdmissionBook<&'static str>, fp: &str) -> Begin<&'static str> {
        book.begin_at(Some("req-1"), fp, 0)
    }
    let first = match route(&mut book, "body-1") {
        Begin::Route(reserved) => {
            assert!(reserved.is_empty());
            book.reserve_at(Some("req-1"), "body-1", "a", false, "qwen-7b", 4_000, "choice-a", 0).unwrap()
        }
        _ => panic!("a fresh request is routed"),
    };
    let replay = match route(&mut book, "body-1") {
        Begin::Replay { lease, node_id, choice } => {
            assert_eq!(node_id, "a");
            assert_eq!(choice, "choice-a");
            lease
        }
        _ => panic!("a retried request is replayed"),
    };
    assert_eq!(first.id, replay.id);
    assert!(matches!(route(&mut book, "body-2"), Begin::Conflict(_)));
}

#[test]
fn active_reservation_is_handed_to_the_router() {
    let mut book: AdmissionBook<()> = AdmissionBook::new();
    assert!(matches!(book.begin_at(Some("req-a"), "fp", 0), Begin::Route(_)));
    book.reserve_at(Some("req-a"), "fp", "a", false, "qwen-7b", 4_500, (), 0).unwrap();
    match book.begin_at(Some("req-b"), "fp", 1) {
        Begin::Route(reserved) => assert_eq!(reserved, vec![("a".to_string(), 4_500)]),
        _ => panic!("a new request is routed"),
    }
    // A warm node holds nothing new.
    book.reserve_at(Some("req-c"), "fp", "b", true, "qwen-7b", 4_500, (), 1).unwrap();
    match book.begin_at(None, "fp", 2) {
        Begin::Route(reserved) => assert_eq!(reserved, vec![("a".to_string(), 4_500), ("b".to_string(), 0)]),
        _ => panic!("a request without an id is routed"),
    }
}

#[test]
fn failed_reservation_releases_capacity_but_keeps_idempotent_failure() {
    let mut book: AdmissionBook<()> = AdmissionBook::new();
    let lease = book.reserve_at(Some("req-a"), "fp", "a", false, "m", 100, (), 0).unwrap();
    book.finish(&lease.id, false);
    match book.begin_at(Some("req-a"), "fp", 1) {
        Begin::Replay { lease, .. } => assert_eq!(lease.state, AdmissionState::Failed),
        _ => panic!("a failed admission still replays"),
    }
    match book.begin_at(Some("req-b"), "fp", 1) {
        Begin::Route(reserved) => assert!(reserved.is_empty()),
        _ => panic!("a new request is routed"),
    }
    assert_eq!(
        replay_answer(AdmissionState::Failed),
        Err((409, "matching request_id already failed; use a new request_id to retry"))
    );
    assert_eq!(replay_answer(AdmissionState::Reserved), Ok((202, false, "matching dispatch is already in progress")));
}

#[test]
fn admissions_expire_and_legacy_requests_get_serial_ids() {
    let mut book: AdmissionBook<()> = AdmissionBook::new();
    let lease = book.reserve_at(None, "fp", "a", false, "m", 7, (), 0).unwrap();
    assert_eq!(lease.id, "adm-1");
    assert_eq!(lease.request_id, "legacy-1");
    assert_eq!(lease.expires_in_ms, 45_000);
    let second = book.reserve_at(Some("r"), "fp", "a", false, "m", 7, (), 0).unwrap();
    assert_eq!(second.id, "adm-2");
    match book.begin_at(Some("legacy-1"), "fp", 45_000) {
        Begin::Route(reserved) => assert!(reserved.is_empty(), "expired admissions hold nothing"),
        _ => panic!("an expired admission is forgotten"),
    }
    book.finish("adm-404", true);
    let error: AdmissionError<()> = AdmissionError::Capacity("full".into());
    assert_eq!(error.status(), 429);
    assert_eq!(AdmissionError::<()>::Route(()).status(), 409);
    assert!(MAX_ADMISSIONS > 0);
}

#[test]
fn routes_follow_the_table() {
    let segs = |p: &[&str]| p.iter().map(|x| x.to_string()).collect::<Vec<String>>();
    assert_eq!(route_of("GET", &segs(&[]), false, false), Route::Dashboard);
    assert_eq!(route_of("GET", &segs(&["healthz"]), false, false), Route::Healthz);
    assert_eq!(route_of("POST", &segs(&["healthz"]), false, false), Route::NotFound);
    assert_eq!(route_of("POST", &segs(&["v1", "chat", "completions"]), false, false), Route::Gateway);
    assert_eq!(route_of("GET", &segs(&["hub", "nodes"]), false, false), Route::NotHub);
    assert_eq!(route_of("GET", &segs(&["hub", "nodes"]), true, false), Route::Hub(HubRoute::Nodes));
    assert_eq!(
        route_of("DELETE", &segs(&["hub", "nodes", "n1", "servers", "s1"]), true, false),
        Route::Hub(HubRoute::NodeStopServer)
    );
    assert_eq!(
        route_of("GET", &segs(&["api", "engines"]), false, false),
        Route::Api { discovery: true, route: ApiRoute::Engines }
    );
    assert_eq!(
        route_of("GET", &segs(&["api", "knossos", "sessions", "k1"]), false, false),
        Route::Api { discovery: false, route: ApiRoute::SessionGet { at: 3 } }
    );
    assert_eq!(
        route_of("POST", &segs(&["api", "servers"]), false, true),
        Route::Api { discovery: false, route: ApiRoute::ShuttingDown }
    );
    assert_eq!(
        route_of("PUT", &segs(&["api", "drain"]), false, false),
        Route::Api { discovery: false, route: ApiRoute::DrainMethodNotAllowed }
    );
    assert_eq!(
        route_of("DELETE", &segs(&["api", "nope"]), false, false),
        Route::Api { discovery: false, route: ApiRoute::Unknown }
    );
}

#[test]
fn request_bodies_are_read_field_by_field() {
    assert_eq!(drain_deadline(None).unwrap_err(), "drain requires a JSON object");
    assert_eq!(drain_deadline(Some(&Json::Array(vec![]))).unwrap_err(), "drain requires a JSON object");
    assert_eq!(drain_deadline(Some(&obj(vec![]))).unwrap(), 60);
    assert_eq!(drain_deadline(Some(&obj(vec![("deadline_seconds", n(3600))]))).unwrap(), 3600);
    assert!(drain_deadline(Some(&obj(vec![("deadline_seconds", n(0))]))).is_err());
    assert!(drain_deadline(Some(&obj(vec![("deadline_seconds", s("5"))]))).is_err());
    assert_eq!(pairing_label(Some(&obj(vec![("label", s("laptop"))]))).unwrap(), "laptop");
    assert_eq!(pairing_label(None).unwrap_err(), "pairing request needs a string label");
    assert_eq!(heartbeat_node(None).unwrap_err(), "heartbeat body must be JSON");
    assert_eq!(heartbeat_node(Some(&obj(vec![]))).unwrap_err(), "heartbeat needs a node_id");
    assert_eq!(heartbeat_node(Some(&obj(vec![("node_id", s("n1"))]))).unwrap(), "n1");
}

#[test]
fn advertised_chat_body_is_accepted() {
    let body = obj(vec![
        ("model", s("fixture")),
        ("messages", Json::Array(vec![obj(vec![("role", s("user")), ("content", s("hi"))])])),
        ("stream", Json::Bool(true)),
        ("n", n(1)),
    ]);
    assert!(reject_unsupported(GatewayRoute::ChatCompletions, &body).is_none());
}

#[test]
fn native_tools_and_images_and_logprobs_are_rejected() {
    let image = obj(vec![
        ("type", s("image_url")),
        ("image_url", obj(vec![("url", s("x"))])),
    ]);
    for body in [
        obj(vec![("model", s("x")), ("tools", Json::Array(vec![]))]),
        obj(vec![("model", s("x")), ("tool_choice", s("auto"))]),
        obj(vec![("model", s("x")), ("logprobs", Json::Bool(true))]),
        obj(vec![("model", s("x")), ("n", n(2))]),
        obj(vec![
            ("model", s("x")),
            ("messages", Json::Array(vec![obj(vec![("role", s("user")), ("content", Json::Array(vec![image]))])])),
        ]),
        obj(vec![
            ("model", s("x")),
            ("response_format", obj(vec![("type", s("json_schema")), ("json_schema", obj(vec![]))])),
        ]),
    ] {
        let refusal = reject_unsupported(GatewayRoute::ChatCompletions, &body).unwrap();
        assert!(!refusal.param.is_empty());
        assert!(!refusal.message.is_empty());
    }
    assert!(reject_unsupported(
        GatewayRoute::ChatCompletions,
        &obj(vec![("model", s("x")), ("tool_choice", s("none"))])
    )
    .is_none());
}

#[test]
fn completion_token_ceiling_uses_served_context() {
    let body = obj(vec![("max_tokens", n(4097))]);
    assert!(reject_token_ceiling(&body, None).is_none());
    assert!(reject_token_ceiling(&body, Some(4096)).is_some());
    assert!(reject_token_ceiling(&obj(vec![("max_tokens", n(4096))]), Some(4096)).is_none());
    let refusal = reject_token_ceiling(&body, Some(4096)).unwrap();
    assert_eq!(refusal.message, "max_tokens 4097 exceeds the served context window 4096");
}

#[test]
fn gateway_paths_name_their_route() {
    assert_eq!(route_from_path(&["chat", "completions"]), Some(GatewayRoute::ChatCompletions));
    assert_eq!(route_from_path(&["completions"]), Some(GatewayRoute::Completions));
    assert_eq!(route_from_path(&["embeddings"]), Some(GatewayRoute::Embeddings));
    assert_eq!(route_from_path(&["models"]), None);
}

#[test]
fn push_address_rejects_link_local_allows_lan_and_hosts() {
    let v4 = |a, b, c, d| Some(IpLiteral::V4(a, b, c, d));
    assert!(!push_address_ok("https://169.254.169.254:80", v4(169, 254, 169, 254)));
    assert!(!push_address_ok("https://169.254.0.1:9090", v4(169, 254, 0, 1)));
    let link_local = Some(IpLiteral::V6 { first_segment: 0xfe80, unspecified: false, loopback: false });
    assert!(!push_address_ok("https://[fe80::1]:9090", link_local));
    assert!(!push_address_ok("https://0.0.0.0:9090", v4(0, 0, 0, 0)));
    assert!(!push_address_ok("http://10.0.0.2:9090", v4(10, 0, 0, 2)));
    assert!(!push_address_ok("https://user@box.local:9090", None));
    assert!(!push_address_ok("https://box.local:9090/admin", None));
    assert!(push_address_ok("https://10.0.0.2:9090", v4(10, 0, 0, 2)));
    assert!(push_address_ok("https://192.168.1.5:9090", v4(192, 168, 1, 5)));
    assert!(push_address_ok("https://127.0.0.1:9090", v4(127, 0, 0, 1)));
    assert!(push_address_ok("https://box.local:9090", None));
    let doc = Some(IpLiteral::V6 { first_segment: 0x2001, unspecified: false, loopback: false });
    assert!(push_address_ok("https://[2001:db8::1]:9090/", doc));
    assert_eq!(callback_authority("https://box:1//").as_deref(), Some("box:1"));
}

#[test]
fn loopback_is_localhost_or_a_loopback_literal() {
    assert!(is_loopback("LocalHost", None));
    assert!(is_loopback("127.9.9.9", Some(IpLiteral::V4(127, 9, 9, 9))));
    assert!(!is_loopback("10.0.0.1", Some(IpLiteral::V4(10, 0, 0, 1))));
    assert!(is_loopback("::1", Some(IpLiteral::V6 { first_segment: 0, unspecified: false, loopback: true })));
}

#[test]
fn binds_and_postures_need_an_operator_key() {
    let v4 = Some(IpLiteral::V4(0, 0, 0, 0));
    assert_eq!(
        check_bind("0.0.0.0", v4, false, Posture::SelfHost).unwrap_err(),
        "refusing to bind 0.0.0.0 without an operator key (--console-key, or an operator entry in --keys-file). Bind to 127.0.0.1 for local administration."
    );
    assert!(check_bind("0.0.0.0", v4, true, Posture::MultiTenant).is_ok());
    assert!(check_bind("127.0.0.1", Some(IpLiteral::V4(127, 0, 0, 1)), false, Posture::SelfHost).is_ok());
    assert!(check_bind("localhost", None, false, Posture::MultiTenant)
        .unwrap_err()
        .starts_with("multi-tenant posture requires"));
}

fn link() -> LinkRequest {
    LinkRequest {
        hub_url: "https://hub:9090".into(),
        advertise: Some("https://node:9443".into()),
        pairing_code: None,
        has_credential_file: false,
        credential_file_exists: false,
        has_node_key: true,
        has_farm_token: true,
    }
}

#[test]
fn hub_enrollment_needs_https_and_an_identity() {
    assert_eq!(check_link(&link()).unwrap(), "https://node:9443");
    let mut req = link();
    req.advertise = None;
    assert!(check_link(&req).unwrap_err().starts_with("--hub-url requires --advertise"));
    let mut req = link();
    req.has_farm_token = false;
    assert!(check_link(&req).unwrap_err().starts_with("--hub-url requires --pairing-code"));
    let mut req = link();
    req.pairing_code = Some("ab".repeat(32));
    assert!(check_link(&req).unwrap_err().starts_with("--pairing-code requires --mesh-credential-file"));
    req.has_credential_file = true;
    assert!(check_link(&req).is_ok());
    req.credential_file_exists = true;
    assert!(check_link(&req).unwrap_err().starts_with("--pairing-code refuses to overwrite"));
    req.credential_file_exists = false;
    req.has_node_key = false;
    assert!(check_link(&req).unwrap_err().starts_with("paired nodes require"));
    req.pairing_code = Some("zz".repeat(32));
    assert_eq!(
        check_link(&req).unwrap_err(),
        "--pairing-code must be exactly 64 hexadecimal characters"
    );
}

#[test]
fn the_agent_starts_from_the_strongest_identity_it_has() {
    assert_eq!(first_step(Some(Ok(true)), true, true), FirstStep::RunPaired);
    assert_eq!(
        first_step(Some(Err("denied".into())), false, true),
        FirstStep::Stop("cannot load paired credential: denied".into())
    );
    assert_eq!(first_step(Some(Ok(false)), true, true), FirstStep::Pair);
    assert_eq!(
        first_step(None, true, false),
        FirstStep::Stop("pairing code requires a credential file".into())
    );
    assert_eq!(first_step(None, false, false), FirstStep::Register);
    assert_eq!(hub_endpoint("https://hub:9090//", "hub/register"), "https://hub:9090/hub/register");
}

#[test]
fn node_id_is_read_from_the_register_response() {
    let answer = obj(vec![("node_id", s("box-a")), ("known", Json::Bool(true))]);
    assert_eq!(node_id_from_response(Some(&answer)).as_deref(), Some("box-a"));
    assert_eq!(node_id_from_response(Some(&obj(vec![]))), None);
    assert_eq!(node_id_from_response(None), None);
    assert!(heartbeat_known(Some(&answer), false));
    assert!(!heartbeat_known(None, false));
    assert!(legacy_keeps_node(Ok(None)));
    assert!(!legacy_keeps_node(Ok(Some(&obj(vec![("known", Json::Bool(false))])))));
    assert!(!legacy_keeps_node(Err(())));
}

#[test]
fn stored_identities_are_checked_before_use() {
    let good = DeviceCredential { node_id: "node-a".into(), device_credential: "a".repeat(64) };
    assert!(validate_device_credential(&good).is_ok());
    let blank = DeviceCredential { node_id: "  ".into(), device_credential: "a".repeat(64) };
    assert_eq!(
        validate_device_credential(&blank).unwrap_err(),
        "stored device credential has an invalid node_id"
    );
    let short = DeviceCredential { node_id: "n".into(), device_credential: "a".repeat(63) };
    assert_eq!(
        validate_device_credential(&short).unwrap_err(),
        "stored device credential has an invalid secret"
    );
}

#[test]
fn subject_names_include_the_bind_address_but_not_wildcards() {
    let names = subject_names("192.168.4.20", None);
    assert!(names.iter().any(|n| n == "192.168.4.20"));
    assert!(names.iter().any(|n| n == "cameo.local"));
    assert!(!subject_names("0.0.0.0", None).iter().any(|n| n == "0.0.0.0"));
    let with_host = subject_names("localhost", Some("box-7\n"));
    assert_eq!(with_host, vec!["cameo.local", "localhost", "127.0.0.1", "box-7", "box-7.local"]);
    assert_eq!(subject_names("::", Some("bad name")).len(), 3);
}

#[test]
fn fingerprints_are_colon_separated_upper_hex() {
    let f = fingerprint(b"certificate");
    assert_eq!(f.len(), 32 * 3 - 1);
    assert!(f.chars().all(|c| c == ':' || c.is_ascii_digit() || ('A'..='F').contains(&c)));
    assert_eq!(
        fingerprint(b""),
        "E3:B0:C4:42:98:FC:1C:14:9A:FB:F4:C8:99:6F:B9:24:27:AE:41:E4:64:9B:93:4C:A4:95:99:1B:78:52:B8:55"
    );
}

static NULL: Json = Json::Null;

fn at<'a>(v: &'a Json, k: &str) -> &'a Json {
    v.get(k).unwrap_or(&NULL)
}

fn hub_cfg() -> HubConfig {
    HubConfig {
        hub_url: "https://hub.lan:9090/".into(),
        farm_token: Some("farm-secret".into()),
        pairing_code: None,
        credential_file: None,
        node_name: "box-a".into(),
        callback_address: "https://node-a.example:9090".into(),
        node_key: Some("node-key".into()),
    }
}

#[test]
fn registration_body_carries_identity_callback_and_description() {
    let desc = obj(vec![("gpus", Json::Array(vec![obj(vec![("gpu", obj(vec![("model", s("7900 XTX"))]))])]))]);
    let body = registration_json(&hub_cfg(), "0.1.0", Some(desc));
    assert_eq!(at(&body, "name").as_str(), Some("box-a"));
    assert_eq!(at(&body, "address").as_str(), Some("https://node-a.example:9090"));
    assert_eq!(at(&body, "key").as_str(), Some("node-key"));
    let gpus = match at(&body, "node").get("gpus") {
        Some(Json::Array(a)) => a,
        _ => panic!("node.gpus is an array"),
    };
    assert_eq!(at(at(&gpus[0], "gpu"), "model").as_str(), Some("7900 XTX"));
    assert!(at(&body, "cameo_version").as_str().is_some());
}

#[test]
fn registration_body_without_a_description_sends_null_not_missing() {
    let mut cfg = hub_cfg();
    cfg.node_key = None;
    let body = registration_json(&cfg, "0.1.0", None);
    assert!(matches!(body.get("node"), Some(Json::Null)), "a dev host with no detection still enrolls");
    assert!(matches!(body.get("key"), Some(Json::Null)));
}

#[test]
fn heartbeat_body_names_the_node_and_refreshes_the_description() {
    let desc = obj(vec![("endpoints", Json::Array(vec![obj(vec![("id", s("x"))])]))]);
    let body = heartbeat_json("box-a", Some(desc));
    assert_eq!(at(&body, "node_id").as_str(), Some("box-a"));
    let endpoints = match at(&body, "node").get("endpoints") {
        Some(Json::Array(a)) => a,
        _ => panic!("node.endpoints is an array"),
    };
    assert_eq!(at(&endpoints[0], "id").as_str(), Some("x"));
}

#[test]
fn pairing_body_wraps_the_registration_with_the_code() {
    let reg = registration_json(&hub_cfg(), "0.1.0", None);
    let body = pairing_json("123456", reg);
    assert_eq!(at(&body, "code").as_str(), Some("123456"));
    assert_eq!(at(at(&body, "registration"), "name").as_str(), Some("box-a"));
}

#[test]
fn node_load_counts_only_running_endpoints() {
    let endpoints = Json::Array(vec![
        obj(vec![("state", s("running")), ("model", s("qwen")), ("vram_bytes", n(100))]),
        obj(vec![("state", s("exited")), ("model", s("old")), ("vram_bytes", n(50))]),
        obj(vec![("state", s("running")), ("vram_bytes", n(7))]),
        obj(vec![("state", s("running")), ("model", s("tiny"))]),
    ]);
    let load = load_from_endpoints(Some(&endpoints));
    assert_eq!(load.serving, vec!["qwen".to_string(), "tiny".to_string()]);
    assert_eq!(load.used_vram_bytes, 107);
    let empty = load_from_endpoints(None);
    assert!(empty.serving.is_empty());
    assert_eq!(empty.used_vram_bytes, 0);
    let huge = Json::Array(vec![
        obj(vec![("state", s("running")), ("vram_bytes", n(u64::MAX))]),
        obj(vec![("state", s("running")), ("vram_bytes", n(5))]),
    ]);
    assert_eq!(load_from_endpoints(Some(&huge)).used_vram_bytes, u64::MAX);
}

#[test]
fn mesh_facts_take_conservative_defaults() {
    let bare = mesh_facts(&obj(vec![]));
    assert_eq!(bare.health, MeshHealthFact::Ready);
    assert_eq!(bare.protocol_major, 1);
    assert!(!bare.owner_reclaim);
    assert_eq!(bare.inflight, 0);
    assert_eq!(bare.estimated_ttft_ms, 750);
    assert_eq!(bare.trust, TrustFact::LegacyToken);
    let full = mesh_facts(&obj(vec![
        ("mesh", obj(vec![
            ("health", s("draining")),
            ("protocol_major", n(2)),
            ("owner_reclaim", Json::Bool(true)),
            ("inflight", n(3)),
            ("estimated_ttft_ms", n(90)),
        ])),
        ("_cameo_hub", obj(vec![("trust", s("paired"))])),
    ]));
    assert_eq!(full.health, MeshHealthFact::Draining);
    assert_eq!(full.protocol_major, 2);
    assert!(full.owner_reclaim);
    assert_eq!(full.inflight, 3);
    assert_eq!(full.estimated_ttft_ms, 90);
    assert_eq!(full.trust, TrustFact::Paired);
    let odd = mesh_facts(&obj(vec![
        ("mesh", obj(vec![("protocol_major", n(70_000)), ("inflight", n(5_000_000_000))])),
        ("_cameo_hub", obj(vec![("trust", s("untrusted"))])),
    ]));
    assert_eq!(odd.protocol_major, 1);
    assert_eq!(odd.inflight, 0);
    assert_eq!(odd.trust, TrustFact::Untrusted);
}
