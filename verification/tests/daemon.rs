use cameo_core::supervisor::{renewal, Renewal};
use cameo_core::supervisor::{plan_start, EndpointFacts, StartError, StartPlan};
use cameo_core::supervisor::{lease_state, LeaseState};
use cameo_core::supervisor::recovered_expiry;
use cameo_core::net::connect_host;
use cameo_core::startup::check_endpoint_bind;
use cameo_core::crypto::{digest_matches, model_digest_ok};
use cameo_core::gate::operator_view;
use cameo_core::agent::base;
use cameo_core::auth::{keys_from_entries, role_from_name, ApiKey, KeyEntry, KeyRing, Posture, Role};
use cameo_core::curl::{plan_json_request, quote_config};
use cameo_core::metrics::{endpoint_state, render_metrics, EndpointSample, EndpointState};
use cameo_core::net::host_of;
use cameo_core::pairing::{credential_matches, hash_secret, issue_device_credential, PairingStore, PAIRING_TTL_MS};
use cameo_core::rate_limit::RateLimiter;
use cameo_core::startup::{require_https_callback, require_https_hub_url};
use cameo_core::supervisor::{
    decide_admission, endpoint_id, esc, exclude_leased_residents, lease_expired, restart_decision,
    restarts_after_exit, Admission, ResidentVram, Restart, LEASE_TTL_SECS, MAX_RESTARTS,
    STABLE_UPTIME_RESET_MS,
};

fn ring() -> KeyRing {
    KeyRing::new(vec![
        ApiKey {
            key: "op-key".into(),
            role: Role::Operator,
            label: "admin".into(),
        },
        ApiKey {
            key: "friend".into(),
            role: Role::Consumer,
            label: "bob".into(),
        },
    ])
}

#[test]
fn operator_key_gets_operator_and_consumer_access() {
    let r = ring();
    assert!(r.is_operator(Some("op-key")));
    assert!(r.is_consumer_or_better(Some("op-key")));
}

#[test]
fn consumer_key_gets_inference_but_not_operator() {
    let r = ring();
    assert!(!r.is_operator(Some("friend")));
    assert!(r.is_consumer_or_better(Some("friend")));
}

#[test]
fn unknown_or_missing_key_gets_nothing() {
    let r = ring();
    assert!(!r.is_operator(Some("nope")));
    assert!(!r.is_consumer_or_better(Some("nope")));
    assert!(!r.is_operator(None));
    assert_eq!(r.role_of(None), None);
}

#[test]
fn requires_flags_reflect_configured_roles() {
    let r = ring();
    assert!(r.requires_operator());
    assert!(r.requires_consumer());
    let ops = KeyRing::new(vec![ApiKey {
        key: "x".into(),
        role: Role::Operator,
        label: String::new(),
    }]);
    assert!(ops.requires_operator());
    assert!(!ops.requires_consumer());
    let empty = KeyRing::default();
    assert!(!empty.requires_operator());
    assert!(!empty.requires_consumer());
}

#[test]
fn posture_parses_its_aliases_and_gates_the_local_harness() {
    assert_eq!(Posture::parse("self-host"), Some(Posture::SelfHost));
    assert_eq!(Posture::parse("enterprise"), Some(Posture::MultiTenant));
    assert_eq!(Posture::parse("nonsense"), None);
    assert!(Posture::SelfHost.allows_local_harness());
    assert!(!Posture::MultiTenant.allows_local_harness());
}

#[test]
fn ct_eq_matches_only_identical_strings() {
    assert!(KeyRing::ct_eq("abc", "abc"));
    assert!(!KeyRing::ct_eq("abc", "abd"));
    assert!(!KeyRing::ct_eq("abc", "abcd"));
}

#[test]
fn role_lookup_names_the_matching_role() {
    let r = ring();
    assert_eq!(r.role_of(Some("op-key")), Some(Role::Operator));
    assert_eq!(r.role_of(Some("friend")), Some(Role::Consumer));
    assert_eq!(r.operator_key(), Some("op-key"));
    assert_eq!(Posture::parse("MULTI-TENANT"), Some(Posture::MultiTenant));
}

#[test]
fn credentials_and_body_never_enter_process_arguments() {
    let plan = plan_json_request(
        "https://hub.example/hub/pair",
        "POST",
        Some("device-secret"),
        Some(br#"{"pairing":"single-use-secret"}"#),
        10,
    )
    .unwrap();
    let args = plan.args.join(" ");
    assert_eq!(args, "--config -");
    assert!(!args.contains("device-secret"));
    assert!(!args.contains("single-use-secret"));
    assert!(plan.stdin_config.contains("device-secret"));
}

#[test]
fn config_values_cannot_inject_new_options() {
    let plan = plan_json_request(
        "https://node.example/api",
        "POST",
        Some("secret\nurl = \"https://attacker.example\""),
        Some(b"{\"line\":\"one\\ntwo\"}"),
        10,
    )
    .unwrap();
    assert!(!plan.stdin_config.contains("secret\nurl"));
    assert!(plan.stdin_config.contains("secret\\nurl"));
    assert_eq!(
        plan.stdin_config
            .lines()
            .filter(|line| line.starts_with("url = "))
            .count(),
        1
    );
}

#[test]
fn curl_plan_refuses_bad_methods_bodies_and_controls() {
    assert_eq!(
        plan_json_request("https://x", "post", None, None, 10).err().unwrap(),
        "curl request method must contain only uppercase ASCII letters"
    );
    assert_eq!(
        plan_json_request("https://x", "POST", None, Some(&[0xff, 0xfe]), 10).err().unwrap(),
        "outbound JSON request body is not valid UTF-8"
    );
    assert_eq!(
        plan_json_request("https://x\u{1}", "POST", None, None, 10).err().unwrap(),
        "curl request contains an unsupported control character"
    );
    let plan = plan_json_request("https://x", "GET", None, None, 7).unwrap();
    assert_eq!(
        plan.stdin_config,
        "silent\nshow-error\nfail\nmax-time = 7\nproto = \"=https\"\ntlsv1.2\nrequest = \"GET\"\nurl = \"https://x\"\n"
    );
    assert_eq!(quote_config("a\"b\\c\u{b}").unwrap(), "\"a\\\"b\\\\c\\v\"");
}

#[test]
fn host_of_splits_v4_v6_and_bare() {
    assert_eq!(host_of("10.0.0.2:9090"), "10.0.0.2");
    assert_eq!(host_of("[fe80::1]:9090"), "fe80::1");
    assert_eq!(host_of("box.local:9090"), "box.local");
    assert_eq!(host_of("box.local"), "box.local");
}

#[test]
fn base_strips_only_trailing_slashes() {
    assert_eq!(base("https://hub.lan:9090/"), "https://hub.lan:9090");
    assert_eq!(base("https://hub.lan:9090"), "https://hub.lan:9090");
}

#[test]
fn hub_urls_must_use_https() {
    assert!(require_https_hub_url("https://hub.example:9090").is_ok());
    assert!(require_https_hub_url("http://hub.lan:9090").is_err());
    assert!(require_https_hub_url("hub.lan:9090").is_err());
    assert!(require_https_callback("https://node.example:9443").is_ok());
    assert!(require_https_callback("10.0.0.2:9090").is_err());
}

#[test]
fn insecure_urls_are_named_in_the_refusal() {
    assert_eq!(
        require_https_hub_url("http://hub.lan:9090").unwrap_err(),
        "refusing insecure hub URL 'http://hub.lan:9090': --hub-url carries privileged credentials and must use https://"
    );
    assert_eq!(
        require_https_callback("10.0.0.2:9090").unwrap_err(),
        "refusing insecure callback URL '10.0.0.2:9090': --advertise must use https://"
    );
}

#[test]
fn wrong_and_expired_codes_have_the_same_public_error() {
    let mut store = PairingStore::new();
    let now = 1_000u64;
    let offer = store.begin_at("node", now).unwrap();
    let wrong = store.consume_at(&"0".repeat(64), now).unwrap_err();
    let expired = store
        .consume_at(&offer.code, now + PAIRING_TTL_MS + 1_000)
        .unwrap_err();
    assert_eq!(wrong, expired);
}

#[test]
fn pairing_code_is_random_single_use_and_digest_backed() {
    let mut store = PairingStore::new();
    let first = store.begin("office laptop").unwrap();
    let second = store.begin("render box").unwrap();
    assert_eq!(first.code.len(), 64);
    assert_ne!(first.code, second.code);
    assert_eq!(store.consume(&first.code).unwrap(), "office laptop");
    assert!(store.consume(&first.code).is_err());
    assert_eq!(store.pending_count(), 1);
}

#[test]
fn device_credentials_are_random_and_match_only_their_digest() {
    let credential = issue_device_credential().unwrap();
    let digest = hash_secret(&credential);
    assert!(credential_matches(&digest, &credential));
    assert!(!credential_matches(&digest, &"f".repeat(64)));
}

#[test]
fn pairing_labels_and_expiry_are_enforced() {
    let mut store = PairingStore::new();
    assert!(store.begin_at("   ", 0).is_err());
    assert!(store.begin_at("bad\u{7}", 0).is_err());
    let offer = store.begin_at("  laptop  ", 0).unwrap();
    assert_eq!(offer.expires_in_seconds, 600);
    assert_eq!(store.consume_at(&offer.code.to_uppercase(), PAIRING_TTL_MS - 1).unwrap(), "laptop");
}

#[test]
fn limits_each_identity_and_resets_the_window() {
    let mut limiter = RateLimiter::new();
    let start = 5_000u64;
    let minute = 60_000u64;
    assert!(limiter.allow_at("a", 2, minute, start));
    assert!(limiter.allow_at("a", 2, minute, start));
    assert!(!limiter.allow_at("a", 2, minute, start));
    assert!(limiter.allow_at("b", 2, minute, start));
    assert!(limiter.allow_at("a", 2, minute, start + minute));
}

fn resident(id: &str, vram: u64, last_used: u64) -> ResidentVram {
    ResidentVram {
        id: id.into(),
        vram_bytes: vram,
        last_used,
    }
}

#[test]
fn admit_when_it_fits_without_eviction() {
    let r = vec![resident("a", 4, 10)];
    assert_eq!(decide_admission(16, 8, &r), Admission::Fits);
}

#[test]
fn refuse_when_larger_than_the_whole_gpu() {
    let r = vec![];
    assert_eq!(decide_admission(16, 20, &r), Admission::Refuse);
}

#[test]
fn evict_least_recently_used_until_it_fits() {
    // Older means a smaller last-use stamp.
    let r = vec![resident("a", 6, 0), resident("b", 4, 50), resident("c", 2, 90)];
    assert_eq!(decide_admission(16, 8, &r), Admission::Evict(vec!["a".into()]));
}

#[test]
fn evict_spills_to_the_next_lru_when_one_is_not_enough() {
    let r = vec![resident("a", 6, 0), resident("b", 4, 50), resident("c", 2, 90)];
    assert_eq!(
        decide_admission(16, 14, &r),
        Admission::Evict(vec!["a".into(), "b".into()])
    );
}

#[test]
fn leased_residents_are_excluded_from_lru_eviction() {
    let mut r = vec![resident("leased", 8, 0), resident("ordinary", 4, 50)];
    exclude_leased_residents(&mut r, &["leased".to_string()]);
    assert_eq!(decide_admission(8, 8, &r), Admission::Evict(vec!["ordinary".into()]));
}

#[test]
fn id_slugs_paths_and_appends_port() {
    assert_eq!(endpoint_id("tinyllama", 8080), "tinyllama-8080");
    assert_eq!(
        endpoint_id("/models/My Models/llama 7b.gguf", 9000),
        "models-my-models-llama-7b-gguf-9000"
    );
    assert_eq!(endpoint_id("", 1), "model-1");
}

#[test]
fn label_values_are_escaped() {
    assert_eq!(esc(r#"a"b\c"#), r#"a\"b\\c"#);
    assert_eq!(esc("line\nbreak"), "line\\nbreak");
    assert_eq!(esc("plain"), "plain");
}

#[test]
fn a_stable_run_earns_back_the_restart_budget() {
    assert_eq!(restarts_after_exit(3, 5_000), 3);
    assert_eq!(restarts_after_exit(3, STABLE_UPTIME_RESET_MS), 0);
    assert_eq!(restarts_after_exit(MAX_RESTARTS, 3_600_000), 0);
}

#[test]
fn restart_decision_covers_the_states() {
    assert_eq!(restart_decision(true, false, None, 0), Restart::NotApplicable);
    assert_eq!(restart_decision(false, true, Some(10_000), 0), Restart::NotApplicable);
    assert_eq!(restart_decision(false, false, None, 0), Restart::NotApplicable);
    assert_eq!(restart_decision(false, false, Some(100), 0), Restart::Backoff);
    assert_eq!(restart_decision(false, false, Some(5_000), 2), Restart::Attempt);
    assert_eq!(
        restart_decision(false, false, Some(5_000), MAX_RESTARTS),
        Restart::Exhausted
    );
}

#[test]
fn wall_clock_and_monotonic_deadlines_both_expire_a_lease() {
    assert!(lease_expired(100, 100, Some(0)));
    assert!(lease_expired(u64::MAX, 0, Some(LEASE_TTL_SECS)));
    assert!(!lease_expired(u64::MAX, 0, Some(LEASE_TTL_SECS - 1)));
    assert!(!lease_expired(101, 100, None));
}

fn sample(id: &str, model: &str, port: u16) -> EndpointSample {
    EndpointSample {
        id: id.into(),
        model: model.into(),
        port,
        backend: "vulkan".into(),
        state: endpoint_state(false, true, false),
        running: true,
        ready: false,
        restarts: 0,
        uptime_secs: 12,
        vram_bytes: 4_096,
    }
}

#[test]
fn metrics_emit_prometheus_families_for_each_endpoint() {
    let m = render_metrics(&[sample("tinyllama-8080", "tinyllama", 8080)]);
    assert_eq!(m.matches("# TYPE cameo_endpoint_up gauge").count(), 1);
    assert!(m.contains("cameo_up 1"));
    assert!(m.contains("cameo_endpoints 1"));
    assert!(m.contains(r#"cameo_endpoint_up{id="tinyllama-8080",model="tinyllama",port="8080""#));
    assert!(m.contains(r#"cameo_endpoint_restarts_total{id="tinyllama-8080"} 0"#));
}

#[test]
fn metrics_samples_carry_state_flags_and_escaped_labels() {
    let mut a = sample("a\"b", "m", 1);
    a.ready = true;
    a.state = endpoint_state(false, true, true);
    a.restarts = 3;
    let b = sample("b", "m2", 2);
    let m = render_metrics(&[a, b]);
    assert!(m.contains("cameo_endpoints 2\n"));
    assert!(m.contains(r#"cameo_endpoint_up{id="a\"b",model="m",port="1",backend="vulkan",state="running"} 1"#));
    assert!(m.contains(r#"cameo_endpoint_ready{id="a\"b",model="m",port="1",backend="vulkan",state="running"} 1"#));
    assert!(m.contains(r#"cameo_endpoint_ready{id="b",model="m2",port="2",backend="vulkan",state="starting"} 0"#));
    assert!(m.contains(r#"cameo_endpoint_restarts_total{id="a\"b"} 3"#));
    assert!(m.contains("cameo_endpoint_uptime_seconds{id=\"b\"} 12\n"));
    assert!(m.contains("cameo_endpoint_vram_bytes{id=\"b\"} 4096\n"));
    assert_eq!(m.matches("# HELP").count(), 7);
    let up = m.find("cameo_endpoint_up{id=\"b\"").unwrap();
    let restarts_header = m.find("# HELP cameo_endpoint_restarts_total").unwrap();
    assert!(up < restarts_header, "samples follow their own family header");
}

#[test]
fn endpoint_state_prefers_failure_then_readiness() {
    assert_eq!(endpoint_state(true, true, true), EndpointState::Failed);
    assert_eq!(endpoint_state(false, true, true), EndpointState::Running);
    assert_eq!(endpoint_state(false, true, false), EndpointState::Starting);
    assert_eq!(endpoint_state(false, false, true), EndpointState::Exited);
    assert_eq!(EndpointState::Exited.label(), "exited");
    assert_eq!(EndpointState::Failed.label(), "failed");
}

fn entry(key: &str, role: &str, label: &str) -> KeyEntry {
    KeyEntry { key: key.into(), role: role.into(), label: label.into() }
}

#[test]
fn keys_file_roles_are_case_insensitive_with_aliases() {
    assert_eq!(role_from_name("Operator"), Some(Role::Operator));
    assert_eq!(role_from_name("ADMIN"), Some(Role::Operator));
    assert_eq!(role_from_name("user"), Some(Role::Consumer));
    assert_eq!(role_from_name("Inference"), Some(Role::Consumer));
    assert_eq!(role_from_name("root"), None);
    let keys = keys_from_entries(&[entry("k1", "operator", "ops"), entry("k2", "consumer", "bob")], "keys.json").unwrap();
    assert_eq!(keys.len(), 2);
    assert_eq!(keys[0].key, "k1");
    assert_eq!(keys[0].role, Role::Operator);
    assert_eq!(keys[1].label, "bob");
    assert_eq!(keys[1].role, Role::Consumer);
}

#[test]
fn keys_file_refuses_unknown_roles_and_blank_keys() {
    assert_eq!(
        keys_from_entries(&[entry("k1", "operator", ""), entry("k2", "Root", "")], "/etc/cameo/keys.json").err().unwrap(),
        "unknown role 'root' in /etc/cameo/keys.json"
    );
    assert_eq!(
        keys_from_entries(&[entry("  ", "consumer", "")], "keys.json").err().unwrap(),
        "empty key in keys.json"
    );
}

#[test]
fn lease_state_orders_expiry_recovery_then_readiness() {
    assert_eq!(lease_state(true, true, Some(true)), LeaseState::Expired);
    assert_eq!(lease_state(false, true, Some(true)), LeaseState::RecoveryRequired);
    assert_eq!(lease_state(false, false, Some(true)), LeaseState::Active);
    assert_eq!(lease_state(false, false, Some(false)), LeaseState::Unavailable);
    assert_eq!(lease_state(false, false, None), LeaseState::Unavailable);
    assert_eq!(LeaseState::RecoveryRequired.label(), "recovery_required");
}

#[test]
fn recovered_leases_never_outlive_one_lifetime() {
    assert_eq!(recovered_expiry(0, 1_000), 1_000 + LEASE_TTL_SECS);
    assert_eq!(recovered_expiry(1_010, 1_000), 1_010);
    assert_eq!(recovered_expiry(9_999_999, 1_000), 1_000 + LEASE_TTL_SECS);
    assert_eq!(recovered_expiry(5, u64::MAX - 1), 5);
    assert_eq!(recovered_expiry(0, u64::MAX - 1), u64::MAX);
}

#[test]
fn wildcard_binds_are_dialled_on_loopback() {
    assert_eq!(connect_host("0.0.0.0"), "127.0.0.1");
    assert_eq!(connect_host("::"), "::1");
    assert_eq!(connect_host("10.0.0.2"), "10.0.0.2");
}

#[test]
fn endpoints_beyond_loopback_need_a_serve_key() {
    assert!(check_endpoint_bind("127.0.0.1", Some(cameo_core::net::IpLiteral::V4(127, 0, 0, 1)), false).is_ok());
    assert!(check_endpoint_bind("localhost", None, false).is_ok());
    assert!(check_endpoint_bind("0.0.0.0", Some(cameo_core::net::IpLiteral::V4(0, 0, 0, 0)), true).is_ok());
    assert_eq!(
        check_endpoint_bind("0.0.0.0", Some(cameo_core::net::IpLiteral::V4(0, 0, 0, 0)), false).unwrap_err(),
        "refusing to serve on 0.0.0.0 without an endpoint api key. Set serve_api_key in the daemon config, or bind the endpoint to 127.0.0.1."
    );
}

#[test]
fn model_digests_compare_ignoring_hex_case() {
    assert!(digest_matches("ABCDEF01", "abcdef01"));
    assert!(!digest_matches("abcdef01", "abcdef02"));
    assert!(model_digest_ok("abcd", None, None));
    assert!(model_digest_ok("abcd", Some("ABCD"), Some("abcd")));
    assert!(!model_digest_ok("abcd", Some("abce"), None));
    assert!(!model_digest_ok("abcd", None, Some("ffff")));
}

#[test]
fn capacity_facts_are_for_operators_or_keyless_boxes() {
    let keyless = KeyRing::new(vec![]);
    assert!(operator_view(false, Posture::MultiTenant, &keyless, None));
    let ring = KeyRing::new(vec![
        ApiKey { key: "op".into(), role: Role::Operator, label: "o".into() },
        ApiKey { key: "use".into(), role: Role::Consumer, label: "c".into() },
    ]);
    assert!(operator_view(false, Posture::SelfHost, &ring, Some("op")));
    assert!(!operator_view(false, Posture::SelfHost, &ring, Some("use")));
    assert!(!operator_view(false, Posture::SelfHost, &ring, None));
    assert!(operator_view(true, Posture::SelfHost, &ring, None));
    assert!(!operator_view(true, Posture::MultiTenant, &ring, None));
}

fn facts(id: &str, port: u16, running: bool, vram_bytes: u64, last_used: u64, leased: bool) -> EndpointFacts {
    EndpointFacts { id: id.into(), port, running, vram_bytes, last_used, leased }
}

#[test]
fn a_failed_endpoint_does_not_block_relaunch_on_its_port() {
    // The first start failed, so it is not running: starting the same model
    // and port again is allowed, not refused as a port in use.
    let known = vec![facts("tinyllama-8080", 8080, false, 0, 0, false)];
    assert_eq!(plan_start(false, "tinyllama-8080", 8080, &known, 0, 0, false), StartPlan::Proceed(vec![]));
}

#[test]
fn a_failed_holder_does_not_block_a_different_model_on_its_port() {
    // The port check only guards against a live holder.
    let known = vec![facts("tinyllama-8080", 8080, false, 0, 0, false)];
    assert_eq!(plan_start(false, "qwen-8080", 8080, &known, 0, 0, false), StartPlan::Proceed(vec![]));
}

#[test]
fn a_live_endpoint_holds_its_id_and_its_port() {
    let known = vec![facts("tinyllama-8080", 8080, true, 0, 0, false)];
    assert_eq!(
        plan_start(false, "tinyllama-8080", 8080, &known, 0, 0, false),
        StartPlan::Refused(StartError::PortInUse("tinyllama-8080".into()))
    );
    assert_eq!(
        plan_start(false, "qwen-8080", 8080, &known, 0, 0, false),
        StartPlan::Refused(StartError::PortInUse("tinyllama-8080".into()))
    );
    assert_eq!(plan_start(false, "qwen-9090", 9090, &known, 0, 0, false), StartPlan::Proceed(vec![]));
    assert_eq!(
        plan_start(true, "qwen-9090", 9090, &known, 0, 0, false),
        StartPlan::Refused(StartError::ShuttingDown)
    );
}

#[test]
fn start_admission_evicts_the_least_recently_used_only_when_allowed() {
    let known = vec![
        facts("a-8001", 8001, true, 10, 5, false),
        facts("b-8002", 8002, true, 6, 1, false),
    ];
    assert_eq!(plan_start(false, "c-8003", 8003, &known, 4, 20, false), StartPlan::Proceed(vec![]));
    assert_eq!(
        plan_start(false, "c-8003", 8003, &known, 8, 20, false),
        StartPlan::Refused(StartError::EvictionRequired(vec!["b-8002".into()]))
    );
    assert_eq!(plan_start(false, "c-8003", 8003, &known, 8, 20, true), StartPlan::Proceed(vec!["b-8002".into()]));
    assert_eq!(
        plan_start(false, "c-8003", 8003, &known, 15, 20, true),
        StartPlan::Proceed(vec!["b-8002".into(), "a-8001".into()])
    );
    assert_eq!(
        plan_start(false, "c-8003", 8003, &known, 25, 20, true),
        StartPlan::WontFit { need: 25, budget: 20 }
    );
}

#[test]
fn leased_endpoints_are_never_evicted_and_are_named_in_refusals() {
    let known = vec![
        facts("a-8001", 8001, true, 10, 1, true),
        facts("b-8002", 8002, true, 6, 5, false),
    ];
    assert_eq!(plan_start(false, "c-8003", 8003, &known, 16, 20, true), StartPlan::Proceed(vec!["b-8002".into()]));
    assert_eq!(
        plan_start(false, "c-8003", 8003, &known, 25, 20, true),
        StartPlan::LeasedCapacity { need: 25, protected: 10 }
    );
}

#[test]
fn heartbeat_cannot_resurrect_expired_ownership() {
    // An expired lease is dropped by the heartbeat, never extended.
    assert_eq!(renewal(false, true, 1_000), Renewal::Dropped);
    assert_eq!(renewal(false, false, 1_000), Renewal::ExtendedTo(1_000 + LEASE_TTL_SECS));
    assert_eq!(renewal(false, false, u64::MAX - 1), Renewal::ExtendedTo(u64::MAX));
    // A lease restored from disk waits for its session's explicit claim.
    assert_eq!(renewal(true, true, 1_000), Renewal::Unchanged);
    assert_eq!(renewal(true, false, 1_000), Renewal::Unchanged);
}
