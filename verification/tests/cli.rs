use cameo_core::credits::{validate, validate_text, Roster, Tester};
use cameo_core::facts::{artifact_from_installed, bounded_fact, clean_fact, clean_gfx_target, cpu_model_from, InstalledBuild};
use cameo_core::fleet::{
    engines_lists_model, network_class, server_id_for_model, stop_plan, summarize, GpuLine, NetworkClass,
    NodeLine,
};
use cameo_core::json::Json;
use cameo_core::knossos::{asset_for, join, plan, validate_asset, validate_lock, Asset, Lock};
use cameo_core::report::{
    clean_user_text, confirmed, outcomes, quote_curl_config, report_id, submission_config,
    validate_credit, validate_endpoint, Evidence, Outcome,
};
use cameo_core::style::{accent, banner, bold, dim, paint, tier};

const DEFAULT_ENDPOINT: &str = "https://cameoconstruct.xyz/api/hardware-reports";

fn s(text: &str) -> Json {
    Json::String(text.to_string())
}

fn obj(members: Vec<(&str, Json)>) -> Json {
    Json::Object(members.into_iter().map(|(k, v)| (k.to_string(), v)).collect())
}

#[test]
fn roster_rejects_terminal_controls() {
    let roster = Roster {
        schema: "cameo-testers/v1".into(),
        consent: "consented".into(),
        release_id: None,
        cutoff_at: None,
        testers: vec![Tester {
            name: "bad\u{1b}[31m".into(),
            date: None,
            machine: None,
            gpu: None,
            proved: None,
        }],
    };
    assert!(validate(&roster).is_err());
}

#[test]
fn roster_checks_schema_and_each_field_in_order() {
    let mut roster = Roster {
        schema: "cameo-testers/v2".into(),
        consent: "consented".into(),
        release_id: None,
        cutoff_at: None,
        testers: vec![],
    };
    assert_eq!(
        validate(&roster).unwrap_err(),
        "unsupported credits roster schema: cameo-testers/v2"
    );
    roster.schema = "cameo-testers/v1".into();
    assert!(validate(&roster).is_ok());
    roster.testers.push(Tester {
        name: "Ada".into(),
        date: Some("2025-01-01".into()),
        machine: Some("x".repeat(161)),
        gpu: None,
        proved: None,
    });
    assert_eq!(
        validate(&roster).unwrap_err(),
        "credits machine is empty, oversized, or contains controls"
    );
    assert!(validate_text("   ", 10, "consent").is_err());
    assert!(validate_text("ok", 2, "consent").is_ok());
    assert!(validate_text("too long", 2, "consent").is_err());
}

#[test]
fn endpoint_is_https_without_userinfo_or_fragments() {
    assert!(validate_endpoint(DEFAULT_ENDPOINT).is_ok());
    assert!(validate_endpoint("http://example.test/report").is_err());
    assert!(validate_endpoint("https://user@example.test/report").is_err());
    assert!(validate_endpoint("https://example.test/report#secret").is_err());
}

#[test]
fn endpoint_refusals_say_why() {
    assert_eq!(
        validate_endpoint("ftp://x").unwrap_err(),
        "report submission endpoint must use https://"
    );
    assert_eq!(
        validate_endpoint("https:///path").unwrap_err(),
        "report submission endpoint is malformed"
    );
    assert!(validate_endpoint("https://example.test/a b").is_err());
    assert!(validate_endpoint("https://example.test\\x").is_err());
}

#[test]
fn user_text_is_bounded_and_rejects_terminal_escapes() {
    assert_eq!(
        clean_user_text(Some(" hello "), 8, "note").unwrap().as_deref(),
        Some("hello")
    );
    assert!(clean_user_text(Some("012345678"), 8, "note").is_err());
    assert!(clean_user_text(Some("hello\u{1b}[31m"), 80, "note").is_err());
}

#[test]
fn user_text_messages_and_allowed_controls() {
    assert_eq!(clean_user_text(None, 8, "note").unwrap(), None);
    assert_eq!(clean_user_text(Some("   "), 8, "note").unwrap(), None);
    assert_eq!(
        clean_user_text(Some("012345678"), 8, "note").unwrap_err(),
        "note exceeds 8 characters"
    );
    assert_eq!(
        clean_user_text(Some("a\u{7}b"), 8, "note").unwrap_err(),
        "note contains unsupported control characters"
    );
    assert_eq!(
        clean_user_text(Some("line\nnext\tcol"), 80, "note").unwrap().as_deref(),
        Some("line\nnext\tcol")
    );
}

#[test]
fn credit_needs_both_consent_and_a_name() {
    assert_eq!(
        validate_credit(true, None, false).unwrap_err(),
        "--credit requires --credit-name; omit both to submit anonymously"
    );
    assert_eq!(
        validate_credit(false, Some("ada"), true).unwrap_err(),
        "--credit-name requires the separate --credit consent flag"
    );
    assert!(validate_credit(true, Some("ada"), true).is_ok());
    assert!(validate_credit(false, None, false).is_ok());
}

#[test]
fn curl_values_cannot_inject_configuration() {
    let quoted = quote_curl_config("ok\nurl = \"https://attacker.test\"").unwrap();
    assert!(!quoted.contains("ok\nurl"));
    assert!(quoted.contains("ok\\nurl"));
}

#[test]
fn submission_quoting_refuses_vertical_tabs_and_non_utf8() {
    assert_eq!(
        quote_curl_config("a\u{b}b").unwrap_err(),
        "submission contains an unsupported control character"
    );
    assert_eq!(
        submission_config(DEFAULT_ENDPOINT, &[0xc3]).unwrap_err(),
        "submission is not UTF-8"
    );
    let config = submission_config("https://x/r", b"{\"a\":1}").unwrap();
    assert!(config.starts_with("silent\nshow-error\nfail\nconnect-timeout = 5\n"));
    assert!(config.ends_with("url = \"https://x/r\"\ndata-binary = \"{\\\"a\\\":1}\"\n"));
}

#[test]
fn outcomes_follow_what_was_observed_and_asserted() {
    let o = outcomes(None, true, true, true, Outcome::NotTested);
    assert_eq!(o.boot.result, Outcome::Passed);
    assert_eq!(o.boot.evidence_source, Evidence::Observed);
    assert_eq!(o.gpu_detection.result, Outcome::Passed);
    assert_eq!(o.inference.evidence_source, Evidence::Unavailable);
    let o = outcomes(Some(Outcome::Failed), false, false, true, Outcome::Degraded);
    assert_eq!(o.boot.result, Outcome::Failed);
    assert_eq!(o.boot.evidence_source, Evidence::TesterAsserted);
    assert_eq!(o.gpu_detection.result, Outcome::Failed);
    assert_eq!(o.gpu_detection.evidence_source, Evidence::Unavailable);
    assert_eq!(o.inference.evidence_source, Evidence::TesterAsserted);
    assert_eq!(Outcome::NotTested.label(), "not-tested");
    assert_eq!(Evidence::TesterAsserted.label(), "tester_asserted");
}

#[test]
fn report_ids_are_random_hex_and_confirmation_needs_the_digest() {
    let a = report_id().unwrap();
    let b = report_id().unwrap();
    assert!(a.starts_with("chr_"));
    assert_eq!(a.len(), 4 + 24);
    assert_ne!(a, b);
    let digest = "0123456789abcdef0123";
    assert!(confirmed(digest, "  SUBMIT 0123456789ab\n"));
    assert!(!confirmed(digest, "SUBMIT 0123456789aB"));
}

#[test]
fn build_facts_reject_controls_and_excessive_values() {
    assert_eq!(clean_fact(Some("  beta.4  ".into()), 16).as_deref(), Some("beta.4"));
    assert!(clean_fact(Some("bad\nvalue".into()), 32).is_none());
    assert!(clean_fact(Some("x".repeat(33)), 32).is_none());
}

#[test]
fn facts_are_bounded_or_unknown_and_gfx_targets_are_strict() {
    assert_eq!(bounded_fact("  Radeon  ".into(), 3), "Rad");
    assert_eq!(bounded_fact("a\u{1b}b".into(), 10), "unknown");
    assert_eq!(bounded_fact("   ".into(), 10), "unknown");
    assert_eq!(clean_gfx_target(Some(" gfx1100 ".into())).as_deref(), Some("gfx1100"));
    assert!(clean_gfx_target(Some("gfx".into())).is_none());
    assert!(clean_gfx_target(Some("gfx11X0".into())).is_none());
    assert!(clean_gfx_target(None).is_none());
    let cpuinfo = "processor\t: 0\r\nvendor_id\t: AuthenticAMD\nmodel name\t: AMD Ryzen 9 7950X\nflags\t: x\n";
    assert_eq!(cpu_model_from(cpuinfo).as_deref(), Some("AMD Ryzen 9 7950X"));
    assert_eq!(cpu_model_from("Hardware : BCM2835\n").as_deref(), Some("BCM2835"));
    assert!(cpu_model_from("model name : \nflags: y").is_none());
}

#[test]
fn installed_build_facts_are_cleaned_with_a_version_fallback() {
    let facts = artifact_from_installed(
        InstalledBuild {
            cameo_version: " \u{7} ".into(),
            iso_build_id: Some(" 2025.01 ".into()),
            edition: Some("x".repeat(33)),
            source_revision: None,
            source_dirty: Some(true),
            knossos_revision: None,
            arch_snapshot: None,
            rocm_cli_version: None,
        },
        "0.9.0".into(),
    );
    assert_eq!(facts.cameo_version, "0.9.0");
    assert_eq!(facts.iso_build_id.as_deref(), Some("2025.01"));
    assert!(facts.edition.is_none());
    assert_eq!(facts.source_dirty, Some(true));
}

fn asset(url: &str, sha256: &str, binary: &str) -> Asset {
    Asset {
        url: url.into(),
        sha256: sha256.into(),
        size: 1,
        binary: binary.into(),
    }
}

#[test]
fn lock_assets_must_be_github_https_with_a_safe_binary_path() {
    let bad_url = asset("http://example.com/x.zip", &"a".repeat(64), "x/knossos");
    assert!(validate_asset("k", &bad_url).is_err());
    let escaping = asset(
        "https://github.com/o/r/releases/download/v1/x.zip",
        &"a".repeat(64),
        "../knossos",
    );
    assert!(validate_asset("k", &escaping).is_err());
}

#[test]
fn binary_paths_may_only_hold_normal_components() {
    let url = "https://github.com/o/r/releases/download/v1/x.zip";
    let sha = "a".repeat(64);
    assert!(validate_asset("k", &asset(url, &sha, "dir/./knossos")).is_ok());
    assert!(validate_asset("k", &asset(url, &sha, "dir..x/knossos")).is_ok());
    assert!(validate_asset("k", &asset(url, &sha, "/usr/bin/knossos")).is_err());
    assert!(validate_asset("k", &asset(url, &sha, "./knossos")).is_err());
    assert!(validate_asset("k", &asset(url, &sha, "a/../../knossos")).is_err());
    assert_eq!(
        validate_asset("k", &asset(url, "xyz", "knossos")).unwrap_err(),
        "lock asset k has an invalid sha256"
    );
}

fn test_lock() -> Lock {
    Lock {
        schema: "cameo-knossos-release-lock/v1".into(),
        version: "0.2.0-beta.2".into(),
        tag: "v0.2.0-beta.2".into(),
        repository: "sadlowskik/Knossos-Harness".into(),
        assets: vec![
            (
                "linux_x86_64".into(),
                asset(
                    "https://github.com/sadlowskik/Knossos-Harness/releases/download/v0.2.0-beta.2/knossos-0.2.0-beta.2-linux-x86_64.zip",
                    &"b".repeat(64),
                    "knossos-0.2.0-beta.2-linux-x86_64/knossos",
                ),
            ),
            (
                "windows_x86_64".into(),
                asset(
                    "https://github.com/sadlowskik/Knossos-Harness/releases/download/v0.2.0-beta.2/knossos-windows.zip",
                    &"c".repeat(64),
                    "knossos.exe",
                ),
            ),
        ],
    }
}

#[test]
fn the_plan_derives_every_path_from_the_lock_and_the_directory() {
    let lock = test_lock();
    assert!(validate_lock(&lock).is_ok());
    let dir = "/var/lib/cameo/knossos";
    let plan = plan(&lock, "linux_x86_64", dir, Some("/usr/local/bin/knossos")).unwrap();
    assert_eq!(
        plan.archive,
        join(&join(dir, "downloads"), "knossos-0.2.0-beta.2-linux-x86_64.zip")
    );
    assert_eq!(plan.archive, "/var/lib/cameo/knossos/downloads/knossos-0.2.0-beta.2-linux-x86_64.zip");
    assert_eq!(plan.extract_dir, join(&join(dir, "versions"), &lock.version));
    assert!(plan.binary.starts_with(&plan.extract_dir));
    assert_eq!(plan.link.as_deref(), Some("/usr/local/bin/knossos"));
}

#[test]
fn an_unknown_platform_is_refused_with_the_available_keys() {
    let lock = test_lock();
    let error = asset_for(&lock, "plan9_mips").unwrap_err();
    assert!(
        error.contains("plan9_mips") && error.contains("linux_x86_64"),
        "{error}"
    );
    assert_eq!(
        error,
        "no Knossos 0.2.0-beta.2 release asset for this platform (plan9_mips); available: linux_x86_64, windows_x86_64"
    );
    assert_eq!(asset_for(&lock, "windows_x86_64").unwrap(), 1);
}

#[test]
fn path_joins_follow_unix_rules() {
    assert_eq!(join("/a", "b"), "/a/b");
    assert_eq!(join("/a/", "b"), "/a/b");
    assert_eq!(join("", "b"), "b");
    assert_eq!(join("/a", "/b"), "/b");
    let mut lock = test_lock();
    lock.schema = "other".into();
    assert_eq!(
        validate_lock(&lock).unwrap_err(),
        "unsupported Knossos release lock schema other"
    );
}

#[test]
fn engines_body_membership() {
    let body = obj(vec![("models", Json::Array(vec![s("qwen2.5-7b"), s("tinyllama")]))]);
    assert!(engines_lists_model(&body, "qwen2.5-7b"));
    assert!(!engines_lists_model(&body, "not-loaded"));
    assert!(!engines_lists_model(&obj(vec![]), "qwen2.5-7b"));
}

#[test]
fn picks_the_server_id_for_a_model() {
    let body = obj(vec![(
        "servers",
        Json::Array(vec![
            obj(vec![("id", s("qwen2.5-7b-8080")), ("model", s("qwen2.5-7b"))]),
            obj(vec![("id", s("tiny-8081")), ("model", s("tinyllama"))]),
        ]),
    )]);
    assert_eq!(server_id_for_model(&body, "tinyllama").as_deref(), Some("tiny-8081"));
    assert_eq!(server_id_for_model(&body, "absent"), None);
    assert_eq!(server_id_for_model(&obj(vec![("servers", Json::Array(vec![]))]), "x"), None);
    assert_eq!(
        stop_plan(&body, "tinyllama", "box:9090").unwrap(),
        ("/api/servers/tiny-8081".to_string(), "stopped tiny-8081 (tinyllama) on box:9090".to_string())
    );
    assert_eq!(
        stop_plan(&body, "absent", "box:9090").unwrap_err(),
        "no running server for model absent on box:9090"
    );
}

#[test]
fn network_class_defaults_to_consumer() {
    assert_eq!(network_class("ib"), NetworkClass::Infiniband);
    assert_eq!(network_class("fast"), NetworkClass::FastEthernet);
    assert_eq!(network_class("whatever"), NetworkClass::Consumer);
    assert_eq!(network_class("InfiniBand"), NetworkClass::Infiniband);
}

#[test]
fn styles_wrap_only_when_colour_is_on() {
    assert_eq!(paint("1", "x", false), "x");
    assert_eq!(paint("1", "x", true), "\u{1b}[1mx\u{1b}[0m");
    assert_eq!(accent("a", true), "\u{1b}[38;5;209ma\u{1b}[0m");
    assert_eq!(bold("b", true), "\u{1b}[1mb\u{1b}[0m");
    assert_eq!(dim("c", false), "c");
    assert_eq!(tier(2, "Tier 2", true), "\u{1b}[1;33mTier 2\u{1b}[0m");
    assert!(banner(false).ends_with("\n  any AMD card → a working LLM box\n"));
    assert!(banner(true).contains("\u{1b}[2many AMD card"));
}

fn box_a() -> NodeLine {
    NodeLine {
        name: "box-a".into(),
        address: "box-a:9090".into(),
        gpus: vec![GpuLine { model: "Radeon RX 7900 XTX".into(), tier: 1 }],
    }
}

#[test]
fn summarize_lists_each_node_and_the_network() {
    let s = summarize(&[box_a()], NetworkClass::Consumer, false);
    assert!(s.contains("box-a @ box-a:9090"));
    assert!(s.contains("Tier 1"));
    assert!(s.contains("bandwidth-bound"));
}

#[test]
fn summary_numbers_nodes_and_marks_cpu_only_ones() {
    let cpu = NodeLine { name: "cpu".into(), address: "10.0.0.3:9090".into(), gpus: vec![] };
    let mut two = box_a();
    two.gpus.push(GpuLine { model: "RX 6800".into(), tier: 2 });
    let s = summarize(&[two, cpu], NetworkClass::Infiniband, true);
    assert_eq!(
        s,
        "node 0: box-a @ box-a:9090\n  Radeon RX 7900 XTX (Tier 1), RX 6800 (Tier 2)\n\
         node 1: cpu @ 10.0.0.3:9090\n  CPU-only\n\
         network: Infiniband (distributed execution viable)"
    );
}
