use zen_metrics::hetzner::api::{
    create_server, create_server_body, delete_server, label_url, list_server_types,
    list_servers_by_label, load_token_from_file_or_env, server_types_url, server_url, servers_url,
    urlencode, HetznerLocation, HetznerServer, HetznerServerStatus, Reply,
};
use zen_metrics::hetzner::cloud_init::{build_user_data, chunks_manifest, sh_squote, WorkerBootstrap};
use zen_metrics::hetzner::env::EnvVars;
use zen_metrics::hetzner::sweep::{
    chunk_count, chunks_key, cred_prefixes, first_queue_paths, launch_env, launch_preview,
    preflight_uris, preview_env_block, queue_prefix, sweep_name, teardown_verdict, LaunchPlan,
    HETZNER_PROJECT_REPLICA_QUOTA,
};
use zen_metrics::json::Json;

#[test]
fn status_round_trip() {
    for (s, expect) in [
        ("initializing", HetznerServerStatus::Initializing),
        ("starting", HetznerServerStatus::Starting),
        ("running", HetznerServerStatus::Running),
        ("stopping", HetznerServerStatus::Stopping),
        ("off", HetznerServerStatus::Off),
        ("deleting", HetznerServerStatus::Deleting),
        ("garbage", HetznerServerStatus::Unknown),
    ] {
        assert_eq!(HetznerServerStatus::from_str(s), expect, "for {s:?}");
    }
}

#[test]
fn status_to_orchestrator_state() {
    assert_eq!(
        HetznerServerStatus::Initializing.as_orchestrator_state(),
        "allocating"
    );
    assert_eq!(
        HetznerServerStatus::Running.as_orchestrator_state(),
        "running"
    );
    assert_eq!(HetznerServerStatus::Off.as_orchestrator_state(), "stopping");
    assert_eq!(
        HetznerServerStatus::Unknown.as_orchestrator_state(),
        "unknown"
    );
}

#[test]
fn urlencode_preserves_label_selector_equals() {
    assert_eq!(urlencode("group=sweep-1"), "group=sweep-1");
    assert_eq!(urlencode("a b"), "a%20b");
}

#[test]
fn urlencode_spells_out_other_bytes() {
    assert_eq!(urlencode("é/&"), "%C3%A9%2F%26");
    assert_eq!(urlencode("~_.-"), "~_.-");
    assert_eq!(urlencode("%20"), "%2520");
}

#[test]
fn location_slugs() {
    assert_eq!(HetznerLocation::Fsn1.as_str(), "fsn1");
    assert_eq!(HetznerLocation::Ash.as_str(), "ash");
}

fn s(t: &str) -> Json {
    Json::Str(t.to_string())
}

fn obj(m: Vec<(&str, Json)>) -> Json {
    Json::Object(m.into_iter().map(|(k, v)| (k.to_string(), v)).collect())
}

#[test]
fn server_ipv4_extracted_from_public_net() {
    let server = HetznerServer {
        id: 1,
        name: "n".to_string(),
        status: "running".to_string(),
        labels: Vec::new(),
        public_net: obj(vec![
            (
                "ipv4",
                obj(vec![("ip", s("203.0.113.10")), ("dns_ptr", s("x"))]),
            ),
            ("ipv6", obj(vec![("ip", s("2001:db8::1"))])),
        ]),
    };
    assert_eq!(server.ipv4().as_deref(), Some("203.0.113.10"));
    assert_eq!(server.parsed_status(), HetznerServerStatus::Running);
    let bare = HetznerServer {
        public_net: Json::Null,
        ..server
    };
    assert_eq!(bare.ipv4(), None);
}

fn ok(body: &str) -> Reply {
    Reply {
        success: true,
        not_found: false,
        status: "200 OK".to_string(),
        body: body.to_string(),
    }
}

fn refused(status: &str, body: &str) -> Reply {
    Reply {
        success: false,
        not_found: status.starts_with("404"),
        status: status.to_string(),
        body: body.to_string(),
    }
}

#[test]
fn urls() {
    assert_eq!(
        server_types_url(),
        "https://api.hetzner.cloud/v1/server_types?per_page=50"
    );
    assert_eq!(servers_url(), "https://api.hetzner.cloud/v1/servers");
    assert_eq!(
        label_url("group=a b"),
        "https://api.hetzner.cloud/v1/servers?label_selector=group=a%20b&per_page=50"
    );
    assert_eq!(server_url(42), "https://api.hetzner.cloud/v1/servers/42");
}

#[test]
fn server_types_are_read() {
    let body = r#"{"server_types":[{"id":22,"name":"cpx11","cpu_type":"shared","architecture":"x86","cores":2,"memory":2.0,"disk":40}]}"#;
    let types = list_server_types(&ok(body)).unwrap();
    assert_eq!(types.len(), 1);
    assert_eq!(types[0].id, 22);
    assert_eq!(types[0].name, "cpx11");
    assert_eq!(types[0].cores, 2);
    assert_eq!(types[0].memory, "2.0");
    assert_eq!(types[0].disk, 40);
    let e = list_server_types(&refused("401 Unauthorized", "bad token")).unwrap_err();
    assert!(e.contains("401 Unauthorized") && e.contains("bad token"), "{e}");
    assert!(list_server_types(&ok("{}")).is_err());
    assert!(list_server_types(&ok("not json")).is_err());
}

#[test]
fn servers_are_read() {
    let one = r#"{"id":7,"name":"w","status":"off","labels":{"group":"g"},"public_net":{"ipv4":{"ip":"1.2.3.4"}}}"#;
    let listed = list_servers_by_label("group=g", &ok(&format!("{{\"servers\":[{one}]}}"))).unwrap();
    assert_eq!(listed.len(), 1);
    assert_eq!(listed[0].id, 7);
    assert_eq!(
        listed[0].labels,
        vec![("group".to_string(), "g".to_string())]
    );
    assert_eq!(listed[0].ipv4().as_deref(), Some("1.2.3.4"));
    assert!(list_servers_by_label("group=g", &refused("500 Oops", "")).is_err());
    let made = create_server("w", &ok(&format!("{{\"server\":{one}}}"))).unwrap();
    assert_eq!(made.name, "w");
    assert_eq!(made.parsed_status(), HetznerServerStatus::Off);
    assert!(create_server("w", &ok("{}")).is_err());
    assert!(create_server("w", &refused("422 Unprocessable", "quota")).is_err());
}

#[test]
fn a_server_that_is_gone_counts_as_deleted() {
    assert!(delete_server(5, &ok("")).is_ok());
    assert!(delete_server(5, &refused("404 Not Found", "")).is_ok());
    let e = delete_server(5, &refused("500 Oops", "later")).unwrap_err();
    assert!(e.contains("DELETE /servers/5"), "{e}");
}

#[test]
fn server_request_body() {
    let body = create_server_body(
        "w-0",
        "cpx41",
        "ubuntu-24.04",
        "fsn1",
        "#!/bin/bash",
        &vec!["key".to_string()],
        &vec![("group".to_string(), "g".to_string())],
    );
    match body {
        Json::Object(m) => {
            let names: Vec<&str> = m.iter().map(|p| p.0.as_str()).collect();
            assert_eq!(
                names,
                vec![
                    "image",
                    "labels",
                    "location",
                    "name",
                    "server_type",
                    "ssh_keys",
                    "start_after_create",
                    "user_data"
                ]
            );
        }
        other => panic!("expected an object, got {other:?}"),
    }
}

#[test]
fn token_comes_from_the_variable_else_from_the_file() {
    let file = "# comment\n  api_token=\nother=1\n api_token= abc \napi_token=later\n";
    assert_eq!(
        load_token_from_file_or_env(Some(" xyz "), file, "f").unwrap(),
        "xyz"
    );
    assert_eq!(
        load_token_from_file_or_env(Some("  "), file, "f").unwrap(),
        "abc"
    );
    assert_eq!(load_token_from_file_or_env(None, file, "f").unwrap(), "abc");
    assert_eq!(
        load_token_from_file_or_env(None, "#api_token=x\n", "f").unwrap_err(),
        "no `api_token=...` line found in f (or set $HETZNER_API_TOKEN)"
    );
}

// ── The boot script ────────────────────────────────────────────────────

fn sample_spec() -> WorkerBootstrap {
    let mut extra = EnvVars::new();
    extra.insert("METRICS", "ssim2-gpu");
    WorkerBootstrap {
        image: "ghcr.io/imazen/zen-metrics-sweep-hetzner:v1".to_string(),
        sweep_id: "hetzner-iter1-2026-05-28".to_string(),
        r2_account_id: "abc123".to_string(),
        r2_bucket: "zen-tuning-ephemeral".to_string(),
        r2_access_key_id: "AKIA-temp".to_string(),
        r2_secret_access_key: "secret-temp".to_string(),
        r2_session_token: "session-token-xyz".to_string(),
        registry_username: None,
        registry_password: None,
        registry_server: None,
        extra_env: extra,
        chunks_queue_prefix: "runs/hetzner-iter1-2026-05-28/queue/".to_string(),
        ssh_authorized_pubkey: None,
    }
}

#[test]
fn user_data_includes_critical_envs() {
    let s = build_user_data(&sample_spec());
    assert!(s.contains("SWEEP_RUN_ID=hetzner-iter1-2026-05-28"));
    assert!(s.contains("WORKER_BACKEND=hetzner"));
    assert!(s.contains("R2_ACCOUNT_ID=abc123"));
    assert!(s.contains("AWS_SESSION_TOKEN=session-token-xyz"));
    assert!(s.contains("CHUNKS_QUEUE_PREFIX=runs/hetzner-iter1-2026-05-28/queue/"));
    assert!(s.contains("METRICS=ssim2-gpu"));
    assert!(s.contains("apt-get install -y -qq docker.io"));
    assert!(s.contains("docker run -d"));
    assert!(s.contains("--backend hetzner"));
}

#[test]
fn registry_login_skipped_when_no_creds() {
    let s = build_user_data(&sample_spec());
    assert!(s.contains("(No registry login"));
    assert!(!s.contains("docker login"));
}

#[test]
fn registry_login_runs_when_creds_present() {
    let mut spec = sample_spec();
    spec.registry_username = Some("user".to_string());
    spec.registry_password = Some("pat-token".to_string());
    let s = build_user_data(&spec);
    assert!(s.contains("docker login 'ghcr.io' -u 'user' --password-stdin"));
    assert!(s.contains("printf '%s' 'pat-token'"));
}

#[test]
fn registry_login_needs_user_and_password() {
    let mut spec = sample_spec();
    spec.registry_username = Some("user".to_string());
    assert_eq!(build_user_data(&spec), build_user_data(&sample_spec()));
}

#[test]
fn ssh_pubkey_injected_into_authorized_keys_when_present() {
    let mut spec = sample_spec();
    spec.ssh_authorized_pubkey = Some(
        "ssh-ed25519 AAAAC3NzaC1lZDI1NTE5AAAAIKxxxxxxxxxxxxxxxxxxxxxxxxxxxxxxxxxxxxxxxxxxxxx zen-fleet"
            .to_string(),
    );
    let s = build_user_data(&spec);
    assert!(s.contains("mkdir -p /root/.ssh"));
    assert!(s.contains(">> /root/.ssh/authorized_keys"));
    assert!(s.contains("ssh-ed25519 AAAAC3NzaC1lZDI1NTE5"));
    assert!(s.contains("chmod 700 /root/.ssh"));
    assert!(s.contains("chmod 600 /root/.ssh/authorized_keys"));
}

#[test]
fn ssh_pubkey_skipped_when_none() {
    let s = build_user_data(&sample_spec());
    assert!(!s.contains("/root/.ssh/authorized_keys"));
}

#[test]
fn ssh_pubkey_with_embedded_quote_is_rejected() {
    let mut spec = sample_spec();
    spec.ssh_authorized_pubkey = Some("ssh-ed25519 AAAAC3xxx 'comment'".to_string());
    let s = build_user_data(&spec);
    assert!(!s.contains("/root/.ssh/authorized_keys"));
    assert_eq!(s, build_user_data(&sample_spec()));
}

#[test]
fn sh_squote_escapes_single_quotes() {
    assert_eq!(sh_squote("foo"), "'foo'");
    assert_eq!(sh_squote("a'b"), "'a'\\''b'");
    assert_eq!(sh_squote(""), "''");
}

#[test]
fn env_vars_are_sorted_and_keep_the_last_value() {
    let mut e = EnvVars::new();
    e.insert("B", "1");
    e.insert("A", "2");
    e.insert("B", "3");
    assert_eq!(
        e.pairs,
        vec![
            ("A".to_string(), "2".to_string()),
            ("B".to_string(), "3".to_string())
        ]
    );
}

// ── The launcher ───────────────────────────────────────────────────────

#[test]
fn names_and_places_of_a_sweep() {
    assert_eq!(HETZNER_PROJECT_REPLICA_QUOTA, 10);
    assert_eq!(sweep_name(Some("x"), "20260528"), "x");
    assert_eq!(sweep_name(None, "20260528"), "hetzner-20260528");
    assert_eq!(chunk_count(Some(4), 9), 4);
    assert_eq!(chunk_count(None, 9), 27);
    assert_eq!(chunks_key(None, "s"), "runs/s/chunks.jsonl");
    assert_eq!(chunks_key(Some("k"), "s"), "k");
    assert_eq!(queue_prefix("s"), "runs/s/queue/");
    assert!(chunks_manifest("b", "s").contains("runs/s/chunks.jsonl"));
    assert_eq!(
        first_queue_paths("b", "s", 5),
        vec![
            "s3://b/runs/s/queue/scaleup-000.json",
            "s3://b/runs/s/queue/scaleup-001.json",
            "s3://b/runs/s/queue/scaleup-002.json"
        ]
    );
    assert_eq!(first_queue_paths("b", "s", 1).len(), 1);
    assert!(!preview_env_block("s", "a", "b").pairs.is_empty());
    assert!(launch_env("s", "a", "b", "k")
        .pairs
        .iter()
        .any(|p| p.1.contains('s')));
}

#[test]
fn credentials_reach_the_run_and_the_inputs_once() {
    let p = cred_prefixes("s", "b", "s3://b/in/a.parquet", "s3://b/in/src/");
    assert_eq!(p[0], "runs/s/");
    assert_eq!(p.iter().filter(|x| x.as_str() == "in/").count(), 1);
    let other = cred_prefixes("s", "b", "s3://c/in/a.parquet", "s3://c/src/");
    assert_eq!(other, vec!["runs/s/"]);
}

#[test]
fn preflight_and_teardown() {
    assert_eq!(
        preflight_uris(
            "s3://b/p.parquet",
            "s3://b/src//",
            &vec!["a.png".to_string()]
        ),
        vec!["s3://b/p.parquet", "s3://b/src/a.png"]
    );
    assert!(teardown_verdict(true, false, "g").is_ok());
    assert!(teardown_verdict(false, true, "g").is_ok());
    assert_eq!(
        teardown_verdict(false, false, "g").unwrap_err(),
        "teardown of Hetzner server group g did not succeed"
    );
}

#[test]
fn preview_is_an_object() {
    let p = launch_preview(&LaunchPlan {
        group: "g".to_string(),
        sweep: "s".to_string(),
        bucket: "b".to_string(),
        server_type: "cpx41".to_string(),
        location: "fsn1".to_string(),
        replicas_requested: 12,
        replicas_provisioned: 10,
        chunks: 36,
        cells_per_chunk: 5,
    });
    assert!(matches!(p, Json::Object(_)));
}
