use zen_metrics::metrics::dispatch::{
    allow_small_images, build_params, check_same_size, disabled_msg, metric_scorer,
    resolve_default_params, run_metric, set_allow_small_images, Attempt, Build, GpuMetric,
    GpuParams, MetricFlags, RuntimeWalk, Scorer, Scores,
};
use zen_metrics::metrics::external::{
    check_ready, is_real_literal, parse_score, read_answer, score_request, server_command,
    split_command, ImageSize,
};
use zen_metrics::metrics::kind::{
    auto_order, runtime_label, GpuRuntime, MetricKind, Runtimes, ZensimFeatureRegime,
};
use zen_metrics::orchestrator_runner::{
    bench_on_start_from_flag, cli_metric_to_column_name, metric_orchestrator_eligible,
    orchestrator_cell_error, orchestrator_score_one, parse_cpu_features,
    rekey_orchestrator_columns, runtime_opts_from_cli, BenchOnStart,
};

#[test]
fn cvvdp_column_name_is_versioned_when_feature_on() {
    let cols = MetricKind::Cvvdp.column_names(FULL);
    assert_eq!(cols.len(), 1);
    assert!(
        cols[0].starts_with("cvvdp_imazen_v"),
        "expected cvvdp column to start with cvvdp_imazen_v, got {:?}",
        cols[0]
    );
    let tagged = Build {
        cvvdp_tag: "cvvdp_other_v1",
        ..FULL
    };
    assert_eq!(MetricKind::Cvvdp.column_names(tagged), vec!["cvvdp_other_v1"]);
    let off = Build {
        gpu_cvvdp: false,
        ..FULL
    };
    let cols = MetricKind::Cvvdp.column_names(off);
    assert_eq!(cols.len(), 1);
    assert_eq!(cols[0], "cvvdp");
}

#[test]
fn iwssim_column_follows_the_build() {
    assert_eq!(
        MetricKind::Iwssim.column_names(FULL),
        vec!["iwssim_imazen_v0_0_1"]
    );
    assert_eq!(MetricKind::IwssimGpu.column_names(FULL), vec!["iwssim_gpu"]);
    let off = Build {
        gpu_iwssim: false,
        ..FULL
    };
    assert_eq!(MetricKind::Iwssim.column_names(off), vec!["iwssim"]);
}

#[test]
fn columns_of_the_orchestrator_match_those_of_the_metric() {
    let cases: Vec<(MetricKind, Vec<&str>)> = vec![
        (MetricKind::Ssim2, vec!["ssim2_gpu"]),
        (MetricKind::Ssim2Gpu, vec!["ssim2_gpu"]),
        (MetricKind::Dssim, vec!["dssim_gpu"]),
        (MetricKind::ZensimGpu, vec!["zensim_gpu"]),
        (
            MetricKind::Butteraugli,
            vec!["butteraugli_max_gpu", "butteraugli_pnorm3_gpu"],
        ),
        (MetricKind::IwssimGpu, vec!["iwssim_imazen_v0_0_1"]),
        (MetricKind::Iwssim, vec!["iwssim_imazen_v0_0_1"]),
        (MetricKind::Cvvdp, vec!["cvvdp_imazen_v0_0_1"]),
    ];
    for (kind, given) in cases {
        let columns: Vec<(String, u32)> = given.iter().map(|c| (c.to_string(), 1)).collect();
        let renamed = rekey_orchestrator_columns(kind, FULL.iwssim_tag, &columns);
        let names: Vec<&str> = renamed.iter().map(|(c, _)| c.as_str()).collect();
        assert_eq!(names, kind.column_names(FULL));
    }
}

#[test]
fn cvvdp_cli_flag_name_is_stable() {
    assert_eq!(MetricKind::Cvvdp.name(), "cvvdp");
}

#[test]
fn names_and_backends() {
    for m in MetricKind::all() {
        assert_eq!(MetricKind::from_name(m.name()), Some(m));
        assert_eq!(m.backend(), if m.requires_gpu() { "GPU" } else { "CPU" });
        assert_eq!(m.column_names(FULL).len(), m.column_count());
    }
    assert_eq!(MetricKind::all().len(), 11);
    assert_eq!(MetricKind::from_name("psnr"), None);
    assert_eq!(
        MetricKind::Butteraugli.column_names(FULL),
        vec!["butteraugli_max", "butteraugli_pnorm3"]
    );
}

const ALL: Runtimes = Runtimes {
    cuda: true,
    wgpu: true,
    hip: true,
    cpu: true,
};

#[test]
fn only_built_runtimes_are_tried() {
    let some = Runtimes {
        cuda: false,
        wgpu: true,
        hip: false,
        cpu: true,
    };
    assert_eq!(auto_order(some), vec![GpuRuntime::Wgpu, GpuRuntime::Cpu]);
    let none = Runtimes {
        cuda: false,
        wgpu: false,
        hip: false,
        cpu: false,
    };
    assert!(auto_order(none).is_empty());
    let walk = RuntimeWalk::start("ssim2", GpuRuntime::Auto, none);
    assert_eq!(walk.current(), None);
    assert_eq!(
        walk.exhausted(),
        "ssim2: no runtime succeeded; tried [none]"
    );
    let walk = RuntimeWalk::start("ssim2", GpuRuntime::Cuda, none);
    assert_eq!(walk.current(), Some(GpuRuntime::Cuda));
}

#[test]
fn runtimes_are_tried_in_order() {
    assert_eq!(
        auto_order(ALL),
        vec![
            GpuRuntime::Cuda,
            GpuRuntime::Wgpu,
            GpuRuntime::Hip,
            GpuRuntime::Cpu
        ]
    );
    assert_eq!(runtime_label(GpuRuntime::Wgpu), "wgpu");
    assert_eq!(ZensimFeatureRegime::Extended.total_features(), 300);
    assert_eq!(ZensimFeatureRegime::Basic.total_features(), 228);
    assert_eq!(ZensimFeatureRegime::WithIw.total_features(), 372);
    let mut walk = RuntimeWalk::start("ssim2", GpuRuntime::Auto, ALL);
    let mut seen = Vec::new();
    while let Some(rt) = walk.current() {
        seen.push(rt);
        let a: Attempt<u32> = match seen.len() {
            1 => Attempt::Failed("no driver".to_string()),
            2 => Attempt::NotFinite("NaN".to_string()),
            3 => Attempt::WrongCount {
                expected: 300,
                got: 228,
            },
            _ => Attempt::Failed("last".to_string()),
        };
        assert!(walk.report(a).is_none());
    }
    assert_eq!(seen, auto_order(ALL));
    let m = walk.exhausted();
    assert!(m.contains("no driver"), "{m}");
    assert!(m.contains("non-finite score NaN"), "{m}");
    assert!(m.contains("expected 300 features, got 228"), "{m}");
    assert!(walk.last_failure().contains("last"));
    let mut walk = RuntimeWalk::start("ssim2", GpuRuntime::Hip, ALL);
    assert_eq!(walk.current(), Some(GpuRuntime::Hip));
    assert_eq!(walk.report(Attempt::Scored(7u32)), Some(7));
}

const FULL: Build = Build {
    cpu_metrics: true,
    gpu_ssim2: true,
    gpu_butteraugli: true,
    gpu_dssim: true,
    gpu_iwssim: true,
    gpu_zensim: true,
    gpu_cvvdp: true,
    cvvdp_tag: "cvvdp_imazen_v0_0_1",
    iwssim_tag: "iwssim_imazen_v0_0_1",
};

#[test]
fn metrics_go_to_their_scorers() {
    assert_eq!(
        metric_scorer(MetricKind::Ssim2, FULL),
        Ok(Scorer::CpuSsim2)
    );
    assert_eq!(
        metric_scorer(MetricKind::Iwssim, FULL),
        Ok(Scorer::Gpu(GpuMetric::Iwssim))
    );
    let none = Build {
        cpu_metrics: false,
        ..FULL
    };
    assert_eq!(
        metric_scorer(MetricKind::Dssim, none).unwrap_err(),
        disabled_msg("dssim", "cpu-metrics")
    );
    assert_eq!(
        disabled_msg("dssim", "cpu-metrics"),
        "metric 'dssim' is disabled (rebuild with `--features cpu-metrics`)"
    );
    assert_eq!(
        run_metric(MetricKind::Butteraugli, FULL, Ok(Scores::Two(1.5, 2.5))).unwrap(),
        vec![("butteraugli_max", 1.5), ("butteraugli_pnorm3", 2.5)]
    );
    assert_eq!(
        run_metric(MetricKind::Zensim, FULL, Ok(Scores::One(9.0))).unwrap(),
        vec![("zensim", 9.0)]
    );
    assert_eq!(
        run_metric(MetricKind::Cvvdp, FULL, Ok(Scores::One(9.5))).unwrap(),
        vec![("cvvdp_imazen_v0_0_1", 9.5)]
    );
    let failed: Result<Scores<f64>, String> = Err("bad".to_string());
    assert_eq!(
        run_metric(MetricKind::Zensim, FULL, failed).unwrap_err(),
        "bad"
    );
}

#[test]
fn sizes_must_agree() {
    assert!(check_same_size("t", 4, 4, 4, 4).is_ok());
    assert_eq!(
        check_same_size("t", 4, 4, 5, 4).unwrap_err(),
        "t: reference (4×4) and distorted (5×4) differ in size"
    );
}

#[test]
fn small_images_are_a_choice() {
    let mut f = MetricFlags::default();
    assert!(!allow_small_images(&f));
    assert_eq!(
        resolve_default_params(GpuMetric::Iwssim, &f),
        GpuParams::Default
    );
    set_allow_small_images(&mut f);
    assert!(allow_small_images(&f));
    assert_eq!(
        resolve_default_params(GpuMetric::Iwssim, &f),
        GpuParams::SmallImages
    );
    assert_eq!(
        resolve_default_params(GpuMetric::Ssim2, &f),
        GpuParams::Default
    );
    assert_eq!(
        build_params(
            GpuMetric::Zensim,
            Some(ZensimFeatureRegime::WithIw),
            &f
        ),
        GpuParams::Features(ZensimFeatureRegime::WithIw)
    );
}

// ── External servers ───────────────────────────────────────────────────

fn number(s: Result<String, String>) -> f64 {
    s.unwrap().parse().unwrap()
}

#[test]
fn parses_score_line() {
    assert_eq!(number(parse_score("{\"score\":0.9123}\n")), 0.9123);
    assert_eq!(number(parse_score("{\"score\": -1.25e-3}\n")), -1.25e-3);
    assert_eq!(number(parse_score("{\"score\":7,\"extra\":1}\n")), 7.0);
}

#[test]
fn surfaces_error_field() {
    let err = parse_score("{\"error\":\"boom\"}\n").unwrap_err();
    assert!(err.contains("boom"));
    // An error comes before a score.
    assert!(parse_score("{\"score\":1,\"error\":\"boom\"}").is_err());
}

#[test]
fn bad_answers_are_errors() {
    assert_eq!(
        parse_score("hello\n").unwrap_err(),
        "external metric: unparseable response: hello"
    );
    assert_eq!(
        parse_score("{\"score\" 1}").unwrap_err(),
        "external metric: missing ':' after score"
    );
    assert_eq!(
        parse_score("{\"score\":1.2.3}").unwrap_err(),
        "external metric: bad score literal `1.2.3`: invalid float literal"
    );
    assert_eq!(
        parse_score("{\"score\":x}").unwrap_err(),
        "external metric: bad score literal ``: cannot parse float from empty string"
    );
    assert_eq!(
        read_answer(None).unwrap_err(),
        "external metric server closed stdout mid-request"
    );
    assert_eq!(read_answer(Some("{\"score\":2}")).unwrap(), "2");
}

#[test]
fn number_literals_are_those_of_std() {
    for s in [
        "1", "-1", "+1", "1.", ".5", "1.5e3", "1e+3", "1E-3", "", ".", "-", "1e", "1e+", "e3",
        "1.2.3", "--1", "1.5.", "+.5", "00", "-.e1",
    ] {
        assert_eq!(is_real_literal(s), s.parse::<f64>().is_ok(), "{s}");
    }
}

#[test]
fn split_command_handles_quotes() {
    assert_eq!(
        split_command(r#"python -m foo "arg with space" tail"#),
        vec!["python", "-m", "foo", "arg with space", "tail"]
    );
}

#[test]
fn server_commands_and_requests() {
    assert_eq!(server_command("V", Some("a  b")).unwrap(), vec!["a", "b"]);
    assert_eq!(
        server_command("V", Some("  ")).unwrap_err(),
        "empty external metric command"
    );
    assert!(server_command("V", None)
        .unwrap_err()
        .starts_with("V env var not set"));
    assert!(check_ready(Some("{\"ready\":true}\n")).is_ok());
    assert_eq!(
        check_ready(Some(" no \n")).unwrap_err(),
        "external metric server did not announce ready (got: no)"
    );
    assert!(check_ready(None).is_err());
    let a = ImageSize {
        width: 2,
        height: 3,
        bytes: 18,
    };
    assert_eq!(score_request(a, a).unwrap(), "{\"w\":2,\"h\":3}\n");
    assert_eq!(
        score_request(a, ImageSize { width: 3, ..a }).unwrap_err(),
        "external metric: dimension mismatch"
    );
    assert_eq!(
        score_request(a, ImageSize { bytes: 17, ..a }).unwrap_err(),
        "external metric: expected 18 bytes per side, got ref=18 dist=17"
    );
    let huge = ImageSize {
        width: u32::MAX,
        height: u32::MAX,
        bytes: 0,
    };
    assert_eq!(
        score_request(huge, huge).unwrap_err(),
        "external metric: width*height*3 overflow"
    );
}

// ── The orchestrator ───────────────────────────────────────────────────

#[test]
fn parse_cpu_features_basic() {
    assert_eq!(parse_cpu_features("").unwrap(), Vec::<&str>::new());
    assert_eq!(parse_cpu_features("all").unwrap(), vec!["all"]);
    assert_eq!(
        parse_cpu_features("ssim2, dssim ,cvvdp").unwrap(),
        vec!["ssim2", "dssim", "cvvdp"]
    );
    assert!(parse_cpu_features("unknown").is_err());
}

#[test]
fn bench_on_start_parses_yes_no_auto() {
    assert!(matches!(
        bench_on_start_from_flag(None).unwrap(),
        BenchOnStart::Auto
    ));
    assert!(matches!(
        bench_on_start_from_flag(Some("yes")).unwrap(),
        BenchOnStart::Yes
    ));
    assert!(matches!(
        bench_on_start_from_flag(Some("no")).unwrap(),
        BenchOnStart::No
    ));
    assert!(matches!(
        bench_on_start_from_flag(Some("auto")).unwrap(),
        BenchOnStart::Auto
    ));
    assert!(bench_on_start_from_flag(Some("maybe")).is_err());
}

#[test]
fn runtime_opts_follow_the_flags() {
    let o = runtime_opts_from_cli(Some("/c".to_string()), BenchOnStart::Yes, "butteraugli").unwrap();
    assert_eq!(o.cache_dir.as_deref(), Some("/c"));
    assert_eq!(o.bench_on_start, Some(true));
    assert_eq!(o.cpu_features, vec!["butter"]);
    assert_eq!(
        runtime_opts_from_cli(None, BenchOnStart::Auto, "ssim2,Nope").unwrap_err(),
        "unknown --cpu-features token 'nope'; valid: cvvdp,ssim2,dssim,butter,zensim,all"
    );
}

fn cols(v: &[(&str, f64)]) -> Vec<(String, f64)> {
    v.iter().map(|(k, x)| (k.to_string(), *x)).collect()
}

#[test]
fn rekey_orchestrator_columns_phase_7_5_renames_cpu_variants() {
    let versioned = "iwssim_v0_0_1";
    let ssim2 = cols(&[("ssim2_gpu", 95.5)]);
    assert_eq!(
        rekey_orchestrator_columns(MetricKind::Ssim2Gpu, versioned, &ssim2),
        cols(&[("ssim2_gpu", 95.5)])
    );
    assert_eq!(
        rekey_orchestrator_columns(MetricKind::Ssim2, versioned, &ssim2),
        cols(&[("ssim2", 95.5)])
    );
    let butter = cols(&[
        ("butteraugli_max_gpu", 1.5),
        ("butteraugli_pnorm3_gpu", 2.5),
    ]);
    assert_eq!(
        rekey_orchestrator_columns(MetricKind::ButteraugliGpu, versioned, &butter),
        cols(&[
            ("butteraugli_max_gpu", 1.5),
            ("butteraugli_pnorm3_gpu", 2.5)
        ])
    );
    assert_eq!(
        rekey_orchestrator_columns(MetricKind::Butteraugli, versioned, &butter),
        cols(&[("butteraugli_max", 1.5), ("butteraugli_pnorm3", 2.5)])
    );
    let cvvdp = cols(&[("cvvdp_imazen_v0_0_1", 9.2)]);
    assert_eq!(
        rekey_orchestrator_columns(MetricKind::Cvvdp, versioned, &cvvdp),
        cols(&[("cvvdp_imazen_v0_0_1", 9.2)])
    );
}

#[test]
fn rekey_orchestrator_columns_phase_7_7_1_renames_iwssim() {
    let versioned = "iwssim_v0_0_1";
    let c = cols(&[(versioned, 0.952)]);
    assert_eq!(
        rekey_orchestrator_columns(MetricKind::IwssimGpu, versioned, &c),
        cols(&[("iwssim_gpu", 0.952)])
    );
    assert_eq!(
        rekey_orchestrator_columns(MetricKind::Iwssim, versioned, &c),
        cols(&[(versioned, 0.952)])
    );
}

#[test]
fn metric_eligibility_phase_7_7_1_excludes_butter() {
    assert!(!metric_orchestrator_eligible(MetricKind::Butteraugli));
    assert!(!metric_orchestrator_eligible(MetricKind::ButteraugliGpu));
    assert!(metric_orchestrator_eligible(MetricKind::Cvvdp));
    assert!(metric_orchestrator_eligible(MetricKind::Ssim2));
    assert!(metric_orchestrator_eligible(MetricKind::Ssim2Gpu));
    assert!(metric_orchestrator_eligible(MetricKind::Dssim));
    assert!(metric_orchestrator_eligible(MetricKind::DssimGpu));
    assert!(metric_orchestrator_eligible(MetricKind::Iwssim));
    assert!(metric_orchestrator_eligible(MetricKind::IwssimGpu));
    assert!(metric_orchestrator_eligible(MetricKind::Zensim));
    assert!(metric_orchestrator_eligible(MetricKind::ZensimGpu));
}

#[test]
fn orchestrator_replies_become_columns() {
    let one = orchestrator_score_one(MetricKind::Ssim2, "v", Ok((3.0, Vec::new())), "cuda").unwrap();
    assert_eq!(one.len(), 1);
    assert_eq!(one[0].column, cli_metric_to_column_name(MetricKind::Ssim2));
    assert_eq!(one[0].value, 3.0);
    let named = orchestrator_score_one(
        MetricKind::Ssim2,
        "v",
        Ok((3.0, cols(&[("ssim2_gpu", 4.0)]))),
        "cuda",
    )
    .unwrap();
    assert_eq!(named[0].column, "ssim2");
    assert_eq!(named[0].value, 4.0);
    let failed: Result<(f64, Vec<(String, f64)>), String> = Err("oom".to_string());
    assert_eq!(
        orchestrator_score_one(MetricKind::Ssim2, "v", failed, "cuda, cpu").unwrap_err(),
        "orchestrator: oom (backends tried: cuda, cpu)"
    );
    assert_eq!(
        orchestrator_cell_error(MetricKind::Cvvdp, "oom", "[]"),
        "orchestrator: cvvdp (oom; backends_attempted=[])"
    );
}
