use zen_metrics::json::{get_u64, Json, JsonNumber, Members};
use zen_metrics::metrics::dispatch::Build;
use zen_metrics::metrics::kind::{GpuRuntime, MetricKind, ZensimFeatureRegime};
use zen_metrics::sweep::encode::{
    check_expert_buffer, encode, encode_avif, encode_jpeg, encode_jxl, encode_png, encode_webp,
    parse_png_preset, ChromaSubsampling, CodecKind, EncodePlan, JxlPlan, PngCompression, PngPreset,
    ProgressiveMode, QuantTableSource, WebpPlan,
};
use zen_metrics::sweep::feature_writer::{
    build_schema, FeatureParquetWriter, FieldType, FLUSH_EVERY, NUM_FEATURES_DEFAULT,
};
use zen_metrics::sweep::grid::{parse_knob_grid, parse_q_grid, text_less, KnobGrid, KnobTuple};
use zen_metrics::sweep::plan::{
    build_plan, build_zenavif_plan, build_zenjpeg_plan, build_zenjxl_plan, build_zenpng_plan,
    build_zenwebp_plan, identity_json, plan_axes, plan_cell_id, resolve_verified,
    stratum_of, DroppedAxis, PlanAxes, PlanReport, ProposedCell,
};
use zen_metrics::sweep::run::{
    broken_cell, check_plan, clean_before, compute_cell, count_per_image, hex_hash16,
    pairs_header, run_sweep,
    save_distorted_png, save_encoded_variant, score_context, score_route, sweep_units, switch_on,
    variant_filename, write_header, CellOutcome, CellReplies, CellReport, CellStep, Decoded, Encoded, FeatureVector,
    PlanSpec, ScoreRoute, Scored, SourceReport, SweepConfig, SweepUnit,
};

fn num(n: u64) -> Json {
    Json::Number(JsonNumber {
        unsigned: Some(n),
        text: n.to_string(),
    })
}

fn number(text: &str) -> Json {
    Json::Number(JsonNumber {
        unsigned: None,
        text: text.to_string(),
    })
}

fn word(s: &str) -> Json {
    Json::Str(s.to_string())
}

fn knobs(m: Vec<(&str, Json)>) -> Members {
    m.into_iter().map(|(k, v)| (k.to_string(), v)).collect()
}

// ── Grids ──────────────────────────────────────────────────────────────

#[test]
fn q_grid_parses() {
    assert_eq!(parse_q_grid("25,50,75,90").unwrap(), vec![25, 50, 75, 90]);
}

#[test]
fn q_grid_rejects_empty() {
    assert!(parse_q_grid("").is_err());
    assert!(parse_q_grid("25,,50").is_err());
}

#[test]
fn q_grid_rejects_out_of_range() {
    assert!(parse_q_grid("25,200").is_err());
    assert!(parse_q_grid("x").is_err());
    assert!(parse_q_grid("-1").is_err());
}

#[test]
fn knob_grid_empty_input_is_empty_grid() {
    let g = parse_knob_grid("").unwrap();
    assert_eq!(g.cell_count(), 1);
    let tuples = g.iter_tuples();
    assert_eq!(tuples.len(), 1);
    assert!(tuples[0].0.is_empty());
}

#[test]
fn a_knob_without_values_leaves_no_cell() {
    let g = KnobGrid {
        axes: vec![("method".to_string(), Vec::new())],
    };
    assert_eq!(g.cell_count(), 0);
    assert_eq!(g.iter_tuples().len(), 0);
}

#[test]
fn knob_grid_cartesian_expand() {
    let g = parse_knob_grid(r#"{"method": [4, 5, 6], "segments": [1, 4]}"#).unwrap();
    assert_eq!(g.cell_count(), 6);
    let tuples = g.iter_tuples();
    assert_eq!(tuples.len(), 6);
    for t in &tuples {
        assert!(get_u64(&t.0, "method").is_some());
        assert!(get_u64(&t.0, "segments").is_some());
    }
    // Every pair of values occurs once.
    let mut seen: Vec<(u64, u64)> = tuples
        .iter()
        .map(|t| {
            (
                get_u64(&t.0, "method").unwrap(),
                get_u64(&t.0, "segments").unwrap(),
            )
        })
        .collect();
    seen.sort();
    assert_eq!(
        seen,
        vec![(4, 1), (4, 4), (5, 1), (5, 4), (6, 1), (6, 4)]
    );
}

#[test]
fn knob_grid_canonical_json_is_sorted() {
    let g = parse_knob_grid(r#"{"zaxis": [1], "aaxis": [2]}"#).unwrap();
    let t = &g.iter_tuples()[0];
    let json = t.to_canonical_json();
    let aa = json.find("aaxis").unwrap();
    let za = json.find("zaxis").unwrap();
    assert!(aa < za, "expected canonical (sorted) keys, got {json}");
    assert_eq!(json, r#"{"aaxis":2,"zaxis":1}"#);
    // The order in which knobs were set does not matter.
    let a = KnobTuple::new().with("z", &num(1)).with("a", &word("x"));
    let b = KnobTuple::new().with("a", &word("x")).with("z", &num(1));
    assert_eq!(a.to_canonical_json(), b.to_canonical_json());
    assert_eq!(a.to_canonical_json(), r#"{"a":"x","z":1}"#);
}

#[test]
fn knob_grid_errors() {
    assert!(parse_knob_grid("{").is_err());
    assert!(parse_knob_grid("[1]").is_err());
    assert!(parse_knob_grid(r#"{"a": 1}"#).is_err());
    assert!(parse_knob_grid(r#"{"a": []}"#).is_err());
    assert!(text_less("a", "ab"));
    assert!(!text_less("b", "ab"));
}

// ── Plans of the planners ──────────────────────────────────────────────

fn report(cells: Vec<(&str, u64, Option<&str>)>) -> PlanReport {
    PlanReport {
        cells: cells
            .into_iter()
            .map(|(id, fingerprint, q)| ProposedCell {
                id: id.to_string(),
                fingerprint,
                quality: q.map(|s| s.to_string()),
                aliases: Vec::new(),
            })
            .collect(),
        duplicates_merged: num(0),
        invalid_skipped: Json::Array(Vec::new()),
        q_coarsenings: num(0),
        over_budget: Json::Bool(false),
        dropped: vec![DroppedAxis {
            axis: word("trellis"),
            kept: num(1),
            dropped: num(2),
        }],
    }
}

#[test]
fn planned_cells_have_a_stable_identity() {
    let r = report(vec![
        ("jp3_t0_small_420_q50", 1, Some("50")),
        ("jp3_t0_small_420_q85", 2, Some("85")),
    ]);
    let plan = build_zenjpeg_plan("rd_core", None, &vec![num(50), num(85)], &r).unwrap();
    assert_eq!(plan.cells.len(), 2);
    let first = &plan.cells[0];
    assert_eq!(first.q, "50");
    assert!(
        first.knob_json.contains("\"cell\":\"jp3_t0_small_420\""),
        "got {}",
        first.knob_json
    );
    assert!(first.knob_json.contains("\"plan\":\"rd_core\""));
    assert!(first.knob_json.contains("\"fp\":\"0000000000000001\""));
    assert_ne!(plan.cells[0].knob_json, plan.cells[1].knob_json);
    assert!(plan.manifest_json.contains("\"plan\": \"rd_core\""));
    assert!(plan.manifest_json.contains("dropped_axes"));
}

#[test]
fn png_cells_ride_the_zero_quality() {
    let plan = build_plan(
        CodecKind::Zenpng,
        "modes_full",
        Some(8),
        &vec![num(50)],
        &report(vec![("png-e13_q50", 9, Some("50"))]),
    )
    .unwrap();
    assert_eq!(plan.cells[0].q, "0");
    assert!(plan.cells[0].knob_json.contains("png-e13_q50"));
    let lossless = build_plan(
        CodecKind::Zenwebp,
        "rd_core",
        None,
        &vec![num(50)],
        &report(vec![("vp8l-m4", 9, None)]),
    )
    .unwrap();
    assert_eq!(lossless.cells[0].q, "0");
}

#[test]
fn only_png_plans_ignore_the_quality_grid() {
    let r = report(vec![("c_q85", 1, Some("85"))]);
    let q = vec![num(85)];
    for plan in [
        build_zenjpeg_plan("rd_core", None, &q, &r),
        build_zenavif_plan("rd_core", None, &q, &r),
        build_zenjxl_plan("rd_core", None, &q, &r),
        build_zenwebp_plan("rd_core", None, &q, &r),
    ] {
        let plan = plan.unwrap();
        assert!(plan.manifest_json.contains("\"q_grid\": [\n    85\n  ]"));
        assert_eq!(plan.cells[0].q, "85");
    }
    let png = build_zenpng_plan("rd_core", None, &q, &r).unwrap();
    assert!(png
        .manifest_json
        .contains("\"q_grid\": \"ignored (lossless; all cells on the q=0 sentinel)\""));
    assert!(png.manifest_json.contains("\"q_grid_passed\": [\n    85\n  ]"));
    assert_eq!(png.cells[0].q, "0");
    assert!(build_zenpng_plan("no_such_plan", None, &q, &r).is_err());
}

#[test]
fn resolving_accepts_only_the_declared_fingerprint() {
    assert!(resolve_verified("c", "85", "00000000000000ff", Ok(255)).is_ok());
    let err = resolve_verified("c", "85", "0000000000000000", Ok(255)).unwrap_err();
    assert!(err.contains("fingerprint mismatch"), "got {err}");
    assert_eq!(
        resolve_verified("c", "85", "00000000000000ff", Err("no such cell".to_string()))
            .unwrap_err(),
        "no such cell"
    );
    assert_eq!(plan_cell_id(CodecKind::Zenwebp, "vp8-m4", "85"), "vp8-m4_q85");
    assert_eq!(plan_cell_id(CodecKind::Zenwebp, "vp8l-m4", "85"), "vp8l-m4");
    assert_eq!(plan_cell_id(CodecKind::Zenjxl, "vd-e7", "85"), "vd-e7_q85");
    assert_eq!(plan_cell_id(CodecKind::Zenjpeg, "jp3", "85"), "jp3");
    assert_eq!(stratum_of("a_b_q50"), "a_b");
    assert_eq!(stratum_of("a_b"), "a_b");
    assert_eq!(
        identity_json("c", 16, "rd_core"),
        r#"{"cell":"c","fp":"0000000000000010","plan":"rd_core"}"#
    );
}

#[test]
fn unknown_plan_is_an_error() {
    assert!(build_zenjpeg_plan("nope", None, &vec![num(50)], &report(vec![])).is_err());
    assert_eq!(
        plan_axes(CodecKind::Zenavif, "modes_full_alpha"),
        Ok(PlanAxes::ModesFullAlpha)
    );
    assert!(plan_axes(CodecKind::Zenpng, "modes_full_alpha").is_err());
    assert_eq!(
        plan_axes(CodecKind::Zenjxl, "x").unwrap_err(),
        "unknown zenjxl plan \"x\"; expected rd_core or modes_full"
    );
}

// ── Knobs of the codecs ────────────────────────────────────────────────

#[test]
fn codecs_have_names_and_extensions() {
    assert_eq!(CodecKind::Zenjpeg.name(), "zenjpeg");
    assert_eq!(CodecKind::Zenjpeg.extension(), "jpg");
    assert_eq!(CodecKind::Zenavif.extension(), "avif");
}

#[test]
fn png_knobs() {
    let p = encode_png(&knobs(vec![
        ("compression", num(900)),
        ("near_lossless_bits", num(7)),
        ("parallel", Json::Bool(true)),
        ("max_threads", num(3)),
        ("speed", num(1)),
    ]))
    .unwrap();
    assert_eq!(p.compression, Some(PngCompression::Effort(200)));
    assert_eq!(p.near_lossless_bits, Some(4));
    assert_eq!(p.parallel, Some(true));
    assert_eq!(p.max_threads, Some(3));
    let p = encode_png(&knobs(vec![("compression", word("crush"))])).unwrap();
    assert_eq!(
        p.compression,
        Some(PngCompression::Preset(PngPreset::Crush))
    );
    let p = encode_png(&knobs(vec![("compression", number("1.5"))])).unwrap();
    assert_eq!(p.compression, Some(PngCompression::Effort(13)));
    assert!(encode_png(&knobs(vec![("compression", word("best"))]))
        .unwrap_err()
        .ends_with("got \"best\""));
    assert_eq!(
        encode_png(&knobs(vec![("compression", Json::Bool(true))])).unwrap_err(),
        "zenpng compression must be a number (0..=200) or preset string"
    );
    assert_eq!(parse_png_preset("none"), Some(PngPreset::Store));
}

#[test]
fn jpeg_knobs() {
    let p = encode_jpeg(&knobs(vec![
        ("subsampling", word("4:2:0")),
        ("effort", num(9)),
        ("progressive", Json::Bool(false)),
    ]))
    .unwrap();
    assert_eq!(p.subsampling, Some(ChromaSubsampling::Quarter));
    assert_eq!(p.effort, Some(2));
    assert_eq!(p.progressive, Some(false));
    assert!(p.internal.is_none());
    let p = encode_jpeg(&knobs(vec![
        ("quant_source", word("mozjpeg")),
        ("chroma_quality", Json::Null),
        ("pre_blur", number("0.5")),
    ]));
    match p {
        Ok(p) => {
            let i = p.internal.unwrap();
            assert_eq!(i.chroma_quality, Some(None));
            assert_eq!(i.pre_blur.as_deref(), Some("0.5"));
            assert!(matches!(
                i.quant_source,
                Some(QuantTableSource::MozjpegDefault)
            ));
        }
        Err(e) => panic!("{e}"),
    }
    assert_eq!(
        encode_jpeg(&knobs(vec![("subsampling", word("411"))])).unwrap_err(),
        "zenjpeg subsampling must be one of 444|422|420|440; got \"411\""
    );
    for key in [
        "quant_source",
        "progressive_mode",
        "huffman",
        "tiny_file_mode",
        "downsampling_method",
        "optimization",
    ] {
        let e = encode_jpeg(&knobs(vec![(key, word("?!"))])).unwrap_err();
        assert!(e.ends_with("got \"?!\""), "{key}: {e}");
    }
}

#[test]
fn webp_knobs() {
    assert_eq!(
        encode_webp(&knobs(vec![
            ("method", num(9)),
            ("segments", num(0)),
            ("sns_strength", num(101))
        ]))
        .unwrap(),
        WebpPlan::Lossy {
            method: Some(6),
            segments: Some(1),
            sns_strength: Some(100),
            filter_strength: None,
            internal: None
        }
    );
    assert_eq!(
        encode_webp(&knobs(vec![("lossless", Json::Bool(true))])).unwrap(),
        WebpPlan::Lossless
    );
    assert_eq!(
        encode_webp(&knobs(vec![("sharp_yuv", word("maybe"))])).unwrap_err(),
        "zenwebp sharp_yuv must be \"off\" or \"on\"; got \"maybe\""
    );
    match encode_webp(&knobs(vec![("partition_limit", num(300))])).unwrap() {
        WebpPlan::Lossy {
            internal: Some(i), ..
        } => assert_eq!(i.partition_limit, Some(100)),
        other => panic!("expected expert settings, got {other:?}"),
    }
}

#[test]
fn avif_knobs() {
    let p = encode_avif(&knobs(vec![
        ("speed", num(99)),
        ("partition_range", Json::Array(vec![num(260), num(8)])),
    ]));
    assert_eq!(p.speed, Some(10));
    assert_eq!(p.internal.unwrap().partition_range, Some((4, 8)));
    let p = encode_avif(&knobs(vec![("partition_range", Json::Array(vec![num(1)]))]));
    assert!(p.internal.is_none());
}

#[test]
fn jxl_knobs() {
    match encode_jxl(&knobs(vec![("effort", num(99)), ("distance", number("1.5"))])).unwrap() {
        JxlPlan::Lossy {
            distance, effort, ..
        } => {
            assert_eq!(distance.as_deref(), Some("1.5"));
            assert_eq!(effort, Some(10));
        }
        other => panic!("expected the lossy mode, got {other:?}"),
    }
    match encode_jxl(&knobs(vec![
        ("force_strategy", Json::Null),
        ("butteraugli_iters", num(40)),
        ("progressive", word("two-pass")),
    ]))
    .unwrap()
    {
        JxlPlan::Expert(x) => {
            assert_eq!(x.force_strategy, Some(None));
            assert_eq!(x.butteraugli_iters, Some(16));
            assert_eq!(x.progressive, Some(ProgressiveMode::QuantizedAcFullAc));
        }
        other => panic!("expected the direct encoder, got {other:?}"),
    }
    // Lossless never goes to the direct encoder, and its knobs are no errors there.
    assert!(matches!(
        encode_jxl(&knobs(vec![
            ("lossless", Json::Bool(true)),
            ("progressive", word("?"))
        ])),
        Ok(JxlPlan::Lossless { effort: None })
    ));
    assert_eq!(
        encode_jxl(&knobs(vec![("progressive", word("?"))])).unwrap_err(),
        "zenjxl: unknown progressive mode '?' (want single|two-pass|three-pass)"
    );
    assert!(check_expert_buffer(12, 2, 2).is_ok());
    assert_eq!(
        check_expert_buffer(11, 2, 2).unwrap_err(),
        "zenjxl expert: pixel buffer shorter than width*height*3"
    );
}

#[test]
fn unknown_knobs_are_left_alone() {
    for c in [
        CodecKind::Zenpng,
        CodecKind::Zenjpeg,
        CodecKind::Zenwebp,
        CodecKind::Zenavif,
        CodecKind::Zenjxl,
    ] {
        let a = format!("{:?}", encode(c, &knobs(vec![])).unwrap());
        let b = format!("{:?}", encode(c, &knobs(vec![("other", num(1))])).unwrap());
        assert_eq!(a, b);
    }
    assert!(matches!(
        encode(CodecKind::Zenwebp, &knobs(vec![])),
        Ok(EncodePlan::Webp(_))
    ));
}

const BUILD: Build = Build {
    cpu_metrics: true,
    gpu_ssim2: true,
    gpu_butteraugli: true,
    gpu_dssim: true,
    gpu_iwssim: true,
    gpu_zensim: true,
    gpu_cvvdp: true,
    cvvdp_tag: "cvvdp_imazen_v0_0_1",
    iwssim_tag: "iwssim_imazen_v0_0_1",
};

// ── Cells ──────────────────────────────────────────────────────────────

fn config(metrics: Vec<MetricKind>) -> SweepConfig {
    SweepConfig {
        codec: CodecKind::Zenwebp,
        sources: vec!["a.png".to_string(), "b.png".to_string()],
        q_grid: vec!["50".to_string(), "75".to_string()],
        knob_grid: KnobGrid::empty(),
        plan: None,
        metrics,
        gpu_runtime: GpuRuntime::Auto,
        output: "out.tsv".to_string(),
        feature_output: None,
        feature_regime: ZensimFeatureRegime::Extended,
        distorted_out_dir: None,
        encoded_out_dir: None,
        pairs_tsv: None,
        jobs: 0,
    }
}

fn no_replies() -> CellReplies {
    CellReplies {
        encoded: None,
        saved: None,
        decoded: None,
        scores: Vec::new(),
        distorted: None,
    }
}

fn unit() -> SweepUnit {
    SweepUnit::Tuple("50".to_string(), KnobTuple::new())
}

fn step(cfg: &SweepConfig, r: &CellReplies) -> CellStep {
    compute_cell(cfg, false, "a.png", 8, 8, &unit(), r)
}

#[test]
fn a_cell_goes_step_by_step() {
    let mut cfg = config(vec![MetricKind::Zensim, MetricKind::Butteraugli]);
    cfg.encoded_out_dir = Some("enc".to_string());
    cfg.distorted_out_dir = Some("dist".to_string());
    cfg.pairs_tsv = Some("pairs.tsv".to_string());
    let mut r = no_replies();
    assert!(matches!(step(&cfg, &r), CellStep::Encode));
    r.encoded = Some(Some(Encoded {
        bytes: 123,
        ms: "4.5".to_string(),
    }));
    assert!(matches!(step(&cfg, &r), CellStep::SaveEncoded));
    r.saved = Some(Some("f.webp".to_string()));
    assert!(matches!(step(&cfg, &r), CellStep::DecodeBack));
    r.decoded = Some(Some(Decoded {
        width: 8,
        height: 8,
        ms: "1.0".to_string(),
    }));
    assert!(matches!(
        step(&cfg, &r),
        CellStep::Score(0, ScoreRoute::Cached)
    ));
    r.scores.push(Scored::Values(vec!["99".to_string()]));
    assert!(matches!(step(&cfg, &r), CellStep::Score(1, _)));
    r.scores.push(Scored::Failed);
    assert!(matches!(step(&cfg, &r), CellStep::SaveDistorted));
    r.distorted = Some(Some("d.png".to_string()));
    match step(&cfg, &r) {
        CellStep::Done(CellOutcome::Complete {
            row,
            feature,
            pair_row,
            score_failed,
        }) => {
            assert_eq!(
                row,
                vec!["a.png", "zenwebp", "50", "{}", "123", "4.5", "f.webp", "1.0", "99", "", ""]
            );
            assert_eq!(row.len(), write_header(&cfg.metrics, BUILD).len());
            assert_eq!(feature, None);
            assert!(score_failed);
            assert_eq!(
                pair_row.unwrap(),
                vec!["a.png", "zenwebp", "50", "{}", "a.png", "d.png"]
            );
        }
        other => panic!("expected the end, got {other:?}"),
    }
}

#[test]
fn a_decoded_image_is_kept_without_a_list_of_pairs() {
    let mut cfg = config(vec![]);
    cfg.distorted_out_dir = Some("dist".to_string());
    let mut r = no_replies();
    r.encoded = Some(Some(Encoded {
        bytes: 1,
        ms: "1".to_string(),
    }));
    r.decoded = Some(Some(Decoded {
        width: 8,
        height: 8,
        ms: "1".to_string(),
    }));
    assert!(matches!(step(&cfg, &r), CellStep::SaveDistorted));
    r.distorted = Some(None);
    match step(&cfg, &r) {
        CellStep::Done(CellOutcome::Complete { pair_row, .. }) => assert_eq!(pair_row, None),
        other => panic!("expected the end, got {other:?}"),
    }
}

#[test]
fn failed_cells_keep_their_columns() {
    let cfg = config(vec![MetricKind::Zensim]);
    let width = write_header(&cfg.metrics, BUILD).len();
    let mut r = no_replies();
    r.encoded = Some(None);
    match step(&cfg, &r) {
        CellStep::Done(CellOutcome::EncodeFailed { row }) => assert_eq!(row.len(), width),
        other => panic!("expected a failed cell, got {other:?}"),
    }
    r.encoded = Some(Some(Encoded {
        bytes: 1,
        ms: "1".to_string(),
    }));
    r.decoded = Some(None);
    match step(&cfg, &r) {
        CellStep::Done(CellOutcome::DecodeFailed { row }) => assert_eq!(row.len(), width),
        other => panic!("expected a failed cell, got {other:?}"),
    }
    r.decoded = Some(Some(Decoded {
        width: 9,
        height: 8,
        ms: "1".to_string(),
    }));
    match step(&cfg, &r) {
        CellStep::Done(CellOutcome::DecodeFailed { row }) => assert_eq!(row.len(), width),
        other => panic!("expected a failed cell, got {other:?}"),
    }
    match broken_cell(&cfg, "a.png", &unit()) {
        CellOutcome::DecodeFailed { row } => assert_eq!(row.len(), width),
        other => panic!("expected a failed cell, got {other:?}"),
    }
}

#[test]
fn features_come_from_one_metric() {
    let mut cfg = config(vec![MetricKind::Zensim, MetricKind::ZensimGpu]);
    cfg.feature_output = Some("f.parquet".to_string());
    let c = score_context(&cfg, true);
    assert_eq!(
        score_route(MetricKind::Zensim, c),
        ScoreRoute::Orchestrator
    );
    assert_eq!(
        score_route(MetricKind::ZensimGpu, c),
        ScoreRoute::GpuFeatures
    );
    assert_eq!(score_route(MetricKind::Butteraugli, c), ScoreRoute::Cached);
    cfg.metrics = vec![MetricKind::Zensim];
    let c = score_context(&cfg, false);
    assert_eq!(score_route(MetricKind::Zensim, c), ScoreRoute::CpuFeatures);
    let mut r = no_replies();
    r.encoded = Some(Some(Encoded {
        bytes: 1,
        ms: "1".to_string(),
    }));
    r.decoded = Some(Some(Decoded {
        width: 8,
        height: 8,
        ms: "1".to_string(),
    }));
    r.scores.push(Scored::WithFeatures(
        "99".to_string(),
        FeatureVector {
            score: 0,
            features: Vec::new(),
        },
    ));
    match step(&cfg, &r) {
        CellStep::Done(CellOutcome::Complete { feature, .. }) => assert_eq!(feature, Some(0)),
        other => panic!("expected the end, got {other:?}"),
    }
}

#[test]
fn headers_and_names() {
    assert_eq!(
        write_header(&vec![MetricKind::Butteraugli], BUILD),
        vec![
            "image_path",
            "codec",
            "q",
            "knob_tuple_json",
            "encoded_bytes",
            "encode_ms",
            "encoded_filename",
            "decode_ms",
            "score_butteraugli_max",
            "score_butteraugli_pnorm3"
        ]
    );
    assert_eq!(
        write_header(&vec![MetricKind::Cvvdp], BUILD)[8],
        "score_cvvdp_imazen_v0_0_1"
    );
    assert_eq!(pairs_header().len(), 6);
    assert_eq!(
        variant_filename(Some("img"), 255, CodecKind::Zenjpeg, "50", 1, "jpg"),
        "img_00000000000000ff_zenjpeg_q50_0000000000000001.jpg"
    );
    assert_eq!(
        variant_filename(None, 0, CodecKind::Zenjpeg, "50", 1, "png"),
        "source_0000000000000000_zenjpeg_q50_0000000000000001.png"
    );
    let (a, b) = (hex_hash16("dir/img.png"), hex_hash16("{}"));
    assert_eq!(a.len(), 16);
    assert_ne!(a, b);
    assert_eq!(
        save_encoded_variant(Some("img"), "dir/img.png", CodecKind::Zenwebp, "50", "{}"),
        format!("img_{a}_zenwebp_q50_{b}.webp")
    );
    assert_eq!(
        save_distorted_png(Some("img"), "dir/img.png", CodecKind::Zenwebp, "50", "{}"),
        format!("img_{a}_zenwebp_q50_{b}.png")
    );
    assert!(switch_on(" yes "));
    assert!(!switch_on("no"));
    assert!(clean_before(1, true, false));
    assert!(!clean_before(0, true, false));
    assert!(!clean_before(1, true, true));
}

#[test]
fn sweeps_count_every_cell() {
    let cfg = config(vec![MetricKind::Zensim]);
    assert_eq!(count_per_image(&cfg, None), 2);
    assert_eq!(sweep_units(&cfg, None).len(), 2);
    assert_eq!(count_per_image(&cfg, Some(7)), 7);
    let s = run_sweep(
        &cfg,
        None,
        &vec![
            SourceReport::Unreadable,
            SourceReport::Cells(vec![
                CellReport::Complete {
                    written: true,
                    score_failed: true,
                },
                CellReport::EncodeFailed,
            ]),
        ],
    )
    .unwrap();
    assert_eq!(s.cells_total, 4);
    assert_eq!(s.cells_emitted, 1);
    assert_eq!(s.cells_failed_encode, 1);
    assert_eq!(s.cells_failed_decode, 2);
    assert_eq!(s.cells_failed_score, 1);
    assert_eq!(
        zen_metrics::listing::sweep_summary(&s),
        "[sweep] done: 1/4 cells emitted; encode-fail=1 decode-fail=2 score-fail=1"
    );
    let units = sweep_units(&cfg, None);
    assert_eq!(units.len(), 2);
    assert_eq!(units[1].q(), "75");
    assert_eq!(units[1].knob_json(), "{}");
    assert!(units[1].encode_cell(CodecKind::Zenwebp).unwrap().is_some());
}

#[test]
fn a_plan_excludes_a_knob_grid() {
    let mut cfg = config(vec![MetricKind::Zensim]);
    cfg.plan = Some(PlanSpec {
        name: "rd_core".to_string(),
        budget: None,
    });
    assert!(check_plan(&cfg).is_ok());
    cfg.knob_grid = parse_knob_grid(r#"{"method":[1]}"#).unwrap();
    assert_eq!(
        check_plan(&cfg).unwrap_err(),
        "--plan and --knob-grid are mutually exclusive"
    );
}

// ── Features ───────────────────────────────────────────────────────────

#[test]
fn rows_of_features_come_in_batches() {
    let mut b: FeatureParquetWriter<f64> = FeatureParquetWriter::create_with_n(2);
    assert_eq!(b.num_features(), 2);
    assert_eq!(
        b.push_row("i", "c", 1, "{}", 2.0, &vec![1.0]).unwrap_err(),
        "feature_writer: expected 2 features, got 1"
    );
    let mut batches = 0;
    for n in 0..(FLUSH_EVERY + 3) {
        if let Some(batch) = b
            .push_row("i", "c", n as u32, "{}", 2.0, &vec![1.0, 2.0])
            .unwrap()
        {
            batches += 1;
            assert_eq!(batch.rows, FLUSH_EVERY);
            assert_eq!(batch.q[5], 5);
            assert_eq!(batch.feature_columns[1][7], 2.0);
        }
    }
    assert_eq!(batches, 1);
    let rest = b.finish().unwrap();
    assert_eq!(rest.rows, 3);
    assert_eq!(rest.q[0], FLUSH_EVERY as u32);
    let empty: FeatureParquetWriter<f64> = FeatureParquetWriter::create();
    assert_eq!(empty.num_features(), NUM_FEATURES_DEFAULT);
    assert!(empty.finish().is_none());
}

#[test]
fn the_schema_names_every_feature() {
    let s = build_schema(3);
    assert_eq!(s.len(), 8);
    assert_eq!(s[2].name, "q");
    assert_eq!(s[2].kind, FieldType::UInt32);
    assert_eq!(s[7].name, "feat_2");
    assert_eq!(s[7].kind, FieldType::Float32);
}
