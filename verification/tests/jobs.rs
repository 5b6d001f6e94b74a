use zen_metrics::hdr::{
    decode_to_nits, hdr_rows, pixelbuffer_to_nits, score_via_hdr_scorer, split_planes,
    to_umbrella_kind, HdrBackend, HdrFormat, HdrMetric,
};
use zen_metrics::jobexec::{
    codec_from_name, ext_for, fetch_failed, metric_kind, read_job, resolve_source, run,
    EncodedBytes, JobReplies, JobStep, Source,
};
use zen_metrics::metrics::cache::{
    backend_label, check_batch_pair, compute_zensim_features, construct_umbrella,
    gpu_runtime_to_backend, judge_butter, judge_reply, run_metric_cached, runtime_missing, Backend,
    BatchSlot, ButterAction, ButterReply, CacheRoute, MetricCache, Slot,
};
use zen_metrics::metrics::cpu::{butteraugli_images, check_dssim, pad_rgb8_to_min, ssim2_image};
use zen_metrics::metrics::dispatch::{Attempt, Build, GpuMetric, GpuParams, MetricFlags, RuntimeWalk};
use zen_metrics::metrics::kind::{GpuRuntime, MetricKind, Runtimes, ZensimFeatureRegime};
use zen_metrics::sweep::encode::CodecKind;

const CPU_ONLY: Build = Build {
    cpu_metrics: true,
    gpu_ssim2: false,
    gpu_butteraugli: false,
    gpu_dssim: false,
    gpu_iwssim: false,
    gpu_zensim: false,
    gpu_cvvdp: false,
    cvvdp_tag: "cvvdp_imazen_v0_0_1",
    iwssim_tag: "iwssim_imazen_v0_0_1",
};

const ALL: Build = Build {
    cpu_metrics: true,
    gpu_ssim2: true,
    gpu_butteraugli: true,
    gpu_dssim: true,
    gpu_iwssim: true,
    gpu_zensim: true,
    gpu_cvvdp: true,
    cvvdp_tag: "cvvdp_imazen_v0_0_1",
    iwssim_tag: "iwssim_imazen_v0_0_1",
};

const ALL_RUNTIMES: Runtimes = Runtimes {
    cuda: true,
    wgpu: true,
    hip: true,
    cpu: true,
};

// ── Jobs ───────────────────────────────────────────────────────────────

#[test]
fn names_of_codecs_and_metrics() {
    for c in [
        CodecKind::Zenpng,
        CodecKind::Zenjpeg,
        CodecKind::Zenwebp,
        CodecKind::Zenavif,
        CodecKind::Zenjxl,
    ] {
        assert_eq!(codec_from_name(c.name()), Ok(c));
        assert_eq!(ext_for(c.name()), c.extension());
    }
    assert_eq!(
        codec_from_name("gif").unwrap_err(),
        "unknown codec \"gif\""
    );
    assert_eq!(ext_for("gif"), "bin");
    assert_eq!(metric_kind("ssimulacra2"), Ok(MetricKind::Ssim2));
    assert_eq!(metric_kind("ZENSIM"), Ok(MetricKind::Zensim));
    assert_eq!(
        metric_kind("psnr").unwrap_err(),
        "unknown metric \"psnr\": invalid variant: psnr"
    );
}

#[test]
fn sources_are_local_or_fetched() {
    assert!(matches!(
        resolve_source("a/b.png", None, true, None, None, 1),
        Ok(Source::Local)
    ));
    match resolve_source("a/b.png", Some("corpus/"), true, Some("e"), Some("bkt"), 7).unwrap() {
        Source::Fetch {
            endpoint,
            uri,
            file,
        } => {
            assert_eq!(endpoint, "e");
            assert_eq!(uri, "s3://bkt/corpus/a/b.png");
            assert_eq!(file, "jobexec_src_7_b.png");
        }
        other => panic!("expected a fetch, got {other:?}"),
    }
    assert_eq!(
        resolve_source("a", None, false, None, Some("b"), 1).unwrap_err(),
        "ZEN_R2_ENDPOINT unset — cannot fetch source from R2"
    );
    assert_eq!(
        resolve_source("a", None, false, Some("e"), None, 1).unwrap_err(),
        "ZEN_BUCKET unset"
    );
    match resolve_source("s3://x/y.png", None, true, Some("e"), None, 1).unwrap() {
        Source::Fetch { uri, .. } => assert_eq!(uri, "s3://x/y.png"),
        other => panic!("expected a fetch, got {other:?}"),
    }
    assert_eq!(fetch_failed("u"), "s5cmd cp u failed");
}

const JOB: &str = r#"{"kind":{"kind":"metric","metric":"ssimulacra2"},"cell":{"image_path":"a.png","codec":"zenwebp","q":75,"knob_tuple_json":"{\"method\":4}"}}"#;

fn nothing() -> JobReplies {
    JobReplies {
        source: None,
        encoded: None,
        decoded: None,
        scored: None,
    }
}

#[test]
fn a_metric_job_goes_step_by_step() {
    let job = read_job(JOB).unwrap();
    assert_eq!(job.q, 75);
    assert_eq!(job.knobs.len(), 1);
    let mut r = nothing();
    assert!(matches!(run(&job, &r), JobStep::Source));
    r.source = Some(Ok(()));
    assert!(matches!(
        run(&job, &r),
        JobStep::Encode(CodecKind::Zenwebp)
    ));
    r.encoded = Some(Ok(EncodedBytes {
        bytes: 99,
        encode_ms: "1.5".to_string(),
    }));
    assert!(matches!(run(&job, &r), JobStep::DecodeBack(ext) if ext == "webp"));
    r.decoded = Some(Ok(()));
    assert!(matches!(
        run(&job, &r),
        JobStep::Score(MetricKind::Ssim2)
    ));
    r.scored = Some(Ok(vec![("ssim2".to_string(), "88.5".to_string())]));
    match run(&job, &r) {
        JobStep::WriteRow(line) => assert_eq!(
            line,
            r#"{"codec":"zenwebp","encode_ms":1.5,"encoded_bytes":99,"image_path":"a.png","kind":"metric","knob_tuple_json":"{\"method\":4}","metric":"ssimulacra2","q":75,"score":88.5,"scores":{"ssim2":88.5}}"#
        ),
        other => panic!("expected a row, got {other:?}"),
    }
    r.scored = Some(Err("bad".to_string()));
    assert!(matches!(run(&job, &r), JobStep::Fail(e) if e == "bad"));
    r.encoded = Some(Err("no".to_string()));
    assert!(matches!(run(&job, &r), JobStep::Fail(e) if e == "no"));
}

#[test]
fn jobs_that_cannot_be_read_or_done() {
    assert!(read_job("{").unwrap_err().starts_with("parse DesiredJob: "));
    assert_eq!(read_job("{}").unwrap_err(), "job.kind.kind missing");
    let cut = |from: &str, to: &str| read_job(&JOB.replace(from, to));
    assert_eq!(
        cut("image_path", "x").unwrap_err(),
        "cell.image_path missing"
    );
    assert_eq!(cut("\"codec\"", "\"x\"").unwrap_err(), "cell.codec missing");
    assert_eq!(cut("75", "7.5").unwrap_err(), "cell.q missing");
    assert!(cut("{\\\"method\\\":4}", "[]")
        .unwrap_err()
        .starts_with("parse knob_tuple_json: "));
    let done = JobReplies {
        source: Some(Ok(())),
        encoded: Some(Ok(EncodedBytes {
            bytes: 1,
            encode_ms: "1".to_string(),
        })),
        decoded: None,
        scored: None,
    };
    let encode = cut("\"kind\":\"metric\"", "\"kind\":\"encode\"").unwrap();
    assert!(matches!(run(&encode, &done), JobStep::WriteBytes));
    let other = cut("\"kind\":\"metric\"", "\"kind\":\"dance\"").unwrap();
    assert!(
        matches!(run(&other, &done), JobStep::Fail(e) if e == "jobexec: unhandled job kind \"dance\"")
    );
    let none = cut("\"metric\":\"ssimulacra2\"", "\"x\":1").unwrap();
    assert!(matches!(run(&none, &done), JobStep::Fail(e) if e == "metric job missing kind.metric"));
    // The metric's name is looked at once the cell is decoded.
    let odd = cut("ssimulacra2", "psnr").unwrap();
    assert!(matches!(run(&odd, &done), JobStep::DecodeBack(_)));
    let mut back = done;
    back.decoded = Some(Err("cut short".to_string()));
    assert!(matches!(run(&odd, &back), JobStep::Fail(e) if e == "cut short"));
    back.decoded = Some(Ok(()));
    assert!(matches!(run(&odd, &back), JobStep::Fail(e) if e.contains("psnr")));
}

// ── A high dynamic range ───────────────────────────────────────────────

#[test]
fn hdr_inputs_go_by_extension() {
    assert_eq!(decode_to_nits("EXR"), Ok(HdrFormat::Exr));
    assert_eq!(decode_to_nits("heif"), Ok(HdrFormat::Heic));
    assert_eq!(decode_to_nits("jpg"), Ok(HdrFormat::UltraHdrJpeg));
    assert_eq!(
        decode_to_nits("Png").unwrap_err(),
        "unsupported HDR input extension: .png"
    );
}

#[test]
fn hdr_numbers_are_moved() {
    // Two rows of two pixels in rows of three.
    let f: Vec<u32> = (0..24).collect();
    assert_eq!(
        pixelbuffer_to_nits(&f, 2, 2),
        vec![0, 1, 2, 4, 5, 6, 12, 13, 14, 16, 17, 18]
    );
    assert_eq!(
        split_planes(&vec![1, 2, 3, 4, 5, 6, 7]),
        (vec![1, 4], vec![2, 5], vec![3, 6])
    );
}

#[test]
fn hdr_metrics_have_a_scorer() {
    assert_eq!(
        to_umbrella_kind(MetricKind::Ssim2, CPU_ONLY),
        Some(HdrMetric::Ssim2)
    );
    assert_eq!(to_umbrella_kind(MetricKind::Cvvdp, CPU_ONLY), None);
    assert_eq!(to_umbrella_kind(MetricKind::Iwssim, ALL), None);
    assert_eq!(
        score_via_hdr_scorer(MetricKind::Dssim, GpuRuntime::Hip, CPU_ONLY),
        Some((HdrMetric::Dssim, HdrBackend::Processor))
    );
    assert_eq!(
        score_via_hdr_scorer(MetricKind::Cvvdp, GpuRuntime::Cuda, ALL),
        Some((HdrMetric::Cvvdp, HdrBackend::Gpu(Backend::Cuda)))
    );
    assert_eq!(
        score_via_hdr_scorer(MetricKind::Cvvdp, GpuRuntime::Hip, ALL),
        None
    );
    assert_eq!(
        hdr_rows(MetricKind::Butteraugli, ALL, 1, None, Some(3), 9),
        vec![("butteraugli_max", 1), ("butteraugli_pnorm3", 3)]
    );
    assert_eq!(
        hdr_rows(MetricKind::Butteraugli, ALL, 1, Some(2), None, 9),
        vec![("butteraugli_max", 2), ("butteraugli_pnorm3", 9)]
    );
    assert_eq!(
        hdr_rows(MetricKind::Cvvdp, CPU_ONLY, 5, None, None, 9),
        vec![("cvvdp", 5)]
    );
    assert_eq!(
        hdr_rows(MetricKind::Cvvdp, ALL, 5, None, None, 9),
        vec![("cvvdp_imazen_v0_0_1", 5)]
    );
}

// ── Images for the processor's metrics ─────────────────────────────────

#[test]
fn small_images_are_mirrored() {
    let p = pad_rgb8_to_min(&vec![1, 1, 1, 2, 2, 2, 3, 3, 3], 3, 1, 8);
    assert_eq!((p.width, p.height), (8, 8));
    let first: Vec<u8> = p.pixels[..24].chunks(3).map(|c| c[0]).collect();
    assert_eq!(first, vec![1, 2, 3, 2, 1, 2, 3, 2]);
    assert_eq!(&p.pixels[24..48], &p.pixels[..24]);
    let big = vec![7u8; 9 * 9 * 3];
    assert_eq!(pad_rgb8_to_min(&big, 9, 9, 8).pixels, big);
}

#[test]
fn images_are_checked_before_scoring() {
    assert_eq!(
        ssim2_image(&Vec::new(), 0, 4).unwrap_err(),
        "ssim2: image has zero dimension"
    );
    assert_eq!(
        ssim2_image(&vec![0; 11], 2, 2).unwrap_err(),
        "ssim2: pixel buffer is not packed w*h*3 RGB8"
    );
    assert_eq!(ssim2_image(&vec![0; 12], 2, 2).unwrap().width, 8);
    let a = vec![0u8; 12];
    assert!(butteraugli_images(&a, 2, 2, &a, 2, 2).is_ok());
    assert_eq!(
        butteraugli_images(&a, 2, 2, &vec![0; 9], 2, 2).unwrap_err(),
        "butteraugli: pixel buffer is not packed w*h*3 RGB8"
    );
    assert!(check_dssim(2, 2, 12, 2, 2, 12).is_ok());
    assert_eq!(
        check_dssim(2, 2, 9, 2, 2, 12).unwrap_err(),
        "dssim: pixel count != width*height"
    );
    assert_eq!(
        check_dssim(2, 2, 12, 4, 1, 12).unwrap_err(),
        "dssim: reference and distorted dimensions differ"
    );
}

// ── Kept instances ─────────────────────────────────────────────────────

#[test]
fn backends_of_runtimes() {
    assert_eq!(
        gpu_runtime_to_backend(GpuRuntime::Cpu),
        Ok(Backend::CubeclCpu)
    );
    assert!(gpu_runtime_to_backend(GpuRuntime::Auto).is_err());
    assert_eq!(backend_label(Backend::CubeclCpu), "cpu");
    assert_eq!(
        runtime_missing(GpuRuntime::Hip),
        "hip runtime not compiled in (rebuild with `--features gpu-hip`)"
    );
}

#[test]
fn metrics_are_kept_by_size_and_features() {
    assert_eq!(
        run_metric_cached(MetricKind::ZensimGpu, ALL),
        CacheRoute::Kept(GpuMetric::Zensim, Some(ZensimFeatureRegime::Basic))
    );
    assert_eq!(
        run_metric_cached(MetricKind::Iwssim, ALL),
        CacheRoute::Kept(GpuMetric::Iwssim, None)
    );
    assert_eq!(
        run_metric_cached(MetricKind::ButteraugliGpu, ALL),
        CacheRoute::Butter
    );
    assert_eq!(
        run_metric_cached(MetricKind::Ssim2Gpu, CPU_ONLY),
        CacheRoute::Uncached
    );
    let mut c = MetricCache::new(GpuRuntime::Auto);
    assert_eq!(c.get_or_build_umbrella(GpuMetric::Ssim2, 8, 8, None), None);
    c.install(
        GpuMetric::Ssim2,
        Slot {
            width: 8,
            height: 8,
            regime: None,
            backend: Backend::Wgpu,
        },
    );
    assert_eq!(
        c.get_or_build_umbrella(GpuMetric::Ssim2, 8, 8, None),
        Some(Backend::Wgpu)
    );
    assert_eq!(c.get_or_build_umbrella(GpuMetric::Cvvdp, 8, 8, None), None);
    assert_eq!(
        c.get_or_build_umbrella(GpuMetric::Ssim2, 8, 8, None),
        Some(Backend::Wgpu)
    );
    assert_eq!(c.get_or_build_umbrella(GpuMetric::Ssim2, 9, 8, None), None);
    assert_eq!(c.get_or_build_umbrella(GpuMetric::Ssim2, 8, 8, None), None);
    let mut b = BatchSlot::new();
    assert!(!b.prepare(4, 4));
    b.keep(4, 4);
    assert!(b.prepare(4, 4));
    assert!(!b.prepare(4, 5));
    assert!(!b.prepare(4, 4));
}

#[test]
fn instances_are_made_on_the_first_runtime_that_works() {
    let flags = MetricFlags::default();
    let regime = Some(ZensimFeatureRegime::WithIw);
    let mut c = MetricCache::new(GpuRuntime::Auto);
    assert_eq!(
        c.compute_umbrella(GpuMetric::Zensim, "zensim-gpu", (8, 8), (8, 9), regime)
            .unwrap_err(),
        "zensim-gpu: reference (8×8) and distorted (8×9) differ in size"
    );
    assert_eq!(
        c.compute_umbrella(GpuMetric::Zensim, "zensim-gpu", (8, 8), (8, 8), regime),
        Ok(None)
    );
    let mut walk = RuntimeWalk::start("zensim", GpuRuntime::Auto, ALL_RUNTIMES);
    let slot = |backend| Slot {
        width: 8,
        height: 8,
        regime,
        backend,
    };
    assert_eq!(
        construct_umbrella(&walk, GpuMetric::Zensim, regime, &flags),
        Ok((
            Backend::Cuda,
            GpuParams::Features(ZensimFeatureRegime::WithIw)
        ))
    );
    let none = Some("no device".to_string());
    assert!(!c.constructed(&mut walk, GpuMetric::Zensim, slot(Backend::Cuda), none));
    assert_eq!(
        construct_umbrella(&walk, GpuMetric::Zensim, regime, &flags)
            .unwrap()
            .0,
        Backend::Wgpu
    );
    assert!(c.constructed(&mut walk, GpuMetric::Zensim, slot(Backend::Wgpu), None));
    assert_eq!(
        c.compute_umbrella(GpuMetric::Zensim, "zensim-gpu", (8, 8), (8, 8), regime),
        Ok(Some(Backend::Wgpu))
    );
    assert!(c
        .compute_umbrella(GpuMetric::Zensim, "zensim-gpu", (8, 8), (7, 8), regime)
        .is_err());
    assert_eq!(
        c.compute_umbrella(GpuMetric::Zensim, "zensim-gpu", (8, 8), (8, 8), regime),
        Ok(Some(Backend::Wgpu))
    );
    let mut one = RuntimeWalk::start("dssim", GpuRuntime::Hip, ALL_RUNTIMES);
    let none = Some("no device".to_string());
    assert!(!c.constructed(&mut one, GpuMetric::Dssim, slot(Backend::Hip), none));
    assert_eq!(
        construct_umbrella(&one, GpuMetric::Dssim, None, &flags).unwrap_err(),
        "dssim: no runtime succeeded; tried [hip: no device]"
    );
}

#[test]
fn butteraugli_keeps_one_instance() {
    let mut c = MetricCache::new(GpuRuntime::Cuda);
    assert_eq!(
        c.compute_butter((4, 4), (4, 5)).unwrap_err(),
        "butteraugli-gpu: reference (4×4) and distorted (4×5) differ in size"
    );
    assert_eq!(
        c.compute_butter((4, 4), (4, 4)),
        Ok(ButterAction::ChooseRuntime)
    );
    c.butter = Some(BatchSlot::new());
    assert_eq!(c.compute_butter((4, 4), (4, 4)), Ok(ButterAction::Make));
    c.butter.as_mut().unwrap().keep(4, 4);
    assert_eq!(c.compute_butter((4, 4), (4, 4)), Ok(ButterAction::Score));
    assert_eq!(c.compute_butter((5, 4), (5, 4)), Ok(ButterAction::Make));
    assert_eq!(c.compute_butter((4, 4), (4, 4)), Ok(ButterAction::Make));
}

#[test]
fn replies_of_kept_instances_are_judged() {
    assert_eq!(
        judge_reply("cvvdp", Backend::Cuda, Attempt::Scored(3)),
        Ok(3)
    );
    let bad: Attempt<u32> = Attempt::NotFinite("inf".to_string());
    assert_eq!(
        judge_reply("cvvdp", Backend::Cuda, bad).unwrap_err(),
        "cvvdp (cuda): non-finite score inf"
    );
    assert!(matches!(
        compute_zensim_features(ZensimFeatureRegime::Basic, 1, None, 228),
        Attempt::Scored(1)
    ));
    assert!(matches!(
        compute_zensim_features(ZensimFeatureRegime::Basic, 1, None, 300),
        Attempt::WrongCount {
            expected: 228,
            got: 300
        }
    ));
    assert!(matches!(
        compute_zensim_features(
            ZensimFeatureRegime::Basic,
            1,
            Some("NaN".to_string()),
            300
        ),
        Attempt::NotFinite(_)
    ));
    assert_eq!(
        check_batch_pair(1, 2, 3, 4).unwrap_err(),
        "dimension mismatch: ref 1x2 vs dist 3x4"
    );
    let s = |a: Option<&str>, b: Option<&str>| ButterReply::Scored {
        max: 1,
        pnorm3: 2,
        bad_max: a.map(|x| x.to_string()),
        bad_pnorm3: b.map(|x| x.to_string()),
    };
    assert_eq!(judge_butter(s(None, None)), Ok((1, 2)));
    assert_eq!(
        judge_butter(s(Some("NaN"), Some("inf"))).unwrap_err(),
        "butteraugli-gpu produced non-finite max-norm: NaN"
    );
    assert_eq!(
        judge_butter(s(None, Some("inf"))).unwrap_err(),
        "butteraugli-gpu produced non-finite pnorm_3: inf"
    );
    let f: ButterReply<u32> = ButterReply::Failed("x".to_string());
    assert_eq!(judge_butter(f).unwrap_err(), "butteraugli-gpu: x");
}
