use zen_metrics::compare::{
    canonical_slots, cell_warning, cmd_compare, compare_header, compare_line, decode_failed,
    render_compare, run_compare, score_one, CompareRow,
};
use zen_metrics::json::Json;
use zen_metrics::listing::{
    check_sources, print_format_list, print_metric_list, sweep_metrics, Decoders,
};
use zen_metrics::metrics::dispatch::Build;
use zen_metrics::metrics::kind::MetricKind;
use zen_metrics::output::{print_score, OutputFormat, Printed, ScoreText};

const BUILD: Build = Build {
    cpu_metrics: true,
    gpu_ssim2: true,
    gpu_butteraugli: true,
    gpu_dssim: true,
    gpu_iwssim: true,
    gpu_zensim: true,
    gpu_cvvdp: true,
    cvvdp_tag: "cvvdp_imazen_v0_0_1",
    iwssim_tag: "iwssim_imazen_v0_0_1",
};

fn score(f: f64) -> ScoreText {
    ScoreText {
        fixed: format!("{f:.6}"),
        exact: format!("{f:?}"),
    }
}

fn strings(v: &[&str]) -> Vec<String> {
    v.iter().map(|s| s.to_string()).collect()
}

fn member<'a>(v: &'a Json, key: &str) -> &'a Json {
    match v {
        Json::Object(m) => {
            for (k, x) in m {
                if k == key {
                    return x;
                }
            }
            panic!("no member {key}")
        }
        other => panic!("no object: {other:?}"),
    }
}

fn lines(p: Printed) -> Vec<String> {
    match p {
        Printed::Lines(l) => l,
        other => panic!("no lines: {other:?}"),
    }
}

#[test]
fn scores_are_printed_in_three_forms() {
    assert_eq!(
        lines(print_score(
            OutputFormat::Plain,
            MetricKind::Zensim,
            BUILD,
            &vec![score(1.5)]
        )),
        vec!["metric=zensim score=1.500000"]
    );
    let two = vec![score(0.0), score(0.25)];
    assert_eq!(
        lines(print_score(OutputFormat::Tsv, MetricKind::Butteraugli, BUILD, &two)),
        vec!["butteraugli_max\tbutteraugli_pnorm3", "0.000000\t0.250000"]
    );
    assert_eq!(
        lines(print_score(
            OutputFormat::Plain,
            MetricKind::Butteraugli,
            BUILD,
            &two
        ))
        .len(),
        2
    );
    match print_score(OutputFormat::Json, MetricKind::Butteraugli, BUILD, &two) {
        Printed::Value(v) => {
            assert!(matches!(member(&v, "metric"), Json::Str(s) if s == "butteraugli"));
            match member(member(&v, "scores"), "butteraugli_pnorm3") {
                Json::Number(n) => assert_eq!(n.text, "0.25"),
                other => panic!("no number: {other:?}"),
            }
        }
        other => panic!("no value: {other:?}"),
    }
}

#[test]
fn images_are_decoded_once() {
    assert_eq!(
        canonical_slots(&strings(&["a", "b", "a", "c", "b"])),
        vec![0, 1, 0, 3, 1]
    );
}

#[test]
fn pairs_that_cannot_be_scored() {
    let ok = Ok((4, 4));
    assert!(score_one(&ok, &ok, "r", "v").is_ok());
    assert_eq!(
        score_one(&ok, &Ok((4, 5)), "r", "v").unwrap_err(),
        "dimension mismatch: r is 4x4, v is 4x5"
    );
    assert_eq!(
        score_one(&Err("a".to_string()), &Err("b".to_string()), "r", "v").unwrap_err(),
        "a"
    );
    assert_eq!(decode_failed("p", "bad"), "decode p: bad");
    assert_eq!(
        cell_warning("r", "v", MetricKind::Ssim2, "bad"),
        "warning: r vs v [ssim2]: bad"
    );
}

#[test]
fn compare_one_ref_two_variants_two_metrics_tsv() {
    let metrics = vec![MetricKind::Zensim, MetricKind::Butteraugli];
    let cells = vec![
        Ok(vec![score(100.0)]),
        Ok(vec![score(0.0), score(0.0)]),
        Ok(vec![score(80.0)]),
        Err("bad".to_string()),
    ];
    let r = run_compare(&strings(&["r"]), &strings(&["v1", "v2"]), 2, &cells);
    assert!(r.had_failures);
    assert_eq!(r.rows.len(), 2);
    let header = compare_header(&metrics, BUILD);
    assert_eq!(
        header,
        vec![
            "reference",
            "variant",
            "zensim",
            "butteraugli_max",
            "butteraugli_pnorm3"
        ]
    );
    assert_eq!(
        compare_header(&vec![MetricKind::Cvvdp], BUILD)[2],
        "cvvdp_imazen_v0_0_1"
    );
    assert_eq!(
        compare_line(&metrics, &r.rows[0]),
        vec!["r", "v1", "100.000000", "0.000000", "0.000000"]
    );
    assert_eq!(
        compare_line(&metrics, &r.rows[1]),
        vec!["r", "v2", "80.000000", "", ""]
    );
}

#[test]
fn compare_one_ref_one_variant_one_metric_json_shape() {
    let rows = vec![CompareRow {
        reference: "r".to_string(),
        variant: "v".to_string(),
        scores: vec![Ok(vec![score(99.5)])],
    }];
    let v = render_compare(&vec![MetricKind::Zensim], BUILD, &rows);
    match member(&v, "metrics") {
        Json::Array(a) => assert!(matches!(&a[0], Json::Str(s) if s == "zensim")),
        other => panic!("no list: {other:?}"),
    }
    match member(&v, "results") {
        Json::Array(a) => {
            assert_eq!(a.len(), 1);
            assert!(matches!(member(&a[0], "reference"), Json::Str(s) if s == "r"));
            match member(member(&a[0], "scores"), "zensim") {
                Json::Number(n) => assert_eq!(n.text, "99.5"),
                other => panic!("no number: {other:?}"),
            }
        }
        other => panic!("no list: {other:?}"),
    }
}

#[test]
fn compare_continues_on_per_cell_failure() {
    let rows = vec![CompareRow {
        reference: "r".to_string(),
        variant: "v".to_string(),
        scores: vec![Err("bad".to_string())],
    }];
    let v = render_compare(&vec![MetricKind::Zensim], BUILD, &rows);
    match member(&v, "results") {
        Json::Array(a) => assert!(matches!(
            member(member(&a[0], "scores"), "zensim"),
            Json::Null
        )),
        other => panic!("no list: {other:?}"),
    }
}

#[test]
fn compare_needs_all_three() {
    assert!(cmd_compare(1, 1, 1).is_ok());
    assert_eq!(
        cmd_compare(0, 1, 1).unwrap_err(),
        "at least one --reference is required"
    );
    assert_eq!(
        cmd_compare(1, 0, 1).unwrap_err(),
        "at least one --variant is required"
    );
    assert_eq!(
        cmd_compare(1, 1, 0).unwrap_err(),
        "at least one --metric is required"
    );
}

#[test]
fn list_metrics_runs() {
    let l = print_metric_list();
    assert_eq!(l[0], "name                 backend  requires_gpu");
    for m in MetricKind::all() {
        let want = format!(
            "{:<20} {:<8} {}",
            m.name(),
            m.backend(),
            if m.requires_gpu() { "yes" } else { "no" }
        );
        assert!(l.contains(&want), "{want}");
    }
    assert_eq!(
        l[l.len() - 1],
        "GPU runtimes (--gpu-runtime): auto, cuda, wgpu, hip, cpu"
    );
    assert_eq!(l[l.len() - 2], "");
}

#[test]
fn list_formats_runs() {
    let all = Decoders {
        png: true,
        jpeg: true,
        webp: true,
        avif: true,
        jxl: true,
    };
    let l = print_format_list(all);
    assert_eq!(
        l,
        vec![
            "png  (zenpng)",
            "jpeg (zenjpeg)",
            "webp (zenwebp)",
            "avif (zenavif)",
            "jxl  (zenjxl)"
        ]
    );
    let none = Decoders {
        png: false,
        jpeg: false,
        webp: false,
        avif: false,
        jxl: false,
    };
    assert!(print_format_list(none)[0].starts_with("(no decoders enabled"));
}

#[test]
fn sweeps_have_a_metric_and_sources() {
    assert_eq!(sweep_metrics(Vec::new()), vec![MetricKind::Zensim]);
    assert_eq!(
        sweep_metrics(vec![MetricKind::Ssim2]),
        vec![MetricKind::Ssim2]
    );
    assert!(check_sources(1, "d").is_ok());
    assert_eq!(
        check_sources(0, "d").unwrap_err(),
        "no source files found in d"
    );
}
