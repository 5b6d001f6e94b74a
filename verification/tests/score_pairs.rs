use zen_metrics::metrics::dispatch::Build;
use zen_metrics::metrics::kind::MetricKind;
use zen_metrics::score_pairs::{
    batch_header, bogus_check, cmd_batch, cmd_score, cmd_score_pairs, exit_status,
    find_pair_columns, metric_range_bounds, pairs_verdict, read_pair, score_column, score_one_pair,
    ScoreClass, ScorePairsOutcome, ScoreSpread,
};
use zen_metrics::json::{parse_json, parse_object, render_json, render_pretty, Json};
use zen_metrics::tsv::{find_col, parse_tsv, tsv_line};

const BUILD: Build = Build {
    cpu_metrics: true,
    gpu_ssim2: true,
    gpu_butteraugli: true,
    gpu_dssim: true,
    gpu_iwssim: true,
    gpu_zensim: true,
    gpu_cvvdp: true,
    cvvdp_tag: "cvvdp_imazen_v0_0_1",
    iwssim_tag: "iwssim_imazen_v0_0_1",
};

/// The checks on a column of scores.
fn passes(metric: MetricKind, scores: &[f64]) -> bool {
    let r = metric_range_bounds(metric);
    let identity = r.identity as f64 / 1000.0;
    let classes: Vec<ScoreClass> = scores
        .iter()
        .map(|s| {
            if s.is_nan() {
                ScoreClass::NotANumber
            } else if s.is_finite() {
                ScoreClass::Finite {
                    at_identity: (s - identity).abs() <= 1e-9,
                }
            } else {
                ScoreClass::Infinite
            }
        })
        .collect();
    let finite: Vec<f64> = scores.iter().copied().filter(|s| s.is_finite()).collect();
    let mean = finite.iter().sum::<f64>() / finite.len() as f64;
    let min = finite.iter().cloned().fold(f64::INFINITY, f64::min);
    let max = finite.iter().cloned().fold(f64::NEG_INFINITY, f64::max);
    let spread = ScoreSpread {
        mean_in_range: !(mean < r.min_mean as f64 / 1000.0 || mean > r.max_mean as f64 / 1000.0),
        constant: max - min < 0.01,
    };
    bogus_check(&classes, spread).passed()
}

#[test]
fn bogus_check_passes_clean_iwssim_distribution() {
    let scores: Vec<f64> = (0..100).map(|i| 0.70 + (i as f64) * 0.0028).collect();
    assert!(passes(MetricKind::IwssimGpu, &scores));
}

#[test]
fn bogus_check_rejects_any_nan() {
    let mut scores: Vec<f64> = (0..50).map(|i| 0.70 + (i as f64) * 0.005).collect();
    scores[12] = f64::NAN;
    assert!(!passes(MetricKind::IwssimGpu, &scores));
}

#[test]
fn bogus_check_rejects_all_zero_iwssim() {
    assert!(!passes(MetricKind::IwssimGpu, &[0.0; 100]));
}

#[test]
fn bogus_check_rejects_majority_at_identity() {
    let mut scores: Vec<f64> = vec![10.0; 60];
    scores.extend((0..40).map(|i| 7.0 + (i as f64) * 0.02));
    assert!(!passes(MetricKind::Cvvdp, &scores));
}

#[test]
fn bogus_check_rejects_constant_output() {
    assert!(!passes(MetricKind::IwssimGpu, &[0.8; 100]));
}

#[test]
fn bogus_check_rejects_mean_out_of_range() {
    let scores: Vec<f64> = (0..100).map(|i| -0.6 + (i as f64) * 0.001).collect();
    assert!(!passes(MetricKind::IwssimGpu, &scores));
}

#[test]
fn bogus_check_passes_clean_cvvdp_distribution() {
    let scores: Vec<f64> = (0..50).map(|i| 6.0 + (i as f64) * 0.076).collect();
    assert!(passes(MetricKind::Cvvdp, &scores));
}

#[test]
fn bogus_check_passes_clean_ssim2_distribution() {
    let scores: Vec<f64> = (0..100).map(|i| 30.0 + (i as f64) * 0.65).collect();
    assert!(passes(MetricKind::Ssim2, &scores));
}

#[test]
fn bogus_check_handles_few_rows() {
    assert!(passes(MetricKind::IwssimGpu, &[0.85, 0.85, 0.85]));
    assert!(!passes(MetricKind::Cvvdp, &[10.0, 10.0, 10.0]));
}

#[test]
fn bogus_check_rejects_empty_column() {
    assert!(!passes(MetricKind::IwssimGpu, &[]));
    assert!(!passes(MetricKind::IwssimGpu, &[f64::INFINITY]));
}

#[test]
fn verdicts_and_exit_statuses() {
    let spread = ScoreSpread {
        mean_in_range: true,
        constant: false,
    };
    let bad = bogus_check(&Vec::new(), spread);
    assert_eq!(pairs_verdict(true, &bad), ScorePairsOutcome::Bogus);
    assert_eq!(pairs_verdict(false, &bad), ScorePairsOutcome::Good);
    assert_eq!(exit_status(ScorePairsOutcome::Bogus), 2);
    assert_eq!(exit_status(ScorePairsOutcome::Good), 0);
}

fn strings(v: &[&str]) -> Vec<String> {
    v.iter().map(|s| s.to_string()).collect()
}

#[test]
fn columns_go_by_either_name() {
    assert_eq!(
        find_col(&strings(&["a", "B"]), &strings(&["b"])),
        Ok(1)
    );
    let c = find_pair_columns(&strings(&["Reference", "dist_path", "q"])).unwrap();
    assert_eq!((c.reference, c.distorted, c.q), (0, 1, Some(2)));
    assert_eq!(
        find_pair_columns(&strings(&["ref_path"])).unwrap_err(),
        "input TSV is missing one of the expected columns: [\"dist_path\", \"distorted\"]"
    );
}

#[test]
fn pairs_have_an_identity() {
    let c = find_pair_columns(&strings(&["ref_path", "dist_path"])).unwrap();
    let p = read_pair(c, &strings(&["r", "d"])).unwrap();
    assert_eq!(
        (p.image_path.as_str(), p.codec.as_str(), p.q, p.knobs.as_str()),
        ("r", "", 0, "{}")
    );
    assert_eq!(
        read_pair(c, &strings(&["r"])).unwrap_err(),
        "missing dist_path"
    );
    assert_eq!(read_pair(c, &Vec::new()).unwrap_err(), "missing ref_path");
    let c = find_pair_columns(&strings(&["ref_path", "dist_path", "q"])).unwrap();
    assert_eq!(read_pair(c, &strings(&["r", "d", "-7"])).unwrap().q, -7);
    assert_eq!(read_pair(c, &strings(&["r", "d", "7.5"])).unwrap().q, 0);
}

#[test]
fn tables_of_pairs() {
    let t = parse_tsv(b"ref_path\tdist_path\nr\td\ns\te\n").unwrap();
    let p = cmd_score_pairs(MetricKind::Zensim, BUILD, &t, &Ok(()), &vec![true, false]).unwrap();
    assert_eq!(
        (p.column, p.rows.len(), p.succeeded, p.failed),
        ("zensim", 2, 1, 1)
    );
    assert!(cmd_score_pairs(MetricKind::Butteraugli, BUILD, &t, &Ok(()), &vec![true, true])
        .unwrap_err()
        .contains("emits 2 columns ([\"butteraugli_max\", \"butteraugli_pnorm3\"])"));
    let empty = parse_tsv(b"ref_path\tdist_path\n").unwrap();
    assert_eq!(
        cmd_score_pairs(MetricKind::Zensim, BUILD, &empty, &Ok(()), &Vec::new()).unwrap_err(),
        "score-pairs: input TSV produced no rows"
    );
    assert_eq!(score_column(MetricKind::Ssim2, BUILD), Ok("ssim2"));
    let all = vec![true, true];
    let p = cmd_score_pairs(MetricKind::Cvvdp, BUILD, &t, &Ok(()), &all).unwrap();
    assert_eq!(p.column, "cvvdp_imazen_v0_0_1");
    let lost = Err("no device".to_string());
    assert_eq!(
        cmd_score_pairs(MetricKind::Cvvdp, BUILD, &t, &lost, &all).unwrap_err(),
        "CvvdpBatchScorer init: no device"
    );
    assert!(cmd_score_pairs(MetricKind::Zensim, BUILD, &t, &lost, &all).is_ok());
}

#[test]
fn one_pair() {
    assert_eq!(
        score_one_pair("r", 4, 4, "d", 4, 4, Ok(vec![1.5, 2.5])),
        Ok(1.5)
    );
    assert_eq!(
        score_one_pair("r", 4, 4, "d", 4, 5, Ok(vec![1.5])).unwrap_err(),
        "dimension mismatch: r (4x4) vs d (4x5)"
    );
    let none: Vec<f64> = Vec::new();
    assert_eq!(
        score_one_pair("r", 4, 4, "d", 4, 4, Ok(none)).unwrap_err(),
        "metric returned zero scores"
    );
    assert!(cmd_score(1, 2, 1, 2).is_ok());
    assert_eq!(
        cmd_score(1, 2, 3, 4).unwrap_err(),
        "dimension mismatch: reference is 1x2, distorted is 3x4"
    );
}

#[test]
fn batch_zensim_appends_metric_column() {
    let t = parse_tsv(b"ref_path\tdist_path\tlabel\nr\td\tpair_a\n").unwrap();
    assert_eq!(
        batch_header(&t.headers, MetricKind::Zensim, BUILD),
        vec!["ref_path", "dist_path", "label", "zensim"]
    );
    let c = find_pair_columns(&t.headers).unwrap();
    let row = cmd_batch(
        c,
        &t.records[0],
        ((8, 8), (8, 8)),
        &Ok(strings(&["100.000000"])),
    )
    .unwrap();
    assert_eq!(row, vec!["r", "d", "pair_a", "100.000000"]);
    assert_eq!(
        cmd_batch(c, &t.records[0], ((8, 8), (8, 9)), &Ok(strings(&["1"]))).unwrap_err(),
        "dimension mismatch on row: r (8x8) vs d (8x9)"
    );
    assert_eq!(
        cmd_batch(
            c,
            &Err("bad record".to_string()),
            ((8, 8), (8, 8)),
            &Ok(Vec::new())
        )
        .unwrap_err(),
        "bad record"
    );
}

#[test]
fn tables_are_read_with_tabs() {
    let t = parse_tsv(b"a\tb\n1\t\"x\ty\"\n1\n").unwrap();
    assert_eq!(t.headers, vec!["a", "b"]);
    assert_eq!(t.records[0], Ok(strings(&["1", "x\ty"])));
    assert!(t.records[1].is_err());
    assert!(parse_tsv(b"\xff\n").is_err());
}

fn line(fields: &[&str]) -> String {
    tsv_line(&fields.iter().map(|f| f.to_string()).collect())
}

#[test]
fn records_are_written_with_the_quotes_they_need() {
    assert_eq!(line(&["a", "b c", ""]), "a\tb c\t\n");
    assert_eq!(line(&["a\tb", "{\"k\":1}"]), "\"a\tb\"\t\"{\"\"k\"\":1}\"\n");
    assert_eq!(line(&["x\ny", "\r"]), "\"x\ny\"\t\"\r\"\n");
    assert_eq!(line(&[""]), "\"\"\n");
    assert_eq!(line(&[]), "\"\"\n");
    assert_eq!(line(&["", ""]), "\t\n");
}

#[test]
fn plain_fields_stand_between_tabs() {
    let fields = ["img.png", "85", "", "0.5"];
    let text = line(&fields);
    let pieces: Vec<&str> = text.trim_end_matches('\n').split('\t').collect();
    assert_eq!(pieces, fields);
}

#[test]
fn written_records_are_read_back() {
    let row = ["a\tb", "say \"hi\"", "{\"q\":85}"];
    let text = format!("{}{}", line(&["x", "y", "z"]), line(&row));
    let t = parse_tsv(text.as_bytes()).unwrap();
    assert_eq!(t.headers, vec!["x", "y", "z"]);
    assert_eq!(t.records[0].as_ref().unwrap(), &row);
}

#[test]
fn json_texts_are_read_and_written() {
    let v = parse_json("{ \"b\": [1, -2.5, null], \"a\": \"x\\n\" }").unwrap();
    assert_eq!(render_json(&v), "{\"a\":\"x\\n\",\"b\":[1,-2.5,null]}");
    assert_eq!(
        render_pretty(&v),
        "{\n  \"a\": \"x\\n\",\n  \"b\": [\n    1,\n    -2.5,\n    null\n  ]\n}"
    );
    let m = parse_object("{\"k\": true}").unwrap();
    assert_eq!(m.len(), 1);
    assert_eq!(m[0].0, "k");
    assert!(matches!(m[0].1, Json::Bool(true)));
    assert!(parse_object("[]").is_err());
    assert!(parse_json("{").is_err());
}
