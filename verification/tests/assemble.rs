use std::collections::HashMap;
use zen_metrics::assemble::join::{
    assert_no_leaked_columns, assert_not_constant_per_ref, assert_not_constant_per_ref_tuned,
    attach_positional, leak_metric_prefixes, ref_groups, safe_join, AnchorRows, JoinHow, RefGroups,
};
use zen_metrics::assemble::key::PairKey;
use zen_metrics::assemble::table::{
    AssembleError, Column, IntCell, Real, StrCell, Table, Variant,
};

/// A real number as the library holds it.
fn number(f: f64) -> Real {
    Real {
        bits: f.to_bits(),
        text: if f.fract() == 0.0 && f.is_finite() {
            format!("{}", f as i64)
        } else {
            format!("{f}")
        },
    }
}

fn value(r: Real) -> f64 {
    f64::from_bits(r.bits)
}

fn texts(v: &[Option<&str>]) -> Column {
    Column::Str(
        v.iter()
            .map(|t| StrCell {
                text: t.map(|s| s.to_string()),
                real: number(t.and_then(|s| s.parse().ok()).unwrap_or(f64::NAN)),
            })
            .collect(),
    )
}

fn words(v: &[&str]) -> Column {
    texts(&v.iter().map(|s| Some(*s)).collect::<Vec<_>>())
}

fn reals(v: &[f64]) -> Column {
    Column::F64(v.iter().map(|f| number(*f)).collect())
}

fn ints(v: &[i64]) -> Column {
    Column::I64(
        v.iter()
            .map(|n| IntCell {
                value: *n,
                real: number(*n as f64),
            })
            .collect(),
    )
}

fn table(cols: Vec<(&str, Column)>) -> Table {
    Table::from_columns(cols.into_iter().map(|(n, c)| (n.to_string(), c)).collect()).unwrap()
}

fn f64_at(t: &Table, name: &str, i: usize) -> f64 {
    value(t.column(name).unwrap().f64_at(i))
}

/// A metric table with the full key of each pair.
fn metric_table(
    image_paths: &[&str],
    codecs: &[&str],
    qs: &[i64],
    knobs: &[&str],
    col: &str,
    vals: &[f64],
) -> Table {
    table(vec![
        ("image_path", words(image_paths)),
        ("codec", words(codecs)),
        ("q", ints(qs)),
        ("knob_tuple_json", words(knobs)),
        (col, reals(vals)),
    ])
}

#[test]
fn test1_three_way_join_golden_per_cell() {
    let paths = ["A/q50.png", "A/q60.png", "B/q50.png", "B/q60.png"];
    let target = table(vec![
        ("image_path", words(&paths)),
        ("codec", words(&["jpeg"; 4])),
        ("q", ints(&[50, 60, 50, 60])),
        ("knob_tuple_json", words(&["{}"; 4])),
        (
            "ref_basename",
            words(&["A.png", "A.png", "B.png", "B.png"]),
        ),
    ]);
    let zsm = metric_table(
        &paths,
        &["jpeg"; 4],
        &[50, 60, 50, 60],
        &["{}"; 4],
        "zsm_feat_0",
        &[10.0, 11.0, 12.0, 13.0],
    );
    let step1 = safe_join(&target, &zsm, "zsm_feat_0", JoinHow::Inner).unwrap();
    assert_eq!(step1.num_rows(), 4);
    let ssim2 = metric_table(
        &paths,
        &["jpeg"; 4],
        &[50, 60, 50, 60],
        &["{}"; 4],
        "ssim2_gpu",
        &[80.0, 70.0, 90.0, 60.0],
    );
    let step2 = safe_join(&step1, &ssim2, "ssim2_gpu", JoinHow::Inner).unwrap();
    assert_eq!(step2.num_rows(), 4);
    let ip = step2.column("image_path").unwrap();
    let mut got: HashMap<String, (f64, f64)> = HashMap::new();
    for i in 0..step2.num_rows() {
        got.insert(
            ip.key_at(i),
            (
                f64_at(&step2, "zsm_feat_0", i),
                f64_at(&step2, "ssim2_gpu", i),
            ),
        );
    }
    assert_eq!(got["A/q50.png"], (10.0, 80.0));
    assert_eq!(got["A/q60.png"], (11.0, 70.0));
    assert_eq!(got["B/q50.png"], (12.0, 90.0));
    assert_eq!(got["B/q60.png"], (13.0, 60.0));
}

#[test]
fn test2_ref_only_target_is_rejected() {
    let ref_only = table(vec![
        ("ref_basename", words(&["A.png", "A.png", "B.png"])),
        ("human_score", reals(&[10.0, 20.0, 30.0])),
    ]);
    let metric = metric_table(
        &["A/q50.png", "A/q60.png", "B/q50.png"],
        &["jpeg"; 3],
        &[50, 60, 50],
        &["{}"; 3],
        "ssim2_gpu",
        &[80.0, 70.0, 90.0],
    );
    let err = safe_join(&ref_only, &metric, "ssim2_gpu", JoinHow::Left).unwrap_err();
    let msg = err.message();
    assert!(msg.contains("per-pair"), "msg: {msg}");
    assert!(
        msg.contains("ref-misjoin") || msg.contains("ref-only"),
        "msg: {msg}"
    );
    assert!(msg.contains("ref_basename"), "msg: {msg}");
    assert!(PairKey::require_columns("ref_only", &ref_only).is_err());
}

#[test]
fn test3_duplicate_metric_keys_error_not_average() {
    let target = metric_table(
        &["A/q50.png"],
        &["jpeg"],
        &[50],
        &["{}"],
        "human_score",
        &[42.0],
    );
    let dup_metric = metric_table(
        &["A/q50.png", "A/q50.png"],
        &["jpeg", "jpeg"],
        &[50, 50],
        &["{}", "{}"],
        "ssim2_gpu",
        &[80.0, 60.0],
    );
    let err = safe_join(&target, &dup_metric, "ssim2_gpu", JoinHow::Left).unwrap_err();
    let msg = err.message();
    assert!(msg.contains("NOT unique"), "msg: {msg}");
    assert!(msg.contains("averaging"), "msg: {msg}");
}

/// What the leak detector compares, with the tolerance of 1e-9.
fn anchor_rows(t: &Table) -> AnchorRows {
    let n = t.num_rows();
    let anchor: Option<Vec<f64>> = t
        .column("human_score")
        .map(|c| (0..n).map(|i| value(c.f64_at(i))).collect());
    let mut close = Vec::new();
    let mut shares = Vec::new();
    for name in t.column_names() {
        let c = t.column(name).unwrap();
        let row: Vec<bool> = (0..n)
            .map(|i| match &anchor {
                Some(a) => (value(c.f64_at(i)) - a[i]).abs() <= 1e-9,
                None => false,
            })
            .collect();
        let same = row.iter().filter(|b| **b).count();
        shares.push(format!("{:.1}", same as f64 / n as f64 * 100.0));
        close.push(row);
    }
    AnchorRows { close, shares }
}

fn leaked(label: &str, t: &Table) -> Result<(), AssembleError> {
    assert_no_leaked_columns(label, t, &anchor_rows(t))
}

#[test]
fn test4a_mock_column_rejected() {
    let n = 150usize;
    let t = table(vec![
        (
            "human_score",
            reals(&(0..n).map(|i| i as f64).collect::<Vec<_>>()),
        ),
        (
            "iwssim_mock",
            reals(&(0..n).map(|i| (i as f64) * 0.5).collect::<Vec<_>>()),
        ),
    ]);
    let msg = leaked("kadid_training", &t).unwrap_err().message();
    assert!(msg.contains("MOCK"), "msg: {msg}");
}

#[test]
fn test4b_human_copy_rejected_mix_and_rescale_allowed() {
    let n = 200usize;
    let human: Vec<f64> = (0..n).map(|i| 10.0 + i as f64 * 0.3).collect();
    let leak = table(vec![
        ("human_score", reals(&human)),
        ("iwssim", reals(&human)),
    ]);
    let msg = leaked("tid_training", &leak).unwrap_err().message();
    assert!(msg.contains("bit-identical"), "{msg}");
    let mix_ok = table(vec![
        ("human_score", reals(&human)),
        ("mix_cv40_iw60", reals(&human)),
    ]);
    assert!(leaked("konjnd_dense", &mix_ok).is_ok());
    let mix_of_metrics = table(vec![
        ("human_score", reals(&human)),
        ("mix_iwssim", reals(&human)),
    ]);
    assert!(leaked("konjnd_dense", &mix_of_metrics).is_ok());
    let inside = table(vec![
        ("human_score", reals(&human)),
        ("fast_ssim2", reals(&human)),
    ]);
    assert!(leaked("tid_training", &inside).is_err());
    let scaled: Vec<f64> = human.iter().map(|x| x / 100.0).collect();
    let rescale = table(vec![
        ("human_score", reals(&human)),
        ("ssim2_gpu", reals(&scaled)),
    ]);
    assert!(leaked("safesyn", &rescale).is_ok());
    assert!(leak_metric_prefixes().iter().any(|p| p == "iwssim"));
}

#[test]
fn few_rows_decide_nothing() {
    let human: Vec<f64> = (0..99).map(|i| i as f64).collect();
    let t = table(vec![
        ("human_score", reals(&human)),
        ("iwssim", reals(&human)),
    ]);
    assert!(leaked("small", &t).is_ok());
}

/// Scores rounded to four decimals, in units of the last one.
fn rounded(t: &Table, col: &str) -> Vec<i64> {
    (0..t.num_rows())
        .map(|i| (f64_at(t, col, i) * 10_000.0).round() as i64)
        .collect()
}

fn groups(t: &Table) -> RefGroups {
    ref_groups(t, "ref_basename", "ssim2_gpu", &rounded(t, "ssim2_gpu")).unwrap()
}

#[test]
fn test4c_constant_per_ref_detector() {
    let mut refs: Vec<String> = Vec::new();
    let mut ssim2: Vec<f64> = Vec::new();
    for r in 0..6 {
        for _ in 0..3 {
            refs.push(format!("ref{r}"));
            ssim2.push(50.0 + r as f64);
        }
    }
    let names: Vec<&str> = refs.iter().map(|s| s.as_str()).collect();
    let broadcast = table(vec![
        ("ref_basename", words(&names)),
        ("ssim2_gpu", reals(&ssim2)),
    ]);
    let g = groups(&broadcast);
    assert_eq!((g.refs, g.rows, g.constant), (6, 18, true));
    let err =
        assert_not_constant_per_ref_tuned("kadid", "ref_basename", "ssim2_gpu", g, 5, 3, 2, "3.0")
            .unwrap_err();
    assert!(
        err.message().contains("constant within every"),
        "{}",
        err.message()
    );
    let one: Vec<String> = (0..6).map(|r| format!("ref{r}")).collect();
    let names: Vec<&str> = one.iter().map(|s| s.as_str()).collect();
    let perpair = table(vec![
        ("ref_basename", words(&names)),
        (
            "ssim2_gpu",
            reals(&(0..6).map(|i| 50.0 + i as f64).collect::<Vec<_>>()),
        ),
    ]);
    assert!(assert_not_constant_per_ref_tuned(
        "scores",
        "ref_basename",
        "ssim2_gpu",
        groups(&perpair),
        5,
        3,
        2,
        "1.0"
    )
    .is_ok());
    // One reference with two scores is enough.
    ssim2[1] += 1.0;
    let names: Vec<&str> = refs.iter().map(|s| s.as_str()).collect();
    let varied = table(vec![
        ("ref_basename", words(&names)),
        ("ssim2_gpu", reals(&ssim2)),
    ]);
    assert!(
        assert_not_constant_per_ref("v", "ref_basename", "ssim2_gpu", groups(&varied), "3.0")
            .is_ok()
    );
    assert!(ref_groups(&varied, "nope", "ssim2_gpu", &rounded(&varied, "ssim2_gpu")).is_err());
}

#[test]
fn test5_positional_length_mismatch_error() {
    let target = table(vec![
        ("ref_basename", words(&["r0", "r1", "r2"])),
        ("human_score", reals(&[1.0, 2.0, 3.0])),
    ]);
    let err =
        attach_positional(&target, &vec![number(10.0), number(20.0)], "ssim2_gpu").unwrap_err();
    assert!(
        err.message().contains("EXACT row-count"),
        "{}",
        err.message()
    );
    let ok = attach_positional(
        &target,
        &vec![number(10.0), number(20.0), number(30.0)],
        "ssim2_gpu",
    )
    .unwrap();
    assert_eq!(f64_at(&ok, "ssim2_gpu", 2), 30.0);
}

#[test]
fn left_joins_keep_every_row() {
    let target = metric_table(
        &["A", "B"],
        &["jpeg"; 2],
        &[50, 50],
        &["{}"; 2],
        "human_score",
        &[1.0, 2.0],
    );
    let metric = metric_table(
        &["B"],
        &["jpeg"],
        &[50],
        &["{}"],
        "ssim2_gpu",
        &[90.0],
    );
    let left = safe_join(&target, &metric, "ssim2_gpu", JoinHow::Left).unwrap();
    assert_eq!(left.num_rows(), 2);
    assert!(f64_at(&left, "ssim2_gpu", 0).is_nan());
    assert_eq!(f64_at(&left, "ssim2_gpu", 1), 90.0);
    let inner = safe_join(&target, &metric, "ssim2_gpu", JoinHow::Inner).unwrap();
    assert_eq!(inner.num_rows(), 1);
    assert_eq!(inner.column("image_path").unwrap().key_at(0), "B");
    assert!(safe_join(&target, &metric, "nope", JoinHow::Left).is_err());
}

// ── Tables ─────────────────────────────────────────────────────────────

#[test]
fn union_widens_mismatched_variants_to_f64() {
    let a = table(vec![("k", words(&["x"])), ("score", ints(&[5]))]);
    let b = table(vec![("k", words(&["y"])), ("score", words(&[""]))]);
    let u = Table::union_by_name(&vec![a, b]).unwrap();
    assert_eq!(u.num_rows(), 2);
    assert!(matches!(u.column("score").unwrap(), Column::F64(_)));
    assert_eq!(f64_at(&u, "score", 0), 5.0);
    assert!(f64_at(&u, "score", 1).is_nan());
}

#[test]
fn union_null_fills_absent_columns() {
    let a = table(vec![("k", words(&["x"])), ("only_a", reals(&[1.0]))]);
    let b = table(vec![("k", words(&["y"]))]);
    let u = Table::union_by_name(&vec![a, b]).unwrap();
    assert_eq!(u.num_rows(), 2);
    assert!(f64_at(&u, "only_a", 1).is_nan());
}

#[test]
fn union_null_fills_absent_integer_columns() {
    let a = table(vec![("k", words(&["x"])), ("q", ints(&[1]))]);
    let b = table(vec![("k", words(&["y"]))]);
    let u = Table::union_by_name(&vec![a, b]).unwrap();
    assert_eq!(u.num_rows(), 2);
    assert!(matches!(u.column("q").unwrap(), Column::F64(_)));
    assert_eq!(f64_at(&u, "q", 0), 1.0);
    assert!(f64_at(&u, "q", 1).is_nan());
    let c = table(vec![("q", ints(&[2]))]);
    let d = table(vec![("q", ints(&[3]))]);
    let whole = Table::union_by_name(&vec![c, d]).unwrap();
    assert!(matches!(whole.column("q").unwrap(), Column::I64(_)));
}

#[test]
fn a_text_is_no_number_until_its_column_is_widened() {
    let a = table(vec![("score", words(&["5"]))]);
    assert!(f64_at(&a, "score", 0).is_nan());
    let b = table(vec![("score", reals(&[6.5]))]);
    let u = Table::union_by_name(&vec![a, b]).unwrap();
    assert_eq!(f64_at(&u, "score", 0), 5.0);
    assert_eq!(f64_at(&u, "score", 1), 6.5);
}

#[test]
fn prefix_columns_namespaces_feat_only() {
    let mut t = table(vec![
        ("image_path", words(&["a"])),
        ("feat_0", reals(&[1.0])),
        ("zensim_score", reals(&[99.0])),
    ]);
    t.prefix_columns_where(
        "zsm_",
        &vec!["image_path".to_string(), "zensim_score".to_string()],
        |n: &str| n.starts_with("feat_"),
    );
    assert!(t.has_column("zsm_feat_0"));
    assert!(t.has_column("image_path"));
    assert!(t.has_column("zensim_score"));
    assert!(!t.has_column("feat_0"));
}

#[test]
fn tables_keep_columns_of_one_length() {
    assert!(Table::from_columns(vec![
        ("a".to_string(), ints(&[1])),
        ("b".to_string(), ints(&[1, 2]))
    ])
    .is_err());
    let mut t = table(vec![("a", ints(&[1, 2])), ("b", words(&["x", "x"]))]);
    assert!(t.set_column("c", ints(&[1])).is_err());
    t.set_column("c", reals(&[0.5, 7.0])).unwrap();
    assert_eq!(t.num_columns(), 3);
    assert_eq!(t.column("c").unwrap().key_at(0), "0.5");
    assert_eq!(t.column("c").unwrap().key_at(1), "7");
    assert_eq!(t.column("a").unwrap().key_at(1), "2");
    assert_eq!(t.column("b").unwrap().variant(), Variant::Str);
    assert_eq!(t.column("b").unwrap().variant_name(), "Str");
    assert_eq!(t.distinct_str("b").unwrap(), vec!["x"]);
    let r = t.take_rows(&vec![1]).unwrap();
    assert_eq!(r.num_rows(), 1);
    assert_eq!(r.column("a").unwrap().key_at(0), "2");
    assert!(t.distinct_str("nope").is_err());
}

#[test]
fn keys_are_the_whole_pair() {
    let t = metric_table(&["A"], &["jpeg"], &[50], &["{}"], "m", &[1.0]);
    assert!(PairKey::require_columns("t", &t).is_ok());
    assert_eq!(PairKey::for_row(&t, 0).parts(), vec!["A", "jpeg", "50", "{}"]);
}
