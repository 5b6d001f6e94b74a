use zen_metrics::backfill::{
    accumulate, backfill_one_tsv, backfill_row, extract_chunk_id, feature_keys, find_columns,
    list_r2_chunk_tsvs, parse_codec, parse_knob_json, r2_chunk, r2_object_exists, r2_prefixes,
    read_row, resolve_image_path, resolve_places, run_backfill, run_r2_backfill,
    walk_find_basename, BackfillConfig, BackfillMode, BackfillReplies, BackfillStats, BackfillStep,
    Candidate, ChunkOutcome, ChunkReplies, ChunkStats, ChunkStep, Entry, RowOutcome, RowPlan,
    RowCodec, RowReplies, RowStep, SourceCache,
};
use zen_metrics::json::{get_u64, Json};
use zen_metrics::sweep::encode::CodecKind;
use zen_metrics::tsv::parse_tsv;

#[test]
fn extract_chunk_id_basic() {
    assert_eq!(
        extract_chunk_id("s3://zentrain/run/zenwebp/zenwebp-007.tsv"),
        "zenwebp-007"
    );
    assert_eq!(extract_chunk_id("zenavif-001.tsv"), "zenavif-001");
}

#[test]
fn parse_codec_known() {
    assert!(matches!(parse_codec("zenwebp"), Some(CodecKind::Zenwebp)));
    assert!(matches!(
        parse_codec("  zenavif "),
        Some(CodecKind::Zenavif)
    ));
    assert!(parse_codec("nope").is_none());
}

#[test]
fn parse_knob_json_empty_object() {
    let m = parse_knob_json("{}").unwrap();
    assert!(m.is_empty());
    assert!(parse_knob_json("  ").unwrap().is_empty());
}

#[test]
fn parse_knob_json_with_values() {
    let m = parse_knob_json(r#"{"method": 4, "segments": 2}"#).unwrap();
    assert_eq!(get_u64(&m, "method"), Some(4));
    assert!(parse_knob_json("[1]").is_err());
    assert!(parse_knob_json("{").is_err());
}

/// A corpus: the files that it holds, by their path below its root.
struct Corpus {
    files: Vec<&'static str>,
}

impl Corpus {
    fn is_file(&self, path: &str) -> bool {
        self.files.iter().any(|f| *f == path)
    }

    /// What stands in a directory.
    fn entries(&self, dir: &str) -> Vec<Entry> {
        let lead = if dir.is_empty() {
            "".to_string()
        } else {
            format!("{dir}/")
        };
        let mut seen: Vec<String> = Vec::new();
        let mut out = Vec::new();
        for f in &self.files {
            if let Some(rest) = f.strip_prefix(lead.as_str()) {
                let (name, is_dir) = match rest.split_once('/') {
                    Some((d, _)) => (d, true),
                    None => (rest, false),
                };
                if !seen.iter().any(|s| s == name) {
                    seen.push(name.to_string());
                    out.push(Entry {
                        path: format!("{lead}{name}"),
                        name: Some(name.to_string()),
                        is_dir,
                    });
                }
            }
        }
        out
    }

    fn walk(&self, basename: &str) -> Option<String> {
        let mut waiting = vec!["".to_string()];
        while let Some(dir) = waiting.pop() {
            let entries = self.entries(&dir);
            if let Some(i) = walk_find_basename(&mut waiting, &entries, basename) {
                return Some(entries[i].path.clone());
            }
        }
        None
    }

    /// Where an image of a table is in the corpus.
    fn resolve(&self, path: &str) -> Option<String> {
        let base = path.rsplit('/').next();
        let places = resolve_places(base);
        let at: Vec<Option<String>> = places
            .iter()
            .map(|p| match p {
                Candidate::AsGiven => None,
                Candidate::UnderRoot(rel) => {
                    if self.is_file(rel) {
                        Some(rel.clone())
                    } else {
                        None
                    }
                }
                Candidate::Walk(b) => self.walk(b),
            })
            .collect();
        let found: Vec<bool> = at.iter().map(|x| x.is_some()).collect();
        resolve_image_path(&found).map(|i| at[i].clone().unwrap())
    }
}

#[test]
fn resolve_flat_corpus() {
    let c = Corpus {
        files: vec!["foo.png"],
    };
    assert_eq!(c.resolve("/some/old/staging/foo.png").unwrap(), "foo.png");
}

#[test]
fn resolve_unflatten_corpus() {
    let c = Corpus {
        files: vec!["sub/sub2/bar.png"],
    };
    assert_eq!(
        c.resolve("/old/staging/sub__sub2__bar.png").unwrap(),
        "sub/sub2/bar.png"
    );
}

#[test]
fn resolve_walk_fallback() {
    let c = Corpus {
        files: vec!["a/b/baz.png"],
    };
    assert_eq!(c.resolve("/staged/baz.png").unwrap(), "a/b/baz.png");
}

#[test]
fn resolve_missing_returns_none() {
    let c = Corpus { files: vec![] };
    assert!(c.resolve("/staged/nope.png").is_none());
}

#[test]
fn a_walk_takes_the_last_directory_first() {
    let c = Corpus {
        files: vec!["a/x.png", "b/x.png"],
    };
    assert_eq!(c.walk("x.png").unwrap(), "b/x.png");
    let mut waiting = Vec::new();
    let entries = c.entries("");
    assert_eq!(walk_find_basename(&mut waiting, &entries, "x.png"), None);
    assert_eq!(waiting, vec!["a", "b"]);
}

fn stats(total: usize, emitted: usize) -> ChunkStats {
    ChunkStats {
        rows_total: total,
        rows_emitted: emitted,
        rows_resolve_fail: total - emitted,
        rows_encode_fail: 0,
        rows_decode_fail: 0,
        rows_score_fail: 0,
    }
}

#[test]
fn counts_add_up() {
    let mut s = BackfillStats::default();
    accumulate(&mut s, &stats(3, 2));
    accumulate(&mut s, &stats(4, 4));
    assert_eq!(s.rows_total, 7);
    assert_eq!(s.rows_emitted, 6);
    assert_eq!(s.rows_resolve_fail, 1);
    assert_eq!(s.chunks_total, 0);
}

#[test]
fn columns_are_found_by_name() {
    let h: Vec<String> = ["Q", "image_path", "knob_tuple_json"]
        .iter()
        .map(|s| s.to_string())
        .collect();
    let c = find_columns(&h).unwrap();
    assert_eq!((c.q, c.image, c.knobs, c.codec), (0, 1, 2, None));
    let e = find_columns(&h[..1].to_vec()).unwrap_err();
    assert_eq!(
        e,
        "input TSV is missing one of the expected columns: [\"image_path\"]"
    );
}

#[test]
fn rows_are_read_or_refused() {
    let h: Vec<String> = ["image_path", "codec", "q", "knob_tuple_json"]
        .iter()
        .map(|s| s.to_string())
        .collect();
    let c = find_columns(&h).unwrap();
    let row = |v: [&str; 4]| v.iter().map(|s| s.to_string()).collect::<Vec<String>>();
    let named = RowCodec::Named { fallback: None };
    match read_row(named, c, &row(["a.png", "zenavif", " 75 ", "{\"speed\":4}"])).unwrap() {
        RowPlan::Work {
            image_path,
            codec,
            q,
            knobs,
            ..
        } => {
            assert_eq!(image_path, "a.png");
            assert_eq!(codec, CodecKind::Zenavif);
            assert_eq!(q, 75);
            assert_eq!(get_u64(&knobs, "speed"), Some(4));
        }
        other => panic!("expected work, got {other:?}"),
    }
    // A codec that is not known stands for WebP.
    match read_row(named, c, &row(["a.png", "gif", "75", ""])).unwrap() {
        RowPlan::Work { codec, .. } => assert_eq!(codec, CodecKind::Zenwebp),
        other => panic!("expected work, got {other:?}"),
    }
    assert!(matches!(
        read_row(named, c, &row(["a.png", "zenavif", "75", "["])).unwrap(),
        RowPlan::Skip(_)
    ));
    assert_eq!(
        read_row(named, c, &row(["a.png", "zenavif", "x", "{}"])).unwrap_err(),
        "invalid q value \"x\": invalid digit found in string"
    );
    assert_eq!(
        read_row(named, c, &vec!["a.png".to_string()]).unwrap_err(),
        "missing q"
    );
    let mut bare = c;
    bare.codec = None;
    assert_eq!(
        read_row(named, bare, &row(["a.png", "", "75", "{}"])).unwrap_err(),
        "TSV has no `codec` column and --codec was not provided"
    );
}

#[test]
fn a_known_codec_of_a_row_beats_the_fallback() {
    let h: Vec<String> = ["image_path", "codec", "q", "knob_tuple_json"]
        .iter()
        .map(|s| s.to_string())
        .collect();
    let c = find_columns(&h).unwrap();
    let mut bare = c;
    bare.codec = None;
    let codec = |given: RowCodec, columns, name: &str| {
        let fields: Vec<String> = ["a.png", name, "75", "{}"]
            .iter()
            .map(|s| s.to_string())
            .collect();
        match read_row(given, columns, &fields).unwrap() {
            RowPlan::Work { codec, .. } => codec,
            other => panic!("expected work, got {other:?}"),
        }
    };
    let named = RowCodec::Named {
        fallback: Some(CodecKind::Zenjxl),
    };
    assert_eq!(codec(named, c, "zenavif"), CodecKind::Zenavif);
    assert_eq!(codec(named, c, "gif"), CodecKind::Zenjxl);
    assert_eq!(codec(named, bare, "zenavif"), CodecKind::Zenjxl);
    let fixed = RowCodec::Fixed(CodecKind::Zenjxl);
    assert_eq!(codec(fixed, c, "zenavif"), CodecKind::Zenjxl);
}

fn no_replies() -> RowReplies {
    RowReplies {
        resolved: None,
        source: None,
        encoded: None,
        decoded: None,
        scored: None,
        written: None,
    }
}

#[test]
fn a_row_goes_step_by_step() {
    let mut r = no_replies();
    assert_eq!(backfill_row(&None, &r), RowStep::Resolve);
    r.resolved = Some(Some("a.png".to_string()));
    assert_eq!(backfill_row(&None, &r), RowStep::DecodeSource);
    let cache = Some(SourceCache {
        path: "a.png".to_string(),
        width: 8,
        height: 8,
    });
    assert_eq!(backfill_row(&cache, &r), RowStep::Encode);
    r.source = Some(Some((8, 8)));
    assert_eq!(backfill_row(&None, &r), RowStep::Encode);
    r.encoded = Some(true);
    assert_eq!(backfill_row(&None, &r), RowStep::DecodeBack);
    r.decoded = Some(Some((8, 9)));
    assert_eq!(
        backfill_row(&None, &r),
        RowStep::Done(RowOutcome::DecodeFailed)
    );
    r.decoded = Some(Some((8, 8)));
    assert_eq!(backfill_row(&None, &r), RowStep::Score);
    r.scored = Some(true);
    assert_eq!(backfill_row(&None, &r), RowStep::Write);
    r.written = Some(true);
    assert_eq!(backfill_row(&None, &r), RowStep::Done(RowOutcome::Emitted));
    r.written = Some(false);
    assert_eq!(
        backfill_row(&None, &r),
        RowStep::Done(RowOutcome::ScoreFailed)
    );
    r.encoded = Some(false);
    assert_eq!(
        backfill_row(&None, &r),
        RowStep::Done(RowOutcome::EncodeFailed)
    );
    r.resolved = Some(None);
    assert_eq!(
        backfill_row(&None, &r),
        RowStep::Done(RowOutcome::Unresolved)
    );
}

#[test]
fn tables_are_counted() {
    let text = "image_path\tcodec\tq\tknob_tuple_json\na\tzenwebp\t5\t{}\nb\tzenwebp\t6\t[\nc\tzenwebp\t7\t{}\n";
    let t = parse_tsv(text.as_bytes()).unwrap();
    let s = backfill_one_tsv(
        RowCodec::Named { fallback: None },
        &t,
        &vec![
            RowOutcome::Emitted,
            RowOutcome::Emitted,
            RowOutcome::EncodeFailed,
        ],
    )
    .unwrap();
    assert_eq!(s.rows_total, 3);
    assert_eq!(s.rows_emitted, 1);
    assert_eq!(s.rows_resolve_fail, 1);
    assert_eq!(s.rows_encode_fail, 1);
    // A record of another length is an error of the whole table.
    let t = parse_tsv(b"image_path\tq\tknob_tuple_json\na\t5\n").unwrap();
    assert!(backfill_one_tsv(RowCodec::Fixed(CodecKind::Zenjxl), &t, &vec![RowOutcome::Emitted]).is_err());
}

#[test]
fn keys_in_the_object_store() {
    let (i, o) = r2_prefixes("run1", CodecKind::Zenwebp, None, None);
    assert_eq!(i, "s3://zentrain/run1/zenwebp");
    assert_eq!(o, "s3://zentrain/run1/zenwebp/features");
    let (i, o) = r2_prefixes("run1", CodecKind::Zenwebp, Some("s3://x//"), Some("s3://y/"));
    assert_eq!(i, "s3://x");
    assert_eq!(o, "s3://y");
    let listing = "2026 10 a-001.tsv\n2026 10 b_concat.tsv\n2026 9 m_manifest.tsv\nDIR x/\n\n";
    assert_eq!(
        list_r2_chunk_tsvs(listing, "s3://x"),
        vec!["s3://x/a-001.tsv"]
    );
    assert!(r2_object_exists("s3://x/a-001.tsv", Some(listing)));
    assert!(!r2_object_exists("s3://x/a-0", Some(listing)));
    assert!(!r2_object_exists("s3://x/a-001.tsv", None));
    assert_eq!(
        feature_keys("s3://y", "s3://x/a-001.tsv"),
        (
            "s3://y/a-001.parquet".to_string(),
            "s3://y/a-001.parquet.uploading".to_string()
        )
    );
}

#[test]
fn a_chunk_goes_step_by_step() {
    let mut r = ChunkReplies {
        present: None,
        fetched: None,
        redone: None,
        uploaded: None,
        renamed: None,
    };
    assert_eq!(r2_chunk(&r), ChunkStep::CheckPresent);
    r.present = Some(true);
    assert_eq!(r2_chunk(&r), ChunkStep::Done(ChunkOutcome::Skipped));
    r.present = Some(false);
    assert_eq!(r2_chunk(&r), ChunkStep::Fetch);
    r.fetched = Some(true);
    assert_eq!(r2_chunk(&r), ChunkStep::Redo);
    r.redone = Some(Some(stats(2, 2)));
    assert_eq!(r2_chunk(&r), ChunkStep::Upload);
    r.uploaded = Some(true);
    assert_eq!(r2_chunk(&r), ChunkStep::Rename);
    r.renamed = Some(true);
    assert_eq!(
        r2_chunk(&r),
        ChunkStep::Done(ChunkOutcome::Processed(stats(2, 2)))
    );
    r.uploaded = Some(false);
    assert_eq!(r2_chunk(&r), ChunkStep::Done(ChunkOutcome::Failed));
    let s = run_r2_backfill(
        "s3://x",
        &vec![
            ChunkOutcome::Skipped,
            ChunkOutcome::Failed,
            ChunkOutcome::Processed(stats(5, 4)),
        ],
    )
    .unwrap();
    assert_eq!(
        (
            s.chunks_total,
            s.chunks_skipped,
            s.chunks_failed,
            s.chunks_processed,
            s.rows_total
        ),
        (3, 1, 1, 1, 5)
    );
    assert_eq!(
        run_r2_backfill("s3://x", &Vec::new()).unwrap_err(),
        "no chunk TSVs found under s3://x/"
    );
}

fn local() -> BackfillConfig {
    BackfillConfig {
        mode: BackfillMode::Local {
            input_tsv: "a.tsv".to_string(),
            output_parquet: "a.parquet".to_string(),
        },
        corpus_root: "corpus".to_string(),
        codec: None,
    }
}

fn answer(output_exists: Option<bool>, redone: Option<Result<ChunkStats, String>>) -> BackfillReplies {
    BackfillReplies {
        corpus_is_dir: true,
        output_exists,
        redone,
    }
}

#[test]
fn local_backfill_produces_parquet() {
    assert!(matches!(
        run_backfill(&local(), &answer(None, None)),
        BackfillStep::CheckOutput
    ));
    assert!(matches!(
        run_backfill(&local(), &answer(Some(false), None)),
        BackfillStep::Redo(RowCodec::Named { .. })
    ));
    match run_backfill(&local(), &answer(Some(false), Some(Ok(stats(2, 2))))) {
        BackfillStep::Done(s) => {
            assert_eq!(s.chunks_processed, 1);
            assert_eq!(s.rows_emitted, 2);
        }
        other => panic!("expected the end, got {other:?}"),
    }
    match run_backfill(&local(), &answer(Some(false), Some(Err("bad".to_string())))) {
        BackfillStep::Fail(e) => assert_eq!(e, "bad"),
        other => panic!("expected a failure, got {other:?}"),
    }
}

#[test]
fn local_backfill_is_idempotent() {
    match run_backfill(&local(), &answer(Some(true), None)) {
        BackfillStep::Done(s) => {
            assert_eq!(s.chunks_total, 1);
            assert_eq!(s.chunks_skipped, 1);
            assert_eq!(s.chunks_processed, 0);
            assert_eq!(s.rows_total, 0);
        }
        other => panic!("expected the end, got {other:?}"),
    }
}

#[test]
fn r2_mode_requires_codec() {
    let cfg = BackfillConfig {
        mode: BackfillMode::R2 {
            run_id: "no-such-run".to_string(),
            r2_prefix: None,
            output_r2_prefix: None,
        },
        corpus_root: "corpus".to_string(),
        codec: None,
    };
    match run_backfill(&cfg, &answer(None, None)) {
        BackfillStep::Fail(e) => assert!(e.contains("--codec"), "{e}"),
        other => panic!("expected a failure, got {other:?}"),
    }
    let with = BackfillConfig {
        codec: Some(CodecKind::Zenjxl),
        ..cfg
    };
    assert!(matches!(
        run_backfill(&with, &answer(None, None)),
        BackfillStep::Remote(CodecKind::Zenjxl)
    ));
}

#[test]
fn the_corpus_must_be_a_directory() {
    let mut r = answer(None, None);
    r.corpus_is_dir = false;
    match run_backfill(&local(), &r) {
        BackfillStep::Fail(e) => assert_eq!(e, "--corpus-root corpus is not a directory"),
        other => panic!("expected a failure, got {other:?}"),
    }
}

#[test]
fn knobs_keep_their_values() {
    let m = parse_knob_json(r#"{"a":null,"b":[1,"x"]}"#).unwrap();
    assert_eq!(m.len(), 2);
    assert!(matches!(m[0].1, Json::Null));
    assert!(matches!(m[1].1, Json::Array(_)));
}
