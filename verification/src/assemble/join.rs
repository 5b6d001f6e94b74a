//! Joins that cannot mix up rows, and checks on what came out.
//!
//! A score goes to the row with the same key and to no other. A score table that
//! has two rows for one key is refused, never averaged.

use crate::assemble::key::{
    cell_at, key_columns, key_views, keyed, keys_of, lacking_text, law_distinct_keys_do_not_repeat,
    law_equal_keys_mean_same_pair, law_keyed_means_all_four, law_no_repeats_means_distinct,
    lemma_repeats_bound, list_text, pair_columns, repeats, row_keys, same_pair, show_list, KeyIndex,
    PairKey,
};
use crate::assemble::table::{
    col_views, column_in, copy_column, finite, is_finite, key_text, law_rows_taken,
    law_set_column_reads_back, lemma_place, missing, missing_real, place, real_in, rows_taken,
    table_wf, with_column, AssembleError, CellView, ColView, Column, Real, RealView, Table,
    TableView, Variant,
};
use crate::metrics::family::{family_word, Family};
use crate::text::{
    contains, copies, copy, debug_text, decimal, lemma_views_push, occurs, quoted, same, show_usize,
    starts, starts_with, to_lowercase, unicode_lower, views,
};
use vstd::prelude::*;

verus! {

/// What becomes of a row without a score.
#[derive(Debug, Clone, Copy, PartialEq, Eq, Structural)]
pub enum JoinHow {
    /// It stays, with a missing score.
    Left,
    /// It goes.
    Inner,
}

/// The human anchor. No metric may equal it.
pub const HUMAN_SCORE_COL: &'static str = "human_score";

/// The beginnings of the names of metrics.
pub open spec fn metric_prefixes() -> Seq<Seq<char>> {
    seq!["iwssim"@, "ssim2"@, "cvvdp"@, "butter"@, "dssim"@]
}

/// The beginnings of the names of metrics. Mixtures are not among them: the anchor
/// may well be a mixture.
pub fn leak_metric_prefixes() -> (r: Vec<String>)
    ensures
        views(r@) == metric_prefixes(),
{
    let r: Vec<String> = vec![
        copy("iwssim"),
        copy("ssim2"),
        copy("cvvdp"),
        copy("butter"),
        copy("dssim"),
    ];
    assert(views(r@) =~= metric_prefixes());
    r
}

// ── Joining by key ─────────────────────────────────────────────────────

/// The rows that a join gives, each with the row of its score where there is one.
pub open spec fn join_rows(
    target: Seq<Seq<Seq<char>>>,
    metric: Seq<Seq<Seq<char>>>,
    how: JoinHow,
) -> Seq<(int, Option<int>)>
    decreases target.len(),
{
    if target.len() == 0 {
        Seq::<(int, Option<int>)>::empty()
    } else {
        let before = join_rows(target.drop_last(), metric, how);
        match place(metric, target.last()) {
            Some(m) => before.push((target.len() - 1, Some(m))),
            None => if how == JoinHow::Left {
                before.push((target.len() - 1, None::<int>))
            } else {
                before
            },
        }
    }
}

/// The rows of the target that a join gives.
pub open spec fn kept_rows(rows: Seq<(int, Option<int>)>) -> Seq<usize> {
    rows.map_values(|p: (int, Option<int>)| p.0 as usize)
}

/// The score of a row.
pub open spec fn score_for(c: ColView, m: Option<int>) -> RealView {
    match m {
        Some(i) => real_in(c.cells[i]),
        None => missing(),
    }
}

/// The scores that a join gives.
pub open spec fn joined_scores(rows: Seq<(int, Option<int>)>, c: ColView) -> ColView {
    ColView {
        variant: Variant::F64,
        cells: rows.map_values(|p: (int, Option<int>)| CellView::F64(score_for(c, p.1))),
    }
}

/// What is wrong with a join.
pub open spec fn join_fault(target: TableView, metric: TableView, col: Seq<char>) -> Option<
    Seq<char>,
> {
    let what = "safe_join("@ + debug_text(col) + ")"@;
    if !keyed(target) {
        Some("DATA-INTEGRITY: "@ + lacking_text(what + " target"@, target))
    } else if !keyed(metric) {
        Some("DATA-INTEGRITY: "@ + lacking_text(what + " metric"@, metric))
    } else if column_in(metric, col) is None {
        Some("schema error: "@ + ("safe_join: metric table lacks column "@ + debug_text(col)))
    } else if repeats(keys_of(metric)) > 0 {
        Some("DATA-INTEGRITY: "@ + repeats_text(col, repeats(keys_of(metric))))
    } else {
        None
    }
}

/// The message for a score table with several rows for one key.
pub open spec fn repeats_text(col: Seq<char>, n: nat) -> Seq<char> {
    "safe_join("@ + debug_text(col) + "): metric side has "@ + decimal(n)
        + " row(s) NOT unique on the per-pair key "@ + list_text(key_columns())
        + " — averaging them would destroy per-pair signal (the ssim2_gpu ref-misjoin failure mode). De-duplicate the metric source first."@
}

/// What a join gives.
pub open spec fn join_view(
    target: TableView,
    metric: TableView,
    col: Seq<char>,
    how: JoinHow,
) -> TableView {
    let rows = join_rows(keys_of(target), keys_of(metric), how);
    with_column(
        rows_taken(target, kept_rows(rows)),
        col,
        joined_scores(rows, column_in(metric, col)->Some_0),
    )
}

/// Puts the scores of one table into another, row by row, each to the row with the
/// same key.
pub fn safe_join(target: &Table, metric: &Table, metric_col: &str, how: JoinHow) -> (r: Result<
    Table,
    AssembleError,
>)
    requires
        table_wf(target@),
        table_wf(metric@),
    ensures
        match r {
            Ok(t) => {
                &&& join_fault(target@, metric@, metric_col@) is None
                &&& t@ == join_view(target@, metric@, metric_col@, how)
                &&& table_wf(t@)
            },
            Err(e) => join_fault(target@, metric@, metric_col@) == Some(e.text()),
        },
{
    let mut what: String = copy("safe_join(");
    let q = quoted(metric_col);
    what.append(q.as_str());
    what.append(")");
    let mut what_target: String = copy(what.as_str());
    what_target.append(" target");
    match PairKey::require_columns(what_target.as_str(), target) {
        Ok(_) => {},
        Err(e) => {
            return Err(e);
        },
    }
    let mut what_metric: String = copy(what.as_str());
    what_metric.append(" metric");
    match PairKey::require_columns(what_metric.as_str(), metric) {
        Ok(_) => {},
        Err(e) => {
            return Err(e);
        },
    }
    let values: &Column = match metric.column(metric_col) {
        Some(c) => c,
        None => {
            let mut e: String = copy("safe_join: metric table lacks column ");
            e.append(q.as_str());
            return Err(AssembleError::Schema(e));
        },
    };
    let mk = row_keys(metric);
    let (index, dupes) = KeyIndex::build(&mk);
    if dupes > 0 {
        let mut e: String = copy("safe_join(");
        e.append(q.as_str());
        e.append("): metric side has ");
        let n = show_usize(dupes);
        e.append(n.as_str());
        e.append(" row(s) NOT unique on the per-pair key ");
        let l = show_list(&pair_columns());
        e.append(l.as_str());
        e.append(
            " — averaging them would destroy per-pair signal (the ssim2_gpu ref-misjoin failure mode). De-duplicate the metric source first.",
        );
        return Err(AssembleError::JoinSafety(e));
    }
    let tk = row_keys(target);
    let ghost tks = keys_of(target@);
    let ghost mks = keys_of(metric@);
    let mut matched: Vec<usize> = Vec::new();
    let mut scores: Vec<Real> = Vec::new();
    let mut i: usize = 0;
    assert(tks.take(0) =~= Seq::<Seq<Seq<char>>>::empty());
    assert(kept_rows(join_rows(tks.take(0), mks, how)) =~= Seq::<usize>::empty());
    assert(mks.take(mks.len() as int) =~= mks);
    while i < tk.len()
        invariant
            i <= tk.len(),
            tks == key_views(tk@),
            mks == key_views(mk@),
            mks.take(mks.len() as int) == mks,
            index.indexes(mks),
            values@.cells.len() == mks.len(),
            matched@ == kept_rows(join_rows(tks.take(i as int), mks, how)),
            scores@.len() == matched@.len(),
            forall|j: int|
                0 <= j < scores@.len() ==> (#[trigger] scores@[j])@ == score_for(
                    values@,
                    join_rows(tks.take(i as int), mks, how)[j].1,
                ),
            forall|j: int| 0 <= j < matched@.len() ==> (#[trigger] matched@[j]) < i,
        decreases tk.len() - i,
    {
        let ghost before = join_rows(tks.take(i as int), mks, how);
        let ghost after = join_rows(tks.take(i + 1), mks, how);
        assert(tks.take(i + 1).drop_last() =~= tks.take(i as int));
        assert(tks.take(i + 1).last() == views(tk@[i as int]@));
        proof {
            lemma_place(mks, views(tk@[i as int]@));
            assert(mk@.len() == mks.len());
        }
        match index.find(&mk, mk.len(), &tk[i]) {
            Some(m) => {
                matched.push(i);
                scores.push(values.f64_at(m));
                assert(after =~= before.push((i as int, Some(m as int))));
                assert(matched@ =~= kept_rows(after));
                assert forall|j: int| 0 <= j < scores@.len() implies (#[trigger] scores@[j])@
                    == score_for(values@, after[j].1) by {
                    if j < before.len() {
                        assert(after[j] == before[j]);
                    }
                }
            },
            None => {
                if how == JoinHow::Left {
                    matched.push(i);
                    scores.push(missing_real());
                    assert(after =~= before.push((i as int, None::<int>)));
                    assert(matched@ =~= kept_rows(after));
                    assert forall|j: int| 0 <= j < scores@.len() implies (#[trigger] scores@[j])@
                        == score_for(values@, after[j].1) by {
                        if j < before.len() {
                            assert(after[j] == before[j]);
                        }
                    }
                }
            },
        }
        i += 1;
    }
    assert(tks.take(i as int) =~= tks);
    let ghost rows = join_rows(tks, mks, how);
    let taken = target.take_rows(&matched);
    let mut out = match taken {
        Ok(t) => t,
        Err(e) => {
            return Err(e);
        },
    };
    let col = Column::F64(scores);
    proof {
        assert(col@.cells =~= joined_scores(rows, values@).cells);
        lemma_place(target@.names, "q"@);
        assert(target@.columns.len() > 0);
    }
    match out.set_column(metric_col, col) {
        Ok(_) => Ok(out),
        Err(e) => Err(e),
    }
}

// ── Laws of joining ────────────────────────────────────────────────────

proof fn lemma_join_row(
    target: Seq<Seq<Seq<char>>>,
    metric: Seq<Seq<Seq<char>>>,
    how: JoinHow,
    p: int,
)
    requires
        0 <= p < join_rows(target, metric, how).len(),
    ensures
        0 <= join_rows(target, metric, how)[p].0 < target.len(),
        join_rows(target, metric, how)[p].1 == place(
            metric,
            target[join_rows(target, metric, how)[p].0],
        ),
    decreases target.len(),
{
    let front = target.drop_last();
    let before = join_rows(front, metric, how);
    if p < before.len() {
        lemma_join_row(front, metric, how, p);
        assert(join_rows(target, metric, how)[p] == before[p]);
        assert(front[before[p].0] == target[before[p].0]);
    }
}

/// Every row of a join has the score of the row with its own key, and of no other:
/// where the score table has no repeats, there is only one such row.
pub proof fn law_join_gives_own_score(
    target: Seq<Seq<Seq<char>>>,
    metric: Seq<Seq<Seq<char>>>,
    how: JoinHow,
    p: int,
    m: int,
)
    requires
        0 <= p < join_rows(target, metric, how).len(),
        repeats(metric) == 0,
        0 <= m < metric.len(),
    ensures
        join_rows(target, metric, how)[p].1 == Some(m) <==> metric[m] == target[join_rows(
            target,
            metric,
            how,
        )[p].0],
{
    lemma_join_row(target, metric, how, p);
    law_no_repeats_means_distinct(metric);
    let k = target[join_rows(target, metric, how)[p].0];
    lemma_place(metric, k);
    match place(metric, k) {
        Some(i) => {
            if metric[m] == k && i != m {
                assert(metric[i] != metric[m]);
            }
        },
        None => {
            assert(metric.contains(metric[m]));
        },
    }
}

proof fn lemma_joined_cells(
    target: TableView,
    metric: TableView,
    col: Seq<char>,
    how: JoinHow,
    name: Seq<char>,
    p: int,
)
    requires
        table_wf(target),
        target.rows <= usize::MAX,
        keyed(target),
        column_in(target, name) is Some,
        name != col,
        0 <= p < join_rows(keys_of(target), keys_of(metric), how).len(),
    ensures
        ({
            let rows = join_rows(keys_of(target), keys_of(metric), how);
            let out = join_view(target, metric, col, how);
            &&& 0 <= rows[p].0 < target.rows
            &&& column_in(out, name) is Some
            &&& cell_at(out, name, p) == cell_at(target, name, rows[p].0)
            &&& column_in(out, col) == Some(
                joined_scores(rows, column_in(metric, col)->Some_0),
            )
        }),
{
    let rows = join_rows(keys_of(target), keys_of(metric), how);
    let taken = rows_taken(target, kept_rows(rows));
    let scores = joined_scores(rows, column_in(metric, col)->Some_0);
    lemma_join_row(keys_of(target), keys_of(metric), how, p);
    lemma_place(target.names, name);
    law_rows_taken(target, kept_rows(rows), name, p);
    law_set_column_reads_back(taken, col, scores, name);
}

/// A row of a join has the score of the row of the score table that agrees with it in
/// all four columns of the key, and a missing score where there is no such row. A score
/// never reaches a row that differs from its own in any of the four.
pub proof fn law_joined_row_has_its_pairs_score(
    target: TableView,
    metric: TableView,
    col: Seq<char>,
    how: JoinHow,
    p: int,
)
    requires
        table_wf(target),
        table_wf(metric),
        target.rows <= usize::MAX,
        join_fault(target, metric, col) is None,
        col != "image_path"@,
        col != "codec"@,
        col != "q"@,
        col != "knob_tuple_json"@,
        0 <= p < join_view(target, metric, col, how).rows,
    ensures
        forall|m: int|
            0 <= m < metric.rows && #[trigger] same_pair(
                join_view(target, metric, col, how),
                p,
                metric,
                m,
            ) ==> cell_at(join_view(target, metric, col, how), col, p) == CellView::F64(
                real_in(cell_at(metric, col, m)),
            ),
        (forall|m: int|
            0 <= m < metric.rows ==> !#[trigger] same_pair(
                join_view(target, metric, col, how),
                p,
                metric,
                m,
            )) ==> how == JoinHow::Left && cell_at(join_view(target, metric, col, how), col, p)
            == CellView::F64(missing()),
{
    let tks = keys_of(target);
    let mks = keys_of(metric);
    let rows = join_rows(tks, mks, how);
    let out = join_view(target, metric, col, how);
    lemma_place(target.names, "q"@);
    lemma_place(rows_taken(target, kept_rows(rows)).names, col);
    assert(out.rows == rows.len());
    lemma_joined_cells(target, metric, col, how, "image_path"@, p);
    lemma_joined_cells(target, metric, col, how, "codec"@, p);
    lemma_joined_cells(target, metric, col, how, "q"@, p);
    lemma_joined_cells(target, metric, col, how, "knob_tuple_json"@, p);
    let i = rows[p].0;
    assert forall|m: int| 0 <= m < metric.rows implies #[trigger] same_pair(out, p, metric, m) == (
    tks[i] == mks[m]) by {
        law_equal_keys_mean_same_pair(target, i, metric, m);
    }
    assert forall|m: int|
        0 <= m < metric.rows && #[trigger] same_pair(out, p, metric, m) implies cell_at(out, col, p)
        == CellView::F64(real_in(cell_at(metric, col, m))) by {
        law_join_gives_own_score(tks, mks, how, p, m);
        assert(rows[p].1 == Some(m));
    }
    lemma_join_row(tks, mks, how, p);
    lemma_place(mks, tks[i]);
    if forall|m: int| 0 <= m < metric.rows ==> !#[trigger] same_pair(out, p, metric, m) {
        match place(mks, tks[i]) {
            Some(m) => {
                assert(same_pair(out, p, metric, m));
            },
            None => {
                if how == JoinHow::Inner {
                    lemma_inner_row_matched(tks, mks, p);
                }
            },
        }
    }
}

proof fn lemma_inner_row_matched(target: Seq<Seq<Seq<char>>>, metric: Seq<Seq<Seq<char>>>, p: int)
    requires
        0 <= p < join_rows(target, metric, JoinHow::Inner).len(),
    ensures
        join_rows(target, metric, JoinHow::Inner)[p].1 is Some,
    decreases target.len(),
{
    let before = join_rows(target.drop_last(), metric, JoinHow::Inner);
    if p < before.len() {
        lemma_inner_row_matched(target.drop_last(), metric, p);
        assert(join_rows(target, metric, JoinHow::Inner)[p] == before[p]);
    }
}

/// A left join keeps every row in its place.
pub proof fn law_left_join_keeps_rows(target: Seq<Seq<Seq<char>>>, metric: Seq<Seq<Seq<char>>>)
    ensures
        join_rows(target, metric, JoinHow::Left).len() == target.len(),
        forall|i: int|
            0 <= i < target.len() ==> (#[trigger] join_rows(target, metric, JoinHow::Left)[i]).0
                == i,
    decreases target.len(),
{
    if target.len() > 0 {
        let front = target.drop_last();
        let before = join_rows(front, metric, JoinHow::Left);
        law_left_join_keeps_rows(front, metric);
        let after = join_rows(target, metric, JoinHow::Left);
        assert forall|i: int| 0 <= i < target.len() implies (#[trigger] after[i]).0 == i by {
            if i < front.len() {
                assert(after[i] == before[i]);
            }
        }
    }
}

/// A left join leaves every cell of the target in its row, in every column but that of
/// the scores.
pub proof fn law_left_join_keeps_cells(
    target: TableView,
    metric: TableView,
    col: Seq<char>,
    name: Seq<char>,
    p: int,
)
    requires
        table_wf(target),
        target.rows <= usize::MAX,
        join_fault(target, metric, col) is None,
        column_in(target, name) is Some,
        name != col,
        0 <= p < target.rows,
    ensures
        join_view(target, metric, col, JoinHow::Left).rows == target.rows,
        column_in(join_view(target, metric, col, JoinHow::Left), name) is Some,
        cell_at(join_view(target, metric, col, JoinHow::Left), name, p) == cell_at(target, name, p),
{
    let rows = join_rows(keys_of(target), keys_of(metric), JoinHow::Left);
    law_left_join_keeps_rows(keys_of(target), keys_of(metric));
    lemma_joined_cells(target, metric, col, JoinHow::Left, name, p);
    lemma_place(target.names, "q"@);
    lemma_place(rows_taken(target, kept_rows(rows)).names, col);
    assert(rows[p].0 == p);
}

/// A score is the number of its cell; a text is never a score.
pub proof fn law_score_is_number_of_cell(t: Option<Seq<char>>, n: i64, r: RealView)
    ensures
        real_in(CellView::F64(r)) == r,
        real_in(CellView::I64(n, r)) == r,
        !finite(real_in(CellView::Str(t, r)).0),
{
    assert((0x7ff8_0000_0000_0000u64 / 0x10_0000_0000_0000) % 2048 == 2047);
}

/// An inner join keeps exactly the rows whose key has a score.
pub proof fn law_inner_join_keeps_matches(
    target: Seq<Seq<Seq<char>>>,
    metric: Seq<Seq<Seq<char>>>,
    i: int,
)
    requires
        0 <= i < target.len(),
    ensures
        (exists|p: int|
            0 <= p < join_rows(target, metric, JoinHow::Inner).len() && (
            #[trigger] join_rows(target, metric, JoinHow::Inner)[p]).0 == i) <==> metric.contains(
            target[i],
        ),
    decreases target.len(),
{
    let front = target.drop_last();
    let before = join_rows(front, metric, JoinHow::Inner);
    let after = join_rows(target, metric, JoinHow::Inner);
    lemma_place(metric, target[i]);
    if metric.contains(target[i]) {
        match place(metric, target[i]) {
            Some(_) => {},
            None => {},
        }
    }
    match place(metric, target[i]) {
        Some(m) => {
            assert(metric.contains(metric[m]));
        },
        None => {},
    }
    if i < front.len() {
        assert(front[i] == target[i]);
        law_inner_join_keeps_matches(front, metric, i);
        if exists|p: int| 0 <= p < before.len() && (#[trigger] before[p]).0 == i {
            let p = choose|p: int| 0 <= p < before.len() && (#[trigger] before[p]).0 == i;
            assert(after[p] == before[p]);
        }
        if exists|p: int| 0 <= p < after.len() && (#[trigger] after[p]).0 == i {
            let p = choose|p: int| 0 <= p < after.len() && (#[trigger] after[p]).0 == i;
            if p < before.len() {
                assert(before[p] == after[p]);
            }
        }
    } else {
        if metric.contains(target[i]) {
            assert(after[before.len() as int].0 == i);
        }
        if exists|p: int| 0 <= p < after.len() && (#[trigger] after[p]).0 == i {
            let p = choose|p: int| 0 <= p < after.len() && (#[trigger] after[p]).0 == i;
            if p < before.len() {
                lemma_join_row(front, metric, JoinHow::Inner, p);
                assert(after[p] == before[p]);
            }
        }
    }
}

/// A score table that has two rows for one key is never joined.
pub proof fn law_repeated_keys_refused(
    target: TableView,
    metric: TableView,
    col: Seq<char>,
    i: int,
    j: int,
)
    requires
        0 <= i < j < metric.rows,
        keys_of(metric)[i] == keys_of(metric)[j],
    ensures
        join_fault(target, metric, col) is Some,
{
    law_no_repeats_means_distinct(keys_of(metric));
    if repeats(keys_of(metric)) == 0 {
        assert(keys_of(metric)[i] != keys_of(metric)[j]);
    }
}

/// A table that lacks a part of the key is never joined.
pub proof fn law_partial_key_refused(target: TableView, metric: TableView, col: Seq<char>)
    requires
        !keyed(target) || !keyed(metric),
    ensures
        join_fault(target, metric, col) is Some,
{
}

// ── Joining by position ────────────────────────────────────────────────

/// What real numbers mean.
pub open spec fn real_column(v: Seq<Real>) -> ColView {
    ColView { variant: Variant::F64, cells: v.map_values(|r: Real| CellView::F64(r@)) }
}

/// Puts scores into a table by their position. There must be one for each row.
pub fn attach_positional(target: &Table, values: &Vec<Real>, metric_col: &str) -> (r: Result<
    Table,
    AssembleError,
>)
    requires
        table_wf(target@),
    ensures
        match r {
            Ok(t) => values@.len() == target@.rows && t@ == with_column(
                target@,
                metric_col@,
                real_column(values@),
            ) && table_wf(t@),
            Err(e) => values@.len() != target@.rows && (e matches AssembleError::JoinSafety(m)
                && m@ == "attach_positional("@ + debug_text(metric_col@) + "): "@ + decimal(
                values@.len(),
            ) + " metric values vs "@ + decimal(target@.rows)
                + " target rows — positional alignment requires an EXACT row-count match."@),
        },
{
    if values.len() != target.num_rows() {
        let mut e: String = copy("attach_positional(");
        let q = quoted(metric_col);
        e.append(q.as_str());
        e.append("): ");
        let a = show_usize(values.len());
        e.append(a.as_str());
        e.append(" metric values vs ");
        let b = show_usize(target.num_rows());
        e.append(b.as_str());
        e.append(" target rows — positional alignment requires an EXACT row-count match.");
        return Err(AssembleError::JoinSafety(e));
    }
    let mut out = copy_table(target);
    let mut scores: Vec<Real> = Vec::new();
    let mut i: usize = 0;
    while i < values.len()
        invariant
            i <= values.len(),
            scores@.len() == i,
            forall|j: int| 0 <= j < i ==> (#[trigger] scores@[j])@ == values@[j]@,
        decreases values.len() - i,
    {
        scores.push(values[i].duplicate());
        i += 1;
    }
    let col = Column::F64(scores);
    assert(col@.cells =~= real_column(values@).cells);
    let set = out.set_column(metric_col, col);
    assert(set is Ok);
    Ok(out)
}

/// A copy of a table.
pub fn copy_table(t: &Table) -> (r: Table)
    ensures
        r@ == t@,
{
    let mut columns: Vec<Column> = Vec::new();
    let mut i: usize = 0;
    while i < t.columns.len()
        invariant
            i <= t.columns.len(),
            columns@.len() == i,
            forall|j: int| 0 <= j < i ==> (#[trigger] columns@[j])@ == t.columns@[j]@,
        decreases t.columns.len() - i,
    {
        columns.push(copy_column(&t.columns[i]));
        i += 1;
    }
    assert(col_views(columns@) =~= col_views(t.columns@));
    Table { names: copies(t.names.as_slice()), columns, n_rows: t.n_rows }
}

// ── One value for every reference ──────────────────────────────────────

/// The rows with a score: the text of the reference, and the score rounded to four
/// decimals, in units of the last one.
pub open spec fn scored_rows(
    refs: Seq<CellView>,
    vals: Seq<CellView>,
    rounded: Seq<i64>,
    n: int,
) -> Seq<(Seq<Seq<char>>, i64)>
    decreases n,
{
    if n <= 0 {
        Seq::<(Seq<Seq<char>>, i64)>::empty()
    } else {
        let before = scored_rows(refs, vals, rounded, n - 1);
        if finite(real_in(vals[n - 1]).0) {
            before.push((seq![key_text(refs[n - 1])], rounded[n - 1]))
        } else {
            before
        }
    }
}

/// The references of scored rows.
pub open spec fn refs_in(rows: Seq<(Seq<Seq<char>>, i64)>) -> Seq<Seq<Seq<char>>> {
    rows.map_values(|p: (Seq<Seq<char>>, i64)| p.0)
}

/// Have rows with one reference one score?
pub open spec fn constant_per_ref(rows: Seq<(Seq<Seq<char>>, i64)>) -> bool {
    forall|i: int, j: int|
        0 <= i < rows.len() && 0 <= j < rows.len() && (#[trigger] rows[i]).0 == (
        #[trigger] rows[j]).0 ==> rows[i].1 == rows[j].1
}

/// What is known of the groups of rows with one reference.
#[derive(Debug, Clone, Copy, PartialEq, Eq, Structural)]
pub struct RefGroups {
    /// How many references there are.
    pub refs: usize,
    /// How many rows have a score.
    pub rows: usize,
    /// Whether every reference has one score.
    pub constant: bool,
}

/// What is known of the groups of rows with one reference.
pub open spec fn groups_of(rows: Seq<(Seq<Seq<char>>, i64)>, g: RefGroups) -> bool {
    &&& g.refs + repeats(refs_in(rows)) == rows.len()
    &&& g.rows == rows.len()
    &&& g.constant == constant_per_ref(rows)
}

/// What is wrong with the columns of the check.
pub open spec fn groups_fault(t: TableView, ref_col: Seq<char>, metric_col: Seq<char>) -> Option<
    Seq<char>,
> {
    if column_in(t, ref_col) is None {
        Some("no ref column "@ + debug_text(ref_col))
    } else if column_in(t, metric_col) is None {
        Some("no metric column "@ + debug_text(metric_col))
    } else {
        None
    }
}

/// The scored rows of a table.
pub open spec fn table_scores(
    t: TableView,
    ref_col: Seq<char>,
    metric_col: Seq<char>,
    rounded: Seq<i64>,
) -> Seq<(Seq<Seq<char>>, i64)> {
    scored_rows(
        column_in(t, ref_col)->Some_0.cells,
        column_in(t, metric_col)->Some_0.cells,
        rounded,
        t.rows as int,
    )
}

proof fn lemma_constant(rows: Seq<(Seq<Seq<char>>, i64)>, n: int)
    requires
        0 <= n <= rows.len(),
        forall|i: int|
            0 <= i < n ==> {
                let f = place(refs_in(rows), (#[trigger] rows[i]).0);
                f is Some && rows[f->Some_0].1 == rows[i].1
            },
        n == rows.len(),
    ensures
        constant_per_ref(rows),
{
}

/// Groups the rows of a table by their reference. `rounded` holds the scores
/// rounded to four decimals, in units of the last one.
pub fn ref_groups(table: &Table, ref_col: &str, metric_col: &str, rounded: &Vec<i64>) -> (r: Result<
    RefGroups,
    AssembleError,
>)
    requires
        table_wf(table@),
        rounded@.len() == table@.rows,
    ensures
        match r {
            Ok(g) => groups_fault(table@, ref_col@, metric_col@) is None && groups_of(
                table_scores(table@, ref_col@, metric_col@, rounded@),
                g,
            ),
            Err(e) => e matches AssembleError::Schema(m) && groups_fault(
                table@,
                ref_col@,
                metric_col@,
            ) == Some(m@),
        },
{
    let refs = match table.column(ref_col) {
        Some(c) => c,
        None => {
            let mut e: String = copy("no ref column ");
            let q = quoted(ref_col);
            e.append(q.as_str());
            return Err(AssembleError::Schema(e));
        },
    };
    let vals = match table.column(metric_col) {
        Some(c) => c,
        None => {
            let mut e: String = copy("no metric column ");
            let q = quoted(metric_col);
            e.append(q.as_str());
            return Err(AssembleError::Schema(e));
        },
    };
    let n: usize = table.num_rows();
    let ghost all = table_scores(table@, ref_col@, metric_col@, rounded@);
    let mut keys: Vec<Vec<String>> = Vec::new();
    let mut nums: Vec<i64> = Vec::new();
    let mut i: usize = 0;
    while i < n
        invariant
            i <= n,
            n == table@.rows,
            refs@.cells.len() == n,
            vals@.cells.len() == n,
            rounded@.len() == n,
            keys@.len() == nums@.len(),
            keys@.len() <= i,
            scored_rows(refs@.cells, vals@.cells, rounded@, i as int).len() == keys@.len(),
            forall|j: int|
                0 <= j < keys@.len() ==> views((#[trigger] keys@[j])@) == scored_rows(
                    refs@.cells,
                    vals@.cells,
                    rounded@,
                    i as int,
                )[j].0,
            forall|j: int|
                0 <= j < nums@.len() ==> (#[trigger] nums@[j]) == scored_rows(
                    refs@.cells,
                    vals@.cells,
                    rounded@,
                    i as int,
                )[j].1,
        decreases n - i,
    {
        let v = vals.f64_at(i);
        if is_finite(v.bits) {
            let k: Vec<String> = vec![refs.key_at(i)];
            assert(views(k@) =~= seq![key_text(refs@.cells[i as int])]);
            keys.push(k);
            nums.push(rounded[i]);
        }
        i += 1;
    }
    assert(key_views(keys@) =~= refs_in(all));
    let (index, dupes) = KeyIndex::build(&keys);
    proof {
        lemma_repeats_bound(key_views(keys@));
        assert(key_views(keys@).len() == keys@.len());
    }
    let mut constant: bool = true;
    let mut k: usize = 0;
    assert(key_views(keys@).take(keys@.len() as int) =~= key_views(keys@));
    while k < keys.len()
        invariant
            k <= keys.len(),
            keys@.len() == nums@.len(),
            keys@.len() == all.len(),
            key_views(keys@) == refs_in(all),
            key_views(keys@).take(keys@.len() as int) == key_views(keys@),
            forall|j: int| 0 <= j < nums@.len() ==> (#[trigger] nums@[j]) == all[j].1,
            index.indexes(key_views(keys@)),
            constant ==> forall|j: int|
                0 <= j < k ==> {
                    let f = place(refs_in(all), (#[trigger] all[j]).0);
                    f is Some && all[f->Some_0].1 == all[j].1
                },
            !constant ==> !constant_per_ref(all),
        decreases keys.len() - k,
    {
        proof {
            lemma_place(refs_in(all), all[k as int].0);
            assert(refs_in(all)[k as int] == all[k as int].0);
            assert(views(keys@[k as int]@) == key_views(keys@)[k as int]);
        }
        match index.find(&keys, keys.len(), &keys[k]) {
            Some(f) => {
                assert(refs_in(all)[f as int] == all[f as int].0);
                if nums[f] != nums[k] {
                    assert(all[f as int].0 == all[k as int].0);
                    assert(!constant_per_ref(all));
                    constant = false;
                }
            },
            None => {
                assert(refs_in(all).contains(refs_in(all)[k as int]));
            },
        }
        k += 1;
    }
    proof {
        if constant {
            lemma_constant(all, all.len() as int);
        }
    }
    Ok(RefGroups { refs: keys.len() - dupes, rows: keys.len(), constant })
}

/// Is a table suspect? There are enough references, their groups are larger than
/// `num / den` on average, and every reference has one score.
pub open spec fn suspect(g: RefGroups, min_groups: usize, num: u32, den: u32) -> bool {
    g.refs >= min_groups && g.rows * den > num * g.refs && g.constant
}

/// The message for a suspect table.
pub open spec fn constant_text(
    label: Seq<char>,
    ref_col: Seq<char>,
    metric_col: Seq<char>,
    refs: nat,
    mean: Seq<char>,
) -> Seq<char> {
    label + " "@ + debug_text(metric_col) + " is constant within every reference group ("@
        + decimal(refs) + " refs, each 1 unique value, mean group size "@ + mean
        + ") — joined on "@ + debug_text(ref_col)
        + " only (ref-vs-ref broadcast). Recompute on the correct (ref, dist) pairs (use safe_join or attach_positional)."@
}

/// Refuses a table whose score is the same for all rows of each reference. The
/// bounds are those of the caller, and `mean` is the mean group size as text.
pub fn assert_not_constant_per_ref_tuned(
    label: &str,
    ref_col: &str,
    metric_col: &str,
    g: RefGroups,
    min_groups: usize,
    num: u32,
    den: u32,
    mean: &str,
) -> (r: Result<(), AssembleError>)
    ensures
        match r {
            Ok(_) => !suspect(g, min_groups, num, den),
            Err(e) => suspect(g, min_groups, num, den) && (e matches AssembleError::JoinSafety(m)
                && m@ == constant_text(label@, ref_col@, metric_col@, g.refs as nat, mean@)),
        },
{
    if g.refs < min_groups {
        return Ok(());
    }
    assert(0 <= g.rows * den <= u64::MAX * 0xffff_ffff) by (nonlinear_arith)
        requires
            g.rows <= u64::MAX,
            den <= 0xffff_ffff,
    ;
    assert(0 <= num * g.refs <= 0xffff_ffff * u64::MAX) by (nonlinear_arith)
        requires
            g.refs <= u64::MAX,
            num <= 0xffff_ffff,
    ;
    if (g.rows as u128) * (den as u128) <= (num as u128) * (g.refs as u128) {
        return Ok(());
    }
    if !g.constant {
        return Ok(());
    }
    let mut m: String = copy(label);
    m.append(" ");
    let q = quoted(metric_col);
    m.append(q.as_str());
    m.append(" is constant within every reference group (");
    let n = show_usize(g.refs);
    m.append(n.as_str());
    m.append(" refs, each 1 unique value, mean group size ");
    m.append(mean);
    m.append(") — joined on ");
    let p = quoted(ref_col);
    m.append(p.as_str());
    m.append(
        " only (ref-vs-ref broadcast). Recompute on the correct (ref, dist) pairs (use safe_join or attach_positional).",
    );
    Err(AssembleError::JoinSafety(m))
}

/// The same with the usual bounds: five references, and groups of more than one and
/// a half rows on average.
pub fn assert_not_constant_per_ref(
    label: &str,
    ref_col: &str,
    metric_col: &str,
    g: RefGroups,
    mean: &str,
) -> (r: Result<(), AssembleError>)
    ensures
        match r {
            Ok(_) => !suspect(g, 5, 3, 2),
            Err(e) => suspect(g, 5, 3, 2) && (e matches AssembleError::JoinSafety(m) && m@
                == constant_text(label@, ref_col@, metric_col@, g.refs as nat, mean@)),
        },
{
    assert_not_constant_per_ref_tuned(label, ref_col, metric_col, g, 5, 3, 2, mean)
}

/// A table with one row for each reference is never suspect under the usual bounds.
pub proof fn law_single_rows_not_suspect(rows: Seq<(Seq<Seq<char>>, i64)>, g: RefGroups)
    requires
        groups_of(rows, g),
        repeats(refs_in(rows)) == 0,
    ensures
        !suspect(g, 5, 3, 2),
{
}

/// A table in which some reference has two scores is never suspect.
pub proof fn law_varied_scores_not_suspect(
    rows: Seq<(Seq<Seq<char>>, i64)>,
    g: RefGroups,
    i: int,
    j: int,
    min_groups: usize,
    num: u32,
    den: u32,
)
    requires
        groups_of(rows, g),
        0 <= i < rows.len(),
        0 <= j < rows.len(),
        rows[i].0 == rows[j].0,
        rows[i].1 != rows[j].1,
    ensures
        !suspect(g, min_groups, num, den),
{
}

// ── Leaked columns ─────────────────────────────────────────────────────

/// The rows in which both columns hold a number.
pub open spec fn compared(a: Seq<CellView>, b: Seq<CellView>, n: int) -> nat
    decreases n,
{
    if n <= 0 {
        0
    } else {
        compared(a, b, n - 1) + (if finite(real_in(a[n - 1]).0) && finite(real_in(b[n - 1]).0) {
            1nat
        } else {
            0
        })
    }
}

/// Those of them in which the numbers are close.
pub open spec fn identical(a: Seq<CellView>, b: Seq<CellView>, close: Seq<bool>, n: int) -> nat
    decreases n,
{
    if n <= 0 {
        0
    } else {
        identical(a, b, close, n - 1) + (if finite(real_in(a[n - 1]).0) && finite(
            real_in(b[n - 1]).0,
        ) && close[n - 1] {
            1nat
        } else {
            0
        })
    }
}

/// How two columns compare: the rows in which both hold a number, and those of them
/// in which the numbers are close.
pub fn compare_columns(a: &Column, b: &Column, close: &Vec<bool>) -> (r: (usize, usize))
    requires
        a@.cells.len() == b@.cells.len(),
        close@.len() == a@.cells.len(),
    ensures
        r.0 == compared(a@.cells, b@.cells, a@.cells.len() as int),
        r.1 == identical(a@.cells, b@.cells, close@, a@.cells.len() as int),
        r.1 <= r.0 <= a@.cells.len(),
{
    let n: usize = a.len();
    let mut both: usize = 0;
    let mut equal: usize = 0;
    let mut i: usize = 0;
    while i < n
        invariant
            i <= n,
            n == a@.cells.len(),
            n == b@.cells.len(),
            n == close@.len(),
            both == compared(a@.cells, b@.cells, i as int),
            equal == identical(a@.cells, b@.cells, close@, i as int),
            equal <= both <= i,
        decreases n - i,
    {
        let x = a.f64_at(i);
        let y = b.f64_at(i);
        if is_finite(x.bits) && is_finite(y.bits) {
            both += 1;
            if close[i] {
                equal += 1;
            }
        }
        i += 1;
    }
    (both, equal)
}

/// Does the name begin with `p`, or hold it further on? A mixture is named after the
/// metrics that it mixes, so of its name only the beginning counts.
pub open spec fn bears(low: Seq<char>, p: Seq<char>) -> bool {
    starts(low, p) || (occurs(low, p) && !starts(low, "mix_"@))
}

/// Is this the name of a metric: does it bear one of the beginnings?
pub open spec fn names_metric(low: Seq<char>, prefixes: Seq<Seq<char>>) -> bool {
    exists|p: int| 0 <= p < prefixes.len() && bears(low, #[trigger] prefixes[p])
}

/// Is this the name of a metric: does it bear one of the beginnings?
fn is_metric_name(low: &str, prefixes: &Vec<String>) -> (r: bool)
    ensures
        r == names_metric(low@, views(prefixes@)),
{
    let ghost ps = views(prefixes@);
    let mixture: bool = starts_with(low, "mix_");
    let mut i: usize = 0;
    while i < prefixes.len()
        invariant
            i <= prefixes.len(),
            ps == views(prefixes@),
            mixture == starts(low@, "mix_"@),
            forall|j: int| 0 <= j < i ==> !bears(low@, #[trigger] ps[j]),
        decreases prefixes.len() - i,
    {
        assert(ps[i as int] == prefixes@[i as int]@);
        if starts_with(low, prefixes[i].as_str()) || (!mixture && contains(
            low,
            prefixes[i].as_str(),
        )) {
            assert(bears(low@, ps[i as int]));
            return true;
        }
        i += 1;
    }
    false
}

/// The message for a mock column.
pub open spec fn mock_text(label: Seq<char>, name: Seq<char>) -> Seq<char> {
    label + " carries a MOCK column "@ + debug_text(name)
        + ". Mock metric columns must never enter a training/canonical corpus (the iwssim leak survived three corpus generations because the 'mock' qualifier lived only in a filename). Drop it, or rename the validation-only signal so it cannot be mistaken for a real metric and exclude it from the canonical schema."@
}

/// The message for a copy of the anchor.
pub open spec fn leak_text(label: Seq<char>, name: Seq<char>, share: Seq<char>) -> Seq<char> {
    label + " metric column "@ + debug_text(name) + " is a bit-identical copy of "@ + debug_text(
        "human_score"@,
    ) + " ("@ + share
        + "% identical) — target leak (Mode A). A metric column may never equal the human anchor it is meant to predict."@
}

/// The message for the first mock column.
pub open spec fn mock_fault(label: Seq<char>, names: Seq<Seq<char>>, lows: Seq<Seq<char>>, n: int) -> Option<
    Seq<char>,
>
    decreases n,
{
    if n <= 0 {
        None
    } else {
        match mock_fault(label, names, lows, n - 1) {
            Some(e) => Some(e),
            None => if occurs(lows[n - 1], "mock"@) {
                Some(mock_text(label, names[n - 1]))
            } else {
                None
            },
        }
    }
}

/// Is the column a copy of the anchor? At least a hundred rows can be compared, and
/// more than 99.5 percent of them are close.
pub open spec fn copies_anchor(
    t: TableView,
    anchor: Seq<CellView>,
    prefixes: Seq<Seq<char>>,
    name: Seq<char>,
    low: Seq<char>,
    close: Seq<bool>,
) -> bool {
    let col = column_in(t, name)->Some_0.cells;
    let both = compared(col, anchor, t.rows as int);
    &&& name != "human_score"@
    &&& names_metric(low, prefixes)
    &&& both >= 100
    &&& identical(col, anchor, close, t.rows as int) * 1000 > both * 995
}

/// What is compared: for each column, in which rows it is close to the anchor, and
/// the share of such rows as text.
#[derive(Debug)]
pub struct AnchorRows {
    pub close: Vec<Vec<bool>>,
    pub shares: Vec<String>,
}

/// The message for the first copy of the anchor.
pub open spec fn copy_fault(
    label: Seq<char>,
    t: TableView,
    anchor: Seq<CellView>,
    prefixes: Seq<Seq<char>>,
    lows: Seq<Seq<char>>,
    rows: AnchorRows,
    n: int,
) -> Option<Seq<char>>
    decreases n,
{
    if n <= 0 {
        None
    } else {
        match copy_fault(label, t, anchor, prefixes, lows, rows, n - 1) {
            Some(e) => Some(e),
            None => if copies_anchor(
                t,
                anchor,
                prefixes,
                t.names[n - 1],
                lows[n - 1],
                rows.close@[n - 1]@,
            ) {
                Some(leak_text(label, t.names[n - 1], rows.shares@[n - 1]@))
            } else {
                None
            },
        }
    }
}

/// What is wrong with the columns of a table, given their names in lower case.
pub open spec fn leak_fault(
    label: Seq<char>,
    t: TableView,
    prefixes: Seq<Seq<char>>,
    lows: Seq<Seq<char>>,
    rows: AnchorRows,
) -> Option<Seq<char>> {
    match mock_fault(label, t.names, lows, t.names.len() as int) {
        Some(e) => Some(e),
        None => match column_in(t, "human_score"@) {
            None => None,
            Some(a) => if compared(a.cells, a.cells, t.rows as int) < 100 {
                None
            } else {
                copy_fault(label, t, a.cells, prefixes, lows, rows, t.names.len() as int)
            },
        },
    }
}

/// Are the compared rows those of the table?
pub open spec fn rows_fit(t: TableView, rows: AnchorRows) -> bool {
    &&& rows.close@.len() == t.names.len()
    &&& rows.shares@.len() == t.names.len()
    &&& forall|c: int| 0 <= c < rows.close@.len() ==> (#[trigger] rows.close@[c])@.len() == t.rows
}

proof fn lemma_mock_stays(label: Seq<char>, names: Seq<Seq<char>>, lows: Seq<Seq<char>>, n: int, m: int)
    requires
        0 <= n <= m,
        mock_fault(label, names, lows, n) is Some,
    ensures
        mock_fault(label, names, lows, m) == mock_fault(label, names, lows, n),
    decreases m - n,
{
    if n < m {
        lemma_mock_stays(label, names, lows, n, m - 1);
    }
}

proof fn lemma_copy_stays(
    label: Seq<char>,
    t: TableView,
    anchor: Seq<CellView>,
    prefixes: Seq<Seq<char>>,
    lows: Seq<Seq<char>>,
    rows: AnchorRows,
    n: int,
    m: int,
)
    requires
        0 <= n <= m,
        copy_fault(label, t, anchor, prefixes, lows, rows, n) is Some,
    ensures
        copy_fault(label, t, anchor, prefixes, lows, rows, m) == copy_fault(
            label,
            t,
            anchor,
            prefixes,
            lows,
            rows,
            n,
        ),
    decreases m - n,
{
    if n < m {
        lemma_copy_stays(label, t, anchor, prefixes, lows, rows, n, m - 1);
    }
}

/// Refuses mock columns and copies of the anchor, given the columns' names in lower
/// case.
pub fn leak_verdict(
    label: &str,
    table: &Table,
    prefixes: &Vec<String>,
    lows: &Vec<String>,
    rows: &AnchorRows,
) -> (r: Result<(), AssembleError>)
    requires
        table_wf(table@),
        rows_fit(table@, *rows),
        lows@.len() == table@.names.len(),
    ensures
        match r {
            Ok(_) => leak_fault(label@, table@, views(prefixes@), views(lows@), *rows) is None,
            Err(e) => e matches AssembleError::JoinSafety(m) && leak_fault(
                label@,
                table@,
                views(prefixes@),
                views(lows@),
                *rows,
            ) == Some(m@),
        },
{
    let names = table.column_names();
    let ghost ns = table@.names;
    let ghost ls = views(lows@);
    let mut i: usize = 0;
    assert(names@.len() == ns.len());
    while i < names.len()
        invariant
            i <= names.len(),
            names@.len() == ns.len(),
            ns == views(names@),
            ns == table@.names,
            ls == views(lows@),
            lows@.len() == ns.len(),
            mock_fault(label@, ns, ls, i as int) is None,
        decreases names.len() - i,
    {
        assert(ls[i as int] == lows@[i as int]@);
        assert(ns[i as int] == names@[i as int]@);
        if contains(lows[i].as_str(), "mock") {
            let mut m: String = copy(label);
            m.append(" carries a MOCK column ");
            let q = quoted(names[i].as_str());
            m.append(q.as_str());
            m.append(
                ". Mock metric columns must never enter a training/canonical corpus (the iwssim leak survived three corpus generations because the 'mock' qualifier lived only in a filename). Drop it, or rename the validation-only signal so it cannot be mistaken for a real metric and exclude it from the canonical schema.",
            );
            proof {
                lemma_mock_stays(label@, ns, ls, i + 1, ns.len() as int);
            }
            return Err(AssembleError::JoinSafety(m));
        }
        i += 1;
    }
    let anchor = match table.column("human_score") {
        Some(c) => c,
        None => {
            return Ok(());
        },
    };
    let n: usize = table.num_rows();
    let mut all: Vec<bool> = Vec::new();
    let mut k: usize = 0;
    while k < n
        invariant
            k <= n,
            all@.len() == k,
        decreases n - k,
    {
        all.push(true);
        k += 1;
    }
    let own = compare_columns(anchor, anchor, &all);
    if own.0 < 100 {
        return Ok(());
    }
    let mut c: usize = 0;
    while c < names.len()
        invariant
            c <= names.len(),
            names@.len() == ns.len(),
            ns == views(names@),
            ns == table@.names,
            ls == views(lows@),
            lows@.len() == ns.len(),
            table_wf(table@),
            rows_fit(table@, *rows),
            mock_fault(label@, ns, ls, ns.len() as int) is None,
            column_in(table@, "human_score"@) == Some(anchor@),
            anchor@.cells.len() == table@.rows,
            compared(anchor@.cells, anchor@.cells, table@.rows as int) >= 100,
            copy_fault(label@, table@, anchor@.cells, views(prefixes@), ls, *rows, c as int) is None,
        decreases names.len() - c,
    {
        assert(ls[c as int] == lows@[c as int]@);
        assert(ns[c as int] == names@[c as int]@);
        let name = names[c].as_str();
        if !same(name, "human_score") && is_metric_name(lows[c].as_str(), prefixes) {
            proof {
                lemma_place(ns, name@);
                match place(ns, name@) {
                    Some(_) => {},
                    None => {
                        assert(ns.contains(ns[c as int]));
                    },
                }
            }
            match table.column(name) {
                Some(col) => {
                    assert(rows.close@[c as int]@.len() == table@.rows);
                    let r = compare_columns(col, anchor, &rows.close[c]);
                    if r.0 >= 100 && (r.1 as u128) * 1000 > (r.0 as u128) * 995 {
                        let mut m: String = copy(label);
                        m.append(" metric column ");
                        let q = quoted(name);
                        m.append(q.as_str());
                        m.append(" is a bit-identical copy of ");
                        let h = quoted("human_score");
                        m.append(h.as_str());
                        m.append(" (");
                        m.append(rows.shares[c].as_str());
                        m.append(
                            "% identical) — target leak (Mode A). A metric column may never equal the human anchor it is meant to predict.",
                        );
                        proof {
                            lemma_copy_stays(
                                label@,
                                table@,
                                anchor@.cells,
                                views(prefixes@),
                                ls,
                                *rows,
                                c + 1,
                                ns.len() as int,
                            );
                        }
                        return Err(AssembleError::JoinSafety(m));
                    }
                },
                None => {},
            }
        }
        c += 1;
    }
    Ok(())
}

/// The names of a table in lower case.
pub open spec fn low_names(t: TableView) -> Seq<Seq<char>> {
    t.names.map_values(|n: Seq<char>| unicode_lower(n))
}

/// Refuses mock columns and copies of the anchor, among the columns whose names bear
/// one of the beginnings.
pub fn assert_no_leaked_columns_with_prefixes(
    label: &str,
    table: &Table,
    prefixes: &Vec<String>,
    rows: &AnchorRows,
) -> (r: Result<(), AssembleError>)
    requires
        table_wf(table@),
        rows_fit(table@, *rows),
    ensures
        match r {
            Ok(_) => leak_fault(
                label@,
                table@,
                views(prefixes@),
                low_names(table@),
                *rows,
            ) is None,
            Err(e) => e matches AssembleError::JoinSafety(m) && leak_fault(
                label@,
                table@,
                views(prefixes@),
                low_names(table@),
                *rows,
            ) == Some(m@),
        },
{
    let names = table.column_names();
    let ghost want = low_names(table@);
    let mut lows: Vec<String> = Vec::new();
    let mut i: usize = 0;
    assert(names@.len() == table@.names.len());
    while i < names.len()
        invariant
            i <= names.len(),
            names@.len() == table@.names.len(),
            views(names@) == table@.names,
            want == low_names(table@),
            views(lows@) == want.take(i as int),
        decreases names.len() - i,
    {
        let l = to_lowercase(names[i].as_str());
        proof {
            lemma_views_push(lows@, l);
            assert(table@.names[i as int] == names@[i as int]@);
        }
        lows.push(l);
        i += 1;
        assert(views(lows@) =~= want.take(i as int));
    }
    assert(want.take(i as int) =~= want);
    assert(views(lows@).len() == lows@.len());
    leak_verdict(label, table, prefixes, &lows, rows)
}

/// Refuses mock columns and copies of the anchor.
pub fn assert_no_leaked_columns(label: &str, table: &Table, rows: &AnchorRows) -> (r: Result<
    (),
    AssembleError,
>)
    requires
        table_wf(table@),
        rows_fit(table@, *rows),
    ensures
        match r {
            Ok(_) => leak_fault(
                label@,
                table@,
                metric_prefixes(),
                low_names(table@),
                *rows,
            ) is None,
            Err(e) => e matches AssembleError::JoinSafety(m) && leak_fault(
                label@,
                table@,
                metric_prefixes(),
                low_names(table@),
                *rows,
            ) == Some(m@),
        },
{
    let p = leak_metric_prefixes();
    assert_no_leaked_columns_with_prefixes(label, table, &p, rows)
}

/// A table with a mock column is refused, whatever its numbers.
pub proof fn law_mock_column_refused(
    label: Seq<char>,
    t: TableView,
    prefixes: Seq<Seq<char>>,
    lows: Seq<Seq<char>>,
    rows: AnchorRows,
    i: int,
)
    requires
        0 <= i < t.names.len(),
        occurs(lows[i], "mock"@),
    ensures
        leak_fault(label, t, prefixes, lows, rows) is Some,
{
    assert(mock_fault(label, t.names, lows, i + 1) is Some);
    lemma_mock_stays(label, t.names, lows, i + 1, t.names.len() as int);
}

/// A column whose name is not that of a metric may equal the anchor.
pub proof fn law_other_columns_may_equal_anchor(
    t: TableView,
    anchor: Seq<CellView>,
    prefixes: Seq<Seq<char>>,
    name: Seq<char>,
    low: Seq<char>,
    close: Seq<bool>,
)
    requires
        !names_metric(low, prefixes),
    ensures
        !copies_anchor(t, anchor, prefixes, name, low, close),
{
}

/// A mixture may equal the anchor, whichever metrics its name holds.
pub proof fn law_mixtures_may_equal_anchor(
    t: TableView,
    anchor: Seq<CellView>,
    name: Seq<char>,
    low: Seq<char>,
    close: Seq<bool>,
)
    requires
        starts(low, "mix_"@),
    ensures
        !names_metric(low, metric_prefixes()),
        !copies_anchor(t, anchor, metric_prefixes(), name, low, close),
{
    reveal_strlit("mix_");
    reveal_strlit("iwssim");
    reveal_strlit("ssim2");
    reveal_strlit("cvvdp");
    reveal_strlit("butter");
    reveal_strlit("dssim");
    assert(low.take(4)[0] == 'm');
    assert forall|p: int| 0 <= p < metric_prefixes().len() implies !bears(
        low,
        #[trigger] metric_prefixes()[p],
    ) by {
        let q = metric_prefixes()[p];
        if starts(low, q) {
            assert(low.take(q.len() as int)[0] == q[0]);
        }
    }
}

/// Scores that are attached by position go to the rows in their order, and every other
/// column stays.
pub proof fn law_positional_scores_by_row(
    target: TableView,
    values: Seq<Real>,
    col: Seq<char>,
    other: Seq<char>,
    i: int,
)
    requires
        table_wf(target),
        values.len() == target.rows,
        0 <= i < target.rows,
        other != col,
    ensures
        column_in(with_column(target, col, real_column(values)), col) matches Some(c)
            && c.cells.len() == target.rows && c.cells[i] == CellView::F64(values[i]@),
        column_in(with_column(target, col, real_column(values)), other) == column_in(
            target,
            other,
        ),
{
    law_set_column_reads_back(target, col, real_column(values), other);
}

/// A row counts among the scored rows of its reference exactly when its score is a
/// number.
pub proof fn law_scored_rows(
    refs: Seq<CellView>,
    vals: Seq<CellView>,
    rounded: Seq<i64>,
    n: int,
    i: int,
)
    requires
        0 <= i < n,
    ensures
        finite(real_in(vals[i]).0) ==> scored_rows(refs, vals, rounded, n).contains(
            (seq![key_text(refs[i])], rounded[i]),
        ),
        scored_rows(refs, vals, rounded, n).len() <= n,
        (forall|j: int| 0 <= j < n ==> !finite(real_in(#[trigger] vals[j]).0)) ==> scored_rows(
            refs,
            vals,
            rounded,
            n,
        ).len() == 0,
    decreases n,
{
    let before = scored_rows(refs, vals, rounded, n - 1);
    let all = scored_rows(refs, vals, rounded, n);
    let row = (seq![key_text(refs[i])], rounded[i]);
    if n > 1 {
        law_scored_rows(
            refs,
            vals,
            rounded,
            n - 1,
            if i < n - 1 {
                i
            } else {
                0
            },
        );
    } else {
        reveal_with_fuel(scored_rows, 2);
    }
    if finite(real_in(vals[i]).0) {
        if i == n - 1 {
            assert(all[all.len() - 1] == row);
        } else {
            let k = choose|k: int| 0 <= k < before.len() && before[k] == row;
            assert(all[k] == row);
        }
    }
    assert(finite(real_in(vals[n - 1]).0) || all == before);
}

/// One score for each reference, spread over its rows, is suspect where there are enough
/// references and more than three rows for two of them.
pub proof fn law_spread_scores_suspect(rows: Seq<(Seq<Seq<char>>, i64)>, g: RefGroups)
    requires
        groups_of(rows, g),
        g.refs >= 5,
        2 * g.rows > 3 * g.refs,
        forall|i: int, j: int|
            0 <= i < rows.len() && 0 <= j < rows.len() && (#[trigger] rows[i]).0 == (
            #[trigger] rows[j]).0 ==> rows[i].1 == rows[j].1,
    ensures
        suspect(g, 5, 3, 2),
{
}

proof fn lemma_all_compared(a: Seq<CellView>, b: Seq<CellView>, close: Seq<bool>, n: int)
    requires
        n >= 0,
        forall|i: int| 0 <= i < n ==> finite(real_in(#[trigger] a[i]).0),
        forall|i: int| 0 <= i < n ==> finite(real_in(#[trigger] b[i]).0),
        forall|i: int| 0 <= i < n ==> #[trigger] close[i],
    ensures
        compared(a, b, n) == n,
        identical(a, b, close, n) == n,
        compared(b, b, n) == n,
    decreases n,
{
    if n > 0 {
        lemma_all_compared(a, b, close, n - 1);
        assert(finite(real_in(a[n - 1]).0));
        assert(finite(real_in(b[n - 1]).0));
        assert(close[n - 1]);
    }
}

/// A column that is named like a metric and equals the anchor in every row is refused,
/// where there are enough rows to tell.
pub proof fn law_copied_anchor_refused(
    label: Seq<char>,
    t: TableView,
    prefixes: Seq<Seq<char>>,
    lows: Seq<Seq<char>>,
    rows: AnchorRows,
    i: int,
)
    requires
        t.rows >= 100,
        0 <= i < t.names.len(),
        t.names[i] != "human_score"@,
        names_metric(lows[i], prefixes),
        column_in(t, "human_score"@) is Some,
        forall|k: int|
            0 <= k < t.rows ==> finite(
                real_in(#[trigger] column_in(t, "human_score"@)->Some_0.cells[k]).0,
            ),
        forall|k: int|
            0 <= k < t.rows ==> finite(
                real_in(#[trigger] column_in(t, t.names[i])->Some_0.cells[k]).0,
            ),
        forall|k: int| 0 <= k < t.rows ==> #[trigger] rows.close@[i]@[k],
    ensures
        leak_fault(label, t, prefixes, lows, rows) is Some,
{
    let anchor = column_in(t, "human_score"@)->Some_0.cells;
    let col = column_in(t, t.names[i])->Some_0.cells;
    lemma_all_compared(col, anchor, rows.close@[i]@, t.rows as int);
    assert(copies_anchor(t, anchor, prefixes, t.names[i], lows[i], rows.close@[i]@));
    assert(copy_fault(label, t, anchor, prefixes, lows, rows, i + 1) is Some);
    lemma_copy_stays(label, t, anchor, prefixes, lows, rows, i + 1, t.names.len() as int);
}

/// A name that begins with the word of a measure is that of a metric; only zensim is not
/// among them.
pub proof fn law_measures_are_guarded(f: Family, rest: Seq<char>)
    requires
        !(f is Zensim),
    ensures
        names_metric(family_word(f) + rest, metric_prefixes()),
{
    reveal_strlit("iwssim");
    reveal_strlit("ssim2");
    reveal_strlit("cvvdp");
    reveal_strlit("butter");
    reveal_strlit("butteraugli");
    reveal_strlit("dssim");
    let p = metric_prefixes();
    let low = family_word(f) + rest;
    assert(p[0] == "iwssim"@ && p[1] == "ssim2"@ && p[2] == "cvvdp"@ && p[3] == "butter"@ && p[4]
        == "dssim"@);
    let k: int = match f {
        Family::Iwssim => 0,
        Family::Ssim2 => 1,
        Family::Cvvdp => 2,
        Family::Butteraugli => 3,
        _ => 4,
    };
    assert(low.take(p[k].len() as int) =~= p[k]);
    assert(bears(low, p[k]));
}

/// A join is allowed exactly when both tables have all four columns of the key, the score
/// table has the column of the scores, and no two of its rows are of one pair.
pub proof fn law_join_allowed(target: TableView, metric: TableView, col: Seq<char>)
    ensures
        join_fault(target, metric, col) is None <==> {
            &&& has_key_columns(target)
            &&& has_key_columns(metric)
            &&& metric.names.contains(col)
            &&& forall|i: int, k: int|
                0 <= i < k < metric.rows ==> !#[trigger] same_pair(metric, i, metric, k)
        },
{
    law_keyed_means_all_four(target);
    law_keyed_means_all_four(metric);
    lemma_place(metric.names, col);
    let keys = keys_of(metric);
    if keyed(metric) {
        assert forall|i: int, k: int| 0 <= i < k < metric.rows implies #[trigger] same_pair(
            metric,
            i,
            metric,
            k,
        ) == (keys[i] == keys[k]) by {
            law_equal_keys_mean_same_pair(metric, i, metric, k);
        }
        if repeats(keys) == 0 {
            law_no_repeats_means_distinct(keys);
            assert forall|i: int, k: int| 0 <= i < k < metric.rows implies !#[trigger] same_pair(
                metric,
                i,
                metric,
                k,
            ) by {
                assert(keys[i] != keys[k]);
            }
        }
        if forall|i: int, k: int|
            0 <= i < k < metric.rows ==> !#[trigger] same_pair(metric, i, metric, k) {
            assert forall|i: int, k: int| 0 <= i < keys.len() && 0 <= k < keys.len() && i != k implies keys[i]
                != keys[k] by {
                if i < k {
                    assert(!same_pair(metric, i, metric, k));
                } else {
                    assert(!same_pair(metric, k, metric, i));
                }
            }
            assert(keys.no_duplicates());
            law_distinct_keys_do_not_repeat(keys);
        }
    }
}

/// Has the table a column for the image, the codec, the quality and the knobs?
pub open spec fn has_key_columns(t: TableView) -> bool {
    &&& t.names.contains("image_path"@)
    &&& t.names.contains("codec"@)
    &&& t.names.contains("q"@)
    &&& t.names.contains("knob_tuple_json"@)
}

/// A table without mock columns, in which no column named like a metric copies the
/// anchor, is let through; so is one without an anchor.
pub proof fn law_clean_table_let_through(
    label: Seq<char>,
    t: TableView,
    prefixes: Seq<Seq<char>>,
    lows: Seq<Seq<char>>,
    rows: AnchorRows,
)
    requires
        forall|i: int| 0 <= i < t.names.len() ==> !occurs(#[trigger] lows[i], "mock"@),
        column_in(t, "human_score"@) matches Some(a) ==> forall|i: int|
            0 <= i < t.names.len() ==> !copies_anchor(
                t,
                a.cells,
                prefixes,
                #[trigger] t.names[i],
                lows[i],
                rows.close@[i]@,
            ),
    ensures
        leak_fault(label, t, prefixes, lows, rows) is None,
{
    lemma_no_mock(label, t.names, lows, t.names.len() as int);
    match column_in(t, "human_score"@) {
        Some(a) => {
            lemma_no_copy(label, t, a.cells, prefixes, lows, rows, t.names.len() as int);
        },
        None => {},
    }
}

proof fn lemma_no_mock(label: Seq<char>, names: Seq<Seq<char>>, lows: Seq<Seq<char>>, n: int)
    requires
        forall|i: int| 0 <= i < n ==> !occurs(#[trigger] lows[i], "mock"@),
    ensures
        mock_fault(label, names, lows, n) is None,
    decreases n,
{
    if n > 0 {
        lemma_no_mock(label, names, lows, n - 1);
        assert(!occurs(lows[n - 1], "mock"@));
    }
}

proof fn lemma_no_copy(
    label: Seq<char>,
    t: TableView,
    anchor: Seq<CellView>,
    prefixes: Seq<Seq<char>>,
    lows: Seq<Seq<char>>,
    rows: AnchorRows,
    n: int,
)
    requires
        n <= t.names.len(),
        forall|i: int|
            0 <= i < t.names.len() ==> !copies_anchor(
                t,
                anchor,
                prefixes,
                #[trigger] t.names[i],
                lows[i],
                rows.close@[i]@,
            ),
    ensures
        copy_fault(label, t, anchor, prefixes, lows, rows, n) is None,
    decreases n,
{
    if n > 0 {
        lemma_no_copy(label, t, anchor, prefixes, lows, rows, n - 1);
        let name = t.names[n - 1];
    }
}

/// Two columns are compared in a row exactly when both have a number there, and the row
/// counts as identical exactly when the two numbers are also close.
pub proof fn law_rows_compared_one_by_one(
    a: Seq<CellView>,
    b: Seq<CellView>,
    close: Seq<bool>,
    n: int,
)
    requires
        n >= 0,
    ensures
        compared(a, b, n + 1) - compared(a, b, n) == (if finite(real_in(a[n]).0) && finite(
            real_in(b[n]).0,
        ) {
            1int
        } else {
            0
        }),
        identical(a, b, close, n + 1) - identical(a, b, close, n) == (if finite(real_in(a[n]).0)
            && finite(real_in(b[n]).0) && close[n] {
            1int
        } else {
            0
        }),
        identical(a, b, close, n) <= compared(a, b, n) <= n,
        compared(a, b, 0) == 0,
    decreases n,
{
    if n > 0 {
        law_rows_compared_one_by_one(a, b, close, n - 1);
    }
}

/// A column named like a metric copies the anchor exactly when the two can be compared in
/// a hundred rows or more and differ in fewer than one of two hundred.
pub proof fn law_copy_differs_in_few_rows(
    t: TableView,
    anchor: Seq<CellView>,
    prefixes: Seq<Seq<char>>,
    name: Seq<char>,
    low: Seq<char>,
    close: Seq<bool>,
)
    requires
        name != "human_score"@,
        names_metric(low, prefixes),
    ensures
        ({
            let col = column_in(t, name)->Some_0.cells;
            let both = compared(col, anchor, t.rows as int);
            let same = identical(col, anchor, close, t.rows as int);
            copies_anchor(t, anchor, prefixes, name, low, close) <==> both >= 100 && 200 * (both
                - same) < both
        }),
{
}

} // verus!
