//! Cells that a codec's own planner proposes.
//!
//! A planner is asked for a named plan over the qualities of the sweep. It
//! answers with cells and with a report of everything it merged, skipped or
//! dropped. Here the names are checked, each cell gets the identity under which
//! its row is written, and the report becomes the manifest beside the output.
//!
//! The identity is a JSON object with the cell's stratum, its fingerprint and
//! the plan's name. A later run resolves the stratum again and compares
//! fingerprints, so that a build that would encode the cell differently fails.

use crate::json::{
    flat_texts, json_parsed, json_pretty, json_rendered, lemma_array_view, lemma_object_view,
    lookup, members, parses_to, render_json, render_pretty, str_in, text_below, Json, JsonNumber,
    JsonView, Members,
};
use crate::sweep::encode::CodecKind;
use crate::sweep::grid::{copy_values, values};
use crate::text::{
    chars_of, copy, debug_text, decimal, hex16, hex_lower, hex_tail, occurs, occurs_at, quoted,
    same, show_hex, show_usize, stands_at, starts, starts_with, substring, views,
};
use vstd::prelude::*;

verus! {

/// The axes that a plan varies.
#[derive(Debug, Clone, Copy, PartialEq, Eq, Structural)]
pub enum PlanAxes {
    /// The axes that move the rate-distortion front.
    RdCore,
    /// Every mode that a user can switch.
    ModesFull,
    /// The same, for images with transparency.
    ModesFullAlpha,
}

/// The axes of a plan, or the message that the codec knows no such plan.
pub open spec fn axes_named(codec: CodecKind, name: Seq<char>) -> Result<PlanAxes, Seq<char>> {
    if name == "rd_core"@ {
        Ok(PlanAxes::RdCore)
    } else if name == "modes_full"@ {
        Ok(PlanAxes::ModesFull)
    } else if codec == CodecKind::Zenavif {
        if name == "modes_full_alpha"@ {
            Ok(PlanAxes::ModesFullAlpha)
        } else {
            Err(
                "unknown zenavif plan "@ + debug_text(name)
                    + "; expected rd_core, modes_full, or modes_full_alpha"@,
            )
        }
    } else {
        Err(
            "unknown "@ + codec.spec_name() + " plan "@ + debug_text(name)
                + "; expected rd_core or modes_full"@,
        )
    }
}

/// The axes of a plan, or the message that the codec knows no such plan.
pub fn plan_axes(codec: CodecKind, name: &str) -> (r: Result<PlanAxes, String>)
    ensures
        match r {
            Ok(a) => axes_named(codec, name@) == Ok::<PlanAxes, Seq<char>>(a),
            Err(e) => axes_named(codec, name@) == Err::<PlanAxes, Seq<char>>(e@),
        },
{
    if same(name, "rd_core") {
        return Ok(PlanAxes::RdCore);
    }
    if same(name, "modes_full") {
        return Ok(PlanAxes::ModesFull);
    }
    let q = quoted(name);
    if codec == CodecKind::Zenavif {
        if same(name, "modes_full_alpha") {
            return Ok(PlanAxes::ModesFullAlpha);
        }
        let mut e: String = copy("unknown zenavif plan ");
        e.append(q.as_str());
        e.append("; expected rd_core, modes_full, or modes_full_alpha");
        Err(e)
    } else {
        let mut e: String = copy("unknown ");
        e.append(codec.name());
        e.append(" plan ");
        e.append(q.as_str());
        e.append("; expected rd_core or modes_full");
        Err(e)
    }
}

// ── What a planner answers ─────────────────────────────────────────────

/// A cell as the planner proposes it.
#[derive(Debug)]
pub struct ProposedCell {
    /// The planner's name for the cell. It ends in `_q` and the quality where the
    /// cell has one.
    pub id: String,
    /// Stands for everything the encoder would do with the cell.
    pub fingerprint: u64,
    /// The quality, as text; none for a lossless cell.
    pub quality: Option<String>,
    /// Other names that mean the same cell.
    pub aliases: Vec<String>,
}

/// An axis from which the planner took values away to meet a budget.
#[derive(Debug)]
pub struct DroppedAxis {
    pub axis: Json,
    pub kept: Json,
    pub dropped: Json,
}

/// A planner's answer.
#[derive(Debug)]
pub struct PlanReport {
    pub cells: Vec<ProposedCell>,
    pub duplicates_merged: Json,
    pub invalid_skipped: Json,
    pub q_coarsenings: Json,
    pub over_budget: Json,
    pub dropped: Vec<DroppedAxis>,
}

/// A cell of the sweep.
#[derive(Debug)]
pub struct PlannedCell {
    /// The quality, as text.
    pub q: String,
    /// The identity that goes into the output.
    pub knob_json: String,
}

/// A plan: its cells and the manifest.
#[derive(Debug)]
pub struct BuiltPlan {
    pub cells: Vec<PlannedCell>,
    pub manifest_json: String,
}

// ── The identity of a cell ─────────────────────────────────────────────

/// The position of the last `p` that begins before `upto`.
pub open spec fn last_start(s: Seq<char>, p: Seq<char>, upto: int) -> Option<int>
    decreases upto,
{
    if upto <= 0 {
        None
    } else if occurs_at(s, p, upto - 1) {
        Some(upto - 1)
    } else {
        last_start(s, p, upto - 1)
    }
}

/// The stratum of a cell: its name up to the last `_q`, or the whole name.
pub open spec fn stratum(id: Seq<char>) -> Seq<char> {
    match last_start(id, "_q"@, id.len() as int) {
        Some(i) => id.take(i),
        None => id,
    }
}

/// The stratum of a cell.
pub fn stratum_of(id: &str) -> (r: String)
    ensures
        r@ == stratum(id@),
{
    let a = chars_of(id);
    let p = chars_of("_q");
    let mut i: usize = a.len();
    while i > 0
        invariant
            i <= a.len(),
            a@ == id@,
            p@ == "_q"@,
            last_start(id@, "_q"@, id@.len() as int) == last_start(id@, "_q"@, i as int),
        decreases i,
    {
        if stands_at(a.as_slice(), p.as_slice(), i - 1) {
            assert(id@.subrange(0, i - 1) =~= id@.take(i - 1));
            return substring(a.as_slice(), 0, i - 1);
        }
        i -= 1;
    }
    copy(id)
}

/// The stratum under which a cell is recorded. A lossless codec has no quality
/// in its names.
pub open spec fn recorded_cell(codec: CodecKind, id: Seq<char>) -> Seq<char> {
    if codec == CodecKind::Zenpng {
        id
    } else {
        stratum(id)
    }
}

/// The value behind an identity text.
pub open spec fn identity_value(cell: Seq<char>, fp: Seq<char>, plan: Seq<char>) -> JsonView {
    JsonView::Object(
        seq![
            ("cell"@, JsonView::Str(cell)),
            ("fp"@, JsonView::Str(fp)),
            ("plan"@, JsonView::Str(plan)),
        ],
    )
}

/// The names of an identity's members are in ascending order.
proof fn lemma_identity_flat(cell: Seq<char>, fp: Seq<char>, plan: Seq<char>)
    ensures
        flat_texts(identity_value(cell, fp, plan)),
{
    reveal_strlit("cell");
    reveal_strlit("fp");
    reveal_strlit("plan");
    assert(text_below("cell"@, "fp"@));
    assert(text_below("cell"@, "plan"@));
    assert(text_below("fp"@, "plan"@));
}

/// The identity text of a cell. Reading it as JSON gives its members back.
pub fn identity_json(cell: &str, fingerprint: u64, plan: &str) -> (r: String)
    ensures
        r@ == json_rendered(identity_value(cell@, hex16(fingerprint as nat), plan@)),
        parses_to(r@, identity_value(cell@, hex16(fingerprint as nat), plan@)),
{
    let mut m: Members = Vec::new();
    m.push((copy("cell"), Json::Str(copy(cell))));
    m.push((copy("fp"), Json::Str(show_hex(fingerprint, 16))));
    m.push((copy("plan"), Json::Str(copy(plan))));
    let v = Json::Object(m);
    proof {
        lemma_object_view(v);
        assert(members(m@) =~= seq![
            ("cell"@, JsonView::Str(cell@)),
            ("fp"@, JsonView::Str(hex16(fingerprint as nat))),
            ("plan"@, JsonView::Str(plan@)),
        ]);
        lemma_identity_flat(cell@, hex16(fingerprint as nat), plan@);
    }
    render_json(&v)
}

/// An identity holds the stratum, the fingerprint and the plan of its cell.
pub proof fn law_identity_members(cell: Seq<char>, fp: Seq<char>, plan: Seq<char>)
    ensures
        identity_value(cell, fp, plan) matches JsonView::Object(m) && str_in(lookup(m, "cell"@))
            == Some(cell) && str_in(lookup(m, "fp"@)) == Some(fp) && str_in(lookup(m, "plan"@))
            == Some(plan),
{
    reveal_strlit("cell");
    reveal_strlit("fp");
    reveal_strlit("plan");
    let m = identity_value(cell, fp, plan)->Object_0;
    assert("cell"@.len() != "fp"@.len());
    assert("plan"@.len() != "fp"@.len());
    assert("cell"@[0] != "plan"@[0]);
    let m1 = m.drop_first();
    let m2 = m1.drop_first();
    assert(m1[0] == m[1]);
    assert(m2[0] == m[2]);
    assert(lookup(m, "cell"@) == Some(m[0].1));
    assert(lookup(m1, "fp"@) == Some(m[1].1));
    assert(lookup(m, "fp"@) == lookup(m1, "fp"@));
    assert(lookup(m2, "plan"@) == Some(m[2].1));
    assert(lookup(m1, "plan"@) == lookup(m2, "plan"@));
    assert(lookup(m, "plan"@) == lookup(m1, "plan"@));
}

/// The largest number with `w` hexadecimal digits, plus one.
pub open spec fn hex_span(w: nat) -> nat
    decreases w,
{
    if w == 0 {
        1
    } else {
        16 * hex_span((w - 1) as nat)
    }
}

proof fn lemma_hex_digit_injective(a: nat, b: nat)
    requires
        a < 16,
        b < 16,
        hex_lower(a) == hex_lower(b),
    ensures
        a == b,
{
}

proof fn lemma_hex_injective(a: nat, b: nat, w: nat)
    requires
        a < hex_span(w),
        b < hex_span(w),
        hex_tail(a, w) == hex_tail(b, w),
    ensures
        a == b,
    decreases w,
{
    if w > 0 {
        let v = (w - 1) as nat;
        let x = hex_tail(a / 16, v);
        let y = hex_tail(b / 16, v);
        assert(hex_tail(a, w).drop_last() =~= x);
        assert(hex_tail(b, w).drop_last() =~= y);
        assert(hex_tail(a, w) == x.push(hex_lower(a % 16)));
        assert(hex_tail(b, w) == y.push(hex_lower(b % 16)));
        assert(x.push(hex_lower(a % 16)).last() == hex_lower(a % 16));
        assert(y.push(hex_lower(b % 16)).last() == hex_lower(b % 16));
        lemma_hex_digit_injective(a % 16, b % 16);
        lemma_hex_injective(a / 16, b / 16, v);
    }
}

/// Two fingerprints with one text are the same fingerprint.
pub proof fn law_fingerprint_text_injective(a: u64, b: u64)
    ensures
        hex16(a as nat) == hex16(b as nat) ==> a == b,
{
    assert(hex_span(16) == 0x1_0000_0000_0000_0000) by {
        reveal_with_fuel(hex_span, 17);
    }
    if hex16(a as nat) == hex16(b as nat) {
        lemma_hex_injective(a as nat, b as nat, 16);
    }
}

// ── Building a plan ────────────────────────────────────────────────────

/// The quality of a planned cell: lossless cells, and all cells of a lossless
/// codec, stand at quality zero.
pub open spec fn planned_q(codec: CodecKind, quality: Option<Seq<char>>) -> Seq<char> {
    match quality {
        Some(q) => if codec == CodecKind::Zenpng {
            "0"@
        } else {
            q
        },
        None => "0"@,
    }
}

/// The text of an optional string.
pub open spec fn text_of(o: Option<String>) -> Option<Seq<char>> {
    match o {
        Some(s) => Some(s@),
        None => None,
    }
}

/// Is `p` the cell of the sweep that the planner's `c` becomes?
pub open spec fn planned_for(
    p: PlannedCell,
    c: ProposedCell,
    codec: CodecKind,
    name: Seq<char>,
) -> bool {
    let id = identity_value(recorded_cell(codec, c.id@), hex16(c.fingerprint as nat), name);
    &&& p.q@ == planned_q(codec, text_of(c.quality))
    &&& p.knob_json@ == json_rendered(id)
    &&& parses_to(p.knob_json@, id)
}

/// A whole number as JSON.
pub open spec fn count_view(n: nat) -> JsonView {
    JsonView::Number(Some(n as u64), decimal(n))
}

/// A whole number as JSON.
pub fn count_json(n: usize) -> (r: Json)
    ensures
        r@ == count_view(n as nat),
{
    Json::Number(JsonNumber { unsigned: Some(n as u64), text: show_usize(n) })
}

/// Texts as a JSON list.
pub open spec fn texts_view(v: Seq<Seq<char>>) -> JsonView {
    JsonView::Array(v.map_values(|s: Seq<char>| JsonView::Str(s)))
}

/// Texts as a JSON list.
fn texts_json(v: &Vec<String>) -> (r: Json)
    ensures
        r@ == texts_view(views(v@)),
{
    let mut out: Vec<Json> = Vec::new();
    let mut i: usize = 0;
    while i < v.len()
        invariant
            i <= v.len(),
            out@.len() == i,
            forall|j: int| 0 <= j < i ==> #[trigger] out@[j]@ == JsonView::Str(v@[j]@),
        decreases v.len() - i,
    {
        out.push(Json::Str(copy(v[i].as_str())));
        i += 1;
    }
    let r = Json::Array(out);
    proof {
        lemma_array_view(r);
        assert(r@->Array_0 =~= texts_view(views(v@))->Array_0);
    }
    r
}

/// The manifest's entry for a cell that has other names.
pub open spec fn alias_view(c: ProposedCell) -> JsonView {
    JsonView::Object(
        seq![("cell"@, JsonView::Str(c.id@)), ("merged"@, texts_view(views(c.aliases@)))],
    )
}

/// The manifest's list of the cells that have other names.
pub open spec fn aliases_view(cells: Seq<ProposedCell>) -> Seq<JsonView>
    decreases cells.len(),
{
    if cells.len() == 0 {
        Seq::<JsonView>::empty()
    } else if cells.last().aliases@.len() == 0 {
        aliases_view(cells.drop_last())
    } else {
        aliases_view(cells.drop_last()).push(alias_view(cells.last()))
    }
}

/// The manifest's entry for an axis that lost values.
pub open spec fn dropped_view(d: DroppedAxis) -> JsonView {
    JsonView::Object(
        seq![("axis"@, d.axis@), ("dropped"@, d.dropped@), ("kept"@, d.kept@)],
    )
}

/// An optional whole number as JSON.
pub open spec fn opt_count_view(o: Option<usize>) -> JsonView {
    match o {
        Some(n) => count_view(n as nat),
        None => JsonView::Null,
    }
}

/// The manifest of a plan.
pub open spec fn manifest_view(
    codec: CodecKind,
    name: Seq<char>,
    budget: Option<usize>,
    q_grid: Seq<JsonView>,
    r: PlanReport,
) -> JsonView {
    if codec == CodecKind::Zenpng {
        JsonView::Object(
            seq![
                ("aliases"@, JsonView::Array(aliases_view(r.cells@))),
                ("budget"@, opt_count_view(budget)),
                ("cells"@, count_view(r.cells@.len())),
                ("dropped_axes"@, JsonView::Array(Seq::<JsonView>::empty())),
                ("duplicates_merged"@, r.duplicates_merged@),
                ("invalid_skipped"@, JsonView::Array(Seq::<JsonView>::empty())),
                (
                    "over_budget"@,
                    JsonView::Bool(budget matches Some(b) && r.cells@.len() > b),
                ),
                ("plan"@, JsonView::Str(name)),
                ("q_coarsenings"@, count_view(0)),
                (
                    "q_grid"@,
                    JsonView::Str("ignored (lossless; all cells on the q=0 sentinel)"@),
                ),
                ("q_grid_passed"@, JsonView::Array(q_grid)),
            ],
        )
    } else {
        JsonView::Object(
            seq![
                ("aliases"@, JsonView::Array(aliases_view(r.cells@))),
                ("budget"@, opt_count_view(budget)),
                ("cells"@, count_view(r.cells@.len())),
                (
                    "dropped_axes"@,
                    JsonView::Array(r.dropped@.map_values(|d: DroppedAxis| dropped_view(d))),
                ),
                ("duplicates_merged"@, r.duplicates_merged@),
                ("invalid_skipped"@, r.invalid_skipped@),
                ("over_budget"@, r.over_budget@),
                ("plan"@, JsonView::Str(name)),
                ("q_coarsenings"@, r.q_coarsenings@),
                ("q_grid"@, JsonView::Array(q_grid)),
            ],
        )
    }
}

/// The manifest's list of the cells that have other names.
fn aliases_json(cells: &Vec<ProposedCell>) -> (r: Json)
    ensures
        r@ == JsonView::Array(aliases_view(cells@)),
{
    let mut out: Vec<Json> = Vec::new();
    let mut i: usize = 0;
    assert(values(out@) =~= aliases_view(cells@.take(0)));
    while i < cells.len()
        invariant
            i <= cells.len(),
            values(out@) == aliases_view(cells@.take(i as int)),
        decreases cells.len() - i,
    {
        assert(cells@.take(i + 1).drop_last() =~= cells@.take(i as int));
        assert(cells@.take(i + 1).last() == cells@[i as int]);
        if cells[i].aliases.len() > 0 {
            let mut m: Members = Vec::new();
            m.push((copy("cell"), Json::Str(copy(cells[i].id.as_str()))));
            m.push((copy("merged"), texts_json(&cells[i].aliases)));
            let v = Json::Object(m);
            proof {
                lemma_object_view(v);
                assert(members(m@) =~= alias_view(cells@[i as int])->Object_0);
            }
            let ghost before = out@;
            out.push(v);
            assert(values(out@) =~= values(before).push(v@));
        }
        i += 1;
    }
    assert(cells@.take(i as int) =~= cells@);
    let r = Json::Array(out);
    proof {
        lemma_array_view(r);
        assert(r@->Array_0 =~= values(out@));
    }
    r
}

/// The manifest's list of the axes that lost values.
fn dropped_json(dropped: &Vec<DroppedAxis>) -> (r: Json)
    ensures
        r@ == JsonView::Array(dropped@.map_values(|d: DroppedAxis| dropped_view(d))),
{
    let mut out: Vec<Json> = Vec::new();
    let mut i: usize = 0;
    while i < dropped.len()
        invariant
            i <= dropped.len(),
            out@.len() == i,
            forall|j: int| 0 <= j < i ==> #[trigger] out@[j]@ == dropped_view(dropped@[j]),
        decreases dropped.len() - i,
    {
        let mut m: Members = Vec::new();
        m.push((copy("axis"), dropped[i].axis.duplicate()));
        m.push((copy("dropped"), dropped[i].dropped.duplicate()));
        m.push((copy("kept"), dropped[i].kept.duplicate()));
        let v = Json::Object(m);
        proof {
            lemma_object_view(v);
            assert(members(m@) =~= dropped_view(dropped@[i as int])->Object_0);
        }
        out.push(v);
        i += 1;
    }
    let r = Json::Array(out);
    proof {
        lemma_array_view(r);
        assert(r@->Array_0 =~= dropped@.map_values(|d: DroppedAxis| dropped_view(d)));
    }
    r
}

/// JSON values as a JSON list.
fn list_json(v: &Vec<Json>) -> (r: Json)
    ensures
        r@ == JsonView::Array(values(v@)),
{
    let items = copy_values(v);
    let r = Json::Array(items);
    proof {
        lemma_array_view(r);
        assert(r@->Array_0 =~= values(items@));
    }
    r
}

/// The manifest of a plan, as text.
fn manifest_json(
    codec: CodecKind,
    name: &str,
    budget: Option<usize>,
    q_grid: &Vec<Json>,
    report: &PlanReport,
) -> (r: String)
    ensures
        r@ == json_pretty(manifest_view(codec, name@, budget, values(q_grid@), *report)),
{
    let budget_json: Json = match budget {
        Some(n) => count_json(n),
        None => Json::Null,
    };
    let mut m: Members = Vec::new();
    m.push((copy("aliases"), aliases_json(&report.cells)));
    m.push((copy("budget"), budget_json));
    m.push((copy("cells"), count_json(report.cells.len())));
    if codec == CodecKind::Zenpng {
        let over: bool = match budget {
            Some(b) => report.cells.len() > b,
            None => false,
        };
        let none: Vec<Json> = Vec::new();
        assert(values(none@) =~= Seq::<JsonView>::empty());
        m.push((copy("dropped_axes"), list_json(&none)));
        m.push((copy("duplicates_merged"), report.duplicates_merged.duplicate()));
        m.push((copy("invalid_skipped"), list_json(&none)));
        m.push((copy("over_budget"), Json::Bool(over)));
        m.push((copy("plan"), Json::Str(copy(name))));
        m.push((copy("q_coarsenings"), count_json(0)));
        m.push(
            (copy("q_grid"), Json::Str(copy("ignored (lossless; all cells on the q=0 sentinel)"))),
        );
        m.push((copy("q_grid_passed"), list_json(q_grid)));
    } else {
        m.push((copy("dropped_axes"), dropped_json(&report.dropped)));
        m.push((copy("duplicates_merged"), report.duplicates_merged.duplicate()));
        m.push((copy("invalid_skipped"), report.invalid_skipped.duplicate()));
        m.push((copy("over_budget"), report.over_budget.duplicate()));
        m.push((copy("plan"), Json::Str(copy(name))));
        m.push((copy("q_coarsenings"), report.q_coarsenings.duplicate()));
        m.push((copy("q_grid"), list_json(q_grid)));
    }
    let v = Json::Object(m);
    proof {
        lemma_object_view(v);
        assert(members(m@) =~= manifest_view(codec, name@, budget, values(q_grid@), *report)->Object_0);
    }
    render_pretty(&v)
}

/// Is `r` what a named plan comes to, given the planner's answer? One cell for
/// each that it proposes, in its order, and the manifest; or the message that the
/// codec knows no plan of that name.
pub open spec fn plan_outcome(
    r: Result<BuiltPlan, String>,
    codec: CodecKind,
    name: Seq<char>,
    budget: Option<usize>,
    q_grid: Seq<JsonView>,
    report: PlanReport,
) -> bool {
    match r {
        Ok(p) => {
            &&& axes_named(codec, name) is Ok
            &&& p.cells@.len() == report.cells@.len()
            &&& forall|i: int|
                0 <= i < p.cells@.len() ==> planned_for(
                    #[trigger] p.cells@[i],
                    report.cells@[i],
                    codec,
                    name,
                )
            &&& p.manifest_json@ == json_pretty(manifest_view(codec, name, budget, q_grid, report))
        },
        Err(e) => axes_named(codec, name) == Err::<PlanAxes, Seq<char>>(e@),
    }
}

/// Builds a plan from the planner's answer.
pub fn build_plan(
    codec: CodecKind,
    name: &str,
    budget: Option<usize>,
    q_grid: &Vec<Json>,
    report: &PlanReport,
) -> (r: Result<BuiltPlan, String>)
    ensures
        plan_outcome(r, codec, name@, budget, values(q_grid@), *report),
{
    match plan_axes(codec, name) {
        Err(e) => {
            return Err(e);
        },
        Ok(_) => {},
    }
    let mut cells: Vec<PlannedCell> = Vec::new();
    let mut i: usize = 0;
    while i < report.cells.len()
        invariant
            i <= report.cells.len(),
            cells@.len() == i,
            forall|j: int|
                0 <= j < i ==> planned_for(#[trigger] cells@[j], report.cells@[j], codec, name@),
        decreases report.cells.len() - i,
    {
        let c = &report.cells[i];
        let base: String = if codec == CodecKind::Zenpng {
            copy(c.id.as_str())
        } else {
            stratum_of(c.id.as_str())
        };
        let q: String = match &c.quality {
            Some(q) => if codec == CodecKind::Zenpng {
                copy("0")
            } else {
                copy(q.as_str())
            },
            None => copy("0"),
        };
        let knob_json = identity_json(base.as_str(), c.fingerprint, name);
        cells.push(PlannedCell { q, knob_json });
        i += 1;
    }
    let manifest = manifest_json(codec, name, budget, q_grid, report);
    Ok(BuiltPlan { cells, manifest_json: manifest })
}

/// Builds a zenjpeg plan from the planner's answer.
pub fn build_zenjpeg_plan(
    name: &str,
    budget: Option<usize>,
    q_grid: &Vec<Json>,
    report: &PlanReport,
) -> (r: Result<BuiltPlan, String>)
    ensures
        plan_outcome(r, CodecKind::Zenjpeg, name@, budget, values(q_grid@), *report),
{
    build_plan(CodecKind::Zenjpeg, name, budget, q_grid, report)
}

/// Builds a zenavif plan from the planner's answer.
pub fn build_zenavif_plan(
    name: &str,
    budget: Option<usize>,
    q_grid: &Vec<Json>,
    report: &PlanReport,
) -> (r: Result<BuiltPlan, String>)
    ensures
        plan_outcome(r, CodecKind::Zenavif, name@, budget, values(q_grid@), *report),
{
    build_plan(CodecKind::Zenavif, name, budget, q_grid, report)
}

/// Builds a zenjxl plan from the planner's answer.
pub fn build_zenjxl_plan(
    name: &str,
    budget: Option<usize>,
    q_grid: &Vec<Json>,
    report: &PlanReport,
) -> (r: Result<BuiltPlan, String>)
    ensures
        plan_outcome(r, CodecKind::Zenjxl, name@, budget, values(q_grid@), *report),
{
    build_plan(CodecKind::Zenjxl, name, budget, q_grid, report)
}

/// Builds a zenwebp plan from the planner's answer.
pub fn build_zenwebp_plan(
    name: &str,
    budget: Option<usize>,
    q_grid: &Vec<Json>,
    report: &PlanReport,
) -> (r: Result<BuiltPlan, String>)
    ensures
        plan_outcome(r, CodecKind::Zenwebp, name@, budget, values(q_grid@), *report),
{
    build_plan(CodecKind::Zenwebp, name, budget, q_grid, report)
}

/// Builds a zenpng plan from the planner's answer.
pub fn build_zenpng_plan(
    name: &str,
    budget: Option<usize>,
    q_grid: &Vec<Json>,
    report: &PlanReport,
) -> (r: Result<BuiltPlan, String>)
    ensures
        plan_outcome(r, CodecKind::Zenpng, name@, budget, values(q_grid@), *report),
{
    build_plan(CodecKind::Zenpng, name, budget, q_grid, report)
}

/// Two proposed cells share an identity exactly when they have the same stratum
/// and the same fingerprint; so cells that differ in either stay apart in the
/// output, together with their qualities.
pub proof fn law_identity_injective(
    codec: CodecKind,
    a: ProposedCell,
    b: ProposedCell,
    name: Seq<char>,
)
    ensures
        identity_value(recorded_cell(codec, a.id@), hex16(a.fingerprint as nat), name)
            == identity_value(recorded_cell(codec, b.id@), hex16(b.fingerprint as nat), name)
            <==> recorded_cell(codec, a.id@) == recorded_cell(codec, b.id@) && a.fingerprint
            == b.fingerprint,
{
    let x = identity_value(recorded_cell(codec, a.id@), hex16(a.fingerprint as nat), name);
    let y = identity_value(recorded_cell(codec, b.id@), hex16(b.fingerprint as nat), name);
    if x == y {
        assert(x->Object_0[0].1 == y->Object_0[0].1);
        assert(x->Object_0[1].1 == y->Object_0[1].1);
        law_fingerprint_text_injective(a.fingerprint, b.fingerprint);
    }
}

// ── Resolving an identity ──────────────────────────────────────────────

/// What a codec's parser is handed for a stratum: lossy JPEG XL and WebP cells
/// need their quality back.
pub open spec fn parser_id(codec: CodecKind, cell: Seq<char>, q: Seq<char>) -> Seq<char> {
    if (codec == CodecKind::Zenjxl && starts(cell, "vd-"@)) || (codec == CodecKind::Zenwebp
        && starts(cell, "vp8-"@)) {
        cell + "_q"@ + q
    } else {
        cell
    }
}

/// What a codec's parser is handed for a stratum.
pub fn plan_cell_id(codec: CodecKind, cell: &str, q: &str) -> (r: String)
    ensures
        r@ == parser_id(codec, cell@, q@),
{
    let needs_q: bool = match codec {
        CodecKind::Zenjxl => starts_with(cell, "vd-"),
        CodecKind::Zenwebp => starts_with(cell, "vp8-"),
        _ => false,
    };
    let mut s: String = copy(cell);
    if needs_q {
        s.append("_q");
        s.append(q);
    }
    s
}

/// The message for a cell that this build would encode differently.
pub open spec fn mismatch_text(
    cell: Seq<char>,
    q: Seq<char>,
    declared: Seq<char>,
    actual: Seq<char>,
) -> Seq<char> {
    "plan-cell fingerprint mismatch for "@ + debug_text(cell) + " q"@ + q + ": declared "@
        + declared + ", resolved "@ + actual
        + " — id-grammar drift between the declaring and executing builds?"@
}

/// Accepts a resolved cell exactly when its fingerprint is the declared one. The
/// parser's own error comes first.
pub fn resolve_verified(
    cell: &str,
    q: &str,
    fp_hex: &str,
    resolved: Result<u64, String>,
) -> (r: Result<(), String>)
    ensures
        match resolved {
            Err(f) => r matches Err(e) && e@ == f@,
            Ok(fp) => match r {
                Ok(_) => hex16(fp as nat) == fp_hex@,
                Err(e) => hex16(fp as nat) != fp_hex@ && e@ == mismatch_text(
                    cell@,
                    q@,
                    fp_hex@,
                    hex16(fp as nat),
                ),
            },
        },
{
    match resolved {
        Err(f) => Err(f),
        Ok(fp) => {
            let actual = show_hex(fp, 16);
            if same(actual.as_str(), fp_hex) {
                return Ok(());
            }
            let mut e: String = copy("plan-cell fingerprint mismatch for ");
            let c = quoted(cell);
            e.append(c.as_str());
            e.append(" q");
            e.append(q);
            e.append(": declared ");
            e.append(fp_hex);
            e.append(", resolved ");
            e.append(actual.as_str());
            e.append(" — id-grammar drift between the declaring and executing builds?");
            Err(e)
        },
    }
}

// ── Laws of plans ──────────────────────────────────────────────────────

/// Is this a name of the set of axes, for a codec that has it?
pub open spec fn axes_word(codec: CodecKind, axes: PlanAxes, name: Seq<char>) -> bool {
    match axes {
        PlanAxes::RdCore => name == "rd_core"@,
        PlanAxes::ModesFull => name == "modes_full"@,
        PlanAxes::ModesFullAlpha => name == "modes_full_alpha"@ && codec.spec_name()
            == "zenavif"@,
    }
}

/// A name gives the axes that it is a name of, and is refused when it is none.
pub proof fn law_plan_name_gives_its_axes(codec: CodecKind, name: Seq<char>, axes: PlanAxes)
    ensures
        axes_named(codec, name) matches Ok(a) ==> axes_word(codec, a, name),
        axes_word(codec, axes, name) ==> axes_named(codec, name) is Ok,
{
    reveal_strlit("zenpng");
    reveal_strlit("zenjpeg");
    reveal_strlit("zenwebp");
    reveal_strlit("zenavif");
    reveal_strlit("zenjxl");
    assert("zenpng"@[3] == 'p' && "zenjpeg"@[3] == 'j' && "zenwebp"@[3] == 'w' && "zenavif"@[3]
        == 'a' && "zenjxl"@[3] == 'j');
}

proof fn lemma_last_start(s: Seq<char>, p: Seq<char>, upto: int)
    requires
        upto >= 0,
    ensures
        match last_start(s, p, upto) {
            Some(i) => 0 <= i < upto && occurs_at(s, p, i) && forall|j: int|
                i < j < upto ==> !occurs_at(s, p, j),
            None => forall|j: int| 0 <= j < upto ==> !occurs_at(s, p, j),
        },
    decreases upto,
{
    if upto > 0 && !occurs_at(s, p, upto - 1) {
        lemma_last_start(s, p, upto - 1);
    }
}

/// The quality at the end of a cell's name is taken off, and nothing else; a name
/// without one stays.
pub proof fn law_stratum_drops_quality(cell: Seq<char>, q: Seq<char>)
    requires
        !q.contains('_'),
    ensures
        stratum(cell + "_q"@ + q) == cell,
        !occurs(cell, "_q"@) ==> stratum(cell) == cell,
{
    reveal_strlit("_q");
    let m = "_q"@;
    let id = cell + m + q;
    let n = id.len() as int;
    let at = cell.len() as int;
    lemma_last_start(id, m, n);
    assert(id.subrange(at, at + 2) =~= m);
    assert(occurs_at(id, m, at));
    assert forall|j: int| at < j < n implies !occurs_at(id, m, j) by {
        if occurs_at(id, m, j) {
            assert(id.subrange(j, j + 2)[0] == m[0]);
            assert(id[j] == '_');
            if j >= at + 2 {
                assert(id[j] == q[j - at - 2]);
                assert(q.contains('_'));
            } else {
                assert(id[j] == m[1]);
            }
        }
    }
    assert(last_start(id, m, n) == Some(at));
    assert(id.take(at) =~= cell);
    lemma_last_start(cell, m, at);
    if !occurs(cell, m) {
        if last_start(cell, m, at) is Some {
            assert(occurs_at(cell, m, last_start(cell, m, at)->Some_0));
        }
    }
}

/// What is recorded of a lossy cell of JPEG XL or WebP, with its quality, gives the
/// planner's name for the cell back.
pub proof fn law_recorded_cell_names_cell(codec: CodecKind, cell: Seq<char>, q: Seq<char>)
    requires
        !q.contains('_'),
        codec.spec_name() == "zenjxl"@ && starts(cell, "vd-"@) || codec.spec_name() == "zenwebp"@
            && starts(cell, "vp8-"@),
    ensures
        parser_id(codec, recorded_cell(codec, cell + "_q"@ + q), q) == cell + "_q"@ + q,
{
    law_stratum_drops_quality(cell, q);
    reveal_strlit("zenpng");
    reveal_strlit("zenjpeg");
    reveal_strlit("zenwebp");
    reveal_strlit("zenavif");
    reveal_strlit("zenjxl");
    assert("zenpng"@[3] == 'p' && "zenjpeg"@[3] == 'j' && "zenwebp"@[3] == 'w' && "zenavif"@[3]
        == 'a' && "zenjxl"@[3] == 'j' && "zenjpeg"@.len() == 7 && "zenjxl"@.len() == 6);
}

/// A planned cell runs at the quality that the planner gave it; one without a quality,
/// and every cell of the lossless codec, runs at zero.
pub proof fn law_planned_quality(codec: CodecKind, q: Seq<char>)
    ensures
        planned_q(codec, None) == "0"@,
        codec is Zenpng ==> planned_q(codec, Some(q)) == "0"@,
        !(codec is Zenpng) ==> planned_q(codec, Some(q)) == q,
{
}

/// The manifest of a plan tells its name, its budget, how many cells it has, and what
/// the planner merged.
pub proof fn law_manifest_members(
    codec: CodecKind,
    name: Seq<char>,
    budget: Option<usize>,
    q_grid: Seq<JsonView>,
    r: PlanReport,
)
    ensures
        manifest_view(codec, name, budget, q_grid, r) matches JsonView::Object(m) && {
            &&& m.contains(("plan"@, JsonView::Str(name)))
            &&& m.contains(
                (
                    "cells"@,
                    JsonView::Number(Some(r.cells@.len() as u64), decimal(r.cells@.len())),
                ),
            )
            &&& m.contains(("duplicates_merged"@, r.duplicates_merged@))
            &&& budget is None ==> m.contains(("budget"@, JsonView::Null))
            &&& budget matches Some(b) ==> m.contains(
                ("budget"@, JsonView::Number(Some(b as u64), decimal(b as nat))),
            )
            &&& codec is Zenpng ==> m.contains(("q_grid_passed"@, JsonView::Array(q_grid)))
            &&& codec is Zenpng && budget is Some ==> m.contains(
                ("over_budget"@, JsonView::Bool(r.cells@.len() > budget->Some_0)),
            )
            &&& !(codec is Zenpng) ==> {
                &&& m.contains(("q_grid"@, JsonView::Array(q_grid)))
                &&& m.contains(("over_budget"@, r.over_budget@))
                &&& m.contains(("invalid_skipped"@, r.invalid_skipped@))
                &&& m.contains(("q_coarsenings"@, r.q_coarsenings@))
            }
        },
{
    let m = manifest_view(codec, name, budget, q_grid, r)->Object_0;
    assert(m[1].0 == "budget"@ && m[2].0 == "cells"@ && m[4].0 == "duplicates_merged"@ && m[5].0
        == "invalid_skipped"@ && m[6].0 == "over_budget"@ && m[7].0 == "plan"@ && m[8].0
        == "q_coarsenings"@ && m[9].0 == "q_grid"@);
    if codec is Zenpng {
        assert(m[10].0 == "q_grid_passed"@);
    }
}

/// The manifest lists the other names of a cell exactly when the cell has some.
pub proof fn law_manifest_lists_aliases(cells: Seq<ProposedCell>, i: int)
    requires
        0 <= i < cells.len(),
        cells[i].aliases@.len() > 0,
    ensures
        aliases_view(cells).contains(alias_view(cells[i])),
        alias_view(cells[i]) == JsonView::Object(
            seq![
                ("cell"@, JsonView::Str(cells[i].id@)),
                ("merged"@, texts_view(views(cells[i].aliases@))),
            ],
        ),
    decreases cells.len(),
{
    let front = cells.drop_last();
    let before = aliases_view(front);
    let all = aliases_view(cells);
    if i < front.len() {
        law_manifest_lists_aliases(front, i);
        let k = choose|k: int| 0 <= k < before.len() && before[k] == alias_view(front[i]);
        assert(all[k] == before[k]);
    } else {
        assert(all[all.len() - 1] == alias_view(cells[i]));
    }
}

/// The identity of a planned cell reads back as JSON: the plan's name, the fingerprint and
/// the recorded cell.
pub proof fn law_planned_identity_reads_back(
    p: PlannedCell,
    c: ProposedCell,
    codec: CodecKind,
    name: Seq<char>,
)
    requires
        planned_for(p, c, codec, name),
    ensures
        json_parsed(p.knob_json@) matches Ok(JsonView::Object(m)) && {
            &&& str_in(lookup(m, "plan"@)) == Some(name)
            &&& str_in(lookup(m, "fp"@)) == Some(hex16(c.fingerprint as nat))
            &&& str_in(lookup(m, "cell"@)) == Some(recorded_cell(codec, c.id@))
        },
{
    law_identity_members(recorded_cell(codec, c.id@), hex16(c.fingerprint as nat), name);
}

} // verus!
