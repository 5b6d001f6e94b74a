//! How scores are shown.

use crate::json::{lemma_object_view, members, Json, JsonNumber, JsonView, Members};
use crate::metrics::dispatch::Build;
use crate::metrics::kind::{str_views, MetricKind};
use crate::text::{copy, join, joined, lemma_views_push, split_at_each, views};
use crate::tsv::law_joined_splits_back;
use vstd::prelude::*;

verus! {

/// The form of the output.
#[derive(Debug, Clone, Copy, PartialEq, Eq, Structural)]
pub enum OutputFormat {
    /// `metric=<name> score=<value>`.
    Plain,
    /// One JSON object.
    Json,
    /// A header line and a line of values, with tabs.
    Tsv,
}

/// A score as text: with six decimals, and exactly as JSON writes it.
#[derive(Debug)]
pub struct ScoreText {
    pub fixed: String,
    pub exact: String,
}

/// What a score text means.
pub type ScoreView = (Seq<char>, Seq<char>);

impl View for ScoreText {
    type V = ScoreView;

    open spec fn view(&self) -> ScoreView {
        (self.fixed@, self.exact@)
    }
}

/// What a list of scores means.
pub open spec fn score_views(v: Seq<ScoreText>) -> Seq<ScoreView> {
    v.map_values(|s: ScoreText| s@)
}

/// Copies of scores.
pub fn copy_scores(v: &Vec<ScoreText>) -> (r: Vec<ScoreText>)
    ensures
        score_views(r@) == score_views(v@),
{
    let mut out: Vec<ScoreText> = Vec::new();
    let mut i: usize = 0;
    while i < v.len()
        invariant
            i <= v.len(),
            out@.len() == i,
            forall|j: int| 0 <= j < i ==> (#[trigger] out@[j])@ == v@[j]@,
        decreases v.len() - i,
    {
        out.push(ScoreText { fixed: copy(v[i].fixed.as_str()), exact: copy(v[i].exact.as_str()) });
        i += 1;
    }
    assert(score_views(out@) =~= score_views(v@));
    out
}

/// A number that is no whole number, as JSON.
pub open spec fn number_view(t: Seq<char>) -> JsonView {
    JsonView::Number(None, t)
}

/// The columns of a metric as members of an object, each with its score.
pub open spec fn score_members(cols: Seq<Seq<char>>, scores: Seq<ScoreView>) -> Seq<
    (Seq<char>, JsonView),
> {
    Seq::new(cols.len(), |i: int| (cols[i], number_view(scores[i].1)))
}

/// The columns of a metric as members of an object, each with its score.
pub fn score_object(kind: MetricKind, build: Build, scores: &Vec<ScoreText>) -> (r: Members)
    requires
        scores@.len() == kind.width(),
    ensures
        members(r@) == score_members(kind.columns(build), score_views(scores@)),
{
    let names = kind.column_names(build);
    assert(names@.len() == str_views(names@).len());
    let mut m: Members = Vec::new();
    let mut i: usize = 0;
    while i < names.len()
        invariant
            i <= names.len(),
            str_views(names@) == kind.columns(build),
            names@.len() == kind.width(),
            scores@.len() == names@.len(),
            m@.len() == i,
            forall|j: int|
                0 <= j < i ==> (#[trigger] m@[j]).0@ == kind.columns(build)[j] && m@[j].1@
                    == number_view(scores@[j].exact@),
        decreases names.len() - i,
    {
        assert(str_views(names@)[i as int] == names@[i as int]@);
        m.push(
            (
                copy(names[i]),
                Json::Number(
                    JsonNumber { unsigned: None, text: copy(scores[i].exact.as_str()) },
                ),
            ),
        );
        i += 1;
    }
    assert(members(m@) =~= score_members(kind.columns(build), score_views(scores@)));
    m
}

/// The JSON object of one metric on one pair.
pub open spec fn score_value(kind: MetricKind, build: Build, scores: Seq<ScoreView>) -> JsonView {
    JsonView::Object(
        seq![
            ("metric"@, JsonView::Str(kind.spec_name())),
            ("scores"@, JsonView::Object(score_members(kind.columns(build), scores))),
        ],
    )
}

/// The scores with six decimals.
pub open spec fn fixed_views(scores: Seq<ScoreView>) -> Seq<Seq<char>> {
    scores.map_values(|s: ScoreView| s.0)
}

/// One line of the plain form.
pub open spec fn plain_line(name: Seq<char>, score: Seq<char>) -> Seq<char> {
    "metric="@ + name + " score="@ + score
}

/// The plain form: one line, or one for each column under its own name where the
/// metric has several.
pub open spec fn plain_lines(kind: MetricKind, build: Build, scores: Seq<ScoreView>) -> Seq<Seq<char>> {
    if kind.width() == 1 {
        seq![plain_line(kind.spec_name(), scores[0].0)]
    } else {
        Seq::new(kind.width(), |i: int| plain_line(kind.columns(build)[i], scores[i].0))
    }
}

/// The tab-separated form: the columns of the metric and their values.
pub open spec fn tsv_lines(kind: MetricKind, build: Build, scores: Seq<ScoreView>) -> Seq<Seq<char>> {
    seq![joined(kind.columns(build), "\t"@), joined(fixed_views(scores), "\t"@)]
}

/// What is printed for a score: lines of text, or a JSON value.
#[derive(Debug)]
pub enum Printed {
    Lines(Vec<String>),
    Value(Json),
}

/// One line of the plain form.
fn show_plain(name: &str, score: &str) -> (r: String)
    ensures
        r@ == plain_line(name@, score@),
{
    let mut s: String = copy("metric=");
    s.append(name);
    s.append(" score=");
    s.append(score);
    s
}

/// The column names as strings.
pub fn column_strings(kind: MetricKind, build: Build) -> (r: Vec<String>)
    ensures
        views(r@) == kind.columns(build),
{
    let names = kind.column_names(build);
    let mut out: Vec<String> = Vec::new();
    let mut i: usize = 0;
    while i < names.len()
        invariant
            i <= names.len(),
            views(out@) == str_views(names@).take(i as int),
        decreases names.len() - i,
    {
        let c = copy(names[i]);
        proof {
            lemma_views_push(out@, c);
        }
        out.push(c);
        i += 1;
        assert(str_views(names@).take(i as int) =~= str_views(names@).take(i - 1).push(
            names@[i - 1]@,
        ));
    }
    assert(str_views(names@).take(i as int) =~= str_views(names@));
    out
}

/// The scores with six decimals.
pub fn fixed_strings(scores: &Vec<ScoreText>) -> (r: Vec<String>)
    ensures
        views(r@) == fixed_views(score_views(scores@)),
{
    let mut out: Vec<String> = Vec::new();
    let ghost all = fixed_views(score_views(scores@));
    let mut i: usize = 0;
    while i < scores.len()
        invariant
            i <= scores.len(),
            all == fixed_views(score_views(scores@)),
            views(out@) == all.take(i as int),
        decreases scores.len() - i,
    {
        let c = copy(scores[i].fixed.as_str());
        proof {
            lemma_views_push(out@, c);
        }
        out.push(c);
        i += 1;
        assert(all.take(i as int) =~= all.take(i - 1).push(scores@[i - 1].fixed@));
    }
    assert(all.take(i as int) =~= all);
    out
}

/// What is printed for the scores of one pair.
pub fn print_score(
    format: OutputFormat,
    kind: MetricKind,
    build: Build,
    scores: &Vec<ScoreText>,
) -> (r: Printed)
    requires
        scores@.len() == kind.width(),
    ensures
        match format {
            OutputFormat::Plain => r matches Printed::Lines(l) && views(l@) == plain_lines(
                kind,
                build,
                score_views(scores@),
            ),
            OutputFormat::Json => r matches Printed::Value(v) && v@ == score_value(
                kind,
                build,
                score_views(scores@),
            ),
            OutputFormat::Tsv => r matches Printed::Lines(l) && views(l@) == tsv_lines(
                kind,
                build,
                score_views(scores@),
            ),
        },
{
    match format {
        OutputFormat::Plain => {
            let cols = column_strings(kind, build);
            assert(views(cols@).len() == cols@.len());
            let mut lines: Vec<String> = Vec::new();
            if cols.len() == 1 {
                lines.push(show_plain(kind.name(), scores[0].fixed.as_str()));
                assert(views(lines@) =~= plain_lines(kind, build, score_views(scores@)));
                return Printed::Lines(lines);
            }
            let ghost want = plain_lines(kind, build, score_views(scores@));
            let mut i: usize = 0;
            while i < cols.len()
                invariant
                    i <= cols.len(),
                    cols@.len() == kind.width(),
                    cols@.len() != 1,
                    scores@.len() == cols@.len(),
                    views(cols@) == kind.columns(build),
                    want == plain_lines(kind, build, score_views(scores@)),
                    views(lines@) == want.take(i as int),
                decreases cols.len() - i,
            {
                assert(views(cols@)[i as int] == cols@[i as int]@);
                let l = show_plain(cols[i].as_str(), scores[i].fixed.as_str());
                proof {
                    lemma_views_push(lines@, l);
                }
                lines.push(l);
                i += 1;
                assert(views(lines@) =~= want.take(i as int));
            }
            assert(want.take(i as int) =~= want);
            Printed::Lines(lines)
        },
        OutputFormat::Json => {
            let inner = Json::Object(score_object(kind, build, scores));
            proof {
                lemma_object_view(inner);
            }
            let mut m: Members = Vec::new();
            m.push((copy("metric"), Json::Str(copy(kind.name()))));
            m.push((copy("scores"), inner));
            let v = Json::Object(m);
            proof {
                lemma_object_view(v);
                assert(members(m@) =~= score_value(kind, build, score_views(scores@))->Object_0);
            }
            Printed::Value(v)
        },
        OutputFormat::Tsv => {
            let cols = column_strings(kind, build);
            let vals = fixed_strings(scores);
            let mut lines: Vec<String> = Vec::new();
            lines.push(join(cols.as_slice(), "\t"));
            lines.push(join(vals.as_slice(), "\t"));
            assert(views(lines@) =~= tsv_lines(kind, build, score_views(scores@)));
            Printed::Lines(lines)
        },
    }
}

/// Every form of output gives each column its own score: as a member of the object, as a
/// field under the column's name, or as a line with the name and the score.
pub proof fn law_score_printed_for_its_column(
    kind: MetricKind,
    build: Build,
    scores: Seq<ScoreView>,
    i: int,
)
    requires
        scores.len() == kind.width(),
        0 <= i < kind.width(),
    ensures
        score_value(kind, build, scores) matches JsonView::Object(m) && {
            &&& m.contains(("metric"@, JsonView::Str(kind.spec_name())))
            &&& exists|s: Seq<(Seq<char>, JsonView)>|
                #[trigger] m.contains(("scores"@, JsonView::Object(s))) && s.len() == scores.len()
                    && s[i] == (kind.columns(build)[i], JsonView::Number(None, scores[i].1))
        },
        plain_lines(kind, build, scores).len() == kind.width(),
        plain_lines(kind, build, scores)[i] == "metric="@ + (if kind.width() == 1 {
            kind.spec_name()
        } else {
            kind.columns(build)[i]
        }) + " score="@ + scores[i].0,
        fixed_views(scores).len() == kind.columns(build).len(),
        fixed_views(scores)[i] == scores[i].0,
{
    let m = score_value(kind, build, scores)->Object_0;
    assert(m[0] == ("metric"@, JsonView::Str(kind.spec_name())));
    assert(m[1] == ("scores"@, JsonView::Object(score_members(kind.columns(build), scores))));
    assert(m.contains(("scores"@, JsonView::Object(score_members(kind.columns(build), scores)))));
}

/// The table has two lines, and their fields are the columns and the scores.
pub proof fn law_table_lines_split_back(kind: MetricKind, build: Build, scores: Seq<ScoreView>)
    requires
        scores.len() == kind.width(),
        forall|i: int|
            0 <= i < kind.width() ==> !(#[trigger] kind.columns(build)[i]).contains('\t'),
        forall|i: int| 0 <= i < kind.width() ==> !(#[trigger] scores[i]).0.contains('\t'),
    ensures
        tsv_lines(kind, build, scores).len() == 2,
        split_at_each(tsv_lines(kind, build, scores)[0], '\t') == kind.columns(build),
        split_at_each(tsv_lines(kind, build, scores)[1], '\t') == fixed_views(scores),
{
    reveal_strlit("\t");
    assert("\t"@ =~= seq!['\t']);
    assert forall|i: int| 0 <= i < fixed_views(scores).len() implies !(#[trigger] fixed_views(
        scores,
    )[i]).contains('\t') by {
        assert(fixed_views(scores)[i] == scores[i].0);
    }
    law_joined_splits_back(kind.columns(build), '\t');
    law_joined_splits_back(fixed_views(scores), '\t');
}

} // verus!
