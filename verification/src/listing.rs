//! What the program tells about itself: its metrics, its formats, and the last
//! line of a sweep.

use crate::metrics::kind::MetricKind;
use crate::sweep::run::SweepStats;
use crate::text::{copy, decimal, ends, lemma_views_push, show_usize, starts, views};
use vstd::prelude::*;

verus! {

/// `n` spaces.
pub open spec fn blanks(n: nat) -> Seq<char> {
    Seq::new(n, |i: int| ' ')
}

/// `s`, filled up with spaces to `width` characters.
pub open spec fn left_justified(s: Seq<char>, width: nat) -> Seq<char> {
    if s.len() < width {
        s + blanks((width - s.len()) as nat)
    } else {
        s
    }
}

/// `s`, filled up with spaces to `width` characters.
fn left_justify(s: &str, width: usize) -> (r: String)
    ensures
        r@ == left_justified(s@, width as nat),
{
    let mut out: String = copy(s);
    let chars = crate::text::chars_of(s);
    let mut n: usize = chars.len();
    while n < width
        invariant
            n >= s@.len(),
            n == s@.len() || n <= width,
            out@ == s@ + blanks((n - s@.len()) as nat),
        decreases width - n,
    {
        let ghost before = out@;
        out.push(' ');
        assert(out@ =~= s@ + blanks((n + 1 - s@.len()) as nat));
        n = n + 1;
    }
    assert(s@ + blanks(0) =~= s@);
    out
}

/// The line of a metric: its name, where it runs, whether it needs a GPU.
pub open spec fn metric_line(m: MetricKind) -> Seq<char> {
    left_justified(m.spec_name(), 20) + " "@ + left_justified(
        if m.on_gpu() {
            "GPU"@
        } else {
            "CPU"@
        },
        8,
    ) + " "@ + if m.on_gpu() {
        "yes"@
    } else {
        "no"@
    }
}

/// The lines that list the first `n` metrics.
pub open spec fn metric_lines(n: nat) -> Seq<Seq<char>> {
    seq!["name                 backend  requires_gpu"@] + Seq::new(
        n,
        |i: int| metric_line(MetricKind::spec_all()[i]),
    )
}

/// The list of metrics, one line for each, and below it the runtimes.
pub fn print_metric_list() -> (r: Vec<String>)
    ensures
        views(r@) == metric_lines(MetricKind::spec_all().len()) + seq![
            Seq::<char>::empty(),
            "GPU runtimes (--gpu-runtime): auto, cuda, wgpu, hip, cpu"@,
        ],
{
    let all = MetricKind::all();
    let mut out: Vec<String> = Vec::new();
    out.push(copy("name                 backend  requires_gpu"));
    assert(views(out@) =~= metric_lines(0));
    let mut i: usize = 0;
    while i < all.len()
        invariant
            i <= all.len(),
            all@ == MetricKind::spec_all(),
            views(out@) == metric_lines(i as nat),
        decreases all.len() - i,
    {
        let m = all[i];
        let mut line: String = left_justify(m.name(), 20);
        line.append(" ");
        let place = left_justify(m.backend(), 8);
        line.append(place.as_str());
        line.append(" ");
        if m.requires_gpu() {
            line.append("yes");
        } else {
            line.append("no");
        }
        assert(line@ == metric_line(m));
        proof {
            lemma_views_push(out@, line);
        }
        out.push(line);
        assert(metric_lines((i + 1) as nat) =~= metric_lines(i as nat).push(metric_line(m)));
        i = i + 1;
    }
    let ghost so_far = out@;
    let blank: String = String::new();
    let last: String = copy("GPU runtimes (--gpu-runtime): auto, cuda, wgpu, hip, cpu");
    proof {
        lemma_views_push(so_far, blank);
        lemma_views_push(so_far.push(blank), last);
    }
    out.push(blank);
    out.push(last);
    assert(views(out@) =~= metric_lines(all@.len()) + seq![
        Seq::<char>::empty(),
        "GPU runtimes (--gpu-runtime): auto, cuda, wgpu, hip, cpu"@,
    ]);
    out
}

/// Which decoders are there.
#[derive(Debug, Clone, Copy, PartialEq, Eq, Structural)]
pub struct Decoders {
    pub png: bool,
    pub jpeg: bool,
    pub webp: bool,
    pub avif: bool,
    pub jxl: bool,
}

/// One line, where it is wanted.
pub open spec fn line_if(on: bool, line: Seq<char>) -> Seq<Seq<char>> {
    if on {
        seq![line]
    } else {
        Seq::empty()
    }
}

/// The lines of the formats that can be decoded.
pub open spec fn format_lines(d: Decoders) -> Seq<Seq<char>> {
    line_if(d.png, "png  (zenpng)"@) + line_if(d.jpeg, "jpeg (zenjpeg)"@) + line_if(
        d.webp,
        "webp (zenwebp)"@,
    ) + line_if(d.avif, "avif (zenavif)"@) + line_if(d.jxl, "jxl  (zenjxl)"@)
}

/// Adds a line, where it is wanted.
fn push_if(out: &mut Vec<String>, on: bool, line: &str)
    ensures
        views(final(out)@) == views(old(out)@) + line_if(on, line@),
{
    if on {
        let s: String = copy(line);
        proof {
            lemma_views_push(out@, s);
        }
        out.push(s);
        assert(views(out@) =~= views(old(out)@) + line_if(on, line@));
    } else {
        assert(views(out@) =~= views(old(out)@) + line_if(on, line@));
    }
}

/// The list of formats that can be decoded, or a line saying that there are none.
pub fn print_format_list(d: Decoders) -> (r: Vec<String>)
    ensures
        views(r@) == if format_lines(d).len() == 0 {
            seq![
                "(no decoders enabled — rebuild with `--features png,jpeg,webp,avif,jxl`)"@,
            ]
        } else {
            format_lines(d)
        },
{
    let mut out: Vec<String> = Vec::new();
    assert(views(out@) =~= Seq::<Seq<char>>::empty());
    push_if(&mut out, d.png, "png  (zenpng)");
    push_if(&mut out, d.jpeg, "jpeg (zenjpeg)");
    push_if(&mut out, d.webp, "webp (zenwebp)");
    push_if(&mut out, d.avif, "avif (zenavif)");
    push_if(&mut out, d.jxl, "jxl  (zenjxl)");
    assert(views(out@) =~= format_lines(d));
    if out.len() == 0 {
        push_if(
            &mut out,
            true,
            "(no decoders enabled — rebuild with `--features png,jpeg,webp,avif,jxl`)",
        );
        assert(views(out@) =~= seq![
            "(no decoders enabled — rebuild with `--features png,jpeg,webp,avif,jxl`)"@,
        ]);
    }
    out
}

// ── Sweeps ─────────────────────────────────────────────────────────────

/// The metrics of a sweep: those that were asked for, or zensim.
pub fn sweep_metrics(given: Vec<MetricKind>) -> (r: Vec<MetricKind>)
    ensures
        r@ == if given@.len() == 0 {
            seq![MetricKind::Zensim]
        } else {
            given@
        },
{
    if given.len() == 0 {
        let mut r: Vec<MetricKind> = Vec::new();
        r.push(MetricKind::Zensim);
        assert(r@ =~= seq![MetricKind::Zensim]);
        r
    } else {
        given
    }
}

/// A sweep needs at least one source file.
pub fn check_sources(count: usize, dir: &str) -> (r: Result<(), String>)
    ensures
        match r {
            Ok(_) => count > 0,
            Err(e) => count == 0 && e@ == "no source files found in "@ + dir@,
        },
{
    if count == 0 {
        let mut s: String = copy("no source files found in ");
        s.append(dir);
        Err(s)
    } else {
        Ok(())
    }
}

/// The last line of a sweep.
pub fn sweep_summary(stats: &SweepStats) -> (r: String)
    ensures
        r@ == "[sweep] done: "@ + decimal(stats.cells_emitted as nat) + "/"@ + decimal(
            stats.cells_total as nat,
        ) + " cells emitted; encode-fail="@ + decimal(stats.cells_failed_encode as nat)
            + " decode-fail="@ + decimal(stats.cells_failed_decode as nat) + " score-fail="@
            + decimal(stats.cells_failed_score as nat),
{
    let mut s: String = copy("[sweep] done: ");
    let a = show_usize(stats.cells_emitted);
    s.append(a.as_str());
    s.append("/");
    let b = show_usize(stats.cells_total);
    s.append(b.as_str());
    s.append(" cells emitted; encode-fail=");
    let c = show_usize(stats.cells_failed_encode);
    s.append(c.as_str());
    s.append(" decode-fail=");
    let d = show_usize(stats.cells_failed_decode);
    s.append(d.as_str());
    s.append(" score-fail=");
    let e = show_usize(stats.cells_failed_score);
    s.append(e.as_str());
    s
}

/// The list has a line for each metric, which begins with its name and says whether it
/// needs a GPU.
pub proof fn law_metric_line(n: nat, i: int)
    requires
        n <= MetricKind::spec_all().len(),
        0 <= i < n,
    ensures
        metric_lines(n).len() == n + 1,
        starts(metric_lines(n)[i + 1], MetricKind::spec_all()[i].spec_name()),
        ends(metric_lines(n)[i + 1], " yes"@) <==> MetricKind::spec_all()[i].on_gpu(),
        ends(metric_lines(n)[i + 1], " no"@) <==> !MetricKind::spec_all()[i].on_gpu(),
{
    reveal_strlit(" yes");
    reveal_strlit("yes");
    reveal_strlit(" no");
    reveal_strlit("no");
    reveal_strlit(" ");
    let m = MetricKind::spec_all()[i];
    let l = metric_line(m);
    assert(metric_lines(n)[i + 1] == l);
    assert(l.take(m.spec_name().len() as int) =~= m.spec_name());
    assert(" yes"@ =~= " "@ + "yes"@);
    assert(" no"@ =~= " "@ + "no"@);
    if m.on_gpu() {
        assert(l.subrange(l.len() - 4, l.len() as int) =~= " yes"@);
        assert(l.subrange(l.len() - 3, l.len() as int)[2] == 's');
        assert(" no"@[2] == 'o');
    } else {
        assert(l.subrange(l.len() - 3, l.len() as int) =~= " no"@);
        assert(l.subrange(l.len() - 4, l.len() as int)[3] == 'o');
        assert(" yes"@[3] == 's');
    }
}

} // verus!
