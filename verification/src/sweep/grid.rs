//! The grid of a sweep: its qualities, and the lists of values that its knobs
//! take.
//!
//! `--q-grid 25,50,75,90` lists qualities. `--knob-grid` is a JSON object that
//! maps each knob to the list of its values; the Cartesian product of the lists
//! gives the knob tuples. A tuple is written to the output as JSON with its keys
//! in ascending order, so that one assignment always has one text.

use crate::json::{
    copy_members, json_parsed, json_rendered, lemma_array_view, lemma_object_view, members,
    parse_json, render_json, text_below, Json, JsonView, Members,
};
use crate::text::{
    chars_of, copy, debug_text, decimal, fault_text, law_decimal_reads_back, parse_unsigned, quoted,
    same, show, show_fault, split, split_at_each, trim, trimmed, unsigned, views,
};
use vstd::prelude::*;

verus! {

// ── Qualities ──────────────────────────────────────────────────────────

/// One quality of the list, or the message why it is none.
pub open spec fn q_item(whole: Seq<char>, piece: Seq<char>) -> Result<u32, Seq<char>> {
    let p = trimmed(piece);
    if p.len() == 0 {
        Err("--q-grid contains an empty field in "@ + debug_text(whole))
    } else {
        match unsigned(p, u32::MAX as nat) {
            Err(f) => Err("invalid q value "@ + debug_text(p) + ": "@ + fault_text(f)),
            Ok(v) => if v > 100 {
                Err("--q-grid value "@ + decimal(v) + " out of range (expected 0..=100)"@)
            } else {
                Ok(v as u32)
            },
        }
    }
}

/// The qualities of the list, or the message of the first piece that is none.
pub open spec fn q_items(whole: Seq<char>, pieces: Seq<Seq<char>>) -> Result<Seq<u32>, Seq<char>>
    decreases pieces.len(),
{
    if pieces.len() == 0 {
        Ok(Seq::<u32>::empty())
    } else {
        match q_items(whole, pieces.drop_last()) {
            Err(e) => Err(e),
            Ok(qs) => match q_item(whole, pieces.last()) {
                Err(e) => Err(e),
                Ok(q) => Ok(qs.push(q)),
            },
        }
    }
}

/// What `--q-grid` means.
pub open spec fn q_grid(s: Seq<char>) -> Result<Seq<u32>, Seq<char>> {
    q_items(s, split_at_each(s, ','))
}

/// A message stays the message of every longer list.
proof fn lemma_q_fault_stays(whole: Seq<char>, pieces: Seq<Seq<char>>, n: int)
    requires
        0 <= n <= pieces.len(),
        q_items(whole, pieces.take(n)) is Err,
    ensures
        q_items(whole, pieces) == q_items(whole, pieces.take(n)),
    decreases pieces.len() - n,
{
    if n < pieces.len() {
        assert(pieces.take(n + 1).drop_last() =~= pieces.take(n));
        lemma_q_fault_stays(whole, pieces, n + 1);
    } else {
        assert(pieces.take(n) =~= pieces);
    }
}

/// Reads one quality of the list.
fn parse_q_item(whole: &str, piece: &str) -> (r: Result<u32, String>)
    ensures
        match r {
            Ok(q) => q_item(whole@, piece@) == Ok::<u32, Seq<char>>(q),
            Err(e) => q_item(whole@, piece@) == Err::<u32, Seq<char>>(e@),
        },
{
    let p = trim(piece);
    if p.as_str().is_empty() {
        let mut e: String = copy("--q-grid contains an empty field in ");
        let w = quoted(whole);
        e.append(w.as_str());
        return Err(e);
    }
    match parse_unsigned(p.as_str(), u32::MAX as u64) {
        Err(f) => {
            let mut e: String = copy("invalid q value ");
            let w = quoted(p.as_str());
            e.append(w.as_str());
            e.append(": ");
            let t = show_fault(f);
            e.append(t.as_str());
            Err(e)
        },
        Ok(v) => {
            if v > 100 {
                let mut e: String = copy("--q-grid value ");
                let t = show(v);
                e.append(t.as_str());
                e.append(" out of range (expected 0..=100)");
                Err(e)
            } else {
                Ok(v as u32)
            }
        },
    }
}

/// Reads `--q-grid`: whole numbers from 0 to 100 between commas, with white space
/// around each left out.
pub fn parse_q_grid(s: &str) -> (r: Result<Vec<u32>, String>)
    ensures
        match r {
            Ok(qs) => q_grid(s@) == Ok::<Seq<u32>, Seq<char>>(qs@) && qs@.len() >= 1,
            Err(e) => q_grid(s@) == Err::<Seq<u32>, Seq<char>>(e@),
        },
{
    let pieces = split(s, ',');
    let ghost all = split_at_each(s@, ',');
    let mut out: Vec<u32> = Vec::new();
    let mut i: usize = 0;
    while i < pieces.len()
        invariant
            i <= pieces.len(),
            views(pieces@) == all,
            all == split_at_each(s@, ','),
            out@.len() == i,
            q_items(s@, all.take(i as int)) == Ok::<Seq<u32>, Seq<char>>(out@),
        decreases pieces.len() - i,
    {
        let ghost t = all.take(i + 1);
        assert(t.drop_last() =~= all.take(i as int));
        assert(t.last() == views(pieces@)[i as int]);
        match parse_q_item(s, pieces[i].as_str()) {
            Err(e) => {
                proof {
                    lemma_q_fault_stays(s@, all, i + 1);
                }
                return Err(e);
            },
            Ok(q) => {
                out.push(q);
            },
        }
        i += 1;
    }
    assert(all.take(i as int) =~= all);
    Ok(out)
}

/// Every quality that is accepted lies between 0 and 100.
pub proof fn law_q_grid_in_range(s: Seq<char>)
    ensures
        q_grid(s) matches Ok(qs) ==> forall|i: int| 0 <= i < qs.len() ==> #[trigger] qs[i] <= 100,
{
    lemma_q_items_in_range(s, split_at_each(s, ','));
}

proof fn lemma_q_items_in_range(whole: Seq<char>, pieces: Seq<Seq<char>>)
    ensures
        q_items(whole, pieces) matches Ok(qs) ==> forall|i: int|
            0 <= i < qs.len() ==> #[trigger] qs[i] <= 100,
    decreases pieces.len(),
{
    if pieces.len() > 0 {
        lemma_q_items_in_range(whole, pieces.drop_last());
    }
}

// ── Knob tuples ────────────────────────────────────────────────────────

/// One cell's knobs, each with its value.
#[derive(Debug)]
pub struct KnobTuple(pub Members);

/// The meaning of a tuple: its members, in the order they were added.
pub type TupleView = Seq<(Seq<char>, JsonView)>;

impl View for KnobTuple {
    type V = TupleView;

    open spec fn view(&self) -> TupleView {
        members(self.0@)
    }
}

/// Is some member called `key`?
pub open spec fn has_key(m: TupleView, key: Seq<char>) -> bool {
    exists|i: int| 0 <= i < m.len() && (#[trigger] m[i]).0 == key
}

/// No two members have one name.
pub open spec fn distinct_keys(m: TupleView) -> bool {
    forall|i: int, j: int| 0 <= i < j < m.len() ==> (#[trigger] m[i]).0 != (#[trigger] m[j]).0
}

/// The tuple with `key` set to `v`: in the place of the old value where there is
/// one, else at the end.
pub open spec fn set_member(m: TupleView, key: Seq<char>, v: JsonView) -> TupleView {
    if has_key(m, key) {
        Seq::new(
            m.len(),
            |i: int|
                if m[i].0 == key {
                    (key, v)
                } else {
                    m[i]
                },
        )
    } else {
        m.push((key, v))
    }
}

impl KnobTuple {
    /// The tuple without any knob.
    pub fn new() -> (r: KnobTuple)
        ensures
            r@ == TupleView::empty(),
    {
        let r = KnobTuple(Vec::new());
        assert(r@ =~= TupleView::empty());
        r
    }

    /// A copy of the tuple with `key` set to `v`.
    pub fn with(&self, key: &str, v: &Json) -> (r: KnobTuple)
        ensures
            r@ == set_member(self@, key@, v@),
    {
        let mut out: Members = Vec::new();
        let mut found: bool = false;
        let mut i: usize = 0;
        while i < self.0.len()
            invariant
                i <= self.0.len(),
                out@.len() == i,
                found == exists|j: int| 0 <= j < i && (#[trigger] self@[j]).0 == key@,
                forall|j: int|
                    0 <= j < i ==> #[trigger] members(out@)[j] == (if self@[j].0 == key@ {
                        (key@, v@)
                    } else {
                        self@[j]
                    }),
            decreases self.0.len() - i,
        {
            let ghost before = out@;
            assert(self@[i as int] == (self.0@[i as int].0@, self.0@[i as int].1@));
            if same(self.0[i].0.as_str(), key) {
                out.push((copy(key), v.duplicate()));
                found = true;
            } else {
                out.push((copy(self.0[i].0.as_str()), self.0[i].1.duplicate()));
            }
            assert forall|j: int| 0 <= j < i implies #[trigger] members(out@)[j] == members(
                before,
            )[j] by {}
            i += 1;
        }
        if !found {
            let ghost before = out@;
            assert(!has_key(self@, key@));
            out.push((copy(key), v.duplicate()));
            assert forall|j: int| 0 <= j < i implies #[trigger] members(out@)[j] == self@[j] by {
                assert(members(before)[j] == self@[j]);
            }
            assert(members(out@) =~= self@.push((key@, v@)));
        } else {
            assert(has_key(self@, key@));
            assert(members(out@) =~= set_member(self@, key@, v@));
        }
        KnobTuple(out)
    }

    /// A copy of the tuple.
    pub fn duplicate(&self) -> (r: KnobTuple)
        ensures
            r@ == self@,
    {
        KnobTuple(copy_members(&self.0))
    }

    /// The canonical text: a JSON object with its keys in ascending order.
    pub fn to_canonical_json(&self) -> (r: String)
        ensures
            r@ == canonical(self@),
    {
        let s = sort_members(&self.0);
        let v = Json::Object(s);
        proof {
            lemma_object_view(v);
        }
        render_json(&v)
    }
}

// ── Canonical order ────────────────────────────────────────────────────

/// `p` added to a list in ascending order, behind everything that is not above
/// it.
pub open spec fn placed(s: TupleView, p: (Seq<char>, JsonView)) -> TupleView
    decreases s.len(),
{
    if s.len() > 0 && text_below(p.0, s.last().0) {
        placed(s.drop_last(), p).push(s.last())
    } else {
        s.push(p)
    }
}

/// The members in ascending order of their names.
pub open spec fn sorted(m: TupleView) -> TupleView
    decreases m.len(),
{
    if m.len() == 0 {
        m
    } else {
        placed(sorted(m.drop_last()), m.last())
    }
}

/// The canonical text of a tuple.
pub open spec fn canonical(m: TupleView) -> Seq<char> {
    json_rendered(JsonView::Object(sorted(m)))
}

/// Does `a` come before `b` in the order of their characters?
pub fn text_less(a: &str, b: &str) -> (r: bool)
    ensures
        r == text_below(a@, b@),
{
    let x = chars_of(a);
    let y = chars_of(b);
    let mut i: usize = 0;
    assert(a@.skip(0) =~= a@ && b@.skip(0) =~= b@);
    loop
        invariant
            x@ == a@,
            y@ == b@,
            i <= x.len(),
            i <= y.len(),
            text_below(a@, b@) == text_below(a@.skip(i as int), b@.skip(i as int)),
        decreases x.len() - i,
    {
        if i >= y.len() {
            return false;
        }
        if i >= x.len() {
            return true;
        }
        if x[i] != y[i] {
            return x[i] < y[i];
        }
        assert(a@.skip(i as int).drop_first() =~= a@.skip(i + 1));
        assert(b@.skip(i as int).drop_first() =~= b@.skip(i + 1));
        i += 1;
    }
}

/// Adding to the part of a list above which everything is greater.
proof fn lemma_placed_below(s: TupleView, k: int, p: (Seq<char>, JsonView))
    requires
        0 <= k <= s.len(),
        forall|j: int| k <= j < s.len() ==> text_below(p.0, (#[trigger] s[j]).0),
        k > 0 ==> !text_below(p.0, s[k - 1].0),
    ensures
        placed(s, p) == s.insert(k, p),
    decreases s.len(),
{
    if s.len() == k {
        assert(s.insert(k, p) =~= s.push(p));
    } else {
        assert(s.last() == s[s.len() - 1]);
        lemma_placed_below(s.drop_last(), k, p);
        assert(s.drop_last().insert(k, p).push(s.last()) =~= s.insert(k, p));
    }
}

/// Copies of the members in ascending order of their names.
pub fn sort_members(m: &Members) -> (r: Members)
    ensures
        members(r@) == sorted(members(m@)),
{
    let mut out: Members = Vec::new();
    let mut i: usize = 0;
    assert(members(out@) =~= sorted(members(m@).take(0)));
    while i < m.len()
        invariant
            i <= m.len(),
            members(out@) == sorted(members(m@).take(i as int)),
        decreases m.len() - i,
    {
        let ghost t = members(m@).take(i + 1);
        assert(t.drop_last() =~= members(m@).take(i as int));
        let ghost p = members(m@)[i as int];
        assert(t.last() == p);
        let ghost before = members(out@);
        let mut k: usize = out.len();
        while k > 0 && text_less(m[i].0.as_str(), out[k - 1].0.as_str())
            invariant
                i < m.len(),
                k <= out.len(),
                before == members(out@),
                p == (m@[i as int].0@, m@[i as int].1@),
                forall|j: int| k <= j < out@.len() ==> text_below(p.0, (#[trigger] before[j]).0),
            decreases k,
        {
            assert(before[k - 1].0 == out@[k - 1].0@);
            k -= 1;
        }
        assert(k > 0 ==> before[k - 1].0 == out@[k - 1].0@);
        proof {
            lemma_placed_below(before, k as int, p);
        }
        out.insert(k, (copy(m[i].0.as_str()), m[i].1.duplicate()));
        assert(members(out@) =~= before.insert(k as int, p));
        i += 1;
    }
    assert(members(m@).take(i as int) =~= members(m@));
    out
}

// ── Laws of the canonical text ─────────────────────────────────────────

pub proof fn lemma_below_irreflexive(a: Seq<char>)
    ensures
        !text_below(a, a),
    decreases a.len(),
{
    if a.len() > 0 {
        lemma_below_irreflexive(a.drop_first());
    }
}

pub proof fn lemma_below_transitive(a: Seq<char>, b: Seq<char>, c: Seq<char>)
    requires
        text_below(a, b),
        text_below(b, c),
    ensures
        text_below(a, c),
    decreases a.len(),
{
    if a.len() > 0 && a[0] == b[0] && b[0] == c[0] {
        lemma_below_transitive(a.drop_first(), b.drop_first(), c.drop_first());
    }
}

pub proof fn lemma_below_total(a: Seq<char>, b: Seq<char>)
    ensures
        a == b || text_below(a, b) || text_below(b, a),
    decreases a.len(),
{
    if a.len() == 0 && b.len() == 0 {
        assert(a =~= b);
    } else if a.len() > 0 && b.len() > 0 && a[0] == b[0] {
        lemma_below_total(a.drop_first(), b.drop_first());
        if a.drop_first() == b.drop_first() {
            assert(a =~= seq![a[0]] + a.drop_first());
            assert(b =~= seq![b[0]] + b.drop_first());
        }
    }
}

/// The names stand in strictly ascending order.
pub open spec fn ascending(s: TupleView) -> bool {
    forall|i: int, j: int|
        0 <= i < j < s.len() ==> text_below((#[trigger] s[i]).0, (#[trigger] s[j]).0)
}

proof fn lemma_placed(s: TupleView, p: (Seq<char>, JsonView))
    requires
        ascending(s),
        !has_key(s, p.0),
    ensures
        ascending(placed(s, p)),
        forall|x: (Seq<char>, JsonView)| #[trigger]
            placed(s, p).contains(x) <==> s.contains(x) || x == p,
    decreases s.len(),
{
    let r = placed(s, p);
    if s.len() > 0 && text_below(p.0, s.last().0) {
        let t = s.drop_last();
        assert forall|i: int, j: int| 0 <= i < j < t.len() implies text_below(
            (#[trigger] t[i]).0,
            (#[trigger] t[j]).0,
        ) by {
            assert(t[i] == s[i] && t[j] == s[j]);
        }
        assert(!has_key(t, p.0)) by {
            if has_key(t, p.0) {
                let k = choose|k: int| 0 <= k < t.len() && (#[trigger] t[k]).0 == p.0;
                assert(s[k].0 == p.0);
            }
        }
        lemma_placed(t, p);
        let q = placed(t, p);
        assert(r == q.push(s.last()));
        assert forall|i: int, j: int| 0 <= i < j < r.len() implies text_below(
            (#[trigger] r[i]).0,
            (#[trigger] r[j]).0,
        ) by {
            if j == r.len() - 1 {
                assert(r[j] == s.last());
                assert(q.contains(q[i]));
                if q[i] != p {
                    let k = choose|k: int| 0 <= k < t.len() && t[k] == q[i];
                    assert(s[k] == q[i]);
                    assert(s[s.len() - 1] == s.last());
                }
            } else {
                assert(r[i] == q[i] && r[j] == q[j]);
            }
        }
        assert forall|x: (Seq<char>, JsonView)| #[trigger] r.contains(x) <==> s.contains(x) || x
            == p by {
            if r.contains(x) {
                let k = choose|k: int| 0 <= k < r.len() && r[k] == x;
                if k == r.len() - 1 {
                    assert(s[s.len() - 1] == x);
                } else {
                    assert(q[k] == x);
                    assert(q.contains(x));
                    if x != p {
                        let m = choose|m: int| 0 <= m < t.len() && t[m] == x;
                        assert(s[m] == x);
                    }
                }
            }
            if s.contains(x) {
                let k = choose|k: int| 0 <= k < s.len() && s[k] == x;
                if k == s.len() - 1 {
                    assert(r[r.len() - 1] == x);
                } else {
                    assert(t[k] == x);
                    assert(q.contains(x));
                    let m = choose|m: int| 0 <= m < q.len() && q[m] == x;
                    assert(r[m] == x);
                }
            }
            if x == p {
                assert(q.contains(x));
                let m = choose|m: int| 0 <= m < q.len() && q[m] == x;
                assert(r[m] == x);
            }
        }
    } else {
        assert(r == s.push(p));
        assert forall|i: int, j: int| 0 <= i < j < r.len() implies text_below(
            (#[trigger] r[i]).0,
            (#[trigger] r[j]).0,
        ) by {
            if j == s.len() {
                let last = s.last();
                assert(last == s[s.len() - 1]);
                lemma_below_total(p.0, last.0);
                assert(last.0 != p.0);
                assert(text_below(last.0, p.0));
                if i < s.len() - 1 {
                    assert(text_below(s[i].0, s[s.len() - 1].0));
                    lemma_below_transitive(s[i].0, last.0, p.0);
                }
            } else {
                assert(r[i] == s[i] && r[j] == s[j]);
            }
        }
        assert forall|x: (Seq<char>, JsonView)| #[trigger] r.contains(x) <==> s.contains(x) || x
            == p by {
            if s.contains(x) {
                let k = choose|k: int| 0 <= k < s.len() && s[k] == x;
                assert(r[k] == x);
            }
            if x == p {
                assert(r[s.len() as int] == x);
            }
            if r.contains(x) {
                let k = choose|k: int| 0 <= k < r.len() && r[k] == x;
                if k < s.len() {
                    assert(s[k] == x);
                }
            }
        }
    }
}

/// Sorting the members of a tuple keeps them all and puts their names in strictly
/// ascending order.
pub proof fn law_sorted_ascending(m: TupleView)
    requires
        distinct_keys(m),
    ensures
        ascending(sorted(m)),
        forall|x: (Seq<char>, JsonView)| #[trigger] sorted(m).contains(x) <==> m.contains(x),
    decreases m.len(),
{
    if m.len() > 0 {
        let t = m.drop_last();
        let p = m.last();
        assert(p == m[m.len() - 1]);
        assert forall|i: int, j: int| 0 <= i < j < t.len() implies (#[trigger] t[i]).0 != (
        #[trigger] t[j]).0 by {
            assert(t[i] == m[i] && t[j] == m[j]);
        }
        law_sorted_ascending(t);
        let s = sorted(t);
        assert(!has_key(s, p.0)) by {
            if has_key(s, p.0) {
                let k = choose|k: int| 0 <= k < s.len() && (#[trigger] s[k]).0 == p.0;
                assert(s.contains(s[k]));
                let n = choose|n: int| 0 <= n < t.len() && t[n] == s[k];
                assert(m[n].0 == m[m.len() - 1].0);
            }
        }
        lemma_placed(s, p);
        assert forall|x: (Seq<char>, JsonView)| #[trigger] sorted(m).contains(x) <==> m.contains(
            x,
        ) by {
            if m.contains(x) {
                let k = choose|k: int| 0 <= k < m.len() && m[k] == x;
                if k < t.len() {
                    assert(t[k] == x);
                    assert(s.contains(x));
                }
                assert(placed(s, p).contains(x));
            }
            if sorted(m).contains(x) {
                assert(placed(s, p).contains(x));
                if x != p {
                    assert(s.contains(x));
                    let k = choose|k: int| 0 <= k < t.len() && t[k] == x;
                    assert(m[k] == x);
                } else {
                    assert(m[m.len() - 1] == x);
                }
            }
        }
    }
}

proof fn lemma_ascending_unique(s: TupleView, t: TupleView)
    requires
        ascending(s),
        ascending(t),
        forall|x: (Seq<char>, JsonView)| #[trigger] s.contains(x) <==> t.contains(x),
    ensures
        s == t,
    decreases s.len(),
{
    if s.len() == 0 {
        if t.len() > 0 {
            assert(t.contains(t[0]));
            assert(s.contains(t[0]));
        }
        assert(s =~= t);
    } else {
        let a = s.last();
        assert(s[s.len() - 1] == a);
        assert(s.contains(a));
        assert(t.contains(a));
        let b = t.last();
        assert(t[t.len() - 1] == b);
        assert(t.contains(b));
        assert(s.contains(b));
        let i = choose|i: int| 0 <= i < t.len() && t[i] == a;
        let j = choose|j: int| 0 <= j < s.len() && s[j] == b;
        if i < t.len() - 1 {
            assert(text_below(t[i].0, t[t.len() - 1].0));
            if j < s.len() - 1 {
                assert(text_below(s[j].0, s[s.len() - 1].0));
                lemma_below_transitive(a.0, b.0, a.0);
            }
            lemma_below_irreflexive(a.0);
        }
        assert(a == b);
        let s1 = s.drop_last();
        let t1 = t.drop_last();
        assert forall|p: int, q: int| 0 <= p < q < s1.len() implies text_below(
            (#[trigger] s1[p]).0,
            (#[trigger] s1[q]).0,
        ) by {
            assert(s1[p] == s[p] && s1[q] == s[q]);
        }
        assert forall|p: int, q: int| 0 <= p < q < t1.len() implies text_below(
            (#[trigger] t1[p]).0,
            (#[trigger] t1[q]).0,
        ) by {
            assert(t1[p] == t[p] && t1[q] == t[q]);
        }
        assert forall|x: (Seq<char>, JsonView)| #[trigger] s1.contains(x) <==> t1.contains(x) by {
            if s1.contains(x) {
                let k = choose|k: int| 0 <= k < s1.len() && s1[k] == x;
                assert(s[k] == x);
                assert(s.contains(x));
                assert(t.contains(x));
                let n = choose|n: int| 0 <= n < t.len() && t[n] == x;
                if n == t.len() - 1 {
                    assert(text_below(s[k].0, s[s.len() - 1].0));
                    lemma_below_irreflexive(a.0);
                }
                assert(t1[n] == x);
            }
            if t1.contains(x) {
                let k = choose|k: int| 0 <= k < t1.len() && t1[k] == x;
                assert(t[k] == x);
                assert(t.contains(x));
                assert(s.contains(x));
                let n = choose|n: int| 0 <= n < s.len() && s[n] == x;
                if n == s.len() - 1 {
                    assert(text_below(t[k].0, t[t.len() - 1].0));
                    lemma_below_irreflexive(b.0);
                }
                assert(s1[n] == x);
            }
        }
        lemma_ascending_unique(s1, t1);
        assert(s =~= s1.push(a));
        assert(t =~= t1.push(b));
    }
}

/// The canonical text of a tuple does not depend on the order in which its knobs
/// were set: two tuples with the same members have one text.
pub proof fn law_canonical_order_free(m: TupleView, n: TupleView)
    requires
        distinct_keys(m),
        distinct_keys(n),
        forall|x: (Seq<char>, JsonView)| #[trigger] m.contains(x) <==> n.contains(x),
    ensures
        canonical(m) == canonical(n),
{
    law_sorted_ascending(m);
    law_sorted_ascending(n);
    assert forall|x: (Seq<char>, JsonView)| #[trigger] sorted(m).contains(x) <==> sorted(
        n,
    ).contains(x) by {
        assert(m.contains(x) <==> n.contains(x));
    }
    lemma_ascending_unique(sorted(m), sorted(n));
}

// ── The grid ───────────────────────────────────────────────────────────

/// A knob with the list of its values.
pub type AxisView = (Seq<char>, Seq<JsonView>);

/// The knobs of a sweep, each with the list of values it takes.
#[derive(Debug)]
pub struct KnobGrid {
    pub axes: Vec<(String, Vec<Json>)>,
}

/// The values that a list of JSON values means.
pub open spec fn values(v: Seq<Json>) -> Seq<JsonView> {
    v.map_values(|x: Json| x@)
}

impl View for KnobGrid {
    type V = Seq<AxisView>;

    open spec fn view(&self) -> Seq<AxisView> {
        self.axes@.map_values(|a: (String, Vec<Json>)| (a.0@, values(a.1@)))
    }
}

/// The number of cells in the product, 0 where some knob has no value.
pub open spec fn product(axes: Seq<AxisView>) -> nat
    decreases axes.len(),
{
    if axes.len() == 0 {
        1
    } else {
        product(axes.drop_last()) * axes.last().1.len()
    }
}

/// Every partial product of the axes can be counted in a `usize`.
pub open spec fn countable(axes: Seq<AxisView>) -> bool {
    forall|i: int| 0 <= i <= axes.len() ==> #[trigger] product(axes.take(i)) <= usize::MAX
}

/// One tuple with each value of a knob in turn.
pub open spec fn extended(t: TupleView, key: Seq<char>, vals: Seq<JsonView>) -> Seq<TupleView>
    decreases vals.len(),
{
    if vals.len() == 0 {
        Seq::<TupleView>::empty()
    } else {
        extended(t, key, vals.drop_last()).push(set_member(t, key, vals.last()))
    }
}

/// Every tuple with each value of a knob in turn.
pub open spec fn crossed(ts: Seq<TupleView>, key: Seq<char>, vals: Seq<JsonView>) -> Seq<TupleView>
    decreases ts.len(),
{
    if ts.len() == 0 {
        Seq::<TupleView>::empty()
    } else {
        crossed(ts.drop_last(), key, vals) + extended(ts.last(), key, vals)
    }
}

/// Every tuple of the grid, the last knob varying fastest.
pub open spec fn tuples(axes: Seq<AxisView>) -> Seq<TupleView>
    decreases axes.len(),
{
    if axes.len() == 0 {
        seq![TupleView::empty()]
    } else {
        crossed(tuples(axes.drop_last()), axes.last().0, axes.last().1)
    }
}

/// The meanings of a list of tuples.
pub open spec fn tuple_views(v: Seq<KnobTuple>) -> Seq<TupleView> {
    v.map_values(|t: KnobTuple| t@)
}

proof fn lemma_tuple_views_push(v: Seq<KnobTuple>, t: KnobTuple)
    ensures
        tuple_views(v.push(t)) == tuple_views(v).push(t@),
{
    assert(tuple_views(v.push(t)) =~= tuple_views(v).push(t@));
}

impl KnobGrid {
    /// The grid without any knob.
    pub fn empty() -> (r: KnobGrid)
        ensures
            r@ == Seq::<AxisView>::empty(),
    {
        let r = KnobGrid { axes: Vec::new() };
        assert(r@ =~= Seq::<AxisView>::empty());
        r
    }

    /// The number of cells in the product: 1 for a grid without any knob, 0 where some
    /// knob has no value.
    pub fn cell_count(&self) -> (r: usize)
        requires
            countable(self@),
        ensures
            r == product(self@),
    {
        let mut n: usize = 1;
        let mut i: usize = 0;
        assert(self@.take(0) =~= Seq::<AxisView>::empty());
        while i < self.axes.len()
            invariant
                i <= self.axes.len(),
                countable(self@),
                n == product(self@.take(i as int)),
            decreases self.axes.len() - i,
        {
            let ghost t = self@.take(i + 1);
            assert(t.drop_last() =~= self@.take(i as int));
            assert(t.last() == self@[i as int]);
            assert(self@[i as int].1.len() == self.axes@[i as int].1@.len());
            assert(product(t) <= usize::MAX);
            n = n * self.axes[i].1.len();
            i += 1;
        }
        assert(self@.take(i as int) =~= self@);
        n
    }

    /// Every tuple of the grid, the last knob varying fastest.
    pub fn iter_tuples(&self) -> (r: Vec<KnobTuple>)
        ensures
            tuple_views(r@) == tuples(self@),
    {
        let first = KnobTuple::new();
        let mut all: Vec<KnobTuple> = Vec::new();
        proof {
            lemma_tuple_views_push(all@, first);
        }
        all.push(first);
        let mut a: usize = 0;
        assert(tuple_views(all@) =~= tuples(self@.take(0)));
        while a < self.axes.len()
            invariant
                a <= self.axes.len(),
                tuple_views(all@) == tuples(self@.take(a as int)),
            decreases self.axes.len() - a,
        {
            let ghost t = self@.take(a + 1);
            assert(t.drop_last() =~= self@.take(a as int));
            assert(t.last() == self@[a as int]);
            all = cross_axis(&all, self.axes[a].0.as_str(), &self.axes[a].1);
            a += 1;
        }
        assert(self@.take(a as int) =~= self@);
        all
    }
}

/// Every tuple with each value of a knob in turn.
fn cross_axis(ts: &Vec<KnobTuple>, key: &str, vals: &Vec<Json>) -> (r: Vec<KnobTuple>)
    ensures
        tuple_views(r@) == crossed(tuple_views(ts@), key@, values(vals@)),
{
    let mut out: Vec<KnobTuple> = Vec::new();
    let ghost tv = tuple_views(ts@);
    let ghost vv = values(vals@);
    let mut i: usize = 0;
    assert(tuple_views(out@) =~= crossed(tv.take(0), key@, vv));
    while i < ts.len()
        invariant
            i <= ts.len(),
            tv == tuple_views(ts@),
            vv == values(vals@),
            tuple_views(out@) == crossed(tv.take(i as int), key@, vv),
        decreases ts.len() - i,
    {
        let ghost base = tuple_views(out@);
        let ghost t = tv[i as int];
        let mut j: usize = 0;
        assert(base + extended(t, key@, vv.take(0)) =~= base);
        while j < vals.len()
            invariant
                i < ts.len(),
                j <= vals.len(),
                tv == tuple_views(ts@),
                vv == values(vals@),
                t == tv[i as int],
                tuple_views(out@) == base + extended(t, key@, vv.take(j as int)),
            decreases vals.len() - j,
        {
            let ghost w = vv.take(j + 1);
            assert(w.drop_last() =~= vv.take(j as int));
            assert(w.last() == vals@[j as int]@);
            let n = ts[i].with(key, &vals[j]);
            proof {
                lemma_tuple_views_push(out@, n);
            }
            out.push(n);
            j += 1;
            assert(tuple_views(out@) =~= base + extended(t, key@, vv.take(j as int)));
        }
        assert(vv.take(j as int) =~= vv);
        assert(tv.take(i + 1).drop_last() =~= tv.take(i as int));
        i += 1;
    }
    assert(tv.take(i as int) =~= tv);
    out
}

// ── Laws of the product ────────────────────────────────────────────────

proof fn lemma_extended_len(t: TupleView, key: Seq<char>, vals: Seq<JsonView>)
    ensures
        extended(t, key, vals).len() == vals.len(),
    decreases vals.len(),
{
    if vals.len() > 0 {
        lemma_extended_len(t, key, vals.drop_last());
    }
}

proof fn lemma_crossed_len(ts: Seq<TupleView>, key: Seq<char>, vals: Seq<JsonView>)
    ensures
        crossed(ts, key, vals).len() == ts.len() * vals.len(),
    decreases ts.len(),
{
    if ts.len() > 0 {
        lemma_crossed_len(ts.drop_last(), key, vals);
        lemma_extended_len(ts.last(), key, vals);
        assert((ts.len() - 1) * vals.len() + vals.len() == ts.len() * vals.len())
            by (nonlinear_arith);
    }
}

/// The grid has as many tuples as the product of the lengths of its lists.
pub proof fn law_tuple_count(axes: Seq<AxisView>)
    ensures
        tuples(axes).len() == product(axes),
    decreases axes.len(),
{
    if axes.len() > 0 {
        law_tuple_count(axes.drop_last());
        lemma_crossed_len(tuples(axes.drop_last()), axes.last().0, axes.last().1);
    }
}

/// Does the tuple set every knob of the grid to one of its values, and nothing
/// else?
pub open spec fn covers(t: TupleView, axes: Seq<AxisView>) -> bool {
    &&& t.len() == axes.len()
    &&& forall|i: int|
        0 <= i < axes.len() ==> (#[trigger] t[i]).0 == axes[i].0 && axes[i].1.contains(t[i].1)
}

/// No knob is listed twice.
pub open spec fn distinct_axes(axes: Seq<AxisView>) -> bool {
    forall|i: int, j: int| 0 <= i < j < axes.len() ==> (#[trigger] axes[i]).0 != (
    #[trigger] axes[j]).0
}

proof fn lemma_extended_covers(
    t: TupleView,
    axes: Seq<AxisView>,
    vals: Seq<JsonView>,
    k: int,
)
    requires
        axes.len() > 0,
        distinct_axes(axes),
        covers(t, axes.drop_last()),
        forall|v: JsonView| vals.contains(v) ==> #[trigger] axes.last().1.contains(v),
        0 <= k < extended(t, axes.last().0, vals).len(),
    ensures
        covers(extended(t, axes.last().0, vals)[k], axes),
    decreases vals.len(),
{
    let key = axes.last().0;
    lemma_extended_len(t, key, vals);
    if k < vals.len() - 1 {
        assert forall|v: JsonView| vals.drop_last().contains(v) implies #[trigger] axes.last().1.contains(
        v) by {
            let j = choose|j: int| 0 <= j < vals.drop_last().len() && vals.drop_last()[j] == v;
            assert(vals[j] == v);
            assert(vals.contains(v));
        }
        lemma_extended_len(t, key, vals.drop_last());
        lemma_extended_covers(t, axes, vals.drop_last(), k);
    } else {
        let v = vals.last();
        assert(vals[vals.len() - 1] == v);
        assert(vals.contains(v));
        assert(!has_key(t, key)) by {
            if has_key(t, key) {
                let j = choose|j: int| 0 <= j < t.len() && (#[trigger] t[j]).0 == key;
                assert(axes.drop_last()[j].0 == key);
                assert(axes[j].0 == axes[axes.len() - 1].0);
            }
        }
        let r = t.push((key, v));
        lemma_extended_len(t, key, vals.drop_last());
        assert(extended(t, key, vals)[k] == r);
        assert forall|i: int| 0 <= i < axes.len() implies (#[trigger] r[i]).0 == axes[i].0
            && axes[i].1.contains(r[i].1) by {
            if i < axes.len() - 1 {
                assert(r[i] == t[i]);
                assert(axes.drop_last()[i] == axes[i]);
            }
        }
    }
}

proof fn lemma_crossed_covers(ts: Seq<TupleView>, axes: Seq<AxisView>, k: int)
    requires
        axes.len() > 0,
        distinct_axes(axes),
        forall|i: int| 0 <= i < ts.len() ==> covers(#[trigger] ts[i], axes.drop_last()),
        0 <= k < crossed(ts, axes.last().0, axes.last().1).len(),
    ensures
        covers(crossed(ts, axes.last().0, axes.last().1)[k], axes),
    decreases ts.len(),
{
    let key = axes.last().0;
    let vals = axes.last().1;
    let head = crossed(ts.drop_last(), key, vals);
    if k < head.len() {
        assert forall|i: int| 0 <= i < ts.drop_last().len() implies covers(
            #[trigger] ts.drop_last()[i],
            axes.drop_last(),
        ) by {
            assert(ts.drop_last()[i] == ts[i]);
        }
        lemma_crossed_covers(ts.drop_last(), axes, k);
    } else {
        assert(ts.last() == ts[ts.len() - 1]);
        lemma_extended_covers(ts.last(), axes, vals, k - head.len());
    }
}

/// Every tuple of a grid whose knobs are distinct sets each knob to one of its
/// values, in the order of the grid, and sets nothing else.
pub proof fn law_tuples_cover_grid(axes: Seq<AxisView>, k: int)
    requires
        distinct_axes(axes),
        0 <= k < tuples(axes).len(),
    ensures
        covers(tuples(axes)[k], axes),
    decreases axes.len(),
{
    if axes.len() > 0 {
        let before = axes.drop_last();
        let ts = tuples(before);
        assert forall|i: int, j: int| 0 <= i < j < before.len() implies (#[trigger] before[i]).0
            != (#[trigger] before[j]).0 by {
            assert(before[i] == axes[i] && before[j] == axes[j]);
        }
        assert forall|i: int| 0 <= i < ts.len() implies covers(#[trigger] ts[i], before) by {
            law_tuples_cover_grid(before, i);
        }
        lemma_crossed_covers(ts, axes, k);
    }
}

/// Is this a choice of one value for each knob, by the places of the values?
pub open spec fn choice(axes: Seq<AxisView>, c: Seq<int>) -> bool {
    &&& c.len() == axes.len()
    &&& forall|i: int| 0 <= i < axes.len() ==> 0 <= #[trigger] c[i] < axes[i].1.len()
}

/// The tuple that a choice gives: each knob, in its order, with the chosen value.
pub open spec fn chosen(axes: Seq<AxisView>, c: Seq<int>) -> TupleView {
    Seq::new(axes.len(), |i: int| (axes[i].0, axes[i].1[c[i]]))
}

/// The place of a choice when the last knob varies fastest: the number whose digits are
/// the chosen places, each to the base of its knob.
pub open spec fn choice_place(axes: Seq<AxisView>, c: Seq<int>) -> int
    decreases axes.len(),
{
    if axes.len() == 0 {
        0
    } else {
        choice_place(axes.drop_last(), c.drop_last()) * axes.last().1.len() + c.last()
    }
}

proof fn lemma_extended_at(t: TupleView, key: Seq<char>, vals: Seq<JsonView>, j: int)
    requires
        0 <= j < vals.len(),
    ensures
        extended(t, key, vals).len() == vals.len(),
        extended(t, key, vals)[j] == set_member(t, key, vals[j]),
    decreases vals.len(),
{
    lemma_extended_len(t, key, vals);
    lemma_extended_len(t, key, vals.drop_last());
    if j < vals.len() - 1 {
        lemma_extended_at(t, key, vals.drop_last(), j);
    }
}

proof fn lemma_crossed_at(ts: Seq<TupleView>, key: Seq<char>, vals: Seq<JsonView>, i: int, j: int)
    requires
        0 <= i < ts.len(),
        0 <= j < vals.len(),
    ensures
        0 <= i * vals.len() + j < crossed(ts, key, vals).len(),
        crossed(ts, key, vals)[i * vals.len() + j] == set_member(ts[i], key, vals[j]),
    decreases ts.len(),
{
    let front = ts.drop_last();
    let n = vals.len() as int;
    lemma_crossed_len(ts, key, vals);
    lemma_crossed_len(front, key, vals);
    assert(0 <= i * n) by (nonlinear_arith)
        requires
            0 <= i,
            0 <= n,
    ;
    if i < ts.len() - 1 {
        lemma_crossed_at(front, key, vals, i, j);
        assert(front[i] == ts[i]);
    } else {
        lemma_extended_at(ts.last(), key, vals, j);
        assert(crossed(front, key, vals).len() == i * n);
    }
}

/// Every choice of one value for each knob is among the tuples, at the place that the
/// chosen places spell, the last knob varying fastest.
pub proof fn law_choice_at_its_place(axes: Seq<AxisView>, c: Seq<int>)
    requires
        distinct_axes(axes),
        choice(axes, c),
    ensures
        0 <= choice_place(axes, c) < tuples(axes).len(),
        tuples(axes)[choice_place(axes, c)] == chosen(axes, c),
    decreases axes.len(),
{
    if axes.len() == 0 {
        assert(chosen(axes, c) =~= TupleView::empty());
    } else {
        let front = axes.drop_last();
        let c0 = c.drop_last();
        assert forall|i: int| 0 <= i < front.len() implies 0 <= #[trigger] c0[i] < front[i].1.len() by {
            assert(c[i] == c0[i]);
            assert(front[i] == axes[i]);
        }
        assert forall|i: int, j: int| 0 <= i < j < front.len() implies (#[trigger] front[i]).0 != (
        #[trigger] front[j]).0 by {
            assert(front[i] == axes[i] && front[j] == axes[j]);
        }
        law_choice_at_its_place(front, c0);
        let p = choice_place(front, c0);
        let key = axes.last().0;
        let vals = axes.last().1;
        assert(0 <= c[axes.len() - 1] < axes[axes.len() - 1].1.len());
        lemma_crossed_at(tuples(front), key, vals, p, c.last());
        let t = chosen(front, c0);
        assert(!has_key(t, key)) by {
            if has_key(t, key) {
                let j = choose|j: int| 0 <= j < t.len() && (#[trigger] t[j]).0 == key;
                assert(front[j] == axes[j]);
                assert(axes[j].0 != axes[axes.len() - 1].0);
            }
        }
        assert(t.push((key, vals[c.last()])) =~= chosen(axes, c));
    }
}

/// Every tuple that gives each knob one of its values is among the tuples of the grid.
pub proof fn law_grid_complete(axes: Seq<AxisView>, t: TupleView)
    requires
        distinct_axes(axes),
        covers(t, axes),
    ensures
        tuples(axes).contains(t),
{
    let c = Seq::new(axes.len(), |i: int| axes[i].1.index_of(t[i].1));
    assert forall|i: int| 0 <= i < axes.len() implies {
        &&& 0 <= #[trigger] c[i] < axes[i].1.len()
        &&& axes[i].1[c[i]] == t[i].1
    } by {
        assert(axes[i].1.contains(t[i].1));
    }
    law_choice_at_its_place(axes, c);
    assert(chosen(axes, c) =~= t);
    assert(tuples(axes)[choice_place(axes, c)] == t);
}

// ── Reading the grid ───────────────────────────────────────────────────

/// The axis of one member, or the message why it is none.
pub open spec fn axis_of(m: (Seq<char>, JsonView)) -> Result<AxisView, Seq<char>> {
    match m.1 {
        JsonView::Array(a) => if a.len() == 0 {
            Err("knob "@ + debug_text(m.0) + " has an empty value list"@)
        } else {
            Ok((m.0, a))
        },
        _ => Err("knob "@ + debug_text(m.0) + " must map to an array of values"@),
    }
}

/// The axes of the members, or the message of the first that is none.
pub open spec fn axes_of(ms: TupleView) -> Result<Seq<AxisView>, Seq<char>>
    decreases ms.len(),
{
    if ms.len() == 0 {
        Ok(Seq::<AxisView>::empty())
    } else {
        match axes_of(ms.drop_last()) {
            Err(e) => Err(e),
            Ok(axes) => match axis_of(ms.last()) {
                Err(e) => Err(e),
                Ok(a) => Ok(axes.push(a)),
            },
        }
    }
}

/// The grid that a JSON value describes.
pub open spec fn grid_of(v: JsonView) -> Result<Seq<AxisView>, Seq<char>> {
    match v {
        JsonView::Object(ms) => axes_of(ms),
        _ => Err("--knob-grid must be a JSON object {axis: [values]}"@),
    }
}

/// What `--knob-grid` means, given what the JSON reader makes of the text.
pub open spec fn knob_grid(s: Seq<char>, read: Result<JsonView, Seq<char>>) -> Result<
    Seq<AxisView>,
    Seq<char>,
> {
    if trimmed(s).len() == 0 {
        Ok(Seq::<AxisView>::empty())
    } else {
        match read {
            Err(e) => Err("--knob-grid is not valid JSON: "@ + e),
            Ok(v) => grid_of(v),
        }
    }
}

proof fn lemma_axes_fault_stays(ms: TupleView, n: int)
    requires
        0 <= n <= ms.len(),
        axes_of(ms.take(n)) is Err,
    ensures
        axes_of(ms) == axes_of(ms.take(n)),
    decreases ms.len() - n,
{
    if n < ms.len() {
        assert(ms.take(n + 1).drop_last() =~= ms.take(n));
        lemma_axes_fault_stays(ms, n + 1);
    } else {
        assert(ms.take(n) =~= ms);
    }
}

/// Copies of JSON values.
pub fn copy_values(v: &Vec<Json>) -> (r: Vec<Json>)
    ensures
        values(r@) == values(v@),
{
    let mut out: Vec<Json> = Vec::new();
    let mut i: usize = 0;
    while i < v.len()
        invariant
            i <= v.len(),
            out@.len() == i,
            forall|j: int| 0 <= j < i ==> #[trigger] out@[j]@ == v@[j]@,
        decreases v.len() - i,
    {
        out.push(v[i].duplicate());
        i += 1;
    }
    assert(values(out@) =~= values(v@));
    out
}

/// The grid that a JSON value describes: an object that maps each knob to a list
/// of at least one value.
pub fn read_grid(v: &Json) -> (r: Result<KnobGrid, String>)
    ensures
        match r {
            Ok(g) => grid_of(v@) == Ok::<Seq<AxisView>, Seq<char>>(g@),
            Err(e) => grid_of(v@) == Err::<Seq<AxisView>, Seq<char>>(e@),
        },
{
    match v {
        Json::Object(m) => {
            proof {
                lemma_object_view(*v);
            }
            let ghost ms = members(m@);
            let mut g = KnobGrid::empty();
            let mut i: usize = 0;
            assert(ms.take(0) =~= TupleView::empty());
            while i < m.len()
                invariant
                    i <= m.len(),
                    ms == members(m@),
                    v@ == JsonView::Object(ms),
                    axes_of(ms.take(i as int)) == Ok::<Seq<AxisView>, Seq<char>>(g@),
                decreases m.len() - i,
            {
                let ghost t = ms.take(i + 1);
                assert(t.drop_last() =~= ms.take(i as int));
                assert(t.last() == ms[i as int]);
                assert(ms[i as int] == (m@[i as int].0@, m@[i as int].1@));
                match &m[i].1 {
                    Json::Array(a) => {
                        proof {
                            lemma_array_view(m@[i as int].1);
                        }
                        assert(m@[i as int].1@->Array_0 =~= values(a@));
                        if a.len() == 0 {
                            proof {
                                lemma_axes_fault_stays(ms, i + 1);
                            }
                            let mut e: String = copy("knob ");
                            let q = quoted(m[i].0.as_str());
                            e.append(q.as_str());
                            e.append(" has an empty value list");
                            return Err(e);
                        }
                        let ghost before = g@;
                        g.axes.push((copy(m[i].0.as_str()), copy_values(a)));
                        assert(g@ =~= before.push((m@[i as int].0@, values(a@))));
                    },
                    _ => {
                        proof {
                            lemma_axes_fault_stays(ms, i + 1);
                        }
                        let mut e: String = copy("knob ");
                        let q = quoted(m[i].0.as_str());
                        e.append(q.as_str());
                        e.append(" must map to an array of values");
                        return Err(e);
                    },
                }
                i += 1;
            }
            assert(ms.take(i as int) =~= ms);
            Ok(g)
        },
        _ => Err(copy("--knob-grid must be a JSON object {axis: [values]}")),
    }
}

/// Reads `--knob-grid`; a blank text is the grid without any knob.
pub fn parse_knob_grid(s: &str) -> (r: Result<KnobGrid, String>)
    ensures
        match r {
            Ok(g) => knob_grid(s@, json_parsed(s@)) == Ok::<Seq<AxisView>, Seq<char>>(g@),
            Err(e) => knob_grid(s@, json_parsed(s@)) == Err::<Seq<AxisView>, Seq<char>>(e@),
        },
{
    let t = trim(s);
    if t.as_str().is_empty() {
        return Ok(KnobGrid::empty());
    }
    match parse_json(s) {
        Err(e) => {
            let mut m: String = copy("--knob-grid is not valid JSON: ");
            m.append(e.as_str());
            Err(m)
        },
        Ok(v) => read_grid(&v),
    }
}

proof fn lemma_axes_nonempty(ms: TupleView)
    ensures
        axes_of(ms) matches Ok(axes) ==> forall|i: int|
            0 <= i < axes.len() ==> (#[trigger] axes[i]).1.len() >= 1,
    decreases ms.len(),
{
    if ms.len() > 0 {
        lemma_axes_nonempty(ms.drop_last());
    }
}

proof fn lemma_product_positive(axes: Seq<AxisView>)
    requires
        forall|i: int| 0 <= i < axes.len() ==> (#[trigger] axes[i]).1.len() >= 1,
    ensures
        product(axes) >= 1,
    decreases axes.len(),
{
    if axes.len() > 0 {
        let before = axes.drop_last();
        assert forall|i: int| 0 <= i < before.len() implies (#[trigger] before[i]).1.len()
            >= 1 by {
            assert(before[i] == axes[i]);
        }
        lemma_product_positive(before);
        assert(axes.last() == axes[axes.len() - 1]);
        let a = product(before);
        let b = axes.last().1.len();
        assert(a * b >= 1) by (nonlinear_arith)
            requires
                a >= 1,
                b >= 1,
        ;
    }
}

/// A grid that was read has at least one tuple, and as many as its cell count
/// says.
pub proof fn law_read_grid_count(v: JsonView)
    ensures
        grid_of(v) matches Ok(axes) ==> tuples(axes).len() == product(axes) && product(axes) >= 1,
{
    if let JsonView::Object(ms) = v {
        lemma_axes_nonempty(ms);
        if let Ok(axes) = axes_of(ms) {
            lemma_product_positive(axes);
            law_tuple_count(axes);
        }
    }
}

/// The list of qualities has one for each piece, the number that the piece writes, and a
/// number above the best quality is refused.
pub proof fn law_q_grid_reads_numbers(s: Seq<char>, i: int, n: u32)
    requires
        0 <= i < split_at_each(s, ',').len(),
        trimmed(split_at_each(s, ',')[i]) == decimal(n as nat),
    ensures
        q_grid(s) matches Ok(qs) ==> qs.len() == split_at_each(s, ',').len() && qs[i] == n,
        n > 100 ==> q_grid(s) is Err,
{
    law_decimal_reads_back(n as nat, u32::MAX as nat);
    lemma_q_item_at(s, split_at_each(s, ','), i);
}

proof fn lemma_q_item_at(whole: Seq<char>, pieces: Seq<Seq<char>>, i: int)
    requires
        0 <= i < pieces.len(),
    ensures
        q_items(whole, pieces) matches Ok(qs) ==> qs.len() == pieces.len() && q_item(
            whole,
            pieces[i],
        ) == Ok::<u32, Seq<char>>(qs[i]),
    decreases pieces.len(),
{
    let front = pieces.drop_last();
    if i < front.len() {
        lemma_q_item_at(whole, front, i);
        assert(front[i] == pieces[i]);
    } else if front.len() > 0 {
        lemma_q_item_at(whole, front, 0);
    } else {
        reveal_with_fuel(q_items, 2);
    }
}

/// A list of qualities in range, each with any white space around it, is accepted.
pub proof fn law_q_grid_accepts_numbers(s: Seq<char>)
    requires
        forall|i: int|
            0 <= i < split_at_each(s, ',').len() ==> quality_piece(
                #[trigger] split_at_each(s, ',')[i],
            ),
    ensures
        q_grid(s) is Ok,
{
    lemma_q_items_accepted(s, split_at_each(s, ','));
}

/// Is this a quality in decimal, but for white space around it?
pub open spec fn quality_piece(piece: Seq<char>) -> bool {
    exists|n: nat| n <= 100 && trimmed(piece) == #[trigger] decimal(n)
}

proof fn lemma_q_items_accepted(whole: Seq<char>, pieces: Seq<Seq<char>>)
    requires
        forall|i: int| 0 <= i < pieces.len() ==> quality_piece(#[trigger] pieces[i]),
    ensures
        q_items(whole, pieces) is Ok,
    decreases pieces.len(),
{
    if pieces.len() > 0 {
        let front = pieces.drop_last();
        assert forall|i: int| 0 <= i < front.len() implies quality_piece(#[trigger] front[i]) by {
            assert(front[i] == pieces[i]);
        }
        lemma_q_items_accepted(whole, front);
        assert(quality_piece(pieces[pieces.len() - 1]));
        let n = choose|n: nat| n <= 100 && trimmed(pieces.last()) == #[trigger] decimal(n);
        law_decimal_reads_back(n, u32::MAX as nat);
    }
}

/// The knobs of a grid are the members of its description, in their order, each with its
/// own list of values.
pub proof fn law_grid_knobs_are_members(ms: TupleView, i: int)
    requires
        0 <= i < ms.len(),
    ensures
        grid_of(JsonView::Object(ms)) matches Ok(axes) ==> axes.len() == ms.len() && axes[i].0
            == ms[i].0 && ms[i].1 == JsonView::Array(axes[i].1) && axes[i].1.len() > 0,
        !(ms[i].1 matches JsonView::Array(a) && a.len() > 0) ==> grid_of(JsonView::Object(ms))
            is Err,
    decreases ms.len(),
{
    let front = ms.drop_last();
    if i < front.len() {
        law_grid_knobs_are_members(front, i);
        assert(front[i] == ms[i]);
    } else if front.len() > 0 {
        law_grid_knobs_are_members(front, 0);
    } else {
        reveal_with_fuel(axes_of, 2);
    }
}

/// Where every knob has a list with values, there is a grid.
pub proof fn law_grid_of_lists_accepted(ms: TupleView)
    requires
        forall|i: int|
            0 <= i < ms.len() ==> ((#[trigger] ms[i]).1 matches JsonView::Array(a) && a.len() > 0),
    ensures
        grid_of(JsonView::Object(ms)) is Ok,
    decreases ms.len(),
{
    if ms.len() > 0 {
        let front = ms.drop_last();
        assert forall|i: int| 0 <= i < front.len() implies ((#[trigger] front[i]).1 matches
            JsonView::Array(a) && a.len() > 0) by {
            assert(front[i] == ms[i]);
        }
        assert(ms[ms.len() - 1] == ms.last());
        law_grid_of_lists_accepted(front);
    }
}

/// Setting a knob gives it the value and leaves every other knob as it was.
pub proof fn law_set_knob_reads_back(m: TupleView, key: Seq<char>, v: JsonView, i: int)
    requires
        0 <= i < set_member(m, key, v).len(),
    ensures
        has_key(set_member(m, key, v), key),
        set_member(m, key, v)[i].0 == key ==> set_member(m, key, v)[i].1 == v,
        i < m.len() ==> set_member(m, key, v)[i].0 == m[i].0,
        i < m.len() && m[i].0 != key ==> set_member(m, key, v)[i] == m[i],
        set_member(m, key, v).len() == (if has_key(m, key) {
            m.len()
        } else {
            m.len() + 1
        }),
{
    let s = set_member(m, key, v);
    if has_key(m, key) {
        let j = choose|j: int| 0 <= j < m.len() && (#[trigger] m[j]).0 == key;
        assert(s[j].0 == key);
    } else {
        assert(s[m.len() as int].0 == key);
        if i < m.len() && m[i].0 == key {
            assert(has_key(m, key));
        }
    }
}

} // verus!
