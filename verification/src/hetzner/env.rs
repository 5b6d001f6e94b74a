//! Environment variables in order of their names.

use crate::json::text_below;
use crate::sweep::grid::{
    lemma_below_irreflexive, lemma_below_total, lemma_below_transitive, text_less,
};
use crate::text::{copy, same};
use vstd::prelude::*;

verus! {

/// What a list of variables means.
pub type EnvView = Seq<(Seq<char>, Seq<char>)>;

/// What a list of variables means.
pub open spec fn env_view(v: Seq<(String, String)>) -> EnvView {
    v.map_values(|p: (String, String)| (p.0@, p.1@))
}

/// The names stand in strictly ascending order.
pub open spec fn env_ascending(s: EnvView) -> bool {
    forall|i: int, j: int|
        0 <= i < j < s.len() ==> text_below((#[trigger] s[i]).0, (#[trigger] s[j]).0)
}

/// Has the variable `k` the value `v`?
pub open spec fn holds(s: EnvView, k: Seq<char>, v: Seq<char>) -> bool {
    exists|i: int| 0 <= i < s.len() && #[trigger] s[i] == (k, v)
}

/// Environment variables, each name once, in order of their names.
#[derive(Debug)]
pub struct EnvVars {
    pub pairs: Vec<(String, String)>,
}

impl View for EnvVars {
    type V = EnvView;

    open spec fn view(&self) -> EnvView {
        env_view(self.pairs@)
    }
}

impl EnvVars {
    /// Each name stands once, and in order.
    pub open spec fn wf(&self) -> bool {
        env_ascending(self@)
    }

    /// No variables.
    pub fn new() -> (r: EnvVars)
        ensures
            r.wf(),
            r@ == EnvView::empty(),
    {
        let r = EnvVars { pairs: Vec::new() };
        assert(r@ =~= EnvView::empty());
        r
    }

    /// Sets the variable `k` to `v`; all others stay as they are.
    pub fn insert(&mut self, k: &str, v: &str)
        requires
            old(self).wf(),
        ensures
            final(self).wf(),
            forall|a: Seq<char>, b: Seq<char>| #[trigger]
                holds(final(self)@, a, b) == (if a == k@ {
                    b == v@
                } else {
                    holds(old(self)@, a, b)
                }),
    {
        let ghost s0 = self@;
        let mut i: usize = 0;
        while i < self.pairs.len() && text_less(self.pairs[i].0.as_str(), k)
            invariant
                i <= self.pairs.len(),
                self@ == s0,
                env_ascending(s0),
                forall|j: int| 0 <= j < i ==> text_below((#[trigger] s0[j]).0, k@),
            decreases self.pairs.len() - i,
        {
            assert(s0[i as int].0 == self.pairs@[i as int].0@);
            i += 1;
        }
        assert(s0.len() == self.pairs@.len());
        let value: (String, String) = (copy(k), copy(v));
        if i < self.pairs.len() && same(self.pairs[i].0.as_str(), k) {
            assert(s0[i as int].0 == k@);
            self.pairs.set(i, value);
            proof {
                let s1 = self@;
                assert(s1 =~= s0.update(i as int, (k@, v@)));
                assert forall|p: int, q: int| 0 <= p < q < s1.len() implies text_below(
                    (#[trigger] s1[p]).0,
                    (#[trigger] s1[q]).0,
                ) by {
                    assert(s1[p].0 == s0[p].0 && s1[q].0 == s0[q].0);
                }
                lemma_env_replaced(s0, i as int, k@, v@);
            }
        } else {
            proof {
                if i < s0.len() {
                    assert(s0[i as int].0 == self.pairs@[i as int].0@);
                    lemma_below_total(s0[i as int].0, k@);
                }
            }
            self.pairs.insert(i, value);
            proof {
                let s1 = self@;
                assert(s1 =~= s0.insert(i as int, (k@, v@)));
                lemma_env_inserted(s0, i as int, k@, v@);
            }
        }
    }
}

proof fn lemma_env_replaced(s: EnvView, i: int, k: Seq<char>, v: Seq<char>)
    requires
        env_ascending(s),
        0 <= i < s.len(),
        s[i].0 == k,
    ensures
        forall|a: Seq<char>, b: Seq<char>| #[trigger]
            holds(s.update(i, (k, v)), a, b) == (if a == k {
                b == v
            } else {
                holds(s, a, b)
            }),
{
    let t = s.update(i, (k, v));
    assert forall|a: Seq<char>, b: Seq<char>| #[trigger] holds(t, a, b) == (if a == k {
        b == v
    } else {
        holds(s, a, b)
    }) by {
        if holds(t, a, b) {
            let j = choose|j: int| 0 <= j < t.len() && #[trigger] t[j] == (a, b);
            if j != i {
                assert(s[j] == (a, b));
                if a == k {
                    lemma_below_irreflexive(k);
                    if j < i {
                        assert(text_below(s[j].0, s[i].0));
                    } else {
                        assert(text_below(s[i].0, s[j].0));
                    }
                }
            }
        }
        if a == k && b == v {
            assert(t[i] == (a, b));
        }
        if a != k && holds(s, a, b) {
            let j = choose|j: int| 0 <= j < s.len() && #[trigger] s[j] == (a, b);
            assert(t[j] == (a, b));
        }
    }
}

proof fn lemma_env_inserted(s: EnvView, i: int, k: Seq<char>, v: Seq<char>)
    requires
        env_ascending(s),
        0 <= i <= s.len(),
        forall|j: int| 0 <= j < i ==> text_below((#[trigger] s[j]).0, k),
        i < s.len() ==> text_below(k, s[i].0),
    ensures
        env_ascending(s.insert(i, (k, v))),
        forall|a: Seq<char>, b: Seq<char>| #[trigger]
            holds(s.insert(i, (k, v)), a, b) == (if a == k {
                b == v
            } else {
                holds(s, a, b)
            }),
{
    let t = s.insert(i, (k, v));
    assert forall|q: int| i <= q < s.len() implies text_below(k, (#[trigger] s[q]).0) by {
        if q > i {
            assert(text_below(s[i].0, s[q].0));
            lemma_below_transitive(k, s[i].0, s[q].0);
        }
    }
    assert forall|p: int, q: int| 0 <= p < q < t.len() implies text_below(
        (#[trigger] t[p]).0,
        (#[trigger] t[q]).0,
    ) by {
        if q < i {
            assert(t[p] == s[p] && t[q] == s[q]);
        } else if q == i {
            assert(t[p] == s[p]);
        } else if p < i {
            assert(t[p] == s[p] && t[q] == s[q - 1]);
        } else if p == i {
            assert(t[q] == s[q - 1]);
        } else {
            assert(t[p] == s[p - 1] && t[q] == s[q - 1]);
        }
    }
    assert forall|a: Seq<char>, b: Seq<char>| #[trigger] holds(t, a, b) == (if a == k {
        b == v
    } else {
        holds(s, a, b)
    }) by {
        lemma_below_irreflexive(k);
        if holds(t, a, b) {
            let j = choose|j: int| 0 <= j < t.len() && #[trigger] t[j] == (a, b);
            if j < i {
                assert(s[j] == (a, b));
            } else if j > i {
                assert(s[j - 1] == (a, b));
            }
        }
        if a == k && b == v {
            assert(t[i] == (a, b));
        }
        if a != k && holds(s, a, b) {
            let j = choose|j: int| 0 <= j < s.len() && #[trigger] s[j] == (a, b);
            if j < i {
                assert(t[j] == (a, b));
            } else {
                assert(t[j + 1] == (a, b));
            }
        }
    }
}

/// A variable has at most one value.
pub proof fn law_one_value_per_name(s: EnvView, k: Seq<char>, v: Seq<char>, w: Seq<char>)
    requires
        env_ascending(s),
        holds(s, k, v),
        holds(s, k, w),
    ensures
        v == w,
{
    let i = choose|i: int| 0 <= i < s.len() && #[trigger] s[i] == (k, v);
    let j = choose|j: int| 0 <= j < s.len() && #[trigger] s[j] == (k, w);
    lemma_below_irreflexive(k);
    if i < j {
        assert(text_below(s[i].0, s[j].0));
    }
    if j < i {
        assert(text_below(s[j].0, s[i].0));
    }
}

} // verus!
