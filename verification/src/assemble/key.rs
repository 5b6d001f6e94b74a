//! What tells one scored pair from another, and finding rows by it.

use crate::assemble::table::{
    column_in, key_text, lemma_place, lemma_place_is, place, table_wf, AssembleError, CellView,
    Table, TableView,
};
use crate::text::{copy, debug_text, join, joined, lemma_views_push, quoted, same, views};
use vstd::prelude::*;

verus! {

/// The columns that make up a key.
pub open spec fn key_columns() -> Seq<Seq<char>> {
    seq!["image_path"@, "codec"@, "q"@, "knob_tuple_json"@]
}

/// The columns that make up a key.
pub fn pair_columns() -> (r: Vec<String>)
    ensures
        views(r@) == key_columns(),
{
    let r: Vec<String> = vec![copy("image_path"), copy("codec"), copy("q"), copy("knob_tuple_json")];
    assert(views(r@) =~= key_columns());
    r
}

/// A list of texts as the `Debug` formatting of std prints it.
pub open spec fn list_text(v: Seq<Seq<char>>) -> Seq<char> {
    "["@ + joined(v.map_values(|s: Seq<char>| debug_text(s)), ", "@) + "]"@
}

/// A list of texts as the `Debug` formatting of std prints it.
pub fn show_list(v: &Vec<String>) -> (r: String)
    ensures
        r@ == list_text(views(v@)),
{
    let ghost want = views(v@).map_values(|s: Seq<char>| debug_text(s));
    let mut parts: Vec<String> = Vec::new();
    let mut i: usize = 0;
    while i < v.len()
        invariant
            i <= v.len(),
            want == views(v@).map_values(|s: Seq<char>| debug_text(s)),
            views(parts@) == want.take(i as int),
        decreases v.len() - i,
    {
        let q = quoted(v[i].as_str());
        proof {
            lemma_views_push(parts@, q);
        }
        parts.push(q);
        i += 1;
        assert(views(parts@) =~= want.take(i as int));
    }
    assert(want.take(i as int) =~= want);
    let mut s: String = copy("[");
    let j = join(parts.as_slice(), ", ");
    s.append(j.as_str());
    s.append("]");
    s
}

/// What tells one scored pair from another: the image, the codec, the quality and
/// the knobs. There is no key of fewer parts.
#[derive(Debug)]
pub struct PairKey {
    pub image_path: String,
    pub codec: String,
    pub q: String,
    pub knob_tuple_json: String,
}

impl View for PairKey {
    type V = Seq<Seq<char>>;

    open spec fn view(&self) -> Seq<Seq<char>> {
        seq![self.image_path@, self.codec@, self.q@, self.knob_tuple_json@]
    }
}

/// Has the table every column of a key?
pub open spec fn keyed(t: TableView) -> bool {
    &&& column_in(t, "image_path"@) is Some
    &&& column_in(t, "codec"@) is Some
    &&& column_in(t, "q"@) is Some
    &&& column_in(t, "knob_tuple_json"@) is Some
}

/// One part of a row's key.
pub open spec fn part_at(t: TableView, name: Seq<char>, i: int) -> Seq<char> {
    key_text(column_in(t, name)->Some_0.cells[i])
}

/// The key of a row.
pub open spec fn key_at(t: TableView, i: int) -> Seq<Seq<char>> {
    seq![
        part_at(t, "image_path"@, i),
        part_at(t, "codec"@, i),
        part_at(t, "q"@, i),
        part_at(t, "knob_tuple_json"@, i),
    ]
}

/// The keys of all rows.
pub open spec fn keys_of(t: TableView) -> Seq<Seq<Seq<char>>> {
    Seq::new(t.rows, |i: int| key_at(t, i))
}

/// The columns of a key that a table lacks.
pub open spec fn lacking(t: TableView, names: Seq<Seq<char>>) -> Seq<Seq<char>>
    decreases names.len(),
{
    if names.len() == 0 {
        Seq::<Seq<char>>::empty()
    } else {
        let before = lacking(t, names.drop_last());
        if t.names.contains(names.last()) {
            before
        } else {
            before.push(names.last())
        }
    }
}

/// The message for a table that lacks columns of a key.
pub open spec fn lacking_text(what: Seq<char>, t: TableView) -> Seq<char> {
    what + ": table lacks per-pair key column(s) "@ + list_text(lacking(t, key_columns()))
        + ", it carries only "@ + list_text(t.names)
        + " — a ref-only join would broadcast one value over every pair (the ref-misjoin failure mode)."@
}

impl PairKey {
    /// Has the table every column of a key?
    pub fn require_columns(what: &str, table: &Table) -> (r: Result<(), AssembleError>)
        requires
            table_wf(table@),
        ensures
            match r {
                Ok(_) => keyed(table@),
                Err(e) => !keyed(table@) && (e matches AssembleError::JoinSafety(m) && m@
                    == lacking_text(what@, table@)),
            },
    {
        let need = pair_columns();
        let ghost names = key_columns();
        let mut missing: Vec<String> = Vec::new();
        let mut i: usize = 0;
        assert(names.take(0) =~= Seq::<Seq<char>>::empty());
        assert(views(missing@) =~= Seq::<Seq<char>>::empty());
        while i < need.len()
            invariant
                i <= need.len(),
                names == views(need@),
                views(missing@) == lacking(table@, names.take(i as int)),
            decreases need.len() - i,
        {
            assert(names.take(i + 1).drop_last() =~= names.take(i as int));
            assert(names.take(i + 1).last() == need@[i as int]@);
            if !table.has_column(need[i].as_str()) {
                let s = copy(need[i].as_str());
                proof {
                    lemma_views_push(missing@, s);
                }
                missing.push(s);
            }
            i += 1;
        }
        assert(names.take(i as int) =~= names);
        proof {
            lemma_lacking(table@);
            assert(views(missing@).len() == missing@.len());
        }
        if missing.len() == 0 {
            return Ok(());
        }
        let mut m: String = copy(what);
        m.append(": table lacks per-pair key column(s) ");
        let a = show_list(&missing);
        m.append(a.as_str());
        m.append(", it carries only ");
        let b = show_list(table.column_names());
        m.append(b.as_str());
        m.append(
            " — a ref-only join would broadcast one value over every pair (the ref-misjoin failure mode).",
        );
        Err(AssembleError::JoinSafety(m))
    }

    /// The key of a row.
    pub fn for_row(table: &Table, i: usize) -> (r: PairKey)
        requires
            table_wf(table@),
            keyed(table@),
            i < table@.rows,
        ensures
            r@ == key_at(table@, i as int),
    {
        let image_path = cell_text(table, "image_path", i);
        let codec = cell_text(table, "codec", i);
        let q = cell_text(table, "q", i);
        let knob_tuple_json = cell_text(table, "knob_tuple_json", i);
        PairKey { image_path, codec, q, knob_tuple_json }
    }

    /// The parts of the key.
    pub fn parts(self) -> (r: Vec<String>)
        ensures
            views(r@) == self@,
    {
        let r: Vec<String> = vec![self.image_path, self.codec, self.q, self.knob_tuple_json];
        assert(views(r@) =~= self@);
        r
    }
}

/// The text of a cell.
fn cell_text(table: &Table, name: &str, i: usize) -> (r: String)
    requires
        table_wf(table@),
        column_in(table@, name@) is Some,
        i < table@.rows,
    ensures
        r@ == part_at(table@, name@, i as int),
{
    match table.column(name) {
        Some(c) => c.key_at(i),
        None => String::new(),
    }
}

proof fn lemma_lacking(t: TableView)
    ensures
        (lacking(t, key_columns()).len() == 0) == keyed(t),
{
    let k = key_columns();
    reveal_with_fuel(lacking, 5);
    assert(k.drop_last().drop_last().drop_last().drop_last().len() == 0);
    lemma_place(t.names, "image_path"@);
    lemma_place(t.names, "codec"@);
    lemma_place(t.names, "q"@);
    lemma_place(t.names, "knob_tuple_json"@);
    assert(k.last() == "knob_tuple_json"@);
    assert(k.drop_last().last() == "q"@);
    assert(k.drop_last().drop_last().last() == "codec"@);
    assert(k.drop_last().drop_last().drop_last().last() == "image_path"@);
    lemma_column_there(t, "image_path"@);
    lemma_column_there(t, "codec"@);
    lemma_column_there(t, "q"@);
    lemma_column_there(t, "knob_tuple_json"@);
}

proof fn lemma_column_there(t: TableView, name: Seq<char>)
    ensures
        t.names.contains(name) == (column_in(t, name) is Some),
{
    lemma_place(t.names, name);
    match place(t.names, name) {
        Some(i) => {
            assert(t.names.contains(t.names[i]));
        },
        None => {},
    }
}

/// The keys of all rows, part by part.
pub fn row_keys(table: &Table) -> (r: Vec<Vec<String>>)
    requires
        table_wf(table@),
        keyed(table@),
    ensures
        key_views(r@) == keys_of(table@),
{
    let n: usize = table.num_rows();
    let mut out: Vec<Vec<String>> = Vec::new();
    let mut i: usize = 0;
    while i < n
        invariant
            i <= n,
            n == table@.rows,
            table_wf(table@),
            keyed(table@),
            out@.len() == i,
            forall|j: int| 0 <= j < i ==> views((#[trigger] out@[j])@) == key_at(table@, j),
        decreases n - i,
    {
        out.push(PairKey::for_row(table, i).parts());
        i += 1;
    }
    assert(key_views(out@) =~= keys_of(table@));
    out
}

// ── Finding rows ───────────────────────────────────────────────────────

/// What keys mean.
pub open spec fn key_views(v: Seq<Vec<String>>) -> Seq<Seq<Seq<char>>> {
    v.map_values(|k: Vec<String>| views(k@))
}

/// Are two keys equal?
pub fn same_key(a: &Vec<String>, b: &Vec<String>) -> (r: bool)
    ensures
        r == (views(a@) == views(b@)),
{
    if a.len() != b.len() {
        assert(views(a@).len() != views(b@).len());
        return false;
    }
    let mut i: usize = 0;
    while i < a.len()
        invariant
            i <= a.len(),
            a@.len() == b@.len(),
            forall|j: int| 0 <= j < i ==> (#[trigger] a@[j])@ == b@[j]@,
        decreases a.len() - i,
    {
        if !same(a[i].as_str(), b[i].as_str()) {
            assert(views(a@)[i as int] != views(b@)[i as int]);
            return false;
        }
        i += 1;
    }
    assert(views(a@) =~= views(b@));
    true
}

/// A number that spreads texts over buckets.
pub open spec fn text_hash(s: Seq<char>, seed: nat) -> nat
    decreases s.len(),
{
    if s.len() == 0 {
        seed
    } else {
        (text_hash(s.drop_last(), seed) * 31 + (s.last() as u32) as nat) % 0x1_0000_0000
    }
}

/// A number that spreads keys over buckets.
pub open spec fn key_hash(k: Seq<Seq<char>>) -> nat
    decreases k.len(),
{
    if k.len() == 0 {
        17
    } else {
        text_hash(k.last(), key_hash(k.drop_last()))
    }
}

/// A number that spreads texts over buckets.
fn hash_text(s: &str, seed: u64) -> (r: u64)
    requires
        seed < 0x1_0000_0000,
    ensures
        r == text_hash(s@, seed as nat),
        r < 0x1_0000_0000,
{
    let a = crate::text::chars_of(s);
    let mut h: u64 = seed;
    let mut i: usize = 0;
    assert(s@.take(0) =~= Seq::<char>::empty());
    while i < a.len()
        invariant
            i <= a.len(),
            a@ == s@,
            h < 0x1_0000_0000,
            h == text_hash(s@.take(i as int), seed as nat),
        decreases a.len() - i,
    {
        assert(s@.take(i + 1).drop_last() =~= s@.take(i as int));
        h = (h * 31 + (a[i] as u32) as u64) % 0x1_0000_0000;
        i += 1;
    }
    assert(s@.take(i as int) =~= s@);
    h
}

/// A number that spreads keys over buckets.
fn hash_key(k: &Vec<String>) -> (r: u64)
    ensures
        r == key_hash(views(k@)),
{
    let ghost all = views(k@);
    let mut h: u64 = 17;
    let mut i: usize = 0;
    assert(all.take(0) =~= Seq::<Seq<char>>::empty());
    while i < k.len()
        invariant
            i <= k.len(),
            all == views(k@),
            h < 0x1_0000_0000,
            h == key_hash(all.take(i as int)),
        decreases k.len() - i,
    {
        assert(all.take(i + 1).drop_last() =~= all.take(i as int));
        assert(all.take(i + 1).last() == k@[i as int]@);
        h = hash_text(k[i].as_str(), h);
        i += 1;
    }
    assert(all.take(i as int) =~= all);
    h
}

/// Is this the first row with its key?
pub open spec fn is_first(keys: Seq<Seq<Seq<char>>>, i: int) -> bool {
    0 <= i < keys.len() && forall|j: int| 0 <= j < i ==> #[trigger] keys[j] != keys[i]
}

/// How many rows have a key that an earlier row has.
pub open spec fn repeats(keys: Seq<Seq<Seq<char>>>) -> nat
    decreases keys.len(),
{
    if keys.len() == 0 {
        0
    } else {
        repeats(keys.drop_last()) + (if keys.drop_last().contains(keys.last()) {
            1nat
        } else {
            0
        })
    }
}

pub proof fn lemma_repeats_bound(keys: Seq<Seq<Seq<char>>>)
    ensures
        repeats(keys) <= keys.len(),
    decreases keys.len(),
{
    if keys.len() > 0 {
        lemma_repeats_bound(keys.drop_last());
    }
}

/// Without repeats, no two rows have one key.
pub proof fn law_no_repeats_means_distinct(keys: Seq<Seq<Seq<char>>>)
    ensures
        repeats(keys) == 0 <==> keys.no_duplicates(),
    decreases keys.len(),
{
    if keys.len() > 0 {
        let front = keys.drop_last();
        law_no_repeats_means_distinct(front);
        if repeats(keys) == 0 {
            assert forall|i: int, j: int|
                0 <= i < keys.len() && 0 <= j < keys.len() && i != j implies keys[i]
                != keys[j] by {
                if i < front.len() && j < front.len() {
                    assert(front[i] != front[j]);
                } else if i < front.len() {
                    assert(front.contains(front[i]));
                } else {
                    assert(front.contains(front[j]));
                }
            }
        }
        if keys.no_duplicates() {
            assert forall|i: int, j: int|
                0 <= i < front.len() && 0 <= j < front.len() && i != j implies front[i]
                != front[j] by {
                assert(keys[i] != keys[j]);
            }
            if front.contains(keys.last()) {
                let i = choose|i: int| 0 <= i < front.len() && front[i] == keys.last();
                assert(keys[i] == keys[keys.len() - 1]);
            }
        }
    }
}

/// Rows by their keys: each bucket holds the first rows with the keys that fall
/// into it.
pub struct KeyIndex {
    pub buckets: Vec<Vec<usize>>,
}

/// Does the bucket hold the row?
pub open spec fn in_bucket(b: Seq<usize>, i: int) -> bool {
    exists|p: int| 0 <= p < b.len() && #[trigger] b[p] == i
}

impl KeyIndex {
    /// The bucket of a key.
    pub open spec fn bucket_of(&self, k: Seq<Seq<char>>) -> Seq<usize> {
        self.buckets@[(key_hash(k) % self.buckets@.len()) as int]@
    }

    /// Is this the index of these keys?
    pub open spec fn indexes(&self, keys: Seq<Seq<Seq<char>>>) -> bool {
        &&& self.buckets@.len() > 0
        &&& forall|b: int, p: int|
            #![trigger self.buckets@[b]@[p]]
            0 <= b < self.buckets@.len() && 0 <= p < self.buckets@[b]@.len() ==> is_first(
                keys,
                self.buckets@[b]@[p] as int,
            )
        &&& forall|i: int| #[trigger]
            is_first(keys, i) ==> in_bucket(self.bucket_of(keys[i]), i)
    }

    /// The first row with a key.
    pub fn find(&self, all: &Vec<Vec<String>>, n: usize, k: &Vec<String>) -> (r: Option<usize>)
        requires
            n <= all@.len(),
            self.indexes(key_views(all@).take(n as int)),
        ensures
            match r {
                Some(i) => place(key_views(all@).take(n as int), views(k@)) == Some(i as int),
                None => place(key_views(all@).take(n as int), views(k@)) is None,
            },
    {
        let ghost keys = key_views(all@).take(n as int);
        let h: u64 = hash_key(k);
        let b: usize = (h % (self.buckets.len() as u64)) as usize;
        let bucket = &self.buckets[b];
        assert(bucket@ == self.bucket_of(views(k@)));
        let mut p: usize = 0;
        while p < bucket.len()
            invariant
                p <= bucket.len(),
                n <= all@.len(),
                keys == key_views(all@).take(n as int),
                self.indexes(keys),
                b < self.buckets@.len(),
                bucket@ == self.buckets@[b as int]@,
                bucket@ == self.bucket_of(views(k@)),
                forall|q: int| 0 <= q < p ==> keys[(#[trigger] bucket@[q]) as int] != views(k@),
            decreases bucket.len() - p,
        {
            assert(is_first(keys, self.buckets@[b as int]@[p as int] as int));
            let i: usize = bucket[p];
            assert(keys[i as int] == views(all@[i as int]@));
            if same_key(&all[i], k) {
                proof {
                    lemma_place_is(keys, views(k@), i as int);
                }
                return Some(i);
            }
            p += 1;
        }
        proof {
            lemma_place(keys, views(k@));
            match place(keys, views(k@)) {
                Some(i) => {
                    assert(is_first(keys, i));
                    assert(in_bucket(self.bucket_of(keys[i]), i));
                    let q = choose|q: int| 0 <= q < bucket@.len() && #[trigger] bucket@[q] == i;
                    assert(keys[bucket@[q] as int] != views(k@));
                },
                None => {},
            }
        }
        None
    }

    /// The index of these keys, and how many of them are repeats.
    pub fn build(all: &Vec<Vec<String>>) -> (r: (KeyIndex, usize))
        ensures
            r.0.indexes(key_views(all@)),
            r.1 == repeats(key_views(all@)),
    {
        let ghost keys = key_views(all@);
        let mut buckets: Vec<Vec<usize>> = Vec::new();
        let mut b: usize = 0;
        while b < all.len()
            invariant
                b <= all.len(),
                buckets@.len() == b,
                forall|c: int| 0 <= c < b ==> (#[trigger] buckets@[c])@.len() == 0,
            decreases all.len() - b,
        {
            buckets.push(Vec::new());
            b += 1;
        }
        if all.len() == 0 {
            buckets.push(Vec::new());
        }
        let mut index = KeyIndex { buckets };
        let mut dupes: usize = 0;
        let mut i: usize = 0;
        assert(keys.take(0) =~= Seq::<Seq<Seq<char>>>::empty());
        assert(index.indexes(keys.take(0)));
        while i < all.len()
            invariant
                i <= all.len(),
                keys == key_views(all@),
                index.indexes(keys.take(i as int)),
                dupes == repeats(keys.take(i as int)),
                dupes <= i,
            decreases all.len() - i,
        {
            let ghost before = keys.take(i as int);
            let ghost after = keys.take(i + 1);
            assert(after.drop_last() =~= before);
            assert(after =~= before.push(views(all@[i as int]@)));
            proof {
                lemma_place(before, views(all@[i as int]@));
            }
            match index.find(all, i, &all[i]) {
                Some(f) => {
                    dupes += 1;
                    proof {
                        assert(before[f as int] == after.last());
                        assert(before.contains(after.last()));
                        lemma_index_repeat(&index, before, after.last());
                    }
                },
                None => {
                    let h: u64 = hash_key(&all[i]);
                    let b: usize = (h % (index.buckets.len() as u64)) as usize;
                    let ghost old_index = index;
                    index.buckets[b].push(i);
                    proof {
                        lemma_index_grown(old_index, index, before, after.last(), b as int);
                    }
                },
            }
            i += 1;
        }
        assert(keys.take(i as int) =~= keys);
        (index, dupes)
    }
}

proof fn lemma_index_repeat(index: &KeyIndex, keys: Seq<Seq<Seq<char>>>, k: Seq<Seq<char>>)
    requires
        index.indexes(keys),
        keys.contains(k),
    ensures
        index.indexes(keys.push(k)),
{
    let more = keys.push(k);
    assert forall|b: int, p: int|
        #![trigger index.buckets@[b]@[p]]
        0 <= b < index.buckets@.len() && 0 <= p < index.buckets@[b]@.len() implies is_first(
        more,
        index.buckets@[b]@[p] as int,
    ) by {
        let i = index.buckets@[b]@[p] as int;
        assert(is_first(keys, i));
        assert(more[i] == keys[i]);
        assert forall|j: int| 0 <= j < i implies #[trigger] more[j] != more[i] by {
            assert(keys[j] != keys[i]);
        }
    }
    assert forall|i: int| #[trigger] is_first(more, i) implies in_bucket(
        index.bucket_of(more[i]),
        i,
    ) by {
        if i < keys.len() {
            assert forall|j: int| 0 <= j < i implies #[trigger] keys[j] != keys[i] by {
                assert(more[j] != more[i]);
            }
            assert(is_first(keys, i));
        } else {
            let j = choose|j: int| 0 <= j < keys.len() && keys[j] == k;
            assert(more[j] != more[i]);
        }
    }
}

proof fn lemma_index_grown(
    before: KeyIndex,
    after: KeyIndex,
    keys: Seq<Seq<Seq<char>>>,
    k: Seq<Seq<char>>,
    b: int,
)
    requires
        before.indexes(keys),
        !keys.contains(k),
        keys.len() <= usize::MAX,
        b == key_hash(k) % before.buckets@.len(),
        after.buckets@.len() == before.buckets@.len(),
        after.buckets@[b]@ == before.buckets@[b]@.push(keys.len() as usize),
        forall|c: int|
            0 <= c < after.buckets@.len() && c != b ==> (#[trigger] after.buckets@[c])@
                == before.buckets@[c]@,
    ensures
        after.indexes(keys.push(k)),
{
    let more = keys.push(k);
    let n = keys.len() as int;
    assert forall|j: int| 0 <= j < n implies #[trigger] more[j] != k by {
        assert(keys.contains(keys[j]));
    }
    assert(is_first(more, n));
    assert forall|c: int, p: int|
        #![trigger after.buckets@[c]@[p]]
        0 <= c < after.buckets@.len() && 0 <= p < after.buckets@[c]@.len() implies is_first(
        more,
        after.buckets@[c]@[p] as int,
    ) by {
        let i = after.buckets@[c]@[p] as int;
        if c == b && p == before.buckets@[b]@.len() {
            assert(i == n);
        } else {
            assert(after.buckets@[c]@[p] == before.buckets@[c]@[p]);
            assert(is_first(keys, before.buckets@[c]@[p] as int));
            assert(more[i] == keys[i]);
            assert forall|j: int| 0 <= j < i implies #[trigger] more[j] != more[i] by {
                assert(keys[j] != keys[i]);
            }
        }
    }
    assert forall|i: int| #[trigger] is_first(more, i) implies in_bucket(
        after.bucket_of(more[i]),
        i,
    ) by {
        if i < n {
            assert forall|j: int| 0 <= j < i implies #[trigger] keys[j] != keys[i] by {
                assert(more[j] != more[i]);
            }
            assert(is_first(keys, i));
            let c = (key_hash(keys[i]) % before.buckets@.len()) as int;
            let old_b = before.buckets@[c]@;
            assert(in_bucket(old_b, i));
            let p = choose|p: int| 0 <= p < old_b.len() && #[trigger] old_b[p] == i;
            assert(after.buckets@[c]@[p] == i);
        } else {
            let new_b = after.buckets@[b]@;
            assert(new_b[new_b.len() - 1] == n);
        }
    }
}

// ── Laws of keys ───────────────────────────────────────────────────────

/// The cell of a row in the column of a name.
pub open spec fn cell_at(t: TableView, name: Seq<char>, i: int) -> CellView {
    column_in(t, name)->Some_0.cells[i]
}

/// Have two rows the same image, the same codec, the same quality and the same knobs?
pub open spec fn same_pair(a: TableView, i: int, b: TableView, k: int) -> bool {
    &&& key_text(cell_at(a, "image_path"@, i)) == key_text(cell_at(b, "image_path"@, k))
    &&& key_text(cell_at(a, "codec"@, i)) == key_text(cell_at(b, "codec"@, k))
    &&& key_text(cell_at(a, "q"@, i)) == key_text(cell_at(b, "q"@, k))
    &&& key_text(cell_at(a, "knob_tuple_json"@, i)) == key_text(cell_at(b, "knob_tuple_json"@, k))
}

/// Each part of a row's key is the text of the row's own cell in the column that the
/// part is named after.
pub proof fn law_key_part_is_cell(t: TableView, i: int, j: int)
    requires
        keyed(t),
        0 <= i < t.rows,
        0 <= j < key_columns().len(),
    ensures
        keys_of(t).len() == t.rows,
        keys_of(t)[i].len() == key_columns().len(),
        column_in(t, key_columns()[j]) is Some,
        keys_of(t)[i][j] == key_text(cell_at(t, key_columns()[j], i)),
{
    let n = key_columns();
    assert(n.len() == 4);
    assert(n[0] == "image_path"@ && n[1] == "codec"@ && n[2] == "q"@ && n[3]
        == "knob_tuple_json"@);
}

/// Two rows have equal keys exactly when they agree in all four columns.
pub proof fn law_equal_keys_mean_same_pair(a: TableView, i: int, b: TableView, k: int)
    requires
        keyed(a),
        keyed(b),
        0 <= i < a.rows,
        0 <= k < b.rows,
    ensures
        keys_of(a)[i] == keys_of(b)[k] <==> same_pair(a, i, b, k),
{
    let x = keys_of(a)[i];
    let y = keys_of(b)[k];
    assert(x[0] == part_at(a, "image_path"@, i) && y[0] == part_at(b, "image_path"@, k));
    assert(x[1] == part_at(a, "codec"@, i) && y[1] == part_at(b, "codec"@, k));
    assert(x[2] == part_at(a, "q"@, i) && y[2] == part_at(b, "q"@, k));
    assert(x[3] == part_at(a, "knob_tuple_json"@, i) && y[3] == part_at(b, "knob_tuple_json"@, k));
    if same_pair(a, i, b, k) {
        assert(x =~= y);
    }
}

/// A table has keys exactly when it has all four columns.
pub proof fn law_keyed_means_all_four(t: TableView)
    ensures
        keyed(t) <==> {
            &&& t.names.contains("image_path"@)
            &&& t.names.contains("codec"@)
            &&& t.names.contains("q"@)
            &&& t.names.contains("knob_tuple_json"@)
        },
{
    lemma_place(t.names, "image_path"@);
    lemma_place(t.names, "codec"@);
    lemma_place(t.names, "q"@);
    lemma_place(t.names, "knob_tuple_json"@);
}

/// A row counts as a repeat exactly when an earlier row has its key.
pub proof fn law_repeats_counts_rows(keys: Seq<Seq<Seq<char>>>, k: Seq<Seq<char>>)
    ensures
        repeats(keys.push(k)) == repeats(keys) + (if keys.contains(k) {
            1int
        } else {
            0
        }),
        repeats(Seq::<Seq<Seq<char>>>::empty()) == 0,
{
    assert(keys.push(k).drop_last() =~= keys);
}

/// Keys that are all different have no repeats.
pub proof fn law_distinct_keys_do_not_repeat(keys: Seq<Seq<Seq<char>>>)
    requires
        keys.no_duplicates(),
    ensures
        repeats(keys) == 0,
    decreases keys.len(),
{
    if keys.len() > 0 {
        let front = keys.drop_last();
        law_distinct_keys_do_not_repeat(front);
        law_repeats_counts_rows(front, keys.last());
        assert(front.push(keys.last()) =~= keys);
        if front.contains(keys.last()) {
            let j = choose|j: int| 0 <= j < front.len() && front[j] == keys.last();
            assert(keys[j] == keys[keys.len() - 1]);
        }
    } else {
        assert(keys =~= Seq::<Seq<Seq<char>>>::empty());
    }
}

} // verus!
