//! Rows of features on their way into a file.
//!
//! Rows are gathered column by column and handed on in batches, so that only one
//! batch is ever held.

use crate::text::{copy, decimal, law_decimals_differ, show_usize};
use vstd::prelude::*;

verus! {

/// The number of features where none is given.
pub const NUM_FEATURES_DEFAULT: usize = 300;

/// How many rows a batch has.
pub const FLUSH_EVERY: usize = 256;

/// One row.
#[verifier::ext_equal]
pub struct RowView<T> {
    pub image_path: Seq<char>,
    pub codec: Seq<char>,
    pub q: u32,
    pub knob_tuple_json: Seq<char>,
    pub score: T,
    pub features: Seq<T>,
}

/// Rows, column by column.
#[derive(Debug)]
pub struct RowBuffer<T> {
    pub image_path: Vec<String>,
    pub codec: Vec<String>,
    pub q: Vec<u32>,
    pub knob_tuple_json: Vec<String>,
    pub zensim_score: Vec<T>,
    /// The values of each feature.
    pub feature_columns: Vec<Vec<T>>,
    pub rows: usize,
}

impl<T> RowBuffer<T> {
    /// All columns are of one length.
    pub open spec fn wf(&self) -> bool {
        &&& self.image_path@.len() == self.rows
        &&& self.codec@.len() == self.rows
        &&& self.q@.len() == self.rows
        &&& self.knob_tuple_json@.len() == self.rows
        &&& self.zensim_score@.len() == self.rows
        &&& forall|c: int|
            0 <= c < self.feature_columns@.len() ==> (#[trigger] self.feature_columns@[c])@.len()
                == self.rows
    }

    /// One row.
    pub open spec fn row(&self, i: int) -> RowView<T> {
        RowView {
            image_path: self.image_path@[i]@,
            codec: self.codec@[i]@,
            q: self.q@[i],
            knob_tuple_json: self.knob_tuple_json@[i]@,
            score: self.zensim_score@[i],
            features: Seq::new(
                self.feature_columns@.len(),
                |c: int| self.feature_columns@[c]@[i],
            ),
        }
    }

    /// All rows.
    pub open spec fn all_rows(&self) -> Seq<RowView<T>> {
        Seq::new(self.rows as nat, |i: int| self.row(i))
    }

    /// No rows, of `n` features each.
    pub fn new(n: usize) -> (r: RowBuffer<T>)
        ensures
            r.wf(),
            r.rows == 0,
            r.feature_columns@.len() == n,
            r.all_rows() == Seq::<RowView<T>>::empty(),
    {
        let mut feature_columns: Vec<Vec<T>> = Vec::new();
        let mut i: usize = 0;
        while i < n
            invariant
                i <= n,
                feature_columns@.len() == i,
                forall|c: int| 0 <= c < i ==> (#[trigger] feature_columns@[c])@.len() == 0,
            decreases n - i,
        {
            feature_columns.push(Vec::new());
            i += 1;
        }
        let r = RowBuffer {
            image_path: Vec::new(),
            codec: Vec::new(),
            q: Vec::new(),
            knob_tuple_json: Vec::new(),
            zensim_score: Vec::new(),
            feature_columns,
            rows: 0,
        };
        assert(r.all_rows() =~= Seq::<RowView<T>>::empty());
        r
    }
}

/// Rows of features on their way into a file.
#[derive(Debug)]
pub struct FeatureParquetWriter<T> {
    pub buf: RowBuffer<T>,
    pub n_features: usize,
}

/// The message for a row with the wrong number of features.
pub open spec fn count_text(expected: nat, got: nat) -> Seq<char> {
    "feature_writer: expected "@ + decimal(expected) + " features, got "@ + decimal(got)
}

impl<T: Copy> FeatureParquetWriter<T> {
    /// Less than a batch is held, and every row has the same number of features.
    pub open spec fn wf(&self) -> bool {
        &&& self.buf.wf()
        &&& self.buf.rows < FLUSH_EVERY
        &&& self.buf.feature_columns@.len() == self.n_features
    }

    /// The rows that are held.
    pub open spec fn pending(&self) -> Seq<RowView<T>> {
        self.buf.all_rows()
    }

    /// Nothing held, with the usual number of features.
    pub fn create() -> (r: FeatureParquetWriter<T>)
        ensures
            r.wf(),
            r.n_features == NUM_FEATURES_DEFAULT,
            r.pending() == Seq::<RowView<T>>::empty(),
    {
        FeatureParquetWriter::create_with_n(NUM_FEATURES_DEFAULT)
    }

    /// Nothing held, with `n` features.
    pub fn create_with_n(n: usize) -> (r: FeatureParquetWriter<T>)
        ensures
            r.wf(),
            r.n_features == n,
            r.pending() == Seq::<RowView<T>>::empty(),
    {
        FeatureParquetWriter { buf: RowBuffer::new(n), n_features: n }
    }

    /// How many features a row has.
    pub fn num_features(&self) -> (r: usize)
        ensures
            r == self.n_features,
    {
        self.n_features
    }

    /// Takes a row. When a batch is full it is handed on, and nothing is held any
    /// more. A row with the wrong number of features is refused and changes nothing.
    pub fn push_row(
        &mut self,
        image_path: &str,
        codec: &str,
        q: u32,
        knob_tuple_json: &str,
        zensim_score: T,
        features: &Vec<T>,
    ) -> (r: Result<Option<RowBuffer<T>>, String>)
        requires
            old(self).wf(),
        ensures
            final(self).wf(),
            final(self).n_features == old(self).n_features,
            ({
                let grown = old(self).pending().push(
                    RowView {
                        image_path: image_path@,
                        codec: codec@,
                        q,
                        knob_tuple_json: knob_tuple_json@,
                        score: zensim_score,
                        features: features@,
                    },
                );
                match r {
                    Err(e) => {
                        &&& features@.len() != old(self).n_features
                        &&& e@ == count_text(old(self).n_features as nat, features@.len())
                        &&& *final(self) == *old(self)
                    },
                    Ok(None) => {
                        &&& features@.len() == old(self).n_features
                        &&& grown.len() < FLUSH_EVERY
                        &&& final(self).pending() == grown
                    },
                    Ok(Some(batch)) => {
                        &&& features@.len() == old(self).n_features
                        &&& grown.len() == FLUSH_EVERY
                        &&& batch.wf()
                        &&& batch.feature_columns@.len() == old(self).n_features
                        &&& batch.all_rows() == grown
                        &&& final(self).pending() == Seq::<RowView<T>>::empty()
                    },
                }
            }),
    {
        let n: usize = self.n_features;
        if features.len() != n {
            let mut e: String = copy("feature_writer: expected ");
            let a = show_usize(n);
            e.append(a.as_str());
            e.append(" features, got ");
            let b = show_usize(features.len());
            e.append(b.as_str());
            return Err(e);
        }
        let ghost before = self.buf;
        let ghost rows0 = self.buf.rows;
        self.buf.image_path.push(copy(image_path));
        self.buf.codec.push(copy(codec));
        self.buf.q.push(q);
        self.buf.knob_tuple_json.push(copy(knob_tuple_json));
        self.buf.zensim_score.push(zensim_score);
        let mut c: usize = 0;
        while c < n
            invariant
                c <= n,
                n == features@.len(),
                n == before.feature_columns@.len(),
                self.n_features == n,
                self.buf.feature_columns@.len() == n,
                self.buf.rows == rows0,
                rows0 == before.rows,
                before.wf(),
                self.buf.image_path@.len() == rows0 + 1,
                self.buf.codec@.len() == rows0 + 1,
                self.buf.q@ == before.q@.push(q),
                self.buf.knob_tuple_json@.len() == rows0 + 1,
                self.buf.zensim_score@ == before.zensim_score@.push(zensim_score),
                forall|i: int|
                    0 <= i < rows0 ==> #[trigger] self.buf.image_path@[i] == before.image_path@[i],
                forall|i: int| 0 <= i < rows0 ==> #[trigger] self.buf.codec@[i] == before.codec@[i],
                forall|i: int|
                    0 <= i < rows0 ==> #[trigger] self.buf.knob_tuple_json@[i]
                        == before.knob_tuple_json@[i],
                self.buf.image_path@[rows0 as int]@ == image_path@,
                self.buf.codec@[rows0 as int]@ == codec@,
                self.buf.knob_tuple_json@[rows0 as int]@ == knob_tuple_json@,
                forall|k: int|
                    0 <= k < c ==> (#[trigger] self.buf.feature_columns@[k])@
                        == before.feature_columns@[k]@.push(features@[k]),
                forall|k: int|
                    c <= k < n ==> (#[trigger] self.buf.feature_columns@[k])@
                        == before.feature_columns@[k]@,
            decreases n - c,
        {
            let ghost cols = self.buf.feature_columns@;
            let v: T = features[c];
            self.buf.feature_columns[c].push(v);
            assert forall|k: int| 0 <= k < n && k != c implies (
            #[trigger] self.buf.feature_columns@[k])@ == cols[k]@ by {}
            c += 1;
        }
        self.buf.rows = self.buf.rows + 1;
        let ghost new = RowView {
            image_path: image_path@,
            codec: codec@,
            q,
            knob_tuple_json: knob_tuple_json@,
            score: zensim_score,
            features: features@,
        };
        proof {
            assert forall|k: int| 0 <= k < n implies (
            #[trigger] self.buf.feature_columns@[k])@.len() == self.buf.rows by {
                assert(before.feature_columns@[k]@.len() == rows0);
            }
            assert(self.buf.wf());
            assert forall|i: int| 0 <= i < rows0 implies #[trigger] self.buf.row(i)
                == before.row(i) by {
                assert(self.buf.row(i).features =~= before.row(i).features) by {
                    assert forall|k: int| 0 <= k < n implies self.buf.row(i).features[k]
                        == before.row(i).features[k] by {
                        assert(self.buf.feature_columns@[k]@
                            == before.feature_columns@[k]@.push(features@[k]));
                        assert(before.feature_columns@[k]@.len() == rows0);
                    }
                }
                assert(self.buf.image_path@[i] == before.image_path@[i]);
                assert(self.buf.codec@[i] == before.codec@[i]);
                assert(self.buf.knob_tuple_json@[i] == before.knob_tuple_json@[i]);
            }
            assert(self.buf.row(rows0 as int).features =~= features@) by {
                assert forall|k: int| 0 <= k < n implies self.buf.row(rows0 as int).features[k]
                    == features@[k] by {
                    assert(self.buf.feature_columns@[k]@ == before.feature_columns@[k]@.push(
                        features@[k],
                    ));
                    assert(before.feature_columns@[k]@.len() == rows0);
                }
            }
            assert(self.buf.row(rows0 as int) == new);
            assert(self.buf.all_rows() =~= before.all_rows().push(new));
        }
        if self.buf.rows >= FLUSH_EVERY {
            let mut batch: RowBuffer<T> = RowBuffer::new(n);
            std::mem::swap(&mut batch, &mut self.buf);
            return Ok(Some(batch));
        }
        Ok(None)
    }

    /// Hands on what is held, where there is something.
    pub fn finish(self) -> (r: Option<RowBuffer<T>>)
        requires
            self.wf(),
        ensures
            match r {
                Some(batch) => batch.wf() && batch.all_rows() == self.pending() && batch.rows > 0,
                None => self.pending().len() == 0,
            },
    {
        if self.buf.rows == 0 {
            None
        } else {
            Some(self.buf)
        }
    }
}

/// Batches that were handed on, one after another.
pub open spec fn handed_on<T>(batches: Seq<Seq<RowView<T>>>) -> Seq<RowView<T>>
    decreases batches.len(),
{
    if batches.len() == 0 {
        Seq::<RowView<T>>::empty()
    } else {
        handed_on(batches.drop_last()) + batches.last()
    }
}

/// No row is lost, repeated or moved: what was handed on and what is held grow by
/// exactly the row that was taken, whether a batch became full or not.
pub proof fn law_no_row_lost<T>(
    batches: Seq<Seq<RowView<T>>>,
    held: Seq<RowView<T>>,
    row: RowView<T>,
)
    ensures
        handed_on(batches.push(held.push(row))) + Seq::<RowView<T>>::empty() == (handed_on(batches)
            + held).push(row),
        handed_on(batches) + held.push(row) == (handed_on(batches) + held).push(row),
{
    assert(batches.push(held.push(row)).drop_last() =~= batches);
    assert(handed_on(batches) + held.push(row) =~= (handed_on(batches) + held).push(row));
    assert((handed_on(batches) + held.push(row)) + Seq::<RowView<T>>::empty() =~= (handed_on(
        batches,
    ) + held).push(row));
}

/// The kind of a column of the file.
#[derive(Debug, Clone, Copy, PartialEq, Eq, Structural)]
pub enum FieldType {
    Utf8,
    UInt32,
    Float32,
}

/// A column of the file.
#[derive(Debug)]
pub struct Field {
    pub name: String,
    pub kind: FieldType,
}

/// What a column of the file means.
pub open spec fn field_view(f: Field) -> (Seq<char>, FieldType) {
    (f.name@, f.kind)
}

/// The columns that every row has.
pub open spec fn key_fields() -> Seq<(Seq<char>, FieldType)> {
    seq![
        ("image_path"@, FieldType::Utf8),
        ("codec"@, FieldType::Utf8),
        ("q"@, FieldType::UInt32),
        ("knob_tuple_json"@, FieldType::Utf8),
        ("zensim_score"@, FieldType::Float32),
    ]
}

/// The columns of the file.
pub open spec fn schema_of(n: nat) -> Seq<(Seq<char>, FieldType)> {
    key_fields() + Seq::new(n, |i: int| ("feat_"@ + decimal(i as nat), FieldType::Float32))
}

/// The columns of the file.
pub fn build_schema(n: usize) -> (r: Vec<Field>)
    ensures
        r@.map_values(|f: Field| field_view(f)) == schema_of(n as nat),
{
    let mut fields: Vec<Field> = Vec::new();
    fields.push(Field { name: copy("image_path"), kind: FieldType::Utf8 });
    fields.push(Field { name: copy("codec"), kind: FieldType::Utf8 });
    fields.push(Field { name: copy("q"), kind: FieldType::UInt32 });
    fields.push(Field { name: copy("knob_tuple_json"), kind: FieldType::Utf8 });
    fields.push(Field { name: copy("zensim_score"), kind: FieldType::Float32 });
    let ghost want = schema_of(n as nat);
    let mut i: usize = 0;
    assert(fields@.map_values(|f: Field| field_view(f)) =~= want.take(5));
    while i < n
        invariant
            i <= n,
            want == schema_of(n as nat),
            fields@.map_values(|f: Field| field_view(f)) == want.take(5 + i),
        decreases n - i,
    {
        let mut name: String = copy("feat_");
        let d = show_usize(i);
        name.append(d.as_str());
        let ghost before = fields@.map_values(|f: Field| field_view(f));
        fields.push(Field { name, kind: FieldType::Float32 });
        assert(fields@.map_values(|f: Field| field_view(f)) =~= before.push(want[5 + i]));
        i += 1;
        assert(fields@.map_values(|f: Field| field_view(f)) =~= want.take(5 + i));
    }
    assert(want.take(5 + i) =~= want);
    fields
}

/// The first columns of a file of features are those that a score table is joined by, and
/// each feature has a column of its own name, of real numbers.
pub proof fn law_feature_file_columns(n: nat, i: nat, j: nat)
    requires
        i < n,
        j < n,
        n <= i64::MAX,
    ensures
        schema_of(n).len() == n + 5,
        forall|k: int|
            0 <= k < 4 ==> (#[trigger] schema_of(n)[k]).0 == crate::assemble::key::key_columns()[k],
        schema_of(n)[4].0 == "zensim_score"@,
        schema_of(n)[5 + i as int].0 == schema_of(n)[5 + j as int].0 ==> i == j,
        schema_of(n)[5 + i as int].1 == FieldType::Float32,
{
    let s = schema_of(n);
    let keys = crate::assemble::key::key_columns();
    assert(s[0] == key_fields()[0] && s[1] == key_fields()[1] && s[2] == key_fields()[2] && s[3]
        == key_fields()[3] && s[4] == key_fields()[4]);
    assert(keys[0] == "image_path"@ && keys[1] == "codec"@ && keys[2] == "q"@ && keys[3]
        == "knob_tuple_json"@);
    let a = s[5 + i as int].0;
    let b = s[5 + j as int].0;
    assert(a == "feat_"@ + decimal(i) && b == "feat_"@ + decimal(j));
    let m = "feat_"@.len() as int;
    assert(a.skip(m) =~= decimal(i));
    assert(b.skip(m) =~= decimal(j));
    if a == b {
        law_decimals_differ(i as i64, j as i64);
    }
}

} // verus!
