//! A small table of named columns.
//!
//! Columns hold texts, whole numbers or real numbers. A real number is known by
//! its bits and by its text; a text or a whole number carries the real number that
//! it reads as. Tables are put under each other by the names of their columns, and
//! a column whose kinds differ becomes a column of real numbers.

use crate::json::text_below;
use crate::sweep::grid::{
    lemma_below_irreflexive, lemma_below_total, lemma_below_transitive, text_less,
};
use crate::text::{
    copies, copy, debug_text, decimal, decimal_int, law_decimals_differ, lemma_views_push, quoted,
    same, show_int, show_usize, views,
};
use vstd::prelude::*;

verus! {

// ── Cells ──────────────────────────────────────────────────────────────

/// A real number: the bits of its double-precision form, and its text.
#[derive(Debug)]
pub struct Real {
    pub bits: u64,
    pub text: String,
}

/// What a real number means.
pub type RealView = (u64, Seq<char>);

impl View for Real {
    type V = RealView;

    open spec fn view(&self) -> RealView {
        (self.bits, self.text@)
    }
}

impl Real {
    /// A copy.
    pub fn duplicate(&self) -> (r: Real)
        ensures
            r@ == self@,
    {
        Real { bits: self.bits, text: copy(self.text.as_str()) }
    }
}

/// The value that stands for a missing real number.
pub open spec fn missing() -> RealView {
    (0x7ff8_0000_0000_0000u64, "NaN"@)
}

/// The value that stands for a missing real number.
pub fn missing_real() -> (r: Real)
    ensures
        r@ == missing(),
{
    Real { bits: 0x7ff8_0000_0000_0000, text: copy("NaN") }
}

/// Is the number neither infinite nor missing? Its exponent is not the largest one.
pub open spec fn finite(bits: u64) -> bool {
    (bits / 0x10_0000_0000_0000) % 2048 != 2047
}

/// Is the number neither infinite nor missing?
pub fn is_finite(bits: u64) -> (r: bool)
    ensures
        r == finite(bits),
{
    (bits / 0x10_0000_0000_0000) % 2048 != 2047
}

/// A text, or none, and the real number that it reads as.
#[derive(Debug)]
pub struct StrCell {
    pub text: Option<String>,
    pub real: Real,
}

/// A whole number and the real number next to it.
#[derive(Debug)]
pub struct IntCell {
    pub value: i64,
    pub real: Real,
}

/// What a cell means.
#[verifier::ext_equal]
pub enum CellView {
    Str(Option<Seq<char>>, RealView),
    F64(RealView),
    I64(i64, RealView),
}

/// The kind of a column.
#[derive(Debug, Clone, Copy, PartialEq, Eq, Structural)]
pub enum Variant {
    Str,
    F64,
    I64,
}

/// The name of a kind.
pub open spec fn variant_text(v: Variant) -> Seq<char> {
    match v {
        Variant::Str => "Str"@,
        Variant::F64 => "F64"@,
        Variant::I64 => "I64"@,
    }
}

/// What a column means.
#[verifier::ext_equal]
pub struct ColView {
    pub variant: Variant,
    pub cells: Seq<CellView>,
}

/// An optional text.
pub open spec fn text_of(o: Option<String>) -> Option<Seq<char>> {
    match o {
        Some(s) => Some(s@),
        None => None,
    }
}

/// The text of a cell as part of a key: a missing text is empty.
pub open spec fn key_text(c: CellView) -> Seq<char> {
    match c {
        CellView::Str(Some(t), _) => t,
        CellView::Str(None, _) => Seq::<char>::empty(),
        CellView::I64(n, _) => decimal_int(n as int),
        CellView::F64(r) => r.1,
    }
}

/// The number of a cell, for comparisons. A text is never a number.
pub open spec fn real_in(c: CellView) -> RealView {
    match c {
        CellView::Str(_, _) => missing(),
        CellView::I64(_, r) => r,
        CellView::F64(r) => r,
    }
}

/// The number that a cell becomes in a column of real numbers: a text becomes what it
/// reads as.
pub open spec fn read_as(c: CellView) -> RealView {
    match c {
        CellView::Str(_, r) => r,
        CellView::I64(_, r) => r,
        CellView::F64(r) => r,
    }
}

/// A column.
#[derive(Debug)]
pub enum Column {
    Str(Vec<StrCell>),
    F64(Vec<Real>),
    I64(Vec<IntCell>),
}

impl View for Column {
    type V = ColView;

    open spec fn view(&self) -> ColView {
        match self {
            Column::Str(v) => ColView {
                variant: Variant::Str,
                cells: v@.map_values(|c: StrCell| CellView::Str(text_of(c.text), c.real@)),
            },
            Column::F64(v) => ColView {
                variant: Variant::F64,
                cells: v@.map_values(|c: Real| CellView::F64(c@)),
            },
            Column::I64(v) => ColView {
                variant: Variant::I64,
                cells: v@.map_values(|c: IntCell| CellView::I64(c.value, c.real@)),
            },
        }
    }
}

impl Column {
    /// How many cells there are.
    pub fn len(&self) -> (r: usize)
        ensures
            r == self@.cells.len(),
    {
        match self {
            Column::Str(v) => v.len(),
            Column::F64(v) => v.len(),
            Column::I64(v) => v.len(),
        }
    }

    /// Is there no cell?
    pub fn is_empty(&self) -> (r: bool)
        ensures
            r == (self@.cells.len() == 0),
    {
        self.len() == 0
    }

    /// The kind of the column.
    pub fn variant(&self) -> (r: Variant)
        ensures
            r == self@.variant,
    {
        match self {
            Column::Str(_) => Variant::Str,
            Column::F64(_) => Variant::F64,
            Column::I64(_) => Variant::I64,
        }
    }

    /// The name of the column's kind.
    pub fn variant_name(&self) -> (r: &'static str)
        ensures
            r@ == variant_text(self@.variant),
    {
        match self {
            Column::Str(_) => "Str",
            Column::F64(_) => "F64",
            Column::I64(_) => "I64",
        }
    }

    /// The text of a cell as part of a key.
    pub fn key_at(&self, i: usize) -> (r: String)
        requires
            i < self@.cells.len(),
        ensures
            r@ == key_text(self@.cells[i as int]),
    {
        match self {
            Column::Str(v) => match &v[i].text {
                Some(t) => copy(t.as_str()),
                None => {
                    let s: String = String::new();
                    assert(s@ =~= Seq::<char>::empty());
                    s
                },
            },
            Column::I64(v) => show_int(v[i].value),
            Column::F64(v) => copy(v[i].text.as_str()),
        }
    }

    /// The number of a cell, for comparisons. A text is never a number.
    pub fn f64_at(&self, i: usize) -> (r: Real)
        requires
            i < self@.cells.len(),
        ensures
            r@ == real_in(self@.cells[i as int]),
    {
        match self {
            Column::Str(_) => missing_real(),
            Column::I64(v) => v[i].real.duplicate(),
            Column::F64(v) => v[i].duplicate(),
        }
    }

    /// The number that a cell becomes in a column of real numbers: a text becomes what
    /// it reads as.
    fn widened_at(&self, i: usize) -> (r: Real)
        requires
            i < self@.cells.len(),
        ensures
            r@ == read_as(self@.cells[i as int]),
    {
        match self {
            Column::Str(v) => v[i].real.duplicate(),
            Column::I64(v) => v[i].real.duplicate(),
            Column::F64(v) => v[i].duplicate(),
        }
    }

    /// A column without cells.
    pub fn empty(variant: Variant) -> (r: Column)
        ensures
            r@ == (ColView { variant, cells: Seq::<CellView>::empty() }),
    {
        match variant {
            Variant::Str => {
                let r = Column::Str(Vec::new());
                assert(r@.cells =~= Seq::<CellView>::empty());
                r
            },
            Variant::F64 => {
                let r = Column::F64(Vec::new());
                assert(r@.cells =~= Seq::<CellView>::empty());
                r
            },
            Variant::I64 => {
                let r = Column::I64(Vec::new());
                assert(r@.cells =~= Seq::<CellView>::empty());
                r
            },
        }
    }

    /// Adds a cell of another column, which must be of the same kind.
    pub fn push_from(&mut self, other: &Column, i: usize) -> (r: Result<(), AssembleError>)
        requires
            i < other@.cells.len(),
        ensures
            final(self)@.variant == old(self)@.variant,
            match r {
                Ok(_) => old(self)@.variant == other@.variant && final(self)@.cells
                    == old(self)@.cells.push(other@.cells[i as int]),
                Err(e) => {
                    &&& old(self)@.variant != other@.variant
                    &&& *final(self) == *old(self)
                    &&& e matches AssembleError::Schema(m) && m@ == "internal: cannot push "@
                        + variant_text(other@.variant) + " cell onto "@ + variant_text(
                        old(self)@.variant,
                    ) + " column"@
                },
            },
    {
        let ghost before = self@.cells;
        let want = self.variant();
        if want != other.variant() {
            let mut e: String = copy("internal: cannot push ");
            e.append(other.variant_name());
            e.append(" cell onto ");
            e.append(self.variant_name());
            e.append(" column");
            return Err(AssembleError::Schema(e));
        }
        match self {
            Column::Str(dst) => match other {
                Column::Str(src) => {
                    let text: Option<String> = match &src[i].text {
                        Some(t) => Some(copy(t.as_str())),
                        None => None,
                    };
                    dst.push(StrCell { text, real: src[i].real.duplicate() });
                },
                _ => {},
            },
            Column::F64(dst) => match other {
                Column::F64(src) => {
                    dst.push(src[i].duplicate());
                },
                _ => {},
            },
            Column::I64(dst) => match other {
                Column::I64(src) => {
                    dst.push(IntCell { value: src[i].value, real: src[i].real.duplicate() });
                },
                _ => {},
            },
        }
        assert(self@.cells =~= before.push(other@.cells[i as int]));
        Ok(())
    }
}

/// A cell of a column of real numbers.
pub open spec fn widened(c: CellView) -> CellView {
    CellView::F64(read_as(c))
}

/// The cells of a column as cells of a column of the wanted kind.
pub open spec fn coerced(c: ColView, want: Variant) -> Seq<CellView> {
    if c.variant == want {
        c.cells
    } else {
        c.cells.map_values(|x: CellView| widened(x))
    }
}

/// A cell that is missing.
pub open spec fn null_cell(want: Variant) -> CellView {
    match want {
        Variant::Str => CellView::Str(None, missing()),
        Variant::F64 => CellView::F64(missing()),
        Variant::I64 => CellView::I64(0, missing()),
    }
}

/// A copy of a column.
pub fn copy_column(c: &Column) -> (r: Column)
    ensures
        r@ == c@,
{
    let mut out = Column::empty(c.variant());
    let n: usize = c.len();
    let mut i: usize = 0;
    while i < n
        invariant
            i <= n,
            n == c@.cells.len(),
            out@.variant == c@.variant,
            out@.cells == c@.cells.take(i as int),
        decreases n - i,
    {
        let pushed = out.push_from(c, i);
        assert(pushed is Ok);
        i += 1;
        assert(out@.cells =~= c@.cells.take(i as int));
    }
    assert(c@.cells.take(i as int) =~= c@.cells);
    out
}

/// What went wrong while a corpus was put together.
#[derive(Debug)]
pub enum AssembleError {
    /// A missing column, a wrong length or a wrong kind.
    Schema(String),
    /// Data that must not be joined or kept.
    JoinSafety(String),
    /// A file that could not be read or written.
    Io(String),
}

impl AssembleError {
    /// The message.
    pub open spec fn text(self) -> Seq<char> {
        match self {
            AssembleError::Schema(m) => "schema error: "@ + m@,
            AssembleError::JoinSafety(m) => "DATA-INTEGRITY: "@ + m@,
            AssembleError::Io(m) => "io error: "@ + m@,
        }
    }

    /// The message.
    pub fn message(&self) -> (r: String)
        ensures
            r@ == self.text(),
    {
        let mut s: String = match self {
            AssembleError::Schema(_) => copy("schema error: "),
            AssembleError::JoinSafety(_) => copy("DATA-INTEGRITY: "),
            AssembleError::Io(_) => copy("io error: "),
        };
        match self {
            AssembleError::Schema(m) => s.append(m.as_str()),
            AssembleError::JoinSafety(m) => s.append(m.as_str()),
            AssembleError::Io(m) => s.append(m.as_str()),
        }
        s
    }
}

// ── Tables ─────────────────────────────────────────────────────────────

/// What a table means.
#[verifier::ext_equal]
pub struct TableView {
    pub names: Seq<Seq<char>>,
    pub columns: Seq<ColView>,
    pub rows: nat,
}

/// What columns mean.
pub open spec fn col_views(v: Seq<Column>) -> Seq<ColView> {
    v.map_values(|c: Column| c@)
}

/// Columns with names, in the order in which they came.
#[derive(Debug)]
pub struct Table {
    pub names: Vec<String>,
    pub columns: Vec<Column>,
    pub n_rows: usize,
}

impl View for Table {
    type V = TableView;

    open spec fn view(&self) -> TableView {
        TableView {
            names: views(self.names@),
            columns: col_views(self.columns@),
            rows: self.n_rows as nat,
        }
    }
}

/// Has every column a name, and the same number of cells?
pub open spec fn table_wf(t: TableView) -> bool {
    &&& t.names.len() == t.columns.len()
    &&& forall|i: int| 0 <= i < t.columns.len() ==> (#[trigger] t.columns[i]).cells.len() == t.rows
}

/// The first place of a name, or of anything else, in a list.
pub open spec fn place<A>(names: Seq<A>, name: A) -> Option<int>
    decreases names.len(),
{
    if names.len() == 0 {
        None
    } else {
        match place(names.drop_last(), name) {
            Some(i) => Some(i),
            None => if names.last() == name {
                Some(names.len() - 1)
            } else {
                None
            },
        }
    }
}

pub proof fn lemma_place<A>(names: Seq<A>, name: A)
    ensures
        match place(names, name) {
            Some(i) => 0 <= i < names.len() && names[i] == name && forall|j: int|
                0 <= j < i ==> #[trigger] names[j] != name,
            None => !names.contains(name),
        },
    decreases names.len(),
{
    if names.len() > 0 {
        let front = names.drop_last();
        lemma_place(front, name);
        match place(front, name) {
            Some(i) => {
                assert forall|j: int| 0 <= j < i implies #[trigger] names[j] != name by {
                    assert(front[j] == names[j]);
                }
            },
            None => {
                assert forall|j: int| 0 <= j < front.len() implies #[trigger] names[j] != name by {
                    assert(front[j] == names[j]);
                    assert(front.contains(front[j]));
                }
                if names.contains(name) {
                    let j = choose|j: int| 0 <= j < names.len() && names[j] == name;
                    assert(j == names.len() - 1);
                }
            },
        }
    }
}

pub proof fn lemma_place_is<A>(names: Seq<A>, name: A, i: int)
    requires
        0 <= i < names.len(),
        names[i] == name,
        forall|j: int| 0 <= j < i ==> #[trigger] names[j] != name,
    ensures
        place(names, name) == Some(i),
{
    lemma_place(names, name);
    match place(names, name) {
        Some(k) => {
            if k < i {
                assert(names[k] != name);
            }
            if i < k {
                assert(names[i] != name);
            }
        },
        None => {
            assert(names.contains(names[i]));
        },
    }
}

/// The first place of a name.
pub fn find_name(names: &Vec<String>, name: &str) -> (r: Option<usize>)
    ensures
        match r {
            Some(i) => place(views(names@), name@) == Some(i as int) && i < names@.len(),
            None => place(views(names@), name@) is None,
        },
{
    let ghost all = views(names@);
    let mut i: usize = 0;
    while i < names.len()
        invariant
            i <= names.len(),
            all == views(names@),
            forall|j: int| 0 <= j < i ==> #[trigger] all[j] != name@,
        decreases names.len() - i,
    {
        assert(all[i as int] == names@[i as int]@);
        if same(names[i].as_str(), name) {
            proof {
                lemma_place_is(all, name@, i as int);
            }
            return Some(i);
        }
        i += 1;
    }
    proof {
        lemma_place(all, name@);
        match place(all, name@) {
            Some(k) => {
                assert(all[k] != name@);
            },
            None => {},
        }
    }
    None
}

/// The column of a name.
pub open spec fn column_in(t: TableView, name: Seq<char>) -> Option<ColView> {
    match place(t.names, name) {
        Some(i) => Some(t.columns[i]),
        None => None,
    }
}

/// The names of named columns.
pub open spec fn names_of(v: Seq<(String, Column)>) -> Seq<Seq<char>> {
    v.map_values(|p: (String, Column)| p.0@)
}

/// The columns of named columns.
pub open spec fn columns_of(v: Seq<(String, Column)>) -> Seq<ColView> {
    v.map_values(|p: (String, Column)| p.1@)
}

/// How many rows the first column has.
pub open spec fn leading_rows(columns: Seq<ColView>) -> nat {
    if columns.len() == 0 {
        0
    } else {
        columns[0].cells.len()
    }
}

/// The message for the first column that is not as long as the others.
pub open spec fn length_fault(names: Seq<Seq<char>>, columns: Seq<ColView>, rows: nat) -> Option<
    Seq<char>,
>
    decreases columns.len(),
{
    if columns.len() == 0 {
        None
    } else {
        match length_fault(names.drop_last(), columns.drop_last(), rows) {
            Some(e) => Some(e),
            None => if columns.last().cells.len() == rows {
                None
            } else {
                Some(
                    "column "@ + debug_text(names.last()) + " has "@ + decimal(
                        columns.last().cells.len(),
                    ) + " rows, expected "@ + decimal(rows),
                )
            },
        }
    }
}

proof fn lemma_length_fault_stays(
    names: Seq<Seq<char>>,
    columns: Seq<ColView>,
    rows: nat,
    n: int,
)
    requires
        0 <= n <= columns.len(),
        names.len() == columns.len(),
        length_fault(names.take(n), columns.take(n), rows) is Some,
    ensures
        length_fault(names, columns, rows) == length_fault(names.take(n), columns.take(n), rows),
    decreases columns.len() - n,
{
    if n < columns.len() {
        assert(names.take(n + 1).drop_last() =~= names.take(n));
        assert(columns.take(n + 1).drop_last() =~= columns.take(n));
        lemma_length_fault_stays(names, columns, rows, n + 1);
    } else {
        assert(names.take(n) =~= names);
        assert(columns.take(n) =~= columns);
    }
}

impl Table {
    /// A table without columns.
    pub fn new() -> (r: Table)
        ensures
            r@ == (TableView {
                names: Seq::<Seq<char>>::empty(),
                columns: Seq::<ColView>::empty(),
                rows: 0,
            }),
    {
        let r = Table { names: Vec::new(), columns: Vec::new(), n_rows: 0 };
        assert(r@.names =~= Seq::<Seq<char>>::empty());
        assert(r@.columns =~= Seq::<ColView>::empty());
        r
    }

    /// A table of named columns, which must be of one length.
    pub fn from_columns(cols: Vec<(String, Column)>) -> (r: Result<Table, AssembleError>)
        ensures
            match r {
                Ok(t) => {
                    &&& length_fault(
                        names_of(cols@),
                        columns_of(cols@),
                        leading_rows(columns_of(cols@)),
                    ) is None
                    &&& t@ == (TableView {
                        names: names_of(cols@),
                        columns: columns_of(cols@),
                        rows: leading_rows(columns_of(cols@)),
                    })
                    &&& table_wf(t@)
                },
                Err(e) => e matches AssembleError::Schema(m) && length_fault(
                    names_of(cols@),
                    columns_of(cols@),
                    leading_rows(columns_of(cols@)),
                ) == Some(m@),
            },
    {
        let ghost all = cols@;
        let mut rest = cols;
        let mut names: Vec<String> = Vec::new();
        let mut columns: Vec<Column> = Vec::new();
        while rest.len() > 0
            invariant
                names@.len() == columns@.len(),
                names@.len() + rest@.len() == all.len(),
                rest@ == all.skip(names@.len() as int),
                forall|j: int| 0 <= j < names@.len() ==> #[trigger] names@[j] == all[j].0,
                forall|j: int| 0 <= j < columns@.len() ==> #[trigger] columns@[j] == all[j].1,
            decreases rest.len(),
        {
            let p = rest.remove(0);
            assert(p == all[names@.len() as int]);
            names.push(p.0);
            columns.push(p.1);
            assert(rest@ =~= all.skip(names@.len() as int));
        }
        assert(views(names@) =~= names_of(all));
        assert(col_views(columns@) =~= columns_of(all));
        Table::of(names, columns)
    }

    /// A table of columns and their names, which must be of one length.
    pub fn of(names: Vec<String>, columns: Vec<Column>) -> (r: Result<
        Table,
        AssembleError,
    >)
        requires
            names@.len() == columns@.len(),
        ensures
            match r {
                Ok(t) => {
                    &&& length_fault(
                        views(names@),
                        col_views(columns@),
                        leading_rows(col_views(columns@)),
                    ) is None
                    &&& t@ == (TableView {
                        names: views(names@),
                        columns: col_views(columns@),
                        rows: leading_rows(col_views(columns@)),
                    })
                    &&& table_wf(t@)
                },
                Err(e) => e matches AssembleError::Schema(m) && length_fault(
                    views(names@),
                    col_views(columns@),
                    leading_rows(col_views(columns@)),
                ) == Some(m@),
            },
    {
        let n_rows: usize = if columns.len() == 0 {
            0
        } else {
            columns[0].len()
        };
        let ghost ns = views(names@);
        let ghost cs = col_views(columns@);
        let mut i: usize = 0;
        while i < columns.len()
            invariant
                i <= columns.len(),
                names@.len() == columns@.len(),
                ns == views(names@),
                cs == col_views(columns@),
                n_rows == leading_rows(cs),
                length_fault(ns.take(i as int), cs.take(i as int), n_rows as nat) is None,
                forall|j: int| 0 <= j < i ==> (#[trigger] cs[j]).cells.len() == n_rows,
            decreases columns.len() - i,
        {
            assert(ns.take(i + 1).drop_last() =~= ns.take(i as int));
            assert(cs.take(i + 1).drop_last() =~= cs.take(i as int));
            assert(ns.take(i + 1).last() == names@[i as int]@);
            assert(cs.take(i + 1).last() == columns@[i as int]@);
            let n: usize = columns[i].len();
            if n != n_rows {
                let mut e: String = copy("column ");
                let q = quoted(names[i].as_str());
                e.append(q.as_str());
                e.append(" has ");
                let x = show_usize(n);
                e.append(x.as_str());
                e.append(" rows, expected ");
                let y = show_usize(n_rows);
                e.append(y.as_str());
                proof {
                    lemma_length_fault_stays(ns, cs, n_rows as nat, i + 1);
                }
                return Err(AssembleError::Schema(e));
            }
            assert(cs[i as int] == columns@[i as int]@);
            i += 1;
        }
        assert(ns.take(i as int) =~= ns);
        assert(cs.take(i as int) =~= cs);
        Ok(Table { names, columns, n_rows })
    }

    /// How many rows there are.
    pub fn num_rows(&self) -> (r: usize)
        ensures
            r == self@.rows,
    {
        self.n_rows
    }

    /// How many columns there are.
    pub fn num_columns(&self) -> (r: usize)
        ensures
            r == self@.names.len(),
    {
        self.names.len()
    }

    /// The names of the columns.
    pub fn column_names(&self) -> (r: &Vec<String>)
        ensures
            views(r@) == self@.names,
    {
        &self.names
    }

    /// Is there a column of this name?
    pub fn has_column(&self, name: &str) -> (r: bool)
        ensures
            r == self@.names.contains(name@),
    {
        proof {
            lemma_place(self@.names, name@);
            match place(self@.names, name@) {
                Some(i) => {
                    assert(self@.names.contains(self@.names[i]));
                },
                None => {},
            }
        }
        find_name(&self.names, name).is_some()
    }

    /// The column of a name.
    pub fn column(&self, name: &str) -> (r: Option<&Column>)
        requires
            table_wf(self@),
        ensures
            match r {
                Some(c) => column_in(self@, name@) == Some(c@) && c@.cells.len() == self@.rows,
                None => column_in(self@, name@) is None,
            },
    {
        match find_name(&self.names, name) {
            Some(i) => {
                assert(self@.columns[i as int] == self.columns@[i as int]@);
                Some(&self.columns[i])
            },
            None => None,
        }
    }

    /// Sets the column of a name; a new one comes last. It must be as long as the
    /// others.
    pub fn set_column(&mut self, name: &str, col: Column) -> (r: Result<(), AssembleError>)
        requires
            table_wf(old(self)@),
        ensures
            table_wf(final(self)@),
            match r {
                Ok(_) => set_fits(old(self)@, col@) && final(self)@ == with_column(
                    old(self)@,
                    name@,
                    col@,
                ),
                Err(e) => {
                    &&& !set_fits(old(self)@, col@)
                    &&& *final(self) == *old(self)
                    &&& e matches AssembleError::Schema(m) && m@ == "set_column "@ + debug_text(
                        name@,
                    ) + ": "@ + decimal(col@.cells.len()) + " rows vs table "@ + decimal(
                        old(self)@.rows,
                    ) + " rows"@
                },
            },
    {
        let ghost t0 = self@;
        let n: usize = col.len();
        if self.n_rows == 0 && self.names.len() == 0 {
            self.n_rows = n;
        } else if n != self.n_rows {
            let mut e: String = copy("set_column ");
            let q = quoted(name);
            e.append(q.as_str());
            e.append(": ");
            let x = show_usize(n);
            e.append(x.as_str());
            e.append(" rows vs table ");
            let y = show_usize(self.n_rows);
            e.append(y.as_str());
            e.append(" rows");
            return Err(AssembleError::Schema(e));
        }
        proof {
            lemma_place(t0.names, name@);
        }
        assert(self@.names == t0.names && self@.columns == t0.columns);
        match find_name(&self.names, name) {
            Some(i) => {
                self.columns.set(i, col);
                assert(self@.columns =~= t0.columns.update(i as int, col@));
            },
            None => {
                let s = copy(name);
                proof {
                    lemma_views_push(self.names@, s);
                }
                self.names.push(s);
                self.columns.push(col);
                assert(self@.columns =~= t0.columns.push(col@));
            },
        }
        Ok(())
    }

    /// Puts `prefix` before the names that `pred` picks, but for those in `keep`.
    pub fn prefix_columns_where<F>(&mut self, prefix: &str, keep: &Vec<String>, pred: F) where
        F: Fn(&str) -> bool,

        requires
            forall|s: &str| #[trigger] call_requires(pred, (s,)),
        ensures
            final(self)@.columns == old(self)@.columns,
            final(self)@.rows == old(self)@.rows,
            final(self)@.names.len() == old(self)@.names.len(),
            forall|i: int|
                0 <= i < old(self)@.names.len() ==> renamed_by(
                    pred,
                    prefix@,
                    views(keep@),
                    #[trigger] old(self)@.names[i],
                    final(self)@.names[i],
                ),
    {
        let ghost ns = self@.names;
        let mut out: Vec<String> = Vec::new();
        let mut i: usize = 0;
        while i < self.names.len()
            invariant
                i <= self.names.len(),
                ns == views(self.names@),
                self@ == old(self)@,
                forall|s: &str| #[trigger] call_requires(pred, (s,)),
                out@.len() == i,
                forall|j: int|
                    0 <= j < i ==> renamed_by(
                        pred,
                        prefix@,
                        views(keep@),
                        #[trigger] ns[j],
                        out@[j]@,
                    ),
            decreases self.names.len() - i,
        {
            let name = self.names[i].as_str();
            assert(ns[i as int] == name@);
            let new: String = if crate::text::any_same(keep.as_slice(), name) {
                copy(name)
            } else {
                let picked: bool = pred(name);
                proof {
                    assert(call_ensures(pred, (name,), picked));
                }
                if picked {
                    let mut s: String = copy(prefix);
                    s.append(name);
                    s
                } else {
                    copy(name)
                }
            };
            assert(renamed_by(pred, prefix@, views(keep@), ns[i as int], new@));
            let ghost before = out@;
            out.push(new);
            assert forall|j: int| 0 <= j < i + 1 implies renamed_by(
                pred,
                prefix@,
                views(keep@),
                #[trigger] ns[j],
                out@[j]@,
            ) by {
                if j < i {
                    assert(out@[j] == before[j]);
                }
            }
            i += 1;
        }
        self.names = out;
        assert forall|j: int| 0 <= j < ns.len() implies renamed_by(
            pred,
            prefix@,
            views(keep@),
            #[trigger] ns[j],
            self@.names[j],
        ) by {
            assert(self@.names[j] == self.names@[j]@);
        }
    }

    /// The rows at these places, in this order.
    pub fn take_rows(&self, indices: &Vec<usize>) -> (r: Result<Table, AssembleError>)
        requires
            table_wf(self@),
            forall|k: int| 0 <= k < indices@.len() ==> (#[trigger] indices@[k]) < self@.rows,
        ensures
            r matches Ok(t) && t@ == rows_taken(self@, indices@) && table_wf(t@),
    {
        let mut columns: Vec<Column> = Vec::new();
        let mut c: usize = 0;
        assert(self.names@.len() == self@.names.len() && self.columns@.len()
            == self@.columns.len());
        while c < self.columns.len()
            invariant
                c <= self.columns.len(),
                table_wf(self@),
                self.columns@.len() == self@.columns.len(),
                forall|k: int| 0 <= k < indices@.len() ==> (#[trigger] indices@[k]) < self@.rows,
                columns@.len() == c,
                forall|j: int|
                    0 <= j < c ==> (#[trigger] columns@[j])@ == cells_taken(
                        self@.columns[j],
                        indices@,
                    ),
            decreases self.columns.len() - c,
        {
            let src = &self.columns[c];
            assert(self@.columns[c as int] == src@);
            let mut col = Column::empty(src.variant());
            let mut k: usize = 0;
            while k < indices.len()
                invariant
                    k <= indices.len(),
                    src@.cells.len() == self@.rows,
                    forall|k: int|
                        0 <= k < indices@.len() ==> (#[trigger] indices@[k]) < self@.rows,
                    col@.variant == src@.variant,
                    col@.cells == cells_taken(src@, indices@).cells.take(k as int),
                decreases indices.len() - k,
            {
                assert(indices@[k as int] < self@.rows);
                let pushed = col.push_from(src, indices[k]);
                assert(pushed is Ok);
                k += 1;
                assert(col@.cells =~= cells_taken(src@, indices@).cells.take(k as int));
            }
            assert(col@.cells =~= cells_taken(src@, indices@).cells);
            columns.push(col);
            c += 1;
        }
        let names = copies(self.names.as_slice());
        let ghost cs = col_views(columns@);
        let ghost want = rows_taken(self@, indices@);
        assert(cs =~= want.columns);
        proof {
            assert(views(names@).len() == names@.len());
            lemma_no_length_fault(views(names@), cs, leading_rows(cs));
        }
        Table::of(names, columns)
    }

    /// The texts of a column, each once and in ascending order.
    pub fn distinct_str(&self, name: &str) -> (r: Result<Vec<String>, AssembleError>)
        requires
            table_wf(self@),
        ensures
            match r {
                Ok(v) => {
                    &&& column_in(self@, name@) matches Some(c) && c.variant == Variant::Str && forall|
                        t: Seq<char>,
                    | #[trigger]
                        views(v@).contains(t) == text_stands(c, t)
                    &&& rising(views(v@))
                },
                Err(e) => e matches AssembleError::Schema(m) && match column_in(self@, name@) {
                    None => m@ == "no column "@ + debug_text(name@),
                    Some(c) => c.variant != Variant::Str && m@ == "distinct_str: column "@
                        + debug_text(name@) + " is not a string column"@,
                },
            },
    {
        let col = match self.column(name) {
            Some(c) => c,
            None => {
                let mut e: String = copy("no column ");
                let q = quoted(name);
                e.append(q.as_str());
                return Err(AssembleError::Schema(e));
            },
        };
        let v: &Vec<StrCell> = match col {
            Column::Str(v) => v,
            _ => {
                let mut e: String = copy("distinct_str: column ");
                let q = quoted(name);
                e.append(q.as_str());
                e.append(" is not a string column");
                return Err(AssembleError::Schema(e));
            },
        };
        let mut out: Vec<String> = Vec::new();
        let mut i: usize = 0;
        while i < v.len()
            invariant
                i <= v.len(),
                col@.variant == Variant::Str,
                col@.cells == v@.map_values(
                    |c: StrCell| CellView::Str(text_of(c.text), c.real@),
                ),
                column_in(self@, name@) == Some(col@),
                rising(views(out@)),
                forall|t: Seq<char>| #[trigger]
                    views(out@).contains(t) == text_stands(
                        ColView { variant: Variant::Str, cells: col@.cells.take(i as int) },
                        t,
                    ),
            decreases v.len() - i,
        {
            let ghost before = views(out@);
            let ghost part = ColView { variant: Variant::Str, cells: col@.cells.take(i as int) };
            let ghost next = ColView {
                variant: Variant::Str,
                cells: col@.cells.take(i + 1),
            };
            assert(next.cells.drop_last() =~= part.cells);
            assert(next.cells.last() == CellView::Str(
                text_of(v@[i as int].text),
                v@[i as int].real@,
            ));
            match &v[i].text {
                Some(t) => {
                    place_text(&mut out, t.as_str());
                    assert forall|u: Seq<char>| #[trigger]
                        views(out@).contains(u) == text_stands(next, u) by {
                        lemma_text_stands_push(part.cells, next.cells.last(), u);
                        assert(next.cells =~= part.cells.push(next.cells.last()));
                    }
                },
                None => {
                    assert forall|u: Seq<char>| #[trigger]
                        views(out@).contains(u) == text_stands(next, u) by {
                        lemma_text_stands_push(part.cells, next.cells.last(), u);
                        assert(next.cells =~= part.cells.push(next.cells.last()));
                    }
                },
            }
            i += 1;
        }
        assert(col@.cells.take(i as int) =~= col@.cells);
        assert(col@ == (ColView { variant: Variant::Str, cells: col@.cells }));
        Ok(out)
    }
}

/// May the column be set?
pub open spec fn set_fits(t: TableView, c: ColView) -> bool {
    (t.rows == 0 && t.names.len() == 0) || c.cells.len() == t.rows
}

/// The table with a column set.
pub open spec fn with_column(t: TableView, name: Seq<char>, c: ColView) -> TableView {
    match place(t.names, name) {
        Some(i) => TableView { columns: t.columns.update(i, c), ..t },
        None => TableView {
            names: t.names.push(name),
            columns: t.columns.push(c),
            rows: c.cells.len(),
        },
    }
}

/// Is this the new name of a column?
pub open spec fn renamed_by<F: Fn(&str) -> bool>(
    pred: F,
    prefix: Seq<char>,
    keep: Seq<Seq<char>>,
    before: Seq<char>,
    after: Seq<char>,
) -> bool {
    if keep.contains(before) {
        after == before
    } else {
        exists|s: &str, picked: bool|
            s@ == before && #[trigger] call_ensures(pred, (s,), picked) && after == (if picked {
                prefix + before
            } else {
                before
            })
    }
}

/// The cells at these places.
pub open spec fn cells_taken(c: ColView, indices: Seq<usize>) -> ColView {
    ColView {
        variant: c.variant,
        cells: indices.map_values(|i: usize| c.cells[i as int]),
    }
}

/// The rows at these places. A table without columns has no rows.
pub open spec fn rows_taken(t: TableView, indices: Seq<usize>) -> TableView {
    TableView {
        names: t.names,
        columns: t.columns.map_values(|c: ColView| cells_taken(c, indices)),
        rows: if t.columns.len() == 0 {
            0
        } else {
            indices.len()
        },
    }
}

proof fn lemma_no_length_fault(names: Seq<Seq<char>>, columns: Seq<ColView>, rows: nat)
    requires
        names.len() == columns.len(),
        forall|i: int| 0 <= i < columns.len() ==> (#[trigger] columns[i]).cells.len() == rows,
    ensures
        length_fault(names, columns, rows) is None,
    decreases columns.len(),
{
    if columns.len() > 0 {
        let cs = columns.drop_last();
        assert forall|i: int| 0 <= i < cs.len() implies (#[trigger] cs[i]).cells.len() == rows by {
            assert(cs[i] == columns[i]);
        }
        lemma_no_length_fault(names.drop_last(), cs, rows);
        assert(columns[columns.len() - 1].cells.len() == rows);
    }
}

/// Does the text stand in the column?
pub open spec fn text_stands(c: ColView, t: Seq<char>) -> bool {
    exists|i: int|
        0 <= i < c.cells.len() && (#[trigger] c.cells[i] matches CellView::Str(Some(u), _) && u
            == t)
}

proof fn lemma_text_stands_push(cells: Seq<CellView>, c: CellView, t: Seq<char>)
    ensures
        text_stands(ColView { variant: Variant::Str, cells: cells.push(c) }, t) == (text_stands(
            ColView { variant: Variant::Str, cells },
            t,
        ) || (c matches CellView::Str(Some(u), _) && u == t)),
{
    let more = cells.push(c);
    if text_stands(ColView { variant: Variant::Str, cells }, t) {
        let i = choose|i: int|
            0 <= i < cells.len() && (#[trigger] cells[i] matches CellView::Str(Some(u), _) && u
                == t);
        assert(more[i] == cells[i]);
    }
    if c matches CellView::Str(Some(u), _) && u == t {
        assert(more[cells.len() as int] == c);
    }
    if text_stands(ColView { variant: Variant::Str, cells: more }, t) {
        let i = choose|i: int|
            0 <= i < more.len() && (#[trigger] more[i] matches CellView::Str(Some(u), _) && u == t);
        if i < cells.len() {
            assert(cells[i] == more[i]);
        }
    }
}

/// The texts stand in strictly ascending order.
pub open spec fn rising(s: Seq<Seq<char>>) -> bool {
    forall|i: int, j: int| 0 <= i < j < s.len() ==> text_below(#[trigger] s[i], #[trigger] s[j])
}

/// Puts a text into an ascending list, unless it stands there.
fn place_text(v: &mut Vec<String>, t: &str)
    requires
        rising(views(old(v)@)),
    ensures
        rising(views(final(v)@)),
        forall|u: Seq<char>| #[trigger]
            views(final(v)@).contains(u) == (views(old(v)@).contains(u) || u == t@),
{
    let ghost s0 = views(v@);
    let mut i: usize = 0;
    while i < v.len() && text_less(v[i].as_str(), t)
        invariant
            i <= v.len(),
            views(v@) == s0,
            rising(s0),
            forall|j: int| 0 <= j < i ==> text_below(#[trigger] s0[j], t@),
        decreases v.len() - i,
    {
        assert(s0[i as int] == v@[i as int]@);
        i += 1;
    }
    assert(s0.len() == v@.len());
    if i < v.len() && same(v[i].as_str(), t) {
        assert(s0[i as int] == t@);
        assert(s0.contains(s0[i as int]));
    } else {
        proof {
            if i < s0.len() {
                assert(s0[i as int] == v@[i as int]@);
                lemma_below_total(s0[i as int], t@);
            }
        }
        v.insert(i, copy(t));
        proof {
            let s1 = views(v@);
            assert(s1 =~= s0.insert(i as int, t@));
            lemma_rising_insert(s0, i as int, t@);
        }
    }
}

proof fn lemma_rising_insert(s: Seq<Seq<char>>, i: int, t: Seq<char>)
    requires
        rising(s),
        0 <= i <= s.len(),
        forall|j: int| 0 <= j < i ==> text_below(#[trigger] s[j], t),
        i < s.len() ==> text_below(t, s[i]),
    ensures
        rising(s.insert(i, t)),
        forall|u: Seq<char>| #[trigger] s.insert(i, t).contains(u) == (s.contains(u) || u == t),
{
    let r = s.insert(i, t);
    assert forall|q: int| i <= q < s.len() implies text_below(t, #[trigger] s[q]) by {
        if q > i {
            assert(text_below(s[i], s[q]));
            lemma_below_transitive(t, s[i], s[q]);
        }
    }
    assert forall|p: int, q: int| 0 <= p < q < r.len() implies text_below(
        #[trigger] r[p],
        #[trigger] r[q],
    ) by {
        if q < i {
            assert(r[p] == s[p] && r[q] == s[q]);
        } else if q == i {
            assert(r[p] == s[p]);
        } else if p < i {
            assert(r[p] == s[p] && r[q] == s[q - 1]);
        } else if p == i {
            assert(r[q] == s[q - 1]);
        } else {
            assert(r[p] == s[p - 1] && r[q] == s[q - 1]);
        }
    }
    assert forall|u: Seq<char>| #[trigger] r.contains(u) == (s.contains(u) || u == t) by {
        if r.contains(u) {
            let j = choose|j: int| 0 <= j < r.len() && r[j] == u;
            if j < i {
                assert(s[j] == u);
            } else if j > i {
                assert(s[j - 1] == u);
            }
        }
        if s.contains(u) {
            let j = choose|j: int| 0 <= j < s.len() && s[j] == u;
            if j < i {
                assert(r[j] == u);
            } else {
                assert(r[j + 1] == u);
            }
        }
        if u == t {
            assert(r[i] == t);
        }
    }
}

/// No text stands twice in an ascending list.
pub proof fn law_rising_without_repeats(s: Seq<Seq<char>>)
    requires
        rising(s),
    ensures
        s.no_duplicates(),
{
    assert forall|i: int, j: int| 0 <= i < s.len() && 0 <= j < s.len() && i != j implies s[i]
        != s[j] by {
        lemma_below_irreflexive(s[i]);
        if i < j {
            assert(text_below(s[i], s[j]));
        } else {
            assert(text_below(s[j], s[i]));
        }
    }
}

// ── Tables under each other ────────────────────────────────────────────

/// What tables mean.
pub open spec fn table_views(v: Seq<Table>) -> Seq<TableView> {
    v.map_values(|t: Table| t@)
}

/// The names so far with further names, each once and in the order in which they
/// came.
pub open spec fn merged_names(have: Seq<Seq<char>>, more: Seq<Seq<char>>) -> Seq<Seq<char>>
    decreases more.len(),
{
    if more.len() == 0 {
        have
    } else {
        let before = merged_names(have, more.drop_last());
        if before.contains(more.last()) {
            before
        } else {
            before.push(more.last())
        }
    }
}

/// The names of all tables, each once and in the order in which they came.
pub open spec fn union_names(tables: Seq<TableView>) -> Seq<Seq<char>>
    decreases tables.len(),
{
    if tables.len() == 0 {
        Seq::<Seq<char>>::empty()
    } else {
        merged_names(union_names(tables.drop_last()), tables.last().names)
    }
}

/// The kind that a column has in the tables so far, where it stands in one; real
/// numbers where the kinds differ.
pub open spec fn union_variant(tables: Seq<TableView>, name: Seq<char>) -> Option<Variant>
    decreases tables.len(),
{
    if tables.len() == 0 {
        None
    } else {
        let before = union_variant(tables.drop_last(), name);
        match column_in(tables.last(), name) {
            None => before,
            Some(c) => match before {
                None => Some(c.variant),
                Some(v) => if v == c.variant {
                    before
                } else {
                    Some(Variant::F64)
                },
            },
        }
    }
}

/// The kind of a column of the whole. No whole number stands for a missing one, so
/// whole numbers that some table lacks become real numbers.
pub open spec fn wanted(tables: Seq<TableView>, name: Seq<char>) -> Variant {
    match union_variant(tables, name) {
        Some(v) => if v == Variant::I64 && !everywhere(tables, name) {
            Variant::F64
        } else {
            v
        },
        None => Variant::F64,
    }
}

/// The cells that one table gives to a column of the whole.
pub open spec fn part_cells(t: TableView, name: Seq<char>, want: Variant) -> Seq<CellView> {
    match column_in(t, name) {
        Some(c) => coerced(c, want),
        None => Seq::new(t.rows, |i: int| null_cell(want)),
    }
}

/// The cells of a column of the whole.
pub open spec fn union_cells(tables: Seq<TableView>, name: Seq<char>, want: Variant) -> Seq<
    CellView,
>
    decreases tables.len(),
{
    if tables.len() == 0 {
        Seq::<CellView>::empty()
    } else {
        union_cells(tables.drop_last(), name, want) + part_cells(tables.last(), name, want)
    }
}

/// Does every table have the column?
pub open spec fn everywhere(tables: Seq<TableView>, name: Seq<char>) -> bool {
    forall|i: int| 0 <= i < tables.len() ==> column_in(#[trigger] tables[i], name) is Some
}

/// A column of the whole.
pub open spec fn union_column(tables: Seq<TableView>, name: Seq<char>) -> ColView {
    ColView { variant: wanted(tables, name), cells: union_cells(tables, name, wanted(tables, name)) }
}

/// How many rows the tables have together.
pub open spec fn row_total(tables: Seq<TableView>) -> nat
    decreases tables.len(),
{
    if tables.len() == 0 {
        0
    } else {
        row_total(tables.drop_last()) + tables.last().rows
    }
}

/// The tables under each other. Without a column there is no row.
pub open spec fn union_view(tables: Seq<TableView>) -> TableView {
    TableView {
        names: union_names(tables),
        columns: union_names(tables).map_values(|n: Seq<char>| union_column(tables, n)),
        rows: if union_names(tables).len() == 0 {
            0
        } else {
            row_total(tables)
        },
    }
}

proof fn lemma_union_len(tables: Seq<TableView>, name: Seq<char>, want: Variant)
    requires
        forall|i: int| 0 <= i < tables.len() ==> table_wf(#[trigger] tables[i]),
    ensures
        union_cells(tables, name, want).len() == row_total(tables),
    decreases tables.len(),
{
    if tables.len() > 0 {
        let front = tables.drop_last();
        assert forall|i: int| 0 <= i < front.len() implies table_wf(#[trigger] front[i]) by {
            assert(front[i] == tables[i]);
        }
        lemma_union_len(front, name, want);
        let last = tables[tables.len() - 1];
        assert(table_wf(last));
        lemma_place(last.names, name);
    }
}

/// Adds the names that are not there yet.
fn merge_names(all: &mut Vec<String>, more: &Vec<String>)
    ensures
        views(final(all)@) == merged_names(views(old(all)@), views(more@)),
{
    let ghost have = views(all@);
    let ghost ms = views(more@);
    let mut i: usize = 0;
    assert(ms.take(0) =~= Seq::<Seq<char>>::empty());
    while i < more.len()
        invariant
            i <= more.len(),
            ms == views(more@),
            views(all@) == merged_names(have, ms.take(i as int)),
        decreases more.len() - i,
    {
        assert(ms.take(i + 1).drop_last() =~= ms.take(i as int));
        assert(ms.take(i + 1).last() == more@[i as int]@);
        if !crate::text::any_same(all.as_slice(), more[i].as_str()) {
            let s = copy(more[i].as_str());
            proof {
                lemma_views_push(all@, s);
            }
            all.push(s);
        }
        i += 1;
    }
    assert(ms.take(i as int) =~= ms);
}

/// The kind of a column of the whole.
fn find_wanted(tables: &Vec<Table>, name: &str) -> (r: Variant)
    requires
        forall|i: int| 0 <= i < tables@.len() ==> table_wf((#[trigger] tables@[i])@),
    ensures
        r == wanted(table_views(tables@), name@),
{
    let ghost ts = table_views(tables@);
    let mut found: Option<Variant> = None;
    let mut all: bool = true;
    let mut i: usize = 0;
    assert(ts.take(0) =~= Seq::<TableView>::empty());
    while i < tables.len()
        invariant
            i <= tables.len(),
            ts == table_views(tables@),
            forall|j: int| 0 <= j < tables@.len() ==> table_wf((#[trigger] tables@[j])@),
            found == union_variant(ts.take(i as int), name@),
            all ==> forall|j: int| 0 <= j < i ==> column_in(#[trigger] ts[j], name@) is Some,
            !all ==> !everywhere(ts, name@),
        decreases tables.len() - i,
    {
        assert(ts.take(i + 1).drop_last() =~= ts.take(i as int));
        assert(ts.take(i + 1).last() == tables@[i as int]@);
        assert(ts[i as int] == tables@[i as int]@);
        assert(table_wf(tables@[i as int]@));
        match tables[i].column(name) {
            None => {
                assert(column_in(ts[i as int], name@) is None);
                all = false;
            },
            Some(c) => {
                let v = c.variant();
                match found {
                    None => {
                        found = Some(v);
                    },
                    Some(prev) => {
                        if prev != v {
                            found = Some(Variant::F64);
                        }
                    },
                }
            },
        }
        i += 1;
    }
    assert(ts.take(i as int) =~= ts);
    match found {
        Some(v) => if v == Variant::I64 && !all {
            Variant::F64
        } else {
            v
        },
        None => Variant::F64,
    }
}

/// Adds the cells of a column, as cells of the kind that `acc` has.
fn add_cells(acc: &mut Column, c: &Column)
    requires
        old(acc)@.variant == c@.variant || old(acc)@.variant == Variant::F64,
    ensures
        final(acc)@.variant == old(acc)@.variant,
        final(acc)@.cells == old(acc)@.cells + coerced(c@, old(acc)@.variant),
{
    let ghost before = acc@.cells;
    let want = acc.variant();
    let ghost give = coerced(c@, want);
    let n: usize = c.len();
    let mut i: usize = 0;
    assert(before + give.take(0) =~= before);
    while i < n
        invariant
            i <= n,
            n == c@.cells.len(),
            acc@.variant == want,
            want == c@.variant || want == Variant::F64,
            give == coerced(c@, want),
            acc@.cells == before + give.take(i as int),
        decreases n - i,
    {
        let ghost now = acc@.cells;
        if want == c.variant() {
            let pushed = acc.push_from(c, i);
            assert(pushed is Ok);
        } else {
            let r = c.widened_at(i);
            match acc {
                Column::F64(d) => {
                    d.push(r);
                },
                _ => {},
            }
            assert(acc@.cells =~= now.push(CellView::F64(r@)));
        }
        i += 1;
        assert(acc@.cells =~= before + give.take(i as int));
    }
    assert(give.take(i as int) =~= give);
}

/// Adds missing cells; the column does not hold whole numbers.
fn add_nulls(acc: &mut Column, n: usize)
    requires
        old(acc)@.variant != Variant::I64,
    ensures
        final(acc)@.variant == old(acc)@.variant,
        final(acc)@.cells == old(acc)@.cells + Seq::new(
            n as nat,
            |i: int| null_cell(old(acc)@.variant),
        ),
{
    let ghost before = acc@.cells;
    let ghost want = acc@.variant;
    let mut i: usize = 0;
    assert(before + Seq::new(0, |j: int| null_cell(want)) =~= before);
    while i < n
        invariant
            i <= n,
            want != Variant::I64,
            acc@.variant == want,
            acc@.cells == before + Seq::new(i as nat, |j: int| null_cell(want)),
        decreases n - i,
    {
        let ghost now = acc@.cells;
        match acc {
            Column::Str(d) => {
                d.push(StrCell { text: None, real: missing_real() });
            },
            Column::F64(d) => {
                d.push(missing_real());
            },
            Column::I64(_) => {},
        }
        assert(acc@.cells =~= now.push(null_cell(want)));
        i += 1;
        assert(acc@.cells =~= before + Seq::new(i as nat, |j: int| null_cell(want)));
    }
}

proof fn lemma_variant_here(tables: Seq<TableView>, name: Seq<char>, i: int)
    requires
        0 <= i < tables.len(),
        column_in(tables[i], name) is Some,
    ensures
        union_variant(tables, name) == Some(column_in(tables[i], name)->Some_0.variant)
            || union_variant(tables, name) == Some(Variant::F64),
    decreases tables.len(),
{
    let front = tables.drop_last();
    if i < front.len() {
        assert(front[i] == tables[i]);
        lemma_variant_here(front, name, i);
    }
}

/// One column of the whole.
fn build_column(tables: &Vec<Table>, name: &str) -> (r: Column)
    requires
        forall|i: int| 0 <= i < tables@.len() ==> table_wf((#[trigger] tables@[i])@),
    ensures
        r@ == union_column(table_views(tables@), name@),
{
    let ghost ts = table_views(tables@);
    let want = find_wanted(tables, name);
    let mut acc = Column::empty(want);
    let mut i: usize = 0;
    assert(ts.take(0) =~= Seq::<TableView>::empty());
    while i < tables.len()
        invariant
            i <= tables.len(),
            ts == table_views(tables@),
            forall|j: int| 0 <= j < tables@.len() ==> table_wf((#[trigger] tables@[j])@),
            want == wanted(ts, name@),
            acc@.variant == want,
            acc@.cells == union_cells(ts.take(i as int), name@, want),
        decreases tables.len() - i,
    {
        assert(ts.take(i + 1).drop_last() =~= ts.take(i as int));
        assert(ts.take(i + 1).last() == tables@[i as int]@);
        assert(ts[i as int] == tables@[i as int]@);
        assert(table_wf(tables@[i as int]@));
        match tables[i].column(name) {
            Some(c) => {
                proof {
                    lemma_variant_here(ts, name@, i as int);
                }
                add_cells(&mut acc, c);
            },
            None => {
                assert(column_in(ts[i as int], name@) is None);
                assert(!everywhere(ts, name@));
                add_nulls(&mut acc, tables[i].num_rows());
            },
        }
        i += 1;
    }
    assert(ts.take(i as int) =~= ts);
    acc
}

impl Table {
    /// The tables under each other, column by column. A cell that a table does not
    /// have is missing. A column whose kinds differ becomes one of real numbers, and so
    /// does a column of whole numbers that some table lacks.
    pub fn union_by_name(tables: &Vec<Table>) -> (r: Result<Table, AssembleError>)
        requires
            forall|i: int| 0 <= i < tables@.len() ==> table_wf((#[trigger] tables@[i])@),
        ensures
            r matches Ok(t) && t@ == union_view(table_views(tables@)) && table_wf(t@),
    {
        let ghost ts = table_views(tables@);
        let mut names: Vec<String> = Vec::new();
        let mut i: usize = 0;
        assert(ts.take(0) =~= Seq::<TableView>::empty());
        assert(views(names@) =~= Seq::<Seq<char>>::empty());
        while i < tables.len()
            invariant
                i <= tables.len(),
                ts == table_views(tables@),
                views(names@) == union_names(ts.take(i as int)),
            decreases tables.len() - i,
        {
            assert(ts.take(i + 1).drop_last() =~= ts.take(i as int));
            assert(ts.take(i + 1).last() == tables@[i as int]@);
            merge_names(&mut names, &tables[i].names);
            i += 1;
        }
        assert(ts.take(i as int) =~= ts);
        let ghost ns = views(names@);
        let mut columns: Vec<Column> = Vec::new();
        let mut k: usize = 0;
        assert(ns.take(0) =~= Seq::<Seq<char>>::empty());
        while k < names.len()
            invariant
                k <= names.len(),
                forall|j: int| 0 <= j < tables@.len() ==> table_wf((#[trigger] tables@[j])@),
                ts == table_views(tables@),
                ns == views(names@),
                ns == union_names(ts),
                columns@.len() == k,
                forall|j: int|
                    0 <= j < k ==> (#[trigger] columns@[j])@ == union_column(ts, ns[j]),
            decreases names.len() - k,
        {
            assert(ns.take(k + 1).drop_last() =~= ns.take(k as int));
            assert(ns.take(k + 1).last() == names@[k as int]@);
            columns.push(build_column(tables, names[k].as_str()));
            k += 1;
        }
        assert(ns.take(k as int) =~= ns);
        let ghost cs = col_views(columns@);
        proof {
            assert(cs =~= union_view(ts).columns);
            assert forall|j: int| 0 <= j < ts.len() implies table_wf(#[trigger] ts[j]) by {
                assert(ts[j] == tables@[j]@);
            }
            assert forall|j: int| 0 <= j < cs.len() implies (#[trigger] cs[j]).cells.len()
                == row_total(ts) by {
                lemma_union_len(ts, ns[j], wanted(ts, ns[j]));
            }
            assert(ns.len() == names@.len());
            if cs.len() > 0 {
                assert(cs[0].cells.len() == row_total(ts));
            }
            lemma_no_length_fault(ns, cs, leading_rows(cs));
        }
        Table::of(names, columns)
    }
}

// ── Laws of tables ─────────────────────────────────────────────────────

proof fn lemma_merged(have: Seq<Seq<char>>, more: Seq<Seq<char>>)
    requires
        have.no_duplicates(),
    ensures
        merged_names(have, more).no_duplicates(),
        forall|n: Seq<char>| #[trigger]
            merged_names(have, more).contains(n) == (have.contains(n) || more.contains(n)),
    decreases more.len(),
{
    if more.len() > 0 {
        let front = more.drop_last();
        let before = merged_names(have, front);
        lemma_merged(have, front);
        let after = merged_names(have, more);
        assert forall|n: Seq<char>| #[trigger] after.contains(n) == (have.contains(n)
            || more.contains(n)) by {
            assert(before.contains(n) == (have.contains(n) || front.contains(n)));
            if front.contains(n) {
                let j = choose|j: int| 0 <= j < front.len() && front[j] == n;
                assert(more[j] == n);
            }
            if more.contains(n) {
                let j = choose|j: int| 0 <= j < more.len() && more[j] == n;
                if j < front.len() {
                    assert(front[j] == n);
                }
            }
            assert(more[more.len() - 1] == more.last());
            if !before.contains(more.last()) {
                let grown = before.push(more.last());
                assert(grown[before.len() as int] == more.last());
                if before.contains(n) {
                    let j = choose|j: int| 0 <= j < before.len() && before[j] == n;
                    assert(grown[j] == n);
                }
                if grown.contains(n) {
                    let j = choose|j: int| 0 <= j < grown.len() && grown[j] == n;
                    if j < before.len() {
                        assert(before[j] == n);
                    }
                }
            }
        }
        if !before.contains(more.last()) {
            let grown = before.push(more.last());
            assert forall|i: int, j: int|
                0 <= i < grown.len() && 0 <= j < grown.len() && i != j implies grown[i]
                != grown[j] by {
                if i < before.len() && j < before.len() {
                    assert(before[i] != before[j]);
                } else if i < before.len() {
                    assert(before.contains(before[i]));
                } else {
                    assert(before.contains(before[j]));
                }
            }
        }
    }
}

/// The whole has every column of every table, each once, and no other.
pub proof fn law_union_keeps_columns(tables: Seq<TableView>, name: Seq<char>)
    ensures
        union_names(tables).no_duplicates(),
        union_names(tables).contains(name) <==> exists|i: int|
            0 <= i < tables.len() && (#[trigger] tables[i]).names.contains(name),
    decreases tables.len(),
{
    if tables.len() > 0 {
        let front = tables.drop_last();
        law_union_keeps_columns(front, name);
        lemma_merged(union_names(front), tables.last().names);
        if union_names(front).contains(name) {
            let i = choose|i: int|
                0 <= i < front.len() && (#[trigger] front[i]).names.contains(name);
            assert(tables[i] == front[i]);
        }
        if tables.last().names.contains(name) {
            assert(tables[tables.len() - 1].names.contains(name));
        }
        if exists|i: int| 0 <= i < tables.len() && (#[trigger] tables[i]).names.contains(name) {
            let i = choose|i: int|
                0 <= i < tables.len() && (#[trigger] tables[i]).names.contains(name);
            if i < front.len() {
                assert(front[i] == tables[i]);
            }
        }
    }
}

/// No row is lost and none comes twice: the whole has as many rows as the tables
/// have together, and the rows of each table stand together, after those of the
/// tables before it.
pub proof fn law_union_keeps_rows(tables: Seq<TableView>, name: Seq<char>, k: int, i: int)
    requires
        forall|j: int| 0 <= j < tables.len() ==> table_wf(#[trigger] tables[j]),
        0 <= k < tables.len(),
        0 <= i < tables[k].rows,
    ensures
        union_cells(tables, name, wanted(tables, name)).len() == row_total(tables),
        row_total(tables.take(k)) + i < row_total(tables),
        union_cells(tables, name, wanted(tables, name))[row_total(tables.take(k)) + i]
            == part_cells(tables[k], name, wanted(tables, name))[i],
{
    lemma_union_len(tables, name, wanted(tables, name));
    lemma_union_row(tables, name, wanted(tables, name), k, i);
}

proof fn lemma_union_row(
    tables: Seq<TableView>,
    name: Seq<char>,
    want: Variant,
    k: int,
    i: int,
)
    requires
        forall|j: int| 0 <= j < tables.len() ==> table_wf(#[trigger] tables[j]),
        0 <= k < tables.len(),
        0 <= i < tables[k].rows,
    ensures
        row_total(tables.take(k)) + i < row_total(tables),
        union_cells(tables, name, want)[row_total(tables.take(k)) + i] == part_cells(
            tables[k],
            name,
            want,
        )[i],
    decreases tables.len(),
{
    let front = tables.drop_last();
    assert forall|j: int| 0 <= j < front.len() implies table_wf(#[trigger] front[j]) by {
        assert(front[j] == tables[j]);
    }
    lemma_union_len(front, name, want);
    if k < front.len() {
        assert(front[k] == tables[k]);
        assert(front.take(k) =~= tables.take(k));
        lemma_union_row(front, name, want, k, i);
    } else {
        assert(tables.take(k) =~= front);
        assert(table_wf(tables[k]));
        lemma_place(tables[k].names, name);
    }
}

/// A column that a table lacks is missing in all rows of that table, whatever the kind
/// of the column elsewhere.
pub proof fn law_union_fills_missing(tables: Seq<TableView>, name: Seq<char>, k: int, i: int)
    requires
        forall|j: int| 0 <= j < tables.len() ==> table_wf(#[trigger] tables[j]),
        0 <= k < tables.len(),
        0 <= i < tables[k].rows,
        column_in(tables[k], name) is None,
    ensures
        union_column(tables, name).variant != Variant::I64,
        union_column(tables, name).cells[row_total(tables.take(k)) + i] == null_cell(
            union_column(tables, name).variant,
        ),
        real_in(union_column(tables, name).cells[row_total(tables.take(k)) + i]) == missing(),
{
    assert(!everywhere(tables, name));
    lemma_union_row(tables, name, wanted(tables, name), k, i);
}

/// A single table stays as it is, where its names differ.
pub proof fn law_union_of_one(t: TableView, i: int)
    requires
        table_wf(t),
        t.names.no_duplicates(),
        0 <= i < t.names.len(),
    ensures
        union_column(seq![t], t.names[i]) == t.columns[i],
{
    let one = seq![t];
    let name = t.names[i];
    assert(one.drop_last() =~= Seq::<TableView>::empty());
    assert(one.last() == t);
    assert forall|j: int| 0 <= j < i implies #[trigger] t.names[j] != name by {}
    lemma_place_is(t.names, name, i);
    assert(union_variant(one.drop_last(), name) is None);
    assert(union_variant(one, name) == Some(t.columns[i].variant));
    assert(column_in(t, name) is Some);
    assert(everywhere(one, name));
    assert(union_cells(one.drop_last(), name, t.columns[i].variant) =~= Seq::<CellView>::empty());
    assert(Seq::<CellView>::empty() + t.columns[i].cells =~= t.columns[i].cells);
}

/// Setting a column leaves every other column as it was, and reading it gives what
/// was set.
pub proof fn law_set_column_reads_back(t: TableView, name: Seq<char>, c: ColView, other: Seq<char>)
    requires
        table_wf(t),
        set_fits(t, c),
    ensures
        column_in(with_column(t, name, c), name) == Some(c),
        other != name ==> column_in(with_column(t, name, c), other) == column_in(t, other),
{
    lemma_place(t.names, name);
    lemma_place(t.names, other);
    let u = with_column(t, name, c);
    match place(t.names, name) {
        Some(i) => {},
        None => {
            assert(u.names.drop_last() =~= t.names);
        },
    }
}

/// A column is the first of its name, and there is none exactly when no column has the
/// name.
pub proof fn law_column_is_first_of_name(t: TableView, name: Seq<char>)
    ensures
        match column_in(t, name) {
            Some(c) => exists|i: int|
                0 <= i < t.names.len() && #[trigger] t.names[i] == name && t.columns[i] == c
                    && forall|j: int| 0 <= j < i ==> #[trigger] t.names[j] != name,
            None => forall|i: int| 0 <= i < t.names.len() ==> #[trigger] t.names[i] != name,
        },
{
    lemma_place(t.names, name);
    match place(t.names, name) {
        Some(i) => {
            assert(t.names[i] == name);
        },
        None => {
            assert forall|i: int| 0 <= i < t.names.len() implies #[trigger] t.names[i] != name by {
                if t.names[i] == name {
                    assert(t.names.contains(name));
                }
            }
        },
    }
}

/// Taking rows gives, in the order asked for, the cells that stood at those places, in
/// every column.
pub proof fn law_rows_taken(t: TableView, indices: Seq<usize>, name: Seq<char>, i: int)
    requires
        table_wf(t),
        column_in(t, name) is Some,
        0 <= i < indices.len(),
    ensures
        rows_taken(t, indices).names == t.names,
        rows_taken(t, indices).rows == indices.len(),
        column_in(rows_taken(t, indices), name) matches Some(c) && c.cells.len() == indices.len()
            && c.cells[i] == column_in(t, name)->Some_0.cells[indices[i] as int] && c.variant
            == column_in(t, name)->Some_0.variant,
{
    lemma_place(t.names, name);
}

/// Cells of one kind have the same key text exactly when they hold the same text or
/// number, and a missing text has the key text of the empty one.
pub proof fn law_key_text_tells_cells_apart(
    a: Seq<char>,
    b: Seq<char>,
    n: i64,
    m: i64,
    x: RealView,
    y: RealView,
)
    ensures
        key_text(CellView::Str(Some(a), x)) == key_text(CellView::Str(Some(b), y)) <==> a == b,
        key_text(CellView::I64(n, x)) == key_text(CellView::I64(m, y)) <==> n == m,
        key_text(CellView::F64(x)) == key_text(CellView::F64(y)) <==> x.1 == y.1,
        key_text(CellView::Str(None, x)) == key_text(CellView::Str(Some(a), y)) <==> a.len() == 0,
        key_text(CellView::I64(n, x)) == key_text(CellView::Str(Some(a), y)) <==> a
            == decimal_int(n as int),
        key_text(CellView::F64(x)) == key_text(CellView::Str(Some(a), y)) <==> a == x.1,
{
    if decimal_int(n as int) == decimal_int(m as int) {
        law_decimals_differ(n, m);
    }
    if a.len() == 0 {
        assert(a =~= Seq::<char>::empty());
    }
}

/// Every cell comes through a union: as it is where the column keeps its kind, and as the
/// number that it reads as where the column becomes one of real numbers. There is no
/// third way.
pub proof fn law_union_keeps_cells(tables: Seq<TableView>, name: Seq<char>, k: int, i: int)
    requires
        forall|j: int| 0 <= j < tables.len() ==> table_wf(#[trigger] tables[j]),
        0 <= k < tables.len(),
        0 <= i < tables[k].rows,
        column_in(tables[k], name) is Some,
    ensures
        ({
            let u = union_column(tables, name);
            let c = column_in(tables[k], name)->Some_0;
            let got = u.cells[row_total(tables.take(k)) + i];
            &&& u.variant == c.variant ==> got == c.cells[i]
            &&& u.variant != c.variant ==> u.variant == Variant::F64 && match c.cells[i] {
                CellView::Str(_, r) => got == CellView::F64(r),
                CellView::I64(_, r) => got == CellView::F64(r),
                CellView::F64(r) => got == CellView::F64(r),
            }
        }),
{
    lemma_union_row(tables, name, wanted(tables, name), k, i);
    lemma_variant_here(tables, name, k);
    lemma_place(tables[k].names, name);
}

/// A column keeps its kind where all tables agree on it, but that whole numbers need to
/// stand in every table; where two tables differ it becomes one of real numbers.
pub proof fn law_union_kind(tables: Seq<TableView>, name: Seq<char>, k: int, l: int)
    requires
        0 <= k < tables.len(),
        0 <= l < tables.len(),
        column_in(tables[k], name) is Some,
        column_in(tables[l], name) is Some,
    ensures
        column_in(tables[k], name)->Some_0.variant != column_in(tables[l], name)->Some_0.variant
            ==> union_column(tables, name).variant == Variant::F64,
        (forall|j: int|
            0 <= j < tables.len() ==> (column_in(#[trigger] tables[j], name) matches Some(c)
                ==> c.variant == column_in(tables[k], name)->Some_0.variant))
            && column_in(tables[k], name)->Some_0.variant != Variant::I64 ==> union_column(
            tables,
            name,
        ).variant == column_in(tables[k], name)->Some_0.variant,
        (forall|j: int|
            0 <= j < tables.len() ==> (column_in(#[trigger] tables[j], name) matches Some(c)
                && c.variant == Variant::I64)) ==> union_column(tables, name).variant
            == Variant::I64,
{
    lemma_variant_here(tables, name, k);
    lemma_variant_here(tables, name, l);
    let v = column_in(tables[k], name)->Some_0.variant;
    if forall|j: int|
        0 <= j < tables.len() ==> (column_in(#[trigger] tables[j], name) matches Some(c)
            ==> c.variant == v) {
        lemma_one_variant(tables, name, v);
    }
    if forall|j: int|
        0 <= j < tables.len() ==> (column_in(#[trigger] tables[j], name) matches Some(c)
            && c.variant == Variant::I64) {
        lemma_one_variant(tables, name, Variant::I64);
        assert(everywhere(tables, name));
    }
}

proof fn lemma_one_variant(tables: Seq<TableView>, name: Seq<char>, v: Variant)
    requires
        forall|j: int|
            0 <= j < tables.len() ==> (column_in(#[trigger] tables[j], name) matches Some(c)
                ==> c.variant == v),
    ensures
        union_variant(tables, name) matches Some(w) ==> w == v,
    decreases tables.len(),
{
    if tables.len() > 0 {
        let front = tables.drop_last();
        assert forall|j: int| 0 <= j < front.len() implies (column_in(
            #[trigger] front[j],
            name,
        ) matches Some(c) ==> c.variant == v) by {
            assert(front[j] == tables[j]);
        }
        assert(tables[tables.len() - 1] == tables.last());
        lemma_one_variant(front, name, v);
    }
}

/// A table is refused exactly when some column has another number of cells than it should.
pub proof fn law_uneven_columns_refused(names: Seq<Seq<char>>, columns: Seq<ColView>, rows: nat)
    requires
        names.len() == columns.len(),
    ensures
        length_fault(names, columns, rows) is None <==> forall|i: int|
            0 <= i < columns.len() ==> (#[trigger] columns[i]).cells.len() == rows,
    decreases columns.len(),
{
    if forall|i: int| 0 <= i < columns.len() ==> (#[trigger] columns[i]).cells.len() == rows {
        lemma_no_length_fault(names, columns, rows);
    } else if columns.len() > 0 {
        law_uneven_columns_refused(names.drop_last(), columns.drop_last(), rows);
        if length_fault(names, columns, rows) is None {
            assert forall|i: int| 0 <= i < columns.len() implies (#[trigger] columns[i]).cells.len()
                == rows by {
                if i < columns.len() - 1 {
                    assert(columns.drop_last()[i] == columns[i]);
                }
            }
        }
    }
}

/// A union has the columns of all tables, each put together under its own name, and the
/// rows of all tables.
pub proof fn law_union_is_put_together(tables: Seq<TableView>, i: int)
    requires
        0 <= i < union_names(tables).len(),
    ensures
        union_view(tables).names == union_names(tables),
        union_view(tables).columns.len() == union_names(tables).len(),
        union_view(tables).columns[i] == union_column(tables, union_view(tables).names[i]),
        union_view(tables).rows == row_total(tables),
{
}

/// A column that is to be kept keeps its name, and any other either keeps it or gets the
/// prefix before it.
pub proof fn law_renaming_only_adds_prefix<F: Fn(&str) -> bool>(
    pred: F,
    prefix: Seq<char>,
    keep: Seq<Seq<char>>,
    before: Seq<char>,
    after: Seq<char>,
)
    requires
        renamed_by(pred, prefix, keep, before, after),
    ensures
        keep.contains(before) ==> after == before,
        after == before || after == prefix + before,
{
}

/// A number is finite exactly when its exponent is not the largest one, whatever its sign
/// and its fraction.
pub proof fn law_finite_by_exponent(sign: u64, exponent: u64, fraction: u64)
    requires
        sign <= 1,
        exponent < 2048,
        fraction < 0x10_0000_0000_0000,
    ensures
        finite(
            (sign * 0x8000_0000_0000_0000 + exponent * 0x10_0000_0000_0000 + fraction) as u64,
        ) <==> exponent != 2047,
{
    let n: int = sign * 0x8000_0000_0000_0000 + exponent * 0x10_0000_0000_0000 + fraction;
    assert(n / 0x10_0000_0000_0000 == sign * 2048 + exponent);
    assert(0 <= n < 0x1_0000_0000_0000_0000);
}

/// In the rows of a table that lacks a column of texts, no text stands there.
pub proof fn law_union_leaves_texts_out(tables: Seq<TableView>, name: Seq<char>, k: int, i: int)
    requires
        forall|j: int| 0 <= j < tables.len() ==> table_wf(#[trigger] tables[j]),
        0 <= k < tables.len(),
        0 <= i < tables[k].rows,
        column_in(tables[k], name) is None,
    ensures
        match union_column(tables, name).cells[row_total(tables.take(k)) + i] {
            CellView::Str(t, _) => t is None,
            CellView::F64(r) => !finite(r.0),
            CellView::I64(_, _) => false,
        },
{
    law_union_fills_missing(tables, name, k, i);
    assert((0x7ff8_0000_0000_0000u64 / 0x10_0000_0000_0000) % 2048 == 2047);
}

} // verus!
