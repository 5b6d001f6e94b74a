//! Tab-separated tables: reading and writing them with the `csv` crate, and
//! finding columns by name.

use crate::text::{
    copy, debug_text, joined, lowered, occurs_at, quoted, replaced, same_ignoring_case,
    split_at_each, views,
};
use vstd::prelude::*;

verus! {

/// A table: its column names, and its records, each of which can be malformed on
/// its own.
#[derive(Debug)]
pub struct Tsv {
    pub headers: Vec<String>,
    pub records: Vec<Result<Vec<String>, String>>,
}

/// What a record means.
pub open spec fn record_view(r: Result<Vec<String>, String>) -> Result<Seq<Seq<char>>, Seq<char>> {
    match r {
        Ok(fields) => Ok(views(fields@)),
        Err(e) => Err(e@),
    }
}

/// What a table means: its column names and its records.
pub type TsvView = (Seq<Seq<char>>, Seq<Result<Seq<Seq<char>>, Seq<char>>>);

impl View for Tsv {
    type V = TsvView;

    open spec fn view(&self) -> TsvView {
        (
            views(self.headers@),
            self.records@.map_values(|r: Result<Vec<String>, String>| record_view(r)),
        )
    }
}

/// The table that the `csv` crate reads from bytes, or its error message.
pub uninterp spec fn tsv_parsed(bytes: Seq<u8>) -> Result<TsvView, Seq<char>>;

/// `csv::Reader` with tabs between fields and a header line, read to its end:
/// the header, and each record or the message of its error. The result depends on
/// the bytes alone and is named [`tsv_parsed`].
#[verifier::external_body]
pub(crate) fn read_tsv(bytes: &[u8]) -> (r: Result<Tsv, String>)
    ensures
        match r {
            Ok(t) => tsv_parsed(bytes@) == Ok::<TsvView, Seq<char>>(t@),
            Err(e) => tsv_parsed(bytes@) == Err::<TsvView, Seq<char>>(e@),
        },
{
    let mut rdr = csv::ReaderBuilder::new().delimiter(b'\t').has_headers(true).from_reader(bytes);
    let headers = match rdr.headers() {
        Ok(h) => h.iter().map(String::from).collect(),
        Err(e) => return Err(e.to_string()),
    };
    let records = rdr.records().map(
        |r| r.map(|f| f.iter().map(String::from).collect()).map_err(|e| e.to_string()),
    ).collect();
    Ok(Tsv { headers, records })
}

/// Reads a table.
pub fn parse_tsv(bytes: &[u8]) -> (r: Result<Tsv, String>)
    ensures
        match r {
            Ok(t) => tsv_parsed(bytes@) == Ok::<TsvView, Seq<char>>(t@),
            Err(e) => tsv_parsed(bytes@) == Err::<TsvView, Seq<char>>(e@),
        },
{
    read_tsv(bytes)
}

// ── Records ────────────────────────────────────────────────────────────

/// Does the field hold a character that has a meaning of its own in a table?
pub open spec fn needs_quotes(s: Seq<char>) -> bool {
    exists|i: int| 0 <= i < s.len() && is_special(#[trigger] s[i])
}

/// A tab, a quote or the end of a line.
pub open spec fn is_special(c: char) -> bool {
    c == '\t' || c == '"' || c == '\n' || c == '\r'
}

/// A field as it stands in a table: between quotes where it must, with each quote
/// in it doubled.
pub open spec fn written_field(s: Seq<char>) -> Seq<char> {
    if needs_quotes(s) {
        "\""@ + replaced(s, "\""@, "\"\""@) + "\""@
    } else {
        s
    }
}

/// A record as it stands in a table: its fields with a tab between each two, and
/// the end of the line. One that would leave the line empty is a pair of quotes.
pub open spec fn written_record(fields: Seq<Seq<char>>) -> Seq<char> {
    let line = joined(fields.map_values(|s: Seq<char>| written_field(s)), "\t"@);
    if line.len() == 0 {
        "\"\""@ + "\n"@
    } else {
        line + "\n"@
    }
}

/// `csv::Writer::write_record` with tabs between fields, into memory: the line it
/// adds for the record, quotes where they are necessary.
#[verifier::external_body]
fn write_record(fields: &Vec<String>) -> (r: String)
    ensures
        r@ == written_record(views(fields@)),
{
    let mut w = csv::WriterBuilder::new().delimiter(b'\t').from_writer(Vec::new());
    match w.write_record(fields) {
        Ok(()) => String::from_utf8(w.into_inner().unwrap_or_default()).unwrap_or_default(),
        Err(_) => String::new(),
    }
}

/// The line of a table that holds the fields.
pub fn tsv_line(fields: &Vec<String>) -> (r: String)
    ensures
        r@ == written_record(views(fields@)),
{
    write_record(fields)
}

/// A piece without `c` behind a `c` is the last one that splitting at `c` gives.
proof fn lemma_split_tail(a: Seq<char>, c: char, p: Seq<char>)
    requires
        !p.contains(c),
    ensures
        split_at_each(a + seq![c] + p, c) == split_at_each(a, c).push(p),
    decreases p.len(),
{
    let s = a + seq![c] + p;
    if p.len() == 0 {
        assert(s.drop_last() =~= a);
        assert(p =~= Seq::<char>::empty());
        assert(split_at_each(s, c) =~= split_at_each(a, c).push(p));
    } else {
        assert(s.drop_last() =~= a + seq![c] + p.drop_last());
        assert(p.contains(p.last()));
        assert(!p.drop_last().contains(c)) by {
            if p.drop_last().contains(c) {
                let i = choose|i: int| 0 <= i < p.drop_last().len() && p.drop_last()[i] == c;
                assert(p[i] == c);
            }
        }
        lemma_split_tail(a, c, p.drop_last());
        assert(p.drop_last().push(p.last()) =~= p);
        assert(split_at_each(s, c) =~= split_at_each(a, c).push(p));
    }
}

/// A text without `c` is one piece.
proof fn lemma_split_one(p: Seq<char>, c: char)
    requires
        !p.contains(c),
    ensures
        split_at_each(p, c) == seq![p],
    decreases p.len(),
{
    if p.len() > 0 {
        assert(p.contains(p.last()));
        assert(!p.drop_last().contains(c)) by {
            if p.drop_last().contains(c) {
                let i = choose|i: int| 0 <= i < p.drop_last().len() && p.drop_last()[i] == c;
                assert(p[i] == c);
            }
        }
        lemma_split_one(p.drop_last(), c);
        assert(p.drop_last().push(p.last()) =~= p);
    } else {
        assert(p =~= Seq::<char>::empty());
    }
    assert(split_at_each(p, c) =~= seq![p]);
}

/// Splitting undoes joining where no piece holds the separator.
/// Pieces without the separator, joined by it, split back into the same pieces.
pub proof fn law_joined_splits_back(parts: Seq<Seq<char>>, c: char)
    requires
        parts.len() > 0,
        forall|i: int| 0 <= i < parts.len() ==> !(#[trigger] parts[i]).contains(c),
    ensures
        split_at_each(joined(parts, seq![c]), c) == parts,
    decreases parts.len(),
{
    if parts.len() == 1 {
        lemma_split_one(parts[0], c);
        assert(seq![parts[0]] =~= parts);
    } else {
        let rest = parts.drop_last();
        assert(forall|i: int| 0 <= i < rest.len() ==> (#[trigger] rest[i]) == parts[i]);
        law_joined_splits_back(rest, c);
        lemma_split_tail(joined(rest, seq![c]), c, parts.last());
        assert(rest.push(parts.last()) =~= parts);
    }
}

/// The fields of a record that holds no tab, quote or end of line, and does not
/// leave its line empty, are the pieces of its line between the tabs.
pub proof fn law_plain_fields_between_tabs(fields: Seq<Seq<char>>)
    requires
        fields.len() > 1 || fields.len() == 1 && fields[0].len() > 0,
        forall|i: int| 0 <= i < fields.len() ==> !needs_quotes(#[trigger] fields[i]),
    ensures
        written_record(fields).last() == '\n',
        split_at_each(written_record(fields).drop_last(), '\t') == fields,
{
    reveal_strlit("\t");
    reveal_strlit("\n");
    let kept = fields.map_values(|s: Seq<char>| written_field(s));
    assert(kept =~= fields);
    assert("\t"@ =~= seq!['\t']);
    assert forall|i: int| 0 <= i < fields.len() implies !(#[trigger] fields[i]).contains('\t') by {
        if fields[i].contains('\t') {
            let k = choose|k: int| 0 <= k < fields[i].len() && fields[i][k] == '\t';
            assert(is_special(fields[i][k]));
        }
    }
    law_joined_splits_back(fields, '\t');
    let line = joined(fields, "\t"@);
    if fields.len() > 1 {
        assert(line.len() >= 1);
    }
    assert(written_record(fields).drop_last() =~= line);
}

// ── Columns ────────────────────────────────────────────────────────────

/// Is the column called by one of the names, whatever the case of its letters?
pub open spec fn is_called(h: Seq<char>, names: Seq<Seq<char>>) -> bool {
    exists|i: int| 0 <= i < names.len() && lowered(h) == lowered(#[trigger] names[i])
}

/// Is `idx` the first column that is called by one of the names?
pub open spec fn first_called(headers: Seq<Seq<char>>, names: Seq<Seq<char>>, idx: int) -> bool {
    &&& 0 <= idx < headers.len()
    &&& is_called(headers[idx], names)
    &&& forall|j: int| 0 <= j < idx ==> !is_called(#[trigger] headers[j], names)
}

/// Is no column called by one of the names?
pub open spec fn none_called(headers: Seq<Seq<char>>, names: Seq<Seq<char>>) -> bool {
    forall|j: int| 0 <= j < headers.len() ==> !is_called(#[trigger] headers[j], names)
}

/// The names as a list in a message.
pub open spec fn name_list(names: Seq<Seq<char>>) -> Seq<char>
    decreases names.len(),
{
    if names.len() == 0 {
        Seq::<char>::empty()
    } else if names.len() == 1 {
        debug_text(names[0])
    } else {
        name_list(names.drop_last()) + ", "@ + debug_text(names.last())
    }
}

/// The message for a table without a needed column.
pub open spec fn missing_column(names: Seq<Seq<char>>) -> Seq<char> {
    "input TSV is missing one of the expected columns: ["@ + name_list(names) + "]"@
}

/// The index of the first column that is called by one of the names, whatever the
/// case of its letters.
pub fn find_col(headers: &Vec<String>, names: &Vec<String>) -> (r: Result<usize, String>)
    ensures
        match r {
            Ok(i) => first_called(views(headers@), views(names@), i as int),
            Err(e) => none_called(views(headers@), views(names@)) && e@ == missing_column(
                views(names@),
            ),
        },
{
    let mut i: usize = 0;
    while i < headers.len()
        invariant
            i <= headers.len(),
            forall|j: int|
                0 <= j < i ==> !is_called(#[trigger] views(headers@)[j], views(names@)),
        decreases headers.len() - i,
    {
        let mut k: usize = 0;
        assert(views(headers@)[i as int] == headers@[i as int]@);
        while k < names.len()
            invariant
                i < headers.len(),
                k <= names.len(),
                forall|j: int|
                    0 <= j < i ==> !is_called(#[trigger] views(headers@)[j], views(names@)),
                forall|j: int|
                    0 <= j < k ==> lowered(headers@[i as int]@) != lowered(
                        #[trigger] views(names@)[j],
                    ),
            decreases names.len() - k,
        {
            if same_ignoring_case(headers[i].as_str(), names[k].as_str()) {
                assert(lowered(views(headers@)[i as int]) == lowered(views(names@)[k as int]));
                return Ok(i);
            }
            k += 1;
        }
        i += 1;
    }
    let mut e: String = copy("input TSV is missing one of the expected columns: [");
    let l = show_names(names);
    e.append(l.as_str());
    e.append("]");
    Err(e)
}

/// The names as a list in a message.
fn show_names(names: &Vec<String>) -> (r: String)
    ensures
        r@ == name_list(views(names@)),
{
    let ghost all = views(names@);
    let mut s: String = String::new();
    let mut i: usize = 0;
    while i < names.len()
        invariant
            i <= names.len(),
            all == views(names@),
            s@ == name_list(all.take(i as int)),
        decreases names.len() - i,
    {
        let ghost t = all.take(i + 1);
        assert(t.drop_last() =~= all.take(i as int));
        assert(t.last() == names@[i as int]@);
        let q = quoted(names[i].as_str());
        if i > 0 {
            s.append(", ");
        }
        s.append(q.as_str());
        assert(i == 0 ==> s@ =~= debug_text(t[0]));
        i += 1;
    }
    assert(all.take(i as int) =~= all);
    s
}

/// A list of one name.
pub fn one_name(a: &str) -> (r: Vec<String>)
    ensures
        views(r@) == seq![a@],
{
    let r: Vec<String> = vec![copy(a)];
    assert(views(r@) =~= seq![a@]);
    r
}

/// A list of two names.
pub fn two_names(a: &str, b: &str) -> (r: Vec<String>)
    ensures
        views(r@) == seq![a@, b@],
{
    let r: Vec<String> = vec![copy(a), copy(b)];
    assert(views(r@) =~= seq![a@, b@]);
    r
}

/// A quoted text with each pair of quotes read as one.
pub open spec fn undoubled(s: Seq<char>) -> Seq<char>
    decreases s.len(),
{
    if s.len() == 0 {
        s
    } else if s.len() > 1 && s[0] == '"' && s[1] == '"' {
        seq!['"'] + undoubled(s.skip(2))
    } else {
        seq![s[0]] + undoubled(s.drop_first())
    }
}

proof fn lemma_undoubled(s: Seq<char>)
    ensures
        undoubled(replaced(s, "\""@, "\"\""@)) == s,
    decreases s.len(),
{
    reveal_strlit("\"");
    reveal_strlit("\"\"");
    let one = "\""@;
    let two = "\"\""@;
    assert(one =~= seq!['"']);
    assert(two =~= seq!['"', '"']);
    if s.len() > 0 {
        let rest = replaced(s.drop_first(), one, two);
        lemma_undoubled(s.drop_first());
        assert(s.skip(1) =~= s.drop_first());
        if s[0] == '"' {
            assert(s.subrange(0, 1) =~= one);
            assert(occurs_at(s, one, 0));
            let r = two + rest;
            assert(replaced(s, one, two) == r);
            assert(r.skip(2) =~= rest);
            assert(seq!['"'] + s.drop_first() =~= s);
        } else {
            assert(s.subrange(0, 1)[0] == s[0]);
            assert(!occurs_at(s, one, 0));
            let r = seq![s[0]] + rest;
            assert(replaced(s, one, two) == r);
            assert(r.drop_first() =~= rest);
            assert(seq![s[0]] + s.drop_first() =~= s);
        }
    }
}

/// A written field reads back: one with a tab, a quote or a line end stands in quotes,
/// each of its own quotes doubled, and any other stands as it is.
pub proof fn law_written_field_reads_back(s: Seq<char>)
    ensures
        !needs_quotes(s) ==> written_field(s) == s,
        needs_quotes(s) ==> {
            let w = written_field(s);
            &&& w.len() >= 2
            &&& w[0] == '"' && w.last() == '"'
            &&& undoubled(w.subrange(1, w.len() - 1)) == s
        },
        needs_quotes(s) <==> s.contains('\t') || s.contains('"') || s.contains('\n') || s.contains(
            '\r',
        ),
{
    lemma_undoubled(s);
    if needs_quotes(s) {
        reveal_strlit("\"");
        let w = written_field(s);
        let inner = replaced(s, "\""@, "\"\""@);
        assert(w.subrange(1, w.len() - 1) =~= inner);
        let i = choose|i: int| 0 <= i < s.len() && is_special(#[trigger] s[i]);
        assert(s.contains(s[i]));
    }
    if s.contains('\t') {
        assert(is_special(s[s.index_of('\t')]));
    }
    if s.contains('"') {
        assert(is_special(s[s.index_of('"')]));
    }
    if s.contains('\n') {
        assert(is_special(s[s.index_of('\n')]));
    }
    if s.contains('\r') {
        assert(is_special(s[s.index_of('\r')]));
    }
}

} // verus!
