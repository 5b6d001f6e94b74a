//! Text as sequences of characters: the operations on strings that the rest
//! of the library is written in, each stated over `Seq<char>`.

use vstd::prelude::*;

verus! {

/// `String::push` of std: appends one character to the end.
pub assume_specification[ String::push ](s: &mut String, c: char)
    ensures
        final(s)@ == old(s)@.push(c),
;

// ── Characters ─────────────────────────────────────────────────────────

/// The characters that Unicode lists as white space.
pub open spec fn is_white(c: char) -> bool {
    ||| '\u{0009}' <= c <= '\u{000D}'
    ||| c == ' '
    ||| c == '\u{0085}'
    ||| c == '\u{00A0}'
    ||| c == '\u{1680}'
    ||| '\u{2000}' <= c <= '\u{200A}'
    ||| c == '\u{2028}'
    ||| c == '\u{2029}'
    ||| c == '\u{202F}'
    ||| c == '\u{205F}'
    ||| c == '\u{3000}'
}

/// Is `c` white space?
pub fn white(c: char) -> (r: bool)
    ensures
        r == is_white(c),
{
    ('\u{0009}' <= c && c <= '\u{000D}') || c == ' ' || c == '\u{0085}' || c == '\u{00A0}' || c
        == '\u{1680}' || ('\u{2000}' <= c && c <= '\u{200A}') || c == '\u{2028}' || c == '\u{2029}'
        || c == '\u{202F}' || c == '\u{205F}' || c == '\u{3000}'
}

/// The ASCII lower-case form of `c`; every other character is its own.
pub open spec fn lower(c: char) -> char {
    if 'A' <= c <= 'Z' {
        ((c as u32) + 32) as char
    } else {
        c
    }
}

/// Every character of `s` in its ASCII lower-case form.
pub open spec fn lowered(s: Seq<char>) -> Seq<char> {
    s.map_values(|c: char| lower(c))
}

/// An optional text.
pub open spec fn opt_text(o: Option<&str>) -> Option<Seq<char>> {
    match o {
        Some(s) => Some(s@),
        None => None,
    }
}

/// Is `c` a decimal digit?
pub open spec fn is_digit(c: char) -> bool {
    '0' <= c <= '9'
}

/// The value of a decimal digit.
pub open spec fn digit_value(c: char) -> nat {
    (c as u32 - '0' as u32) as nat
}

/// The character of a decimal digit.
pub open spec fn digit_char(d: nat) -> char {
    ('0' as u32 + d) as char
}

/// The lower-case hexadecimal digit of a value below sixteen.
pub open spec fn hex_lower(d: nat) -> char {
    if d < 10 {
        ('0' as u32 + d) as char
    } else {
        ('a' as u32 + (d - 10)) as char
    }
}

/// The upper-case hexadecimal digit of a value below sixteen.
pub open spec fn hex_upper(d: nat) -> char {
    if d < 10 {
        ('0' as u32 + d) as char
    } else {
        ('A' as u32 + (d - 10)) as char
    }
}

// ── Whole strings ──────────────────────────────────────────────────────

/// The texts of a sequence of strings.
pub open spec fn views(v: Seq<String>) -> Seq<Seq<char>> {
    v.map_values(|s: String| s@)
}

/// The characters of `s`, in order.
pub fn chars_of(s: &str) -> (r: Vec<char>)
    ensures
        r@ == s@,
{
    let mut out: Vec<char> = Vec::new();
    for c in it: s.chars()
        invariant
            out@ == it.seq().take(it.index()),
            it.seq() == s@,
    {
        out.push(c);
    }
    out
}

/// The string made of the characters `lo..hi` of `cs`.
pub fn substring(cs: &[char], lo: usize, hi: usize) -> (r: String)
    requires
        lo <= hi <= cs@.len(),
    ensures
        r@ == cs@.subrange(lo as int, hi as int),
{
    let mut out: String = String::new();
    let mut i: usize = lo;
    while i < hi
        invariant
            lo <= i <= hi <= cs@.len(),
            out@ == cs@.subrange(lo as int, i as int),
        decreases hi - i,
    {
        out.push(cs[i]);
        i += 1;
        assert(cs@.subrange(lo as int, i as int) =~= cs@.subrange(lo as int, i - 1).push(
            cs@[i - 1],
        ));
    }
    out
}

/// Do the two strings hold the same text?
pub fn same(a: &str, b: &str) -> (r: bool)
    ensures
        r == (a@ == b@),
{
    a.to_owned() == b.to_owned()
}

/// A copy of `s`.
pub fn copy(s: &str) -> (r: String)
    ensures
        r@ == s@,
{
    s.to_owned()
}

/// Appending a string appends its text.
pub proof fn lemma_views_push(v: Seq<String>, s: String)
    ensures
        views(v.push(s)) == views(v).push(s@),
{
    assert(views(v.push(s)) =~= views(v).push(s@));
}

/// Copies of the strings of `v`.
pub fn copies(v: &[String]) -> (r: Vec<String>)
    ensures
        views(r@) == views(v@),
{
    let mut out: Vec<String> = Vec::new();
    let mut i: usize = 0;
    while i < v.len()
        invariant
            i <= v.len(),
            views(out@) == views(v@).take(i as int),
        decreases v.len() - i,
    {
        proof {
            lemma_views_push(out@, v@[i as int]);
        }
        let c = copy(v[i].as_str());
        proof {
            lemma_views_push(out@, c);
        }
        out.push(c);
        i += 1;
        assert(views(v@).take(i as int) =~= views(v@).take(i - 1).push(v@[i - 1]@));
    }
    assert(views(v@).take(i as int) =~= views(v@));
    out
}

/// Does `s` begin with `p`?
pub open spec fn starts(s: Seq<char>, p: Seq<char>) -> bool {
    p.len() <= s.len() && s.take(p.len() as int) == p
}

/// Does `s` end with `p`?
pub open spec fn ends(s: Seq<char>, p: Seq<char>) -> bool {
    p.len() <= s.len() && s.skip(s.len() - p.len()) == p
}

/// Does `p` stand in `s` at position `i`?
pub open spec fn occurs_at(s: Seq<char>, p: Seq<char>, i: int) -> bool {
    0 <= i && i + p.len() <= s.len() && s.subrange(i, i + p.len()) == p
}

/// Does `p` stand anywhere in `s`?
pub open spec fn occurs(s: Seq<char>, p: Seq<char>) -> bool {
    exists|i: int| occurs_at(s, p, i)
}

/// Does `p` stand in `s` at position `i`?
pub fn stands_at(s: &[char], p: &[char], i: usize) -> (r: bool)
    ensures
        r == occurs_at(s@, p@, i as int),
{
    if p.len() > s.len() || i > s.len() - p.len() {
        return false;
    }
    let mut k: usize = 0;
    while k < p.len()
        invariant
            k <= p.len(),
            p.len() <= s.len(),
            i <= s.len() - p.len(),
            forall|j: int| 0 <= j < k ==> s@[i + j] == p@[j],
        decreases p.len() - k,
    {
        if s[i + k] != p[k] {
            assert(s@.subrange(i as int, i + p@.len())[k as int] != p@[k as int]);
            return false;
        }
        k += 1;
    }
    assert(s@.subrange(i as int, i + p@.len()) =~= p@);
    true
}

/// The first place at `from` or later where `p` stands in `s`.
pub open spec fn found_from(s: Seq<char>, p: Seq<char>, from: int) -> Option<int>
    decreases s.len() + 1 - from,
{
    if from < 0 || from + p.len() > s.len() {
        None
    } else if occurs_at(s, p, from) {
        Some(from)
    } else {
        found_from(s, p, from + 1)
    }
}

/// The first place where `p` stands in `s`.
pub open spec fn found(s: Seq<char>, p: Seq<char>) -> Option<int> {
    found_from(s, p, 0)
}

/// The first place where `p` stands in `s`.
pub fn find(s: &str, p: &str) -> (r: Option<usize>)
    ensures
        match r {
            Some(i) => found(s@, p@) == Some(i as int) && i + p@.len() <= s@.len() && i + p@.len()
                <= usize::MAX,
            None => found(s@, p@) is None,
        },
{
    let a = chars_of(s);
    let b = chars_of(p);
    if b.len() > a.len() {
        return None;
    }
    let mut i: usize = 0;
    while i <= a.len() - b.len()
        invariant
            a@ == s@,
            b@ == p@,
            b.len() <= a.len(),
            i <= a.len() - b.len() + 1,
            found(s@, p@) == found_from(s@, p@, i as int),
        decreases a.len() - b.len() + 1 - i,
    {
        if stands_at(a.as_slice(), b.as_slice(), i) {
            return Some(i);
        }
        if i == a.len() - b.len() {
            assert(found_from(s@, p@, i + 1) is None);
            return None;
        }
        i += 1;
    }
    None
}

/// Does `s` begin with `p`?
pub fn starts_with(s: &str, p: &str) -> (r: bool)
    ensures
        r == starts(s@, p@),
{
    let a = chars_of(s);
    let b = chars_of(p);
    assert(b@.len() <= a@.len() ==> a@.subrange(0, b@.len() as int) =~= a@.take(b@.len() as int));
    stands_at(a.as_slice(), b.as_slice(), 0)
}

/// Does `s` end with `p`?
pub fn ends_with(s: &str, p: &str) -> (r: bool)
    ensures
        r == ends(s@, p@),
{
    let a = chars_of(s);
    let b = chars_of(p);
    if b.len() > a.len() {
        return false;
    }
    let at: usize = a.len() - b.len();
    assert(a@.subrange(at as int, at + b@.len()) =~= a@.skip(at as int));
    stands_at(a.as_slice(), b.as_slice(), at)
}

/// Does `p` stand anywhere in `s`?
pub fn contains(s: &str, p: &str) -> (r: bool)
    ensures
        r == occurs(s@, p@),
{
    let a = chars_of(s);
    let b = chars_of(p);
    if b.len() > a.len() {
        return false;
    }
    let last: usize = a.len() - b.len();
    let mut i: usize = 0;
    loop
        invariant
            a@ == s@,
            b@ == p@,
            b.len() <= a.len(),
            last == a.len() - b.len(),
            i <= last,
            forall|j: int| 0 <= j < i ==> !occurs_at(s@, p@, j),
        decreases last - i,
    {
        if stands_at(a.as_slice(), b.as_slice(), i) {
            return true;
        }
        if i == last {
            return false;
        }
        i += 1;
    }
}

/// Is `c` one of the characters of `s`?
pub fn contains_char(s: &str, c: char) -> (r: bool)
    ensures
        r == s@.contains(c),
{
    let a = chars_of(s);
    let mut i: usize = 0;
    while i < a.len()
        invariant
            i <= a.len(),
            a@ == s@,
            forall|j: int| 0 <= j < i ==> a@[j] != c,
        decreases a.len() - i,
    {
        if a[i] == c {
            return true;
        }
        i += 1;
    }
    false
}

/// Is some string of `v` equal to `s`?
pub fn any_same(v: &[String], s: &str) -> (r: bool)
    ensures
        r == views(v@).contains(s@),
{
    let mut i: usize = 0;
    while i < v.len()
        invariant
            i <= v.len(),
            forall|j: int| 0 <= j < i ==> views(v@)[j] != s@,
        decreases v.len() - i,
    {
        if same(v[i].as_str(), s) {
            assert(views(v@)[i as int] == s@);
            return true;
        }
        i += 1;
    }
    false
}

/// What `Debug` formatting of std prints for a text: the text in double quotes,
/// with the characters that it escapes.
pub uninterp spec fn debug_text(s: Seq<char>) -> Seq<char>;

/// Does the text hold printable characters of the ASCII set only, and neither a double
/// quote nor a backslash?
pub open spec fn prints_as_is(s: Seq<char>) -> bool {
    forall|i: int|
        0 <= i < s.len() ==> ' ' <= #[trigger] s[i] <= '~' && s[i] != '"' && s[i] != '\\'
}

/// `s` as `{:?}` of std's `format` prints it: in double quotes. Printable characters of
/// the ASCII set other than the double quote and the backslash stay as they are.
#[verifier::external_body]
pub(crate) fn quoted(s: &str) -> (r: String)
    ensures
        r@ == debug_text(s@),
        prints_as_is(s@) ==> r@ == seq!['"'] + s@ + seq!['"'],
{
    format!("{:?}", s)
}

// ── Case ───────────────────────────────────────────────────────────────

/// What `str::to_lowercase` of std makes of a text.
pub uninterp spec fn unicode_lower(s: Seq<char>) -> Seq<char>;

/// Does the text hold characters of the ASCII set only?
pub open spec fn ascii_text(s: Seq<char>) -> bool {
    forall|i: int| 0 <= i < s.len() ==> (#[trigger] s[i] as u32) < 128
}

/// `str::to_lowercase`: the text with every letter in lower case, by the rules of
/// Unicode. It depends on the text alone and is named [`unicode_lower`]; a text of
/// ASCII characters only has its capital letters replaced one by one.
#[verifier::external_body]
pub(crate) fn to_lowercase(s: &str) -> (r: String)
    ensures
        r@ == unicode_lower(s@),
        ascii_text(s@) ==> r@ == lowered(s@),
{
    s.to_lowercase()
}

/// The ASCII lower-case form of `c`.
pub fn lower_char(c: char) -> (r: char)
    ensures
        r == lower(c),
{
    if 'A' <= c && c <= 'Z' {
        let b: u8 = (c as u32 + 32) as u8;
        b as char
    } else {
        c
    }
}

/// `s` with every ASCII letter in lower case.
pub fn to_lower(s: &str) -> (r: String)
    ensures
        r@ == lowered(s@),
{
    let a = chars_of(s);
    let mut out: String = String::new();
    let mut i: usize = 0;
    while i < a.len()
        invariant
            i <= a.len(),
            a@ == s@,
            out@ == lowered(s@).take(i as int),
        decreases a.len() - i,
    {
        out.push(lower_char(a[i]));
        i += 1;
        assert(lowered(s@).take(i as int) =~= lowered(s@).take(i - 1).push(lower(s@[i - 1])));
    }
    assert(lowered(s@).take(i as int) =~= lowered(s@));
    out
}

/// Do the two strings agree when the case of ASCII letters is ignored?
pub fn same_ignoring_case(a: &str, b: &str) -> (r: bool)
    ensures
        r == (lowered(a@) == lowered(b@)),
{
    let x = to_lower(a);
    let y = to_lower(b);
    same(x.as_str(), y.as_str())
}

// ── Trimming ───────────────────────────────────────────────────────────

/// `s` without its leading white space.
pub open spec fn trimmed_start(s: Seq<char>) -> Seq<char>
    decreases s.len(),
{
    if s.len() > 0 && is_white(s[0]) {
        trimmed_start(s.drop_first())
    } else {
        s
    }
}

/// `s` without its trailing white space.
pub open spec fn trimmed_end(s: Seq<char>) -> Seq<char>
    decreases s.len(),
{
    if s.len() > 0 && is_white(s.last()) {
        trimmed_end(s.drop_last())
    } else {
        s
    }
}

/// `s` without white space at either end.
pub open spec fn trimmed(s: Seq<char>) -> Seq<char> {
    trimmed_end(trimmed_start(s))
}

/// `s` without white space at either end.
pub fn trim(s: &str) -> (r: String)
    ensures
        r@ == trimmed(s@),
{
    let a = chars_of(s);
    let mut lo: usize = 0;
    assert(s@.skip(0) =~= s@);
    while lo < a.len() && white(a[lo])
        invariant
            lo <= a.len(),
            a@ == s@,
            trimmed_start(s@) == trimmed_start(s@.skip(lo as int)),
        decreases a.len() - lo,
    {
        assert(s@.skip(lo as int).drop_first() =~= s@.skip(lo + 1));
        lo += 1;
    }
    let ghost t = s@.skip(lo as int);
    assert(trimmed_start(s@) == t);
    let mut hi: usize = a.len();
    assert(s@.subrange(lo as int, hi as int) =~= t);
    while hi > lo && white(a[hi - 1])
        invariant
            lo <= hi <= a.len(),
            a@ == s@,
            trimmed_end(t) == trimmed_end(s@.subrange(lo as int, hi as int)),
        decreases hi,
    {
        assert(s@.subrange(lo as int, hi as int).drop_last() =~= s@.subrange(lo as int, hi - 1));
        hi -= 1;
    }
    substring(a.as_slice(), lo, hi)
}

/// `s` without its leading white space.
pub fn trim_start(s: &str) -> (r: String)
    ensures
        r@ == trimmed_start(s@),
{
    let a = chars_of(s);
    let mut lo: usize = 0;
    assert(s@.skip(0) =~= s@);
    while lo < a.len() && white(a[lo])
        invariant
            lo <= a.len(),
            a@ == s@,
            trimmed_start(s@) == trimmed_start(s@.skip(lo as int)),
        decreases a.len() - lo,
    {
        assert(s@.skip(lo as int).drop_first() =~= s@.skip(lo + 1));
        lo += 1;
    }
    let r = substring(a.as_slice(), lo, a.len());
    assert(r@ =~= s@.skip(lo as int));
    r
}

/// `s` without any `c` at its end.
pub open spec fn without_trailing(s: Seq<char>, c: char) -> Seq<char>
    decreases s.len(),
{
    if s.len() > 0 && s.last() == c {
        without_trailing(s.drop_last(), c)
    } else {
        s
    }
}

/// `s` without any `c` at its end.
pub fn trim_end_char(s: &str, c: char) -> (r: String)
    ensures
        r@ == without_trailing(s@, c),
{
    let a = chars_of(s);
    let mut hi: usize = a.len();
    assert(s@.take(hi as int) =~= s@);
    while hi > 0 && a[hi - 1] == c
        invariant
            hi <= a.len(),
            a@ == s@,
            without_trailing(s@, c) == without_trailing(s@.take(hi as int), c),
        decreases hi,
    {
        assert(s@.take(hi as int).drop_last() =~= s@.take(hi - 1));
        hi -= 1;
    }
    assert(s@.subrange(0, hi as int) =~= s@.take(hi as int));
    substring(a.as_slice(), 0, hi)
}

/// `s` without any copy of `p` at its end; an empty `p` takes nothing away.
pub open spec fn without_suffixes(s: Seq<char>, p: Seq<char>) -> Seq<char>
    decreases s.len(),
{
    if p.len() > 0 && ends(s, p) {
        without_suffixes(s.take(s.len() - p.len()), p)
    } else {
        s
    }
}

/// `s` without any copy of `p` at its end.
pub fn trim_end_matches(s: &str, p: &str) -> (r: String)
    ensures
        r@ == without_suffixes(s@, p@),
{
    let a = chars_of(s);
    let b = chars_of(p);
    let mut hi: usize = a.len();
    assert(s@.take(hi as int) =~= s@);
    assert(s@.subrange(0, hi as int) =~= s@);
    if b.len() == 0 {
        return substring(a.as_slice(), 0, hi);
    }
    while hi >= b.len() && stands_at(a.as_slice(), b.as_slice(), hi - b.len())
        invariant
            hi <= a.len(),
            a@ == s@,
            b@ == p@,
            b.len() > 0,
            without_suffixes(s@, p@) == without_suffixes(s@.take(hi as int), p@),
        decreases hi,
    {
        let ghost t = s@.take(hi as int);
        assert(t.skip(t.len() - p@.len()) =~= s@.subrange(hi - p@.len(), hi as int));
        assert(t.take(t.len() - p@.len()) =~= s@.take(hi - p@.len()));
        hi -= b.len();
    }
    let ghost t = s@.take(hi as int);
    assert(hi >= p@.len() ==> t.skip(t.len() - p@.len()) =~= s@.subrange(
        hi - p@.len(),
        hi as int,
    ));
    assert(s@.subrange(0, hi as int) =~= t);
    substring(a.as_slice(), 0, hi)
}

// ── Splitting and joining ──────────────────────────────────────────────

/// The pieces of `s` between the occurrences of `c`; one more than there are
/// occurrences.
pub open spec fn split_at_each(s: Seq<char>, c: char) -> Seq<Seq<char>>
    decreases s.len(),
{
    if s.len() == 0 {
        seq![Seq::<char>::empty()]
    } else {
        let before = split_at_each(s.drop_last(), c);
        if s.last() == c {
            before.push(Seq::<char>::empty())
        } else {
            before.drop_last().push(before.last().push(s.last()))
        }
    }
}

/// The pieces of `s` between the occurrences of `c`.
pub fn split(s: &str, c: char) -> (r: Vec<String>)
    ensures
        views(r@) == split_at_each(s@, c),
        r@.len() >= 1,
{
    let a = chars_of(s);
    let mut done: Vec<String> = Vec::new();
    let mut cur: String = String::new();
    let mut i: usize = 0;
    assert(views(done@).push(cur@) =~= split_at_each(s@.take(0), c));
    while i < a.len()
        invariant
            i <= a.len(),
            a@ == s@,
            views(done@).push(cur@) == split_at_each(s@.take(i as int), c),
        decreases a.len() - i,
    {
        let ghost before = split_at_each(s@.take(i as int), c);
        assert(s@.take(i + 1).drop_last() =~= s@.take(i as int));
        assert(before.drop_last() =~= views(done@));
        let ghost done0 = done@;
        if a[i] == c {
            done.push(cur);
            cur = String::new();
            assert(views(done@) =~= before);
        } else {
            cur.push(a[i]);
        }
        i += 1;
        assert(views(done@).push(cur@) =~= split_at_each(s@.take(i as int), c));
    }
    assert(s@.take(i as int) =~= s@);
    let ghost done0 = done@;
    let ghost last = cur@;
    done.push(cur);
    assert(views(done@) =~= views(done0).push(last));
    done
}

/// The last word of `s`, or nothing when it has none.
pub open spec fn last_word_of(s: Seq<char>) -> Seq<char>
    decreases s.len(),
{
    if s.len() == 0 {
        s
    } else if is_white(s.last()) {
        last_word_of(s.drop_last())
    } else if s.len() > 1 && !is_white(s[s.len() - 2]) {
        last_word_of(s.drop_last()).push(s.last())
    } else {
        seq![s.last()]
    }
}

/// The last word of `s`, empty when it has none.
pub fn last_word(s: &str) -> (r: String)
    ensures
        r@ == last_word_of(s@),
{
    let a = chars_of(s);
    let mut cur: String = String::new();
    let mut i: usize = 0;
    let mut in_word: bool = false;
    assert(s@.take(0) =~= Seq::<char>::empty());
    while i < a.len()
        invariant
            i <= a.len(),
            a@ == s@,
            cur@ == last_word_of(s@.take(i as int)),
            in_word == (i > 0 && !is_white(s@[i - 1])),
        decreases a.len() - i,
    {
        let ghost t = s@.take(i + 1);
        assert(t.drop_last() =~= s@.take(i as int));
        let c = a[i];
        if white(c) {
            in_word = false;
        } else if in_word {
            cur.push(c);
        } else {
            cur = String::new();
            cur.push(c);
            in_word = true;
            assert(cur@ =~= seq![c]);
        }
        i += 1;
    }
    assert(s@.take(i as int) =~= s@);
    cur
}

/// The text after the last `c`; the whole of `s` when there is none.
pub open spec fn after_last(s: Seq<char>, c: char) -> Seq<char>
    decreases s.len(),
{
    if s.len() == 0 || s.last() == c {
        Seq::<char>::empty()
    } else {
        after_last(s.drop_last(), c).push(s.last())
    }
}

/// The text after the last `c`; the whole of `s` when there is none.
pub fn rest_after_last(s: &str, c: char) -> (r: String)
    ensures
        r@ == after_last(s@, c),
{
    let a = chars_of(s);
    let mut cur: String = String::new();
    let mut i: usize = 0;
    while i < a.len()
        invariant
            i <= a.len(),
            a@ == s@,
            cur@ == after_last(s@.take(i as int), c),
        decreases a.len() - i,
    {
        assert(s@.take(i + 1).drop_last() =~= s@.take(i as int));
        if a[i] == c {
            cur = String::new();
        } else {
            cur.push(a[i]);
        }
        i += 1;
    }
    assert(s@.take(i as int) =~= s@);
    cur
}

/// `parts`, one after another with `sep` between each two.
pub open spec fn joined(parts: Seq<Seq<char>>, sep: Seq<char>) -> Seq<char>
    decreases parts.len(),
{
    if parts.len() == 0 {
        Seq::<char>::empty()
    } else if parts.len() == 1 {
        parts[0]
    } else {
        joined(parts.drop_last(), sep) + sep + parts.last()
    }
}

/// `parts`, one after another with `sep` between each two.
pub fn join(parts: &[String], sep: &str) -> (r: String)
    ensures
        r@ == joined(views(parts@), sep@),
{
    let mut out: String = String::new();
    let mut i: usize = 0;
    while i < parts.len()
        invariant
            i <= parts.len(),
            out@ == joined(views(parts@).take(i as int), sep@),
        decreases parts.len() - i,
    {
        let ghost t = views(parts@).take(i + 1);
        assert(t.drop_last() =~= views(parts@).take(i as int));
        assert(t.last() == parts@[i as int]@);
        if i > 0 {
            out.append(sep);
        }
        let ghost base = out@;
        out.append(parts[i].as_str());
        assert(i == 0 ==> out@ =~= t[0]);
        i += 1;
    }
    assert(views(parts@).take(i as int) =~= views(parts@));
    out
}

/// `s` with every occurrence of `from` replaced by `to`, from left to right and
/// without overlap; an empty `from` is nowhere.
pub open spec fn replaced(s: Seq<char>, from: Seq<char>, to: Seq<char>) -> Seq<char>
    decreases s.len(),
{
    if s.len() == 0 {
        s
    } else if from.len() > 0 && occurs_at(s, from, 0) {
        to + replaced(s.skip(from.len() as int), from, to)
    } else {
        seq![s[0]] + replaced(s.drop_first(), from, to)
    }
}

/// `s` with every occurrence of `from` replaced by `to`.
pub fn replace(s: &str, from: &str, to: &str) -> (r: String)
    ensures
        r@ == replaced(s@, from@, to@),
{
    let a = chars_of(s);
    let f = chars_of(from);
    let mut out: String = String::new();
    let mut i: usize = 0;
    assert(s@.skip(0) =~= s@);
    assert(out@ + replaced(s@, from@, to@) =~= replaced(s@, from@, to@));
    while i < a.len()
        invariant
            i <= a.len(),
            a@ == s@,
            f@ == from@,
            out@ + replaced(s@.skip(i as int), from@, to@) == replaced(s@, from@, to@),
        decreases a.len() - i,
    {
        let ghost t = s@.skip(i as int);
        let ghost done = out@;
        assert(i + from@.len() <= s@.len() ==> t.subrange(0, from@.len() as int) =~= s@.subrange(
            i as int,
            i + from@.len(),
        ));
        if f.len() > 0 && stands_at(a.as_slice(), f.as_slice(), i) {
            out.append(to);
            assert(t.skip(from@.len() as int) =~= s@.skip(i + from@.len()));
            i += f.len();
            assert(done + (to@ + replaced(s@.skip(i as int), from@, to@)) =~= out@ + replaced(
                s@.skip(i as int),
                from@,
                to@,
            ));
        } else {
            out.push(a[i]);
            assert(t.drop_first() =~= s@.skip(i + 1));
            i += 1;
            assert(done + (seq![t[0]] + replaced(s@.skip(i as int), from@, to@)) =~= out@
                + replaced(s@.skip(i as int), from@, to@));
        }
    }
    assert(replaced(s@.skip(i as int), from@, to@) =~= Seq::<char>::empty());
    assert(out@ =~= replaced(s@, from@, to@));
    out
}

// ── Numbers ────────────────────────────────────────────────────────────

/// The decimal digits of `n`, with no leading zero.
pub open spec fn decimal(n: nat) -> Seq<char>
    decreases n,
{
    if n < 10 {
        seq![digit_char(n)]
    } else {
        decimal(n / 10).push(digit_char(n % 10))
    }
}

/// `n` in decimal, with a leading `-` when it is negative.
pub open spec fn decimal_int(n: int) -> Seq<char> {
    if n < 0 {
        seq!['-'] + decimal((-n) as nat)
    } else {
        decimal(n as nat)
    }
}

/// The value of a run of decimal digits.
pub open spec fn value_of(s: Seq<char>) -> nat
    decreases s.len(),
{
    if s.len() == 0 {
        0
    } else {
        value_of(s.drop_last()) * 10 + digit_value(s.last())
    }
}

/// The character of the decimal digit `d`.
pub fn digit(d: u64) -> (r: char)
    requires
        d < 10,
    ensures
        r == digit_char(d as nat),
{
    let b: u8 = 48u8 + d as u8;
    b as char
}

/// `n` in decimal.
pub fn show(n: u64) -> (r: String)
    ensures
        r@ == decimal(n as nat),
    decreases n,
{
    if n < 10 {
        let mut s: String = String::new();
        s.push(digit(n));
        assert(s@ =~= seq![digit_char(n as nat)]);
        s
    } else {
        let mut s: String = show(n / 10);
        s.push(digit(n % 10));
        s
    }
}

/// `n` in decimal.
pub fn show_usize(n: usize) -> (r: String)
    ensures
        r@ == decimal(n as nat),
{
    show(n as u64)
}

/// `n` in decimal, with a leading `-` when it is negative.
pub fn show_int(n: i64) -> (r: String)
    ensures
        r@ == decimal_int(n as int),
{
    if n < 0 {
        let m: u64 = if n == i64::MIN {
            9223372036854775808u64
        } else {
            (-n) as u64
        };
        let mut s: String = String::new();
        s.push('-');
        assert(s@ =~= seq!['-']);
        let d = show(m);
        s.append(d.as_str());
        s
    } else {
        show(n as u64)
    }
}

/// Why a text is not an unsigned number.
#[derive(Debug, Clone, Copy, PartialEq, Eq, Structural)]
pub enum IntFault {
    /// There is no character at all.
    Empty,
    /// A character is no decimal digit.
    InvalidDigit,
    /// The value is above the largest that is wanted.
    TooLarge,
}

/// The message for a number that could not be read.
pub open spec fn fault_text(f: IntFault) -> Seq<char> {
    match f {
        IntFault::Empty => "cannot parse integer from empty string"@,
        IntFault::InvalidDigit => "invalid digit found in string"@,
        IntFault::TooLarge => "number too large to fit in target type"@,
    }
}

/// The message for a number that could not be read.
pub fn show_fault(f: IntFault) -> (r: String)
    ensures
        r@ == fault_text(f),
{
    match f {
        IntFault::Empty => copy("cannot parse integer from empty string"),
        IntFault::InvalidDigit => copy("invalid digit found in string"),
        IntFault::TooLarge => copy("number too large to fit in target type"),
    }
}

/// Reads digits from left to right and stops at the first fault.
pub open spec fn scanned(s: Seq<char>, max: nat) -> Result<nat, IntFault>
    decreases s.len(),
{
    if s.len() == 0 {
        Ok(0)
    } else {
        match scanned(s.drop_last(), max) {
            Err(e) => Err(e),
            Ok(v) => if !is_digit(s.last()) {
                Err(IntFault::InvalidDigit)
            } else if v * 10 + digit_value(s.last()) > max {
                Err(IntFault::TooLarge)
            } else {
                Ok(v * 10 + digit_value(s.last()))
            },
        }
    }
}

/// The unsigned number that `s` writes: digits, with an optional `+` before them.
pub open spec fn unsigned(s: Seq<char>, max: nat) -> Result<nat, IntFault> {
    if s.len() == 0 {
        Err(IntFault::Empty)
    } else if s.len() > 1 && s[0] == '+' {
        scanned(s.drop_first(), max)
    } else {
        scanned(s, max)
    }
}

/// A scan that fails on a prefix fails the same way on the whole.
pub proof fn lemma_scan_fault_stays(s: Seq<char>, n: int, max: nat)
    requires
        0 <= n <= s.len(),
        scanned(s.take(n), max) is Err,
    ensures
        scanned(s, max) == scanned(s.take(n), max),
    decreases s.len() - n,
{
    if n < s.len() {
        assert(s.take(n + 1).drop_last() =~= s.take(n));
        lemma_scan_fault_stays(s, n + 1, max);
    } else {
        assert(s.take(n) =~= s);
    }
}

/// The unsigned number that `s` writes, up to `max`.
pub fn parse_unsigned(s: &str, max: u64) -> (r: Result<u64, IntFault>)
    ensures
        match r {
            Ok(v) => unsigned(s@, max as nat) == Ok::<nat, IntFault>(v as nat),
            Err(f) => unsigned(s@, max as nat) == Err::<nat, IntFault>(f),
        },
{
    let a = chars_of(s);
    if a.len() == 0 {
        return Err(IntFault::Empty);
    }
    let from: usize = if a.len() > 1 && a[0] == '+' {
        1
    } else {
        0
    };
    let ghost body = s@.skip(from as int);
    assert(from == 1 ==> body =~= s@.drop_first());
    assert(from == 0 ==> body =~= s@);
    let mut i: usize = from;
    let mut v: u64 = 0;
    assert(body.take(0) =~= Seq::<char>::empty());
    while i < a.len()
        invariant
            from <= i <= a.len(),
            from <= 1,
            a@ == s@,
            body == s@.skip(from as int),
            unsigned(s@, max as nat) == scanned(body, max as nat),
            scanned(body.take(i - from), max as nat) == Ok::<nat, IntFault>(v as nat),
            v <= max,
        decreases a.len() - i,
    {
        let c = a[i];
        let ghost t = body.take(i - from + 1);
        assert(t.drop_last() =~= body.take(i - from));
        assert(t.last() == c);
        if !('0' <= c && c <= '9') {
            proof {
                lemma_scan_fault_stays(body, i - from + 1, max as nat);
            }
            return Err(IntFault::InvalidDigit);
        }
        let d: u64 = c as u64 - '0' as u64;
        let wide: u128 = v as u128 * 10 + d as u128;
        if wide > max as u128 {
            proof {
                lemma_scan_fault_stays(body, i - from + 1, max as nat);
            }
            return Err(IntFault::TooLarge);
        }
        v = wide as u64;
        i += 1;
    }
    assert(body.take(i - from) =~= body);
    Ok(v)
}

/// The whole number that `s` writes in 64 signed bits: digits, with an optional
/// sign before them.
pub open spec fn signed(s: Seq<char>) -> Option<i64> {
    if s.len() > 1 && s[0] == '-' {
        match scanned(s.drop_first(), 0x8000_0000_0000_0000) {
            Ok(v) => Some((-(v as int)) as i64),
            Err(_) => None,
        }
    } else {
        match unsigned(s, 0x7fff_ffff_ffff_ffff) {
            Ok(v) => Some(v as i64),
            Err(_) => None,
        }
    }
}

/// The whole number that `s` writes in 64 signed bits.
pub fn parse_signed(s: &str) -> (r: Option<i64>)
    ensures
        r == signed(s@),
{
    let a = chars_of(s);
    if a.len() > 1 && a[0] == '-' {
        let rest = substring(a.as_slice(), 1, a.len());
        assert(rest@ =~= s@.drop_first());
        let b = chars_of(rest.as_str());
        if b[0] == '+' {
            assert(scanned(rest@.take(0), 0x8000_0000_0000_0000) == Ok::<nat, IntFault>(0));
            assert(rest@.take(1).drop_last() =~= rest@.take(0));
            proof {
                lemma_scan_fault_stays(rest@, 1, 0x8000_0000_0000_0000);
            }
            return None;
        }
        match parse_unsigned(rest.as_str(), 9223372036854775808u64) {
            Ok(v) => Some(
                if v == 9223372036854775808u64 {
                    i64::MIN
                } else {
                    -(v as i64)
                },
            ),
            Err(_) => None,
        }
    } else {
        match parse_unsigned(s, 9223372036854775807u64) {
            Ok(v) => Some(v as i64),
            Err(_) => None,
        }
    }
}

/// The sixteen lower-case hexadecimal digits of `n`, most significant first.
pub open spec fn hex16(n: nat) -> Seq<char> {
    hex_tail(n, 16)
}

/// The `width` lowest hexadecimal digits of `n`.
pub open spec fn hex_tail(n: nat, width: nat) -> Seq<char>
    decreases width,
{
    if width == 0 {
        Seq::<char>::empty()
    } else {
        hex_tail(n / 16, (width - 1) as nat).push(hex_lower(n % 16))
    }
}

/// The lower-case hexadecimal digit of `d`.
pub fn hex_digit(d: u64) -> (r: char)
    requires
        d < 16,
    ensures
        r == hex_lower(d as nat),
{
    let b: u8 = if d < 10 {
        48u8 + d as u8
    } else {
        87u8 + d as u8
    };
    b as char
}

/// The `width` lowest hexadecimal digits of `n`.
pub fn show_hex(n: u64, width: usize) -> (r: String)
    ensures
        r@ == hex_tail(n as nat, width as nat),
    decreases width,
{
    if width == 0 {
        String::new()
    } else {
        let mut s: String = show_hex(n / 16, width - 1);
        s.push(hex_digit(n % 16));
        s
    }
}

// ── Laws of texts ──────────────────────────────────────────────────────

proof fn lemma_digit(d: nat)
    requires
        d < 10,
    ensures
        is_digit(digit_char(d)),
        digit_value(digit_char(d)) == d,
{
}

proof fn lemma_decimal_scans(n: nat, max: nat)
    requires
        n <= max,
    ensures
        decimal(n).len() > 0,
        forall|i: int| 0 <= i < decimal(n).len() ==> is_digit(#[trigger] decimal(n)[i]),
        scanned(decimal(n), max) == Ok::<nat, IntFault>(n),
        n > 0 ==> decimal(n)[0] != '0',
    decreases n,
{
    lemma_digit(n % 10);
    if n < 10 {
        lemma_digit(n);
        reveal_with_fuel(scanned, 2);
        assert(decimal(n).drop_last() =~= Seq::<char>::empty());
        assert(decimal(n).last() == digit_char(n));
    } else {
        lemma_decimal_scans(n / 10, max);
        assert(decimal(n).drop_last() =~= decimal(n / 10));
        assert(decimal(n)[0] == decimal(n / 10)[0]);
    }
}

/// What is written in decimal reads back as the same number, and only digits are
/// written, the first of them not zero unless the number is.
pub proof fn law_decimal_reads_back(n: nat, max: nat)
    requires
        n <= max,
    ensures
        unsigned(decimal(n), max) == Ok::<nat, IntFault>(n),
        forall|i: int| 0 <= i < decimal(n).len() ==> is_digit(#[trigger] decimal(n)[i]),
        n > 0 ==> decimal(n)[0] != '0',
{
    lemma_decimal_scans(n, max);
    assert(is_digit(decimal(n)[0]));
}

/// A number above the largest that is wanted is refused.
pub proof fn law_large_number_refused(n: nat, max: nat)
    requires
        n > max,
    ensures
        unsigned(decimal(n), max) == Err::<nat, IntFault>(IntFault::TooLarge),
{
    lemma_decimal_scans(n, n);
    assert(is_digit(decimal(n)[0]));
    lemma_large_number_scan(n, max);
}

proof fn lemma_large_number_scan(n: nat, max: nat)
    requires
        n > max,
    ensures
        scanned(decimal(n), max) == Err::<nat, IntFault>(IntFault::TooLarge),
    decreases n,
{
    lemma_digit(n % 10);
    if n < 10 {
        lemma_digit(n);
        reveal_with_fuel(scanned, 2);
        assert(decimal(n).drop_last() =~= Seq::<char>::empty());
        assert(decimal(n).last() == digit_char(n));
    } else {
        assert(decimal(n).drop_last() =~= decimal(n / 10));
        if n / 10 > max {
            lemma_large_number_scan(n / 10, max);
        } else {
            lemma_decimal_scans(n / 10, max);
        }
    }
}

/// A whole number of 64 bits, written in decimal, reads back as the same number.
pub proof fn law_signed_reads_back(n: i64)
    ensures
        signed(decimal_int(n as int)) == Some(n),
{
    if n < 0 {
        let m = (-n) as nat;
        let s = decimal_int(n as int);
        lemma_decimal_scans(m, 0x8000_0000_0000_0000);
        assert(s.drop_first() =~= decimal(m));
        assert(s[0] == '-');
    } else {
        law_decimal_reads_back(n as nat, 0x7fff_ffff_ffff_ffff);
        lemma_decimal_scans(n as nat, 0x7fff_ffff_ffff_ffff);
        assert(is_digit(decimal(n as nat)[0]));
    }
}

/// Different whole numbers are written differently.
pub proof fn law_decimals_differ(a: i64, b: i64)
    requires
        decimal_int(a as int) == decimal_int(b as int),
    ensures
        a == b,
{
    law_signed_reads_back(a);
    law_signed_reads_back(b);
}

/// White space before a text is taken off, and nothing else.
pub proof fn law_trimmed_start(a: Seq<char>, m: Seq<char>)
    requires
        forall|i: int| 0 <= i < a.len() ==> is_white(#[trigger] a[i]),
        m.len() > 0,
        !is_white(m[0]),
    ensures
        trimmed_start(a + m) == m,
    decreases a.len(),
{
    if a.len() == 0 {
        assert(a + m =~= m);
    } else {
        assert((a + m).drop_first() =~= a.drop_first() + m);
        assert forall|i: int| 0 <= i < a.drop_first().len() implies is_white(
            #[trigger] a.drop_first()[i],
        ) by {
            assert(a.drop_first()[i] == a[i + 1]);
        }
        assert((a + m)[0] == a[0]);
        law_trimmed_start(a.drop_first(), m);
    }
}

proof fn lemma_trimmed_end(m: Seq<char>, b: Seq<char>)
    requires
        forall|i: int| 0 <= i < b.len() ==> is_white(#[trigger] b[i]),
        m.len() > 0,
        !is_white(m.last()),
    ensures
        trimmed_end(m + b) == m,
    decreases b.len(),
{
    if b.len() == 0 {
        assert(m + b =~= m);
    } else {
        assert((m + b).drop_last() =~= m + b.drop_last());
        assert((m + b).last() == b[b.len() - 1]);
        lemma_trimmed_end(m, b.drop_last());
    }
}

/// White space around a text is taken off, and nothing else.
pub proof fn law_trimmed(a: Seq<char>, m: Seq<char>, b: Seq<char>)
    requires
        forall|i: int| 0 <= i < a.len() ==> is_white(#[trigger] a[i]),
        forall|i: int| 0 <= i < b.len() ==> is_white(#[trigger] b[i]),
        m.len() > 0,
        !is_white(m[0]),
        !is_white(m.last()),
    ensures
        trimmed(a + m + b) == m,
{
    assert(a + m + b =~= a + (m + b));
    assert((m + b)[0] == m[0]);
    law_trimmed_start(a, m + b);
    lemma_trimmed_end(m, b);
}

/// Of white space alone nothing is left.
pub proof fn law_white_trims_to_nothing(s: Seq<char>)
    requires
        forall|i: int| 0 <= i < s.len() ==> is_white(#[trigger] s[i]),
    ensures
        trimmed(s) == Seq::<char>::empty(),
    decreases s.len(),
{
    reveal_with_fuel(trimmed_start, 2);
    if s.len() > 0 {
        assert forall|i: int| 0 <= i < s.drop_first().len() implies is_white(
            #[trigger] s.drop_first()[i],
        ) by {
            assert(s.drop_first()[i] == s[i + 1]);
        }
        assert(is_white(s[0]));
        law_white_trims_to_nothing(s.drop_first());
    }
}

/// The pieces of a text hold no separator, and put together with the separator between
/// them they are the text again.
pub proof fn law_split_joins_back(s: Seq<char>, c: char)
    ensures
        split_at_each(s, c).len() > 0,
        joined(split_at_each(s, c), seq![c]) == s,
        forall|i: int|
            0 <= i < split_at_each(s, c).len() ==> !(#[trigger] split_at_each(s, c)[i]).contains(c),
    decreases s.len(),
{
    let parts = split_at_each(s, c);
    if s.len() == 0 {
        assert(parts =~= seq![Seq::<char>::empty()]);
        assert(s =~= Seq::<char>::empty());
    } else {
        let before = split_at_each(s.drop_last(), c);
        law_split_joins_back(s.drop_last(), c);
        if s.last() == c {
            assert(parts.drop_last() =~= before);
            assert(joined(parts, seq![c]) =~= s.drop_last() + seq![c]);
            assert(s =~= s.drop_last() + seq![c]);
        } else {
            let l = before.last().push(s.last());
            assert(parts.drop_last() =~= before.drop_last());
            assert(parts.last() == l);
            if before.len() == 1 {
                assert(parts[0] == l);
                assert(s =~= before[0].push(s.last()));
            } else {
                assert(joined(parts, seq![c]) =~= (joined(before.drop_last(), seq![c]) + seq![c]
                    + before.last()).push(s.last()));
                assert(s =~= s.drop_last().push(s.last()));
            }
            assert forall|i: int| 0 <= i < parts.len() implies !(#[trigger] parts[i]).contains(c) by {
                if i < parts.len() - 1 {
                    assert(parts[i] == before[i]);
                } else {
                    assert(!before[before.len() - 1].contains(c));
                    if l.contains(c) {
                        let j = choose|j: int| 0 <= j < l.len() && l[j] == c;
                        assert(before.last()[j] == c);
                    }
                }
            }
        }
    }
}

proof fn lemma_found_from(s: Seq<char>, p: Seq<char>, from: int)
    requires
        from >= 0,
    ensures
        match found_from(s, p, from) {
            Some(i) => from <= i && occurs_at(s, p, i) && forall|j: int|
                from <= j < i ==> !occurs_at(s, p, j),
            None => forall|j: int| from <= j ==> !occurs_at(s, p, j),
        },
    decreases s.len() + 1 - from,
{
    if from + p.len() <= s.len() && !occurs_at(s, p, from) {
        lemma_found_from(s, p, from + 1);
    }
}

/// What is found is the first occurrence, and it is found whenever there is one.
pub proof fn law_found_is_first(s: Seq<char>, p: Seq<char>)
    ensures
        match found(s, p) {
            Some(i) => occurs_at(s, p, i) && forall|j: int| j < i ==> !occurs_at(s, p, j),
            None => !occurs(s, p),
        },
{
    lemma_found_from(s, p, 0);
    assert forall|j: int| j < 0 implies !occurs_at(s, p, j) by {}
}

/// The text after the last separator holds none, and ends the text behind it; without
/// a separator it is the text.
pub proof fn law_after_last(s: Seq<char>, c: char)
    ensures
        !after_last(s, c).contains(c),
        s.contains(c) ==> ends(s, seq![c] + after_last(s, c)),
        !s.contains(c) ==> after_last(s, c) == s,
    decreases s.len(),
{
    let r = after_last(s, c);
    if s.len() > 0 && s.last() != c {
        let front = s.drop_last();
        law_after_last(front, c);
        let r0 = after_last(front, c);
        if r.contains(c) {
            let j = choose|j: int| 0 <= j < r.len() && r[j] == c;
            assert(r0[j] == c);
        }
        if s.contains(c) {
            let j = choose|j: int| 0 <= j < s.len() && s[j] == c;
            assert(front[j] == c);
            let tail = seq![c] + r;
            let tail0 = seq![c] + r0;
            assert(tail =~= tail0.push(s.last()));
            assert(s.subrange(s.len() - tail.len(), s.len() as int) =~= front.subrange(
                front.len() - tail0.len(),
                front.len() as int,
            ).push(s.last()));
        } else {
            if front.contains(c) {
                let j = choose|j: int| 0 <= j < front.len() && front[j] == c;
                assert(s[j] == c);
            }
            assert(r =~= s);
        }
    } else if s.len() > 0 {
        assert(s[s.len() - 1] == c);
        let tail = seq![c] + r;
        assert(tail =~= seq![c]);
        assert(s.subrange(s.len() - 1, s.len() as int) =~= tail);
    } else {
        assert(r =~= s);
    }
}

/// Only the separators at the end are taken off, and all of them.
pub proof fn law_without_trailing(s: Seq<char>, c: char)
    ensures
        starts(s, without_trailing(s, c)),
        forall|i: int|
            without_trailing(s, c).len() <= i < s.len() ==> #[trigger] s[i] == c,
        without_trailing(s, c).len() > 0 ==> without_trailing(s, c).last() != c,
    decreases s.len(),
{
    if s.len() > 0 && s.last() == c {
        law_without_trailing(s.drop_last(), c);
        let r = without_trailing(s, c);
        assert(s.take(r.len() as int) =~= s.drop_last().take(r.len() as int));
        assert forall|i: int| r.len() <= i < s.len() implies #[trigger] s[i] == c by {
            if i < s.len() - 1 {
                assert(s.drop_last()[i] == s[i]);
            }
        }
    } else {
        assert(s.take(s.len() as int) =~= s);
    }
}

/// Replacing goes from left to right: what stands before the first occurrence stays,
/// the occurrence is replaced, and the rest is replaced likewise. Without an
/// occurrence nothing changes.
pub proof fn law_replaced(s: Seq<char>, from: Seq<char>, to: Seq<char>)
    requires
        from.len() > 0,
    ensures
        match found(s, from) {
            Some(i) => replaced(s, from, to) == s.take(i) + to + replaced(
                s.skip(i + from.len()),
                from,
                to,
            ),
            None => replaced(s, from, to) == s,
        },
    decreases s.len(),
{
    lemma_found_from(s, from, 0);
    if s.len() > 0 {
        if occurs_at(s, from, 0) {
            assert(s.take(0) =~= Seq::<char>::empty());
            assert(Seq::<char>::empty() + to =~= to);
        } else {
            let rest = s.drop_first();
            law_replaced(rest, from, to);
            lemma_found_from(rest, from, 0);
            assert forall|j: int| j >= 0 implies #[trigger] occurs_at(rest, from, j) == occurs_at(
                s,
                from,
                j + 1,
            ) by {
                if j + from.len() <= rest.len() {
                    assert(rest.subrange(j, j + from.len()) =~= s.subrange(
                        j + 1,
                        j + 1 + from.len(),
                    ));
                }
            }
            match found(s, from) {
                Some(i) => {
                    assert(occurs_at(rest, from, i - 1));
                    let i0 = found(rest, from)->Some_0;
                    assert(occurs_at(s, from, i0 + 1));
                    assert(i0 == i - 1);
                    assert(rest.skip(i0 + from.len()) =~= s.skip(i + from.len()));
                    assert(seq![s[0]] + (rest.take(i0) + to + replaced(
                        rest.skip(i0 + from.len()),
                        from,
                        to,
                    )) =~= s.take(i) + to + replaced(s.skip(i + from.len()), from, to));
                },
                None => {
                    if found(rest, from) is Some {
                        let i0 = found(rest, from)->Some_0;
                        assert(occurs_at(s, from, i0 + 1));
                    }
                    assert(seq![s[0]] + rest =~= s);
                },
            }
        }
    } else {
        assert(!occurs_at(s, from, 0));
    }
}

/// The last word is an unbroken run without white space; only white space stands behind
/// it, and white space or nothing before it.
pub proof fn law_last_word(s: Seq<char>)
    ensures
        ({
            let r = last_word_of(s);
            let e = trimmed_end(s).len() as int;
            &&& r.len() <= e
            &&& r == s.subrange(e - r.len(), e)
            &&& forall|i: int| 0 <= i < r.len() ==> !is_white(#[trigger] r[i])
            &&& e > 0 ==> r.len() > 0
            &&& e > r.len() ==> is_white(s[e - r.len() - 1])
        }),
    decreases s.len(),
{
    let r = last_word_of(s);
    lemma_trimmed_end_len(s);
    let e = trimmed_end(s).len() as int;
    if s.len() == 0 {
        assert(r =~= s.subrange(0, 0));
    } else if is_white(s.last()) {
        law_last_word(s.drop_last());
        lemma_trimmed_end_len(s.drop_last());
        assert(s.drop_last().subrange(e - r.len(), e) =~= s.subrange(e - r.len(), e));
    } else if s.len() > 1 && !is_white(s[s.len() - 2]) {
        let front = s.drop_last();
        law_last_word(front);
        let r0 = last_word_of(front);
        assert(front.last() == s[s.len() - 2]);
        assert(r =~= s.subrange(e - r.len(), e));
    } else {
        assert(r =~= s.subrange(e - 1, e));
    }
}

proof fn lemma_trimmed_end_len(s: Seq<char>)
    ensures
        trimmed_end(s).len() <= s.len(),
    decreases s.len(),
{
    if s.len() > 0 && is_white(s.last()) {
        lemma_trimmed_end_len(s.drop_last());
    }
}

/// Two texts have one lower-case form exactly when they differ in the case of ASCII
/// letters at most.
pub proof fn law_lowered_ignores_case(s: Seq<char>, i: int)
    requires
        0 <= i < s.len(),
    ensures
        lowered(s).len() == s.len(),
        lowered(lowered(s)) == lowered(s),
        !('A' <= s[i] <= 'Z') ==> lowered(s)[i] == s[i],
        'A' <= s[i] <= 'Z' ==> 'a' <= lowered(s)[i] <= 'z' && lowered(s)[i] as u32 - 'a' as u32
            == s[i] as u32 - 'A' as u32,
{
    assert(lowered(lowered(s)) =~= lowered(s));
}

} // verus!
