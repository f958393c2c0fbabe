use vstd::prelude::*;

use vstd::utf8::encode_utf8;

use std::path::PathBuf;

use crate::declared::{trim, trim_chars};
use crate::csv_document::{clone_path, same_path};
use crate::text::{chars_less, chars_of, compare_chars, is_whitespace, lowercase, push_str, string_of, to_lowercase, unicode_whitespace};
use crate::workspace::CsvFileEntry;

verus! {

pub const MAX_CURRENT_MATCHES: usize = 10000;
pub const MAX_GLOBAL_MATCHES: usize = 1000;

#[derive(Clone, Copy, Debug, PartialEq, Eq, Structural)]
pub struct CellSearchMatch {
    pub row_index: usize,
    pub column_index: usize,
}

#[derive(Clone, Debug, PartialEq, Eq, Structural)]
pub struct TextSearchMatch {
    pub start_utf16: usize,
    pub end_utf16: usize,
    pub line_number: usize,
}

/// Whether byte `i` of a UTF-8 text starts a character.
pub open spec fn is_char_start(b: Seq<u8>, i: int) -> bool {
    0 <= i < b.len() && !(128 <= b[i] < 192)
}

/// A byte with an ASCII capital letter made small.
pub open spec fn ascii_lower(x: u8) -> u8 {
    if 65 <= x <= 90 { (x + 32) as u8 } else { x }
}

/// Whether the bytes of `q` stand in `t` from `start` on, exactly or ignoring ASCII case.
pub open spec fn bytes_match_at(t: Seq<u8>, q: Seq<u8>, start: int, case_sensitive: bool) -> bool {
    &&& 0 <= start
    &&& start + q.len() <= t.len()
    &&& forall|k: int| 0 <= k < q.len() ==> if case_sensitive {
        #[trigger] t[start + k] == q[k]
    } else {
        ascii_lower(#[trigger] t[start + k]) == ascii_lower(q[k])
    }
}

/// Whether a match of `q` starts at byte `i` of `t`: at the start of a character.
pub open spec fn match_at(t: Seq<u8>, q: Seq<u8>, i: int, case_sensitive: bool) -> bool {
    is_char_start(t, i) && bytes_match_at(t, q, i, case_sensitive)
}

/// The bytes before `n` at which a match starts, in order.
pub open spec fn match_starts(t: Seq<u8>, q: Seq<u8>, case_sensitive: bool, n: int) -> Seq<int>
    decreases n,
{
    if n <= 0 {
        seq![]
    } else {
        match_starts(t, q, case_sensitive, n - 1) + (if match_at(t, q, n - 1, case_sensitive) { seq![n - 1] } else { seq![] })
    }
}

/// The UTF-16 code units of a character, counted at its first byte (two for a four-byte one).
pub open spec fn utf16_units_of(x: u8) -> nat {
    if 128 <= x < 192 { 0 } else if x >= 240 { 2 } else { 1 }
}

/// The length in UTF-16 code units of UTF-8 bytes.
pub open spec fn utf16_len(b: Seq<u8>) -> nat
    decreases b.len(),
{
    if b.len() == 0 { 0 } else { utf16_len(b.drop_last()) + utf16_units_of(b.last()) }
}

/// The number of line feeds among the bytes.
pub open spec fn line_feeds(b: Seq<u8>) -> nat
    decreases b.len(),
{
    if b.len() == 0 { 0 } else { line_feeds(b.drop_last()) + if b.last() == 10u8 { 1nat } else { 0 } }
}

proof fn lemma_line_feeds_counted(b: Seq<u8>)
    ensures
        line_feeds(b) == b.filter(|x: u8| x == 10u8).len(),
    decreases b.len(),
{
    reveal(Seq::filter);
    if b.len() > 0 {
        lemma_line_feeds_counted(b.drop_last());
    }
}

/// The line of a match is one more than the number of line feeds before it: carriage returns,
/// alone or before a line feed, start no line.
pub proof fn law_match_line_counts_line_feeds(t: Seq<u8>, qlen: nat, s: int)
    requires
        0 <= s <= t.len(),
    ensures
        match_position(t, qlen, s).2 == t.take(s).filter(|x: u8| x == 10u8).len() + 1,
{
    lemma_line_feeds_counted(t.take(s));
}

/// A count that saturates at the largest `usize`.
pub open spec fn saturated(x: nat) -> nat {
    if x <= usize::MAX { x } else { usize::MAX as nat }
}

/// A match starting at byte `s`: its start and end in UTF-16 code units, and its line (from 1).
/// (A UTF-16 position past the largest `usize`, which no text in memory reaches, stays there.)
pub open spec fn match_position(t: Seq<u8>, qlen: nat, s: int) -> (nat, nat, nat) {
    (saturated(utf16_len(t.take(s))), saturated(utf16_len(t.take(s + qlen))), line_feeds(t.take(s)) + 1)
}

pub open spec fn match_is(m: TextSearchMatch, p: (nat, nat, nat)) -> bool {
    m.start_utf16 == p.0 && m.end_utf16 == p.1 && m.line_number == p.2
}

fn lower_byte(x: u8) -> (r: u8)
    ensures
        r == ascii_lower(x),
{
    if 65 <= x && x <= 90 { x + 32 } else { x }
}

fn matches_here(t: &[u8], q: &[u8], start: usize, case_sensitive: bool) -> (r: bool)
    requires
        start <= t@.len(),
    ensures
        r == bytes_match_at(t@, q@, start as int, case_sensitive),
{
    if q.len() > t.len() - start {
        return false;
    }
    let mut k: usize = 0;
    while k < q.len()
        invariant
            start + q@.len() <= t@.len(),
            t@.len() <= usize::MAX,
            k <= q@.len(),
            forall|m: int| 0 <= m < k ==> if case_sensitive {
                #[trigger] t@[start + m] == q@[m]
            } else {
                ascii_lower(#[trigger] t@[start + m]) == ascii_lower(q@[m])
            },
        decreases q.len() - k,
    {
        let a = t[start + k];
        let b = q[k];
        let same = if case_sensitive { a == b } else { lower_byte(a) == lower_byte(b) };
        if !same {
            proof {
                assert(t@[start + k] == a);
            }
            return false;
        }
        k += 1;
    }
    true
}

fn units_of(x: u8) -> (r: usize)
    ensures
        r == utf16_units_of(x),
{
    if 128 <= x && x < 192 { 0 } else if x >= 240 { 2 } else { 1 }
}

/// The UTF-16 length of `t[..to]` from that of `t[..from]` (both saturated).
fn utf16_after(t: &[u8], from: usize, to: usize, base: usize) -> (r: usize)
    requires
        from <= to <= t@.len(),
        base == saturated(utf16_len(t@.take(from as int))),
    ensures
        r == saturated(utf16_len(t@.take(to as int))),
{
    let mut i = from;
    let mut units = base;
    while i < to
        invariant
            from <= i <= to,
            to <= t@.len(),
            units == saturated(utf16_len(t@.take(i as int))),
        decreases to - i,
    {
        proof {
            assert(t@.take(i + 1).drop_last() =~= t@.take(i as int));
            assert(t@.take(i + 1).last() == t@[i as int]);
        }
        units = units.saturating_add(units_of(t[i]));
        i += 1;
    }
    units
}

/// The matches of a query in a text (none for an empty query): each match that starts at a
/// character, in order, the first 10 000 of them, by UTF-16 position and line.
pub fn find_text_matches(text: &str, query: &str, case_sensitive: bool) -> (r: Vec<TextSearchMatch>)
    ensures
        query@.len() == 0 ==> r@.len() == 0,
        query@.len() > 0 ==> {
            let t = encode_utf8(text@);
            let q = encode_utf8(query@);
            let starts = match_starts(t, q, case_sensitive, t.len() as int);
            &&& r@.len() == if starts.len() < MAX_CURRENT_MATCHES { starts.len() } else { MAX_CURRENT_MATCHES as nat }
            &&& forall|k: int| 0 <= k < r@.len() ==> match_is(#[trigger] r@[k], match_position(t, q.len(), starts[k]))
        },
{
    let mut out: Vec<TextSearchMatch> = Vec::new();
    if query.is_empty() {
        return out;
    }
    let t = text.as_bytes();
    let q = query.as_bytes();
    let n = t.len();
    let ghost tv = t@;
    let ghost qv = q@;
    let mut i: usize = 0;
    let mut units: usize = 0;
    let mut lines: usize = 0;
    while i < n
        invariant
            n == t@.len(),
            tv == t@,
            qv == q@,
            i <= n,
            units == saturated(utf16_len(t@.take(i as int))),
            lines == line_feeds(t@.take(i as int)),
            lines <= i,
            out@.len() == if match_starts(tv, qv, case_sensitive, i as int).len() < MAX_CURRENT_MATCHES {
                match_starts(tv, qv, case_sensitive, i as int).len()
            } else {
                MAX_CURRENT_MATCHES as nat
            },
            forall|k: int| 0 <= k < out@.len() ==> match_is(#[trigger] out@[k], match_position(tv, qv.len(), match_starts(tv, qv, case_sensitive, i as int)[k])),
        decreases n - i,
    {
        let ghost before = match_starts(tv, qv, case_sensitive, i as int);
        let starts_char = !(128 <= t[i] && t[i] < 192);
        if starts_char && matches_here(t, q, i, case_sensitive) {
            proof {
                assert(match_starts(tv, qv, case_sensitive, i + 1) == before.push(i as int));
            }
            if out.len() < MAX_CURRENT_MATCHES {
                let end = utf16_after(t, i, i + q.len(), units);
                out.push(TextSearchMatch { start_utf16: units, end_utf16: end, line_number: lines + 1 });
            }
        } else {
            proof {
                assert(match_starts(tv, qv, case_sensitive, i + 1) =~= before);
            }
        }
        proof {
            assert(t@.take(i + 1).drop_last() =~= t@.take(i as int));
            assert(t@.take(i + 1).last() == t@[i as int]);
        }
        units = units.saturating_add(units_of(t[i]));
        if t[i] == 10u8 {
            lines = lines + 1;
        }
        i += 1;
    }
    proof {
        assert(t@.take(n as int) =~= t@);
    }
    out
}

/// Whether a query occurs in a value (at the start of a character), exactly or ignoring ASCII
/// case.
pub open spec fn value_contains(value: Seq<char>, query: Seq<char>, case_sensitive: bool) -> bool {
    exists|i: int| match_at(encode_utf8(value), encode_utf8(query), i, case_sensitive)
}

fn contains(value: &str, query: &str, case_sensitive: bool) -> (r: bool)
    ensures
        r == value_contains(value@, query@, case_sensitive),
{
    let t = value.as_bytes();
    let q = query.as_bytes();
    let mut i: usize = 0;
    while i < t.len()
        invariant
            i <= t@.len(),
            t@ == encode_utf8(value@),
            q@ == encode_utf8(query@),
            forall|k: int| 0 <= k < i ==> !match_at(t@, q@, k, case_sensitive),
        decreases t.len() - i,
    {
        if !(128 <= t[i] && t[i] < 192) && matches_here(t, q, i, case_sensitive) {
            proof {
                assert(match_at(t@, q@, i as int, case_sensitive));
            }
            return true;
        }
        i += 1;
    }
    proof {
        assert forall|k: int| !match_at(t@, q@, k, case_sensitive) by {
            if k >= i {
                assert(!is_char_start(t@, k));
            }
        }
    }
    false
}

/// The cells of the first `m` columns of a row that contain the query.
pub open spec fn row_hits(row: Seq<Seq<char>>, r: int, q: Seq<char>, case_sensitive: bool, m: int) -> Seq<(int, int)>
    decreases m,
{
    if m <= 0 || m > row.len() {
        seq![]
    } else {
        row_hits(row, r, q, case_sensitive, m - 1) + (if value_contains(row[m - 1], q, case_sensitive) { seq![(r, m - 1)] } else { seq![] })
    }
}

/// The cells of the rows before `n` (from `header_rows` on) that contain the query, row by row.
pub open spec fn cell_hits(records: Seq<Seq<Seq<char>>>, header_rows: int, q: Seq<char>, case_sensitive: bool, n: int) -> Seq<(int, int)>
    decreases n,
{
    if n <= 0 || n > records.len() {
        seq![]
    } else {
        cell_hits(records, header_rows, q, case_sensitive, n - 1) + (if n - 1 >= header_rows {
            row_hits(records[n - 1], n - 1, q, case_sensitive, records[n - 1].len() as int)
        } else {
            seq![]
        })
    }
}

/// The first `limit` of a list.
pub open spec fn capped<A>(s: Seq<A>, limit: nat) -> Seq<A> {
    if s.len() <= limit { s } else { s.take(limit as int) }
}

pub open spec fn cells_are(r: Seq<CellSearchMatch>, hits: Seq<(int, int)>) -> bool {
    &&& r.len() == hits.len()
    &&& forall|k: int| 0 <= k < r.len() ==> (#[trigger] r[k]).row_index == hits[k].0 && r[k].column_index == hits[k].1
}

/// The cells (after the header rows) that contain a query, row by row and column by column, the
/// first 10 000 of them; none for an empty query.
pub fn find_cell_matches(records: &Vec<Vec<String>>, header_rows: usize, query: &str, case_sensitive: bool) -> (r: Vec<CellSearchMatch>)
    ensures
        query@.len() == 0 ==> r@.len() == 0,
        query@.len() > 0 ==> cells_are(r@, capped(cell_hits(records.deep_view(), header_rows as int, query@, case_sensitive,
            records@.len() as int), MAX_CURRENT_MATCHES as nat)),
{
    let mut out: Vec<CellSearchMatch> = Vec::new();
    if query.is_empty() {
        return out;
    }
    let ghost rv = records.deep_view();
    let mut row: usize = 0;
    while row < records.len()
        invariant
            rv == records.deep_view(),
            row <= records@.len(),
            cells_are(out@, capped(cell_hits(rv, header_rows as int, query@, case_sensitive, row as int), MAX_CURRENT_MATCHES as nat)),
        decreases records.len() - row,
    {
        let ghost prefix = cell_hits(rv, header_rows as int, query@, case_sensitive, row as int);
        proof {
            assert(rv[row as int] == records@[row as int].deep_view());
        }
        if row >= header_rows {
            let cells = &records[row];
            let mut col: usize = 0;
            while col < cells.len()
                invariant
                    rv == records.deep_view(),
                    row < records@.len(),
                    cells == &records@[row as int],
                    rv[row as int] == cells.deep_view(),
                    col <= cells@.len(),
                    cells_are(out@, capped(prefix + row_hits(rv[row as int], row as int, query@, case_sensitive, col as int), MAX_CURRENT_MATCHES as nat)),
                decreases cells.len() - col,
            {
                let ghost current = prefix + row_hits(rv[row as int], row as int, query@, case_sensitive, col as int);
                proof {
                    assert(rv[row as int][col as int] == cells@[col as int]@);
                }
                if contains(cells[col].as_str(), query, case_sensitive) {
                    proof {
                        assert(prefix + row_hits(rv[row as int], row as int, query@, case_sensitive, col + 1)
                            =~= current.push((row as int, col as int)));
                    }
                    if out.len() < MAX_CURRENT_MATCHES {
                        out.push(CellSearchMatch { row_index: row, column_index: col });
                        proof {
                            assert(capped(current.push((row as int, col as int)), MAX_CURRENT_MATCHES as nat)
                                =~= capped(current, MAX_CURRENT_MATCHES as nat).push((row as int, col as int)));
                        }
                    } else {
                        proof {
                            assert(capped(current.push((row as int, col as int)), MAX_CURRENT_MATCHES as nat)
                                =~= capped(current, MAX_CURRENT_MATCHES as nat));
                        }
                    }
                } else {
                    proof {
                        assert(prefix + row_hits(rv[row as int], row as int, query@, case_sensitive, col + 1) =~= current);
                    }
                }
                col += 1;
            }
            proof {
                assert(cell_hits(rv, header_rows as int, query@, case_sensitive, row + 1)
                    == prefix + row_hits(rv[row as int], row as int, query@, case_sensitive, rv[row as int].len() as int));
            }
        } else {
            proof {
                assert(cell_hits(rv, header_rows as int, query@, case_sensitive, row + 1) =~= prefix);
            }
        }
        row += 1;
    }
    out
}


/// The first byte at or after `i` where `q` stands in `t` (`str::find`).
pub open spec fn first_find(t: Seq<u8>, q: Seq<u8>, i: int) -> Option<int>
    decreases t.len() - i,
{
    if i < 0 || i > t.len() {
        None
    } else if bytes_match_at(t, q, i, true) {
        Some(i)
    } else if i == t.len() {
        None
    } else {
        first_find(t, q, i + 1)
    }
}

/// The first position at or after `from` holding `x`.
pub open spec fn next_index(c: Seq<char>, x: char, from: int) -> Option<int>
    decreases c.len() - from,
{
    if from < 0 || from >= c.len() {
        None
    } else if c[from] == x {
        Some(from)
    } else {
        next_index(c, x, from + 1)
    }
}

/// Finds the characters of `q` from `qi` on in order in `c` from `from` on, each at its first
/// place after the previous one; the number of characters skipped between found ones.
pub open spec fn gaps_from(c: Seq<char>, q: Seq<char>, qi: int, from: int, last: Option<int>) -> Option<nat>
    decreases q.len() - qi,
{
    if qi < 0 || qi >= q.len() {
        Some(0)
    } else {
        match next_index(c, q[qi], from) {
            None => None,
            Some(k) => match gaps_from(c, q, qi + 1, k + 1, Some(k)) {
                None => None,
                Some(g) => Some(g + match last {
                    Some(p) => if k > p { (k - p - 1) as nat } else { 0 },
                    None => 0,
                }),
            },
        }
    }
}

/// How well a file matches a query (lower-cased texts), smaller being better: the same name;
/// a name that starts with it; a name that contains it (by where); a name that holds its
/// characters in order (by the characters skipped); a path that contains it; a path that holds
/// its characters in order; none when nothing matches. The last figure is the length in bytes
/// of the name, or of the path for a path match (of the path for an empty query).
pub open spec fn file_score(name: Seq<char>, path: Seq<char>, q: Seq<char>) -> Option<(nat, nat, nat)> {
    let nb = encode_utf8(name);
    let pb = encode_utf8(path);
    let qb = encode_utf8(q);
    if q.len() == 0 {
        Some((0, 0, pb.len()))
    } else if name == q {
        Some((0, 0, nb.len()))
    } else if bytes_match_at(nb, qb, 0, true) {
        Some((1, 0, nb.len()))
    } else if first_find(nb, qb, 0) is Some {
        Some((2, first_find(nb, qb, 0)->0 as nat, nb.len()))
    } else if gaps_from(name, q, 0, 0, None) is Some {
        Some((3, gaps_from(name, q, 0, 0, None)->0, nb.len()))
    } else if first_find(pb, qb, 0) is Some {
        Some((4, first_find(pb, qb, 0)->0 as nat, pb.len()))
    } else {
        match gaps_from(path, q, 0, 0, None) {
            Some(g) => Some((5, g, pb.len())),
            None => None,
        }
    }
}

/// A ranked file: its score and where it stands in the list of files.
pub open spec fn ranked_before(a: ((nat, nat, nat), Seq<char>), b: ((nat, nat, nat), Seq<char>)) -> bool {
    let (x, p) = a;
    let (y, q) = b;
    x.0 < y.0 || (x.0 == y.0 && (x.1 < y.1 || (x.1 == y.1 && (x.2 < y.2 || (x.2 == y.2 && chars_less(p, q))))))
}

/// The query a ranking uses: trimmed and lower-cased.
pub open spec fn ranking_query(query: Seq<char>) -> Seq<char> {
    lowercase(trim(query))
}

/// The score of file `i`.
pub open spec fn score_of(files: Seq<CsvFileEntry>, q: Seq<char>, i: int) -> Option<(nat, nat, nat)> {
    file_score(lowercase(files[i].file_name@), lowercase(files[i].relative_path@), q)
}

/// The sort key of file `i` (known to match): its score, then its relative path.
pub open spec fn key_of(files: Seq<CsvFileEntry>, q: Seq<char>, i: int) -> ((nat, nat, nat), Seq<char>) {
    (score_of(files, q, i)->0, files[i].relative_path@)
}

/// Inserts file `x` into a ranked list after every file that does not rank after it.
pub open spec fn insert_ranked(files: Seq<CsvFileEntry>, q: Seq<char>, s: Seq<int>, x: int) -> Seq<int>
    decreases s.len(),
{
    if s.len() == 0 || !ranked_before(key_of(files, q, x), key_of(files, q, s.last())) {
        s.push(x)
    } else {
        insert_ranked(files, q, s.drop_last(), x).push(s.last())
    }
}

/// The first `n` files that match, sorted by key, files of equal key in list order.
pub open spec fn ranked(files: Seq<CsvFileEntry>, q: Seq<char>, n: int) -> Seq<int>
    decreases n,
{
    if n <= 0 || n > files.len() {
        seq![]
    } else if score_of(files, q, n - 1) is Some {
        insert_ranked(files, q, ranked(files, q, n - 1), n - 1)
    } else {
        ranked(files, q, n - 1)
    }
}

fn first_index_of(t: &[u8], q: &[u8]) -> (r: Option<usize>)
    ensures
        match r {
            Some(i) => first_find(t@, q@, 0) == Some(i as int),
            None => first_find(t@, q@, 0) is None,
        },
{
    let n = t.len();
    let mut i: usize = 0;
    while i <= n
        invariant
            n == t@.len(),
            i <= t@.len() + 1,
            t@.len() <= usize::MAX,
            first_find(t@, q@, i as int) == first_find(t@, q@, 0),
        decreases t@.len() + 1 - i,
    {
        if matches_here(t, q, i, true) {
            return Some(i);
        }
        if i == n {
            return None;
        }
        i += 1;
    }
    None
}

fn next_char_index(c: &Vec<char>, x: char, from: usize) -> (r: Option<usize>)
    ensures
        match r {
            Some(k) => next_index(c@, x, from as int) == Some(k as int),
            None => next_index(c@, x, from as int) is None,
        },
{
    let mut k = from;
    while k < c.len()
        invariant
            from <= k,
            next_index(c@, x, k as int) == next_index(c@, x, from as int),
        decreases c.len() - k,
    {
        if c[k] == x {
            return Some(k);
        }
        k += 1;
    }
    None
}

proof fn lemma_next_index_bounds(c: Seq<char>, x: char, from: int)
    ensures
        next_index(c, x, from) matches Some(k) ==> from <= k < c.len(),
    decreases c.len() - from,
{
    if 0 <= from < c.len() && c[from] != x {
        lemma_next_index_bounds(c, x, from + 1);
    }
}

/// The characters skipped finding the query's characters in order (see `gaps_from`).
fn subsequence_gaps(candidate: &Vec<char>, query: &Vec<char>) -> (r: Option<usize>)
    ensures
        match r {
            Some(g) => gaps_from(candidate@, query@, 0, 0, None) == Some(g as nat),
            None => gaps_from(candidate@, query@, 0, 0, None) is None,
        },
{
    let mut qi: usize = 0;
    let mut from: usize = 0;
    let mut last: Option<usize> = None;
    let mut gaps: usize = 0;
    let ghost goal = gaps_from(candidate@, query@, 0, 0, None);
    let clen = candidate.len();
    while qi < query.len()
        invariant
            clen == candidate@.len(),
            goal == gaps_from(candidate@, query@, 0, 0, None),
            qi <= query@.len(),
            from <= candidate@.len(),
            gaps <= from,
            match last { Some(p) => p + 1 == from, None => from == 0 && gaps == 0 },
            goal == match gaps_from(candidate@, query@, qi as int, from as int, match last { Some(p) => Some(p as int), None => None }) {
                Some(g) => Some((g + gaps) as nat),
                None => None::<nat>,
            },
        decreases query.len() - qi,
    {
        proof {
            lemma_next_index_bounds(candidate@, query@[qi as int], from as int);
        }
        let k = match next_char_index(candidate, query[qi], from) {
            Some(k) => k,
            None => {
                proof {
                    let lastv = match last { Some(p) => Some(p as int), None => None };
                    assert(gaps_from(candidate@, query@, qi as int, from as int, lastv) is None);
                    assert(goal is None);
                }
                return None;
            },
        };
        let add = match last {
            Some(p) => k - p - 1,
            None => 0,
        };
        gaps = gaps + add;
        last = Some(k);
        from = k + 1;
        qi += 1;
    }
    Some(gaps)
}

fn text_bytes(s: &String) -> (r: &[u8])
    ensures
        r@ == encode_utf8(s@),
{
    s.as_str().as_bytes()
}

fn score_file(name: &String, path: &String, q: &String) -> (r: Option<(usize, usize, usize)>)
    ensures
        match r {
            Some((a, b, c)) => file_score(name@, path@, q@) == Some((a as nat, b as nat, c as nat)),
            None => file_score(name@, path@, q@) is None,
        },
{
    let nb = text_bytes(name);
    let pb = text_bytes(path);
    let qb = text_bytes(q);
    if q.as_str().is_empty() {
        return Some((0, 0, pb.len()));
    }
    let nc = chars_of(name.as_str());
    let qc = chars_of(q.as_str());
    if crate::text::chars_equal(&nc, &qc) {
        return Some((0, 0, nb.len()));
    }
    if matches_here(nb, qb, 0, true) {
        return Some((1, 0, nb.len()));
    }
    if let Some(p) = first_index_of(nb, qb) {
        return Some((2, p, nb.len()));
    }
    if let Some(g) = subsequence_gaps(&nc, &qc) {
        return Some((3, g, nb.len()));
    }
    if let Some(p) = first_index_of(pb, qb) {
        return Some((4, p, pb.len()));
    }
    let pc = chars_of(path.as_str());
    match subsequence_gaps(&pc, &qc) {
        Some(g) => Some((5, g, pb.len())),
        None => None,
    }
}

fn ranks_before(a: (usize, usize, usize), pa: &String, b: (usize, usize, usize), pb: &String) -> (r: bool)
    ensures
        r == ranked_before(((a.0 as nat, a.1 as nat, a.2 as nat), pa@), ((b.0 as nat, b.1 as nat, b.2 as nat), pb@)),
{
    if a.0 != b.0 {
        return a.0 < b.0;
    }
    if a.1 != b.1 {
        return a.1 < b.1;
    }
    if a.2 != b.2 {
        return a.2 < b.2;
    }
    compare_chars(&chars_of(pa.as_str()), &chars_of(pb.as_str())) == -1
}

proof fn lemma_insert_ranked(files: Seq<CsvFileEntry>, q: Seq<char>, s: Seq<int>, x: int, j: int)
    requires
        0 <= j <= s.len(),
        j == 0 || !ranked_before(key_of(files, q, x), key_of(files, q, s[j - 1])),
        forall|k: int| j <= k < s.len() ==> ranked_before(key_of(files, q, x), key_of(files, q, #[trigger] s[k])),
    ensures
        insert_ranked(files, q, s, x) == s.insert(j, x),
    decreases s.len(),
{
    if s.len() == 0 {
        assert(s.insert(j, x) =~= seq![x]);
    } else if j == s.len() {
        assert(s.insert(j, x) =~= s.push(x));
    } else {
        lemma_insert_ranked(files, q, s.drop_last(), x, j);
        assert(s.insert(j, x) =~= s.drop_last().insert(j, x).push(s.last()));
    }
}

/// Whether `q` stands in `c` as a run of consecutive characters.
pub open spec fn holds_run(c: Seq<char>, q: Seq<char>) -> bool {
    exists|i: int| 0 <= i && i + q.len() <= c.len() && #[trigger] c.subrange(i, i + q.len()) == q
}

proof fn lemma_next_index_reaches(c: Seq<char>, x: char, from: int, j: int)
    requires
        0 <= from <= j < c.len(),
        c[j] == x,
    ensures
        next_index(c, x, from) matches Some(k) && from <= k <= j,
    decreases j - from,
{
    if c[from] != x {
        lemma_next_index_reaches(c, x, from + 1, j);
    }
}

proof fn lemma_gaps_from_run(c: Seq<char>, q: Seq<char>, i: int, qi: int, from: int, last: Option<int>)
    requires
        0 <= i,
        i + q.len() <= c.len(),
        c.subrange(i, i + q.len()) == q,
        0 <= qi <= q.len(),
        0 <= from <= i + qi,
    ensures
        gaps_from(c, q, qi, from, last) is Some,
    decreases q.len() - qi,
{
    if qi < q.len() {
        assert(c.subrange(i, i + q.len())[qi] == c[i + qi]);
        lemma_next_index_reaches(c, q[qi], from, i + qi);
        let k = next_index(c, q[qi], from)->0;
        lemma_gaps_from_run(c, q, i, qi + 1, k + 1, Some(k));
    }
}

proof fn lemma_insert_ranked_holds(files: Seq<CsvFileEntry>, q: Seq<char>, s: Seq<int>, x: int)
    ensures
        insert_ranked(files, q, s, x).len() == s.len() + 1,
        forall|y: int| #[trigger] insert_ranked(files, q, s, x).contains(y) <==> (s.contains(y) || y == x),
    decreases s.len(),
{
    let r = insert_ranked(files, q, s, x);
    if s.len() == 0 || !ranked_before(key_of(files, q, x), key_of(files, q, s.last())) {
        assert forall|y: int| #[trigger] r.contains(y) <==> (s.contains(y) || y == x) by {
            if r.contains(y) {
                let k = choose|k: int| 0 <= k < r.len() && r[k] == y;
                if k < s.len() {
                    assert(s[k] == y);
                }
            }
            if s.contains(y) {
                let k = choose|k: int| 0 <= k < s.len() && s[k] == y;
                assert(r[k] == y);
            }
            if y == x {
                assert(r[s.len() as int] == y);
            }
        }
    } else {
        let d = s.drop_last();
        lemma_insert_ranked_holds(files, q, d, x);
        let m = insert_ranked(files, q, d, x);
        assert(r == m.push(s.last()));
        assert forall|y: int| #[trigger] r.contains(y) <==> (s.contains(y) || y == x) by {
            if r.contains(y) {
                let k = choose|k: int| 0 <= k < r.len() && r[k] == y;
                if k < m.len() {
                    assert(m[k] == y);
                    assert(m.contains(y));
                    if d.contains(y) {
                        let j = choose|j: int| 0 <= j < d.len() && d[j] == y;
                        assert(s[j] == y);
                    }
                } else {
                    assert(s[s.len() - 1] == y);
                }
            }
            if s.contains(y) {
                let k = choose|k: int| 0 <= k < s.len() && s[k] == y;
                if k < s.len() - 1 {
                    assert(d[k] == y);
                    assert(d.contains(y));
                    assert(m.contains(y));
                    let j = choose|j: int| 0 <= j < m.len() && m[j] == y;
                    assert(r[j] == y);
                } else {
                    assert(r[r.len() - 1] == y);
                }
            }
            if y == x {
                assert(m.contains(y));
                let j = choose|j: int| 0 <= j < m.len() && m[j] == y;
                assert(r[j] == y);
            }
        }
    }
}

proof fn lemma_ranked_holds(files: Seq<CsvFileEntry>, q: Seq<char>, n: int, i: int)
    requires
        0 <= n <= files.len(),
    ensures
        ranked(files, q, n).len() <= n,
        0 <= i < n && score_of(files, q, i) is Some ==> ranked(files, q, n).contains(i),
    decreases n,
{
    if n > 0 {
        lemma_ranked_holds(files, q, n - 1, i);
        if score_of(files, q, n - 1) is Some {
            lemma_insert_ranked_holds(files, q, ranked(files, q, n - 1), n - 1);
        }
    }
}

/// A file whose relative path (lower-cased) holds the trimmed, lower-cased query as a run of
/// characters matches it, and so stands in the ranking of the files; the ranking holds no more
/// files than the list, so a limit of at least the number of files keeps it among the results.
pub proof fn law_a_path_holding_the_query_is_ranked(files: Seq<CsvFileEntry>, query: Seq<char>, i: int)
    requires
        0 <= i < files.len(),
        holds_run(lowercase(files[i].relative_path@), ranking_query(query)),
    ensures
        score_of(files, ranking_query(query), i) is Some,
        ranked(files, ranking_query(query), files.len() as int).contains(i),
        ranked(files, ranking_query(query), files.len() as int).len() <= files.len(),
{
    let q = ranking_query(query);
    let path = lowercase(files[i].relative_path@);
    let start = choose|j: int| 0 <= j && j + q.len() <= path.len() && #[trigger] path.subrange(j, j + q.len()) == q;
    lemma_gaps_from_run(path, q, start, 0, 0, None);
    lemma_ranked_holds(files, q, files.len() as int, i);
}

/// The files that match a query, best first (see `file_score`; files of equal score by relative
/// path, then in list order), at most `limit` of them.
pub fn rank_files(files: &[CsvFileEntry], query: &str, limit: usize) -> (r: Vec<CsvFileEntry>)
    ensures
        ({
            let order = ranked(files@, ranking_query(query@), files@.len() as int);
            &&& r@.len() == if order.len() < limit { order.len() } else { limit as nat }
            &&& forall|k: int| 0 <= k < r@.len() ==> (#[trigger] r@[k]).relative_path@ == files@[order[k]].relative_path@
                && r@[k].file_name@ == files@[order[k]].file_name@
                && same_path(r@[k].absolute_path, files@[order[k]].absolute_path)
        }),
{
    let trimmed = trim_chars(&chars_of(query));
    let q = to_lowercase(string_of(&trimmed).as_str());
    let ghost qv = q@;
    proof {
        assert(qv == ranking_query(query@));
    }
    let mut order: Vec<(usize, (usize, usize, usize))> = Vec::new();
    let mut i: usize = 0;
    while i < files.len()
        invariant
            i <= files@.len(),
            qv == q@,
            order@.len() == ranked(files@, qv, i as int).len(),
            forall|k: int| 0 <= k < order@.len() ==> (#[trigger] order@[k]).0 == ranked(files@, qv, i as int)[k]
                && 0 <= order@[k].0 < i
                && score_of(files@, qv, order@[k].0 as int) == Some(((order@[k].1).0 as nat, (order@[k].1).1 as nat, (order@[k].1).2 as nat)),
        decreases files.len() - i,
    {
        let name = to_lowercase(files[i].file_name.as_str());
        let path = to_lowercase(files[i].relative_path.as_str());
        let ghost prev = ranked(files@, qv, i as int);
        match score_file(&name, &path, &q) {
            Some(score) => {
                let mut j = order.len();
                while j > 0 && ranks_before(score, &files[i].relative_path, order[j - 1].1, &files[order[j - 1].0].relative_path)
                    invariant
                        j <= order@.len(),
                        i < files@.len(),
                        order@.len() == prev.len(),
                        forall|k: int| 0 <= k < order@.len() ==> (#[trigger] order@[k]).0 == prev[k] && 0 <= order@[k].0 < i
                            && score_of(files@, qv, order@[k].0 as int) == Some(((order@[k].1).0 as nat, (order@[k].1).1 as nat, (order@[k].1).2 as nat)),
                        score_of(files@, qv, i as int) == Some((score.0 as nat, score.1 as nat, score.2 as nat)),
                        forall|k: int| j <= k < prev.len() ==> ranked_before(key_of(files@, qv, i as int), key_of(files@, qv, #[trigger] prev[k])),
                    decreases j,
                {
                    j -= 1;
                }
                proof {
                    lemma_insert_ranked(files@, qv, prev, i as int, j as int);
                }
                let ghost before = order@;
                order.insert(j, (i, score));
                proof {
                    assert(ranked(files@, qv, i + 1) == prev.insert(j as int, i as int));
                    assert forall|k: int| 0 <= k < order@.len() implies (#[trigger] order@[k]).0 == ranked(files@, qv, i + 1)[k]
                        && 0 <= order@[k].0 < i + 1
                        && score_of(files@, qv, order@[k].0 as int) == Some(((order@[k].1).0 as nat, (order@[k].1).1 as nat, (order@[k].1).2 as nat)) by {
                        if k < j {
                            assert(order@[k] == before[k]);
                        } else if k > j {
                            assert(order@[k] == before[k - 1]);
                        }
                    }
                }
            },
            None => {
                proof {
                    assert(ranked(files@, qv, i + 1) == prev);
                }
            },
        }
        i += 1;
    }
    let mut out: Vec<CsvFileEntry> = Vec::new();
    let mut k: usize = 0;
    while k < order.len() && k < limit
        invariant
            k <= order@.len(),
            k <= limit,
            i == files@.len(),
            order@.len() == ranked(files@, qv, files@.len() as int).len(),
            forall|m: int| 0 <= m < order@.len() ==> (#[trigger] order@[m]).0 == ranked(files@, qv, files@.len() as int)[m] && 0 <= order@[m].0 < files@.len(),
            out@.len() == k,
            forall|m: int| 0 <= m < k ==> (#[trigger] out@[m]).relative_path@ == files@[order@[m].0 as int].relative_path@
                && out@[m].file_name@ == files@[order@[m].0 as int].file_name@
                && same_path(out@[m].absolute_path, files@[order@[m].0 as int].absolute_path),
        decreases order.len() - k,
    {
        let entry = files[order[k].0].copy();
        out.push(entry);
        k += 1;
    }
    out
}

/// How many matches a search through the workspace hands on at once.
pub const GLOBAL_BATCH_SIZE: usize = 32;

/// A line of a workspace file that contains the query.
pub struct GlobalSearchMatch {
    pub absolute_path: PathBuf,
    pub relative_path: String,
    pub line_number: usize,
    pub snippet: String,
}

/// What a search through the workspace reports: a batch of matches, or its end.
pub enum GlobalSearchEvent {
    Batch(Vec<GlobalSearchMatch>),
    Finished { cancelled: bool, truncated: bool, warning_count: usize },
}

/// A line with its runs of white space made single spaces and the white space at either end
/// left out (the words of `str::split_whitespace` joined by spaces), with whether a space is
/// owed before the next word.
pub open spec fn collapse_white(s: Seq<char>) -> (Seq<char>, bool)
    decreases s.len(),
{
    if s.len() == 0 {
        (seq![], false)
    } else {
        let (out, pending) = collapse_white(s.drop_last());
        let c = s.last();
        if unicode_whitespace(c) {
            (out, out.len() > 0)
        } else if pending {
            (out + seq![' ', c], false)
        } else {
            (out.push(c), false)
        }
    }
}

/// How a matching line is shown: its white space collapsed, cut after 160 characters with
/// `...` when longer.
pub open spec fn snippet_of(line: Seq<char>) -> Seq<char> {
    let c = collapse_white(line).0;
    if c.len() > 160 {
        c.take(160) + "..."@
    } else {
        c
    }
}

proof fn lemma_collapse_pending(s: Seq<char>)
    ensures
        collapse_white(s).1 ==> collapse_white(s).0.len() > 0,
    decreases s.len(),
{
    if s.len() > 0 {
        lemma_collapse_pending(s.drop_last());
    }
}

/// The snippet of a line (see `snippet_of`).
pub fn compact_snippet(line: &str) -> (r: String)
    ensures
        r@ == snippet_of(line@),
{
    let chars = chars_of(line);
    let mut out: Vec<char> = Vec::new();
    let mut pending = false;
    let mut i: usize = 0;
    while i < chars.len()
        invariant
            chars@ == line@,
            i <= chars.len(),
            (out@, pending) == collapse_white(chars@.subrange(0, i as int)),
        decreases chars.len() - i,
    {
        proof {
            let s = chars@.subrange(0, i + 1);
            assert(s.drop_last() == chars@.subrange(0, i as int));
            assert(s.last() == chars@[i as int]);
        }
        let c = chars[i];
        if is_whitespace(c) {
            pending = out.len() > 0;
        } else {
            if pending {
                out.push(' ');
                pending = false;
            }
            out.push(c);
        }
        proof {
            assert((out@, pending) == collapse_white(chars@.subrange(0, i + 1)));
        }
        i += 1;
    }
    proof {
        assert(chars@.subrange(0, i as int) == chars@);
    }
    if out.len() > 160 {
        let mut cut: Vec<char> = Vec::new();
        let mut k: usize = 0;
        while k < 160
            invariant
                k <= 160,
                out@.len() > 160,
                cut@ == out@.take(k as int),
            decreases 160 - k,
        {
            cut.push(out[k]);
            k += 1;
            proof {
                assert(cut@ =~= out@.take(k as int));
            }
        }
        push_str(&mut cut, "...");
        string_of(&cut)
    } else {
        string_of(&out)
    }
}

/// Whether a match is the one for a line of a file: the file's paths, the line's number and
/// its snippet.
pub open spec fn is_match_of(m: GlobalSearchMatch, entry: CsvFileEntry, line_number: usize, line: Seq<char>) -> bool {
    &&& same_path(m.absolute_path, entry.absolute_path)
    &&& m.relative_path@ == entry.relative_path@
    &&& m.line_number == line_number
    &&& m.snippet@ == snippet_of(line)
}

/// What a line of a search asks of the one that reads the files: a full batch of matches to
/// hand on, and whether to stop (the match limit was reached).
pub struct SearchStep {
    pub send: Option<Vec<GlobalSearchMatch>>,
    pub stop: bool,
}

/// A search through the files of the workspace, fed line by line: the query, the matches not yet
/// handed on, how many matches and unreadable files there were, whether the match limit was
/// reached, and the number of the last line read in the current file.
pub struct WorkspaceSearch {
    pub query: String,
    pub case_sensitive: bool,
    pub batch: Vec<GlobalSearchMatch>,
    pub match_count: usize,
    pub warning_count: usize,
    pub truncated: bool,
    pub line_number: usize,
}

impl WorkspaceSearch {
    /// What a search keeps: fewer matches waiting than a batch, and fewer matches than the limit
    /// until it is reached.
    pub open spec fn wf(&self) -> bool {
        &&& self.batch@.len() < GLOBAL_BATCH_SIZE
        &&& self.match_count <= MAX_GLOBAL_MATCHES
        &&& (self.match_count == MAX_GLOBAL_MATCHES <==> self.truncated)
    }

    /// A search that has read nothing.
    pub fn new(query: String, case_sensitive: bool) -> (r: WorkspaceSearch)
        ensures
            r.wf(),
            r.query == query,
            r.case_sensitive == case_sensitive,
            r.batch@.len() == 0,
            r.match_count == 0,
            r.warning_count == 0,
            !r.truncated,
            r.line_number == 0,
    {
        WorkspaceSearch {
            query,
            case_sensitive,
            batch: Vec::new(),
            match_count: 0,
            warning_count: 0,
            truncated: false,
            line_number: 0,
        }
    }

    /// Starts reading a file: its lines are numbered from 1.
    pub fn start_file(&mut self)
        ensures
            *final(self) == (WorkspaceSearch { line_number: 0, ..*old(self) }),
    {
        self.line_number = 0;
    }

    /// Counts a file that could not be opened or read to its end (the count stays at the
    /// largest `usize` once there).
    pub fn file_failed(&mut self)
        ensures
            *final(self) == (WorkspaceSearch {
                warning_count: if old(self).warning_count < usize::MAX { (old(self).warning_count + 1) as usize } else { old(self).warning_count },
                ..*old(self)
            }),
    {
        if self.warning_count < usize::MAX {
            self.warning_count = self.warning_count + 1;
        }
    }

    /// Takes the next line of the current file: a line that contains the query becomes a match;
    /// a full batch is handed on, and reaching the match limit stops the search. (Line numbers
    /// stay at the largest `usize` once there.)
    pub fn next_line(&mut self, entry: &CsvFileEntry, line: &str) -> (r: SearchStep)
        requires
            old(self).wf(),
            !old(self).truncated,
        ensures
            final(self).wf(),
            final(self).query == old(self).query,
            final(self).case_sensitive == old(self).case_sensitive,
            final(self).warning_count == old(self).warning_count,
            final(self).line_number == if old(self).line_number < usize::MAX { (old(self).line_number + 1) as usize } else { old(self).line_number },
            if !value_contains(line@, old(self).query@, old(self).case_sensitive) {
                &&& r.send is None
                &&& !r.stop
                &&& final(self).batch@ == old(self).batch@
                &&& final(self).match_count == old(self).match_count
                &&& !final(self).truncated
            } else {
                &&& final(self).match_count == old(self).match_count + 1
                &&& final(self).truncated == (final(self).match_count == MAX_GLOBAL_MATCHES)
                &&& r.stop == final(self).truncated
                &&& if old(self).batch@.len() + 1 == GLOBAL_BATCH_SIZE {
                    &&& final(self).batch@.len() == 0
                    &&& (r.send matches Some(sent) && sent@.len() == GLOBAL_BATCH_SIZE
                        && sent@.take(old(self).batch@.len() as int) == old(self).batch@
                        && is_match_of(sent@.last(), *entry, final(self).line_number, line@))
                } else {
                    &&& r.send is None
                    &&& final(self).batch@.len() == old(self).batch@.len() + 1
                    &&& final(self).batch@.take(old(self).batch@.len() as int) == old(self).batch@
                    &&& is_match_of(final(self).batch@.last(), *entry, final(self).line_number, line@)
                }
            },
    {
        if self.line_number < usize::MAX {
            self.line_number = self.line_number + 1;
        }
        if !contains(line, self.query.as_str(), self.case_sensitive) {
            return SearchStep { send: None, stop: false };
        }
        let ghost before = self.batch@;
        let found = GlobalSearchMatch {
            absolute_path: clone_path(&entry.absolute_path),
            relative_path: entry.relative_path.clone(),
            line_number: self.line_number,
            snippet: compact_snippet(line),
        };
        self.batch.push(found);
        proof {
            assert(self.batch@.take(before.len() as int) =~= before);
        }
        self.match_count = self.match_count + 1;
        let send = if self.batch.len() == GLOBAL_BATCH_SIZE {
            let mut sent: Vec<GlobalSearchMatch> = Vec::new();
            std::mem::swap(&mut sent, &mut self.batch);
            Some(sent)
        } else {
            None
        };
        let stop = self.match_count == MAX_GLOBAL_MATCHES;
        if stop {
            self.truncated = true;
        }
        SearchStep { send, stop }
    }

    /// Ends the search: the matches still waiting, if any, then the summary.
    pub fn finish(&mut self, cancelled: bool) -> (r: Vec<GlobalSearchEvent>)
        ensures
            final(self).batch@.len() == 0,
            old(self).batch@.len() == 0 ==> r@.len() == 1,
            old(self).batch@.len() > 0 ==> r@.len() == 2,
            old(self).batch@.len() > 0 ==> (r@[0] matches GlobalSearchEvent::Batch(b) && b@ == old(self).batch@),
            r@.last() == (GlobalSearchEvent::Finished {
                cancelled,
                truncated: old(self).truncated,
                warning_count: old(self).warning_count,
            }),
    {
        let mut events: Vec<GlobalSearchEvent> = Vec::new();
        if self.batch.len() > 0 {
            let mut sent: Vec<GlobalSearchMatch> = Vec::new();
            std::mem::swap(&mut sent, &mut self.batch);
            events.push(GlobalSearchEvent::Batch(sent));
        }
        events.push(GlobalSearchEvent::Finished {
            cancelled,
            truncated: self.truncated,
            warning_count: self.warning_count,
        });
        events
    }
}

} // verus!
