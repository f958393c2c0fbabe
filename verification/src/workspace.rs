use vstd::prelude::*;

use std::path::{Path, PathBuf};

use crate::csv_document::{CsvDocument, CsvDocumentError, clone_path, same_path};
use crate::editor::{path_equal, paths_equal};
use crate::file_monitor::texts;
use crate::text::{chars_less, chars_of, compare_chars, decimal, join, lemma_chars_less_irreflexive, lemma_chars_less_total,
    lemma_chars_less_transitive, lowercase, push_decimal, push_str, string_of, to_lowercase};

verus! {

/// A CSV file of the workspace: where it is, its path relative to the workspace root (as text),
/// and its file name.
pub struct CsvFileEntry {
    pub absolute_path: PathBuf,
    pub relative_path: String,
    pub file_name: String,
}

impl CsvFileEntry {
    /// A copy of the entry: the same paths and name.
    pub fn copy(&self) -> (r: CsvFileEntry)
        ensures
            r.relative_path@ == self.relative_path@,
            r.file_name@ == self.file_name@,
            same_path(r.absolute_path, self.absolute_path),
    {
        CsvFileEntry {
            absolute_path: clone_path(&self.absolute_path),
            relative_path: self.relative_path.clone(),
            file_name: self.file_name.clone(),
        }
    }
}

/// A problem met while scanning the workspace, with the path it concerns if any.
pub struct ScanWarning {
    pub path: Option<PathBuf>,
    pub message: String,
}

/// The CSV files of a workspace and the problems met finding them.
pub struct WorkspaceSnapshot {
    pub files: Vec<CsvFileEntry>,
    pub warnings: Vec<ScanWarning>,
}

/// The size of a CSV file's table, or why it has none.
pub enum CsvFileStats {
    Ready { data_rows: usize, columns: usize },
    Error { message: String },
}

/// The message of a file with fewer records than its header rows.
pub open spec fn header_shortfall_message(header_rows: usize) -> Seq<char> {
    "file has fewer than the configured "@ + decimal(header_rows as nat) + " header records"@
}

/// The table size of an opened document: its data rows (after the header rows) and columns;
/// an error when it has fewer records than header rows.
pub fn stats_for_document(document: &CsvDocument, header_rows: usize) -> (r: CsvFileStats)
    ensures
        if document.records@.len() >= header_rows {
            r matches CsvFileStats::Ready { data_rows, columns } && data_rows == (document.records@.len() - header_rows) as usize
                && columns == (if document.records@.len() == 0 { 0usize } else { document.records@[0]@.len() as usize })
        } else {
            r matches CsvFileStats::Error { message } && message@ == header_shortfall_message(header_rows)
        },
{
    match document.dimensions(header_rows) {
        Some((data_rows, columns)) => CsvFileStats::Ready { data_rows, columns },
        None => {
            let mut out: Vec<char> = Vec::new();
            push_str(&mut out, "file has fewer than the configured ");
            push_decimal(&mut out, header_rows as u128);
            push_str(&mut out, " header records");
            proof {
                assert(out@ =~= header_shortfall_message(header_rows));
            }
            CsvFileStats::Error { message: string_of(&out) }
        },
    }
}

/// The table size of a CSV file from its opened document: its data rows (after the header rows)
/// and columns; an error when it has fewer records than header rows, or when it could not be
/// opened (with the error's text).
pub fn inspect_csv_file(document: Result<CsvDocument, CsvDocumentError>, header_rows: usize) -> (r: CsvFileStats)
    ensures
        match document {
            Ok(d) => if d.records@.len() >= header_rows {
                r matches CsvFileStats::Ready { data_rows, columns } && data_rows == (d.records@.len() - header_rows) as usize
                    && columns == (if d.records@.len() == 0 { 0usize } else { d.records@[0]@.len() as usize })
            } else {
                r matches CsvFileStats::Error { message } && message@ == header_shortfall_message(header_rows)
            },
            Err(_) => r is Error,
        },
{
    match document {
        Ok(document) => stats_for_document(&document, header_rows),
        Err(error) => CsvFileStats::Error { message: error.to_string() },
    }
}

/// The extension of a path as text (`Path::extension`, taken as UTF-8): what follows the last
/// dot of the file name, none when the name has no dot but a leading one, when there is no file
/// name, or when the extension is not UTF-8.
pub uninterp spec fn path_extension(path: Seq<char>) -> Option<Seq<char>>;

/// `Path::extension` of a path, as a `String` when it is UTF-8.
#[verifier::external_body]
fn extension_of(path: &str) -> (r: Option<String>)
    ensures
        match r {
            Some(e) => path_extension(path@) == Some(e@),
            None => path_extension(path@) is None,
        },
{
    match Path::new(path).extension() {
        Some(extension) => match extension.to_str() {
            Some(text) => Some(text.to_owned()),
            None => None,
        },
        None => None,
    }
}

/// Whether two texts are equal when ASCII letters are compared without case.
pub open spec fn ascii_case_equal(a: Seq<char>, b: Seq<char>) -> bool {
    a.len() == b.len() && forall|i: int| 0 <= i < a.len() ==> ascii_fold(#[trigger] a[i]) == ascii_fold(b[i])
}

/// A character with an ASCII capital letter made small.
pub open spec fn ascii_fold(c: char) -> char {
    if 'A' <= c && c <= 'Z' { ((c as u32) + 32) as char } else { c }
}

fn fold_char(c: char) -> (r: char)
    ensures
        r == ascii_fold(c),
{
    if 'A' <= c && c <= 'Z' {
        let code = c as u32;
        ((code as u8) + 32) as char
    } else {
        c
    }
}

/// Whether a path names a CSV file: its extension is `csv` in any ASCII case.
pub open spec fn is_csv_path(path: Seq<char>) -> bool {
    match path_extension(path) {
        Some(e) => ascii_case_equal(e, "csv"@),
        None => false,
    }
}

/// Whether a path names a CSV file (see `is_csv_path`).
pub fn is_csv(path: &str) -> (r: bool)
    ensures
        r == is_csv_path(path@),
{
    let extension = match extension_of(path) {
        Some(e) => e,
        None => return false,
    };
    let a = chars_of(extension.as_str());
    let b = chars_of("csv");
    if a.len() != b.len() {
        return false;
    }
    let mut i: usize = 0;
    while i < a.len()
        invariant
            path_extension(path@) == Some(extension@),
            a@ == extension@,
            b@ == "csv"@,
            a.len() == b.len(),
            i <= a.len(),
            forall|k: int| 0 <= k < i ==> ascii_fold(#[trigger] a@[k]) == ascii_fold(b@[k]),
        decreases a.len() - i,
    {
        if fold_char(a[i]) != fold_char(b[i]) {
            proof {
                assert(ascii_fold(a@[i as int]) != ascii_fold(b@[i as int]));
                if ascii_case_equal(extension@, "csv"@) {
                    assert(ascii_fold(extension@[i as int]) == ascii_fold("csv"@[i as int]));
                }
            }
            return false;
        }
        i += 1;
    }
    true
}

/// The order of the file list: the relative path in lower case.
pub open spec fn path_key(e: CsvFileEntry) -> Seq<char> {
    lowercase(e.relative_path@)
}

/// A sorted list with one more entry: after the entries whose key is not greater than its own.
pub open spec fn insert_by_path(s: Seq<CsvFileEntry>, x: CsvFileEntry) -> Seq<CsvFileEntry>
    decreases s.len(),
{
    if s.len() == 0 || !chars_less(path_key(x), path_key(s.last())) {
        s.push(x)
    } else {
        insert_by_path(s.drop_last(), x).push(s.last())
    }
}

/// Entries sorted by their lower-cased relative paths, entries of equal key in list order.
pub open spec fn sorted_by_path(s: Seq<CsvFileEntry>) -> Seq<CsvFileEntry>
    decreases s.len(),
{
    if s.len() == 0 {
        s
    } else {
        insert_by_path(sorted_by_path(s.drop_last()), s.last())
    }
}

proof fn lemma_insert_by_path(s: Seq<CsvFileEntry>, x: CsvFileEntry, j: int)
    requires
        0 <= j <= s.len(),
        j == 0 || !chars_less(path_key(x), path_key(s[j - 1])),
        forall|k: int| j <= k < s.len() ==> chars_less(path_key(x), path_key(#[trigger] s[k])),
    ensures
        insert_by_path(s, x) == s.insert(j, x),
    decreases s.len(),
{
    if s.len() == 0 {
        assert(s.insert(j, x) =~= seq![x]);
    } else if j == s.len() {
        assert(s.insert(j, x) =~= s.push(x));
    } else {
        lemma_insert_by_path(s.drop_last(), x, j);
        assert(s.insert(j, x) =~= s.drop_last().insert(j, x).push(s.last()));
    }
}

/// Sorts the files of a workspace by their lower-cased relative paths, keeping the order of
/// files of equal key.
pub fn sort_workspace_files(files: Vec<CsvFileEntry>) -> (r: Vec<CsvFileEntry>)
    ensures
        r@ == sorted_by_path(files@),
{
    let ghost input_seq = files@;
    let total = files.len();
    let mut rest = files;
    let mut out: Vec<CsvFileEntry> = Vec::new();
    let mut keys: Vec<Vec<char>> = Vec::new();
    let mut taken: usize = 0;
    while rest.len() > 0
        invariant
            input_seq.len() == total,
            taken + rest@.len() == input_seq.len(),
            rest@ == input_seq.subrange(taken as int, input_seq.len() as int),
            out@ == sorted_by_path(input_seq.subrange(0, taken as int)),
            keys@.len() == out@.len(),
            forall|k: int| 0 <= k < out@.len() ==> (#[trigger] keys@[k])@ == path_key(out@[k]),
        decreases rest.len(),
    {
        let entry = rest.remove(0);
        proof {
            assert(entry == input_seq[taken as int]);
            let s = input_seq.subrange(0, taken + 1);
            assert(s.drop_last() == input_seq.subrange(0, taken as int));
            assert(s.last() == entry);
            assert(rest@ == input_seq.subrange(taken + 1, input_seq.len() as int));
        }
        let lowered = to_lowercase(entry.relative_path.as_str());
        let key = chars_of(lowered.as_str());
        let mut j = out.len();
        while j > 0 && compare_chars(&key, &keys[j - 1]) == -1
            invariant
                j <= out@.len(),
                keys@.len() == out@.len(),
                key@ == path_key(entry),
                forall|k: int| 0 <= k < out@.len() ==> (#[trigger] keys@[k])@ == path_key(out@[k]),
                forall|k: int| j <= k < out@.len() ==> chars_less(path_key(entry), path_key(#[trigger] out@[k])),
            decreases j,
        {
            j -= 1;
        }
        proof {
            if j > 0 {
                assert(keys@[j - 1]@ == path_key(out@[j - 1]));
            }
            lemma_insert_by_path(out@, entry, j as int);
        }
        let ghost keys_before = keys@;
        out.insert(j, entry);
        keys.insert(j, key);
        proof {
            assert forall|k: int| 0 <= k < out@.len() implies (#[trigger] keys@[k])@ == path_key(out@[k]) by {
                if k < j {
                } else if k > j {
                    assert(keys@[k] == keys_before[k - 1]);
                }
            }
        }
        taken += 1;
    }
    proof {
        assert(input_seq.subrange(0, taken as int) == input_seq);
    }
    out
}

/// A row of the workspace tree: a directory (its path from the workspace root, joined with
/// `/`, its name, its depth and whether it is open) or a file.
pub enum WorkspaceTreeRow {
    Directory { relative_path: String, name: String, depth: usize, expanded: bool },
    File { entry: CsvFileEntry, depth: usize },
}

/// The components of a path's parent, each as text (`Path::parent`, then `Path::components`,
/// each component's text taken lossily); none when the path has no parent.
pub uninterp spec fn parent_dirs(path: Seq<char>) -> Seq<Seq<char>>;

/// `Path::new(path).parent()` and its `components()`, each as a `String`.
#[verifier::external_body]
fn parent_components(path: &str) -> (r: Vec<String>)
    ensures
        texts(r@) == parent_dirs(path@),
{
    match Path::new(path).parent() {
        Some(parent) => parent.components().map(|c| c.as_os_str().to_string_lossy().into_owned()).collect(),
        None => Vec::new(),
    }
}

/// The directories that hold a file, outermost first.
pub open spec fn dirs_of(e: CsvFileEntry) -> Seq<Seq<char>> {
    parent_dirs(e.relative_path@)
}

/// Whether directories `d` lie strictly below `prefix`.
pub open spec fn below(d: Seq<Seq<char>>, prefix: Seq<Seq<char>>) -> bool {
    prefix.len() < d.len() && d.take(prefix.len() as int) == prefix
}

/// The names of the directories directly in `prefix` that the first `n` files lie in, each
/// once, in the order the files first name them.
pub open spec fn seen_children(files: Seq<CsvFileEntry>, prefix: Seq<Seq<char>>, n: nat) -> Seq<Seq<char>>
    decreases n,
{
    if n == 0 || n > files.len() {
        seq![]
    } else {
        let acc = seen_children(files, prefix, (n - 1) as nat);
        let d = dirs_of(files[n - 1]);
        if below(d, prefix) && !acc.contains(d[prefix.len() as int]) {
            acc.push(d[prefix.len() as int])
        } else {
            acc
        }
    }
}

/// The order of names in the tree: by lower-cased name, then by name.
pub open spec fn name_less(a: Seq<char>, b: Seq<char>) -> bool {
    chars_less(lowercase(a), lowercase(b)) || (lowercase(a) == lowercase(b) && chars_less(a, b))
}

/// A sorted list of names with one more: after the names not greater than it.
pub open spec fn insert_name(s: Seq<Seq<char>>, x: Seq<char>) -> Seq<Seq<char>>
    decreases s.len(),
{
    if s.len() == 0 || !name_less(x, s.last()) {
        s.push(x)
    } else {
        insert_name(s.drop_last(), x).push(s.last())
    }
}

/// Names sorted in tree order, equal ones in list order.
pub open spec fn sorted_names(s: Seq<Seq<char>>) -> Seq<Seq<char>>
    decreases s.len(),
{
    if s.len() == 0 {
        s
    } else {
        insert_name(sorted_names(s.drop_last()), s.last())
    }
}

/// The directories directly in `prefix`, in tree order.
pub open spec fn child_dirs(files: Seq<CsvFileEntry>, prefix: Seq<Seq<char>>) -> Seq<Seq<char>> {
    sorted_names(seen_children(files, prefix, files.len()))
}

/// The positions, among the first `n`, of the files directly in `prefix`.
pub open spec fn files_here(files: Seq<CsvFileEntry>, prefix: Seq<Seq<char>>, n: nat) -> Seq<int>
    decreases n,
{
    if n == 0 || n > files.len() {
        seq![]
    } else {
        let acc = files_here(files, prefix, (n - 1) as nat);
        if dirs_of(files[n - 1]) == prefix {
            acc.push(n - 1)
        } else {
            acc
        }
    }
}

/// A sorted list of file positions with one more: after the files whose names are not greater.
pub open spec fn insert_file(files: Seq<CsvFileEntry>, s: Seq<int>, x: int) -> Seq<int>
    decreases s.len(),
{
    if s.len() == 0 || !name_less(files[x].file_name@, files[s.last()].file_name@) {
        s.push(x)
    } else {
        insert_file(files, s.drop_last(), x).push(s.last())
    }
}

/// File positions sorted by file name in tree order, equal names in list order.
pub open spec fn sorted_files(files: Seq<CsvFileEntry>, s: Seq<int>) -> Seq<int>
    decreases s.len(),
{
    if s.len() == 0 {
        s
    } else {
        insert_file(files, sorted_files(files, s.drop_last()), s.last())
    }
}

/// A row of the tree in the abstract: a directory, or the file at a position of the list.
pub enum TreeRowView {
    Dir { path: Seq<char>, name: Seq<char>, depth: nat, expanded: bool },
    File { index: int, depth: nat },
}

/// Whether a directory is open: all are when the search expands them, else those whose path
/// equals (as paths) one of the open ones.
pub open spec fn is_expanded(expanded: Seq<Seq<char>>, expand_all: bool, path: Seq<char>) -> bool {
    expand_all || exists|k: int| 0 <= k < expanded.len() && path_equal(#[trigger] expanded[k], path)
}

/// The rows of the files at positions `idx`, at a depth.
pub open spec fn file_rows(idx: Seq<int>, depth: nat) -> Seq<TreeRowView> {
    Seq::new(idx.len(), |k: int| TreeRowView::File { index: idx[k], depth })
}

/// The rows of the tree below `prefix`: its directories in tree order, each followed by its own
/// rows when open, then its files in tree order. (`fuel` bounds the depth looked into.)
pub open spec fn tree_rows(
    files: Seq<CsvFileEntry>,
    expanded: Seq<Seq<char>>,
    expand_all: bool,
    prefix: Seq<Seq<char>>,
    depth: nat,
    fuel: nat,
) -> Seq<TreeRowView>
    decreases fuel, 1nat, 0nat,
{
    dir_block(files, expanded, expand_all, prefix, child_dirs(files, prefix), 0, depth, fuel)
        + file_rows(sorted_files(files, files_here(files, prefix, files.len())), depth)
}

/// The rows of the directories `names[i..]` in `prefix`, each with its own rows when open.
pub open spec fn dir_block(
    files: Seq<CsvFileEntry>,
    expanded: Seq<Seq<char>>,
    expand_all: bool,
    prefix: Seq<Seq<char>>,
    names: Seq<Seq<char>>,
    i: nat,
    depth: nat,
    fuel: nat,
) -> Seq<TreeRowView>
    decreases fuel, 0nat, names.len() - i,
{
    if i >= names.len() {
        seq![]
    } else {
        let p = prefix.push(names[i as int]);
        let path = join(p, seq!['/']);
        let open = is_expanded(expanded, expand_all, path);
        seq![TreeRowView::Dir { path, name: names[i as int], depth, expanded: open }]
            + (if open && fuel > 0 { tree_rows(files, expanded, expand_all, p, depth + 1, (fuel - 1) as nat) } else { seq![] })
            + dir_block(files, expanded, expand_all, prefix, names, i + 1, depth, fuel)
    }
}

/// Whether a row is the one described.
pub open spec fn row_is(r: WorkspaceTreeRow, v: TreeRowView, files: Seq<CsvFileEntry>) -> bool {
    match (r, v) {
        (WorkspaceTreeRow::Directory { relative_path, name, depth, expanded }, TreeRowView::Dir { path, name: n, depth: d, expanded: e }) =>
            relative_path@ == path && name@ == n && depth == d && expanded == e,
        (WorkspaceTreeRow::File { entry, depth }, TreeRowView::File { index, depth: d }) =>
            0 <= index < files.len() && entry.relative_path@ == files[index].relative_path@
                && entry.file_name@ == files[index].file_name@
                && same_path(entry.absolute_path, files[index].absolute_path) && depth == d,
        _ => false,
    }
}

/// Whether rows `from..` of a list are the rows described, in order.
pub open spec fn rows_from(rows: Seq<WorkspaceTreeRow>, from: int, views: Seq<TreeRowView>, files: Seq<CsvFileEntry>) -> bool {
    &&& 0 <= from
    &&& rows.len() == from + views.len()
    &&& forall|k: int| 0 <= k < views.len() ==> row_is(#[trigger] rows[from + k], views[k], files)
}

/// The most directories any file lies in.
pub open spec fn max_dirs(files: Seq<CsvFileEntry>) -> nat
    decreases files.len(),
{
    if files.len() == 0 {
        0
    } else {
        let m = max_dirs(files.drop_last());
        let d = dirs_of(files.last()).len();
        if d > m { d } else { m }
    }
}

/// Positions as integers.
pub open spec fn positions(v: Seq<usize>) -> Seq<int> {
    Seq::new(v.len(), |k: int| v[k] as int)
}

/// Whether the first `prefix.len()` components of `d` are those of `prefix`.
fn dirs_start_with(d: &Vec<String>, prefix: &Vec<String>) -> (r: bool)
    ensures
        r == (prefix@.len() <= d@.len() && texts(d@).take(prefix@.len() as int) == texts(prefix@)),
{
    if prefix.len() > d.len() {
        return false;
    }
    let mut k: usize = 0;
    while k < prefix.len()
        invariant
            prefix@.len() <= d@.len(),
            k <= prefix@.len(),
            forall|m: int| 0 <= m < k ==> d@[m]@ == prefix@[m]@,
        decreases prefix.len() - k,
    {
        if !(d[k] == prefix[k]) {
            proof {
                assert(texts(d@).take(prefix@.len() as int)[k as int] != texts(prefix@)[k as int]);
            }
            return false;
        }
        k += 1;
    }
    assert(texts(d@).take(prefix@.len() as int) =~= texts(prefix@));
    true
}

/// Whether a name is among the names.
fn has_name(names: &Vec<String>, x: &String) -> (r: bool)
    ensures
        r == texts(names@).contains(x@),
{
    let mut k: usize = 0;
    while k < names.len()
        invariant
            k <= names@.len(),
            forall|m: int| 0 <= m < k ==> names@[m]@ != x@,
        decreases names.len() - k,
    {
        if names[k] == *x {
            proof {
                assert(texts(names@)[k as int] == x@);
            }
            return true;
        }
        k += 1;
    }
    proof {
        assert forall|m: int| 0 <= m < texts(names@).len() implies texts(names@)[m] != x@ by {
            assert(texts(names@)[m] == names@[m]@);
        }
    }
    false
}

/// Whether name `a` comes before name `b` in tree order.
fn name_before(a: &String, b: &String) -> (r: bool)
    ensures
        r == name_less(a@, b@),
{
    let la = chars_of(to_lowercase(a.as_str()).as_str());
    let lb = chars_of(to_lowercase(b.as_str()).as_str());
    let order = compare_chars(&la, &lb);
    if order == -1 {
        true
    } else if order == 0 {
        let ca = chars_of(a.as_str());
        let cb = chars_of(b.as_str());
        compare_chars(&ca, &cb) == -1
    } else {
        proof {
            assert(!chars_less(la@, lb@) && la@ != lb@);
        }
        false
    }
}

proof fn lemma_insert_name(s: Seq<Seq<char>>, x: Seq<char>, j: int)
    requires
        0 <= j <= s.len(),
        j == 0 || !name_less(x, s[j - 1]),
        forall|k: int| j <= k < s.len() ==> name_less(x, #[trigger] s[k]),
    ensures
        insert_name(s, x) == s.insert(j, x),
    decreases s.len(),
{
    if s.len() == 0 {
        assert(s.insert(j, x) =~= seq![x]);
    } else if j == s.len() {
        assert(s.insert(j, x) =~= s.push(x));
    } else {
        lemma_insert_name(s.drop_last(), x, j);
        assert(s.insert(j, x) =~= s.drop_last().insert(j, x).push(s.last()));
    }
}

proof fn lemma_insert_file(files: Seq<CsvFileEntry>, s: Seq<int>, x: int, j: int)
    requires
        0 <= j <= s.len(),
        j == 0 || !name_less(files[x].file_name@, files[s[j - 1]].file_name@),
        forall|k: int| j <= k < s.len() ==> name_less(files[x].file_name@, files[#[trigger] s[k]].file_name@),
    ensures
        insert_file(files, s, x) == s.insert(j, x),
    decreases s.len(),
{
    if s.len() == 0 {
        assert(s.insert(j, x) =~= seq![x]);
    } else if j == s.len() {
        assert(s.insert(j, x) =~= s.push(x));
    } else {
        lemma_insert_file(files, s.drop_last(), x, j);
        assert(s.insert(j, x) =~= s.drop_last().insert(j, x).push(s.last()));
    }
}

/// The names of the directories directly in `prefix`, in tree order.
fn child_directory_names(files: &Vec<CsvFileEntry>, dirs: &Vec<Vec<String>>, prefix: &Vec<String>) -> (r: Vec<String>)
    requires
        dirs@.len() == files@.len(),
        forall|i: int| 0 <= i < dirs@.len() ==> texts((#[trigger] dirs@[i])@) == dirs_of(files@[i]),
    ensures
        texts(r@) == child_dirs(files@, texts(prefix@)),
{
    let ghost p = texts(prefix@);
    let mut seen: Vec<String> = Vec::new();
    let mut i: usize = 0;
    while i < dirs.len()
        invariant
            p == texts(prefix@),
            dirs@.len() == files@.len(),
            forall|m: int| 0 <= m < dirs@.len() ==> texts((#[trigger] dirs@[m])@) == dirs_of(files@[m]),
            i <= dirs@.len(),
            texts(seen@) == seen_children(files@, p, i as nat),
        decreases dirs.len() - i,
    {
        let d = &dirs[i];
        proof {
            assert(texts(dirs@[i as int]@) == dirs_of(files@[i as int]));
        }
        if prefix.len() < d.len() && dirs_start_with(d, prefix) {
            let name = &d[prefix.len()];
            proof {
                assert(texts(d@)[prefix@.len() as int] == name@);
            }
            if !has_name(&seen, name) {
                seen.push(name.clone());
                proof {
                    assert(texts(seen@) =~= seen_children(files@, p, (i + 1) as nat));
                }
            }
        }
        i += 1;
    }
    let ghost input_seq = seen@;
    let total = seen.len();
    let mut rest = seen;
    let mut out: Vec<String> = Vec::new();
    let mut taken: usize = 0;
    while rest.len() > 0
        invariant
            input_seq.len() == total,
            taken + rest@.len() == input_seq.len(),
            rest@ == input_seq.subrange(taken as int, input_seq.len() as int),
            texts(out@) == sorted_names(texts(input_seq.subrange(0, taken as int))),
        decreases rest.len(),
    {
        let name = rest.remove(0);
        proof {
            assert(name == input_seq[taken as int]);
            let s = texts(input_seq.subrange(0, taken + 1));
            assert(s.drop_last() =~= texts(input_seq.subrange(0, taken as int)));
            assert(s.last() == name@);
            assert(rest@ == input_seq.subrange(taken + 1, input_seq.len() as int));
        }
        let mut j = out.len();
        while j > 0 && name_before(&name, &out[j - 1])
            invariant
                j <= out@.len(),
                forall|k: int| j <= k < out@.len() ==> name_less(name@, (#[trigger] out@[k])@),
            decreases j,
        {
            j -= 1;
        }
        proof {
            let t = texts(out@);
            assert forall|k: int| j <= k < t.len() implies name_less(name@, #[trigger] t[k]) by {
                assert(t[k] == out@[k]@);
            }
            if j > 0 {
                assert(t[j - 1] == out@[j - 1]@);
            }
            lemma_insert_name(t, name@, j as int);
        }
        let ghost before = out@;
        out.insert(j, name);
        proof {
            assert(texts(out@) =~= texts(before).insert(j as int, out@[j as int]@));
        }
        taken += 1;
    }
    proof {
        assert(input_seq.subrange(0, taken as int) == input_seq);
    }
    out
}

/// The positions of the files directly in `prefix`, sorted by file name in tree order.
fn files_directly_in(files: &Vec<CsvFileEntry>, dirs: &Vec<Vec<String>>, prefix: &Vec<String>) -> (r: Vec<usize>)
    requires
        dirs@.len() == files@.len(),
        forall|i: int| 0 <= i < dirs@.len() ==> texts((#[trigger] dirs@[i])@) == dirs_of(files@[i]),
    ensures
        positions(r@) == sorted_files(files@, files_here(files@, texts(prefix@), files@.len())),
        forall|k: int| 0 <= k < r@.len() ==> (#[trigger] r@[k]) < files@.len(),
{
    let ghost p = texts(prefix@);
    let mut here: Vec<usize> = Vec::new();
    let mut i: usize = 0;
    while i < dirs.len()
        invariant
            p == texts(prefix@),
            dirs@.len() == files@.len(),
            forall|m: int| 0 <= m < dirs@.len() ==> texts((#[trigger] dirs@[m])@) == dirs_of(files@[m]),
            i <= dirs@.len(),
            positions(here@) == files_here(files@, p, i as nat),
            forall|k: int| 0 <= k < here@.len() ==> (#[trigger] here@[k]) < i,
        decreases dirs.len() - i,
    {
        let d = &dirs[i];
        proof {
            assert(texts(dirs@[i as int]@) == dirs_of(files@[i as int]));
        }
        if d.len() == prefix.len() && dirs_start_with(d, prefix) {
            proof {
                assert(texts(d@).take(prefix@.len() as int) =~= texts(d@));
            }
            here.push(i);
            proof {
                assert(positions(here@) =~= files_here(files@, p, (i + 1) as nat));
            }
        } else {
            proof {
                if texts(d@) == p {
                    assert(texts(d@).take(prefix@.len() as int) =~= texts(d@));
                }
            }
        }
        i += 1;
    }
    let ghost input_seq = here@;
    let total = here.len();
    let mut rest = here;
    let mut out: Vec<usize> = Vec::new();
    let mut taken: usize = 0;
    while rest.len() > 0
        invariant
            input_seq.len() == total,
            taken + rest@.len() == input_seq.len(),
            rest@ == input_seq.subrange(taken as int, input_seq.len() as int),
            forall|k: int| 0 <= k < input_seq.len() ==> (#[trigger] input_seq[k]) < files@.len(),
            positions(out@) == sorted_files(files@, positions(input_seq.subrange(0, taken as int))),
            forall|k: int| 0 <= k < out@.len() ==> (#[trigger] out@[k]) < files@.len(),
        decreases rest.len(),
    {
        let x = rest.remove(0);
        proof {
            assert(x == input_seq[taken as int]);
            let s = positions(input_seq.subrange(0, taken + 1));
            assert(s.drop_last() =~= positions(input_seq.subrange(0, taken as int)));
            assert(s.last() == x as int);
            assert(rest@ == input_seq.subrange(taken + 1, input_seq.len() as int));
        }
        let mut j = out.len();
        while j > 0 && name_before(&files[x].file_name, &files[out[j - 1]].file_name)
            invariant
                j <= out@.len(),
                x < files@.len(),
                forall|k: int| 0 <= k < out@.len() ==> (#[trigger] out@[k]) < files@.len(),
                forall|k: int| j <= k < out@.len() ==> name_less(files@[x as int].file_name@, files@[(#[trigger] out@[k]) as int].file_name@),
            decreases j,
        {
            j -= 1;
        }
        proof {
            let t = positions(out@);
            assert forall|k: int| j <= k < t.len() implies name_less(files@[x as int].file_name@, files@[#[trigger] t[k]].file_name@) by {
                assert(t[k] == out@[k] as int);
            }
            if j > 0 {
                assert(t[j - 1] == out@[j - 1] as int);
            }
            lemma_insert_file(files@, t, x as int, j as int);
        }
        let ghost before = out@;
        out.insert(j, x);
        proof {
            assert(positions(out@) =~= positions(before).insert(j as int, x as int));
        }
        taken += 1;
    }
    proof {
        assert(input_seq.subrange(0, taken as int) == input_seq);
    }
    out
}

/// The components joined with `/`.
fn join_components(parts: &Vec<String>) -> (r: String)
    ensures
        r@ == join(texts(parts@), seq!['/']),
{
    let mut out: Vec<char> = Vec::new();
    let mut k: usize = 0;
    while k < parts.len()
        invariant
            k <= parts@.len(),
            out@ == join(texts(parts@).take(k as int), seq!['/']),
        decreases parts.len() - k,
    {
        let ghost before = out@;
        if k > 0 {
            out.push('/');
        }
        push_str(&mut out, parts[k].as_str());
        proof {
            let t = texts(parts@).take(k + 1);
            assert(t.drop_last() =~= texts(parts@).take(k as int));
            assert(t.last() == parts@[k as int]@);
            if k == 0 {
                assert(out@ =~= t[0]);
            } else {
                assert(out@ =~= before + seq!['/'] + t.last());
            }
        }
        k += 1;
    }
    proof {
        assert(texts(parts@).take(parts@.len() as int) =~= texts(parts@));
    }
    string_of(&out)
}

/// Whether a directory path is open (see `is_expanded`).
fn directory_is_expanded(expanded: &Vec<String>, expand_all: bool, path: &String) -> (r: bool)
    ensures
        r == is_expanded(texts(expanded@), expand_all, path@),
{
    if expand_all {
        return true;
    }
    let mut k: usize = 0;
    while k < expanded.len()
        invariant
            !expand_all,
            k <= expanded@.len(),
            forall|m: int| 0 <= m < k ==> !path_equal(expanded@[m]@, path@),
        decreases expanded.len() - k,
    {
        if paths_equal(expanded[k].as_str(), path.as_str()) {
            proof {
                assert(texts(expanded@)[k as int] == expanded@[k as int]@);
            }
            return true;
        }
        k += 1;
    }
    proof {
        assert forall|m: int| 0 <= m < texts(expanded@).len() implies !path_equal(#[trigger] texts(expanded@)[m], path@) by {
            assert(texts(expanded@)[m] == expanded@[m]@);
        }
    }
    false
}

/// Appends the rows of the tree below `prefix` (see `tree_rows`).
fn push_tree_rows(
    files: &Vec<CsvFileEntry>,
    dirs: &Vec<Vec<String>>,
    expanded: &Vec<String>,
    expand_all: bool,
    prefix: &Vec<String>,
    depth: usize,
    fuel: usize,
    rows: &mut Vec<WorkspaceTreeRow>,
)
    requires
        dirs@.len() == files@.len(),
        forall|i: int| 0 <= i < dirs@.len() ==> texts((#[trigger] dirs@[i])@) == dirs_of(files@[i]),
        depth + fuel <= usize::MAX,
    ensures
        final(rows)@.subrange(0, old(rows)@.len() as int) == old(rows)@,
        rows_from(final(rows)@, old(rows)@.len() as int,
            tree_rows(files@, texts(expanded@), expand_all, texts(prefix@), depth as nat, fuel as nat), files@),
    decreases fuel,
{
    let ghost start = rows@;
    let ghost p = texts(prefix@);
    let ghost ex = texts(expanded@);
    let names = child_directory_names(files, dirs, prefix);
    let ghost nv = texts(names@);
    let ghost whole = dir_block(files@, ex, expand_all, p, nv, 0, depth as nat, fuel as nat);
    let ghost mut acc: Seq<TreeRowView> = seq![];
    let mut i: usize = 0;
    while i < names.len()
        invariant
            dirs@.len() == files@.len(),
            forall|m: int| 0 <= m < dirs@.len() ==> texts((#[trigger] dirs@[m])@) == dirs_of(files@[m]),
            depth + fuel <= usize::MAX,
            p == texts(prefix@),
            ex == texts(expanded@),
            nv == texts(names@),
            i <= names@.len(),
            whole == dir_block(files@, ex, expand_all, p, nv, 0, depth as nat, fuel as nat),
            acc + dir_block(files@, ex, expand_all, p, nv, i as nat, depth as nat, fuel as nat) == whole,
            rows@.subrange(0, start.len() as int) == start,
            rows_from(rows@, start.len() as int, acc, files@),
        decreases names.len() - i,
    {
        let mut child: Vec<String> = Vec::new();
        let mut k: usize = 0;
        while k < prefix.len()
            invariant
                k <= prefix@.len(),
                child@.len() == k,
                texts(child@) == texts(prefix@).take(k as int),
            decreases prefix.len() - k,
        {
            let ghost before = child@;
            let component = prefix[k].clone();
            child.push(component);
            proof {
                assert(child@ == before.push(prefix@[k as int]));
                assert forall|m: int| 0 <= m < k + 1 implies texts(child@)[m] == texts(prefix@).take(k + 1)[m] by {
                    if m < k {
                        assert(texts(child@)[m] == child@[m]@);
                        assert(child@[m] == before[m]);
                        assert(texts(before)[m] == before[m]@);
                    }
                }
                assert(texts(child@) =~= texts(prefix@).take(k + 1));
            }
            k += 1;
        }
        proof {
            assert(texts(prefix@).take(prefix@.len() as int) =~= texts(prefix@));
        }
        let ghost before_name = child@;
        let component = names[i].clone();
        child.push(component);
        proof {
            assert(child@ == before_name.push(names@[i as int]));
            assert forall|m: int| 0 <= m < child@.len() implies texts(child@)[m] == p.push(nv[i as int])[m] by {
                if m < before_name.len() {
                    assert(child@[m] == before_name[m]);
                    assert(texts(before_name)[m] == before_name[m]@);
                }
            }
            assert(texts(child@) =~= p.push(nv[i as int]));
        }
        let path = join_components(&child);
        let open = directory_is_expanded(expanded, expand_all, &path);
        let ghost dir_view = TreeRowView::Dir { path: path@, name: nv[i as int], depth: depth as nat, expanded: open };
        let ghost mid = rows@;
        rows.push(WorkspaceTreeRow::Directory { relative_path: path, name: names[i].clone(), depth, expanded: open });
        proof {
            assert(rows@.subrange(0, start.len() as int) =~= start);
            assert forall|m: int| 0 <= m < acc.len() implies row_is(#[trigger] rows@[start.len() + m], acc[m], files@) by {
                assert(rows@[start.len() + m] == mid[start.len() + m]);
            }
            assert(row_is(rows@[mid.len() as int], dir_view, files@));
        }
        let ghost acc1 = acc.push(dir_view);
        proof {
            assert forall|m: int| 0 <= m < acc1.len() implies row_is(#[trigger] rows@[start.len() + m], acc1[m], files@) by {
                if m < acc.len() {
                    assert(acc1[m] == acc[m]);
                }
            }
        }
        let ghost sub = if open && fuel > 0 {
            tree_rows(files@, ex, expand_all, texts(child@), (depth + 1) as nat, (fuel - 1) as nat)
        } else {
            seq![]
        };
        if open && fuel > 0 {
            let ghost before_sub = rows@;
            push_tree_rows(files, dirs, expanded, expand_all, &child, depth + 1, fuel - 1, rows);
            proof {
                assert(rows@.subrange(0, before_sub.len() as int) == before_sub);
                assert(rows@.subrange(0, start.len() as int) =~= start) by {
                    assert forall|m: int| 0 <= m < start.len() implies rows@[m] == start[m] by {
                        assert(rows@[m] == before_sub[m]);
                        assert(before_sub[m] == start[m]);
                    }
                }
                assert forall|m: int| 0 <= m < acc1.len() implies row_is(#[trigger] rows@[start.len() + m], acc1[m], files@) by {
                    assert(rows@[start.len() + m] == before_sub[start.len() + m]);
                }
            }
        }
        let ghost acc2 = acc1 + sub;
        proof {
            assert forall|m: int| 0 <= m < acc2.len() implies row_is(#[trigger] rows@[start.len() + m], acc2[m], files@) by {
                if m < acc1.len() {
                    assert(acc2[m] == acc1[m]);
                } else {
                    assert(acc2[m] == sub[m - acc1.len()]);
                    assert(start.len() + m == start.len() + acc1.len() + (m - acc1.len()));
                }
            }
            assert(acc + dir_block(files@, ex, expand_all, p, nv, i as nat, depth as nat, fuel as nat)
                == acc2 + dir_block(files@, ex, expand_all, p, nv, (i + 1) as nat, depth as nat, fuel as nat));
        }
        proof {
            acc = acc2;
        }
        i += 1;
    }
    let idx = files_directly_in(files, dirs, prefix);
    let ghost fr = file_rows(positions(idx@), depth as nat);
    proof {
        assert(tree_rows(files@, ex, expand_all, p, depth as nat, fuel as nat) == whole + fr);
        assert(acc == whole);
    }
    let mut k: usize = 0;
    while k < idx.len()
        invariant
            forall|m: int| 0 <= m < idx@.len() ==> (#[trigger] idx@[m]) < files@.len(),
            fr == file_rows(positions(idx@), depth as nat),
            k <= idx@.len(),
            rows@.subrange(0, start.len() as int) == start,
            rows_from(rows@, start.len() as int, acc + fr.take(k as int), files@),
        decreases idx.len() - k,
    {
        let ghost before = rows@;
        let entry = files[idx[k]].copy();
        rows.push(WorkspaceTreeRow::File { entry, depth });
        proof {
            let views = acc + fr.take(k + 1);
            assert(rows@.subrange(0, start.len() as int) =~= start) by {
                assert forall|m: int| 0 <= m < start.len() implies rows@[m] == start[m] by {
                    assert(rows@[m] == before[m]);
                }
            }
            assert forall|m: int| 0 <= m < views.len() implies row_is(#[trigger] rows@[start.len() + m], views[m], files@) by {
                if m < acc.len() + k {
                    assert(views[m] == (acc + fr.take(k as int))[m]);
                    assert(rows@[start.len() + m] == before[start.len() + m]);
                } else {
                    assert(views[m] == fr[k as int]);
                }
            }
        }
        k += 1;
    }
    proof {
        assert(fr.take(k as int) =~= fr);
    }
}

/// The rows of the workspace tree: the directories of the files' relative paths and the files,
/// directories before files and each in tree order, the rows below a directory only when it is
/// open (see `tree_rows`).
pub fn visible_tree_rows(files: &Vec<CsvFileEntry>, expanded_directories: &Vec<String>, expand_all: bool) -> (r: Vec<WorkspaceTreeRow>)
    ensures
        rows_from(r@, 0, tree_rows(files@, texts(expanded_directories@), expand_all, seq![], 0, max_dirs(files@)), files@),
{
    let mut dirs: Vec<Vec<String>> = Vec::new();
    let mut deepest: usize = 0;
    let mut i: usize = 0;
    while i < files.len()
        invariant
            i <= files@.len(),
            dirs@.len() == i,
            forall|m: int| 0 <= m < i ==> texts((#[trigger] dirs@[m])@) == dirs_of(files@[m]),
            deepest == max_dirs(files@.take(i as int)),
        decreases files.len() - i,
    {
        let d = parent_components(files[i].relative_path.as_str());
        proof {
            let t = files@.take(i + 1);
            assert(t.drop_last() =~= files@.take(i as int));
            assert(t.last() == files@[i as int]);
            assert(texts(d@).len() == d@.len());
        }
        if d.len() > deepest {
            deepest = d.len();
        }
        dirs.push(d);
        i += 1;
    }
    proof {
        assert(files@.take(i as int) =~= files@);
    }
    let prefix: Vec<String> = Vec::new();
    let mut rows: Vec<WorkspaceTreeRow> = Vec::new();
    proof {
        assert(texts(prefix@) =~= Seq::<Seq<char>>::empty());
    }
    push_tree_rows(files, &dirs, expanded_directories, expand_all, &prefix, 0, deepest, &mut rows);
    rows
}

/// Whether a file lies in `prefix` and every directory between `prefix` and the file is open.
pub open spec fn reached_through_open(
    files: Seq<CsvFileEntry>,
    expanded: Seq<Seq<char>>,
    expand_all: bool,
    prefix: Seq<Seq<char>>,
    index: int,
) -> bool {
    let d = dirs_of(files[index]);
    &&& 0 <= index < files.len()
    &&& prefix.len() <= d.len()
    &&& d.take(prefix.len() as int) == prefix
    &&& forall|m: int| prefix.len() <= m < d.len() ==> #[trigger] is_expanded(expanded, expand_all, join(d.take(m + 1), seq!['/']))
}

/// Whether every file row of `rows` is reached through open directories from `prefix`.
pub open spec fn files_reached(
    rows: Seq<TreeRowView>,
    files: Seq<CsvFileEntry>,
    expanded: Seq<Seq<char>>,
    expand_all: bool,
    prefix: Seq<Seq<char>>,
) -> bool {
    forall|k: int| 0 <= k < rows.len() ==> (#[trigger] rows[k] matches TreeRowView::File { index, .. }
        ==> reached_through_open(files, expanded, expand_all, prefix, index))
}

proof fn lemma_insert_file_members(files: Seq<CsvFileEntry>, s: Seq<int>, x: int)
    ensures
        forall|e: int| #[trigger] insert_file(files, s, x).contains(e) <==> (s.contains(e) || e == x),
    decreases s.len(),
{
    if s.len() == 0 || !name_less(files[x].file_name@, files[s.last()].file_name@) {
        assert forall|e: int| s.push(x).contains(e) <==> (s.contains(e) || e == x) by {
            if s.push(x).contains(e) {
                let k = choose|k: int| 0 <= k < s.push(x).len() && s.push(x)[k] == e;
                if k < s.len() {
                    assert(s[k] == e);
                }
            }
            if s.contains(e) {
                let k = choose|k: int| 0 <= k < s.len() && s[k] == e;
                assert(s.push(x)[k] == e);
            }
            if e == x {
                assert(s.push(x)[s.len() as int] == e);
            }
        }
    } else {
        let init = s.drop_last();
        lemma_insert_file_members(files, init, x);
        let t = insert_file(files, init, x);
        assert forall|e: int| t.push(s.last()).contains(e) <==> (s.contains(e) || e == x) by {
            if t.push(s.last()).contains(e) {
                let k = choose|k: int| 0 <= k < t.push(s.last()).len() && t.push(s.last())[k] == e;
                if k < t.len() {
                    assert(t[k] == e);
                    assert(t.contains(e));
                    if init.contains(e) {
                        let j = choose|j: int| 0 <= j < init.len() && init[j] == e;
                        assert(s[j] == e);
                    }
                } else {
                    assert(s[s.len() - 1] == e);
                }
            }
            if s.contains(e) {
                let j = choose|j: int| 0 <= j < s.len() && s[j] == e;
                if j < s.len() - 1 {
                    assert(init[j] == e);
                    assert(init.contains(e));
                    assert(t.contains(e));
                    let k = choose|k: int| 0 <= k < t.len() && t[k] == e;
                    assert(t.push(s.last())[k] == e);
                } else {
                    assert(t.push(s.last())[t.len() as int] == e);
                }
            }
            if e == x {
                assert(t.contains(e));
                let k = choose|k: int| 0 <= k < t.len() && t[k] == e;
                assert(t.push(s.last())[k] == e);
            }
        }
    }
}

proof fn lemma_sorted_files_members(files: Seq<CsvFileEntry>, s: Seq<int>)
    ensures
        forall|e: int| #[trigger] sorted_files(files, s).contains(e) <==> s.contains(e),
    decreases s.len(),
{
    if s.len() > 0 {
        let init = s.drop_last();
        lemma_sorted_files_members(files, init);
        lemma_insert_file_members(files, sorted_files(files, init), s.last());
        assert forall|e: int| sorted_files(files, s).contains(e) <==> s.contains(e) by {
            if s.contains(e) {
                let j = choose|j: int| 0 <= j < s.len() && s[j] == e;
                if j < s.len() - 1 {
                    assert(init[j] == e);
                }
            }
            if init.contains(e) {
                let j = choose|j: int| 0 <= j < init.len() && init[j] == e;
                assert(s[j] == e);
            }
        }
    }
}

proof fn lemma_files_here_members(files: Seq<CsvFileEntry>, prefix: Seq<Seq<char>>, n: nat)
    ensures
        forall|e: int| #[trigger] files_here(files, prefix, n).contains(e) ==> 0 <= e < files.len() && dirs_of(files[e]) == prefix,
    decreases n,
{
    if n > 0 && n <= files.len() {
        lemma_files_here_members(files, prefix, (n - 1) as nat);
        let acc = files_here(files, prefix, (n - 1) as nat);
        assert forall|e: int| #[trigger] files_here(files, prefix, n).contains(e) implies 0 <= e < files.len() && dirs_of(files[e]) == prefix by {
            if dirs_of(files[n - 1]) == prefix {
                let grown = acc.push(n - 1);
                let k = choose|k: int| 0 <= k < grown.len() && #[trigger] grown[k] == e;
                if k < acc.len() {
                    assert(acc[k] == e);
                    assert(acc.contains(e));
                }
            }
        }
    }
}

proof fn lemma_tree_files_reached(
    files: Seq<CsvFileEntry>,
    expanded: Seq<Seq<char>>,
    expand_all: bool,
    prefix: Seq<Seq<char>>,
    depth: nat,
    fuel: nat,
)
    ensures
        files_reached(tree_rows(files, expanded, expand_all, prefix, depth, fuel), files, expanded, expand_all, prefix),
    decreases fuel, 1nat, 0nat,
{
    let names = child_dirs(files, prefix);
    lemma_block_files_reached(files, expanded, expand_all, prefix, names, 0, depth, fuel);
    let here = files_here(files, prefix, files.len());
    let sorted = sorted_files(files, here);
    lemma_sorted_files_members(files, here);
    lemma_files_here_members(files, prefix, files.len());
    let block = dir_block(files, expanded, expand_all, prefix, names, 0, depth, fuel);
    let fr = file_rows(sorted, depth);
    let rows = block + fr;
    assert forall|k: int| 0 <= k < rows.len() implies (#[trigger] rows[k] matches TreeRowView::File { index, .. }
        ==> reached_through_open(files, expanded, expand_all, prefix, index)) by {
        if k >= block.len() {
            let j = k - block.len();
            assert(rows[k] == fr[j]);
            assert(sorted[j] == sorted[j]);
            assert(sorted.contains(sorted[j]));
            assert(here.contains(sorted[j]));
            let i = sorted[j];
            assert(dirs_of(files[i]) == prefix);
            assert(dirs_of(files[i]).take(prefix.len() as int) =~= prefix);
        } else {
            assert(rows[k] == block[k]);
        }
    }
}

proof fn lemma_block_files_reached(
    files: Seq<CsvFileEntry>,
    expanded: Seq<Seq<char>>,
    expand_all: bool,
    prefix: Seq<Seq<char>>,
    names: Seq<Seq<char>>,
    i: nat,
    depth: nat,
    fuel: nat,
)
    ensures
        files_reached(dir_block(files, expanded, expand_all, prefix, names, i, depth, fuel), files, expanded, expand_all, prefix),
    decreases fuel, 0nat, names.len() - i,
{
    if i < names.len() {
        let p = prefix.push(names[i as int]);
        let path = join(p, seq!['/']);
        let open = is_expanded(expanded, expand_all, path);
        let head = seq![TreeRowView::Dir { path, name: names[i as int], depth, expanded: open }];
        let sub = if open && fuel > 0 { tree_rows(files, expanded, expand_all, p, depth + 1, (fuel - 1) as nat) } else { seq![] };
        let rest = dir_block(files, expanded, expand_all, prefix, names, i + 1, depth, fuel);
        lemma_block_files_reached(files, expanded, expand_all, prefix, names, i + 1, depth, fuel);
        if open && fuel > 0 {
            lemma_tree_files_reached(files, expanded, expand_all, p, depth + 1, (fuel - 1) as nat);
        }
        let rows = head + sub + rest;
        assert forall|k: int| 0 <= k < rows.len() implies (#[trigger] rows[k] matches TreeRowView::File { index, .. }
            ==> reached_through_open(files, expanded, expand_all, prefix, index)) by {
            if k < 1 {
                assert(rows[k] == head[k]);
            } else if k < 1 + sub.len() {
                let j = k - 1;
                assert(rows[k] == sub[j]);
                if let TreeRowView::File { index, .. } = sub[j] {
                    assert(reached_through_open(files, expanded, expand_all, p, index));
                    let d = dirs_of(files[index]);
                    assert(d.take(p.len() as int) == p);
                    assert(d.take(prefix.len() as int) =~= prefix) by {
                        assert forall|m: int| 0 <= m < prefix.len() implies d.take(prefix.len() as int)[m] == prefix[m] by {
                            assert(d.take(p.len() as int)[m] == p[m]);
                        }
                    }
                    assert forall|m: int| prefix.len() <= m < d.len() implies #[trigger] is_expanded(expanded, expand_all, join(d.take(m + 1), seq!['/'])) by {
                        if m == prefix.len() {
                            assert(d.take(m + 1) =~= p);
                        }
                    }
                }
            } else {
                let j = k - 1 - sub.len();
                assert(rows[k] == rest[j]);
            }
        }
        assert(dir_block(files, expanded, expand_all, prefix, names, i, depth, fuel) == rows);
    }
}

/// The tree shows a file only below open directories: every file row lies in directories that
/// are all open (or the search opens them all).
pub proof fn law_tree_shows_files_only_below_open_directories(
    files: Seq<CsvFileEntry>,
    expanded: Seq<Seq<char>>,
    expand_all: bool,
    fuel: nat,
)
    ensures
        files_reached(tree_rows(files, expanded, expand_all, seq![], 0, fuel), files, expanded, expand_all, seq![]),
{
    lemma_tree_files_reached(files, expanded, expand_all, seq![], 0, fuel);
}

/// Whether entries come in the order of their keys (lower-cased relative paths).
pub open spec fn path_sorted(s: Seq<CsvFileEntry>) -> bool {
    forall|i: int, j: int| 0 <= i < j < s.len() ==> !chars_less(path_key(#[trigger] s[j]), path_key(#[trigger] s[i]))
}

proof fn lemma_insert_by_path_members(s: Seq<CsvFileEntry>, x: CsvFileEntry)
    ensures
        insert_by_path(s, x).len() == s.len() + 1,
        forall|e: CsvFileEntry| #[trigger] insert_by_path(s, x).contains(e) <==> (s.contains(e) || e == x),
    decreases s.len(),
{
    if s.len() == 0 || !chars_less(path_key(x), path_key(s.last())) {
        assert forall|e: CsvFileEntry| #[trigger] s.push(x).contains(e) <==> (s.contains(e) || e == x) by {
            if s.push(x).contains(e) {
                let k = choose|k: int| 0 <= k < s.push(x).len() && s.push(x)[k] == e;
                if k < s.len() {
                    assert(s[k] == e);
                }
            }
            if s.contains(e) {
                let k = choose|k: int| 0 <= k < s.len() && s[k] == e;
                assert(s.push(x)[k] == e);
            }
            if e == x {
                assert(s.push(x)[s.len() as int] == e);
            }
        }
    } else {
        let init = s.drop_last();
        lemma_insert_by_path_members(init, x);
        let t = insert_by_path(init, x);
        assert forall|e: CsvFileEntry| #[trigger] t.push(s.last()).contains(e) <==> (s.contains(e) || e == x) by {
            if t.push(s.last()).contains(e) {
                let k = choose|k: int| 0 <= k < t.push(s.last()).len() && t.push(s.last())[k] == e;
                if k < t.len() {
                    assert(t[k] == e);
                    assert(t.contains(e));
                    if init.contains(e) {
                        let j = choose|j: int| 0 <= j < init.len() && init[j] == e;
                        assert(s[j] == e);
                    }
                } else {
                    assert(s[s.len() - 1] == e);
                }
            }
            if s.contains(e) {
                let j = choose|j: int| 0 <= j < s.len() && s[j] == e;
                if j < s.len() - 1 {
                    assert(init[j] == e);
                    assert(init.contains(e));
                    assert(t.contains(e));
                    let k = choose|k: int| 0 <= k < t.len() && t[k] == e;
                    assert(t.push(s.last())[k] == e);
                } else {
                    assert(t.push(s.last())[t.len() as int] == e);
                }
            }
            if e == x {
                assert(t.contains(e));
                let k = choose|k: int| 0 <= k < t.len() && t[k] == e;
                assert(t.push(s.last())[k] == e);
            }
        }
    }
}

proof fn lemma_insert_by_path_sorted(s: Seq<CsvFileEntry>, x: CsvFileEntry)
    requires
        path_sorted(s),
    ensures
        path_sorted(insert_by_path(s, x)),
    decreases s.len(),
{
    if s.len() == 0 || !chars_less(path_key(x), path_key(s.last())) {
        let r = s.push(x);
        assert forall|i: int, j: int| 0 <= i < j < r.len() implies !chars_less(path_key(#[trigger] r[j]), path_key(#[trigger] r[i])) by {
            if j == s.len() {
                let last = s.len() - 1;
                assert(r[i] == s[i]);
                if chars_less(path_key(x), path_key(s[i])) {
                    if i < last {
                        assert(!chars_less(path_key(s[last]), path_key(s[i])));
                        if path_key(s[i]) != path_key(s[last]) {
                            lemma_chars_less_total(path_key(s[i]), path_key(s[last]));
                            lemma_chars_less_transitive(path_key(x), path_key(s[i]), path_key(s[last]));
                        }
                    }
                }
            } else {
                assert(r[i] == s[i] && r[j] == s[j]);
            }
        }
    } else {
        let init = s.drop_last();
        let last = s.last();
        assert(path_sorted(init)) by {
            assert forall|i: int, j: int| 0 <= i < j < init.len() implies !chars_less(path_key(#[trigger] init[j]), path_key(#[trigger] init[i])) by {
                assert(init[i] == s[i] && init[j] == s[j]);
            }
        }
        lemma_insert_by_path_sorted(init, x);
        lemma_insert_by_path_members(init, x);
        let t = insert_by_path(init, x);
        let r = t.push(last);
        assert forall|i: int, j: int| 0 <= i < j < r.len() implies !chars_less(path_key(#[trigger] r[j]), path_key(#[trigger] r[i])) by {
            if j == t.len() {
                assert(r[i] == t[i]);
                assert(t.contains(t[i]));
                if init.contains(t[i]) {
                    let k = choose|k: int| 0 <= k < init.len() && init[k] == t[i];
                    assert(s[k] == t[i]);
                    assert(s[s.len() - 1] == last);
                } else {
                    assert(t[i] == x);
                    if chars_less(path_key(last), path_key(x)) {
                        lemma_chars_less_transitive(path_key(x), path_key(last), path_key(x));
                        lemma_chars_less_irreflexive(path_key(x));
                    }
                }
            } else {
                assert(r[i] == t[i] && r[j] == t[j]);
            }
        }
    }
}

proof fn lemma_sorted_by_path(s: Seq<CsvFileEntry>)
    ensures
        path_sorted(sorted_by_path(s)),
        sorted_by_path(s).len() == s.len(),
        forall|e: CsvFileEntry| #[trigger] sorted_by_path(s).contains(e) <==> s.contains(e),
    decreases s.len(),
{
    if s.len() > 0 {
        let init = s.drop_last();
        lemma_sorted_by_path(init);
        lemma_insert_by_path_sorted(sorted_by_path(init), s.last());
        lemma_insert_by_path_members(sorted_by_path(init), s.last());
        assert forall|e: CsvFileEntry| #[trigger] sorted_by_path(s).contains(e) <==> s.contains(e) by {
            if s.contains(e) {
                let j = choose|j: int| 0 <= j < s.len() && s[j] == e;
                if j < s.len() - 1 {
                    assert(init[j] == e);
                    assert(init.contains(e));
                }
            }
            if init.contains(e) {
                let j = choose|j: int| 0 <= j < init.len() && init[j] == e;
                assert(s[j] == e);
            }
        }
    }
}

/// The workspace's file list has as many entries as it was given, holds just those files, and
/// comes sorted by their lower-cased relative paths.
pub proof fn law_file_list_is_sorted_by_path(files: Seq<CsvFileEntry>)
    ensures
        path_sorted(sorted_by_path(files)),
        sorted_by_path(files).len() == files.len(),
        forall|e: CsvFileEntry| #[trigger] sorted_by_path(files).contains(e) <==> files.contains(e),
{
    lemma_sorted_by_path(files);
}

} // verus!
