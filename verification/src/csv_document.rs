use vstd::prelude::*;
use std::path::{Path, PathBuf};
use std::io::Cursor;

use crate::text::{decimal, push_decimal, push_str, string_of};
use vstd::utf8::{encode_utf8, decode_utf8, is_char_boundary, valid_utf8, is_char_boundary_start_end_of_seq, valid_utf8_split, valid_utf8_concat, encode_utf8_valid_utf8, decode_utf8_encode_utf8};
use vstd::slice::slice_subrange;
use crate::utf8_facts::{lemma_boundary_after_ascii, lemma_boundary_prefix, lemma_boundary_suffix, lemma_encode_concat};

verus! {

/// The byte-order mark that may precede UTF-8 text.
pub open spec fn utf8_bom() -> Seq<u8> {
    seq![0xEFu8, 0xBBu8, 0xBFu8]
}

/// A path, carried through the document and its errors.
#[verifier::external_type_specification]
#[verifier::external_body]
pub struct ExPathBuf(PathBuf);

/// An I/O failure, carried through the read error.
#[verifier::external_type_specification]
#[verifier::external_body]
pub struct ExIoError(std::io::Error);

#[derive(Clone, Copy, Debug, PartialEq, Eq, Structural)]
pub enum LineEnding {
    Lf,
    CrLf,
}

#[derive(Clone, Copy, Debug, PartialEq, Eq, Structural)]
pub enum DelimiterSource {
    Detected,
    Default,
    Manual,
}

#[derive(Clone, Copy, Debug, PartialEq, Eq, Structural)]
pub enum CsvDelimiter {
    Comma,
    Tab,
    Semicolon,
    Pipe,
}

/// The byte that separates fields for a delimiter choice.
pub open spec fn delimiter_byte(d: CsvDelimiter) -> u8 {
    match d {
        CsvDelimiter::Comma => 44u8,
        CsvDelimiter::Tab => 9u8,
        CsvDelimiter::Semicolon => 59u8,
        CsvDelimiter::Pipe => 124u8,
    }
}

/// The name a delimiter choice is stored under in the settings.
pub open spec fn delimiter_setting(d: CsvDelimiter) -> Seq<char> {
    match d {
        CsvDelimiter::Comma => "comma"@,
        CsvDelimiter::Tab => "tab"@,
        CsvDelimiter::Semicolon => "semicolon"@,
        CsvDelimiter::Pipe => "pipe"@,
    }
}

/// The label shown for a delimiter choice.
pub open spec fn delimiter_label(d: CsvDelimiter) -> Seq<char> {
    match d {
        CsvDelimiter::Comma => "Comma"@,
        CsvDelimiter::Tab => "Tab"@,
        CsvDelimiter::Semicolon => "Semicolon"@,
        CsvDelimiter::Pipe => "Pipe"@,
    }
}

impl CsvDelimiter {
    pub const ALL: [CsvDelimiter; 4] = [
        CsvDelimiter::Comma,
        CsvDelimiter::Tab,
        CsvDelimiter::Semicolon,
        CsvDelimiter::Pipe,
    ];

    pub fn byte(self) -> (b: u8)
        ensures
            b == delimiter_byte(self),
    {
        match self {
            CsvDelimiter::Comma => 44u8,
            CsvDelimiter::Tab => 9u8,
            CsvDelimiter::Semicolon => 59u8,
            CsvDelimiter::Pipe => 124u8,
        }
    }

    pub fn label(self) -> (s: &'static str)
        ensures
            s@ == delimiter_label(self),
    {
        match self {
            CsvDelimiter::Comma => "Comma",
            CsvDelimiter::Tab => "Tab",
            CsvDelimiter::Semicolon => "Semicolon",
            CsvDelimiter::Pipe => "Pipe",
        }
    }

    pub fn from_byte(byte: u8) -> (d: Option<CsvDelimiter>)
        ensures
            d matches Some(x) ==> delimiter_byte(x) == byte,
            d is None <==> (byte != 44u8 && byte != 9u8 && byte != 59u8 && byte != 124u8),
    {
        match byte {
            44u8 => Some(CsvDelimiter::Comma),
            9u8 => Some(CsvDelimiter::Tab),
            59u8 => Some(CsvDelimiter::Semicolon),
            124u8 => Some(CsvDelimiter::Pipe),
            _ => None,
        }
    }

    pub fn setting_value(self) -> (s: &'static str)
        ensures
            s@ == delimiter_setting(self),
    {
        match self {
            CsvDelimiter::Comma => "comma",
            CsvDelimiter::Tab => "tab",
            CsvDelimiter::Semicolon => "semicolon",
            CsvDelimiter::Pipe => "pipe",
        }
    }

    pub fn from_setting_value(value: &str) -> (d: Option<CsvDelimiter>)
        ensures
            d matches Some(x) ==> delimiter_setting(x) == value@,
            d is None <==> (forall|x: CsvDelimiter| delimiter_setting(x) != value@),
    {
        let chars = crate::text::chars_of(value);
        let all = [
            CsvDelimiter::Comma,
            CsvDelimiter::Tab,
            CsvDelimiter::Semicolon,
            CsvDelimiter::Pipe,
        ];
        let mut i: usize = 0;
        while i < 4
            invariant
                i <= 4,
                chars@ == value@,
                all@ == seq![
                    CsvDelimiter::Comma,
                    CsvDelimiter::Tab,
                    CsvDelimiter::Semicolon,
                    CsvDelimiter::Pipe,
                ],
                forall|j: int| 0 <= j < i ==> delimiter_setting(#[trigger] all@[j]) != value@,
            decreases 4 - i,
        {
            let candidate = all[i];
            let setting = crate::text::chars_of(candidate.setting_value());
            if crate::text::chars_equal(&chars, &setting) {
                return Some(candidate);
            }
            i += 1;
        }
        proof {
            assert forall|x: CsvDelimiter| delimiter_setting(x) != value@ by {
                match x {
                    CsvDelimiter::Comma => assert(all@[0] == x),
                    CsvDelimiter::Tab => assert(all@[1] == x),
                    CsvDelimiter::Semicolon => assert(all@[2] == x),
                    CsvDelimiter::Pipe => assert(all@[3] == x),
                }
            }
        }
        None
    }
}

/// Every delimiter choice is found again from its byte and from its setting name.
pub proof fn lemma_delimiter_round_trip(d: CsvDelimiter)
    ensures
        forall|e: CsvDelimiter| delimiter_byte(e) == delimiter_byte(d) ==> e == d,
        forall|e: CsvDelimiter| delimiter_setting(e) == delimiter_setting(d) ==> e == d,
{
    reveal_strlit("comma");
    reveal_strlit("tab");
    reveal_strlit("semicolon");
    reveal_strlit("pipe");
    assert forall|e: CsvDelimiter| delimiter_setting(e) == delimiter_setting(d) implies e == d by {
        if e != d {
            let a = delimiter_setting(e);
            let b = delimiter_setting(d);
            assert(a.len() != b.len() || a[0] != b[0]);
        }
    }
}


/// One problem found while reading the text, at a byte offset of it.
pub struct ParseIssue {
    pub byte: usize,
    pub message: String,
}

impl View for ParseIssue {
    type V = (nat, Seq<char>);

    open spec fn view(&self) -> (nat, Seq<char>) {
        (self.byte as nat, self.message@)
    }
}

#[derive(Clone, Copy, Debug, PartialEq, Eq, Structural)]
pub enum QuoteState {
    FieldStart,
    Unquoted,
    Quoted,
    QuoteClosed,
}

pub enum QuoteIssueKind {
    UnexpectedQuote,
    AfterClosingQuote,
    Unclosed,
}

/// A quoting problem: its kind and the byte it is reported at.
pub struct QuoteIssue {
    pub byte: nat,
    pub kind: QuoteIssueKind,
}

pub open spec fn quote_issue_message(q: QuoteIssue) -> Seq<char> {
    match q.kind {
        QuoteIssueKind::UnexpectedQuote => "unexpected quote in unquoted field at byte "@ + decimal(q.byte),
        QuoteIssueKind::AfterClosingQuote => "unexpected character after closing quote at byte "@ + decimal(q.byte),
        QuoteIssueKind::Unclosed => "unclosed quoted field starting at byte "@ + decimal(q.byte),
    }
}

pub open spec fn quote_issue_view(q: QuoteIssue) -> (nat, Seq<char>) {
    (q.byte, quote_issue_message(q))
}

/// How many bytes a line break at `i` takes beyond its first: one more for a `\r\n` pair.
pub open spec fn crlf_extra(b: Seq<u8>, i: int) -> int {
    if b[i] == 13u8 && i + 1 < b.len() && b[i + 1] == 10u8 { 1 } else { 0 }
}

/// The quoting problems of the text from byte `i` on, when the scan is in state `st` there and
/// the quoted field being read (if any) began at `qs`. Fields are separated by `d`; a line break
/// (`\n`, `\r` or `\r\n`) ends a record.
pub open spec fn quote_scan(b: Seq<u8>, d: u8, i: int, st: QuoteState, qs: nat) -> Seq<QuoteIssue>
    decreases b.len() - i,
{
    if i < 0 || i >= b.len() {
        if st == QuoteState::Quoted {
            seq![QuoteIssue { byte: qs, kind: QuoteIssueKind::Unclosed }]
        } else {
            seq![]
        }
    } else {
        let c = b[i];
        let line_break = c == 10u8 || c == 13u8;
        match st {
            QuoteState::FieldStart => {
                if c == 34u8 {
                    quote_scan(b, d, i + 1, QuoteState::Quoted, i as nat)
                } else if c == d {
                    quote_scan(b, d, i + 1, QuoteState::FieldStart, qs)
                } else if line_break {
                    quote_scan(b, d, i + 1 + crlf_extra(b, i), QuoteState::FieldStart, qs)
                } else {
                    quote_scan(b, d, i + 1, QuoteState::Unquoted, qs)
                }
            },
            QuoteState::Unquoted => {
                if c == 34u8 {
                    seq![QuoteIssue { byte: i as nat, kind: QuoteIssueKind::UnexpectedQuote }]
                        + quote_scan(b, d, i + 1, QuoteState::Unquoted, qs)
                } else if c == d {
                    quote_scan(b, d, i + 1, QuoteState::FieldStart, qs)
                } else if line_break {
                    quote_scan(b, d, i + 1 + crlf_extra(b, i), QuoteState::FieldStart, qs)
                } else {
                    quote_scan(b, d, i + 1, QuoteState::Unquoted, qs)
                }
            },
            QuoteState::Quoted => {
                if c == 34u8 {
                    quote_scan(b, d, i + 1, QuoteState::QuoteClosed, qs)
                } else {
                    quote_scan(b, d, i + 1, QuoteState::Quoted, qs)
                }
            },
            QuoteState::QuoteClosed => {
                if c == 34u8 {
                    quote_scan(b, d, i + 1, QuoteState::Quoted, qs)
                } else if c == d {
                    quote_scan(b, d, i + 1, QuoteState::FieldStart, qs)
                } else if line_break {
                    quote_scan(b, d, i + 1 + crlf_extra(b, i), QuoteState::FieldStart, qs)
                } else {
                    seq![QuoteIssue { byte: i as nat, kind: QuoteIssueKind::AfterClosingQuote }]
                        + quote_scan(b, d, i + 1, QuoteState::Unquoted, qs)
                }
            },
        }
    }
}

pub open spec fn issue_views(s: Seq<ParseIssue>) -> Seq<(nat, Seq<char>)> {
    Seq::new(s.len(), |i: int| s[i]@)
}

pub open spec fn quote_views(s: Seq<QuoteIssue>) -> Seq<(nat, Seq<char>)> {
    Seq::new(s.len(), |i: int| quote_issue_view(s[i]))
}

/// The quoting problems of a whole text.
pub open spec fn quote_issues(b: Seq<u8>, d: u8) -> Seq<(nat, Seq<char>)> {
    quote_views(quote_scan(b, d, 0, QuoteState::FieldStart, 0))
}

proof fn lemma_push_issue_views(issues: Seq<ParseIssue>, found: Seq<QuoteIssue>, p: ParseIssue, q: QuoteIssue)
    requires
        issue_views(issues) == quote_views(found),
        p@ == quote_issue_view(q),
    ensures
        issue_views(issues.push(p)) == quote_views(found.push(q)),
{
    let l = issue_views(issues.push(p));
    let r = quote_views(found.push(q));
    assert(issues.len() == found.len()) by {
        assert(issue_views(issues).len() == issues.len());
        assert(quote_views(found).len() == found.len());
        assert(issue_views(issues).len() == quote_views(found).len());
    }
    assert forall|j: int| 0 <= j < l.len() implies l[j] == r[j] by {
        if j < issues.len() {
            assert(issue_views(issues)[j] == quote_views(found)[j]);
        }
    }
    assert(l =~= r);
}

fn issue_text(prefix: &str, byte: usize) -> (s: String)
    ensures
        s@ == prefix@ + decimal(byte as nat),
{
    let mut out: Vec<char> = Vec::new();
    push_str(&mut out, prefix);
    push_decimal(&mut out, byte as u128);
    string_of(&out)
}

/// Checks the quoting of every field: a quote may only open a field, close it, or be doubled
/// inside a quoted field, and every quoted field must be closed.
pub fn validate_quote_syntax(bytes: &[u8], delimiter: u8) -> (issues: Vec<ParseIssue>)
    ensures
        issue_views(issues@) == quote_issues(bytes@, delimiter),
{
    let mut issues: Vec<ParseIssue> = Vec::new();
    let mut state = QuoteState::FieldStart;
    let mut quoted_field_start: usize = 0;
    let mut index: usize = 0;
    let ghost found: Seq<QuoteIssue> = seq![];
    let ghost b = bytes@;
    while index < bytes.len()
        invariant
            b == bytes@,
            index <= bytes.len(),
            issue_views(issues@) == quote_views(found),
            found + quote_scan(b, delimiter, index as int, state, quoted_field_start as nat)
                == quote_scan(b, delimiter, 0, QuoteState::FieldStart, 0),
        decreases bytes.len() - index,
    {
        let byte = bytes[index];
        let line_break = byte == 10u8 || byte == 13u8;
        let extra: usize = if byte == 13u8 && index + 1 < bytes.len() && bytes[index + 1] == 10u8 {
            1
        } else {
            0
        };
        let ghost before = quote_scan(b, delimiter, index as int, state, quoted_field_start as nat);
        let ghost old_found = found;
        let ghost old_issues = issues@;
        match state {
            QuoteState::FieldStart => {
                if byte == 34u8 {
                    quoted_field_start = index;
                    state = QuoteState::Quoted;
                } else if byte == delimiter {
                } else if line_break {
                    index += extra;
                } else {
                    state = QuoteState::Unquoted;
                }
            },
            QuoteState::Unquoted => {
                if byte == 34u8 {
                    let message = issue_text("unexpected quote in unquoted field at byte ", index);
                    let issue = ParseIssue { byte: index, message };
                    proof {
                        lemma_push_issue_views(issues@, found, issue, QuoteIssue { byte: index as nat, kind: QuoteIssueKind::UnexpectedQuote });
                    }
                    issues.push(issue);
                    proof {
                        found = found.push(QuoteIssue { byte: index as nat, kind: QuoteIssueKind::UnexpectedQuote });
                    }
                } else if byte == delimiter {
                    state = QuoteState::FieldStart;
                } else if line_break {
                    state = QuoteState::FieldStart;
                    index += extra;
                }
            },
            QuoteState::Quoted => {
                if byte == 34u8 {
                    state = QuoteState::QuoteClosed;
                }
            },
            QuoteState::QuoteClosed => {
                if byte == 34u8 {
                    state = QuoteState::Quoted;
                } else if byte == delimiter {
                    state = QuoteState::FieldStart;
                } else if line_break {
                    state = QuoteState::FieldStart;
                    index += extra;
                } else {
                    let at = index;
                    let message = issue_text("unexpected character after closing quote at byte ", at);
                    let issue = ParseIssue { byte: at, message };
                    proof {
                        lemma_push_issue_views(issues@, found, issue, QuoteIssue { byte: at as nat, kind: QuoteIssueKind::AfterClosingQuote });
                    }
                    issues.push(issue);
                    proof {
                        found = found.push(QuoteIssue { byte: at as nat, kind: QuoteIssueKind::AfterClosingQuote });
                    }
                    state = QuoteState::Unquoted;
                }
            },
        }
        index += 1;
        proof {
            if found.len() > old_found.len() {
                assert(found == old_found + seq![found.last()]);
                assert(found + quote_scan(b, delimiter, index as int, state, quoted_field_start as nat)
                    =~= old_found + before);
            }
        }
    }
    if state == QuoteState::Quoted {
        let message = issue_text("unclosed quoted field starting at byte ", quoted_field_start);
        let issue = ParseIssue { byte: quoted_field_start, message };
        proof {
            lemma_push_issue_views(issues@, found, issue, QuoteIssue { byte: quoted_field_start as nat, kind: QuoteIssueKind::Unclosed });
        }
        issues.push(issue);
        proof {
            found = found.push(QuoteIssue { byte: quoted_field_start as nat, kind: QuoteIssueKind::Unclosed });
        }
    }
    proof {
        assert(found =~= quote_scan(b, delimiter, 0, QuoteState::FieldStart, 0));
    }
    issues
}


/// An in-memory source of bytes for a reader.
#[verifier::external_type_specification]
#[verifier::external_body]
#[verifier::reject_recursive_types(T)]
pub struct ExCursor<T>(Cursor<T>);

/// A CSV reader of the `csv` crate.
#[verifier::external_type_specification]
#[verifier::external_body]
#[verifier::reject_recursive_types(R)]
pub struct ExCsvReader<R>(csv::Reader<R>);

/// What one call to the reader gives: a record (its fields, the byte offset and line where it
/// starts, the byte offset where the reader stands after it), the end of the input, or a failure.
pub enum CsvRead {
    Record { fields: Seq<Seq<char>>, start: Option<u64>, line: Option<u64>, end: u64 },
    End,
    Failed { byte: Option<u64>, message: Seq<char> },
}

pub enum CsvReadOutcome {
    Record { fields: Vec<String>, start: Option<u64>, line: Option<u64>, end: u64 },
    End,
    Failed { byte: Option<u64>, message: String },
}

impl View for CsvReadOutcome {
    type V = CsvRead;

    open spec fn view(&self) -> CsvRead {
        match self {
            CsvReadOutcome::Record { fields, start, line, end } => CsvRead::Record {
                fields: fields.deep_view(),
                start: *start,
                line: *line,
                end: *end,
            },
            CsvReadOutcome::End => CsvRead::End,
            CsvReadOutcome::Failed { byte, message } => CsvRead::Failed {
                byte: *byte,
                message: message@,
            },
        }
    }
}

/// The successive results of reading `text` with the `csv` crate (no header record, the given
/// field delimiter, records of unequal width accepted when `flexible`), up to and including the
/// first result that is not a record.
pub uninterp spec fn csv_read_outcomes(text: Seq<char>, delimiter: u8, flexible: bool) -> Seq<CsvRead>;

/// The results a reader has still to give, in order.
pub uninterp spec fn csv_reader_pending(reader: csv::Reader<Cursor<Vec<u8>>>) -> Seq<CsvRead>;

/// The shape of a reader's results on a text whose UTF-8 encoding is `bytes`: records, then one
/// end or failure; the first record starts at byte 0 and each next one where the previous ended;
/// every record ends at a character boundary inside the text, and has a line number.
#[verifier::opaque]
pub open spec fn csv_outcomes_wf(outs: Seq<CsvRead>, bytes: Seq<u8>) -> bool {
    &&& outs.len() > 0
    &&& !(outs.last() is Record)
    &&& forall|i: int| 0 <= i < outs.len() - 1 ==> #[trigger] outs[i] is Record
    &&& forall|i: int|
        0 <= i < outs.len() - 1 ==> {
            let o = #[trigger] outs[i];
            &&& o->start is Some
            &&& o->line is Some
            &&& o->start->0 <= o->end <= bytes.len()
            &&& is_char_boundary(bytes, o->end as int)
            &&& (i == 0 ==> o->start->0 == 0)
            &&& (i > 0 ==> o->start->0 == outs[i - 1]->end)
        }
}

proof fn lemma_outcome_at(outs: Seq<CsvRead>, bytes: Seq<u8>, i: int)
    requires
        csv_outcomes_wf(outs, bytes),
        0 <= i < outs.len(),
    ensures
        outs.len() > 0,
        i == outs.len() - 1 <==> !(outs[i] is Record),
        outs[i] is Record ==> {
            &&& outs[i]->start is Some
            &&& outs[i]->line is Some
            &&& outs[i]->start->0 <= outs[i]->end <= bytes.len()
            &&& is_char_boundary(bytes, outs[i]->end as int)
            &&& (i == 0 ==> outs[i]->start->0 == 0)
            &&& (i > 0 ==> outs[i]->start->0 == outs[i - 1]->end)
        },
{
    reveal(csv_outcomes_wf);
    if i < outs.len() - 1 {
        assert(outs[i] is Record);
    }
}

/// Starts reading `text` with `csv::ReaderBuilder` (no header record, the given delimiter and
/// flexibility). Its results are those named by `csv_read_outcomes`: a run of records followed by
/// one end or failure, the first record at byte 0, each next record where the previous one left the
/// reader, each one ending at a character boundary inside the text (the reader stops after a line
/// terminator or at the end of the input). On an empty text the one result is the end: the core
/// reader's final transition from the start of a record is the end of the input.
#[verifier::external_body]
fn open_csv_reader(text: &str, delimiter: u8, flexible: bool) -> (reader: csv::Reader<Cursor<Vec<u8>>>)
    ensures
        csv_reader_pending(reader) == csv_read_outcomes(text@, delimiter, flexible),
        csv_outcomes_wf(csv_reader_pending(reader), encode_utf8(text@)),
        text@.len() == 0 ==> csv_reader_pending(reader) == seq![CsvRead::End],
{
    csv::ReaderBuilder::new()
        .has_headers(false)
        .flexible(flexible)
        .delimiter(delimiter)
        .from_reader(Cursor::new(text.as_bytes().to_vec()))
}

/// Reads the next record with `csv::Reader::read_record`: the result is the first pending one.
#[verifier::external_body]
fn read_csv_record(reader: &mut csv::Reader<Cursor<Vec<u8>>>) -> (out: CsvReadOutcome)
    requires
        csv_reader_pending(*old(reader)).len() > 0,
    ensures
        out@ == csv_reader_pending(*old(reader))[0],
        csv_reader_pending(*final(reader)) == csv_reader_pending(*old(reader)).drop_first(),
{
    let mut record = csv::StringRecord::new();
    match reader.read_record(&mut record) {
        Ok(true) => CsvReadOutcome::Record {
            fields: record.iter().map(|field| field.to_owned()).collect(),
            start: record.position().map(|position| position.byte()),
            line: record.position().map(|position| position.line()),
            end: reader.position().byte(),
        },
        Ok(false) => CsvReadOutcome::End,
        Err(error) => CsvReadOutcome::Failed {
            byte: error.position().map(|position| position.byte()),
            message: error.to_string(),
        },
    }
}


/// A borrowed path.
#[verifier::external_type_specification]
#[verifier::external_body]
pub struct ExPath(Path);

/// The owned path that `Path::to_path_buf` makes of a borrowed path: one holding the same
/// platform string.
pub uninterp spec fn owned_path(path: &Path) -> PathBuf;

/// An owned copy of a path (`Path::to_path_buf`): the path named by `owned_path`.
#[verifier::external_body]
pub(crate) fn copy_path(path: &Path) -> (r: PathBuf)
    ensures
        r == owned_path(path),
{
    path.to_path_buf()
}

/// The path an owned path holds, borrowed (`PathBuf::as_path`): copying it back gives the owned
/// path, since both hold the same platform string.
#[verifier::external_body]
pub(crate) fn path_ref(path: &PathBuf) -> (r: &Path)
    ensures
        owned_path(r) == *path,
{
    path.as_path()
}

/// Whether two owned paths are equal as `PathBuf`'s `==` compares them (component by
/// component).
pub uninterp spec fn same_path(a: PathBuf, b: PathBuf) -> bool;

/// `a == b` on owned paths.
#[verifier::external_body]
pub(crate) fn paths_match(a: &PathBuf, b: &PathBuf) -> (r: bool)
    ensures
        r == same_path(*a, *b),
{
    a == b
}

/// Another copy of an owned path (`PathBuf::clone`): one holding the same platform string, so
/// equal to it.
#[verifier::external_body]
pub(crate) fn clone_path(path: &PathBuf) -> (r: PathBuf)
    ensures
        r == *path,
        same_path(r, *path),
{
    path.clone()
}

/// The final component of a path as text (`Path::file_name`, taken as UTF-8): none when the path
/// has no final component or it is not UTF-8.
pub uninterp spec fn path_file_name(p: PathBuf) -> Option<Seq<char>>;

/// `Path::file_name` of a path, as a `String` when it is UTF-8.
#[verifier::external_body]
pub(crate) fn file_name_of(path: &PathBuf) -> (r: Option<String>)
    ensures
        match r {
            Some(s) => path_file_name(*path) == Some(s@),
            None => path_file_name(*path) is None,
        },
{
    match path.file_name() {
        Some(name) => match name.to_str() {
            Some(text) => Some(text.to_owned()),
            None => None,
        },
        None => None,
    }
}

#[derive(Debug)]
pub enum CsvDocumentError {
    Read { path: PathBuf, source: std::io::Error },
    InvalidUtf8 { path: PathBuf, valid_up_to: usize },
    Parse { path: PathBuf, message: String, error_count: usize },
    CellOutOfBounds { row_index: usize, column_index: usize },
}

/// The text `Path::display` shows for a path: its bytes read as UTF-8, with each invalid sequence
/// replaced.
pub uninterp spec fn shown_path(p: PathBuf) -> Seq<char>;

/// How a path is shown to the user (`Path::display`): the text named by `shown_path`.
#[verifier::external_body]
pub(crate) fn path_display(path: &PathBuf) -> (r: String)
    ensures
        r@ == shown_path(*path),
{
    path.display().to_string()
}

/// How an I/O failure is shown to the user (its `Display`).
#[verifier::external_body]
fn io_error_display(error: &std::io::Error) -> String {
    error.to_string()
}

fn join3(a: &str, b: &String, c: &str, d: &String) -> (r: String)
    ensures
        r@ == a@ + b@ + c@ + d@,
{
    let mut out: Vec<char> = Vec::new();
    push_str(&mut out, a);
    push_str(&mut out, b.as_str());
    push_str(&mut out, c);
    push_str(&mut out, d.as_str());
    proof {
        assert(out@ =~= a@ + b@ + c@ + d@);
    }
    string_of(&out)
}

impl CsvDocumentError {
    /// The message shown for the error.
    pub fn to_string(&self) -> (r: String)
        ensures
            self matches CsvDocumentError::Parse { path, message, .. } ==>
                r@ == "failed to parse "@ + shown_path(*path) + ": "@ + message@,
            self matches CsvDocumentError::InvalidUtf8 { path, valid_up_to } ==>
                r@ == shown_path(*path) + " is not valid UTF-8 at byte "@ + decimal(valid_up_to as nat),
            self matches CsvDocumentError::Read { path, .. } ==> exists|q: Seq<char>|
                r@ == "failed to read "@ + shown_path(*path) + ": "@ + q,
            self matches CsvDocumentError::CellOutOfBounds { row_index, column_index } ==>
                r@ == "cell is outside the document at record "@ + decimal(row_index as nat) + ", column "@
                    + decimal(column_index as nat),
    {
        match self {
            CsvDocumentError::Read { path, source } => {
                let shown = path_display(path);
                let detail = io_error_display(source);
                join3("failed to read ", &shown, ": ", &detail)
            },
            CsvDocumentError::InvalidUtf8 { path, valid_up_to } => {
                let shown = path_display(path);
                let mut out: Vec<char> = Vec::new();
                push_str(&mut out, shown.as_str());
                push_str(&mut out, " is not valid UTF-8 at byte ");
                push_decimal(&mut out, *valid_up_to as u128);
                proof {
                    assert(out@ =~= shown@ + " is not valid UTF-8 at byte "@ + decimal(*valid_up_to as nat));
                }
                string_of(&out)
            },
            CsvDocumentError::Parse { path, message, .. } => {
                let shown = path_display(path);
                join3("failed to parse ", &shown, ": ", message)
            },
            CsvDocumentError::CellOutOfBounds { row_index, column_index } => {
                let mut out: Vec<char> = Vec::new();
                push_str(&mut out, "cell is outside the document at record ");
                push_decimal(&mut out, *row_index as u128);
                push_str(&mut out, ", column ");
                push_decimal(&mut out, *column_index as u128);
                proof {
                    assert(out@ =~= "cell is outside the document at record "@ + decimal(*row_index as nat) + ", column "@
                        + decimal(*column_index as nat));
                }
                string_of(&out)
            },
        }
    }

    pub fn parse_error_count(&self) -> (r: Option<usize>)
        ensures
            r == (match self {
                CsvDocumentError::Parse { error_count, .. } => Some(*error_count),
                _ => None,
            }),
    {
        match self {
            CsvDocumentError::Parse { error_count, .. } => Some(*error_count),
            _ => None,
        }
    }
}

/// Moves a record boundary that falls between the `\r` and `\n` of a line break past the `\n`.
pub open spec fn crlf_boundary(b: Seq<u8>, p: int) -> int {
    if 0 < p < b.len() && b[p] == 10u8 && b[p - 1] == 13u8 {
        p + 1
    } else {
        p
    }
}

pub fn normalize_crlf_boundary(bytes: &[u8], position: usize) -> (r: usize)
    ensures
        r == crlf_boundary(bytes@, position as int),
{
    if position > 0 && position < bytes.len() && bytes[position] == 10u8 && bytes[position - 1] == 13u8 {
        position + 1
    } else {
        position
    }
}

/// The message for a record whose number of fields differs from the first record's.
pub open spec fn width_message(record: nat, line: nat, found: nat, expected: nat) -> Seq<char> {
    "record "@ + decimal(record) + " (line "@ + decimal(line) + ") has "@ + decimal(found)
        + " fields, expected "@ + decimal(expected)
}

pub open spec fn byte_or_zero(byte: Option<u64>) -> nat {
    match byte {
        Some(b) => (b as usize) as nat,
        None => 0,
    }
}

pub open spec fn line_or_one(line: Option<u64>) -> nat {
    match line {
        Some(l) => l as nat,
        None => 1,
    }
}

/// The problems the reader's results show from result `i` on, when the first record (if already
/// read) had `expected` fields: a record of another width, or a failure of the reader.
pub open spec fn record_width_issues(b: Seq<u8>, outs: Seq<CsvRead>, i: int, expected: Option<nat>) -> Seq<(nat, Seq<char>)>
    decreases outs.len() - i,
{
    if i < 0 || i >= outs.len() {
        seq![]
    } else {
        match outs[i] {
            CsvRead::Failed { byte, message } => seq![(byte_or_zero(byte), message)],
            CsvRead::End => seq![],
            CsvRead::Record { fields, start, line, end } => {
                let at = crlf_boundary(b, byte_or_zero(start) as int) as nat;
                let here = match expected {
                    Some(w) => if w != fields.len() {
                        seq![(at, width_message((i + 1) as nat, line_or_one(line), fields.len(), w))]
                    } else {
                        seq![]
                    },
                    None => seq![],
                };
                let next = match expected {
                    Some(w) => Some(w),
                    None => Some(fields.len()),
                };
                here + record_width_issues(b, outs, i + 1, next)
            },
        }
    }
}

/// The fields of each of the given reader results.
pub open spec fn outcome_fields(outs: Seq<CsvRead>) -> Seq<Seq<Seq<char>>> {
    Seq::new(outs.len(), |k: int| outs[k]->fields)
}

/// The byte range of each of the given reader results, line breaks kept whole.
pub open spec fn outcome_spans(b: Seq<u8>, outs: Seq<CsvRead>) -> Seq<(usize, usize)> {
    Seq::new(
        outs.len(),
        |k: int| (crlf_boundary(b, byte_or_zero(outs[k]->start) as int) as usize, crlf_boundary(b, outs[k]->end as int) as usize),
    )
}

/// Every problem of a text read with the given delimiter: its quoting problems, then the
/// problems of the records the reader finds.
pub open spec fn parse_issues(text: Seq<char>, d: u8) -> Seq<(nat, Seq<char>)> {
    quote_issues(encode_utf8(text), d) + record_width_issues(encode_utf8(text), csv_read_outcomes(text, d, true), 0, None)
}

/// The records of a text read with the given delimiter.
pub open spec fn parsed_records(text: Seq<char>, d: u8) -> Seq<Seq<Seq<char>>> {
    outcome_fields(csv_read_outcomes(text, d, true).drop_last())
}

/// The byte range of each record of a text read with the given delimiter.
pub open spec fn parsed_spans(text: Seq<char>, d: u8) -> Seq<(usize, usize)> {
    outcome_spans(encode_utf8(text), csv_read_outcomes(text, d, true).drop_last())
}

/// The position of the first problem at the smallest byte offset: the one reported first.
pub open spec fn first_least_issue(s: Seq<(nat, Seq<char>)>) -> int
    decreases s.len(),
{
    if s.len() <= 1 {
        0
    } else {
        let j = first_least_issue(s.drop_last());
        if s.last().0 < s[j].0 {
            s.len() - 1
        } else {
            j
        }
    }
}

proof fn lemma_first_least_issue_bounds(s: Seq<(nat, Seq<char>)>)
    requires
        s.len() > 0,
    ensures
        0 <= first_least_issue(s) < s.len(),
    decreases s.len(),
{
    if s.len() > 1 {
        lemma_first_least_issue_bounds(s.drop_last());
    }
}

fn first_least_issue_index(issues: &Vec<ParseIssue>) -> (r: usize)
    requires
        issues.len() > 0,
    ensures
        r == first_least_issue(issue_views(issues@)),
        r < issues.len(),
{
    let ghost v = issue_views(issues@);
    let mut best: usize = 0;
    let mut k: usize = 1;
    while k < issues.len()
        invariant
            v == issue_views(issues@),
            1 <= k <= issues.len(),
            best < k,
            best == first_least_issue(v.take(k as int)),
        decreases issues.len() - k,
    {
        proof {
            assert(v.take(k + 1).drop_last() =~= v.take(k as int));
            lemma_first_least_issue_bounds(v.take(k as int));
        }
        if issues[k].byte < issues[best].byte {
            best = k;
        }
        k += 1;
    }
    proof {
        assert(v.take(issues.len() as int) =~= v);
    }
    best
}

/// The records of a text and the byte range each one spans.
pub struct ParsedRecords {
    pub records: Vec<Vec<String>>,
    pub spans: Vec<(usize, usize)>,
}

fn width_text(previous: usize, line: u64, found: usize, expected: usize) -> (s: String)
    ensures
        s@ == width_message(previous as nat + 1, line as nat, found as nat, expected as nat),
{
    let mut out: Vec<char> = Vec::new();
    push_str(&mut out, "record ");
    push_decimal(&mut out, previous as u128 + 1);
    push_str(&mut out, " (line ");
    push_decimal(&mut out, line as u128);
    push_str(&mut out, ") has ");
    push_decimal(&mut out, found as u128);
    push_str(&mut out, " fields, expected ");
    push_decimal(&mut out, expected as u128);
    proof {
        assert(out@ =~= width_message(previous as nat + 1, line as nat, found as nat, expected as nat));
    }
    string_of(&out)
}

proof fn lemma_push_view(issues: Seq<ParseIssue>, p: ParseIssue)
    ensures
        issue_views(issues.push(p)) =~= issue_views(issues).push(p@),
{
}

pub open spec fn opt_width(o: Option<usize>) -> Option<nat> {
    match o {
        Some(w) => Some(w as nat),
        None => None,
    }
}

/// The width problem a record shows (none or one), when the first record had `expected` fields.
pub open spec fn width_issue_here(b: Seq<u8>, o: CsvRead, i: int, expected: Option<nat>) -> Seq<(nat, Seq<char>)> {
    let at = crlf_boundary(b, byte_or_zero(o->start) as int) as nat;
    match expected {
        Some(w) => if w != o->fields.len() {
            seq![(at, width_message((i + 1) as nat, line_or_one(o->line), o->fields.len(), w))]
        } else {
            seq![]
        },
        None => seq![],
    }
}

proof fn lemma_width_issues_step(b: Seq<u8>, outs: Seq<CsvRead>, i: int, expected: Option<nat>)
    requires
        0 <= i < outs.len(),
    ensures
        outs[i] is Record ==> record_width_issues(b, outs, i, expected) == width_issue_here(b, outs[i], i, expected)
            + record_width_issues(b, outs, i + 1, match expected {
                Some(w) => Some(w),
                None => Some(outs[i]->fields.len()),
            }),
        outs[i] is End ==> record_width_issues(b, outs, i, expected) == Seq::<(nat, Seq<char>)>::empty(),
        outs[i] matches CsvRead::Failed { byte, message } ==> record_width_issues(b, outs, i, expected)
            == seq![(byte_or_zero(byte), message)],
{
}

/// Files one record: notes its width problem (if any), and adds its fields and byte range.
fn take_record(
    bytes: &[u8],
    fields: Vec<String>,
    start: Option<u64>,
    line: Option<u64>,
    end: u64,
    records: &mut Vec<Vec<String>>,
    spans: &mut Vec<(usize, usize)>,
    issues: &mut Vec<ParseIssue>,
    expected: &mut Option<usize>,
)
    requires
        start is Some,
        start->0 <= end <= bytes@.len(),
        *old(expected) is None <==> old(records).len() == 0,
    ensures
        issue_views(final(issues)@) == issue_views(old(issues)@) + width_issue_here(
            bytes@,
            CsvRead::Record { fields: fields.deep_view(), start, line, end },
            old(records).len() as int,
            opt_width(*old(expected)),
        ),
        final(records).deep_view() == old(records).deep_view().push(fields.deep_view()),
        final(spans)@ == old(spans)@.push((
            crlf_boundary(bytes@, byte_or_zero(start) as int) as usize,
            crlf_boundary(bytes@, end as int) as usize,
        )),
        opt_width(*final(expected)) == match opt_width(*old(expected)) {
            Some(w) => Some(w),
            None => Some(fields.len() as nat),
        },
{
    let length = bytes.len();
    let record_start: usize = match start {
        Some(position) => position as usize,
        None => 0,
    };
    let span_start = normalize_crlf_boundary(bytes, record_start);
    let span_end = normalize_crlf_boundary(bytes, end as usize);
    let width = fields.len();
    let ghost o = CsvRead::Record { fields: fields.deep_view(), start, line, end };
    let ghost i = records.len() as int;
    let ghost exp = opt_width(*expected);
    let ghost before = issue_views(issues@);
    match *expected {
        Some(w) => {
            if w != width {
                let line_number: u64 = match line {
                    Some(l) => l,
                    None => 1,
                };
                let message = width_text(records.len(), line_number, width, w);
                let issue = ParseIssue { byte: span_start, message };
                proof {
                    lemma_push_view(issues@, issue);
                }
                issues.push(issue);
            }
        },
        None => {
            *expected = Some(width);
        },
    }
    let ghost old_records = records.deep_view();
    proof {
        assert(issue_views(issues@) =~= before + width_issue_here(bytes@, o, i, exp));
    }
    records.push(fields);
    spans.push((span_start, span_end));
    proof {
        assert(records.deep_view() =~= old_records.push(fields.deep_view()));
    }
}

/// Reads the records of `raw_text` and checks them: every quoting problem and every record whose
/// width differs from the first record's is a problem; with any problem the text is refused with
/// the first problem at the smallest offset and the number of problems.
pub fn parse_records(path: &Path, raw_text: &str, delimiter: u8) -> (r: Result<ParsedRecords, CsvDocumentError>)
    ensures
        ({
            let issues = parse_issues(raw_text@, delimiter);
            match r {
                Ok(parsed) => {
                    &&& issues.len() == 0
                    &&& parsed.records.deep_view() == parsed_records(raw_text@, delimiter)
                    &&& parsed.spans@ == parsed_spans(raw_text@, delimiter)
                    &&& csv_outcomes_wf(csv_read_outcomes(raw_text@, delimiter, true), encode_utf8(raw_text@))
                },
                Err(e) => {
                    &&& issues.len() > 0
                    &&& e matches CsvDocumentError::Parse { path: p, message, error_count }
                    &&& p == owned_path(path)
                    &&& message@ == issues[first_least_issue(issues)].1
                    &&& error_count == issues.len()
                },
            }
        }),
        raw_text@.len() == 0 ==> (r matches Ok(parsed) && parsed.records.len() == 0),
{
    let bytes = raw_text.as_bytes();
    let ghost b = bytes@;
    let mut issues = validate_quote_syntax(bytes, delimiter);
    let mut reader = open_csv_reader(raw_text, delimiter, true);
    let ghost outs = csv_read_outcomes(raw_text@, delimiter, true);
    proof {
        if raw_text@.len() == 0 {
            assert(encode_utf8(raw_text@) =~= Seq::<u8>::empty());
            assert(quote_issues(encode_utf8(raw_text@), delimiter) =~= Seq::<(nat, Seq<char>)>::empty());
            assert(record_width_issues(encode_utf8(raw_text@), outs, 0, None) =~= Seq::<(nat, Seq<char>)>::empty());
            assert(parse_issues(raw_text@, delimiter) =~= Seq::<(nat, Seq<char>)>::empty());
        }
    }
    let mut records: Vec<Vec<String>> = Vec::new();
    let mut spans: Vec<(usize, usize)> = Vec::new();
    let mut expected_width: Option<usize> = None;
    proof {
        assert(records.deep_view() =~= outcome_fields(outs.take(0)));
        assert(spans@ =~= outcome_spans(b, outs.take(0)));
        assert(outs.skip(0) =~= outs);
        reveal(csv_outcomes_wf);
    }
    loop
        invariant_except_break
            b == bytes@,
            b == encode_utf8(raw_text@),
            csv_outcomes_wf(outs, b),
            records.len() < outs.len(),
            csv_reader_pending(reader) == outs.skip(records.len() as int),
            records.deep_view() == outcome_fields(outs.take(records.len() as int)),
            spans@ == outcome_spans(b, outs.take(records.len() as int)),
            expected_width is None <==> records.len() == 0,
            issue_views(issues@) + record_width_issues(b, outs, records.len() as int, opt_width(expected_width))
                == parse_issues(raw_text@, delimiter),
        ensures
            records.len() == outs.len() - 1,
            records.deep_view() == outcome_fields(outs.take(records.len() as int)),
            spans@ == outcome_spans(b, outs.take(records.len() as int)),
            issue_views(issues@) == parse_issues(raw_text@, delimiter),
        decreases outs.len() - records.len(),
    {
        let ghost i = records.len() as int;
        let ghost exp = opt_width(expected_width);
        let ghost old_issues = issue_views(issues@);
        let outcome = read_csv_record(&mut reader);
        proof {
            assert(outs.skip(i)[0] == outs[i]);
            assert(outs.skip(i).drop_first() =~= outs.skip(i + 1));
            lemma_width_issues_step(b, outs, i, exp);
            lemma_outcome_at(outs, b, i);
        }
        match outcome {
            CsvReadOutcome::Failed { byte, message } => {
                let at: usize = match byte {
                    Some(position) => position as usize,
                    None => 0,
                };
                let issue = ParseIssue { byte: at, message };
                proof {
                    lemma_push_view(issues@, issue);
                }
                issues.push(issue);
                break;
            },
            CsvReadOutcome::End => {
                proof {
                    assert(old_issues + Seq::<(nat, Seq<char>)>::empty() =~= old_issues);
                }
                break;
            },
            CsvReadOutcome::Record { fields, start, line, end } => {
                proof {
                    assert(i < outs.len() - 1);
                    assert(outs[i] is Record);
                }
                let ghost o = outcome@;
                take_record(bytes, fields, start, line, end, &mut records, &mut spans, &mut issues, &mut expected_width);
                proof {
                    assert(outs.take(i + 1) =~= outs.take(i).push(outs[i]));
                    assert(records.deep_view() =~= outcome_fields(outs.take(i + 1)));
                    assert(spans@ =~= outcome_spans(b, outs.take(i + 1)));
                    assert(issue_views(issues@) + record_width_issues(b, outs, i + 1, opt_width(expected_width))
                        =~= old_issues + record_width_issues(b, outs, i, exp));
                }
            },
        }
    }
    if issues.len() > 0 {
        let best = first_least_issue_index(&issues);
        let count = issues.len();
        let message = issues.swap_remove(best).message;
        return Err(CsvDocumentError::Parse { path: copy_path(path), message, error_count: count });
    }
    proof {
        assert(outs.drop_last() =~= outs.take(records.len() as int));
    }
    Ok(ParsedRecords { records, spans })
}


/// Whether every field of a record is empty.
pub open spec fn all_fields_empty(fields: Seq<Seq<char>>) -> bool {
    forall|k: int| 0 <= k < fields.len() ==> #[trigger] fields[k].len() == 0
}

/// How well a delimiter fits, judged on the first 50 results of a strict reading: among the
/// records that are not all empty, how many there are and their common width; none when the
/// reading fails or a non-empty record has one field or another width than the first.
pub open spec fn score_from(outs: Seq<CsvRead>, i: int, width: Option<nat>, count: nat) -> Option<(nat, nat)>
    decreases outs.len() - i,
{
    if i < 0 || i >= outs.len() || i >= 50 {
        match width {
            Some(w) => Some((count, w)),
            None => None,
        }
    } else {
        match outs[i] {
            CsvRead::Failed { .. } => None,
            CsvRead::End => match width {
                Some(w) => Some((count, w)),
                None => None,
            },
            CsvRead::Record { fields, .. } => {
                if all_fields_empty(fields) {
                    score_from(outs, i + 1, width, count)
                } else if fields.len() <= 1 {
                    None
                } else {
                    match width {
                        Some(w) => if w != fields.len() {
                            None
                        } else {
                            score_from(outs, i + 1, width, count + 1)
                        },
                        None => score_from(outs, i + 1, Some(fields.len()), count + 1),
                    }
                }
            },
        }
    }
}

/// The score of a delimiter for a text.
pub open spec fn delimiter_score_of(text: Seq<char>, d: u8) -> Option<(nat, nat)> {
    score_from(csv_read_outcomes(text, d, false), 0, None, 0)
}

/// The delimiters the detection tries, in order: comma, tab, semicolon, pipe.
pub open spec fn is_candidate(d: u8) -> bool {
    d == 44u8 || d == 9u8 || d == 59u8 || d == 124u8
}

pub open spec fn score_less(a: (nat, nat), b: (nat, nat)) -> bool {
    a.0 < b.0 || (a.0 == b.0 && a.1 < b.1)
}

/// A candidate that fits, and fits strictly better than every other candidate.
pub open spec fn is_unique_best(text: Seq<char>, d: u8) -> bool {
    &&& is_candidate(d)
    &&& delimiter_score_of(text, d) is Some
    &&& forall|e: u8|
        is_candidate(e) && e != d ==> (delimiter_score_of(text, e) is None || score_less(
            delimiter_score_of(text, e)->0,
            delimiter_score_of(text, d)->0,
        ))
}

fn fields_all_empty(fields: &Vec<String>) -> (r: bool)
    ensures
        r == all_fields_empty(fields.deep_view()),
{
    let mut k: usize = 0;
    while k < fields.len()
        invariant
            k <= fields.len(),
            forall|j: int| 0 <= j < k ==> #[trigger] fields@[j]@.len() == 0,
        decreases fields.len() - k,
    {
        if !fields[k].as_str().is_empty() {
            assert(fields.deep_view()[k as int].len() != 0);
            return false;
        }
        k += 1;
    }
    true
}

fn delimiter_score(raw_text: &str, delimiter: u8) -> (r: Option<(usize, usize)>)
    ensures
        match r {
            Some(p) => delimiter_score_of(raw_text@, delimiter) == Some((p.0 as nat, p.1 as nat)),
            None => delimiter_score_of(raw_text@, delimiter) is None,
        },
{
    let mut reader = open_csv_reader(raw_text, delimiter, false);
    let ghost outs = csv_read_outcomes(raw_text@, delimiter, false);
    let ghost b = encode_utf8(raw_text@);
    let mut width: Option<usize> = None;
    let mut count: usize = 0;
    let mut taken: usize = 0;
    proof {
        reveal(csv_outcomes_wf);
        assert(outs.skip(0) =~= outs);
    }
    while taken < 50
        invariant
            csv_outcomes_wf(outs, b),
            taken <= 50,
            count <= taken,
            taken < outs.len(),
            csv_reader_pending(reader) == outs.skip(taken as int),
            score_from(outs, taken as int, opt_width(width), count as nat) == delimiter_score_of(raw_text@, delimiter),
        decreases 50 - taken,
    {
        let ghost i = taken as int;
        proof {
            assert(outs.skip(i)[0] == outs[i]);
            assert(outs.skip(i).drop_first() =~= outs.skip(i + 1));
            lemma_outcome_at(outs, b, i);
        }
        let outcome = read_csv_record(&mut reader);
        match outcome {
            CsvReadOutcome::Failed { .. } => {
                return None;
            },
            CsvReadOutcome::End => {
                return match width {
                    Some(w) => Some((count, w)),
                    None => None,
                };
            },
            CsvReadOutcome::Record { fields, .. } => {
                let ghost f = fields.deep_view();
                proof {
                    assert(f =~= outs[i]->fields);
                }
                if fields_all_empty(&fields) {
                } else if fields.len() <= 1 {
                    return None;
                } else {
                    match width {
                        Some(w) => {
                            if w != fields.len() {
                                return None;
                            }
                            count += 1;
                        },
                        None => {
                            width = Some(fields.len());
                            count += 1;
                        },
                    }
                }
                taken += 1;
            },
        }
    }
    match width {
        Some(w) => Some((count, w)),
        None => None,
    }
}

fn score_is_less(a: (usize, usize), b: (usize, usize)) -> (r: bool)
    ensures
        r == score_less((a.0 as nat, a.1 as nat), (b.0 as nat, b.1 as nat)),
{
    a.0 < b.0 || (a.0 == b.0 && a.1 < b.1)
}

/// Chooses the delimiter that fits strictly best among comma, tab, semicolon and pipe; without a
/// single best one, comma is used by default.
pub fn detect_delimiter(raw_text: &str) -> (r: (u8, DelimiterSource))
    ensures
        (r.1 == DelimiterSource::Detected && is_unique_best(raw_text@, r.0))
            || (r == (44u8, DelimiterSource::Default) && forall|d: u8| !is_unique_best(raw_text@, d)),
{
    let candidates: [u8; 4] = [44u8, 9u8, 59u8, 124u8];
    let mut best: Option<(u8, (usize, usize))> = None;
    let mut tied = false;
    let mut k: usize = 0;
    while k < 4
        invariant
            k <= 4,
            candidates@ == seq![44u8, 9u8, 59u8, 124u8],
            match best {
                None => !tied && forall|j: int| 0 <= j < k ==> delimiter_score_of(raw_text@, #[trigger] candidates@[j]) is None,
                Some((d, sc)) => {
                    &&& exists|j: int| 0 <= j < k && candidates@[j] == d
                    &&& delimiter_score_of(raw_text@, d) == Some((sc.0 as nat, sc.1 as nat))
                    &&& forall|j: int| 0 <= j < k ==> (#[trigger] delimiter_score_of(raw_text@, candidates@[j]) is None
                        || !score_less((sc.0 as nat, sc.1 as nat), delimiter_score_of(raw_text@, candidates@[j])->0))
                    &&& (tied <==> exists|j: int| 0 <= j < k && candidates@[j] != d
                        && delimiter_score_of(raw_text@, #[trigger] candidates@[j]) == Some((sc.0 as nat, sc.1 as nat)))
                },
            },
        decreases 4 - k,
    {
        let d = candidates[k];
        let score = delimiter_score(raw_text, d);
        match score {
            None => {},
            Some(sc) => {
                match best {
                    None => {
                        best = Some((d, sc));
                        tied = false;
                    },
                    Some((bd, bs)) => {
                        if score_is_less(bs, sc) {
                            best = Some((d, sc));
                            tied = false;
                        } else if !score_is_less(sc, bs) {
                            tied = true;
                        }
                    },
                }
            },
        }
        k += 1;
    }
    proof {
        assert forall|e: u8| is_candidate(e) implies exists|j: int| 0 <= j < 4 && candidates@[j] == e by {
            if e == 44u8 { assert(candidates@[0] == e); }
            else if e == 9u8 { assert(candidates@[1] == e); }
            else if e == 59u8 { assert(candidates@[2] == e); }
            else { assert(candidates@[3] == e); }
        }
    }
    let ghost text = raw_text@;
    match best {
        Some((d, sc)) => {
            let ghost scn = (sc.0 as nat, sc.1 as nat);
            if !tied {
                proof {
                    assert forall|e: u8|
                        is_candidate(e) && e != d implies (delimiter_score_of(text, e) is None || score_less(
                            delimiter_score_of(text, e)->0,
                            delimiter_score_of(text, d)->0,
                        )) by {
                        let j = choose|j: int| 0 <= j < 4 && candidates@[j] == e;
                        assert(delimiter_score_of(text, candidates@[j]) is None
                            || !score_less(scn, delimiter_score_of(text, candidates@[j])->0));
                        if delimiter_score_of(text, e) is Some {
                            assert(delimiter_score_of(text, candidates@[j]) != Some(scn));
                        }
                    }
                }
                return (d, DelimiterSource::Detected);
            }
            proof {
                let jt = choose|j: int| 0 <= j < 4 && candidates@[j] != d
                    && delimiter_score_of(text, #[trigger] candidates@[j]) == Some(scn);
                assert forall|x: u8| !is_unique_best(text, x) by {
                    if is_unique_best(text, x) {
                        let jx = choose|j: int| 0 <= j < 4 && candidates@[j] == x;
                        if x == d {
                            assert(is_candidate(candidates@[jt]));
                        } else {
                            let jd = choose|j: int| 0 <= j < 4 && candidates@[j] == d;
                            assert(is_candidate(candidates@[jd]));
                            assert(delimiter_score_of(text, candidates@[jx]) is None
                                || !score_less(scn, delimiter_score_of(text, candidates@[jx])->0));
                        }
                    }
                }
            }
            (44u8, DelimiterSource::Default)
        },
        None => {
            proof {
                assert forall|x: u8| !is_unique_best(text, x) by {
                    if is_candidate(x) {
                        let jx = choose|j: int| 0 <= j < 4 && candidates@[j] == x;
                        assert(delimiter_score_of(text, candidates@[jx]) is None);
                    }
                }
            }
            (44u8, DelimiterSource::Default)
        },
    }
}


/// The byte ranges of the records, each within the text and on character boundaries, in order
/// and without overlap.
pub open spec fn spans_wf(spans: Seq<(usize, usize)>, b: Seq<u8>) -> bool {
    &&& forall|i: int|
        0 <= i < spans.len() ==> {
            &&& (#[trigger] spans[i]).0 <= spans[i].1 <= b.len()
            &&& is_char_boundary(b, spans[i].0 as int)
            &&& is_char_boundary(b, spans[i].1 as int)
        }
    &&& forall|i: int, j: int| 0 <= i < j < spans.len() ==> (#[trigger] spans[i]).1 <= (#[trigger] spans[j]).0
}

proof fn lemma_crlf_boundary(b: Seq<u8>, p: int)
    requires
        valid_utf8(b),
        0 <= p <= b.len(),
        is_char_boundary(b, p),
    ensures
        p <= crlf_boundary(b, p) <= b.len(),
        is_char_boundary(b, crlf_boundary(b, p)),
{
    if 0 < p < b.len() && b[p] == 10u8 && b[p - 1] == 13u8 {
        lemma_boundary_after_ascii(b, p);
    }
}

proof fn lemma_record_starts_grow(outs: Seq<CsvRead>, b: Seq<u8>, i: int, j: int)
    requires
        csv_outcomes_wf(outs, b),
        0 <= i < j < outs.len() - 1,
    ensures
        outs[i]->end <= outs[j]->start->0,
    decreases j - i,
{
    lemma_outcome_at(outs, b, j);
    if j > i + 1 {
        lemma_outcome_at(outs, b, j - 1);
        lemma_record_starts_grow(outs, b, i, j - 1);
    }
}

proof fn lemma_outcomes_nonempty(outs: Seq<CsvRead>, b: Seq<u8>)
    requires
        csv_outcomes_wf(outs, b),
    ensures
        outs.len() > 0,
{
    reveal(csv_outcomes_wf);
}

proof fn lemma_parsed_span_at(text: Seq<char>, d: u8, i: int)
    requires
        csv_outcomes_wf(csv_read_outcomes(text, d, true), encode_utf8(text)),
        encode_utf8(text).len() <= usize::MAX,
        0 <= i < parsed_spans(text, d).len(),
    ensures
        ({
            let b = encode_utf8(text);
            let sp = parsed_spans(text, d)[i];
            &&& sp.0 <= sp.1 <= b.len()
            &&& is_char_boundary(b, sp.0 as int)
            &&& is_char_boundary(b, sp.1 as int)
        }),
{
    let b = encode_utf8(text);
    let outs = csv_read_outcomes(text, d, true);
    vstd::utf8::encode_utf8_valid_utf8(text);
    lemma_outcomes_nonempty(outs, b);
    lemma_outcome_at(outs, b, i);
    let st = outs[i]->start->0 as int;
    let en = outs[i]->end as int;
    if i == 0 {
        is_char_boundary_start_end_of_seq(b);
    } else {
        lemma_outcome_at(outs, b, i - 1);
    }
    lemma_crlf_boundary(b, st);
    lemma_crlf_boundary(b, en);
    if st < en {
        assert(crlf_boundary(b, st) <= st + 1);
    }
}

proof fn lemma_parsed_spans_ordered(text: Seq<char>, d: u8, i: int, j: int)
    requires
        csv_outcomes_wf(csv_read_outcomes(text, d, true), encode_utf8(text)),
        encode_utf8(text).len() <= usize::MAX,
        0 <= i < j < parsed_spans(text, d).len(),
    ensures
        parsed_spans(text, d)[i].1 <= parsed_spans(text, d)[j].0,
{
    let b = encode_utf8(text);
    let outs = csv_read_outcomes(text, d, true);
    vstd::utf8::encode_utf8_valid_utf8(text);
    lemma_outcomes_nonempty(outs, b);
    lemma_record_starts_grow(outs, b, i, j);
    lemma_outcome_at(outs, b, i);
    lemma_outcome_at(outs, b, j);
    if i == 0 {
        is_char_boundary_start_end_of_seq(b);
    } else {
        lemma_outcome_at(outs, b, i - 1);
    }
    lemma_outcome_at(outs, b, j - 1);
    let en = outs[i]->end as int;
    let st = outs[j]->start->0 as int;
    if en < st {
        assert(crlf_boundary(b, en) <= en + 1);
    }
}

proof fn lemma_parsed_spans_wf(text: Seq<char>, d: u8)
    requires
        csv_outcomes_wf(csv_read_outcomes(text, d, true), encode_utf8(text)),
        encode_utf8(text).len() <= usize::MAX,
    ensures
        spans_wf(parsed_spans(text, d), encode_utf8(text)),
{
    let b = encode_utf8(text);
    let spans = parsed_spans(text, d);
    assert forall|i: int| 0 <= i < spans.len() implies {
        &&& (#[trigger] spans[i]).0 <= spans[i].1 <= b.len()
        &&& is_char_boundary(b, spans[i].0 as int)
        &&& is_char_boundary(b, spans[i].1 as int)
    } by {
        lemma_parsed_span_at(text, d, i);
    }
    assert forall|i: int, j: int| 0 <= i < j < spans.len() implies (#[trigger] spans[i]).1 <= (#[trigger] spans[j]).0 by {
        lemma_parsed_spans_ordered(text, d, i, j);
    }
}

/// Whether the bytes begin with the UTF-8 byte-order mark.
pub open spec fn starts_with_bom(bytes: Seq<u8>) -> bool {
    bytes.len() >= 3 && bytes.take(3) == utf8_bom()
}

/// The bytes of the text proper: after the byte-order mark, if there is one.
pub open spec fn text_content(bytes: Seq<u8>) -> Seq<u8> {
    if starts_with_bom(bytes) {
        bytes.skip(3)
    } else {
        bytes
    }
}

/// `n` is the length of the longest prefix of `b` that is valid UTF-8.
pub open spec fn longest_valid_prefix(b: Seq<u8>, n: nat) -> bool {
    &&& n <= b.len()
    &&& valid_utf8(b.take(n as int))
    &&& forall|m: int| n < m <= b.len() ==> !valid_utf8(#[trigger] b.take(m))
}

/// Decodes UTF-8 with `std::str::from_utf8`: the text when the bytes are valid UTF-8, and
/// otherwise the length of the longest valid prefix (`Utf8Error::valid_up_to`).
#[verifier::external_body]
pub(crate) fn decode_utf8_bytes(bytes: &[u8]) -> (r: Result<String, usize>)
    ensures
        r is Ok <==> valid_utf8(bytes@),
        r matches Ok(s) ==> s@ == decode_utf8(bytes@),
        r matches Err(n) ==> longest_valid_prefix(bytes@, n as nat),
{
    match std::str::from_utf8(bytes) {
        Ok(text) => Ok(text.to_owned()),
        Err(error) => Err(error.valid_up_to()),
    }
}

/// Whether the bytes hold a `\r\n` pair.
pub open spec fn has_crlf(b: Seq<u8>) -> bool {
    exists|i: int| 0 <= i < b.len() - 1 && b[i] == 13u8 && #[trigger] b[i + 1] == 10u8
}

pub open spec fn line_ending_of(text: Seq<char>) -> LineEnding {
    if has_crlf(encode_utf8(text)) {
        LineEnding::CrLf
    } else {
        LineEnding::Lf
    }
}

/// A text uses `\r\n` line endings as soon as it holds one `\r\n` pair.
pub fn detect_line_ending(raw_text: &str) -> (r: LineEnding)
    ensures
        r == line_ending_of(raw_text@),
{
    let bytes = raw_text.as_bytes();
    let mut i: usize = 0;
    while i < bytes.len()
        invariant
            bytes@ == encode_utf8(raw_text@),
            forall|j: int| 0 <= j < i && j < bytes@.len() - 1 ==> !(bytes@[j] == 13u8 && #[trigger] bytes@[j + 1] == 10u8),
        decreases bytes.len() - i,
    {
        if i + 1 < bytes.len() && bytes[i] == 13u8 && bytes[i + 1] == 10u8 {
            return LineEnding::CrLf;
        }
        i += 1;
    }
    LineEnding::Lf
}

/// The delimiter detection as a function of the text: the single best fitting candidate, or comma.
pub open spec fn detected_delimiter(text: Seq<char>) -> (u8, DelimiterSource) {
    if exists|d: u8| is_unique_best(text, d) {
        (choose|d: u8| is_unique_best(text, d), DelimiterSource::Detected)
    } else {
        (44u8, DelimiterSource::Default)
    }
}

/// The delimiter a text is read with: the one given, else the detected one.
pub open spec fn chosen_delimiter(text: Seq<char>, delimiter_override: Option<u8>) -> (u8, DelimiterSource) {
    match delimiter_override {
        Some(d) => (d, DelimiterSource::Manual),
        None => detected_delimiter(text),
    }
}

/// The analysis version that follows `v`: one more, except at the largest value.
pub open spec fn next_version(v: u64) -> u64 {
    if v < u64::MAX { (v + 1) as u64 } else { v }
}

/// The analysis version that follows `v` (see `next_version`).
pub(crate) fn advance_version(v: u64) -> (r: u64)
    ensures
        r == next_version(v),
{
    if v < u64::MAX { v + 1 } else { v }
}

/// Whether the cell lies within the document's records.
pub open spec fn cell_in_bounds(doc: CsvDocument, row: int, col: int) -> bool {
    0 <= row < doc.records@.len() && 0 <= col < doc.records.deep_view()[row].len()
}

/// What the CSV writer gives for the document's record with one cell set, written with the
/// document's delimiter and line ending: the record's text, or the writer's error message.
pub open spec fn rewritten_record(doc: CsvDocument, row: int, col: int, value: Seq<char>) -> Result<Seq<char>, Seq<char>> {
    csv_written_record(doc.records.deep_view()[row].update(col, value), doc.delimiter, doc.line_ending == LineEnding::CrLf)
}

/// Whether `after` is `before` with the cell set to the value and its record's text replaced by
/// `written` (without a line break where the record had none): the rest of the text is kept byte
/// for byte, the later records' byte ranges move by the change in length, and the analysis
/// version moves on.
pub open spec fn cell_rewritten(before: CsvDocument, row: int, col: int, value: Seq<char>, written: Seq<char>, after: CsvDocument) -> bool {
    let records = before.records.deep_view();
    let b = encode_utf8(before.raw_text@);
    let span = before.spans()[row];
    let rb = encode_utf8(replacement_text(written, ends_with_line_feed(b, span)));
    &&& encode_utf8(after.raw_text@) == b.take(span.0 as int) + rb + b.skip(span.1 as int)
    &&& after.records.deep_view() == records.update(row, records[row].update(col, value))
    &&& after.spans() == shifted_spans(before.spans(), row, rb.len())
    &&& after.version() == next_version(before.version())
    &&& after.has_bom == before.has_bom
    &&& after.line_ending == before.line_ending
    &&& after.delimiter == before.delimiter
    &&& after.delimiter_source == before.delimiter_source
    &&& after.path == before.path
}

/// Whether the document is the one read from the bytes of a file: its text is the UTF-8 text after
/// the byte-order mark, which it records, with that text's line ending, the delimiter given by hand
/// or else the one detected, and the records (and their byte ranges) read with that delimiter.
pub open spec fn reads_from(doc: CsvDocument, bytes: Seq<u8>, delimiter_override: Option<u8>) -> bool {
    let text = decode_utf8(text_content(bytes));
    let d = chosen_delimiter(text, delimiter_override);
    &&& doc.raw_text@ == text
    &&& doc.has_bom == starts_with_bom(bytes)
    &&& doc.line_ending == line_ending_of(text)
    &&& doc.delimiter == d.0
    &&& doc.delimiter_source == d.1
    &&& doc.records.deep_view() == parsed_records(text, d.0)
    &&& doc.spans() == parsed_spans(text, d.0)
}

proof fn lemma_unique_best_unique(text: Seq<char>, d: u8, e: u8)
    requires
        is_unique_best(text, d),
        is_unique_best(text, e),
    ensures
        d == e,
{
}

#[derive(Debug)]
pub struct CsvDocument {
    pub path: PathBuf,
    pub raw_text: String,
    pub has_bom: bool,
    pub line_ending: LineEnding,
    pub delimiter: u8,
    pub delimiter_source: DelimiterSource,
    pub records: Vec<Vec<String>>,
    pub record_spans: Vec<(usize, usize)>,
    pub analysis_version: u64,
}

impl CsvDocument {
    /// The byte range each record occupies in the text.
    pub open spec fn spans(&self) -> Seq<(usize, usize)> {
        self.record_spans@
    }

    /// The analysis version, by which a column analysis is matched to the records it was made
    /// of: a document read from bytes starts at 1, and each change of its records in place raises
    /// it by one, as does each new reading that a session takes in (it stays at the largest value).
    pub open spec fn version(&self) -> u64 {
        self.analysis_version
    }

    /// Whether two documents are the same but for their analysis versions.
    pub open spec fn same_but_version(&self, other: CsvDocument) -> bool {
        &&& self.path == other.path
        &&& self.raw_text == other.raw_text
        &&& self.has_bom == other.has_bom
        &&& self.line_ending == other.line_ending
        &&& self.delimiter == other.delimiter
        &&& self.delimiter_source == other.delimiter_source
        &&& self.records == other.records
        &&& self.spans() == other.spans()
    }

    /// One byte range per record, laid out in order within the text.
    pub closed spec fn wf(&self) -> bool {
        &&& self.spans().len() == self.records@.len()
        &&& spans_wf(self.spans(), encode_utf8(self.raw_text@))
    }

    /// Reads a document from its bytes: an optional byte-order mark, then UTF-8 text, read with the
    /// given delimiter or else the detected one. Refused when the text is not UTF-8 (at the offset
    /// of the first invalid byte, counting the mark) or when it has quoting or width problems.
    #[verifier::spinoff_prover]
    pub fn from_bytes(path: &Path, bytes: &[u8], delimiter_override: Option<u8>) -> (r: Result<CsvDocument, CsvDocumentError>)
        ensures
            ({
                let bom = starts_with_bom(bytes@);
                let content = text_content(bytes@);
                let text = decode_utf8(content);
                let d = chosen_delimiter(text, delimiter_override);
                let issues = parse_issues(text, d.0);
                match r {
                    Ok(doc) => {
                        &&& valid_utf8(content)
                        &&& issues.len() == 0
                        &&& reads_from(doc, bytes@, delimiter_override)
                        &&& doc.wf()
                        &&& doc.version() == 1
                    },
                    Err(CsvDocumentError::InvalidUtf8 { valid_up_to, .. }) => {
                        &&& !valid_utf8(content)
                        &&& longest_valid_prefix(content, (valid_up_to - if bom { 3int } else { 0int }) as nat)
                        &&& valid_up_to >= if bom { 3int } else { 0int }
                    },
                    Err(CsvDocumentError::Parse { message, error_count, .. }) => {
                        &&& valid_utf8(content)
                        &&& issues.len() > 0
                        &&& message@ == issues[first_least_issue(issues)].1
                        &&& error_count == issues.len()
                    },
                    Err(_) => false,
                }
            }),
            text_content(bytes@).len() == 0 ==> (r matches Ok(doc) && doc.records.len() == 0),
            match r {
                Ok(doc) => doc.path == owned_path(path),
                Err(CsvDocumentError::InvalidUtf8 { path: p, .. }) => p == owned_path(path),
                Err(CsvDocumentError::Parse { path: p, .. }) => p == owned_path(path),
                Err(_) => true,
            },
    {
        let has_bom = bytes.len() >= 3 && bytes[0] == 0xEFu8 && bytes[1] == 0xBBu8 && bytes[2] == 0xBFu8;
        proof {
            if has_bom {
                assert(bytes@.take(3) =~= utf8_bom());
            } else if bytes@.len() >= 3 {
                assert(bytes@.take(3)[0] == bytes@[0]);
                assert(bytes@.take(3)[1] == bytes@[1]);
                assert(bytes@.take(3)[2] == bytes@[2]);
            }
        }
        let content = if has_bom {
            slice_subrange(bytes, 3, bytes.len())
        } else {
            bytes
        };
        proof {
            if has_bom {
                assert(content@ =~= bytes@.skip(3));
            }
        }
        let raw_text = match decode_utf8_bytes(content) {
            Ok(text) => text,
            Err(valid_up_to) => {
                let offset: usize = if has_bom { 3 } else { 0 };
                let at = if valid_up_to <= usize::MAX - offset { valid_up_to + offset } else { usize::MAX };
                proof {
                    assert(valid_up_to <= content@.len());
                    assert(content@.len() <= bytes@.len());
                }
                return Err(CsvDocumentError::InvalidUtf8 { path: copy_path(path), valid_up_to: at });
            },
        };
        let content_length = content.len();
        proof {
            vstd::utf8::decode_utf8_encode_utf8(content@);
            if content@.len() == 0 {
                assert(raw_text@.len() == 0);
            }
        }
        let line_ending = detect_line_ending(raw_text.as_str());
        let (delimiter, delimiter_source) = match delimiter_override {
            Some(delimiter) => (delimiter, DelimiterSource::Manual),
            None => {
                let found = detect_delimiter(raw_text.as_str());
                proof {
                    if found.1 == DelimiterSource::Detected {
                        let c = choose|d: u8| is_unique_best(raw_text@, d);
                        lemma_unique_best_unique(raw_text@, found.0, c);
                    }
                }
                found
            },
        };
        let parsed = match parse_records(path, raw_text.as_str(), delimiter) {
            Ok(parsed) => parsed,
            Err(error) => {
                proof {
                    assert(raw_text@ == decode_utf8(text_content(bytes@)));
                    assert(delimiter == chosen_delimiter(raw_text@, delimiter_override).0);
                    let issues = parse_issues(decode_utf8(text_content(bytes@)), chosen_delimiter(decode_utf8(text_content(bytes@)), delimiter_override).0);
                    assert(issues == parse_issues(raw_text@, delimiter));
                    assert(valid_utf8(text_content(bytes@)));
                    assert(error matches CsvDocumentError::Parse { message, error_count, .. } && message@ == issues[first_least_issue(issues)].1 && error_count == issues.len());
                    assert(issues.len() > 0);
                }
                return Err(error);
            },
        };
        proof {
            lemma_parsed_spans_wf(raw_text@, delimiter);
        }
        let document = CsvDocument {
            path: copy_path(path),
            raw_text,
            has_bom,
            line_ending,
            delimiter,
            delimiter_source,
            records: parsed.records,
            record_spans: parsed.spans,
            analysis_version: 1,
        };
        proof {
            assert(document.records.deep_view().len() == document.records@.len());
            assert(document.wf());
        }
        Ok(document)
    }

    /// The same document with the given analysis version.
    pub(crate) fn versioned(self, version: u64) -> (r: CsvDocument)
        requires
            self.wf(),
        ensures
            r.same_but_version(self),
            r.version() == version,
            r.wf(),
    {
        let mut r = self;
        r.analysis_version = version;
        r
    }

    pub fn analysis_version(&self) -> (v: u64)
        ensures
            v == self.version(),
    {
        self.analysis_version
    }

    /// The number of data records below `header_rows` header records and the width of the first
    /// record; none when there are fewer records than header records.
    pub fn dimensions(&self, header_rows: usize) -> (r: Option<(usize, usize)>)
        ensures
            self.records@.len() < header_rows ==> r is None,
            self.records@.len() >= header_rows ==> r == Some((
                (self.records@.len() - header_rows) as usize,
                if self.records@.len() == 0 { 0usize } else { self.records@[0]@.len() as usize },
            )),
    {
        if self.records.len() < header_rows {
            return None;
        }
        let columns = if self.records.len() == 0 { 0 } else { self.records[0].len() };
        Some((self.records.len() - header_rows, columns))
    }

    /// The bytes the document is saved as: the byte-order mark if it had one, then its text.
    pub fn to_bytes(&self) -> (r: Vec<u8>)
        ensures
            r@ == (if self.has_bom { utf8_bom() } else { Seq::<u8>::empty() }) + encode_utf8(self.raw_text@),
    {
        let mut bytes: Vec<u8> = Vec::new();
        if self.has_bom {
            bytes.push(0xEFu8);
            bytes.push(0xBBu8);
            bytes.push(0xBFu8);
        }
        let ghost prefix = bytes@;
        let text = self.raw_text.as_str().as_bytes();
        let mut i: usize = 0;
        while i < text.len()
            invariant
                i <= text.len(),
                bytes@ == prefix + text@.take(i as int),
            decreases text.len() - i,
        {
            bytes.push(text[i]);
            i += 1;
            assert(text@.take(i as int) =~= text@.take(i - 1 as int).push(text@[i - 1]));
        }
        proof {
            assert(text@.take(text.len() as int) =~= text@);
            assert(prefix =~= (if self.has_bom { utf8_bom() } else { Seq::<u8>::empty() }));
        }
        bytes
    }
}


/// The text `csv::Writer` produces for one record (no header, the given delimiter, a `\r\n` or
/// `\n` record terminator), or the message of its failure.
pub uninterp spec fn csv_written_record(fields: Seq<Seq<char>>, delimiter: u8, crlf: bool) -> Result<Seq<char>, Seq<char>>;

/// Writes one record with `csv::WriterBuilder` into memory and takes the text written. The result
/// is the one named by `csv_written_record`.
#[verifier::external_body]
fn write_csv_record(fields: &Vec<String>, delimiter: u8, line_ending: LineEnding) -> (r: Result<String, String>)
    ensures
        match r {
            Ok(text) => csv_written_record(fields.deep_view(), delimiter, line_ending == LineEnding::CrLf) == Ok::<Seq<char>, Seq<char>>(text@),
            Err(message) => csv_written_record(fields.deep_view(), delimiter, line_ending == LineEnding::CrLf) == Err::<Seq<char>, Seq<char>>(message@),
        },
{
    let terminator = match line_ending {
        LineEnding::Lf => csv::Terminator::Any(b'\n'),
        LineEnding::CrLf => csv::Terminator::CRLF,
    };
    let mut writer = csv::WriterBuilder::new().has_headers(false).delimiter(delimiter).terminator(terminator).from_writer(Vec::new());
    writer.write_record(fields).map_err(|error| error.to_string())?;
    let bytes = writer.into_inner().map_err(|error| error.to_string())?;
    String::from_utf8(bytes).map_err(|error| error.to_string())
}

/// Decodes bytes known to be UTF-8 (`String::from_utf8`); none when they are not.
#[verifier::external_body]
fn string_from_utf8(bytes: Vec<u8>) -> (r: Option<String>)
    ensures
        r is Some <==> valid_utf8(bytes@),
        r matches Some(text) ==> text@ == decode_utf8(bytes@),
{
    String::from_utf8(bytes).ok()
}

/// The text without the `\r` and `\n` characters that end it.
pub open spec fn trim_line_breaks(t: Seq<char>) -> Seq<char>
    decreases t.len(),
{
    if t.len() > 0 && (t.last() == '\r' || t.last() == '\n') {
        trim_line_breaks(t.drop_last())
    } else {
        t
    }
}

fn trim_trailing_line_breaks(chars: &mut Vec<char>)
    ensures
        final(chars)@ == trim_line_breaks(old(chars)@),
{
    while chars.len() > 0 && (chars[chars.len() - 1] == '\r' || chars[chars.len() - 1] == '\n')
        invariant
            trim_line_breaks(chars@) == trim_line_breaks(old(chars)@),
        decreases chars.len(),
    {
        let ghost before = chars@;
        chars.pop();
        proof {
            assert(chars@ =~= before.drop_last());
        }
    }
}

fn clone_record(record: &Vec<String>) -> (r: Vec<String>)
    ensures
        r.deep_view() == record.deep_view(),
{
    let mut out: Vec<String> = Vec::new();
    let mut i: usize = 0;
    while i < record.len()
        invariant
            i <= record.len(),
            out@.len() == i,
            forall|j: int| 0 <= j < i ==> (#[trigger] out@[j])@ == record@[j]@,
        decreases record.len() - i,
    {
        let copy = record[i].clone();
        assert(copy@ == record@[i as int]@);
        out.push(copy);
        i += 1;
    }
    proof {
        assert(out.deep_view() =~= record.deep_view());
    }
    out
}

fn push_byte_range(out: &mut Vec<u8>, src: &[u8], from: usize, to: usize)
    requires
        from <= to <= src@.len(),
    ensures
        final(out)@ == old(out)@ + src@.subrange(from as int, to as int),
{
    let mut i = from;
    while i < to
        invariant
            from <= i <= to,
            to <= src@.len(),
            out@ == old(out)@ + src@.subrange(from as int, i as int),
        decreases to - i,
    {
        out.push(src[i]);
        i += 1;
        proof {
            assert(src@.subrange(from as int, i as int) =~= src@.subrange(from as int, i - 1 as int).push(src@[i - 1]));
        }
    }
}

/// After replacing bytes `s..e` of `b` by `r`, the boundaries before `s` and after `e` stay
/// boundaries (shifted), and both ends of `r` are boundaries.
#[verifier::spinoff_prover]
#[verifier::rlimit(30)]
proof fn lemma_splice_boundaries(b: Seq<u8>, s: int, e: int, r: Seq<u8>)
    requires
        valid_utf8(b),
        valid_utf8(r),
        0 <= s <= e <= b.len(),
        is_char_boundary(b, s),
        is_char_boundary(b, e),
    ensures
        ({
            let n = b.take(s) + r + b.skip(e);
            &&& valid_utf8(n)
            &&& n.len() == s + r.len() + (b.len() - e)
            &&& is_char_boundary(n, s)
            &&& is_char_boundary(n, s + r.len())
            &&& forall|p: int| 0 <= p <= s && is_char_boundary(b, p) ==> #[trigger] is_char_boundary(n, p)
            &&& forall|p: int| e <= p <= b.len() && is_char_boundary(b, p)
                ==> #[trigger] is_char_boundary(n, p - e + s + r.len())
        }),
{
    let h = b.take(s);
    let t = b.skip(e);
    valid_utf8_split(b, s);
    valid_utf8_split(b, e);
    assert(h =~= b.subrange(0, s));
    assert(t =~= b.subrange(e, b.len() as int));
    let hr = h + r;
    let n = hr + t;
    valid_utf8_concat(h, r);
    valid_utf8_concat(hr, t);
    assert(n =~= h + (r + t));
    valid_utf8_concat(r, t);
    is_char_boundary_start_end_of_seq(h);
    is_char_boundary_start_end_of_seq(hr);
    lemma_boundary_prefix(h, r + t, s);
    lemma_boundary_prefix(hr, t, hr.len() as int);
    let rest = b.subrange(s, b.len() as int);
    assert(b =~= h + rest);
    assert forall|p: int| 0 <= p <= s && is_char_boundary(b, p) implies #[trigger] is_char_boundary(n, p) by {
        lemma_boundary_prefix(h, rest, p);
        lemma_boundary_prefix(h, r + t, p);
    }
    let front = b.subrange(0, e);
    assert(b =~= front + t);
    valid_utf8_split(b, e);
    assert forall|p: int| e <= p <= b.len() && is_char_boundary(b, p)
        implies #[trigger] is_char_boundary(n, p - e + s + r.len()) by {
        lemma_boundary_suffix(front, t, p - e);
        lemma_boundary_suffix(hr, t, p - e);
    }
}

/// The byte ranges after replacing record `row`'s range by `len` bytes: earlier ranges stay,
/// the record's range becomes `len` bytes long, later ranges move by the change in length.
pub open spec fn shifted_spans(spans: Seq<(usize, usize)>, row: int, len: nat) -> Seq<(usize, usize)> {
    let s = spans[row].0;
    let e = spans[row].1;
    Seq::new(spans.len(), |k: int|
        if k < row {
            spans[k]
        } else if k == row {
            (s, (s + len) as usize)
        } else {
            ((spans[k].0 - e + s + len) as usize, (spans[k].1 - e + s + len) as usize)
        })
}

/// Whether the bytes of a record end with a line feed.
pub open spec fn ends_with_line_feed(b: Seq<u8>, span: (usize, usize)) -> bool {
    span.0 < span.1 && b[span.1 - 1] == 10u8
}

/// The text that replaces a record's bytes: what the writer wrote, without its line break when
/// the record had none.
pub open spec fn replacement_text(written: Seq<char>, had_terminator: bool) -> Seq<char> {
    if had_terminator {
        written
    } else {
        trim_line_breaks(written)
    }
}

fn shift_spans(spans: &mut Vec<(usize, usize)>, row: usize, replacement_length: usize, total_length: usize, new_length: usize)
    requires
        row < old(spans)@.len(),
        forall|i: int| 0 <= i < old(spans)@.len() ==> (#[trigger] old(spans)@[i]).0 <= old(spans)@[i].1 <= total_length,
        forall|i: int, j: int| 0 <= i < j < old(spans)@.len() ==> (#[trigger] old(spans)@[i]).1 <= (#[trigger] old(spans)@[j]).0,
        new_length == old(spans)@[row as int].0 + replacement_length + (total_length - old(spans)@[row as int].1),
    ensures
        final(spans)@ == shifted_spans(old(spans)@, row as int, replacement_length as nat),
{
    let ghost old_spans = spans@;
    let start = spans[row].0;
    let end = spans[row].1;
    let count = spans.len();
    let mut k: usize = row + 1;
    spans.set(row, (start, start + replacement_length));
    while k < spans.len()
        invariant
            row < k <= spans@.len(),
            spans@.len() == old_spans.len(),
            old_spans[row as int] == (start, end),
            forall|i: int| 0 <= i < old_spans.len() ==> (#[trigger] old_spans[i]).0 <= old_spans[i].1 <= total_length,
            forall|i: int, j: int| 0 <= i < j < old_spans.len() ==> (#[trigger] old_spans[i]).1 <= (#[trigger] old_spans[j]).0,
            new_length == start + replacement_length + (total_length - end),
            forall|j: int| 0 <= j < old_spans.len() ==> #[trigger] spans@[j] == if j < k {
                shifted_spans(old_spans, row as int, replacement_length as nat)[j]
            } else {
                old_spans[j]
            },
        decreases spans.len() - k,
    {
        let old_span = spans[k];
        proof {
            assert(old_spans[row as int].1 <= old_spans[k as int].0);
            assert(old_spans[k as int].0 <= old_spans[k as int].1);
        }
        let moved = (old_span.0 - end + start + replacement_length, old_span.1 - end + start + replacement_length);
        spans.set(k, moved);
        k += 1;
    }
    proof {
        assert(spans@ =~= shifted_spans(old_spans, row as int, replacement_length as nat));
    }
}

fn clone_records(records: &Vec<Vec<String>>) -> (r: Vec<Vec<String>>)
    ensures
        r.deep_view() == records.deep_view(),
{
    let mut out: Vec<Vec<String>> = Vec::new();
    let mut i: usize = 0;
    while i < records.len()
        invariant
            i <= records.len(),
            out@.len() == i,
            forall|j: int| 0 <= j < i ==> (#[trigger] out@[j]).deep_view() == records@[j].deep_view(),
        decreases records.len() - i,
    {
        let copy = clone_record(&records[i]);
        out.push(copy);
        i += 1;
    }
    proof {
        assert(out.deep_view() =~= records.deep_view());
    }
    out
}

fn clone_spans(spans: &Vec<(usize, usize)>) -> (r: Vec<(usize, usize)>)
    ensures
        r@ == spans@,
{
    let mut out: Vec<(usize, usize)> = Vec::new();
    let mut i: usize = 0;
    while i < spans.len()
        invariant
            i <= spans.len(),
            out@ == spans@.take(i as int),
        decreases spans.len() - i,
    {
        out.push(spans[i]);
        i += 1;
        proof {
            assert(out@ =~= spans@.take(i as int));
        }
    }
    proof {
        assert(spans@.take(spans.len() as int) =~= spans@);
    }
    out
}

impl Clone for CsvDocument {
    fn clone(&self) -> (r: Self)
        ensures
            r.raw_text@ == self.raw_text@,
            r.has_bom == self.has_bom,
            r.line_ending == self.line_ending,
            r.delimiter == self.delimiter,
            r.delimiter_source == self.delimiter_source,
            r.records.deep_view() == self.records.deep_view(),
            r.spans() == self.spans(),
            r.version() == self.version(),
    {
        CsvDocument {
            path: clone_path(&self.path),
            raw_text: self.raw_text.clone(),
            has_bom: self.has_bom,
            line_ending: self.line_ending,
            delimiter: self.delimiter,
            delimiter_source: self.delimiter_source,
            records: clone_records(&self.records),
            record_spans: clone_spans(&self.record_spans),
            analysis_version: self.analysis_version,
        }
    }
}

impl CsvDocument {
    /// Replaces one cell. Only that record's bytes are rewritten, by the `csv` writer with the
    /// document's delimiter and line ending (without a line break if the record had none); the rest
    /// of the text is kept byte for byte. Refused when the cell is outside the document; a no-op
    /// when the cell already holds the value.
    #[verifier::spinoff_prover]
    #[verifier::rlimit(40)]
    pub fn replace_cell(&mut self, row_index: usize, column_index: usize, value: &str) -> (r: Result<(), CsvDocumentError>)
        requires
            old(self).wf(),
        ensures
            final(self).wf(),
            ({
                let records = old(self).records.deep_view();
                if row_index >= records.len() || column_index >= records[row_index as int].len() {
                    &&& r == Err::<(), CsvDocumentError>(CsvDocumentError::CellOutOfBounds { row_index, column_index })
                    &&& *final(self) == *old(self)
                } else if records[row_index as int][column_index as int] == value@ {
                    &&& r is Ok
                    &&& *final(self) == *old(self)
                } else {
                    match rewritten_record(*old(self), row_index as int, column_index as int, value@) {
                        Err(message) => {
                            &&& r matches Err(CsvDocumentError::Parse { message: m, error_count, .. })
                            &&& m@ == message
                            &&& error_count == 1
                            &&& *final(self) == *old(self)
                        },
                        Ok(written) => {
                            &&& r is Ok
                            &&& cell_rewritten(*old(self), row_index as int, column_index as int, value@, written, *final(self))
                        },
                    }
                }
            }),
    {
        let ghost records0 = self.records.deep_view();
        let ghost b = encode_utf8(self.raw_text@);
        if row_index >= self.records.len() || column_index >= self.records[row_index].len() {
            return Err(CsvDocumentError::CellOutOfBounds { row_index, column_index });
        }
        proof {
            assert(records0[row_index as int] == self.records@[row_index as int].deep_view());
        }
        let current = crate::text::chars_of(self.records[row_index][column_index].as_str());
        let wanted = crate::text::chars_of(value);
        if crate::text::chars_equal(&current, &wanted) {
            proof {
                assert(self.records@[row_index as int].deep_view()[column_index as int] == self.records@[row_index as int]@[column_index as int]@);
            }
            return Ok(());
        }
        let mut updated_record = clone_record(&self.records[row_index]);
        let ghost before_set = updated_record.deep_view();
        updated_record.set(column_index, value.to_owned());
        proof {
            assert(updated_record.deep_view() =~= records0[row_index as int].update(column_index as int, value@));
        }
        let written = match write_csv_record(&updated_record, self.delimiter, self.line_ending) {
            Ok(text) => text,
            Err(message) => {
                return Err(CsvDocumentError::Parse { path: clone_path(&self.path), message, error_count: 1 });
            },
        };
        let span = self.record_spans[row_index];
        let start = span.0;
        let end = span.1;
        let bytes = self.raw_text.as_str().as_bytes();
        let length = bytes.len();
        proof {
            assert(bytes@ == b);
            assert(self.spans()[row_index as int] == span);
        }
        let had_terminator = start < end && bytes[end - 1] == 10u8;
        let mut replacement = crate::text::chars_of(written.as_str());
        if !had_terminator {
            trim_trailing_line_breaks(&mut replacement);
        }
        let replacement_string = string_of(&replacement);
        let replacement_bytes = replacement_string.as_str().as_bytes();
        let ghost rb = replacement_bytes@;
        let mut new_bytes: Vec<u8> = Vec::new();
        push_byte_range(&mut new_bytes, bytes, 0, start);
        push_byte_range(&mut new_bytes, replacement_bytes, 0, replacement_bytes.len());
        push_byte_range(&mut new_bytes, bytes, end, length);
        let new_length = new_bytes.len();
        proof {
            assert(b.subrange(0, start as int) =~= b.take(start as int));
            assert(rb.subrange(0, rb.len() as int) =~= rb);
            assert(b.subrange(end as int, length as int) =~= b.skip(end as int));
            assert(new_bytes@ =~= b.take(start as int) + rb + b.skip(end as int));
            encode_utf8_valid_utf8(self.raw_text@);
            encode_utf8_valid_utf8(replacement_string@);
            lemma_splice_boundaries(b, start as int, end as int, rb);
        }
        let ghost n = new_bytes@;
        let new_text = match string_from_utf8(new_bytes) {
            Some(text) => text,
            None => {
                return Ok(());
            },
        };
        proof {
            decode_utf8_encode_utf8(n);
        }
        let replacement_length = replacement_bytes.len();
        let ghost old_spans = self.record_spans@;
        proof {
            assert(b.len() == length);
            assert forall|i: int| 0 <= i < old_spans.len() implies (#[trigger] old_spans[i]).0 <= old_spans[i].1 <= length by {
                assert(spans_wf(old_spans, b));
            }
        }
        shift_spans(&mut self.record_spans, row_index, replacement_length, length, new_length);
        self.raw_text = new_text;
        self.records.set(row_index, updated_record);
        if self.analysis_version < u64::MAX {
            self.analysis_version = self.analysis_version + 1;
        }
        proof {
            let new_spans = self.record_spans@;
            assert(new_spans =~= shifted_spans(old_spans, row_index as int, replacement_length as nat));
            assert(encode_utf8(self.raw_text@) == n);
            assert forall|i: int| 0 <= i < new_spans.len() implies {
                &&& (#[trigger] new_spans[i]).0 <= new_spans[i].1 <= n.len()
                &&& is_char_boundary(n, new_spans[i].0 as int)
                &&& is_char_boundary(n, new_spans[i].1 as int)
            } by {
                if i < row_index {
                    assert(old_spans[i].1 <= old_spans[row_index as int].0);
                    assert(old_spans[i].0 <= old_spans[i].1);
                } else if i > row_index {
                    assert(old_spans[row_index as int].1 <= old_spans[i].0);
                    assert(old_spans[i].0 <= old_spans[i].1 <= length);
                }
            }
            assert forall|i: int, j: int| 0 <= i < j < new_spans.len() implies (#[trigger] new_spans[i]).1 <= (#[trigger] new_spans[j]).0 by {
                assert(old_spans[i].1 <= old_spans[j].0);
                if i < row_index && j > row_index {
                    assert(old_spans[i].1 <= old_spans[row_index as int].0);
                    assert(old_spans[row_index as int].1 <= old_spans[j].0);
                } else if i == row_index {
                    assert(old_spans[row_index as int].1 <= old_spans[j].0);
                } else if j == row_index {
                    assert(old_spans[i].1 <= old_spans[row_index as int].0);
                }
            }
            assert(self.records.deep_view() =~= records0.update(row_index as int, records0[row_index as int].update(column_index as int, value@)));
        }
        Ok(())
    }
}

} // verus!
