use vstd::prelude::*;

use std::path::{Path, PathBuf};

use vstd::utf8::encode_utf8;

use crate::csv_document::{advance_version, first_least_issue, owned_path, shown_path, cell_in_bounds, cell_rewritten, ends_with_line_feed, replacement_text, rewritten_record, chosen_delimiter, next_version, clone_path, copy_path, parse_issues, path_ref, reads_from, same_path, starts_with_bom, text_content, utf8_bom, CsvDocument, CsvDocumentError, DelimiterSource};
use vstd::utf8::{decode_utf8, valid_utf8};
use crate::settings::{MAX_HEADER_ROWS, MIN_HEADER_ROWS};

verus! {

/// The BLAKE3 digest of some bytes, a function of the bytes alone.
pub uninterp spec fn blake3_digest(bytes: Seq<u8>) -> Seq<u8>;

/// `blake3::hash`; its 32 bytes are the ones named by `blake3_digest`.
#[verifier::external_body]
pub(crate) fn digest(bytes: &[u8]) -> (r: Vec<u8>)
    ensures
        r@ == blake3_digest(bytes@),
        r@.len() == 32,
{
    blake3::hash(bytes).as_bytes().to_vec()
}

pub(crate) fn bytes_equal(a: &Vec<u8>, b: &Vec<u8>) -> (r: bool)
    ensures
        r == (a@ == b@),
{
    if a.len() != b.len() {
        return false;
    }
    let mut i: usize = 0;
    while i < a.len()
        invariant
            a@.len() == b@.len(),
            i <= a@.len(),
            forall|k: int| 0 <= k < i ==> a@[k] == b@[k],
        decreases a.len() - i,
    {
        if a[i] != b[i] {
            return false;
        }
        i += 1;
    }
    proof {
        assert(a@ =~= b@);
    }
    true
}

/// The bytes of a text as saved: the byte-order mark if any, then the text in UTF-8.
pub open spec fn saved_form(has_bom: bool, text: Seq<char>) -> Seq<u8> {
    (if has_bom { utf8_bom() } else { Seq::<u8>::empty() }) + encode_utf8(text)
}

fn text_with_bom(has_bom: bool, text: &str) -> (r: Vec<u8>)
    ensures
        r@ == saved_form(has_bom, text@),
{
    let mut bytes: Vec<u8> = Vec::new();
    if has_bom {
        bytes.push(0xEFu8);
        bytes.push(0xBBu8);
        bytes.push(0xBFu8);
    }
    let tail = text.as_bytes();
    let mut i: usize = 0;
    let ghost start = bytes@;
    while i < tail.len()
        invariant
            i <= tail@.len(),
            bytes@ == start + tail@.take(i as int),
        decreases tail.len() - i,
    {
        bytes.push(tail[i]);
        i += 1;
        proof {
            assert(tail@.take(i as int) =~= tail@.take(i - 1).push(tail@[i - 1]));
        }
    }
    proof {
        assert(tail@.take(tail@.len() as int) =~= tail@);
        if has_bom {
            assert(start =~= utf8_bom());
        } else {
            assert(start =~= Seq::<u8>::empty());
        }
    }
    bytes
}

fn hash_text(has_bom: bool, text: &str) -> (r: Vec<u8>)
    ensures
        r@ == blake3_digest(saved_form(has_bom, text@)),
{
    let bytes = text_with_bom(has_bom, text);
    digest(bytes.as_slice())
}

/// One cell edit: where, and the value before and after.
pub struct CellEdit {
    pub row_index: usize,
    pub column_index: usize,
    pub before: String,
    pub after: String,
}

pub open spec fn edit_view(e: CellEdit) -> (usize, usize, Seq<char>, Seq<char>) {
    (e.row_index, e.column_index, e.before@, e.after@)
}

pub open spec fn edits_view(s: Seq<CellEdit>) -> Seq<(usize, usize, Seq<char>, Seq<char>)> {
    Seq::new(s.len(), |i: int| edit_view(s[i]))
}

#[derive(Clone, Copy, Debug, PartialEq, Eq, Structural)]
pub enum DocumentView {
    Table,
    Text,
}

impl Default for DocumentView {
    fn default() -> (r: DocumentView)
        ensures
            r == DocumentView::Table,
    {
        DocumentView::Table
    }
}

/// Why the text does not parse as a table: the first problem and the number of problems.
#[derive(Clone, Debug, PartialEq, Eq)]
pub struct TextParseIssue {
    pub message: String,
    pub count: usize,
}

pub enum DocumentSessionError {
    Csv(CsvDocumentError),
    ExternalModification { path: PathBuf },
    Save { path: PathBuf, source: std::io::Error },
    InvalidHeaderRows(usize),
    Gb18030RequiresConversion { path: PathBuf },
}

/// An open document being edited: its table, the text being edited when it differs from the
/// table's, which view is shown, the undo and redo histories of cell edits, the digest of the
/// bytes on disk and of the bytes the session would save, and the delimiter chosen by hand.
pub struct DocumentSession {
    pub document: CsvDocument,
    pub header_rows: usize,
    text_override: Option<String>,
    view: DocumentView,
    text_parse_issue: Option<TextParseIssue>,
    undo_stack: Vec<CellEdit>,
    redo_stack: Vec<CellEdit>,
    saved_hash: Vec<u8>,
    current_hash: Vec<u8>,
    delimiter_override: Option<u8>,
}

pub open spec fn header_rows_valid(h: usize) -> bool {
    MIN_HEADER_ROWS <= h <= MAX_HEADER_ROWS
}

fn validate_header_rows(header_rows: usize) -> (r: Result<(), DocumentSessionError>)
    ensures
        r is Ok <==> header_rows_valid(header_rows),
        r matches Err(e) ==> e == DocumentSessionError::InvalidHeaderRows(header_rows),
{
    if MIN_HEADER_ROWS <= header_rows && header_rows <= MAX_HEADER_ROWS {
        Ok(())
    } else {
        Err(DocumentSessionError::InvalidHeaderRows(header_rows))
    }
}

impl DocumentSession {
    /// The text of the session: the text being edited, or else the table's text.
    pub closed spec fn text_view(&self) -> Seq<char> {
        match self.text_override {
            Some(t) => t@,
            None => self.document.raw_text@,
        }
    }

    /// The session's table.
    pub closed spec fn table(&self) -> CsvDocument {
        self.document
    }

    /// The number of header rows.
    pub closed spec fn header_count(&self) -> usize {
        self.header_rows
    }

    /// The bytes the session would save.
    pub open spec fn buffer(&self) -> Seq<u8> {
        saved_form(self.table().has_bom, self.text_view())
    }

    /// Whether a text other than the table's is being edited.
    pub closed spec fn editing_text(&self) -> bool {
        self.text_override is Some
    }

    pub closed spec fn shown(&self) -> DocumentView {
        self.view
    }

    pub closed spec fn issue(&self) -> Option<TextParseIssue> {
        self.text_parse_issue
    }

    pub closed spec fn undo_edits(&self) -> Seq<(usize, usize, Seq<char>, Seq<char>)> {
        edits_view(self.undo_stack@)
    }

    pub closed spec fn redo_edits(&self) -> Seq<(usize, usize, Seq<char>, Seq<char>)> {
        edits_view(self.redo_stack@)
    }

    /// The digest of the bytes on disk when the file was last read or saved.
    pub closed spec fn saved_digest(&self) -> Seq<u8> {
        self.saved_hash@
    }

    pub closed spec fn manual_delimiter(&self) -> Option<u8> {
        self.delimiter_override
    }

    /// Whether `after` is this session with the last edit of one history dropped (the redo history
    /// when `redo`, else the undo history) and nothing else changed.
    pub open spec fn only_history_dropped(&self, after: DocumentSession, redo: bool) -> bool {
        &&& after.table() == self.table()
        &&& after.text_view() == self.text_view()
        &&& after.editing_text() == self.editing_text()
        &&& after.shown() == self.shown()
        &&& after.issue() == self.issue()
        &&& after.saved_digest() == self.saved_digest()
        &&& after.manual_delimiter() == self.manual_delimiter()
        &&& after.header_count() == self.header_count()
        &&& if redo {
            after.redo_edits() == self.redo_edits().drop_last() && after.undo_edits() == self.undo_edits()
        } else {
            after.undo_edits() == self.undo_edits().drop_last() && after.redo_edits() == self.redo_edits()
        }
    }

    /// What the session keeps true: its table is well formed and the digest it keeps of the
    /// bytes it would save is theirs.
    pub closed spec fn inv(&self) -> bool {
        &&& self.document.wf()
        &&& header_rows_valid(self.header_rows)
        &&& self.current_hash@ == blake3_digest(self.buffer())
    }

    /// Whether the bytes the session would save differ (by digest) from those on disk.
    pub open spec fn dirty(&self) -> bool {
        blake3_digest(self.buffer()) != self.saved_digest()
    }

    /// A session on an opened document, with the given header rows; the disk baseline is the
    /// document's own bytes.
    pub fn from_loaded_document(document: CsvDocument, header_rows: usize) -> (r: Result<DocumentSession, DocumentSessionError>)
        requires
            document.wf(),
        ensures
            match r {
                Ok(s) => header_rows_valid(header_rows) && s.inv() && !s.dirty() && s.header_count() == header_rows
                    && s.table() == document && !s.editing_text() && s.shown() == DocumentView::Table
                    && s.undo_edits().len() == 0 && s.redo_edits().len() == 0
                    && s.manual_delimiter() == (if document.delimiter_source == DelimiterSource::Manual { Some(document.delimiter) } else { None }),
                Err(e) => !header_rows_valid(header_rows) && e == DocumentSessionError::InvalidHeaderRows(header_rows),
            },
    {
        match validate_header_rows(header_rows) {
            Ok(_) => {},
            Err(e) => {
                return Err(e);
            },
        }
        let bytes = document.to_bytes();
        let saved_hash = digest(bytes.as_slice());
        let current_hash = digest(bytes.as_slice());
        let delimiter_override = if document.delimiter_source == DelimiterSource::Manual { Some(document.delimiter) } else { None };
        Ok(DocumentSession {
            document,
            header_rows,
            text_override: None,
            view: DocumentView::Table,
            text_parse_issue: None,
            undo_stack: Vec::new(),
            redo_stack: Vec::new(),
            saved_hash,
            current_hash,
            delimiter_override,
        })
    }
}

/// The text of the bytes of a file: what follows a byte-order mark, read as UTF-8.
pub open spec fn opened_text(bytes: Seq<u8>) -> Seq<char> {
    decode_utf8(text_content(bytes))
}

/// Whether the text of the bytes (after a byte-order mark), read as UTF-8 with the delimiter that
/// opening chooses, parses as CSV without a problem.
pub open spec fn opened_text_parses(bytes: Seq<u8>, delimiter_override: Option<u8>) -> bool {
    opened_issues(bytes, delimiter_override).len() == 0
}

/// The parse problems of the text of the bytes, read with the delimiter that opening chooses.
pub open spec fn opened_issues(bytes: Seq<u8>, delimiter_override: Option<u8>) -> Seq<(nat, Seq<char>)> {
    let text = opened_text(bytes);
    parse_issues(text, chosen_delimiter(text, delimiter_override).0)
}

/// The message shown when the text of the file's bytes does not parse: the file's path as shown
/// and the first problem at the smallest byte offset.
pub open spec fn parse_failure_message(path: PathBuf, bytes: Seq<u8>, delimiter_override: Option<u8>) -> Seq<char> {
    let issues = opened_issues(bytes, delimiter_override);
    "failed to parse "@ + shown_path(path) + ": "@ + issues[first_least_issue(issues)].1
}

/// The bytes a session saves are UTF-8 after their byte-order mark, whether or not the mark was
/// written for the table or begins the text itself.
proof fn lemma_saved_form_opens(has_bom: bool, text: Seq<char>)
    ensures
        valid_utf8(text_content(saved_form(has_bom, text))),
{
    let e = encode_utf8(text);
    vstd::utf8::encode_utf8_valid_utf8(text);
    let b = saved_form(has_bom, text);
    if has_bom {
        assert(b.take(3) =~= utf8_bom());
        assert(b.skip(3) =~= e);
    } else {
        assert(b =~= e);
        if starts_with_bom(b) {
            assert(b.take(3)[0] == b[0]);
            assert(b[0] == 0xEFu8);
            assert(vstd::utf8::pop_first_scalar(b) =~= b.skip(3));
        }
    }
}

impl DocumentSession {
    /// A session on bytes read from a file. Bytes that do not parse as CSV open in the text view
    /// with the parse problem and an empty table; bytes that are not UTF-8 are refused.
    pub fn from_bytes(path: &Path, bytes: Vec<u8>, delimiter_override: Option<u8>, header_rows: usize) -> (r: Result<DocumentSession, DocumentSessionError>)
        ensures
            match r {
                Ok(s) => header_rows_valid(header_rows) && s.inv() && s.saved_digest() == blake3_digest(bytes@)
                    && s.buffer() == bytes@ && !s.dirty() && s.header_count() == header_rows
                    && s.undo_edits().len() == 0 && s.redo_edits().len() == 0 && s.manual_delimiter() == delimiter_override
                    && (s.issue() is Some <==> s.editing_text()) && (s.editing_text() <==> s.shown() == DocumentView::Text)
                    && (s.issue() is None <==> opened_text_parses(bytes@, delimiter_override))
                    && (s.issue() is None ==> reads_from(s.table(), bytes@, delimiter_override))
                    && (s.issue() is Some ==> s.table().records.len() == 0 && s.table().has_bom == starts_with_bom(bytes@))
                    && s.table().path == owned_path(path)
                    && (s.issue() matches Some(i) ==> i.count == opened_issues(bytes@, delimiter_override).len()
                        && i.message@ == parse_failure_message(owned_path(path), bytes@, delimiter_override)),
                Err(DocumentSessionError::InvalidHeaderRows(h)) => !header_rows_valid(header_rows) && h == header_rows,
                Err(DocumentSessionError::Csv(e)) => header_rows_valid(header_rows)
                    && (e matches CsvDocumentError::InvalidUtf8 { path: p, .. } && p == owned_path(path)),
                Err(_) => false,
            },
            r is Ok <==> header_rows_valid(header_rows) && valid_utf8(text_content(bytes@)),
    {
        match validate_header_rows(header_rows) {
            Ok(_) => {},
            Err(e) => {
                return Err(e);
            },
        }
        let saved_hash = digest(bytes.as_slice());
        match CsvDocument::from_bytes(path, bytes.as_slice(), delimiter_override) {
            Ok(document) => {
                proof {
                    crate::laws::law_saved_bytes_match_opened_bytes(bytes@);
                }
                let current = document.to_bytes();
                let current_hash = digest(current.as_slice());
                Ok(DocumentSession {
                    document,
                    header_rows,
                    text_override: None,
                    view: DocumentView::Table,
                    text_parse_issue: None,
                    undo_stack: Vec::new(),
                    redo_stack: Vec::new(),
                    saved_hash,
                    current_hash,
                    delimiter_override,
                })
            },
            Err(error) => {
                let count = match error.parse_error_count() {
                    Some(c) => c,
                    None => {
                        return Err(DocumentSessionError::Csv(error));
                    },
                };
                let message = error.to_string();
                let has_bom = bytes.len() >= 3 && bytes[0] == 0xEFu8 && bytes[1] == 0xBBu8 && bytes[2] == 0xBFu8;
                proof {
                    if has_bom {
                        assert(bytes@.take(3) =~= utf8_bom());
                    } else if bytes@.len() >= 3 {
                        assert(bytes@.take(3)[0] == bytes@[0]);
                        assert(bytes@.take(3)[1] == bytes@[1]);
                        assert(bytes@.take(3)[2] == bytes@[2]);
                    }
                    assert(has_bom == crate::csv_document::starts_with_bom(bytes@));
                }
                let decoded = if has_bom {
                    crate::csv_document::decode_utf8_bytes(vstd::slice::slice_subrange(bytes.as_slice(), 3, bytes.len()))
                } else {
                    crate::csv_document::decode_utf8_bytes(bytes.as_slice())
                };
                let text = match decoded {
                    Ok(t) => t,
                    Err(_) => {
                        return Err(DocumentSessionError::Csv(error));
                    },
                };
                proof {
                    assert(text@ == vstd::utf8::decode_utf8(crate::csv_document::text_content(bytes@)));
                    crate::laws::law_saved_bytes_match_opened_bytes(bytes@);
                }
                let placeholder: Vec<u8> = if has_bom { vec![0xEFu8, 0xBBu8, 0xBFu8] } else { Vec::new() };
                proof {
                    if has_bom {
                        assert(placeholder@.take(3) =~= utf8_bom());
                        assert(crate::csv_document::text_content(placeholder@).len() == 0);
                    }
                }
                let document = match CsvDocument::from_bytes(path, placeholder.as_slice(), delimiter_override) {
                    Ok(d) => d,
                    Err(e) => {
                        return Err(DocumentSessionError::Csv(e));
                    },
                };
                let current_hash = hash_text(document.has_bom, text.as_str());
                proof {
                    assert(crate::csv_document::starts_with_bom(placeholder@) == has_bom) by {
                        if has_bom {
                            assert(placeholder@.take(3) =~= utf8_bom());
                        }
                    }
                }
                Ok(DocumentSession {
                    document,
                    header_rows,
                    text_override: Some(text),
                    view: DocumentView::Text,
                    text_parse_issue: Some(TextParseIssue { message, count }),
                    undo_stack: Vec::new(),
                    redo_stack: Vec::new(),
                    saved_hash,
                    current_hash,
                    delimiter_override,
                })
            },
        }
    }
}


fn to_session_error(e: CsvDocumentError) -> (r: DocumentSessionError)
    ensures
        r == DocumentSessionError::Csv(e),
{
    DocumentSessionError::Csv(e)
}

fn strings_equal(a: &str, b: &str) -> (r: bool)
    ensures
        r == (a@ == b@),
{
    crate::text::chars_equal(&crate::text::chars_of(a), &crate::text::chars_of(b))
}

impl DocumentSession {
    /// The text being edited in place of the table's, if any.
    pub fn text_override(&self) -> (r: Option<&str>)
        ensures
            r is Some <==> self.editing_text(),
            r matches Some(t) ==> t@ == self.text_view(),
    {
        match &self.text_override {
            Some(t) => Some(t.as_str()),
            None => None,
        }
    }

    /// The view shown.
    pub fn view(&self) -> (r: DocumentView)
        ensures
            r == self.shown(),
    {
        self.view
    }

    /// The session's text (see `text_view`).
    pub fn text(&self) -> (r: &str)
        ensures
            r@ == self.text_view(),
    {
        match &self.text_override {
            Some(t) => t.as_str(),
            None => self.document.raw_text.as_str(),
        }
    }

    /// The parse problem of the text being edited, if any.
    pub fn text_parse_issue(&self) -> (r: Option<&TextParseIssue>)
        ensures
            match r {
                Some(i) => self.issue() == Some(*i),
                None => self.issue() is None,
            },
    {
        match &self.text_parse_issue {
            Some(issue) => Some(issue),
            None => None,
        }
    }

    /// Shows the text view.
    pub fn show_text(&mut self)
        requires
            old(self).inv(),
        ensures
            final(self).inv(),
            final(self).shown() == DocumentView::Text,
            final(self).buffer() == old(self).buffer(),
            final(self).table() == old(self).table(),
            final(self).saved_digest() == old(self).saved_digest(),
    {
        self.view = DocumentView::Text;
    }

    /// Replaces the text being edited; false (and nothing changes) when it is the text already.
    pub fn set_text(&mut self, text: String) -> (r: bool)
        requires
            old(self).inv(),
        ensures
            final(self).inv(),
            r == (text@ != old(self).text_view()),
            r ==> final(self).text_view() == text@ && final(self).editing_text() && final(self).issue() is None
                && final(self).table() == old(self).table() && final(self).shown() == old(self).shown()
                && final(self).saved_digest() == old(self).saved_digest()
                && final(self).undo_edits() == old(self).undo_edits() && final(self).redo_edits() == old(self).redo_edits(),
            !r ==> *final(self) == *old(self),
    {
        if strings_equal(self.text(), text.as_str()) {
            return false;
        }
        self.current_hash = hash_text(self.document.has_bom, text.as_str());
        self.text_override = Some(text);
        self.text_parse_issue = None;
        true
    }

    /// The bytes the session would save (see `buffer`).
    pub fn text_bytes(&self) -> (r: Vec<u8>)
        ensures
            r@ == self.buffer(),
    {
        text_with_bom(self.document.has_bom, self.text())
    }

    /// The digest of the bytes the session would save.
    pub fn text_hash(&self) -> (r: Vec<u8>)
        requires
            self.inv(),
        ensures
            r@ == blake3_digest(self.buffer()),
    {
        self.current_hash.clone()
    }

    /// Takes a parsed table of the session's text: refused (false) unless its bytes have the
    /// digest of the session's bytes; the histories are dropped when the table's text differs
    /// from the one the session had.
    pub fn accept_parsed_text(&mut self, parsed: CsvDocument) -> (r: bool)
        requires
            old(self).inv(),
            parsed.wf(),
        ensures
            final(self).inv(),
            r == (blake3_digest(saved_form(parsed.has_bom, parsed.raw_text@)) == blake3_digest(old(self).buffer())),
            final(self).manual_delimiter() == old(self).manual_delimiter(),
            final(self).header_count() == old(self).header_count(),
            r ==> final(self).table().same_but_version(parsed) && final(self).table().version() == next_version(old(self).table().version())
                && !final(self).editing_text() && final(self).issue() is None
                && final(self).shown() == old(self).shown() && final(self).saved_digest() == old(self).saved_digest()
                && (if parsed.has_bom == old(self).table().has_bom && parsed.raw_text@ == old(self).table().raw_text@ {
                    final(self).undo_edits() == old(self).undo_edits() && final(self).redo_edits() == old(self).redo_edits()
                } else {
                    final(self).undo_edits().len() == 0 && final(self).redo_edits().len() == 0
                }),
            !r ==> *final(self) == *old(self),
    {
        let parsed_hash = hash_text(parsed.has_bom, parsed.raw_text.as_str());
        if !bytes_equal(&parsed_hash, &self.current_hash) {
            return false;
        }
        if parsed.has_bom != self.document.has_bom || !strings_equal(parsed.raw_text.as_str(), self.document.raw_text.as_str()) {
            self.undo_stack.clear();
            self.redo_stack.clear();
            proof {
                assert(edits_view(self.undo_stack@) =~= Seq::<(usize, usize, Seq<char>, Seq<char>)>::empty());
                assert(edits_view(self.redo_stack@) =~= Seq::<(usize, usize, Seq<char>, Seq<char>)>::empty());
            }
        }
        let version = advance_version(self.document.analysis_version());
        self.document = parsed.versioned(version);
        self.text_override = None;
        self.text_parse_issue = None;
        true
    }

    /// Takes a parsed table (see `accept_parsed_text`) and shows the table view.
    pub fn show_parsed_table(&mut self, parsed: CsvDocument) -> (r: bool)
        requires
            old(self).inv(),
            parsed.wf(),
        ensures
            final(self).inv(),
            r == (blake3_digest(saved_form(parsed.has_bom, parsed.raw_text@)) == blake3_digest(old(self).buffer())),
            r ==> final(self).table().same_but_version(parsed) && final(self).table().version() == next_version(old(self).table().version())
                && !final(self).editing_text() && final(self).shown() == DocumentView::Table
                && final(self).saved_digest() == old(self).saved_digest(),
            !r ==> *final(self) == *old(self),
    {
        if !self.accept_parsed_text(parsed) {
            return false;
        }
        self.view = DocumentView::Table;
        true
    }

    /// Records that the text does not parse: shows the text view with the problem.
    pub fn reject_parsed_text(&mut self, message: String, count: usize)
        requires
            old(self).inv(),
        ensures
            final(self).inv(),
            final(self).shown() == DocumentView::Text,
            final(self).issue() matches Some(i) && i.message@ == message@ && i.count == count,
            final(self).buffer() == old(self).buffer(),
            final(self).table() == old(self).table(),
            final(self).saved_digest() == old(self).saved_digest(),
    {
        self.view = DocumentView::Text;
        self.text_parse_issue = Some(TextParseIssue { message, count });
    }

    /// Parses the session's bytes (with the delimiter chosen by hand, if any) and shows the
    /// table; when they do not parse, shows the text view with the problem and returns it. The
    /// bytes do not change either way.
    pub fn show_table(&mut self) -> (r: Result<(), TextParseIssue>)
        requires
            old(self).inv(),
        ensures
            final(self).inv(),
            final(self).buffer() == old(self).buffer(),
            final(self).saved_digest() == old(self).saved_digest(),
            final(self).manual_delimiter() == old(self).manual_delimiter(),
            r is Ok <==> opened_text_parses(old(self).buffer(), old(self).manual_delimiter()),
            match r {
                Ok(_) => final(self).shown() == DocumentView::Table && !final(self).editing_text() && final(self).issue() is None
                    && reads_from(final(self).table(), old(self).buffer(), old(self).manual_delimiter())
                    && same_path(final(self).table().path, old(self).table().path)
                    && final(self).table().version() == next_version(old(self).table().version()),
                Err(issue) => final(self).shown() == DocumentView::Text && final(self).issue() == Some(issue)
                    && final(self).table() == old(self).table()
                    && issue.count == opened_issues(old(self).buffer(), old(self).manual_delimiter()).len()
                    && issue.message@ == parse_failure_message(old(self).table().path, old(self).buffer(), old(self).manual_delimiter()),
            },
    {
        let bytes = self.text_bytes();
        proof {
            lemma_saved_form_opens(self.document.has_bom, self.text_view());
        }
        let path = clone_path(&self.document.path);
        match CsvDocument::from_bytes(path_ref(&path), bytes.as_slice(), self.delimiter_override) {
            Ok(parsed) => {
                proof {
                    crate::laws::law_saved_bytes_match_opened_bytes(bytes@);
                }
                let ghost before = *self;
                let accepted = self.accept_parsed_text(parsed);
                proof {
                    assert(accepted);
                }
                self.view = DocumentView::Table;
                Ok(())
            },
            Err(error) => {
                let count = match error.parse_error_count() {
                    Some(c) => c,
                    None => 1,
                };
                let message = error.to_string();
                let issue = TextParseIssue { message: message.clone(), count };
                self.text_parse_issue = Some(TextParseIssue { message, count });
                self.view = DocumentView::Text;
                Err(issue)
            },
        }
    }

    /// Checks that the text parses, as `show_table` does, but keeps the view shown.
    pub fn validate_text(&mut self) -> (r: Result<(), TextParseIssue>)
        requires
            old(self).inv(),
        ensures
            final(self).inv(),
            final(self).shown() == old(self).shown(),
            final(self).buffer() == old(self).buffer(),
            final(self).saved_digest() == old(self).saved_digest(),
            final(self).manual_delimiter() == old(self).manual_delimiter(),
            r is Ok <==> opened_text_parses(old(self).buffer(), old(self).manual_delimiter()),
            match r {
                Ok(_) => !final(self).editing_text() && final(self).issue() is None
                    && reads_from(final(self).table(), old(self).buffer(), old(self).manual_delimiter())
                    && same_path(final(self).table().path, old(self).table().path)
                    && final(self).table().version() == next_version(old(self).table().version()),
                Err(issue) => final(self).issue() == Some(issue)
                    && final(self).table() == old(self).table()
                    && issue.count == opened_issues(old(self).buffer(), old(self).manual_delimiter()).len()
                    && issue.message@ == parse_failure_message(old(self).table().path, old(self).buffer(), old(self).manual_delimiter()),
            },
    {
        let view = self.view;
        let result = self.show_table();
        self.view = view;
        result
    }

    /// Sets the number of header rows (1 to 5); nothing else changes.
    pub fn set_header_rows(&mut self, header_rows: usize) -> (r: Result<(), DocumentSessionError>)
        requires
            old(self).inv(),
        ensures
            final(self).inv(),
            r is Ok <==> header_rows_valid(header_rows),
            r is Ok ==> final(self).header_count() == header_rows
                && final(self).table() == old(self).table()
                && final(self).text_view() == old(self).text_view()
                && final(self).editing_text() == old(self).editing_text()
                && final(self).shown() == old(self).shown()
                && final(self).issue() == old(self).issue()
                && final(self).manual_delimiter() == old(self).manual_delimiter()
                && final(self).undo_edits() == old(self).undo_edits()
                && final(self).redo_edits() == old(self).redo_edits(),
            r matches Err(e) ==> e == DocumentSessionError::InvalidHeaderRows(header_rows) && *final(self) == *old(self),
            final(self).buffer() == old(self).buffer(),
            final(self).saved_digest() == old(self).saved_digest(),
    {
        match validate_header_rows(header_rows) {
            Ok(_) => {},
            Err(e) => {
                return Err(e);
            },
        }
        self.header_rows = header_rows;
        Ok(())
    }

    /// Parses the session's bytes again with the given delimiter and keeps it as the delimiter
    /// chosen by hand; the bytes do not change, the histories are dropped. When the bytes do not
    /// parse with it, nothing changes and the error is returned.
    pub fn set_delimiter(&mut self, delimiter: u8) -> (r: Result<(), DocumentSessionError>)
        requires
            old(self).inv(),
        ensures
            final(self).inv(),
            final(self).buffer() == old(self).buffer(),
            final(self).saved_digest() == old(self).saved_digest(),
            r is Ok <==> parse_issues(opened_text(old(self).buffer()), delimiter).len() == 0,
            r is Ok ==> final(self).manual_delimiter() == Some(delimiter) && final(self).table().delimiter == delimiter
                && reads_from(final(self).table(), old(self).buffer(), Some(delimiter))
                && same_path(final(self).table().path, old(self).table().path)
                && final(self).table().version() == next_version(old(self).table().version())
                && !final(self).editing_text() && final(self).issue() is None
                && final(self).undo_edits().len() == 0 && final(self).redo_edits().len() == 0,
            r matches Err(e) ==> (e matches DocumentSessionError::Csv(c) && c is Parse) && *final(self) == *old(self),
    {
        let bytes = self.text_bytes();
        proof {
            lemma_saved_form_opens(self.document.has_bom, self.text_view());
        }
        let path = clone_path(&self.document.path);
        let reparsed = match CsvDocument::from_bytes(path_ref(&path), bytes.as_slice(), Some(delimiter)) {
            Ok(d) => d,
            Err(e) => {
                return Err(to_session_error(e));
            },
        };
        proof {
            crate::laws::law_saved_bytes_match_opened_bytes(bytes@);
        }
        self.document = reparsed.versioned(advance_version(self.document.analysis_version()));
        self.text_override = None;
        self.current_hash = hash_text(self.document.has_bom, self.document.raw_text.as_str());
        self.text_parse_issue = None;
        self.delimiter_override = Some(delimiter);
        self.undo_stack.clear();
        self.redo_stack.clear();
        proof {
            assert(edits_view(self.undo_stack@) =~= Seq::<(usize, usize, Seq<char>, Seq<char>)>::empty());
            assert(edits_view(self.redo_stack@) =~= Seq::<(usize, usize, Seq<char>, Seq<char>)>::empty());
        }
        Ok(())
    }
}


/// The records with one cell set to a value.
pub open spec fn with_cell(records: Seq<Seq<Seq<char>>>, row: int, col: int, value: Seq<char>) -> Seq<Seq<Seq<char>>> {
    records.update(row, records[row].update(col, value))
}

impl DocumentSession {
    /// Sets a cell of the table (the text being edited, if any, is dropped for the table's). An
    /// error when the cell is outside the table; false (nothing changes) when it holds the value
    /// already; else true, with the edit on the undo history and the redo history cleared.
    pub fn edit_cell(&mut self, row_index: usize, column_index: usize, value: String) -> (r: Result<bool, DocumentSessionError>)
        requires
            old(self).inv(),
        ensures
            final(self).inv(),
            ({
                let records = old(self).table().records.deep_view();
                if row_index >= records.len() || column_index >= records[row_index as int].len() {
                    r matches Err(DocumentSessionError::Csv(CsvDocumentError::CellOutOfBounds { row_index: a, column_index: b }))
                        && a == row_index && b == column_index && *final(self) == *old(self)
                } else if records[row_index as int][column_index as int] == value@ {
                    r matches Ok(false) && *final(self) == *old(self)
                } else {
                    match rewritten_record(old(self).table(), row_index as int, column_index as int, value@) {
                        Err(message) => (r matches Err(DocumentSessionError::Csv(CsvDocumentError::Parse { message: m, .. })) && m@ == message)
                            && *final(self) == *old(self),
                        Ok(written) => r matches Ok(true)
                            && cell_rewritten(old(self).table(), row_index as int, column_index as int, value@, written, final(self).table())
                            && final(self).table().records.deep_view() == with_cell(records, row_index as int, column_index as int, value@)
                            && !final(self).editing_text()
                            && final(self).buffer() == saved_form(final(self).table().has_bom, final(self).table().raw_text@)
                            && final(self).undo_edits() == old(self).undo_edits().push((row_index, column_index, records[row_index as int][column_index as int], value@))
                            && final(self).redo_edits().len() == 0
                            && final(self).saved_digest() == old(self).saved_digest()
                            && final(self).header_count() == old(self).header_count()
                            && final(self).manual_delimiter() == old(self).manual_delimiter()
                            && final(self).shown() == old(self).shown(),
                    }
                }
            }),
    {
        let ghost records = self.document.records.deep_view();
        if row_index >= self.document.records.len() || column_index >= self.document.records[row_index].len() {
            return Err(DocumentSessionError::Csv(CsvDocumentError::CellOutOfBounds { row_index, column_index }));
        }
        proof {
            assert(records[row_index as int] == self.document.records@[row_index as int].deep_view());
        }
        let before = self.document.records[row_index][column_index].clone();
        if strings_equal(before.as_str(), value.as_str()) {
            return Ok(false);
        }
        match self.document.replace_cell(row_index, column_index, value.as_str()) {
            Ok(_) => {},
            Err(e) => {
                return Err(to_session_error(e));
            },
        }
        self.text_override = None;
        self.current_hash = hash_text(self.document.has_bom, self.document.raw_text.as_str());
        let ghost undo_before = self.undo_stack@;
        self.undo_stack.push(CellEdit { row_index, column_index, before, after: value });
        self.redo_stack.clear();
        proof {
            assert(edits_view(self.undo_stack@) =~= edits_view(undo_before).push((row_index, column_index, records[row_index as int][column_index as int], value@)));
            assert(edits_view(self.redo_stack@) =~= Seq::<(usize, usize, Seq<char>, Seq<char>)>::empty());
        }
        Ok(true)
    }

    /// Undoes the last cell edit: sets the cell back to its value before the edit and moves the
    /// edit to the redo history. False when there is nothing to undo. When the cell cannot be
    /// set, the edit is dropped and the error returned.
    pub fn undo(&mut self) -> (r: Result<bool, DocumentSessionError>)
        requires
            old(self).inv(),
        ensures
            final(self).inv(),
            old(self).undo_edits().len() == 0 ==> (r matches Ok(false) && *final(self) == *old(self)),
            old(self).undo_edits().len() > 0 ==> {
                let e = old(self).undo_edits().last();
                let doc = old(self).table();
                let records = doc.records.deep_view();
                if !cell_in_bounds(doc, e.0 as int, e.1 as int) {
                    (r matches Err(DocumentSessionError::Csv(CsvDocumentError::CellOutOfBounds { row_index, column_index }))
                        && row_index == e.0 && column_index == e.1)
                    && old(self).only_history_dropped(*final(self), false)
                } else if records[e.0 as int][e.1 as int] == e.2 {
                    r matches Ok(true)
                    && final(self).table() == doc
                    && !final(self).editing_text()
                    && final(self).undo_edits() == old(self).undo_edits().drop_last()
                    && final(self).redo_edits() == old(self).redo_edits().push(e)
                    && final(self).saved_digest() == old(self).saved_digest()
                } else {
                    match rewritten_record(doc, e.0 as int, e.1 as int, e.2) {
                        Err(message) => (r matches Err(DocumentSessionError::Csv(CsvDocumentError::Parse { message: m, .. })) && m@ == message)
                            && old(self).only_history_dropped(*final(self), false),
                        Ok(written) => r matches Ok(true)
                            && cell_rewritten(doc, e.0 as int, e.1 as int, e.2, written, final(self).table())
                            && final(self).table().records.deep_view() == with_cell(records, e.0 as int, e.1 as int, e.2)
                            && !final(self).editing_text()
                            && final(self).buffer() == saved_form(final(self).table().has_bom, final(self).table().raw_text@)
                            && final(self).undo_edits() == old(self).undo_edits().drop_last()
                            && final(self).redo_edits() == old(self).redo_edits().push(e)
                            && final(self).saved_digest() == old(self).saved_digest(),
                    }
                }
            },
    {
        let ghost undo_before = self.undo_stack@;
        let ghost redo_before = self.redo_stack@;
        if self.undo_stack.len() == 0 {
            return Ok(false);
        }
        let edit = match self.undo_stack.pop() {
            Some(edit) => edit,
            None => {
                return Ok(false);
            },
        };
        proof {
            assert(edits_view(self.undo_stack@) =~= edits_view(undo_before).drop_last());
            assert(edits_view(undo_before).last() == edit_view(edit));
        }
        let ghost records = self.document.records.deep_view();
        match self.document.replace_cell(edit.row_index, edit.column_index, edit.before.as_str()) {
            Ok(_) => {},
            Err(e) => {
                return Err(to_session_error(e));
            },
        }
        proof {
            if edit.row_index < records.len() && edit.column_index < records[edit.row_index as int].len()
                && records[edit.row_index as int][edit.column_index as int] == edit.before@ {
                assert(records[edit.row_index as int].update(edit.column_index as int, edit.before@) =~= records[edit.row_index as int]);
                assert(with_cell(records, edit.row_index as int, edit.column_index as int, edit.before@) =~= records);
            }
        }
        self.text_override = None;
        self.current_hash = hash_text(self.document.has_bom, self.document.raw_text.as_str());
        let ghost e = edit_view(edit);
        self.redo_stack.push(edit);
        proof {
            assert(edits_view(self.redo_stack@) =~= edits_view(redo_before).push(e));
        }
        Ok(true)
    }

    /// Redoes the last undone cell edit: sets the cell to its value after the edit and moves the
    /// edit back to the undo history. False when there is nothing to redo. When the cell cannot
    /// be set, the edit is dropped and the error returned.
    pub fn redo(&mut self) -> (r: Result<bool, DocumentSessionError>)
        requires
            old(self).inv(),
        ensures
            final(self).inv(),
            old(self).redo_edits().len() == 0 ==> (r matches Ok(false) && *final(self) == *old(self)),
            old(self).redo_edits().len() > 0 ==> {
                let e = old(self).redo_edits().last();
                let doc = old(self).table();
                let records = doc.records.deep_view();
                if !cell_in_bounds(doc, e.0 as int, e.1 as int) {
                    (r matches Err(DocumentSessionError::Csv(CsvDocumentError::CellOutOfBounds { row_index, column_index }))
                        && row_index == e.0 && column_index == e.1)
                    && old(self).only_history_dropped(*final(self), true)
                } else if records[e.0 as int][e.1 as int] == e.3 {
                    r matches Ok(true)
                    && final(self).table() == doc
                    && !final(self).editing_text()
                    && final(self).redo_edits() == old(self).redo_edits().drop_last()
                    && final(self).undo_edits() == old(self).undo_edits().push(e)
                    && final(self).saved_digest() == old(self).saved_digest()
                } else {
                    match rewritten_record(doc, e.0 as int, e.1 as int, e.3) {
                        Err(message) => (r matches Err(DocumentSessionError::Csv(CsvDocumentError::Parse { message: m, .. })) && m@ == message)
                            && old(self).only_history_dropped(*final(self), true),
                        Ok(written) => r matches Ok(true)
                            && cell_rewritten(doc, e.0 as int, e.1 as int, e.3, written, final(self).table())
                            && final(self).table().records.deep_view() == with_cell(records, e.0 as int, e.1 as int, e.3)
                            && !final(self).editing_text()
                            && final(self).buffer() == saved_form(final(self).table().has_bom, final(self).table().raw_text@)
                            && final(self).redo_edits() == old(self).redo_edits().drop_last()
                            && final(self).undo_edits() == old(self).undo_edits().push(e)
                            && final(self).saved_digest() == old(self).saved_digest(),
                    }
                }
            },
    {
        let ghost undo_before = self.undo_stack@;
        let ghost redo_before = self.redo_stack@;
        if self.redo_stack.len() == 0 {
            return Ok(false);
        }
        let edit = match self.redo_stack.pop() {
            Some(edit) => edit,
            None => {
                return Ok(false);
            },
        };
        proof {
            assert(edits_view(self.redo_stack@) =~= edits_view(redo_before).drop_last());
            assert(edits_view(redo_before).last() == edit_view(edit));
        }
        let ghost records = self.document.records.deep_view();
        match self.document.replace_cell(edit.row_index, edit.column_index, edit.after.as_str()) {
            Ok(_) => {},
            Err(e) => {
                return Err(to_session_error(e));
            },
        }
        proof {
            if edit.row_index < records.len() && edit.column_index < records[edit.row_index as int].len()
                && records[edit.row_index as int][edit.column_index as int] == edit.after@ {
                assert(records[edit.row_index as int].update(edit.column_index as int, edit.after@) =~= records[edit.row_index as int]);
                assert(with_cell(records, edit.row_index as int, edit.column_index as int, edit.after@) =~= records);
            }
        }
        self.text_override = None;
        self.current_hash = hash_text(self.document.has_bom, self.document.raw_text.as_str());
        let ghost e = edit_view(edit);
        self.undo_stack.push(edit);
        proof {
            assert(edits_view(self.undo_stack@) =~= edits_view(undo_before).push(e));
        }
        Ok(true)
    }

    /// The session's table.
    pub fn table_ref(&self) -> (r: &CsvDocument)
        ensures
            *r == self.table(),
    {
        &self.document
    }

    /// Whether the bytes the session would save differ from those on disk (by digest).
    pub fn is_dirty(&self) -> (r: bool)
        requires
            self.inv(),
        ensures
            r == self.dirty(),
    {
        !bytes_equal(&self.current_hash, &self.saved_hash)
    }

    /// The digest of the bytes on disk when the file was last read or saved.
    pub fn saved_hash(&self) -> (r: Vec<u8>)
        ensures
            r@ == self.saved_digest(),
    {
        self.saved_hash.clone()
    }

    /// The delimiter chosen by hand, if any.
    pub fn delimiter_override(&self) -> (r: Option<u8>)
        ensures
            r == self.manual_delimiter(),
    {
        self.delimiter_override
    }

    /// The bytes to write when saving, given the bytes now on disk (none when they could not be
    /// read): refused as an external modification unless overwriting was asked for or the disk
    /// bytes are those last read or saved (by digest).
    pub fn save_bytes(&self, disk_bytes: Option<Vec<u8>>, overwrite_external_changes: bool) -> (r: Result<Vec<u8>, DocumentSessionError>)
        ensures
            match r {
                Ok(bytes) => bytes@ == self.buffer() && (overwrite_external_changes
                    || (disk_bytes matches Some(d) && blake3_digest(d@) == self.saved_digest())),
                Err(e) => (e matches DocumentSessionError::ExternalModification { path } && same_path(path, self.table().path))
                    && !overwrite_external_changes
                    && !(disk_bytes matches Some(d) && blake3_digest(d@) == self.saved_digest()),
            },
    {
        if !overwrite_external_changes {
            let unchanged = match &disk_bytes {
                Some(d) => {
                    let h = digest(d.as_slice());
                    bytes_equal(&h, &self.saved_hash)
                },
                None => false,
            };
            if !unchanged {
                return Err(DocumentSessionError::ExternalModification { path: clone_path(&self.document.path) });
            }
        }
        Ok(self.text_bytes())
    }

    /// Records that the session's bytes were written to disk: they are the new baseline.
    pub fn mark_saved(&mut self, written: &[u8])
        requires
            old(self).inv(),
            written@ == old(self).buffer(),
        ensures
            final(self).inv(),
            !final(self).dirty(),
            final(self).saved_digest() == blake3_digest(written@),
            final(self).buffer() == old(self).buffer(),
            final(self).table() == old(self).table(),
            final(self).undo_edits() == old(self).undo_edits(),
            final(self).redo_edits() == old(self).redo_edits(),
    {
        self.saved_hash = digest(written);
        self.current_hash = digest(written);
    }

    /// Replaces the session by one on bytes read again from its file, keeping the delimiter
    /// chosen by hand and the header rows, and the view when the bytes parse. Bytes that are not
    /// UTF-8 are refused, and then nothing changes.
    pub fn reload(&mut self, bytes: Vec<u8>) -> (r: Result<(), DocumentSessionError>)
        requires
            old(self).inv(),
        ensures
            final(self).inv(),
            r is Ok <==> valid_utf8(text_content(bytes@)),
            r matches Err(e) ==> (e matches DocumentSessionError::Csv(c) && c is InvalidUtf8),
            r is Ok ==> final(self).buffer() == bytes@ && !final(self).dirty()
                && final(self).saved_digest() == blake3_digest(bytes@)
                && final(self).undo_edits().len() == 0 && final(self).redo_edits().len() == 0
                && final(self).manual_delimiter() == old(self).manual_delimiter()
                && final(self).header_count() == old(self).header_count()
                && (final(self).issue() is None <==> opened_text_parses(bytes@, old(self).manual_delimiter()))
                && (final(self).issue() is None ==> reads_from(final(self).table(), bytes@, old(self).manual_delimiter()))
                && same_path(final(self).table().path, old(self).table().path)
                && final(self).table().version() == next_version(old(self).table().version())
                && (final(self).issue() is None ==> final(self).shown() == old(self).shown() && !final(self).editing_text())
                && (final(self).issue() is Some ==> final(self).shown() == DocumentView::Text && final(self).editing_text())
                && (final(self).issue() matches Some(i) ==> i.count == opened_issues(bytes@, old(self).manual_delimiter()).len()
                    && i.message@ == parse_failure_message(old(self).table().path, bytes@, old(self).manual_delimiter())),
            r is Err ==> *final(self) == *old(self),
    {
        let previous_view = self.view;
        let path = clone_path(&self.document.path);
        let mut replacement = match DocumentSession::from_bytes(path_ref(&path), bytes, self.delimiter_override, self.header_rows) {
            Ok(s) => s,
            Err(e) => {
                return Err(e);
            },
        };
        if replacement.text_parse_issue.is_none() {
            replacement.view = previous_view;
        }
        let version = advance_version(self.document.analysis_version());
        replacement.document = replacement.document.versioned(version);
        *self = replacement;
        Ok(())
    }
}

/// Saving after a cell edit writes the edited text: the bytes saved are the byte-order mark, if
/// the file had one, then the text from before the edit with only the edited record's bytes
/// replaced by the record as the CSV writer wrote it; the session counts as changed exactly when
/// those bytes differ (by digest) from the ones last read or saved.
pub proof fn law_saving_after_an_edit_writes_the_edited_text(
    before: DocumentSession,
    after: DocumentSession,
    row: int,
    col: int,
    value: Seq<char>,
    written: Seq<char>,
)
    requires
        cell_rewritten(before.table(), row, col, value, written, after.table()),
        !after.editing_text(),
        after.saved_digest() == before.saved_digest(),
    ensures
        ({
            let b = encode_utf8(before.table().raw_text@);
            let span = before.table().spans()[row];
            let saved = (if before.table().has_bom { utf8_bom() } else { Seq::<u8>::empty() })
                + (b.take(span.0 as int) + encode_utf8(replacement_text(written, ends_with_line_feed(b, span))) + b.skip(span.1 as int));
            &&& after.buffer() == saved
            &&& after.dirty() == (blake3_digest(saved) != before.saved_digest())
        }),
{
}

/// Undoing a cell edit restores the table: setting a cell and then setting it back to the value
/// it had gives the records that were there before.
pub proof fn law_undo_restores_the_records(records: Seq<Seq<Seq<char>>>, row: int, col: int, value: Seq<char>)
    requires
        0 <= row < records.len(),
        0 <= col < records[row].len(),
    ensures
        with_cell(with_cell(records, row, col, value), row, col, records[row][col]) == records,
{
    assert(with_cell(with_cell(records, row, col, value), row, col, records[row][col])[row] =~= records[row]);
    assert(with_cell(with_cell(records, row, col, value), row, col, records[row][col]) =~= records);
}

/// Redoing an undone edit brings the edit back: setting a cell back to its earlier value and
/// then to the edited value again gives the edited records.
pub proof fn law_redo_restores_the_edit(records: Seq<Seq<Seq<char>>>, row: int, col: int, value: Seq<char>)
    requires
        0 <= row < records.len(),
        0 <= col < records[row].len(),
    ensures
        with_cell(with_cell(with_cell(records, row, col, value), row, col, records[row][col]), row, col, value)
            == with_cell(records, row, col, value),
{
    law_undo_restores_the_records(records, row, col, value);
}

} // verus!
