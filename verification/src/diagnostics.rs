use vstd::prelude::*;

use crate::declared::{DeclaredTypeParser, parse_declaration, render_decl, validate_cell};
use crate::json::{Json, JsonValue, json_parse, parse_json, lemma_array_view};
use crate::text::{chars_of, chars_equal};
use crate::type_shape::{Shape, TypeShape, merge, merge_fuel, merge_shapes, render_into, render_shape,
    shape_of_json, type_shape_for_json};
use vstd::utf8::encode_utf8;

verus! {

pub const MISC_HEADER_ROWS: usize = 2;

#[derive(Clone, Copy, Debug, PartialEq, Eq, Structural)]
pub enum TableKind {
    Standard,
    Misc,
}

/// A misc table has the header `valueType,key,value,<anything>` as its second record and four
/// fields in every record.
pub open spec fn is_misc_table(records: Seq<Seq<Seq<char>>>) -> bool {
    &&& records.len() > 1
    &&& records[1].len() == 4
    &&& records[1][0] == "valueType"@
    &&& records[1][1] == "key"@
    &&& records[1][2] == "value"@
    &&& forall|i: int| 0 <= i < records.len() ==> (#[trigger] records[i]).len() == 4
}

pub open spec fn table_kind_of(records: Seq<Seq<Seq<char>>>) -> TableKind {
    if is_misc_table(records) {
        TableKind::Misc
    } else {
        TableKind::Standard
    }
}

fn string_is(s: &String, literal: &str) -> (r: bool)
    ensures
        r == (s@ == literal@),
{
    let a = chars_of(s.as_str());
    let b = chars_of(literal);
    chars_equal(&a, &b)
}

pub fn table_kind(records: &Vec<Vec<String>>) -> (k: TableKind)
    ensures
        k == table_kind_of(records.deep_view()),
{
    let ghost r = records.deep_view();
    let has_misc_header = records.len() > 1 && records[1].len() == 4 && string_is(&records[1][0], "valueType")
        && string_is(&records[1][1], "key") && string_is(&records[1][2], "value");
    proof {
        if records.len() > 1 {
            assert(r[1] == records@[1].deep_view());
            if records[1].len() == 4 {
                assert(r[1][0] == records@[1]@[0]@);
                assert(r[1][1] == records@[1]@[1]@);
                assert(r[1][2] == records@[1]@[2]@);
            }
        }
    }
    if !has_misc_header {
        return TableKind::Standard;
    }
    let mut i: usize = 0;
    while i < records.len()
        invariant
            r == records.deep_view(),
            i <= records.len(),
            forall|j: int| 0 <= j < i ==> (#[trigger] r[j]).len() == 4,
        decreases records.len() - i,
    {
        assert(r[i as int] == records@[i as int].deep_view());
        if records[i].len() != 4 {
            return TableKind::Standard;
        }
        i += 1;
    }
    TableKind::Misc
}

pub fn effective_header_rows(records: &Vec<Vec<String>>, configured: usize) -> (r: usize)
    ensures
        r == match table_kind_of(records.deep_view()) {
            TableKind::Standard => configured,
            TableKind::Misc => MISC_HEADER_ROWS,
        },
{
    match table_kind(records) {
        TableKind::Standard => configured,
        TableKind::Misc => MISC_HEADER_ROWS,
    }
}

#[derive(Clone, Copy, Debug, PartialEq, Eq, Structural)]
pub enum ColumnType {
    String,
    Number,
    Bool,
    Json,
    Array,
    Array2d,
    Mixed,
}

pub open spec fn column_type_label(t: ColumnType) -> Seq<char> {
    match t {
        ColumnType::String => "string"@,
        ColumnType::Number => "number"@,
        ColumnType::Bool => "bool"@,
        ColumnType::Json => "json"@,
        ColumnType::Array => "array"@,
        ColumnType::Array2d => "array_2d"@,
        ColumnType::Mixed => "mixed"@,
    }
}

impl ColumnType {
    pub fn label(self) -> (s: &'static str)
        ensures
            s@ == column_type_label(self),
    {
        match self {
            ColumnType::String => "string",
            ColumnType::Number => "number",
            ColumnType::Bool => "bool",
            ColumnType::Json => "json",
            ColumnType::Array => "array",
            ColumnType::Array2d => "array_2d",
            ColumnType::Mixed => "mixed",
        }
    }
}

#[derive(Clone, Copy, Debug, PartialEq, Eq, Structural)]
pub enum CellProblemKind {
    InvalidTypeDeclaration,
    DuplicateKey,
    DeclaredTypeMismatch,
    StructuralMismatch,
    DangerousInvisibleCharacter,
    UnescapedQuote,
    InvalidBackslashEscape,
}

#[derive(Clone, Copy, Debug, PartialEq, Eq, Structural)]
pub enum ProblemSeverity {
    Warning,
    Error,
}

/// Quoting and escaping problems are warnings; all others are errors.
pub open spec fn kind_severity(k: CellProblemKind) -> ProblemSeverity {
    match k {
        CellProblemKind::UnescapedQuote | CellProblemKind::InvalidBackslashEscape => ProblemSeverity::Warning,
        _ => ProblemSeverity::Error,
    }
}

/// The position of a kind in the order problems are listed in.
pub open spec fn kind_rank(k: CellProblemKind) -> nat {
    match k {
        CellProblemKind::InvalidTypeDeclaration => 0,
        CellProblemKind::DuplicateKey => 1,
        CellProblemKind::DeclaredTypeMismatch => 2,
        CellProblemKind::StructuralMismatch => 3,
        CellProblemKind::DangerousInvisibleCharacter => 4,
        CellProblemKind::UnescapedQuote => 5,
        CellProblemKind::InvalidBackslashEscape => 6,
    }
}

impl CellProblemKind {
    pub fn severity(self) -> (s: ProblemSeverity)
        ensures
            s == kind_severity(self),
    {
        match self {
            CellProblemKind::UnescapedQuote | CellProblemKind::InvalidBackslashEscape => ProblemSeverity::Warning,
            CellProblemKind::InvalidTypeDeclaration
            | CellProblemKind::DuplicateKey
            | CellProblemKind::DeclaredTypeMismatch
            | CellProblemKind::StructuralMismatch
            | CellProblemKind::DangerousInvisibleCharacter => ProblemSeverity::Error,
        }
    }
}

#[derive(Clone, Debug, PartialEq, Eq)]
pub enum CellProblemDetail {
    DeclaredTypeMismatch { expected: String, path: String },
}

#[derive(Clone, Debug, PartialEq, Eq)]
pub struct CellProblem {
    pub row_index: usize,
    pub kinds: Vec<CellProblemKind>,
    pub detail: Option<CellProblemDetail>,
}

/// The severity of a problem: an error if any kind is an error, else a warning if it has any kind.
pub open spec fn problem_severity(kinds: Seq<CellProblemKind>) -> Option<ProblemSeverity> {
    if exists|i: int| 0 <= i < kinds.len() && kind_severity(#[trigger] kinds[i]) == ProblemSeverity::Error {
        Some(ProblemSeverity::Error)
    } else if kinds.len() > 0 {
        Some(ProblemSeverity::Warning)
    } else {
        None
    }
}

impl CellProblem {
    pub fn severity(&self) -> (s: Option<ProblemSeverity>)
        ensures
            s == problem_severity(self.kinds@),
    {
        let mut i: usize = 0;
        while i < self.kinds.len()
            invariant
                i <= self.kinds.len(),
                forall|j: int| 0 <= j < i ==> kind_severity(#[trigger] self.kinds@[j]) != ProblemSeverity::Error,
            decreases self.kinds.len() - i,
        {
            if self.kinds[i].severity() == ProblemSeverity::Error {
                return Some(ProblemSeverity::Error);
            }
            i += 1;
        }
        if self.kinds.len() > 0 {
            assert(kind_severity(self.kinds@[0]) == ProblemSeverity::Warning);
            Some(ProblemSeverity::Warning)
        } else {
            None
        }
    }
}


#[derive(Clone, Copy, Debug, PartialEq, Eq, Structural)]
pub enum CellType {
    String,
    Number,
    Bool,
    Json,
    Array,
    Array2d,
}

pub open spec fn is_hex_digit(c: char) -> bool {
    ('0' <= c && c <= '9') || ('a' <= c && c <= 'f') || ('A' <= c && c <= 'F')
}

pub open spec fn is_simple_escape(c: char) -> bool {
    c == '"' || c == '\\' || c == '/' || c == 'b' || c == 'f' || c == 'n' || c == 'r' || c == 't'
}

/// The quoting and escaping problems of a plain string, from character `i` on: every bare `"`,
/// and every `\` that does not start one of the escapes `\" \\ \/ \b \f \n \r \t \uXXXX`.
pub open spec fn escape_scan(c: Seq<char>, i: int) -> Seq<CellProblemKind>
    decreases c.len() - i,
{
    if i < 0 || i >= c.len() {
        seq![]
    } else if c[i] == '"' {
        seq![CellProblemKind::UnescapedQuote] + escape_scan(c, i + 1)
    } else if c[i] == '\\' {
        if i + 1 >= c.len() {
            seq![CellProblemKind::InvalidBackslashEscape]
        } else if is_simple_escape(c[i + 1]) {
            escape_scan(c, i + 2)
        } else if c[i + 1] == 'u' && i + 6 <= c.len() && is_hex_digit(c[i + 2]) && is_hex_digit(c[i + 3])
            && is_hex_digit(c[i + 4]) && is_hex_digit(c[i + 5]) {
            escape_scan(c, i + 6)
        } else {
            seq![CellProblemKind::InvalidBackslashEscape] + escape_scan(c, i + 2)
        }
    } else {
        escape_scan(c, i + 1)
    }
}

fn hex_digit(c: char) -> (r: bool)
    ensures
        r == is_hex_digit(c),
{
    ('0' <= c && c <= '9') || ('a' <= c && c <= 'f') || ('A' <= c && c <= 'F')
}

fn string_escape_problems(value: &Vec<char>) -> (problems: Vec<CellProblemKind>)
    ensures
        problems@ == escape_scan(value@, 0),
{
    let mut problems: Vec<CellProblemKind> = Vec::new();
    let mut index: usize = 0;
    let n = value.len();
    while index < n
        invariant
            n == value@.len(),
            problems@ + escape_scan(value@, index as int) == escape_scan(value@, 0),
        decreases n - index,
    {
        let c = value[index];
        let ghost before = problems@;
        if c == '"' {
            problems.push(CellProblemKind::UnescapedQuote);
            index += 1;
            proof {
                assert(problems@ + escape_scan(value@, index as int) =~= before + escape_scan(value@, index - 1 as int));
            }
        } else if c == '\\' {
            if index + 1 >= n {
                problems.push(CellProblemKind::InvalidBackslashEscape);
                proof {
                    assert(problems@ =~= before + escape_scan(value@, index as int));
                    assert(escape_scan(value@, n as int) =~= Seq::<CellProblemKind>::empty());
                }
                index = n;
                proof {
                    assert(problems@ + escape_scan(value@, index as int) =~= escape_scan(value@, 0));
                }
            } else {
                let e = value[index + 1];
                if e == '"' || e == '\\' || e == '/' || e == 'b' || e == 'f' || e == 'n' || e == 'r' || e == 't' {
                    index += 2;
                } else if e == 'u' && n - index >= 6 && hex_digit(value[index + 2]) && hex_digit(value[index + 3])
                    && hex_digit(value[index + 4]) && hex_digit(value[index + 5]) {
                    index += 6;
                } else {
                    problems.push(CellProblemKind::InvalidBackslashEscape);
                    index += 2;
                    proof {
                        assert(problems@ + escape_scan(value@, index as int) =~= before + escape_scan(value@, index - 2 as int));
                    }
                }
            }
        } else {
            index += 1;
        }
    }
    proof {
        assert(problems@ + escape_scan(value@, index as int) =~= problems@);
    }
    problems
}

/// The characters that may not appear in a cell: tab, ideographic space, zero-width space,
/// zero-width non-joiner, zero-width joiner and the byte-order mark.
pub open spec fn is_dangerous_char(c: char) -> bool {
    c == '\t' || c == '\u{3000}' || c == '\u{200B}' || c == '\u{200C}' || c == '\u{200D}' || c == '\u{FEFF}'
}

pub open spec fn has_dangerous_char(c: Seq<char>) -> bool {
    exists|i: int| 0 <= i < c.len() && is_dangerous_char(#[trigger] c[i])
}

/// The character problems of a cell: a dangerous invisible character, then (for plain strings)
/// its quoting and escaping problems.
pub open spec fn character_problems(c: Seq<char>, t: CellType) -> Seq<CellProblemKind> {
    (if has_dangerous_char(c) { seq![CellProblemKind::DangerousInvisibleCharacter] } else { seq![] })
        + (if t == CellType::String { escape_scan(c, 0) } else { seq![] })
}

fn dangerous_character_problems(value: &Vec<char>, cell_type: CellType) -> (problems: Vec<CellProblemKind>)
    ensures
        problems@ == character_problems(value@, cell_type),
{
    let mut problems: Vec<CellProblemKind> = Vec::new();
    let mut i: usize = 0;
    let mut found = false;
    while i < value.len()
        invariant
            i <= value.len(),
            found <==> exists|j: int| 0 <= j < i && is_dangerous_char(#[trigger] value@[j]),
        decreases value.len() - i,
    {
        let c = value[i];
        if c == '\t' || c == '\u{3000}' || c == '\u{200B}' || c == '\u{200C}' || c == '\u{200D}' || c == '\u{FEFF}' {
            found = true;
        }
        i += 1;
    }
    if found {
        problems.push(CellProblemKind::DangerousInvisibleCharacter);
    }
    if cell_type == CellType::String {
        let escapes = string_escape_problems(value);
        let mut k: usize = 0;
        let ghost start = problems@;
        while k < escapes.len()
            invariant
                k <= escapes.len(),
                problems@ == start + escapes@.take(k as int),
            decreases escapes.len() - k,
        {
            problems.push(escapes[k]);
            k += 1;
            proof {
                assert(escapes@.take(k as int) =~= escapes@.take(k - 1 as int).push(escapes@[k - 1]));
            }
        }
        proof {
            assert(escapes@.take(escapes.len() as int) =~= escapes@);
        }
    }
    proof {
        assert(problems@ =~= character_problems(value@, cell_type));
    }
    problems
}

/// The index just after the quote that closes a quoted element begun before byte `i`; `""` is an
/// escaped quote. None when the element is not closed.
pub open spec fn quoted_element_end(b: Seq<u8>, i: int) -> Option<int>
    decreases b.len() - i,
{
    if i < 0 || i >= b.len() {
        None
    } else if b[i] == 34u8 {
        if i + 1 < b.len() && b[i + 1] == 34u8 {
            quoted_element_end(b, i + 2)
        } else {
            Some(i + 1)
        }
    } else {
        quoted_element_end(b, i + 1)
    }
}

/// Scans quoted elements separated by `,` (same group) or `;` (next group) from byte `i`; the
/// number of elements and groups, or none when the text is not of that form.
pub open spec fn separator_scan(b: Seq<u8>, i: int, elements: nat, groups: nat) -> Option<(nat, nat)>
    decreases b.len() - i,
{
    if i < 0 || i >= b.len() {
        Some((elements, groups))
    } else if b[i] != 34u8 {
        None
    } else {
        match quoted_element_end(b, i + 1) {
            None => None,
            Some(j) => {
                if j <= i || j > b.len() {
                    None
                } else if j == b.len() {
                    Some((elements + 1, groups))
                } else if b[j] == 44u8 {
                    separator_scan(b, j + 1, elements + 1, groups)
                } else if b[j] == 59u8 {
                    separator_scan(b, j + 1, elements + 1, groups + 1)
                } else {
                    None
                }
            },
        }
    }
}

/// A text of quoted elements is a 2-D array when it has several groups and at least one element
/// per group, a 1-D array when it has at least two elements.
pub open spec fn separator_array_type(b: Seq<u8>) -> Option<CellType> {
    match separator_scan(b, 0, 0, 1) {
        None => None,
        Some((elements, groups)) => if groups > 1 && elements >= groups {
            Some(CellType::Array2d)
        } else if elements >= 2 {
            Some(CellType::Array)
        } else {
            None
        },
    }
}

proof fn lemma_quoted_element_end_bounds(b: Seq<u8>, i: int)
    requires
        0 <= i,
    ensures
        quoted_element_end(b, i) matches Some(j) ==> i < j <= b.len(),
    decreases b.len() - i,
{
    if 0 <= i < b.len() && b[i] != 34u8 {
        lemma_quoted_element_end_bounds(b, i + 1);
    } else if 0 <= i < b.len() && i + 1 < b.len() && b[i + 1] == 34u8 {
        lemma_quoted_element_end_bounds(b, i + 2);
    }
}

fn quoted_end(bytes: &[u8], start: usize) -> (r: Option<usize>)
    ensures
        match r {
            Some(j) => quoted_element_end(bytes@, start as int) == Some(j as int),
            None => quoted_element_end(bytes@, start as int) is None,
        },
{
    let mut index = start;
    let n = bytes.len();
    while index < n
        invariant
            n == bytes@.len(),
            start <= index,
            quoted_element_end(bytes@, index as int) == quoted_element_end(bytes@, start as int),
        decreases n - index,
    {
        if bytes[index] == 34u8 {
            if index + 1 < n && bytes[index + 1] == 34u8 {
                index += 2;
            } else {
                return Some(index + 1);
            }
        } else {
            index += 1;
        }
    }
    None
}

fn classify_separator_array(value: &str) -> (r: Option<CellType>)
    ensures
        r == separator_array_type(encode_utf8(value@)),
{
    let bytes = value.as_bytes();
    let n = bytes.len();
    let mut index: usize = 0;
    let mut elements: usize = 0;
    let mut groups: usize = 1;
    while index < n
        invariant
            n == bytes@.len(),
            bytes@ == encode_utf8(value@),
            index <= n,
            elements <= index,
            groups <= index + 1,
            separator_scan(bytes@, index as int, elements as nat, groups as nat) == separator_scan(bytes@, 0, 0, 1),
        decreases n - index,
    {
        if bytes[index] != 34u8 {
            return None;
        }
        proof {
            lemma_quoted_element_end_bounds(bytes@, index + 1);
        }
        let end = match quoted_end(bytes, index + 1) {
            None => {
                return None;
            },
            Some(j) => j,
        };
        elements += 1;
        if end >= n {
            index = end;
        } else if bytes[end] == 44u8 {
            index = end + 1;
        } else if bytes[end] == 59u8 {
            groups += 1;
            index = end + 1;
        } else {
            return None;
        }
    }
    proof {
        assert(separator_scan(bytes@, index as int, elements as nat, groups as nat) == Some((elements as nat, groups as nat)));
    }
    if groups > 1 && elements >= groups {
        Some(CellType::Array2d)
    } else if elements >= 2 {
        Some(CellType::Array)
    } else {
        None
    }
}


/// How a cell reads: `true`/`false` as a bool; JSON objects as JSON; JSON arrays as 2-D arrays
/// when they hold only (and at least one) arrays, else as arrays; JSON numbers as numbers; texts
/// of quoted elements as arrays (see `separator_array_type`); anything else as a string.
pub open spec fn cell_type_of(value: Seq<char>) -> CellType {
    if value == "true"@ || value == "false"@ {
        CellType::Bool
    } else {
        match json_parse(value) {
            Some(Json::Object(_)) => CellType::Json,
            Some(Json::Array(items)) => if items.len() > 0 && forall|i: int| 0 <= i < items.len() ==> (#[trigger] items[i]) is Array {
                CellType::Array2d
            } else {
                CellType::Array
            },
            Some(Json::Number(_)) => CellType::Number,
            _ => match separator_array_type(encode_utf8(value)) {
                Some(t) => t,
                None => CellType::String,
            },
        }
    }
}

fn str_is(s: &str, literal: &str) -> (r: bool)
    ensures
        r == (s@ == literal@),
{
    let a = chars_of(s);
    let b = chars_of(literal);
    chars_equal(&a, &b)
}

/// Classifies a cell (see `cell_type_of`).
pub fn classify_cell(value: &str) -> (t: CellType)
    ensures
        t == cell_type_of(value@),
{
    if str_is(value, "true") || str_is(value, "false") {
        return CellType::Bool;
    }
    match parse_json(value) {
        Some(JsonValue::Object(_)) => {
            return CellType::Json;
        },
        Some(json) => {
            match &json {
                JsonValue::Array(items) => {
                    proof {
                        lemma_array_view(&json);
                    }
                    let mut all_arrays = items.len() > 0;
                    let mut i: usize = 0;
                    while i < items.len()
                        invariant
                            i <= items.len(),
                            json@ is Array,
                            json@->Array_0.len() == items@.len(),
                            forall|k: int| 0 <= k < items@.len() ==> json@->Array_0[k] == (#[trigger] items@[k])@,
                            all_arrays <==> (items@.len() > 0 && forall|k: int| 0 <= k < i ==> (#[trigger] json@->Array_0[k]) is Array),
                        decreases items.len() - i,
                    {
                        let is_array = match &items[i] {
                            JsonValue::Array(_) => true,
                            _ => false,
                        };
                        proof {
                            if is_array {
                                lemma_array_view(&items@[i as int]);
                            } else {
                                assert(!(items@[i as int]@ is Array));
                            }
                        }
                        if !is_array {
                            all_arrays = false;
                        }
                        i += 1;
                    }
                    return if all_arrays {
                        CellType::Array2d
                    } else {
                        CellType::Array
                    };
                },
                JsonValue::Number(_) => {
                    return CellType::Number;
                },
                _ => {},
            }
        },
        None => {},
    }
    match classify_separator_array(value) {
        Some(t) => t,
        None => CellType::String,
    }
}

/// The shape a cell contributes to its column's type: that of its JSON value, else `string[]`
/// for an array of quoted elements and `string[][]` for a 2-D one.
pub open spec fn cell_shape(value: Seq<char>, t: CellType) -> Option<Shape> {
    match json_parse(value) {
        Some(j) => Some(shape_of_json(j)),
        None => match t {
            CellType::Array => Some(Shape::Array(Box::new(Shape::Str))),
            CellType::Array2d => Some(Shape::Array(Box::new(Shape::Array(Box::new(Shape::Str))))),
            _ => None,
        },
    }
}

/// The shape of a cell of the given kind (see `cell_shape`).
pub fn type_shape_for_cell(value: &str, cell_type: CellType) -> (r: Option<TypeShape>)
    ensures
        match r {
            Some(s) => cell_shape(value@, cell_type) == Some(s@),
            None => cell_shape(value@, cell_type) is None,
        },
{
    match parse_json(value) {
        Some(json) => Some(type_shape_for_json(&json)),
        None => match cell_type {
            CellType::Array => {
                let s = TypeShape::Array(Box::new(TypeShape::String));
                proof {
                    assert(TypeShape::String@ == Shape::Str);
                    assert(s@ == Shape::Array(Box::new(Shape::Str)));
                }
                Some(s)
            },
            CellType::Array2d => {
                let inner = TypeShape::Array(Box::new(TypeShape::String));
                let s = TypeShape::Array(Box::new(inner));
                proof {
                    assert(TypeShape::String@ == Shape::Str);
                    assert(inner@ == Shape::Array(Box::new(Shape::Str)));
                    assert(s@ == Shape::Array(Box::new(Shape::Array(Box::new(Shape::Str)))));
                }
                Some(s)
            },
            _ => None,
        },
    }
}

pub open spec fn any_cell(c: Seq<(usize, Seq<char>, CellType)>, t: CellType) -> bool {
    exists|i: int| 0 <= i < c.len() && (#[trigger] c[i]).2 == t
}

pub open spec fn is_bool_text(v: Seq<char>) -> bool {
    v == "true"@ || v == "false"@ || v == "0"@ || v == "1"@
}

/// The type of a column from its non-empty cells, the kind every cell must then have (for JSON
/// and array columns), and whether the column mixes kinds: no cells make a string column; any
/// JSON, 2-D array or array cell makes a column of that type (in that order of precedence); all
/// numbers make a number column; all `true`/`false`/`0`/`1` a bool column; otherwise bools alone
/// make a bool column, numbers alone a number column, strings with or without numbers a string
/// column, and any other mixture a mixed column with a warning.
pub open spec fn infer_column(c: Seq<(usize, Seq<char>, CellType)>) -> (ColumnType, Option<CellType>, bool) {
    if c.len() == 0 {
        (ColumnType::String, None, false)
    } else if any_cell(c, CellType::Json) {
        (ColumnType::Json, Some(CellType::Json), false)
    } else if any_cell(c, CellType::Array2d) {
        (ColumnType::Array2d, Some(CellType::Array2d), false)
    } else if any_cell(c, CellType::Array) {
        (ColumnType::Array, Some(CellType::Array), false)
    } else if forall|i: int| 0 <= i < c.len() ==> (#[trigger] c[i]).2 == CellType::Number {
        (ColumnType::Number, None, false)
    } else if forall|i: int| 0 <= i < c.len() ==> is_bool_text((#[trigger] c[i]).1) {
        (ColumnType::Bool, None, false)
    } else {
        let b = any_cell(c, CellType::Bool);
        let n = any_cell(c, CellType::Number);
        let s = any_cell(c, CellType::String);
        if b && !n && !s {
            (ColumnType::Bool, None, false)
        } else if !b && n && !s {
            (ColumnType::Number, None, false)
        } else if !b && s {
            (ColumnType::String, None, false)
        } else {
            (ColumnType::Mixed, None, true)
        }
    }
}

/// The view of classified cells.
pub open spec fn classified_view(v: Seq<(usize, &str, CellType)>) -> Seq<(usize, Seq<char>, CellType)> {
    Seq::new(v.len(), |i: int| (v[i].0, v[i].1@, v[i].2))
}

fn infer_column_type(classified: &Vec<(usize, &str, CellType)>) -> (r: (ColumnType, Option<CellType>, bool))
    ensures
        r == infer_column(classified_view(classified@)),
{
    let ghost c = classified_view(classified@);
    if classified.len() == 0 {
        return (ColumnType::String, None, false);
    }
    let mut any_json = false;
    let mut any_2d = false;
    let mut any_array = false;
    let mut has_bool = false;
    let mut has_number = false;
    let mut has_string = false;
    let mut all_number = true;
    let mut all_bool_text = true;
    let mut i: usize = 0;
    while i < classified.len()
        invariant
            c == classified_view(classified@),
            i <= classified.len(),
            any_json <==> exists|k: int| 0 <= k < i && (#[trigger] c[k]).2 == CellType::Json,
            any_2d <==> exists|k: int| 0 <= k < i && (#[trigger] c[k]).2 == CellType::Array2d,
            any_array <==> exists|k: int| 0 <= k < i && (#[trigger] c[k]).2 == CellType::Array,
            has_bool <==> exists|k: int| 0 <= k < i && (#[trigger] c[k]).2 == CellType::Bool,
            has_number <==> exists|k: int| 0 <= k < i && (#[trigger] c[k]).2 == CellType::Number,
            has_string <==> exists|k: int| 0 <= k < i && (#[trigger] c[k]).2 == CellType::String,
            all_number <==> forall|k: int| 0 <= k < i ==> (#[trigger] c[k]).2 == CellType::Number,
            all_bool_text <==> forall|k: int| 0 <= k < i ==> is_bool_text((#[trigger] c[k]).1),
        decreases classified.len() - i,
    {
        let t = classified[i].2;
        let v = classified[i].1;
        proof {
            assert(c[i as int] == (classified@[i as int].0, v@, t));
        }
        match t {
            CellType::Json => { any_json = true; },
            CellType::Array2d => { any_2d = true; },
            CellType::Array => { any_array = true; },
            CellType::Bool => { has_bool = true; },
            CellType::Number => { has_number = true; },
            CellType::String => { has_string = true; },
        }
        if t != CellType::Number {
            all_number = false;
        }
        if !(str_is(v, "true") || str_is(v, "false") || str_is(v, "0") || str_is(v, "1")) {
            all_bool_text = false;
        }
        i += 1;
    }
    if any_json {
        (ColumnType::Json, Some(CellType::Json), false)
    } else if any_2d {
        (ColumnType::Array2d, Some(CellType::Array2d), false)
    } else if any_array {
        (ColumnType::Array, Some(CellType::Array), false)
    } else if all_number {
        (ColumnType::Number, None, false)
    } else if all_bool_text {
        (ColumnType::Bool, None, false)
    } else if has_bool && !has_number && !has_string {
        (ColumnType::Bool, None, false)
    } else if !has_bool && has_number && !has_string {
        (ColumnType::Number, None, false)
    } else if !has_bool && has_string {
        (ColumnType::String, None, false)
    } else {
        (ColumnType::Mixed, None, true)
    }
}


/// The shapes of the cells of the expected kind, in order.
pub open spec fn expected_shapes(c: Seq<(usize, Seq<char>, CellType)>, expected: CellType) -> Seq<Shape>
    decreases c.len(),
{
    if c.len() == 0 {
        seq![]
    } else {
        let last = c.last();
        expected_shapes(c.drop_last(), expected) + (if last.2 == expected {
            match cell_shape(last.1, last.2) {
                Some(shape) => seq![shape],
                None => seq![],
            }
        } else {
            seq![]
        })
    }
}

/// The shapes merged in order (unknown when there are none).
pub open spec fn merge_all(shapes: Seq<Shape>) -> Shape
    decreases shapes.len(),
{
    if shapes.len() == 0 {
        Shape::Unknown
    } else {
        merge_shapes(merge_all(shapes.drop_last()), shapes.last(), merge_fuel())
    }
}

/// A column's type expression: for a JSON or array column the merged shape of its cells of that
/// kind, written out; otherwise (or when none of them has a shape) the column type's label.
pub open spec fn type_expression(c: Seq<(usize, Seq<char>, CellType)>, column_type: ColumnType, expected: Option<CellType>) -> Seq<char> {
    match expected {
        None => column_type_label(column_type),
        Some(e) => {
            let shapes = expected_shapes(c, e);
            if shapes.len() == 0 {
                column_type_label(column_type)
            } else {
                render_shape(merge_all(shapes))
            }
        },
    }
}

fn infer_type_expression(classified: &Vec<(usize, &str, CellType)>, column_type: ColumnType, expected: Option<CellType>) -> (r: String)
    ensures
        r@ == type_expression(classified_view(classified@), column_type, expected),
{
    let ghost c = classified_view(classified@);
    let e = match expected {
        None => {
            return column_type.label().to_string();
        },
        Some(e) => e,
    };
    let mut acc: Option<TypeShape> = None;
    let mut i: usize = 0;
    while i < classified.len()
        invariant
            c == classified_view(classified@),
            i <= classified.len(),
            match acc {
                None => expected_shapes(c.take(i as int), e).len() == 0,
                Some(a) => expected_shapes(c.take(i as int), e).len() > 0 && a@ == merge_all(expected_shapes(c.take(i as int), e)),
            },
        decreases classified.len() - i,
    {
        let (row, value, t) = classified[i];
        proof {
            assert(c[i as int] == (row, value@, t));
            assert(c.take(i + 1).drop_last() =~= c.take(i as int));
            assert(c.take(i + 1).last() == c[i as int]);
        }
        if t == e {
            match type_shape_for_cell(value, t) {
                Some(shape) => {
                    let ghost prev = expected_shapes(c.take(i as int), e);
                    proof {
                        assert(expected_shapes(c.take(i + 1), e) =~= prev.push(shape@));
                        assert(prev.push(shape@).drop_last() =~= prev);
                    }
                    acc = match acc {
                        None => {
                            proof {
                                assert(prev =~= Seq::<Shape>::empty());
                                assert(merge_all(prev) == Shape::Unknown);
                            }
                            Some(shape)
                        },
                        Some(a) => Some(merge(a, shape, u64::MAX)),
                    };
                },
                None => {
                    proof {
                        assert(expected_shapes(c.take(i + 1), e) =~= expected_shapes(c.take(i as int), e));
                    }
                },
            }
        } else {
            proof {
                assert(expected_shapes(c.take(i + 1), e) =~= expected_shapes(c.take(i as int), e));
            }
        }
        i += 1;
    }
    proof {
        assert(c.take(classified.len() as int) =~= c);
    }
    match acc {
        None => column_type.label().to_string(),
        Some(shape) => {
            let mut out: Vec<char> = Vec::new();
            render_into(&shape, &mut out);
            proof {
                assert(out@ =~= render_shape(shape@));
            }
            crate::text::string_of(&out)
        },
    }
}

/// Every problem kind, in the order problems list them.
pub open spec fn all_kinds() -> Seq<CellProblemKind> {
    seq![
        CellProblemKind::InvalidTypeDeclaration,
        CellProblemKind::DuplicateKey,
        CellProblemKind::DeclaredTypeMismatch,
        CellProblemKind::StructuralMismatch,
        CellProblemKind::DangerousInvisibleCharacter,
        CellProblemKind::UnescapedQuote,
        CellProblemKind::InvalidBackslashEscape,
    ]
}

/// The kinds of `order` that occur in `ks`, in the order of `order`.
pub open spec fn kinds_in_order(order: Seq<CellProblemKind>, ks: Seq<CellProblemKind>) -> Seq<CellProblemKind>
    decreases order.len(),
{
    if order.len() == 0 {
        seq![]
    } else {
        kinds_in_order(order.drop_last(), ks) + (if ks.contains(order.last()) { seq![order.last()] } else { seq![] })
    }
}

/// Problem kinds sorted in their order, each once.
pub open spec fn normalized_kinds(ks: Seq<CellProblemKind>) -> Seq<CellProblemKind> {
    kinds_in_order(all_kinds(), ks)
}

fn kind_list() -> (r: Vec<CellProblemKind>)
    ensures
        r@ == all_kinds(),
{
    let r = vec![
        CellProblemKind::InvalidTypeDeclaration,
        CellProblemKind::DuplicateKey,
        CellProblemKind::DeclaredTypeMismatch,
        CellProblemKind::StructuralMismatch,
        CellProblemKind::DangerousInvisibleCharacter,
        CellProblemKind::UnescapedQuote,
        CellProblemKind::InvalidBackslashEscape,
    ];
    proof {
        assert(r@ =~= all_kinds());
    }
    r
}

fn has_kind(ks: &Vec<CellProblemKind>, k: CellProblemKind) -> (r: bool)
    ensures
        r == ks@.contains(k),
{
    let mut i: usize = 0;
    while i < ks.len()
        invariant
            i <= ks.len(),
            forall|j: int| 0 <= j < i ==> ks@[j] != k,
        decreases ks.len() - i,
    {
        if ks[i] == k {
            return true;
        }
        i += 1;
    }
    false
}

/// Sorts problem kinds into their order and drops repeats (see `normalized_kinds`).
fn normalize_kinds(ks: &Vec<CellProblemKind>) -> (r: Vec<CellProblemKind>)
    ensures
        r@ == normalized_kinds(ks@),
{
    let order = kind_list();
    let mut out: Vec<CellProblemKind> = Vec::new();
    let mut i: usize = 0;
    while i < order.len()
        invariant
            order@ == all_kinds(),
            i <= order.len(),
            out@ == kinds_in_order(order@.take(i as int), ks@),
        decreases order.len() - i,
    {
        proof {
            assert(order@.take(i + 1).drop_last() =~= order@.take(i as int));
        }
        if has_kind(ks, order[i]) {
            out.push(order[i]);
        }
        proof {
            assert(out@ =~= kinds_in_order(order@.take(i + 1), ks@));
        }
        i += 1;
    }
    proof {
        assert(order@.take(7) =~= order@);
    }
    out
}

/// The problem kinds of a cell: a structural mismatch when the column expects another kind, and
/// its character problems; sorted, each once.
pub open spec fn cell_kinds(value: Seq<char>, t: CellType, expected: Option<CellType>) -> Seq<CellProblemKind> {
    let base = character_problems(value, t);
    normalized_kinds(if expected is Some && expected->0 != t {
        seq![CellProblemKind::StructuralMismatch] + base
    } else {
        base
    })
}

/// The problems of a column's cells, in order: each cell with problems, by row and kinds.
pub open spec fn column_problems(c: Seq<(usize, Seq<char>, CellType)>, expected: Option<CellType>) -> Seq<(usize, Seq<CellProblemKind>)>
    decreases c.len(),
{
    if c.len() == 0 {
        seq![]
    } else {
        let prev = column_problems(c.drop_last(), expected);
        let ks = cell_kinds(c.last().1, c.last().2, expected);
        if ks.len() > 0 {
            prev.push((c.last().0, ks))
        } else {
            prev
        }
    }
}

/// Whether the problems are those listed (by row and kinds), none with a detail.
pub open spec fn problems_are(problems: Seq<CellProblem>, listed: Seq<(usize, Seq<CellProblemKind>)>) -> bool {
    &&& problems.len() == listed.len()
    &&& forall|i: int| 0 <= i < problems.len() ==> (#[trigger] problems[i]).row_index == listed[i].0
        && problems[i].kinds@ == listed[i].1 && problems[i].detail is None
}

/// Scans the characters before position `i` line by line: the length of the line in progress and
/// the longest finished line. A line ends at `\n`; a `\r` just before it is not counted.
pub open spec fn line_scan(c: Seq<char>, i: int) -> (nat, nat)
    decreases i,
{
    if i <= 0 || i > c.len() {
        (0, 0)
    } else {
        let (cur, best) = line_scan(c, i - 1);
        if c[i - 1] == '\n' {
            let width: nat = if cur > 0 && c[i - 2] == '\r' { (cur - 1) as nat } else { cur };
            (0, if width > best { width } else { best })
        } else {
            ((cur + 1) as nat, best)
        }
    }
}

/// The number of characters in the longest line of a text (`str::lines`).
pub open spec fn max_line_chars(c: Seq<char>) -> nat {
    let (cur, best) = line_scan(c, c.len() as int);
    if cur > best { cur } else { best }
}

fn longest_line(value: &str) -> (r: usize)
    ensures
        r == max_line_chars(value@),
{
    let c = chars_of(value);
    let mut cur: usize = 0;
    let mut best: usize = 0;
    let mut i: usize = 0;
    while i < c.len()
        invariant
            i <= c.len(),
            cur <= i,
            best <= i,
            line_scan(c@, i as int) == (cur as nat, best as nat),
        decreases c.len() - i,
    {
        if c[i] == '\n' {
            let width = if cur > 0 && c[i - 1] == '\r' { cur - 1 } else { cur };
            if width > best {
                best = width;
            }
            cur = 0;
        } else {
            cur += 1;
        }
        i += 1;
    }
    if cur > best { cur } else { best }
}

/// The longest line among a column's values.
pub open spec fn column_max_chars(vals: Seq<(usize, Seq<char>)>) -> nat
    decreases vals.len(),
{
    if vals.len() == 0 {
        0
    } else {
        let prev = column_max_chars(vals.drop_last());
        let here = max_line_chars(vals.last().1);
        if here > prev { here } else { prev }
    }
}

/// The view of a column's (row, text) values.
pub open spec fn values_view(v: Seq<(usize, &str)>) -> Seq<(usize, Seq<char>)> {
    Seq::new(v.len(), |i: int| (v[i].0, v[i].1@))
}

/// The non-empty values of a column with their kinds.
pub open spec fn classify_values(vals: Seq<(usize, Seq<char>)>) -> Seq<(usize, Seq<char>, CellType)>
    decreases vals.len(),
{
    if vals.len() == 0 {
        seq![]
    } else {
        let last = vals.last();
        classify_values(vals.drop_last()) + (if last.1.len() == 0 {
            seq![]
        } else {
            seq![(last.0, last.1, cell_type_of(last.1))]
        })
    }
}

#[derive(Clone, Debug, PartialEq, Eq)]
pub struct ColumnAnalysis {
    pub column_type: ColumnType,
    pub type_expression: String,
    pub has_mixed_warning: bool,
    pub problems: Vec<CellProblem>,
    pub max_content_chars: usize,
}

/// What the analysis of a column with these (row, text) values is: the inferred type and mixed
/// warning, the type expression, one problem per non-empty cell with problems, and the longest
/// line.
pub open spec fn is_column_analysis(a: ColumnAnalysis, vals: Seq<(usize, Seq<char>)>) -> bool {
    let c = classify_values(vals);
    let (column_type, expected, mixed) = infer_column(c);
    &&& a.column_type == column_type
    &&& a.has_mixed_warning == mixed
    &&& a.type_expression@ == type_expression(c, column_type, expected)
    &&& problems_are(a.problems@, column_problems(c, expected))
    &&& a.max_content_chars == column_max_chars(vals)
}

/// Analyses one column from its (row, text) values (see `is_column_analysis`).
pub fn analyze_column(values: &[(usize, &str)]) -> (r: ColumnAnalysis)
    ensures
        is_column_analysis(r, values_view(values@)),
{
    let ghost vals = values_view(values@);
    let mut max_content_chars: usize = 0;
    let mut classified: Vec<(usize, &str, CellType)> = Vec::new();
    let mut i: usize = 0;
    proof {
        assert(classified_view(classified@) =~= classify_values(vals.take(0)));
    }
    while i < values.len()
        invariant
            vals == values_view(values@),
            i <= values.len(),
            classified_view(classified@) == classify_values(vals.take(i as int)),
            max_content_chars == column_max_chars(vals.take(i as int)),
        decreases values.len() - i,
    {
        let (row, value) = values[i];
        proof {
            assert(vals[i as int] == (row, value@));
            assert(vals.take(i + 1).drop_last() =~= vals.take(i as int));
            assert(vals.take(i + 1).last() == vals[i as int]);
        }
        let width = longest_line(value);
        if width > max_content_chars {
            max_content_chars = width;
        }
        let ghost before = classified@;
        if !value.is_empty() {
            let t = classify_cell(value);
            classified.push((row, value, t));
            proof {
                assert(classified_view(classified@) =~= classified_view(before).push((row, value@, t)));
            }
        }
        proof {
            assert(classified_view(classified@) =~= classify_values(vals.take(i + 1)));
        }
        i += 1;
    }
    proof {
        assert(vals.take(values.len() as int) =~= vals);
    }
    let ghost c = classified_view(classified@);
    let (column_type, expected, has_mixed_warning) = infer_column_type(&classified);
    let type_expression = infer_type_expression(&classified, column_type, expected);
    let mut problems: Vec<CellProblem> = Vec::new();
    let mut k: usize = 0;
    while k < classified.len()
        invariant
            c == classified_view(classified@),
            k <= classified.len(),
            problems_are(problems@, column_problems(c.take(k as int), expected)),
        decreases classified.len() - k,
    {
        let (row, value, t) = classified[k];
        proof {
            assert(c[k as int] == (row, value@, t));
            assert(c.take(k + 1).drop_last() =~= c.take(k as int));
            assert(c.take(k + 1).last() == c[k as int]);
        }
        let chars = chars_of(value);
        let mut kinds = dangerous_character_problems(&chars, t);
        let mismatch = match expected {
            Some(e) => e != t,
            None => false,
        };
        if mismatch {
            kinds.insert(0, CellProblemKind::StructuralMismatch);
        }
        proof {
            let base = character_problems(value@, t);
            if mismatch {
                assert(kinds@ =~= seq![CellProblemKind::StructuralMismatch] + base);
            }
        }
        let kinds = normalize_kinds(&kinds);
        if kinds.len() > 0 {
            let ghost before = problems@;
            problems.push(CellProblem { row_index: row, kinds, detail: None });
            proof {
                assert(problems@ == before.push(problems@[before.len() as int]));
            }
        }
        k += 1;
    }
    proof {
        assert(c.take(classified.len() as int) =~= c);
    }
    ColumnAnalysis { column_type, type_expression, has_mixed_warning, problems, max_content_chars }
}


/// The (row, text) values of column `col` of a standard table: the rows after the header rows
/// that have that column.
pub open spec fn standard_values(records: Seq<Seq<Seq<char>>>, header_rows: nat, col: int) -> Seq<(usize, Seq<char>)>
    decreases records.len(),
{
    if records.len() == 0 {
        seq![]
    } else {
        let r = records.len() - 1;
        standard_values(records.drop_last(), header_rows, col) + (if r >= header_rows && 0 <= col < records[r].len() {
            seq![(r as usize, records[r][col])]
        } else {
            seq![]
        })
    }
}

/// The number of columns of a table: that of its first record.
pub open spec fn column_count(records: Seq<Seq<Seq<char>>>) -> nat {
    if records.len() > 0 { records[0].len() } else { 0 }
}

/// The (row, text) values of a column below the header rows (see `standard_values`).
pub(crate) fn standard_column_values(records: &Vec<Vec<String>>, header_rows: usize, c: usize) -> (values: Vec<(usize, &str)>)
    ensures
        values_view(values@) == standard_values(records.deep_view(), header_rows as nat, c as int),
{
    let ghost rv = records.deep_view();
    let mut values: Vec<(usize, &str)> = Vec::new();
    let mut row: usize = 0;
    proof {
        assert(rv.take(0) =~= Seq::<Seq<Seq<char>>>::empty());
        assert(values_view(values@) =~= standard_values(rv.take(0), header_rows as nat, c as int));
    }
    while row < records.len()
        invariant
            rv == records.deep_view(),
            row <= records.len(),
            values_view(values@) == standard_values(rv.take(row as int), header_rows as nat, c as int),
        decreases records.len() - row,
    {
        proof {
            assert(rv.take(row + 1).drop_last() =~= rv.take(row as int));
            assert(rv.take(row + 1).len() - 1 == row);
            assert(rv.take(row + 1)[row as int] == rv[row as int]);
            assert(rv[row as int] == records@[row as int].deep_view());
        }
        let ghost before = values@;
        if row >= header_rows && c < records[row].len() {
            values.push((row, records[row][c].as_str()));
            proof {
                assert(rv[row as int][c as int] == records@[row as int]@[c as int]@);
                assert(values_view(values@) =~= values_view(before).push((row, records@[row as int]@[c as int]@)));
            }
        }
        proof {
            assert(values_view(values@) =~= standard_values(rv.take(row + 1), header_rows as nat, c as int));
        }
        row += 1;
    }
    proof {
        assert(rv.take(records.len() as int) =~= rv);
    }
    values
}

/// Whether a value reads as a flag: `true`, `false`, `0` or `1`.
pub open spec fn flag_like(value: Seq<char>) -> bool {
    value == "true"@ || value == "false"@ || value == "0"@ || value == "1"@
}

/// Whether a column holds a value that reads as a flag beside a number that does not: such a
/// column may be a flag column with a stray number, or a number column read as flags.
pub open spec fn flags_beside_numbers(vals: Seq<(usize, Seq<char>)>) -> bool {
    &&& exists|i: int| 0 <= i < vals.len() && flag_like(#[trigger] vals[i].1)
    &&& exists|j: int| 0 <= j < vals.len() && !flag_like(#[trigger] vals[j].1) && cell_type_of(vals[j].1) == CellType::Number
}

/// Whether the values hold a flag beside a number that is not one (see `flags_beside_numbers`).
pub(crate) fn has_flags_beside_numbers(values: &[(usize, &str)]) -> (r: bool)
    ensures
        r == flags_beside_numbers(values_view(values@)),
{
    let ghost vals = values_view(values@);
    let mut flag: bool = false;
    let mut number: bool = false;
    let mut i: usize = 0;
    while i < values.len()
        invariant
            vals == values_view(values@),
            i <= values.len(),
            flag == exists|k: int| 0 <= k < i && flag_like(#[trigger] vals[k].1),
            number == exists|k: int| 0 <= k < i && !flag_like(#[trigger] vals[k].1) && cell_type_of(vals[k].1) == CellType::Number,
        decreases values.len() - i,
    {
        let value = values[i].1;
        proof {
            assert(vals[i as int].1 == value@);
        }
        let is_flag = str_is(value, "true") || str_is(value, "false") || str_is(value, "0") || str_is(value, "1");
        if is_flag {
            flag = true;
        } else if classify_cell(value) == CellType::Number {
            number = true;
        }
        i += 1;
    }
    flag && number
}

fn analyze_standard_table(records: &Vec<Vec<String>>, header_rows: usize) -> (r: Vec<ColumnAnalysis>)
    ensures
        r@.len() == column_count(records.deep_view()),
        forall|c: int| 0 <= c < r@.len() ==> is_column_analysis(#[trigger] r@[c], standard_values(records.deep_view(), header_rows as nat, c)),
{
    let ghost rv = records.deep_view();
    let columns: usize = if records.len() > 0 { records[0].len() } else { 0 };
    let mut out: Vec<ColumnAnalysis> = Vec::new();
    let mut c: usize = 0;
    while c < columns
        invariant
            rv == records.deep_view(),
            columns == column_count(rv),
            c <= columns,
            out@.len() == c,
            forall|k: int| 0 <= k < c ==> is_column_analysis(#[trigger] out@[k], standard_values(rv, header_rows as nat, k)),
        decreases columns - c,
    {
        let values = standard_column_values(records, header_rows, c);
        let analysis = analyze_column(values.as_slice());
        out.push(analysis);
        c += 1;
    }
    out
}


// ---- Misc tables ----

/// The copies of kind `k` in `ks`, in order.
pub open spec fn occurrences(ks: Seq<CellProblemKind>, k: CellProblemKind) -> Seq<CellProblemKind>
    decreases ks.len(),
{
    if ks.len() == 0 {
        seq![]
    } else {
        occurrences(ks.drop_last(), k) + (if ks.last() == k { seq![k] } else { seq![] })
    }
}

/// The kinds of `ks` grouped in the order of `order`, repeats kept.
pub open spec fn sorted_by_order(order: Seq<CellProblemKind>, ks: Seq<CellProblemKind>) -> Seq<CellProblemKind>
    decreases order.len(),
{
    if order.len() == 0 {
        seq![]
    } else {
        sorted_by_order(order.drop_last(), ks) + occurrences(ks, order.last())
    }
}

/// The kinds sorted into their order, repeats kept.
pub open spec fn sort_kinds(ks: Seq<CellProblemKind>) -> Seq<CellProblemKind> {
    sorted_by_order(all_kinds(), ks)
}

/// A problem's kinds with one more: unchanged when it is there already, else added and sorted.
pub open spec fn with_kind(ks: Seq<CellProblemKind>, k: CellProblemKind) -> Seq<CellProblemKind> {
    if ks.contains(k) {
        ks
    } else {
        sort_kinds(ks.push(k))
    }
}

fn sorted_kinds(ks: &Vec<CellProblemKind>) -> (r: Vec<CellProblemKind>)
    ensures
        r@ == sort_kinds(ks@),
{
    let order = kind_list();
    let mut out: Vec<CellProblemKind> = Vec::new();
    let mut i: usize = 0;
    while i < order.len()
        invariant
            order@ == all_kinds(),
            i <= order.len(),
            out@ == sorted_by_order(order@.take(i as int), ks@),
        decreases order.len() - i,
    {
        let k = order[i];
        let ghost start = out@;
        let mut j: usize = 0;
        proof {
            assert(ks@.take(0) =~= Seq::<CellProblemKind>::empty());
            assert(out@ =~= start + occurrences(ks@.take(0), k));
        }
        while j < ks.len()
            invariant
                j <= ks.len(),
                out@ == start + occurrences(ks@.take(j as int), k),
            decreases ks.len() - j,
        {
            proof {
                assert(ks@.take(j + 1).drop_last() =~= ks@.take(j as int));
                assert(ks@.take(j + 1).last() == ks@[j as int]);
            }
            if ks[j] == k {
                out.push(k);
            }
            proof {
                assert(out@ =~= start + occurrences(ks@.take(j + 1), k));
            }
            j += 1;
        }
        proof {
            assert(ks@.take(ks.len() as int) =~= ks@);
            assert(order@.take(i + 1).drop_last() =~= order@.take(i as int));
            assert(out@ =~= sorted_by_order(order@.take(i + 1), ks@));
        }
        i += 1;
    }
    proof {
        assert(order@.take(7) =~= order@);
    }
    out
}

/// Adds a kind to a problem's kinds (see `with_kind`).
fn add_kind(ks: Vec<CellProblemKind>, k: CellProblemKind) -> (r: Vec<CellProblemKind>)
    ensures
        r@ == with_kind(ks@, k),
{
    if has_kind(&ks, k) {
        ks
    } else {
        let mut more = ks;
        more.push(k);
        sorted_kinds(&more)
    }
}

/// The character problems a misc-table cell reports: all of them, except that the declaration
/// column reports none about quotes and escapes.
pub open spec fn misc_cell_kinds(value: Seq<char>, check_escapes: bool) -> Seq<CellProblemKind> {
    if check_escapes {
        character_problems(value, cell_type_of(value))
    } else {
        character_problems(value, CellType::Json)
    }
}

fn misc_kinds(value: &str, check_escapes: bool) -> (r: Vec<CellProblemKind>)
    ensures
        r@ == misc_cell_kinds(value@, check_escapes),
{
    let chars = chars_of(value);
    if check_escapes {
        dangerous_character_problems(&chars, classify_cell(value))
    } else {
        dangerous_character_problems(&chars, CellType::Json)
    }
}

/// Whether another row (after the headers) has the same key as row `r`.
pub open spec fn is_duplicate_key(rv: Seq<Seq<Seq<char>>>, r: int) -> bool {
    exists|q: int| MISC_HEADER_ROWS <= q < rv.len() && q != r && (#[trigger] rv[q])[1] == rv[r][1]
}

/// The problem a check of row `r` adds in column `col`, with its detail: an invalid declaration
/// (column 0), a key that is not empty and occurs twice (column 1), or a value that does not fit
/// its declaration, with the declaration written back and the path of the misfit (column 2).
pub open spec fn misc_addition(rv: Seq<Seq<Seq<char>>>, col: int, r: int) -> Option<(CellProblemKind, Option<(Seq<char>, Seq<char>)>)> {
    if col == 0 {
        if parse_declaration(rv[r][0]) is None {
            Some((CellProblemKind::InvalidTypeDeclaration, None))
        } else {
            None
        }
    } else if col == 1 {
        if rv[r][1].len() > 0 && is_duplicate_key(rv, r) {
            Some((CellProblemKind::DuplicateKey, None))
        } else {
            None
        }
    } else if col == 2 {
        match parse_declaration(rv[r][0]) {
            Some(d) => match validate_cell(d, rv[r][2]) {
                Some(path) => Some((CellProblemKind::DeclaredTypeMismatch, Some((render_decl(d), path)))),
                None => None,
            },
            None => None,
        }
    } else {
        None
    }
}

/// The problem of the cell of row `r` in column `col` of a misc table, if it has one: its kinds
/// and detail.
pub open spec fn misc_problem(rv: Seq<Seq<Seq<char>>>, col: int, r: int) -> Option<(Seq<CellProblemKind>, Option<(Seq<char>, Seq<char>)>)> {
    let base = misc_cell_kinds(rv[r][col], col != 0);
    match misc_addition(rv, col, r) {
        Some((k, detail)) => Some((with_kind(base, k), detail)),
        None => if base.len() > 0 {
            Some((base, None))
        } else {
            None
        },
    }
}

/// The problems of column `col` of a misc table in the rows before `n`, by row.
pub open spec fn misc_problems(rv: Seq<Seq<Seq<char>>>, col: int, n: int) -> Seq<(usize, Seq<CellProblemKind>, Option<(Seq<char>, Seq<char>)>)>
    decreases n,
{
    if n <= MISC_HEADER_ROWS || n > rv.len() {
        seq![]
    } else {
        misc_problems(rv, col, n - 1) + match misc_problem(rv, col, n - 1) {
            Some((ks, detail)) => seq![((n - 1) as usize, ks, detail)],
            None => seq![],
        }
    }
}

/// Whether a problem's detail is the given (declaration, path) pair, or none.
pub open spec fn detail_is(d: Option<CellProblemDetail>, expected: Option<(Seq<char>, Seq<char>)>) -> bool {
    match expected {
        None => d is None,
        Some((e, p)) => match d {
            Some(CellProblemDetail::DeclaredTypeMismatch { expected: de, path: dp }) => de@ == e && dp@ == p,
            None => false,
        },
    }
}

pub open spec fn misc_problems_are(problems: Seq<CellProblem>, listed: Seq<(usize, Seq<CellProblemKind>, Option<(Seq<char>, Seq<char>)>)>) -> bool {
    &&& problems.len() == listed.len()
    &&& forall|i: int| 0 <= i < problems.len() ==> (#[trigger] problems[i]).row_index == listed[i].0
        && problems[i].kinds@ == listed[i].1 && detail_is(problems[i].detail, listed[i].2)
}

/// What the analysis of column `col` of a misc table is: a string column whose problems are
/// those of its cells (see `misc_problem`), with the longest line of its values.
pub open spec fn is_misc_column_analysis(a: ColumnAnalysis, rv: Seq<Seq<Seq<char>>>, col: int) -> bool {
    &&& a.column_type == ColumnType::String
    &&& a.type_expression@ == "string"@
    &&& !a.has_mixed_warning
    &&& misc_problems_are(a.problems@, misc_problems(rv, col, rv.len() as int))
    &&& a.max_content_chars == column_max_chars(standard_values(rv, MISC_HEADER_ROWS as nat, col))
}

fn duplicate_keys(records: &Vec<Vec<String>>) -> (r: Vec<bool>)
    requires
        is_misc_table(records.deep_view()),
    ensures
        r@.len() == records@.len(),
        forall|k: int| MISC_HEADER_ROWS <= k < records@.len() ==> #[trigger] r@[k] == (records.deep_view()[k][1].len() > 0
            && is_duplicate_key(records.deep_view(), k)),
{
    let ghost rv = records.deep_view();
    let n = records.len();
    let mut out: Vec<bool> = Vec::new();
    let mut r: usize = 0;
    while r < n
        invariant
            rv == records.deep_view(),
            is_misc_table(rv),
            n == records@.len(),
            r <= n,
            out@.len() == r,
            forall|k: int| MISC_HEADER_ROWS <= k < r ==> #[trigger] out@[k] == (rv[k][1].len() > 0 && is_duplicate_key(rv, k)),
        decreases n - r,
    {
        proof {
            assert(rv[r as int] == records@[r as int].deep_view());
            assert(rv[r as int].len() == 4);
        }
        let key = chars_of(records[r][1].as_str());
        proof {
            assert(rv[r as int][1] == key@);
        }
        let mut dup = false;
        if r >= MISC_HEADER_ROWS && key.len() > 0 {
            let mut q: usize = MISC_HEADER_ROWS;
            while q < n
                invariant
                    rv == records.deep_view(),
                    is_misc_table(rv),
                    n == records@.len(),
                    MISC_HEADER_ROWS <= q <= n,
                    r < n,
                    key@ == rv[r as int][1],
                    dup <==> exists|p: int| MISC_HEADER_ROWS <= p < q && p != r && (#[trigger] rv[p])[1] == rv[r as int][1],
                decreases n - q,
            {
                proof {
                    assert(rv[q as int] == records@[q as int].deep_view());
                    assert(rv[q as int].len() == 4);
                }
                if q != r {
                    let other = chars_of(records[q][1].as_str());
                    proof {
                        assert(rv[q as int][1] == other@);
                    }
                    if chars_equal(&other, &key) {
                        dup = true;
                    }
                }
                q += 1;
            }
        }
        out.push(dup);
        r += 1;
    }
    out
}

fn analyze_misc_table(records: &Vec<Vec<String>>) -> (r: Vec<ColumnAnalysis>)
    requires
        is_misc_table(records.deep_view()),
    ensures
        r@.len() == 4,
        forall|col: int| 0 <= col < 4 ==> is_misc_column_analysis(#[trigger] r@[col], records.deep_view(), col),
{
    let ghost rv = records.deep_view();
    let n = records.len();
    let dups = duplicate_keys(records);
    let mut columns: Vec<ColumnAnalysis> = Vec::new();
    let mut col: usize = 0;
    while col < 4
        invariant
            rv == records.deep_view(),
            is_misc_table(rv),
            n == records@.len(),
            dups@.len() == n,
            forall|k: int| MISC_HEADER_ROWS <= k < n ==> #[trigger] dups@[k] == (rv[k][1].len() > 0 && is_duplicate_key(rv, k)),
            col <= 4,
            columns@.len() == col,
            forall|c: int| 0 <= c < col ==> is_misc_column_analysis(#[trigger] columns@[c], rv, c),
        decreases 4 - col,
    {
        let mut problems: Vec<CellProblem> = Vec::new();
        let mut max_content_chars: usize = 0;
        let mut r: usize = MISC_HEADER_ROWS;
        proof {
            assert(misc_problems(rv, col as int, r as int) =~= seq![]);
            lemma_standard_values_short(rv.take(2), 2, col as int);
            assert(rv.take(2).len() <= 2);
        }
        while r < n
            invariant
                rv == records.deep_view(),
                is_misc_table(rv),
                n == records@.len(),
                dups@.len() == n,
                forall|k: int| MISC_HEADER_ROWS <= k < n ==> #[trigger] dups@[k] == (rv[k][1].len() > 0 && is_duplicate_key(rv, k)),
                col < 4,
                MISC_HEADER_ROWS <= r <= n || n < MISC_HEADER_ROWS,
                misc_problems_are(problems@, misc_problems(rv, col as int, r as int)),
                max_content_chars == column_max_chars(standard_values(rv.take(r as int), MISC_HEADER_ROWS as nat, col as int)),
            decreases n - r,
        {
            proof {
                assert(rv[r as int] == records@[r as int].deep_view());
                assert(rv[r as int].len() == 4);
                assert(rv.take(r + 1).drop_last() =~= rv.take(r as int));
                assert(rv.take(r + 1)[r as int] == rv[r as int]);
            }
            let row = &records[r];
            let value = row[col].as_str();
            proof {
                assert(value@ == rv[r as int][col as int]);
            }
            let width = longest_line(value);
            if width > max_content_chars {
                max_content_chars = width;
            }
            proof {
                let prev = standard_values(rv.take(r as int), MISC_HEADER_ROWS as nat, col as int);
                let next = standard_values(rv.take(r + 1), MISC_HEADER_ROWS as nat, col as int);
                assert(next == prev + seq![(r as usize, rv[r as int][col as int])]);
                assert(next.drop_last() =~= prev);
                assert(next.last() == (r as usize, value@));
            }
            let base = misc_kinds(value, col != 0);
            let addition: Option<(CellProblemKind, Option<CellProblemDetail>)> = if col == 0 {
                match DeclaredTypeParser::parse(row[0].as_str()) {
                    Ok(_) => None,
                    Err(_) => Some((CellProblemKind::InvalidTypeDeclaration, None)),
                }
            } else if col == 1 {
                if dups[r] {
                    Some((CellProblemKind::DuplicateKey, None))
                } else {
                    None
                }
            } else if col == 2 {
                match DeclaredTypeParser::parse(row[0].as_str()) {
                    Ok(declared) => match declared.validate_cell(row[2].as_str()) {
                        Ok(_) => None,
                        Err(path) => Some((
                            CellProblemKind::DeclaredTypeMismatch,
                            Some(CellProblemDetail::DeclaredTypeMismatch { expected: declared.render(), path }),
                        )),
                    },
                    Err(_) => None,
                }
            } else {
                None
            };
            let ghost before = problems@;
            let ghost expected_problem = misc_problem(rv, col as int, r as int);
            match addition {
                Some((kind, detail)) => {
                    let kinds = add_kind(base, kind);
                    problems.push(CellProblem { row_index: r, kinds, detail });
                },
                None => {
                    if base.len() > 0 {
                        problems.push(CellProblem { row_index: r, kinds: base, detail: None });
                    }
                },
            }
            proof {
                assert(misc_problems(rv, col as int, r + 1) == misc_problems(rv, col as int, r as int) + match expected_problem {
                    Some((ks, detail)) => seq![(r as usize, ks, detail)],
                    None => seq![],
                });
                assert(misc_problems_are(problems@, misc_problems(rv, col as int, r + 1)));
            }
            r += 1;
        }
        proof {
            if n >= MISC_HEADER_ROWS {
                assert(rv.take(n as int) =~= rv);
            }
        }
        columns.push(ColumnAnalysis {
            column_type: ColumnType::String,
            type_expression: "string".to_string(),
            has_mixed_warning: false,
            problems,
            max_content_chars,
        });
        col += 1;
    }
    columns
}

proof fn lemma_standard_values_short(rv: Seq<Seq<Seq<char>>>, header_rows: nat, col: int)
    requires
        rv.len() <= header_rows,
    ensures
        standard_values(rv, header_rows, col) == Seq::<(usize, Seq<char>)>::empty(),
    decreases rv.len(),
{
    if rv.len() > 0 {
        lemma_standard_values_short(rv.drop_last(), header_rows, col);
    }
}

/// Every non-empty value is classified, and every classified cell is a non-empty value with its
/// kind.
proof fn lemma_classify_values_cover(vals: Seq<(usize, Seq<char>)>)
    ensures
        forall|i: int| 0 <= i < vals.len() && (#[trigger] vals[i]).1.len() > 0 ==> exists|k: int|
            0 <= k < classify_values(vals).len() && #[trigger] classify_values(vals)[k] == (vals[i].0, vals[i].1, cell_type_of(vals[i].1)),
        forall|k: int| 0 <= k < classify_values(vals).len() ==> exists|i: int|
            0 <= i < vals.len() && (#[trigger] vals[i]).1.len() > 0 && #[trigger] classify_values(vals)[k] == (vals[i].0, vals[i].1, cell_type_of(vals[i].1)),
    decreases vals.len(),
{
    if vals.len() > 0 {
        let d = vals.drop_last();
        lemma_classify_values_cover(d);
        let cd = classify_values(d);
        let c = classify_values(vals);
        let last = vals.last();
        assert forall|i: int| 0 <= i < vals.len() && (#[trigger] vals[i]).1.len() > 0 implies exists|k: int|
            0 <= k < c.len() && #[trigger] c[k] == (vals[i].0, vals[i].1, cell_type_of(vals[i].1)) by {
            if i < vals.len() - 1 {
                assert(d[i] == vals[i]);
                let k = choose|k: int| 0 <= k < cd.len() && #[trigger] cd[k] == (d[i].0, d[i].1, cell_type_of(d[i].1));
                assert(c[k] == cd[k]);
            } else {
                assert(c[cd.len() as int] == (last.0, last.1, cell_type_of(last.1)));
            }
        }
        assert forall|k: int| 0 <= k < c.len() implies exists|i: int|
            0 <= i < vals.len() && (#[trigger] vals[i]).1.len() > 0 && #[trigger] c[k] == (vals[i].0, vals[i].1, cell_type_of(vals[i].1)) by {
            if k < cd.len() {
                assert(c[k] == cd[k]);
                let i = choose|i: int| 0 <= i < d.len() && (#[trigger] d[i]).1.len() > 0 && #[trigger] cd[k] == (d[i].0, d[i].1, cell_type_of(d[i].1));
                assert(vals[i] == d[i]);
            } else {
                assert(vals[vals.len() - 1] == last);
            }
        }
    }
}

/// A column whose non-empty values include a bool (`true` or `false`) and a plain string (one
/// that is no flag text), and no JSON or array value, is of mixed type and carries the mixed
/// warning.
pub proof fn law_bool_beside_string_is_mixed(a: ColumnAnalysis, vals: Seq<(usize, Seq<char>)>, i: int, j: int)
    requires
        is_column_analysis(a, vals),
        0 <= i < vals.len(),
        vals[i].1.len() > 0,
        cell_type_of(vals[i].1) == CellType::Bool,
        0 <= j < vals.len(),
        vals[j].1.len() > 0,
        cell_type_of(vals[j].1) == CellType::String,
        !is_bool_text(vals[j].1),
        forall|k: int| 0 <= k < vals.len() && (#[trigger] vals[k]).1.len() > 0 ==> {
            let t = cell_type_of(vals[k].1);
            t != CellType::Json && t != CellType::Array && t != CellType::Array2d
        },
    ensures
        a.column_type == ColumnType::Mixed,
        a.has_mixed_warning,
{
    lemma_classify_values_cover(vals);
    let c = classify_values(vals);
    let kb = choose|k: int| 0 <= k < c.len() && #[trigger] c[k] == (vals[i].0, vals[i].1, cell_type_of(vals[i].1));
    let ks = choose|k: int| 0 <= k < c.len() && #[trigger] c[k] == (vals[j].0, vals[j].1, cell_type_of(vals[j].1));
    assert(c[kb].2 == CellType::Bool);
    assert(c[ks].2 == CellType::String);
    assert(c.len() > 0);
    assert forall|t: CellType| t == CellType::Json || t == CellType::Array || t == CellType::Array2d implies !any_cell(c, t) by {
        if any_cell(c, t) {
            let k = choose|k: int| 0 <= k < c.len() && (#[trigger] c[k]).2 == t;
            let m = choose|m: int| 0 <= m < vals.len() && (#[trigger] vals[m]).1.len() > 0 && #[trigger] c[k] == (vals[m].0, vals[m].1, cell_type_of(vals[m].1));
        }
    }
    assert(!any_cell(c, CellType::Json));
    assert(!any_cell(c, CellType::Array2d));
    assert(!any_cell(c, CellType::Array));
    assert(any_cell(c, CellType::Bool));
    assert(any_cell(c, CellType::String));
    assert(!(forall|k: int| 0 <= k < c.len() ==> (#[trigger] c[k]).2 == CellType::Number));
    assert(!(forall|k: int| 0 <= k < c.len() ==> is_bool_text((#[trigger] c[k]).1)));
}

/// Whether two analyses say the same of a column: type, mixed warning, type expression, longest
/// line, and the same problems (row, kinds and detail) in the same order.
pub open spec fn same_analysis(a: ColumnAnalysis, b: ColumnAnalysis) -> bool {
    &&& a.column_type == b.column_type
    &&& a.has_mixed_warning == b.has_mixed_warning
    &&& a.type_expression@ == b.type_expression@
    &&& a.max_content_chars == b.max_content_chars
    &&& a.problems@.len() == b.problems@.len()
    &&& forall|i: int| 0 <= i < a.problems@.len() ==> (#[trigger] a.problems@[i]).row_index == b.problems@[i].row_index
        && a.problems@[i].kinds@ == b.problems@[i].kinds@ && a.problems@[i].detail == b.problems@[i].detail
}

/// A column's analysis is determined by its (row, text) values: so each column of a standard
/// table, as `analyze_table` gives it, is what `analyze_column` gives for that column's values
/// below the header rows (`standard_values`).
pub proof fn law_column_analysis_is_determined(a: ColumnAnalysis, b: ColumnAnalysis, vals: Seq<(usize, Seq<char>)>)
    requires
        is_column_analysis(a, vals),
        is_column_analysis(b, vals),
    ensures
        same_analysis(a, b),
{
    let listed = column_problems(classify_values(vals), infer_column(classify_values(vals)).1);
    assert forall|i: int| 0 <= i < a.problems@.len() implies (#[trigger] a.problems@[i]).row_index == b.problems@[i].row_index
        && a.problems@[i].kinds@ == b.problems@[i].kinds@ && a.problems@[i].detail == b.problems@[i].detail by {
        assert(a.problems@[i].row_index == listed[i].0);
        assert(b.problems@[i].row_index == listed[i].0);
    }
}

/// Each column of a standard table, as `analyze_table` gives it (each column analysed over its
/// values below the header rows), says what `analyze_column` says of those values.
pub proof fn law_table_column_is_its_column_analysis(
    records: Seq<Seq<Seq<char>>>,
    header_rows: usize,
    table: Seq<ColumnAnalysis>,
    c: int,
    column: ColumnAnalysis,
)
    requires
        !is_misc_table(records),
        table.len() == column_count(records),
        forall|k: int| 0 <= k < table.len() ==> is_column_analysis(#[trigger] table[k], standard_values(records, header_rows as nat, k)),
        0 <= c < table.len(),
        is_column_analysis(column, standard_values(records, header_rows as nat, c)),
    ensures
        same_analysis(table[c], column),
{
    law_column_analysis_is_determined(table[c], column, standard_values(records, header_rows as nat, c));
}

/// Analyses every column of a table: a misc table (see `is_misc_table`) by its four columns,
/// any other table column by column after the header rows.
pub fn analyze_table(records: &Vec<Vec<String>>, header_rows: usize) -> (r: Vec<ColumnAnalysis>)
    ensures
        is_misc_table(records.deep_view()) ==> r@.len() == 4
            && forall|col: int| 0 <= col < 4 ==> is_misc_column_analysis(#[trigger] r@[col], records.deep_view(), col),
        !is_misc_table(records.deep_view()) ==> r@.len() == column_count(records.deep_view())
            && forall|c: int| 0 <= c < r@.len() ==> is_column_analysis(#[trigger] r@[c], standard_values(records.deep_view(), header_rows as nat, c)),
{
    if table_kind(records) == TableKind::Misc {
        return analyze_misc_table(records);
    }
    analyze_standard_table(records, header_rows)
}

} // verus!
