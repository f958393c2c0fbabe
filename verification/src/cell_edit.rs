use vstd::prelude::*;
use serde_json::Value;

use crate::json::{
    Json, JsonNode, compact_json, json_compact, json_error_message, json_error_text, json_node,
    json_parse, json_pretty, json_read, json_tree, pretty_json, read_json,
};
use crate::text::{chars_of, is_whitespace, push_str, string_of, unicode_whitespace};

verus! {

/// The shape of a JSON cell that an edit has to keep.
#[derive(Clone, Copy, Debug, PartialEq, Eq, Structural)]
pub enum JsonStructure {
    Object,
    Array,
    Array2d,
}

/// The structure of a JSON value: an object, an array whose elements are all arrays (and that
/// has at least one), any other array; none for scalars.
pub open spec fn structure_of(j: Json) -> Option<JsonStructure> {
    match j {
        Json::Object(_) => Some(JsonStructure::Object),
        Json::Array(items) => if items.len() > 0 && (forall|k: int| 0 <= k < items.len() ==> (#[trigger] items[k]) is Array) {
            Some(JsonStructure::Array2d)
        } else {
            Some(JsonStructure::Array)
        },
        _ => None,
    }
}

/// The structure of the JSON value that a cell spells; none when it is no JSON object or array.
pub open spec fn text_structure(text: Seq<char>) -> Option<JsonStructure> {
    match json_parse(text) {
        Some(j) => structure_of(j),
        None => None,
    }
}

/// How a structure is named in messages.
pub open spec fn structure_label(s: JsonStructure) -> Seq<char> {
    match s {
        JsonStructure::Object => "JSON object"@,
        JsonStructure::Array => "one-dimensional JSON array"@,
        JsonStructure::Array2d => "two-dimensional JSON array"@,
    }
}

/// The structure of a parsed value.
fn value_structure(v: &Value) -> (r: Option<JsonStructure>)
    ensures
        r == structure_of(json_tree(*v)),
{
    match json_node(v) {
        JsonNode::Object(_) => Some(JsonStructure::Object),
        JsonNode::Array(items) => {
            let ghost tree = json_tree(*v);
            if items.len() == 0 {
                return Some(JsonStructure::Array);
            }
            let mut i: usize = 0;
            while i < items.len()
                invariant
                    tree == json_tree(*v),
                    tree is Array,
                    tree->Array_0.len() == items@.len(),
                    forall|k: int| 0 <= k < items@.len() ==> json_tree(#[trigger] items@[k]) == tree->Array_0[k],
                    i <= items.len(),
                    forall|k: int| 0 <= k < i ==> (#[trigger] tree->Array_0[k]) is Array,
                decreases items.len() - i,
            {
                let item_is_array = match json_node(&items[i]) {
                    JsonNode::Array(_) => true,
                    _ => false,
                };
                if !item_is_array {
                    proof {
                        assert(json_tree(items@[i as int]) == tree->Array_0[i as int]);
                        assert(!(tree->Array_0[i as int] is Array));
                    }
                    return Some(JsonStructure::Array);
                }
                i += 1;
            }
            Some(JsonStructure::Array2d)
        },
        _ => None,
    }
}

/// The structure of the JSON value that a cell holds, if it holds an object or an array.
pub fn json_structure(value: &str) -> (r: Option<JsonStructure>)
    ensures
        r == text_structure(value@),
{
    match read_json(value) {
        Ok(v) => value_structure(&v),
        Err(_) => None,
    }
}

/// The name of a structure in messages.
pub fn json_structure_label(structure: JsonStructure) -> (r: &'static str)
    ensures
        r@ == structure_label(structure),
{
    match structure {
        JsonStructure::Object => "JSON object",
        JsonStructure::Array => "one-dimensional JSON array",
        JsonStructure::Array2d => "two-dimensional JSON array",
    }
}

/// The text that the cell editor starts from: a JSON object or array laid out on several
/// lines (`serde_json::to_string_pretty`), any other value as it is.
pub fn editable_cell_value(value: &str) -> (r: String)
    ensures
        text_structure(value@) is None ==> r@ == value@,
        text_structure(value@) is Some ==> r@ == json_pretty(json_read(value@)->Ok_0),
{
    match read_json(value) {
        Ok(v) => {
            if value_structure(&v).is_none() {
                value.to_owned()
            } else {
                pretty_json(&v)
            }
        },
        Err(_) => value.to_owned(),
    }
}

/// The message that rejects a draft that is not JSON.
pub open spec fn syntax_error_message(e: serde_json::Error) -> Seq<char> {
    "JSON syntax error: "@ + json_error_text(e)
}

/// The message that rejects a draft whose structure differs from the cell's.
pub open spec fn structure_change_message(expected: JsonStructure) -> Seq<char> {
    "JSON value must remain a "@ + structure_label(expected)
}

/// What committing `draft` over a cell holding `original` gives: a cell that is no JSON object
/// or array takes the draft as it is; otherwise the draft must be JSON of the same structure,
/// and is stored in compact form.
pub open spec fn cell_edit_outcome(original: Seq<char>, draft: Seq<char>) -> Result<Seq<char>, Seq<char>> {
    match text_structure(original) {
        None => Ok(draft),
        Some(expected) => match json_read(draft) {
            Err(e) => Err(syntax_error_message(e)),
            Ok(v) => if structure_of(json_tree(v)) == Some(expected) {
                Ok(json_compact(v))
            } else {
                Err(structure_change_message(expected))
            },
        },
    }
}

/// Checks and normalises an edit of a cell: see `cell_edit_outcome`.
pub fn normalize_cell_edit(original: &str, draft: &str) -> (r: Result<String, String>)
    ensures
        match (r, cell_edit_outcome(original@, draft@)) {
            (Ok(s), Ok(t)) => s@ == t,
            (Err(m), Err(t)) => m@ == t,
            _ => false,
        },
{
    let expected = match json_structure(original) {
        None => return Ok(draft.to_owned()),
        Some(expected) => expected,
    };
    match read_json(draft) {
        Err(e) => {
            let mut out: Vec<char> = Vec::new();
            push_str(&mut out, "JSON syntax error: ");
            let message = json_error_message(&e);
            push_str(&mut out, message.as_str());
            Err(string_of(&out))
        },
        Ok(v) => {
            let actual = value_structure(&v);
            if actual == Some(expected) {
                Ok(compact_json(&v))
            } else {
                let mut out: Vec<char> = Vec::new();
                push_str(&mut out, "JSON value must remain a ");
                push_str(&mut out, json_structure_label(expected));
                Err(string_of(&out))
            }
        },
    }
}

/// A character as it stands in HTML text: `&`, `<`, `>`, `"` and `'` as entities.
pub open spec fn html_escape(c: char) -> Seq<char> {
    if c == '&' {
        "&amp;"@
    } else if c == '<' {
        "&lt;"@
    } else if c == '>' {
        "&gt;"@
    } else if c == '"' {
        "&quot;"@
    } else if c == '\'' {
        "&#39;"@
    } else {
        seq![c]
    }
}

/// Characters as they stand in HTML text.
pub open spec fn html_escaped(s: Seq<char>) -> Seq<char>
    decreases s.len(),
{
    if s.len() == 0 {
        seq![]
    } else {
        html_escaped(s.drop_last()) + html_escape(s.last())
    }
}

/// A token of JSON wrapped in a span of the given class, its characters escaped.
pub open spec fn highlighted(class: Seq<char>, token: Seq<char>) -> Seq<char> {
    "<span class=\""@ + class + "\">"@ + html_escaped(token) + "</span>"@
}

/// Where a JSON string that started before `j` ends: after its closing quote, or at the end of
/// the text; a backslash skips the character after it.
pub open spec fn string_end(c: Seq<char>, j: int) -> int
    decreases c.len() - j,
{
    if j < 0 || j >= c.len() {
        c.len() as int
    } else if c[j] == '\\' {
        string_end(c, if j + 2 < c.len() { j + 2 } else { c.len() as int })
    } else if c[j] == '"' {
        j + 1
    } else {
        string_end(c, j + 1)
    }
}

/// The first position from `j` on that holds no white space.
pub open spec fn skip_white(c: Seq<char>, j: int) -> int
    decreases c.len() - j,
{
    if 0 <= j < c.len() && unicode_whitespace(c[j]) {
        skip_white(c, j + 1)
    } else {
        j
    }
}

/// Whether a character continues a number: an ASCII digit, `.`, `e`, `E`, `+` or `-`.
pub open spec fn number_char(x: char) -> bool {
    ('0' <= x && x <= '9') || x == '.' || x == 'e' || x == 'E' || x == '+' || x == '-'
}

/// Where a number that started before `j` ends.
pub open spec fn number_end(c: Seq<char>, j: int) -> int
    decreases c.len() - j,
{
    if 0 <= j < c.len() && number_char(c[j]) {
        number_end(c, j + 1)
    } else {
        j
    }
}

/// Whether the characters from `i` on begin with `word`.
pub open spec fn starts_at(c: Seq<char>, i: int, word: Seq<char>) -> bool {
    0 <= i && i + word.len() <= c.len() && c.subrange(i, i + word.len()) == word
}

/// Whether a character is JSON punctuation.
pub open spec fn json_punctuation(x: char) -> bool {
    x == '{' || x == '}' || x == '[' || x == ']' || x == ':' || x == ','
}

/// A string that starts inside the text ends after its start and within the text.
pub proof fn lemma_string_end(c: Seq<char>, j: int)
    requires
        0 <= j,
    ensures
        j <= string_end(c, j) <= c.len() || (j > c.len() && string_end(c, j) == c.len()),
        j < c.len() ==> j < string_end(c, j) <= c.len(),
    decreases c.len() - j,
{
    if j < c.len() {
        if c[j] == '\\' {
            lemma_string_end(c, if j + 2 < c.len() { j + 2 } else { c.len() as int });
        } else if c[j] != '"' {
            lemma_string_end(c, j + 1);
        }
    }
}

/// A number ends within the text, not before it starts.
pub proof fn lemma_number_end(c: Seq<char>, j: int)
    requires
        0 <= j <= c.len(),
    ensures
        j <= number_end(c, j) <= c.len(),
    decreases c.len() - j,
{
    if j < c.len() && number_char(c[j]) {
        lemma_number_end(c, j + 1);
    }
}

/// The highlighted markup of the text from position `i` on: strings (as keys when a colon
/// follows after white space), numbers, `true`, `false`, `null` and punctuation each in a span
/// of their class, every other character escaped.
pub open spec fn highlight_from(c: Seq<char>, i: int) -> Seq<char>
    decreases c.len() - i,
{
    if i < 0 || i >= c.len() {
        seq![]
    } else if c[i] == '"' {
        let end = string_end(c, i + 1);
        proof {
            lemma_string_end(c, i + 1);
        }
        let look = skip_white(c, end);
        let class = if 0 <= look < c.len() && c[look] == ':' { "json-key"@ } else { "json-string"@ };
        highlighted(class, c.subrange(i, end)) + highlight_from(c, end)
    } else if c[i] == '-' || ('0' <= c[i] && c[i] <= '9') {
        let end = number_end(c, i + 1);
        proof {
            lemma_number_end(c, i + 1);
        }
        highlighted("json-number"@, c.subrange(i, end)) + highlight_from(c, end)
    } else if starts_at(c, i, "true"@) {
        proof {
            reveal_strlit("true");
        }
        highlighted("json-literal"@, "true"@) + highlight_from(c, i + "true"@.len())
    } else if starts_at(c, i, "false"@) {
        proof {
            reveal_strlit("false");
        }
        highlighted("json-literal"@, "false"@) + highlight_from(c, i + "false"@.len())
    } else if starts_at(c, i, "null"@) {
        proof {
            reveal_strlit("null");
        }
        highlighted("json-literal"@, "null"@) + highlight_from(c, i + "null"@.len())
    } else if json_punctuation(c[i]) {
        highlighted("json-punctuation"@, seq![c[i]]) + highlight_from(c, i + 1)
    } else {
        html_escape(c[i]) + highlight_from(c, i + 1)
    }
}

/// Appends a character as HTML text.
fn push_html_escaped(output: &mut Vec<char>, character: char)
    ensures
        final(output)@ == old(output)@ + html_escape(character),
{
    if character == '&' {
        push_str(output, "&amp;");
    } else if character == '<' {
        push_str(output, "&lt;");
    } else if character == '>' {
        push_str(output, "&gt;");
    } else if character == '"' {
        push_str(output, "&quot;");
    } else if character == '\'' {
        push_str(output, "&#39;");
    } else {
        output.push(character);
    }
}

/// Appends the characters `start..end` in a span of the given class.
fn push_highlighted_token(output: &mut Vec<char>, class: &str, chars: &Vec<char>, start: usize, end: usize)
    requires
        start <= end <= chars.len(),
    ensures
        final(output)@ == old(output)@ + highlighted(class@, chars@.subrange(start as int, end as int)),
{
    push_str(output, "<span class=\"");
    push_str(output, class);
    push_str(output, "\">");
    let ghost before = output@;
    let mut k: usize = start;
    while k < end
        invariant
            start <= k <= end <= chars.len(),
            output@ == before + html_escaped(chars@.subrange(start as int, k as int)),
        decreases end - k,
    {
        push_html_escaped(output, chars[k]);
        proof {
            let s = chars@.subrange(start as int, k + 1);
            assert(s.drop_last() == chars@.subrange(start as int, k as int));
            assert(s.last() == chars@[k as int]);
        }
        k += 1;
    }
    push_str(output, "</span>");
}

/// Whether the characters from `from` on begin with `prefix`.
fn chars_start_with(chars: &Vec<char>, from: usize, prefix: &str) -> (r: bool)
    requires
        from <= chars.len(),
    ensures
        r == starts_at(chars@, from as int, prefix@),
{
    let p = chars_of(prefix);
    if p.len() > chars.len() - from {
        return false;
    }
    let mut k: usize = 0;
    while k < p.len()
        invariant
            from + p.len() <= chars.len(),
            k <= p.len(),
            p@ == prefix@,
            forall|m: int| 0 <= m < k ==> chars@[from + m] == p@[m],
        decreases p.len() - k,
    {
        if chars[from + k] != p[k] {
            proof {
                assert(chars@.subrange(from as int, from + p.len())[k as int] != p@[k as int]);
            }
            return false;
        }
        k += 1;
    }
    assert(chars@.subrange(from as int, from + p.len()) =~= p@);
    true
}

/// Where the JSON string whose characters start at `from` ends (see `string_end`).
fn find_string_end(chars: &Vec<char>, from: usize) -> (r: usize)
    requires
        from <= chars.len(),
    ensures
        r == string_end(chars@, from as int),
{
    let n = chars.len();
    let mut j = from;
    while j < n
        invariant
            n == chars.len(),
            from <= j <= n,
            string_end(chars@, j as int) == string_end(chars@, from as int),
        decreases n - j,
    {
        if chars[j] == '"' {
            return j + 1;
        }
        if chars[j] == '\\' {
            j = if n - j > 2 { j + 2 } else { n };
        } else {
            j += 1;
        }
    }
    j
}

/// The first position from `from` on that holds no white space.
fn skip_white_space(chars: &Vec<char>, from: usize) -> (r: usize)
    requires
        from <= chars.len(),
    ensures
        r == skip_white(chars@, from as int),
        r <= chars.len(),
{
    let n = chars.len();
    let mut j = from;
    while j < n
        invariant
            n == chars.len(),
            from <= j <= n,
            skip_white(chars@, j as int) == skip_white(chars@, from as int),
        decreases n - j,
    {
        if !is_whitespace(chars[j]) {
            return j;
        }
        j += 1;
    }
    j
}

/// Where the number whose characters continue at `from` ends.
fn find_number_end(chars: &Vec<char>, from: usize) -> (r: usize)
    requires
        from <= chars.len(),
    ensures
        r == number_end(chars@, from as int),
{
    let n = chars.len();
    let mut j = from;
    while j < n
        invariant
            n == chars.len(),
            from <= j <= n,
            number_end(chars@, j as int) == number_end(chars@, from as int),
        decreases n - j,
    {
        let x = chars[j];
        if !(('0' <= x && x <= '9') || x == '.' || x == 'e' || x == 'E' || x == '+' || x == '-') {
            return j;
        }
        j += 1;
    }
    j
}

/// Marks up a JSON cell for display: see `highlight_from`.
pub fn syntax_highlight_json(value: &str) -> (r: String)
    ensures
        r@ == highlight_from(value@, 0),
{
    let chars = chars_of(value);
    let n = chars.len();
    let mut output: Vec<char> = Vec::new();
    let mut index: usize = 0;
    while index < n
        invariant
            n == chars.len(),
            chars@ == value@,
            index <= n,
            output@ + highlight_from(chars@, index as int) == highlight_from(chars@, 0),
        decreases n - index,
    {
        let ghost c = chars@;
        let ghost rest = highlight_from(c, index as int);
        let current = chars[index];
        if current == '"' {
            let end = find_string_end(&chars, index + 1);
            proof {
                lemma_string_end(c, index + 1);
            }
            let look = skip_white_space(&chars, end);
            let is_key = look < n && chars[look] == ':';
            let class = if is_key { "json-key" } else { "json-string" };
            let ghost before = output@;
            push_highlighted_token(&mut output, class, &chars, index, end);
            proof {
                assert(rest == highlighted(class@, c.subrange(index as int, end as int)) + highlight_from(c, end as int));
                assert(output@ + highlight_from(c, end as int) == before + rest);
            }
            index = end;
        } else if current == '-' || ('0' <= current && current <= '9') {
            let end = find_number_end(&chars, index + 1);
            proof {
                lemma_number_end(c, index + 1);
            }
            let ghost before = output@;
            push_highlighted_token(&mut output, "json-number", &chars, index, end);
            proof {
                assert(output@ + highlight_from(c, end as int) == before + rest);
            }
            index = end;
        } else if chars_start_with(&chars, index, "true") {
            let ghost before = output@;
            proof {
                assert(c.subrange(index as int, index + "true"@.len()) == "true"@);
                assert("true"@.len() == 4) by {
                    reveal_strlit("true");
                }
            }
            let end = index + 4;
            push_highlighted_token(&mut output, "json-literal", &chars, index, end);
            proof {
                assert(output@ + highlight_from(c, end as int) == before + rest);
            }
            index = end;
        } else if chars_start_with(&chars, index, "false") {
            let ghost before = output@;
            proof {
                assert(c.subrange(index as int, index + "false"@.len()) == "false"@);
                assert("false"@.len() == 5) by {
                    reveal_strlit("false");
                }
            }
            let end = index + 5;
            push_highlighted_token(&mut output, "json-literal", &chars, index, end);
            proof {
                assert(output@ + highlight_from(c, end as int) == before + rest);
            }
            index = end;
        } else if chars_start_with(&chars, index, "null") {
            let ghost before = output@;
            proof {
                assert(c.subrange(index as int, index + "null"@.len()) == "null"@);
                assert("null"@.len() == 4) by {
                    reveal_strlit("null");
                }
            }
            let end = index + 4;
            push_highlighted_token(&mut output, "json-literal", &chars, index, end);
            proof {
                assert(output@ + highlight_from(c, end as int) == before + rest);
            }
            index = end;
        } else if current == '{' || current == '}' || current == '[' || current == ']' || current == ':' || current == ',' {
            let ghost before = output@;
            push_highlighted_token(&mut output, "json-punctuation", &chars, index, index + 1);
            proof {
                assert(c.subrange(index as int, index + 1) =~= seq![current]);
                assert(output@ + highlight_from(c, index + 1) == before + rest);
            }
            index = index + 1;
        } else {
            let ghost before = output@;
            push_html_escaped(&mut output, current);
            proof {
                assert(output@ + highlight_from(c, index + 1) == before + rest);
            }
            index = index + 1;
        }
    }
    string_of(&output)
}

} // verus!
