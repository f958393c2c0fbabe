use vstd::prelude::*;

use crate::diagnostics::is_bool_text;
use crate::json::{Json, JsonValue, json_parse, json_quote, lemma_array_view, lemma_object_view, parse_json};
use crate::text::{chars_less, chars_of, compare_chars, decimal, field_name_text, is_identifier,
    is_alphabetic, is_alphanumeric, is_whitespace, json_quoted, string_of, unicode_alphabetic,
    unicode_alphanumeric, unicode_whitespace};

verus! {

/// A value type declared in the first column of a misc table: a primitive, an array of a
/// declared type, or an object with named members (sorted by name).
pub enum Decl {
    Str,
    Num,
    Bool,
    Null,
    Array(Box<Decl>),
    Object(Seq<(Seq<char>, Decl)>),
}

pub enum DeclaredType {
    String,
    Number,
    Bool,
    Null,
    Array(Box<DeclaredType>),
    Object(Vec<(String, DeclaredType)>),
}

impl View for DeclaredType {
    type V = Decl;

    open spec fn view(&self) -> Decl {
        decl_view(*self)
    }
}

/// The declared type that a `DeclaredType` holds.
pub open spec fn decl_view(d: DeclaredType) -> Decl
    decreases d, 0nat,
{
    match d {
        DeclaredType::String => Decl::Str,
        DeclaredType::Number => Decl::Num,
        DeclaredType::Bool => Decl::Bool,
        DeclaredType::Null => Decl::Null,
        DeclaredType::Array(e) => Decl::Array(Box::new(decl_view(*e))),
        DeclaredType::Object(fields) => {
            proof {
                assert(decreases_to!(fields => fields@));
            }
            Decl::Object(decl_fields_view(fields@, fields@.len()))
        },
    }
}

/// The first `n` members, each name and type by its view.
pub open spec fn decl_fields_view(fields: Seq<(String, DeclaredType)>, n: nat) -> Seq<(Seq<char>, Decl)>
    decreases fields, n,
{
    if n == 0 || n > fields.len() {
        seq![]
    } else {
        proof {
            assert(decreases_to!(fields => fields[n - 1]));
            assert(decreases_to!(fields[n - 1] => fields[n - 1].1));
        }
        decl_fields_view(fields, (n - 1) as nat).push((fields[n - 1].0@, decl_view(fields[n - 1].1)))
    }
}

/// The view of a list of members.
pub open spec fn fields_of(fields: Seq<(String, DeclaredType)>) -> Seq<(Seq<char>, Decl)> {
    decl_fields_view(fields, fields.len())
}

proof fn lemma_decl_fields_view(fields: Seq<(String, DeclaredType)>, n: nat)
    requires
        n <= fields.len(),
    ensures
        decl_fields_view(fields, n).len() == n,
        forall|k: int| 0 <= k < n ==> #[trigger] decl_fields_view(fields, n)[k] == (fields[k].0@, fields[k].1@),
    decreases n,
{
    if n > 0 {
        lemma_decl_fields_view(fields, (n - 1) as nat);
    }
}

pub proof fn lemma_fields_of(fields: Seq<(String, DeclaredType)>)
    ensures
        fields_of(fields).len() == fields.len(),
        forall|k: int| 0 <= k < fields.len() ==> #[trigger] fields_of(fields)[k] == (fields[k].0@, fields[k].1@),
{
    lemma_decl_fields_view(fields, fields.len());
}

// ---- The grammar of declarations, over characters ----

/// The position of the first character at or after `i` that is not white space.
pub open spec fn skip_ws(c: Seq<char>, i: int) -> int
    decreases c.len() - i,
{
    if 0 <= i < c.len() && unicode_whitespace(c[i]) {
        skip_ws(c, i + 1)
    } else {
        i
    }
}

pub open spec fn is_ident_start(ch: char) -> bool {
    ch == '_' || ch == '$' || unicode_alphabetic(ch)
}

pub open spec fn is_ident_char(ch: char) -> bool {
    ch == '_' || ch == '$' || unicode_alphanumeric(ch)
}

/// The position just after the identifier characters from `i` on.
pub open spec fn ident_end(c: Seq<char>, i: int) -> int
    decreases c.len() - i,
{
    if 0 <= i < c.len() && is_ident_char(c[i]) {
        ident_end(c, i + 1)
    } else {
        i
    }
}

/// An identifier at `i`, with the position after it.
pub open spec fn parse_identifier(c: Seq<char>, i: int) -> Option<(Seq<char>, int)> {
    if 0 <= i < c.len() && is_ident_start(c[i]) {
        let j = ident_end(c, i + 1);
        Some((c.subrange(i, j), j))
    } else {
        None
    }
}

/// The position just after the quote that closes a quoted name whose text goes on at `i`
/// (`escaped` when the character before was an escaping backslash).
pub open spec fn quote_close(c: Seq<char>, i: int, escaped: bool) -> Option<int>
    decreases c.len() - i,
{
    if i < 0 || i >= c.len() {
        None
    } else if escaped {
        quote_close(c, i + 1, false)
    } else if c[i] == '\\' {
        quote_close(c, i + 1, true)
    } else if c[i] == '"' {
        Some(i + 1)
    } else {
        quote_close(c, i + 1, false)
    }
}

/// A quoted name at `i` (a JSON string), with the position after it.
pub open spec fn parse_quoted_name(c: Seq<char>, i: int) -> Option<(Seq<char>, int)> {
    if 0 <= i < c.len() && c[i] == '"' {
        match quote_close(c, i + 1, false) {
            Some(j) => match json_parse(c.subrange(i, j)) {
                Some(Json::Str(name)) => Some((name, j)),
                _ => None,
            },
            None => None,
        }
    } else {
        None
    }
}

/// The primitive type a name stands for.
pub open spec fn primitive_named(name: Seq<char>) -> Option<Decl> {
    if name == "string"@ {
        Some(Decl::Str)
    } else if name == "number"@ {
        Some(Decl::Num)
    } else if name == "bool"@ {
        Some(Decl::Bool)
    } else if name == "null"@ {
        Some(Decl::Null)
    } else {
        None
    }
}

/// Any `[]` suffixes after position `i`, each making an array of `d`, with the position after
/// them (and the white space after them).
pub open spec fn array_suffix(c: Seq<char>, i: int, d: Decl) -> Option<(Decl, int)>
    decreases c.len() - i,
{
    let p = skip_ws(c, i);
    if 0 <= i && p < c.len() && c[p] == '[' {
        let q = skip_ws(c, p + 1);
        if q < c.len() && c[q] == ']' && q + 1 > i {
            array_suffix(c, q + 1, Decl::Array(Box::new(d)))
        } else {
            None
        }
    } else {
        Some((d, p))
    }
}

pub proof fn lemma_skip_ws(c: Seq<char>, i: int)
    ensures
        skip_ws(c, i) >= i,
        i >= 0 ==> skip_ws(c, i) <= c.len() || skip_ws(c, i) == i,
    decreases c.len() - i,
{
    if 0 <= i < c.len() && unicode_whitespace(c[i]) {
        lemma_skip_ws(c, i + 1);
    }
}

pub proof fn lemma_ident_end(c: Seq<char>, i: int)
    ensures
        ident_end(c, i) >= i,
    decreases c.len() - i,
{
    if 0 <= i < c.len() && is_ident_char(c[i]) {
        lemma_ident_end(c, i + 1);
    }
}

pub proof fn lemma_quote_close(c: Seq<char>, i: int, escaped: bool)
    ensures
        quote_close(c, i, escaped) matches Some(j) ==> i < j <= c.len(),
    decreases c.len() - i,
{
    if 0 <= i < c.len() {
        if escaped || c[i] != '"' {
            lemma_quote_close(c, i + 1, c[i] == '\\' && !escaped);
        }
    }
}

/// A member name at `i` (quoted, or an identifier), with the position after it.
pub open spec fn parse_member_name(c: Seq<char>, i: int) -> Option<(Seq<char>, int)> {
    if 0 <= i < c.len() && c[i] == '"' {
        parse_quoted_name(c, i)
    } else {
        parse_identifier(c, i)
    }
}

pub proof fn lemma_member_name(c: Seq<char>, i: int)
    ensures
        parse_member_name(c, i) matches Some((_, j)) ==> i < j <= c.len(),
{
    if 0 <= i < c.len() && c[i] == '"' {
        lemma_quote_close(c, i + 1, false);
    } else if 0 <= i < c.len() {
        lemma_ident_end(c, i + 1);
        lemma_ident_end_bound(c, i + 1);
    }
}

pub proof fn lemma_ident_end_bound(c: Seq<char>, i: int)
    requires
        0 <= i <= c.len(),
    ensures
        ident_end(c, i) <= c.len(),
    decreases c.len() - i,
{
    if 0 <= i < c.len() && is_ident_char(c[i]) {
        lemma_ident_end_bound(c, i + 1);
    }
}

/// Whether some member has the name.
pub open spec fn has_member(fields: Seq<(Seq<char>, Decl)>, name: Seq<char>) -> bool {
    exists|k: int| 0 <= k < fields.len() && (#[trigger] fields[k]).0 == name
}

/// Where a member of that name goes among members sorted by name: after all from `i` on that
/// do not sort after it.
pub open spec fn insert_position(fields: Seq<(Seq<char>, Decl)>, name: Seq<char>, i: int) -> int
    decreases fields.len() - i,
{
    if i < 0 || i >= fields.len() {
        fields.len() as int
    } else if chars_less(name, fields[i].0) {
        i
    } else {
        insert_position(fields, name, i + 1)
    }
}

/// The members with one more, kept sorted by name.
pub open spec fn insert_member(fields: Seq<(Seq<char>, Decl)>, name: Seq<char>, d: Decl) -> Seq<(Seq<char>, Decl)> {
    fields.insert(insert_position(fields, name, 0), (name, d))
}

/// A type at `i` (after white space): an object, or a primitive name, then any `[]` suffixes.
pub open spec fn parse_type(c: Seq<char>, i: int) -> Option<(Decl, int)>
    decreases c.len() - i, 2nat,
{
    if i < 0 || i > c.len() {
        None
    } else {
        let p = skip_ws(c, i);
        proof {
            lemma_skip_ws(c, i);
        }
        let base = if p < c.len() && c[p] == '{' {
            parse_object(c, p)
        } else {
            match parse_identifier(c, p) {
                Some((name, j)) => match primitive_named(name) {
                    Some(d) => Some((d, j)),
                    None => None,
                },
                None => None,
            }
        };
        match base {
            Some((d, j)) => array_suffix(c, j, d),
            None => None,
        }
    }
}

/// An object at `i`: `{`, then `}` or members `name:type` separated by `,` and closed by `}`;
/// no name twice.
pub open spec fn parse_object(c: Seq<char>, i: int) -> Option<(Decl, int)>
    decreases c.len() - i, 1nat,
{
    if 0 <= i < c.len() && c[i] == '{' {
        let p = skip_ws(c, i + 1);
        if p < c.len() && c[p] == '}' {
            Some((Decl::Object(seq![]), p + 1))
        } else {
            parse_members(c, i + 1, seq![])
        }
    } else {
        None
    }
}

/// The members of an object from `i` on, after those already read.
pub open spec fn parse_members(c: Seq<char>, i: int, fields: Seq<(Seq<char>, Decl)>) -> Option<(Decl, int)>
    decreases c.len() - i, 0nat,
{
    if i < 0 || i > c.len() {
        None
    } else {
        let p = skip_ws(c, i);
        proof {
            lemma_skip_ws(c, i);
            lemma_member_name(c, p);
        }
        match parse_member_name(c, p) {
            None => None,
            Some((name, j)) => {
                let q = skip_ws(c, j);
                proof {
                    lemma_skip_ws(c, j);
                }
                if q < c.len() && c[q] == ':' {
                    match parse_type(c, q + 1) {
                        None => None,
                        Some((d, m)) => if has_member(fields, name) {
                            None
                        } else {
                            let more = insert_member(fields, name, d);
                            let r = skip_ws(c, m);
                            if r < c.len() && c[r] == '}' {
                                Some((Decl::Object(more), r + 1))
                            } else if r < c.len() && c[r] == ',' && r + 1 > i {
                                parse_members(c, r + 1, more)
                            } else {
                                None
                            }
                        },
                    }
                } else {
                    None
                }
            },
        }
    }
}

/// A whole declaration: a type and nothing after it but white space.
pub open spec fn parse_declaration(c: Seq<char>) -> Option<Decl> {
    match parse_type(c, 0) {
        Some((d, j)) => if skip_ws(c, j) == c.len() {
            Some(d)
        } else {
            None
        },
        None => None,
    }
}


/// Reads declared types from a text.
pub struct DeclaredTypeParser {
    chars: Vec<char>,
}

impl DeclaredTypeParser {
    /// Parses a whole declaration (see `parse_declaration`); `Err` when the text is not one.
    pub fn parse(source: &str) -> (r: Result<DeclaredType, ()>)
        ensures
            match r {
                Ok(d) => parse_declaration(source@) == Some(d@),
                Err(_) => parse_declaration(source@) is None,
            },
    {
        let parser = DeclaredTypeParser { chars: chars_of(source) };
        match parser.parse_type(0) {
            Some((declared, j)) => {
                let k = parser.skip_whitespace(j);
                if k == parser.chars.len() {
                    Ok(declared)
                } else {
                    Err(())
                }
            },
            None => Err(()),
        }
    }

    fn skip_whitespace(&self, i: usize) -> (r: usize)
        requires
            i <= self.chars@.len(),
        ensures
            r == skip_ws(self.chars@, i as int),
            i <= r <= self.chars@.len(),
    {
        let mut k = i;
        while k < self.chars.len() && is_whitespace(self.chars[k])
            invariant
                i <= k <= self.chars@.len(),
                skip_ws(self.chars@, k as int) == skip_ws(self.chars@, i as int),
            decreases self.chars@.len() - k,
        {
            k += 1;
        }
        k
    }

    fn at(&self, i: usize, ch: char) -> (r: bool)
        ensures
            r == (i < self.chars@.len() && self.chars@[i as int] == ch),
    {
        i < self.chars.len() && self.chars[i] == ch
    }

    fn slice(&self, i: usize, j: usize) -> (r: String)
        requires
            i <= j <= self.chars@.len(),
        ensures
            r@ == self.chars@.subrange(i as int, j as int),
    {
        let mut out: Vec<char> = Vec::new();
        let mut k = i;
        while k < j
            invariant
                i <= k <= j,
                j <= self.chars@.len(),
                out@ == self.chars@.subrange(i as int, k as int),
            decreases j - k,
        {
            out.push(self.chars[k]);
            k += 1;
            proof {
                assert(out@ =~= self.chars@.subrange(i as int, k as int));
            }
        }
        string_of(&out)
    }

    fn parse_identifier(&self, i: usize) -> (r: Option<(String, usize)>)
        requires
            i <= self.chars@.len(),
        ensures
            match r {
                Some((name, j)) => parse_identifier(self.chars@, i as int) == Some((name@, j as int)) && i < j <= self.chars@.len(),
                None => parse_identifier(self.chars@, i as int) is None,
            },
    {
        if i >= self.chars.len() {
            return None;
        }
        let first = self.chars[i];
        if !(first == '_' || first == '$' || is_alphabetic(first)) {
            return None;
        }
        let n = self.chars.len();
        let mut k = i + 1;
        while k < n && (self.chars[k] == '_' || self.chars[k] == '$' || is_alphanumeric(self.chars[k]))
            invariant
                n == self.chars@.len(),
                i < k <= n,
                ident_end(self.chars@, k as int) == ident_end(self.chars@, i + 1),
            decreases n - k,
        {
            k += 1;
        }
        let name = self.slice(i, k);
        Some((name, k))
    }

    fn parse_quoted_name(&self, i: usize) -> (r: Option<(String, usize)>)
        requires
            i <= self.chars@.len(),
        ensures
            match r {
                Some((name, j)) => parse_quoted_name(self.chars@, i as int) == Some((name@, j as int)) && i < j <= self.chars@.len(),
                None => parse_quoted_name(self.chars@, i as int) is None,
            },
    {
        let n = self.chars.len();
        if !self.at(i, '"') {
            return None;
        }
        let mut k = i + 1;
        let mut escaped = false;
        while k < n
            invariant
                n == self.chars@.len(),
                i < k <= n,
                self.chars@[i as int] == '"',
                quote_close(self.chars@, k as int, escaped) == quote_close(self.chars@, i + 1, false),
            decreases n - k,
        {
            let ch = self.chars[k];
            if escaped {
                escaped = false;
            } else if ch == '\\' {
                escaped = true;
            } else if ch == '"' {
                let j = k + 1;
                let text = self.slice(i, j);
                return match parse_json(text.as_str()) {
                    Some(JsonValue::String(name)) => Some((name, j)),
                    _ => None,
                };
            }
            k += 1;
        }
        None
    }

    fn parse_member_name(&self, i: usize) -> (r: Option<(String, usize)>)
        requires
            i <= self.chars@.len(),
        ensures
            match r {
                Some((name, j)) => parse_member_name(self.chars@, i as int) == Some((name@, j as int)) && i < j <= self.chars@.len(),
                None => parse_member_name(self.chars@, i as int) is None,
            },
    {
        if self.at(i, '"') {
            self.parse_quoted_name(i)
        } else {
            self.parse_identifier(i)
        }
    }

    fn array_suffix(&self, i: usize, d: DeclaredType) -> (r: Option<(DeclaredType, usize)>)
        requires
            i <= self.chars@.len(),
        ensures
            match r {
                Some((e, j)) => array_suffix(self.chars@, i as int, d@) == Some((e@, j as int)) && i <= j <= self.chars@.len(),
                None => array_suffix(self.chars@, i as int, d@) is None,
            },
    {
        let n = self.chars.len();
        let mut k = i;
        let mut declared = d;
        loop
            invariant
                n == self.chars@.len(),
                i <= k <= self.chars@.len(),
                array_suffix(self.chars@, k as int, declared@) == array_suffix(self.chars@, i as int, d@),
            decreases self.chars@.len() - k,
        {
            let p = self.skip_whitespace(k);
            if !self.at(p, '[') {
                return Some((declared, p));
            }
            let q = self.skip_whitespace(p + 1);
            if !self.at(q, ']') {
                return None;
            }
            declared = DeclaredType::Array(Box::new(declared));
            k = q + 1;
        }
    }

    fn parse_type(&self, i: usize) -> (r: Option<(DeclaredType, usize)>)
        requires
            i <= self.chars@.len(),
        ensures
            match r {
                Some((d, j)) => parse_type(self.chars@, i as int) == Some((d@, j as int)) && i <= j <= self.chars@.len(),
                None => parse_type(self.chars@, i as int) is None,
            },
        decreases self.chars@.len() - i, 2nat,
    {
        let n = self.chars.len();
        let p = self.skip_whitespace(i);
        let base = if self.at(p, '{') {
            self.parse_object(p)
        } else {
            match self.parse_identifier(p) {
                Some((name, j)) => {
                    let chars = chars_of(name.as_str());
                    let d = if crate::text::chars_equal(&chars, &chars_of("string")) {
                        Some(DeclaredType::String)
                    } else if crate::text::chars_equal(&chars, &chars_of("number")) {
                        Some(DeclaredType::Number)
                    } else if crate::text::chars_equal(&chars, &chars_of("bool")) {
                        Some(DeclaredType::Bool)
                    } else if crate::text::chars_equal(&chars, &chars_of("null")) {
                        Some(DeclaredType::Null)
                    } else {
                        None
                    };
                    match d {
                        Some(d) => Some((d, j)),
                        None => None,
                    }
                },
                None => None,
            }
        };
        match base {
            Some((d, j)) => self.array_suffix(j, d),
            None => None,
        }
    }

    fn parse_object(&self, i: usize) -> (r: Option<(DeclaredType, usize)>)
        requires
            i <= self.chars@.len(),
        ensures
            match r {
                Some((d, j)) => parse_object(self.chars@, i as int) == Some((d@, j as int)) && i <= j <= self.chars@.len(),
                None => parse_object(self.chars@, i as int) is None,
            },
        decreases self.chars@.len() - i, 1nat,
    {
        let n = self.chars.len();
        if !self.at(i, '{') {
            return None;
        }
        let p = self.skip_whitespace(i + 1);
        if self.at(p, '}') {
            let empty: Vec<(String, DeclaredType)> = Vec::new();
            proof {
                assert(fields_of(empty@) =~= Seq::<(Seq<char>, Decl)>::empty());
            }
            let d = DeclaredType::Object(empty);
            return Some((d, p + 1));
        }
        let fields: Vec<(String, DeclaredType)> = Vec::new();
        proof {
            assert(fields_of(fields@) =~= Seq::<(Seq<char>, Decl)>::empty());
        }
        self.parse_members(i + 1, fields)
    }

    fn has_member(fields: &Vec<(String, DeclaredType)>, name: &String) -> (r: bool)
        ensures
            r == has_member(fields_of(fields@), name@),
    {
        proof {
            lemma_fields_of(fields@);
        }
        let target = chars_of(name.as_str());
        let mut k: usize = 0;
        while k < fields.len()
            invariant
                k <= fields.len(),
                target@ == name@,
                fields_of(fields@).len() == fields@.len(),
                forall|m: int| 0 <= m < fields@.len() ==> #[trigger] fields_of(fields@)[m] == (fields@[m].0@, fields@[m].1@),
                forall|m: int| 0 <= m < k ==> (#[trigger] fields_of(fields@)[m]).0 != name@,
            decreases fields.len() - k,
        {
            let here = chars_of(fields[k].0.as_str());
            if crate::text::chars_equal(&here, &target) {
                proof {
                    assert(fields_of(fields@)[k as int].0 == name@);
                }
                return true;
            }
            k += 1;
        }
        false
    }

    fn insert_member(fields: &mut Vec<(String, DeclaredType)>, name: String, d: DeclaredType)
        ensures
            fields_of(final(fields)@) == insert_member(fields_of(old(fields)@), name@, d@),
    {
        let ghost fv = fields_of(fields@);
        proof {
            lemma_fields_of(fields@);
        }
        let target = chars_of(name.as_str());
        let mut k: usize = 0;
        while k < fields.len() && compare_chars(&target, &chars_of(fields[k].0.as_str())) != -1
            invariant
                k <= fields.len(),
                target@ == name@,
                fv == fields_of(fields@),
                fv.len() == fields@.len(),
                forall|m: int| 0 <= m < fields@.len() ==> #[trigger] fv[m] == (fields@[m].0@, fields@[m].1@),
                insert_position(fv, name@, k as int) == insert_position(fv, name@, 0),
            decreases fields.len() - k,
        {
            k += 1;
        }
        let ghost old_fields = fields@;
        fields.insert(k, (name, d));
        proof {
            lemma_fields_of(fields@);
            assert(fields_of(fields@) =~= fv.insert(k as int, (name@, d@)));
        }
    }

    fn parse_members(&self, i: usize, fields: Vec<(String, DeclaredType)>) -> (r: Option<(DeclaredType, usize)>)
        requires
            i <= self.chars@.len(),
        ensures
            match r {
                Some((d, j)) => parse_members(self.chars@, i as int, fields_of(fields@)) == Some((d@, j as int)) && i <= j <= self.chars@.len(),
                None => parse_members(self.chars@, i as int, fields_of(fields@)) is None,
            },
        decreases self.chars@.len() - i, 0nat,
    {
        let n = self.chars.len();
        let mut fields = fields;
        let ghost fv = fields_of(fields@);
        let p = self.skip_whitespace(i);
        let (name, j) = match self.parse_member_name(p) {
            Some(x) => x,
            None => {
                return None;
            },
        };
        let q = self.skip_whitespace(j);
        if !self.at(q, ':') {
            return None;
        }
        let (d, m) = match self.parse_type(q + 1) {
            Some(x) => x,
            None => {
                return None;
            },
        };
        if Self::has_member(&fields, &name) {
            return None;
        }
        Self::insert_member(&mut fields, name, d);
        let r = self.skip_whitespace(m);
        if self.at(r, '}') {
            let result = DeclaredType::Object(fields);
            return Some((result, r + 1));
        }
        if self.at(r, ',') {
            return self.parse_members(r + 1, fields);
        }
        None
    }
}


// ---- Writing and checking declared types ----

/// How a declared type is written back: primitives by name, an array as its element followed by
/// `[]`, an object as `{name:type,...}` with names bare when they are identifiers.
pub open spec fn render_decl(d: Decl) -> Seq<char>
    decreases d, 0nat,
{
    match d {
        Decl::Str => "string"@,
        Decl::Num => "number"@,
        Decl::Bool => "bool"@,
        Decl::Null => "null"@,
        Decl::Array(e) => render_decl(*e) + "[]"@,
        Decl::Object(fs) => "{"@ + render_decl_fields(fs, fs.len()) + "}"@,
    }
}

/// The first `n` members written as `name:type`, joined by `,`.
pub open spec fn render_decl_fields(fs: Seq<(Seq<char>, Decl)>, n: nat) -> Seq<char>
    decreases fs, n,
{
    if n == 0 || n > fs.len() {
        seq![]
    } else {
        proof {
            assert(decreases_to!(fs => fs[n - 1]));
            assert(decreases_to!(fs[n - 1] => fs[n - 1].1));
        }
        let text = field_name_text(fs[n - 1].0) + ":"@ + render_decl(fs[n - 1].1);
        if n == 1 {
            text
        } else {
            render_decl_fields(fs, (n - 1) as nat) + ","@ + text
        }
    }
}

/// The path of a member below `parent`: `.name` for an identifier, else `["name"]`.
pub open spec fn object_path(parent: Seq<char>, name: Seq<char>) -> Seq<char> {
    if is_identifier(name) {
        parent + "."@ + name
    } else {
        parent + "["@ + json_quoted(name) + "]"@
    }
}

/// The path of element `k` below `parent`: `[k]`.
pub open spec fn index_path(parent: Seq<char>, k: nat) -> Seq<char> {
    parent + "["@ + decimal(k) + "]"@
}

pub open spec fn is_primitive(d: Decl) -> bool {
    d is Str || d is Num || d is Bool || d is Null
}

/// Whether a JSON object has a member of that name.
pub open spec fn has_json_member(act: Seq<(Seq<char>, Json)>, name: Seq<char>) -> bool {
    exists|k: int| 0 <= k < act.len() && (#[trigger] act[k]).0 == name
}

/// The value of the first member of that name, from member `i` on.
pub open spec fn json_member(act: Seq<(Seq<char>, Json)>, name: Seq<char>, i: int) -> Json
    decreases act.len() - i,
{
    if i < 0 || i >= act.len() {
        Json::Null
    } else if act[i].0 == name {
        act[i].1
    } else {
        json_member(act, name, i + 1)
    }
}

/// The first of the first `n` declared members that the value lacks.
pub open spec fn first_missing(exp: Seq<(Seq<char>, Decl)>, act: Seq<(Seq<char>, Json)>, n: nat) -> Option<Seq<char>>
    decreases n,
{
    if n == 0 || n > exp.len() {
        None
    } else {
        match first_missing(exp, act, (n - 1) as nat) {
            Some(name) => Some(name),
            None => if has_json_member(act, exp[n - 1].0) {
                None
            } else {
                Some(exp[n - 1].0)
            },
        }
    }
}

/// The first of the first `n` members of the value that is not declared.
pub open spec fn first_extra(act: Seq<(Seq<char>, Json)>, exp: Seq<(Seq<char>, Decl)>, n: nat) -> Option<Seq<char>>
    decreases n,
{
    if n == 0 || n > act.len() {
        None
    } else {
        match first_extra(act, exp, (n - 1) as nat) {
            Some(name) => Some(name),
            None => if has_member(exp, act[n - 1].0) {
                None
            } else {
                Some(act[n - 1].0)
            },
        }
    }
}

/// Checks a JSON value against a declared type; the path of the first place that does not fit.
/// Strings, numbers, null and bools fit their types (and the numbers 0 and 1 fit `bool`);
/// arrays fit element by element; an object fits when it has exactly the declared members (the
/// first missing one, else the first extra one, is reported) and each fits its type.
pub open spec fn validate_json(d: Decl, j: Json, path: Seq<char>) -> Option<Seq<char>>
    decreases d, 0nat, 0nat,
{
    match d {
        Decl::Str => if j is Str { None } else { Some(path) },
        Decl::Num => if j is Number { None } else { Some(path) },
        Decl::Null => if j is Null { None } else { Some(path) },
        Decl::Bool => match j {
            Json::Bool(_) => None,
            Json::Number(n) => if n == Some(0i64) || n == Some(1i64) { None } else { Some(path) },
            _ => Some(path),
        },
        Decl::Array(e) => match j {
            Json::Array(items) => validate_items(*e, items, path, items.len()),
            _ => Some(path),
        },
        Decl::Object(exp) => match j {
            Json::Object(act) => match first_missing(exp, act, exp.len()) {
                Some(name) => Some(object_path(path, name)),
                None => match first_extra(act, exp, act.len()) {
                    Some(name) => Some(object_path(path, name)),
                    None => validate_members(exp, act, path, exp.len()),
                },
            },
            _ => Some(path),
        },
    }
}

/// The first of the first `n` elements that does not fit the element type.
pub open spec fn validate_items(e: Decl, items: Seq<Json>, path: Seq<char>, n: nat) -> Option<Seq<char>>
    decreases e, 1nat, n,
{
    if n == 0 || n > items.len() {
        None
    } else {
        match validate_items(e, items, path, (n - 1) as nat) {
            Some(p) => Some(p),
            None => validate_json(e, items[n - 1], index_path(path, (n - 1) as nat)),
        }
    }
}

/// The first of the first `n` declared members whose value does not fit.
pub open spec fn validate_members(exp: Seq<(Seq<char>, Decl)>, act: Seq<(Seq<char>, Json)>, path: Seq<char>, n: nat) -> Option<Seq<char>>
    decreases exp, 1nat, n,
{
    if n == 0 || n > exp.len() {
        None
    } else {
        proof {
            assert(decreases_to!(exp => exp[n - 1]));
            assert(decreases_to!(exp[n - 1] => exp[n - 1].1));
        }
        match validate_members(exp, act, path, (n - 1) as nat) {
            Some(p) => Some(p),
            None => validate_json(exp[n - 1].1, json_member(act, exp[n - 1].0, 0), object_path(path, exp[n - 1].0)),
        }
    }
}


/// The position after the last character before `j` that is not white space.
pub open spec fn trim_end(c: Seq<char>, j: int) -> int
    decreases j,
{
    if 0 < j <= c.len() && unicode_whitespace(c[j - 1]) {
        trim_end(c, j - 1)
    } else {
        j
    }
}

/// The text without white space at either end (`str::trim`).
pub open spec fn trim(c: Seq<char>) -> Seq<char> {
    let s = skip_ws(c, 0);
    let e = trim_end(c, c.len() as int);
    if s < e {
        c.subrange(s, e)
    } else {
        seq![]
    }
}

/// The pieces of a text between commas (`str::split(',')`): one more than there are commas.
pub open spec fn split_commas(c: Seq<char>) -> Seq<Seq<char>>
    decreases c.len(),
{
    if c.len() == 0 {
        seq![seq![]]
    } else {
        let prev = split_commas(c.drop_last());
        if c.last() == ',' {
            prev.push(seq![])
        } else {
            prev.update(prev.len() - 1, prev.last().push(c.last()))
        }
    }
}

/// Checks a text against a declared type other than an array of primitives: strings always
/// fit; a number must be a JSON number, a bool `true`/`false`/`0`/`1`, null `null` (the text
/// trimmed); arrays and objects must be JSON that fits. The error path is `$`, or the path
/// into the JSON value.
pub open spec fn validate_text(d: Decl, value: Seq<char>) -> Option<Seq<char>> {
    let t = trim(value);
    match d {
        Decl::Str => None,
        Decl::Num => match json_parse(t) {
            Some(Json::Number(_)) => None,
            _ => Some("$"@),
        },
        Decl::Bool => if is_bool_text(t) { None } else { Some("$"@) },
        Decl::Null => if t == "null"@ { None } else { Some("$"@) },
        _ => match json_parse(t) {
            None => Some("$"@),
            Some(j) => validate_json(d, j, "$"@),
        },
    }
}

/// The path `$[k]` of the first of the first `n` comma-separated pieces that does not fit the
/// primitive element type.
pub open spec fn validate_pieces(e: Decl, pieces: Seq<Seq<char>>, n: nat) -> Option<Seq<char>>
    decreases n,
{
    if n == 0 || n > pieces.len() {
        None
    } else {
        match validate_pieces(e, pieces, (n - 1) as nat) {
            Some(p) => Some(p),
            None => if validate_text(e, trim(pieces[n - 1])) is Some {
                Some(index_path("$"@, (n - 1) as nat))
            } else {
                None
            },
        }
    }
}

/// Checks a cell against a declared type; the path of the first place that does not fit. An
/// array of primitives is read as a JSON array when the cell is one, else as comma-separated
/// pieces, each trimmed and checked as a primitive.
pub open spec fn validate_cell(d: Decl, value: Seq<char>) -> Option<Seq<char>> {
    match d {
        Decl::Array(e) => if is_primitive(*e) {
            match json_parse(value) {
                Some(j) => if j is Array {
                    validate_json(d, j, "$"@)
                } else {
                    let pieces = split_commas(value);
                    validate_pieces(*e, pieces, pieces.len())
                },
                None => {
                    let pieces = split_commas(value);
                    validate_pieces(*e, pieces, pieces.len())
                },
            }
        } else {
            validate_text(d, value)
        },
        _ => validate_text(d, value),
    }
}


/// Appends a member's name as declarations write it (see `field_name_text`).
fn push_name(out: &mut Vec<char>, name: &String)
    ensures
        final(out)@ == old(out)@ + field_name_text(name@),
{
    let c = chars_of(name.as_str());
    if crate::text::chars_are_identifier(&c) {
        crate::text::push_chars(out, &c);
    } else {
        let quoted = json_quote(name.as_str());
        crate::text::push_str(out, quoted.as_str());
    }
}

/// Appends the path of a member below the path already in `out` (see `object_path`).
fn push_object_path(out: &mut Vec<char>, name: &String)
    ensures
        final(out)@ == object_path(old(out)@, name@),
{
    let c = chars_of(name.as_str());
    if crate::text::chars_are_identifier(&c) {
        crate::text::push_str(out, ".");
        crate::text::push_chars(out, &c);
    } else {
        crate::text::push_str(out, "[");
        let quoted = json_quote(name.as_str());
        crate::text::push_str(out, quoted.as_str());
        crate::text::push_str(out, "]");
    }
}

/// Appends `[k]` to the path in `out` (see `index_path`).
fn push_index(out: &mut Vec<char>, k: usize)
    ensures
        final(out)@ == index_path(old(out)@, k as nat),
{
    crate::text::push_str(out, "[");
    crate::text::push_decimal(out, k as u128);
    crate::text::push_str(out, "]");
}

fn copy_chars(v: &Vec<char>) -> (r: Vec<char>)
    ensures
        r@ == v@,
{
    let mut r: Vec<char> = Vec::new();
    crate::text::push_chars(&mut r, v);
    r
}

/// The index of the first member of that name, if any.
fn find_json_member(act: &Vec<(String, JsonValue)>, name: &String, Ghost(av): Ghost<Seq<(Seq<char>, Json)>>) -> (r: Option<usize>)
    requires
        av.len() == act@.len(),
        forall|k: int| 0 <= k < act@.len() ==> #[trigger] av[k] == (act@[k].0@, act@[k].1@),
    ensures
        match r {
            Some(i) => i < act@.len() && has_json_member(av, name@) && json_member(av, name@, 0) == av[i as int].1,
            None => !has_json_member(av, name@),
        },
{
    let target = chars_of(name.as_str());
    let mut k: usize = 0;
    while k < act.len()
        invariant
            k <= act@.len(),
            target@ == name@,
            av.len() == act@.len(),
            forall|m: int| 0 <= m < act@.len() ==> #[trigger] av[m] == (act@[m].0@, act@[m].1@),
            forall|m: int| 0 <= m < k ==> (#[trigger] av[m]).0 != name@,
            json_member(av, name@, k as int) == json_member(av, name@, 0),
        decreases act.len() - k,
    {
        let here = chars_of(act[k].0.as_str());
        if crate::text::chars_equal(&here, &target) {
            proof {
                assert(av[k as int].0 == name@);
            }
            return Some(k);
        }
        k += 1;
    }
    None
}

impl DeclaredType {
    fn render_into(&self, out: &mut Vec<char>)
        ensures
            final(out)@ == old(out)@ + render_decl(self@),
        decreases self@,
    {
        match self {
            DeclaredType::String => crate::text::push_str(out, "string"),
            DeclaredType::Number => crate::text::push_str(out, "number"),
            DeclaredType::Bool => crate::text::push_str(out, "bool"),
            DeclaredType::Null => crate::text::push_str(out, "null"),
            DeclaredType::Array(e) => {
                let ghost start = out@;
                proof {
                    let sv = self@;
                    assert(decreases_to!(sv => sv->Array_0));
                }
                (**e).render_into(out);
                crate::text::push_str(out, "[]");
                proof {
                    assert(out@ =~= start + (render_decl(e@) + "[]"@));
                }
            },
            DeclaredType::Object(fields) => {
                proof {
                    lemma_fields_of(fields@);
                }
                let ghost fv = fields_of(fields@);
                let ghost start = out@;
                crate::text::push_str(out, "{");
                let mut i: usize = 0;
                while i < fields.len()
                    invariant
                        self@ == Decl::Object(fv),
                        fv == fields_of(fields@),
                        fv.len() == fields@.len(),
                        forall|m: int| 0 <= m < fields@.len() ==> #[trigger] fv[m] == (fields@[m].0@, fields@[m].1@),
                        i <= fields.len(),
                        out@ == start + "{"@ + render_decl_fields(fv, i as nat),
                    decreases fields.len() - i,
                {
                    let ghost before = out@;
                    proof {
                        let sv = self@;
                        assert(fv[i as int].1 == fields@[i as int].1@);
                        assert(decreases_to!(sv => sv->Object_0));
                        assert(decreases_to!(sv->Object_0 => sv->Object_0[i as int]));
                        assert(decreases_to!(sv->Object_0[i as int] => sv->Object_0[i as int].1));
                    }
                    if i > 0 {
                        crate::text::push_str(out, ",");
                    }
                    let ghost after_sep = out@;
                    push_name(out, &fields[i].0);
                    crate::text::push_str(out, ":");
                    fields[i].1.render_into(out);
                    proof {
                        let text = field_name_text(fv[i as int].0) + ":"@ + render_decl(fv[i as int].1);
                        assert(out@ =~= after_sep + text);
                        if i == 0 {
                            assert(render_decl_fields(fv, 1) == text);
                        } else {
                            assert(render_decl_fields(fv, (i + 1) as nat) == render_decl_fields(fv, i as nat) + ","@ + text);
                        }
                        assert(out@ =~= start + "{"@ + render_decl_fields(fv, (i + 1) as nat));
                    }
                    i += 1;
                }
                crate::text::push_str(out, "}");
                proof {
                    assert(out@ =~= start + ("{"@ + render_decl_fields(fv, fv.len()) + "}"@));
                }
            },
        }
    }

    /// How the declaration is written back (see `render_decl`).
    pub fn render(&self) -> (r: String)
        ensures
            r@ == render_decl(self@),
    {
        let mut out: Vec<char> = Vec::new();
        self.render_into(&mut out);
        proof {
            assert(out@ =~= render_decl(self@));
        }
        string_of(&out)
    }

    pub fn is_primitive(&self) -> (r: bool)
        ensures
            r == is_primitive(self@),
    {
        match self {
            DeclaredType::String | DeclaredType::Number | DeclaredType::Bool | DeclaredType::Null => true,
            _ => false,
        }
    }

    /// Checks a JSON value (see `validate_json`); the error is the path of the first misfit.
    fn validate_json(&self, value: &JsonValue, path: Vec<char>) -> (r: Result<(), Vec<char>>)
        ensures
            match r {
                Ok(_) => validate_json(self@, value@, path@) is None,
                Err(p) => validate_json(self@, value@, path@) == Some(p@),
            },
        decreases self@,
    {
        match self {
            DeclaredType::String => match value {
                JsonValue::String(_) => Ok(()),
                _ => Err(path),
            },
            DeclaredType::Number => match value {
                JsonValue::Number(_) => Ok(()),
                _ => Err(path),
            },
            DeclaredType::Null => match value {
                JsonValue::Null => Ok(()),
                _ => Err(path),
            },
            DeclaredType::Bool => match value {
                JsonValue::Bool(_) => Ok(()),
                JsonValue::Number(n) => {
                    let fits = match n {
                        Some(x) => *x == 0 || *x == 1,
                        None => false,
                    };
                    if fits {
                        Ok(())
                    } else {
                        Err(path)
                    }
                },
                _ => Err(path),
            },
            DeclaredType::Array(e) => match value {
                JsonValue::Array(items) => {
                    proof {
                        lemma_array_view(value);
                    }
                    let ghost iv = value@->Array_0;
                    let mut k: usize = 0;
                    while k < items.len()
                        invariant
                            self@ == Decl::Array(Box::new(e@)),
                            value@ == Json::Array(iv),
                            iv.len() == items@.len(),
                            forall|m: int| 0 <= m < items@.len() ==> iv[m] == (#[trigger] items@[m])@,
                            k <= items.len(),
                            validate_items(e@, iv, path@, k as nat) is None,
                        decreases items.len() - k,
                    {
                        let mut here = copy_chars(&path);
                        push_index(&mut here, k);
                        proof {
                            let sv = self@;
                            assert(decreases_to!(sv => sv->Array_0));
                        }
                        match (**e).validate_json(&items[k], here) {
                            Ok(_) => {},
                            Err(p) => {
                                proof {
                                    lemma_items_stable(e@, iv, path@, (k + 1) as nat, iv.len());
                                }
                                return Err(p);
                            },
                        }
                        k += 1;
                    }
                    Ok(())
                },
                _ => Err(path),
            },
            DeclaredType::Object(exp) => match value {
                JsonValue::Object(act) => {
                    proof {
                        lemma_object_view(value);
                        lemma_fields_of(exp@);
                    }
                    let ghost av = value@->Object_0;
                    let ghost ev = fields_of(exp@);
                    let mut k: usize = 0;
                    while k < exp.len()
                        invariant
                            self@ == Decl::Object(ev),
                            value@ == Json::Object(av),
                            ev == fields_of(exp@),
                            ev.len() == exp@.len(),
                            forall|m: int| 0 <= m < exp@.len() ==> #[trigger] ev[m] == (exp@[m].0@, exp@[m].1@),
                            av.len() == act@.len(),
                            forall|m: int| 0 <= m < act@.len() ==> #[trigger] av[m] == (act@[m].0@, act@[m].1@),
                            k <= exp.len(),
                            first_missing(ev, av, k as nat) is None,
                        decreases exp.len() - k,
                    {
                        if find_json_member(act, &exp[k].0, Ghost(av)).is_none() {
                            let mut p = copy_chars(&path);
                            push_object_path(&mut p, &exp[k].0);
                            proof {
                                lemma_missing_stable(ev, av, (k + 1) as nat, ev.len());
                            }
                            return Err(p);
                        }
                        k += 1;
                    }
                    let mut k: usize = 0;
                    while k < act.len()
                        invariant
                            self@ == Decl::Object(ev),
                            value@ == Json::Object(av),
                            ev == fields_of(exp@),
                            ev.len() == exp@.len(),
                            av.len() == act@.len(),
                            forall|m: int| 0 <= m < act@.len() ==> #[trigger] av[m] == (act@[m].0@, act@[m].1@),
                            k <= act.len(),
                            first_missing(ev, av, ev.len()) is None,
                            first_extra(av, ev, k as nat) is None,
                        decreases act.len() - k,
                    {
                        if !DeclaredTypeParser::has_member(exp, &act[k].0) {
                            let mut p = copy_chars(&path);
                            push_object_path(&mut p, &act[k].0);
                            proof {
                                lemma_extra_stable(av, ev, (k + 1) as nat, av.len());
                            }
                            return Err(p);
                        }
                        k += 1;
                    }
                    let mut k: usize = 0;
                    while k < exp.len()
                        invariant
                            self@ == Decl::Object(ev),
                            value@ == Json::Object(av),
                            ev == fields_of(exp@),
                            ev.len() == exp@.len(),
                            forall|m: int| 0 <= m < exp@.len() ==> #[trigger] ev[m] == (exp@[m].0@, exp@[m].1@),
                            av.len() == act@.len(),
                            forall|m: int| 0 <= m < act@.len() ==> #[trigger] av[m] == (act@[m].0@, act@[m].1@),
                            first_missing(ev, av, ev.len()) is None,
                            first_extra(av, ev, av.len()) is None,
                            k <= exp.len(),
                            validate_members(ev, av, path@, k as nat) is None,
                        decreases exp.len() - k,
                    {
                        proof {
                            lemma_first_missing(ev, av, ev.len(), k as int);
                        }
                        let idx = match find_json_member(act, &exp[k].0, Ghost(av)) {
                            Some(i) => i,
                            None => {
                                return Ok(());
                            },
                        };
                        let mut here = copy_chars(&path);
                        push_object_path(&mut here, &exp[k].0);
                        proof {
                            let sv = self@;
                            assert(decreases_to!(sv => sv->Object_0));
                            assert(decreases_to!(sv->Object_0 => sv->Object_0[k as int]));
                            assert(decreases_to!(sv->Object_0[k as int] => sv->Object_0[k as int].1));
                        }
                        match exp[k].1.validate_json(&act[idx].1, here) {
                            Ok(_) => {},
                            Err(p) => {
                                proof {
                                    lemma_members_stable(ev, av, path@, (k + 1) as nat, ev.len());
                                }
                                return Err(p);
                            },
                        }
                        k += 1;
                    }
                    Ok(())
                },
                _ => Err(path),
            },
        }
    }
}

/// Every declared member is present once no member is missing.
proof fn lemma_first_missing(exp: Seq<(Seq<char>, Decl)>, act: Seq<(Seq<char>, Json)>, n: nat, k: int)
    requires
        first_missing(exp, act, n) is None,
        0 <= k < n <= exp.len(),
    ensures
        has_json_member(act, exp[k].0),
    decreases n,
{
    if k < n - 1 {
        lemma_first_missing(exp, act, (n - 1) as nat, k);
    }
}


proof fn lemma_items_stable(e: Decl, items: Seq<Json>, path: Seq<char>, n: nat, m: nat)
    requires
        n <= m <= items.len(),
        validate_items(e, items, path, n) is Some,
    ensures
        validate_items(e, items, path, m) == validate_items(e, items, path, n),
    decreases m - n,
{
    if n < m {
        lemma_items_stable(e, items, path, n, (m - 1) as nat);
    }
}

proof fn lemma_missing_stable(exp: Seq<(Seq<char>, Decl)>, act: Seq<(Seq<char>, Json)>, n: nat, m: nat)
    requires
        n <= m <= exp.len(),
        first_missing(exp, act, n) is Some,
    ensures
        first_missing(exp, act, m) == first_missing(exp, act, n),
    decreases m - n,
{
    if n < m {
        lemma_missing_stable(exp, act, n, (m - 1) as nat);
    }
}

proof fn lemma_extra_stable(act: Seq<(Seq<char>, Json)>, exp: Seq<(Seq<char>, Decl)>, n: nat, m: nat)
    requires
        n <= m <= act.len(),
        first_extra(act, exp, n) is Some,
    ensures
        first_extra(act, exp, m) == first_extra(act, exp, n),
    decreases m - n,
{
    if n < m {
        lemma_extra_stable(act, exp, n, (m - 1) as nat);
    }
}

proof fn lemma_members_stable(exp: Seq<(Seq<char>, Decl)>, act: Seq<(Seq<char>, Json)>, path: Seq<char>, n: nat, m: nat)
    requires
        n <= m <= exp.len(),
        validate_members(exp, act, path, n) is Some,
    ensures
        validate_members(exp, act, path, m) == validate_members(exp, act, path, n),
    decreases m - n,
{
    if n < m {
        lemma_members_stable(exp, act, path, n, (m - 1) as nat);
    }
}


/// The text without white space at either end (see `trim`).
pub fn trim_chars(c: &Vec<char>) -> (r: Vec<char>)
    ensures
        r@ == trim(c@),
{
    let n = c.len();
    let mut s: usize = 0;
    while s < n && is_whitespace(c[s])
        invariant
            n == c@.len(),
            s <= n,
            skip_ws(c@, s as int) == skip_ws(c@, 0),
        decreases n - s,
    {
        s += 1;
    }
    let mut e: usize = n;
    while e > 0 && is_whitespace(c[e - 1])
        invariant
            n == c@.len(),
            e <= n,
            trim_end(c@, e as int) == trim_end(c@, n as int),
        decreases e,
    {
        e -= 1;
    }
    let mut out: Vec<char> = Vec::new();
    if s < e {
        let mut k = s;
        while k < e
            invariant
                s <= k <= e,
                e <= n,
                n == c@.len(),
                out@ == c@.subrange(s as int, k as int),
            decreases e - k,
        {
            out.push(c[k]);
            k += 1;
            proof {
                assert(out@ =~= c@.subrange(s as int, k as int));
            }
        }
    }
    proof {
        if !(s < e) {
            assert(out@ =~= Seq::<char>::empty());
        }
    }
    out
}

/// The texts held by character vectors.
pub open spec fn pieces_view(v: Seq<Vec<char>>) -> Seq<Seq<char>> {
    Seq::new(v.len(), |i: int| v[i]@)
}

/// The pieces of a text between commas (see `split_commas`).
fn split_at_commas(c: &Vec<char>) -> (r: Vec<Vec<char>>)
    ensures
        pieces_view(r@) == split_commas(c@),
{
    let mut out: Vec<Vec<char>> = Vec::new();
    out.push(Vec::new());
    proof {
        assert(c@.take(0) =~= Seq::<char>::empty());
        assert(pieces_view(out@) =~= split_commas(c@.take(0)));
    }
    let mut i: usize = 0;
    while i < c.len()
        invariant
            i <= c@.len(),
            pieces_view(out@) == split_commas(c@.take(i as int)),
            out@.len() >= 1,
        decreases c.len() - i,
    {
        let ghost before = pieces_view(out@);
        proof {
            assert(c@.take(i + 1).drop_last() =~= c@.take(i as int));
            assert(c@.take(i + 1).last() == c@[i as int]);
        }
        if c[i] == ',' {
            out.push(Vec::new());
            proof {
                assert(pieces_view(out@) =~= before.push(seq![]));
            }
        } else {
            let mut cur = out.pop().unwrap();
            let ghost popped = cur@;
            cur.push(c[i]);
            out.push(cur);
            proof {
                assert(popped == before.last());
                assert(pieces_view(out@) =~= before.update(before.len() - 1, before.last().push(c@[i as int])));
            }
        }
        i += 1;
    }
    proof {
        assert(c@.take(c@.len() as int) =~= c@);
    }
    out
}

fn dollar() -> (r: Vec<char>)
    ensures
        r@ == "$"@,
{
    chars_of("$")
}

proof fn lemma_pieces_prefix(e: Decl, p: Seq<Seq<char>>, q: Seq<Seq<char>>, n: nat)
    requires
        n <= p.len(),
        n <= q.len(),
        p.take(n as int) == q.take(n as int),
    ensures
        validate_pieces(e, p, n) == validate_pieces(e, q, n),
    decreases n,
{
    if n > 0 {
        assert(p.take(n - 1) =~= p.take(n as int).take(n - 1));
        assert(q.take(n - 1) =~= q.take(n as int).take(n - 1));
        assert(p[n - 1] == p.take(n as int)[n - 1]);
        assert(q[n - 1] == q.take(n as int)[n - 1]);
        lemma_pieces_prefix(e, p, q, (n - 1) as nat);
    }
}

proof fn lemma_pieces_stable(e: Decl, pieces: Seq<Seq<char>>, n: nat, m: nat)
    requires
        n <= m <= pieces.len(),
        validate_pieces(e, pieces, n) is Some,
    ensures
        validate_pieces(e, pieces, m) == validate_pieces(e, pieces, n),
    decreases m - n,
{
    if n < m {
        lemma_pieces_stable(e, pieces, n, (m - 1) as nat);
    }
}

impl DeclaredType {
    /// Checks a trimmed text against a type (see `validate_text`).
    fn validate_text(&self, value: &Vec<char>) -> (r: Result<(), Vec<char>>)
        ensures
            match r {
                Ok(_) => validate_text(self@, value@) is None,
                Err(p) => validate_text(self@, value@) == Some(p@),
            },
    {
        let t = trim_chars(value);
        match self {
            DeclaredType::String => Ok(()),
            DeclaredType::Number => {
                let text = string_of(&t);
                match parse_json(text.as_str()) {
                    Some(JsonValue::Number(_)) => Ok(()),
                    _ => Err(dollar()),
                }
            },
            DeclaredType::Bool => {
                let fits = crate::text::chars_equal(&t, &chars_of("true")) || crate::text::chars_equal(&t, &chars_of("false"))
                    || crate::text::chars_equal(&t, &chars_of("0")) || crate::text::chars_equal(&t, &chars_of("1"));
                if fits {
                    Ok(())
                } else {
                    Err(dollar())
                }
            },
            DeclaredType::Null => {
                if crate::text::chars_equal(&t, &chars_of("null")) {
                    Ok(())
                } else {
                    Err(dollar())
                }
            },
            _ => {
                let text = string_of(&t);
                match parse_json(text.as_str()) {
                    None => Err(dollar()),
                    Some(j) => self.validate_json(&j, dollar()),
                }
            },
        }
    }

    /// Checks a cell against the declared type (see `validate_cell`); the error is the path of the
    /// first place that does not fit.
    pub fn validate_cell(&self, value: &str) -> (r: Result<(), String>)
        ensures
            match r {
                Ok(_) => validate_cell(self@, value@) is None,
                Err(p) => validate_cell(self@, value@) == Some(p@),
            },
    {
        let c = chars_of(value);
        let result = match self {
            DeclaredType::Array(e) => {
                if e.is_primitive() {
                    let json = parse_json(value);
                    let is_array = match &json {
                        Some(JsonValue::Array(_)) => true,
                        _ => false,
                    };
                    if is_array {
                        match json {
                            Some(j) => self.validate_json(&j, dollar()),
                            None => Ok(()),
                        }
                    } else {
                        let pieces = split_at_commas(&c);
                        let ghost pv = pieces_view(pieces@);
                        proof {
                            match json {
                                Some(j) => {
                                    assert(!(j is Array));
                                    assert(!(j@ is Array));
                                },
                                None => {},
                            }
                            assert(validate_cell(self@, value@) == validate_pieces(e@, pv, pv.len()));
                        }
                        let mut k: usize = 0;
                        while k < pieces.len()
                            invariant
                                pv == pieces_view(pieces@),
                                pv == split_commas(c@),
                                k <= pieces@.len(),
                                validate_cell(self@, value@) == validate_pieces(e@, pv, pv.len()),
                                validate_pieces(e@, pv, k as nat) is None,
                            decreases pieces.len() - k,
                        {
                            proof {
                                assert(pv[k as int] == pieces@[k as int]@);
                            }
                            let piece = trim_chars(&pieces[k]);
                            match (**e).validate_text(&piece) {
                                Ok(_) => {},
                                Err(_) => {
                                    let mut p = dollar();
                                    push_index(&mut p, k);
                                    proof {
                                        lemma_pieces_stable(e@, pv, (k + 1) as nat, pv.len());
                                    }
                                    return Err(string_of(&p));
                                },
                            }
                            k += 1;
                        }
                        Ok(())
                    }
                } else {
                    self.validate_text(&c)
                }
            },
            _ => self.validate_text(&c),
        };
        match result {
            Ok(_) => Ok(()),
            Err(p) => Err(string_of(&p)),
        }
    }
}

} // verus!
