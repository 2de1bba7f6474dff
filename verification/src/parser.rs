//! The line-oriented grammar: classifying physical lines into struct
//! headers, field declarations, default updates, instance bullets and
//! continuations; and the recursive value-literal grammar.
use vstd::prelude::*;
use crate::context::FieldSchema;
use crate::context::SpecContext;
use crate::context::context_model;
use crate::context::SpecFieldSchema;
use crate::context::SpecStruct;
use crate::context::TycoContext;
use crate::context::TycoStruct;
use crate::context::schemas_model;
use crate::context::spec_struct_lookup;
use crate::context::structs_model;
use crate::error::SourceSpan;
use crate::error::TycoError;
use crate::utils;
use crate::value::SpecField;
use crate::value::SpecInstance;
use crate::value::SpecStr;
use crate::value::SpecValue;
use crate::value::TycoInstance;
use crate::value::TycoString;
use crate::value::TycoValue;
use crate::value::spec_set_field;

verus! {

// ---------------------------------------------------------------------------
// Source lines
// ---------------------------------------------------------------------------
/// One physical line: its text, the file it came from (if any), and its
/// 1-based line number there.
#[derive(Debug, PartialEq)]
pub struct SourceLine {
    pub text: String,
    pub path: Option<String>,
    pub line_number: usize,
}

impl SourceLine {
    pub fn new(text: String, path: Option<String>, line_number: usize) -> (r: SourceLine)
        ensures
            r.text@ == text@,
            r.line_number == line_number,
            r.path is Some <==> path is Some,
    {
        SourceLine { text, path, line_number }
    }

    /// A span pointing at column one of this line.
    pub fn span(&self) -> (r: SourceSpan)
        ensures
            r.line == self.line_number,
            r.column == 1,
            r.line_text@ == self.text@,
    {
        SourceSpan {
            path: match &self.path {
                None => None,
                Some(p) => Some(p.clone()),
            },
            line: self.line_number,
            column: 1,
            line_text: self.text.clone(),
        }
    }

    /// A span pointing at the given column of this line.
    pub fn span_at_column(&self, column: usize) -> (r: SourceSpan)
        ensures
            r.line == self.line_number,
            r.column == column,
            r.line_text@ == self.text@,
    {
        SourceSpan {
            path: match &self.path {
                None => None,
                Some(p) => Some(p.clone()),
            },
            line: self.line_number,
            column,
            line_text: self.text.clone(),
        }
    }
}

// ---------------------------------------------------------------------------
// Character classes and scans
// ---------------------------------------------------------------------------
pub open spec fn is_ident_char(c: char) -> bool {
    let u = c as u32;
    (65 <= u && u <= 90) || (97 <= u && u <= 122) || (48 <= u && u <= 57) || c == '_'
}

pub open spec fn is_upper_alpha(c: char) -> bool {
    65 <= c as u32 && c as u32 <= 90
}

pub open spec fn is_alpha(c: char) -> bool {
    let u = c as u32;
    (65 <= u && u <= 90) || (97 <= u && u <= 122)
}

pub open spec fn is_lower_start(c: char) -> bool {
    let u = c as u32;
    (97 <= u && u <= 122) || c == '_'
}

fn is_ident_char_exec(c: char) -> (r: bool)
    ensures
        r == is_ident_char(c),
{
    let u = c as u32;
    (65 <= u && u <= 90) || (97 <= u && u <= 122) || (48 <= u && u <= 57) || c == '_'
}

/// End of the run of identifier characters starting at `i`.
pub open spec fn ident_end(s: Seq<char>, i: int) -> int
    decreases s.len() - i,
{
    if 0 <= i && i < s.len() && is_ident_char(s[i]) {
        ident_end(s, i + 1)
    } else {
        i
    }
}

/// End of the run of whitespace starting at `i`.
pub open spec fn space_end(s: Seq<char>, i: int) -> int
    decreases s.len() - i,
{
    if 0 <= i && i < s.len() && utils::is_space_char(s[i]) {
        space_end(s, i + 1)
    } else {
        i
    }
}

fn scan_ident_end(v: &Vec<char>, i: usize) -> (r: usize)
    requires
        i <= v@.len(),
    ensures
        r == ident_end(v@, i as int),
        i <= r <= v@.len(),
{
    let mut cur: usize = i;
    while cur < v.len() && is_ident_char_exec(v[cur])
        invariant
            i <= cur <= v@.len(),
            ident_end(v@, i as int) == ident_end(v@, cur as int),
        decreases v@.len() - cur,
    {
        cur = cur + 1;
    }
    cur
}

fn scan_space_end(v: &Vec<char>, i: usize) -> (r: usize)
    requires
        i <= v@.len(),
    ensures
        r == space_end(v@, i as int),
        i <= r <= v@.len(),
{
    let mut cur: usize = i;
    while cur < v.len() && utils::is_space(v[cur])
        invariant
            i <= cur <= v@.len(),
            space_end(v@, i as int) == space_end(v@, cur as int),
        decreases v@.len() - cur,
    {
        cur = cur + 1;
    }
    cur
}

/// A valid field name: an ASCII letter or underscore, then ASCII letters,
/// digits or underscores.
pub open spec fn spec_valid_field_name(s: Seq<char>) -> bool {
    s.len() > 0 && (is_alpha(s[0]) || s[0] == '_') && forall|i: int|
        1 <= i < s.len() ==> is_ident_char(s[i])
}

#[verifier::loop_isolation(false)]
pub fn is_valid_field_name(name: &str) -> (r: bool)
    ensures
        r == spec_valid_field_name(name@),
{
    let v = utils::to_char_vec(name);
    if v.len() == 0 {
        return false;
    }
    let c0 = v[0];
    let u0 = c0 as u32;
    if !((65 <= u0 && u0 <= 90) || (97 <= u0 && u0 <= 122) || c0 == '_') {
        return false;
    }
    let mut i: usize = 1;
    while i < v.len()
        invariant
            1 <= i <= v@.len(),
            forall|j: int| 1 <= j < i as int ==> is_ident_char(v@[j]),
        decreases v@.len() - i,
    {
        if !is_ident_char_exec(v[i]) {
            return false;
        }
        i = i + 1;
    }
    true
}

// ---------------------------------------------------------------------------
// Line classifiers
// ---------------------------------------------------------------------------
/// A struct header: a capitalized identifier, optional whitespace, then a
/// final `:` and nothing else. The identifier is the struct's name.
pub open spec fn spec_match_struct_def(s: Seq<char>) -> Option<Seq<char>> {
    if s.len() == 0 || !is_upper_alpha(s[0]) {
        None
    } else {
        let k = ident_end(s, 1);
        if k <= s.len() - 1 && s[s.len() - 1] == ':' && (forall|j: int|
            k <= j < s.len() - 1 ==> utils::is_space_char(s[j])) {
            Some(s.take(k))
        } else {
            None
        }
    }
}

/// Classifies a struct-header line and yields the struct name.
#[verifier::loop_isolation(false)]
pub fn match_struct_def(trimmed: &str) -> (r: Option<String>)
    ensures
        r matches Some(n) ==> spec_match_struct_def(trimmed@) == Some(n@),
        r is None ==> spec_match_struct_def(trimmed@) is None,
{
    let v = utils::to_char_vec(trimmed);
    let n = v.len();
    if n == 0 {
        return None;
    }
    let u0 = v[0] as u32;
    if !(65 <= u0 && u0 <= 90) {
        return None;
    }
    let k = scan_ident_end(&v, 1);
    if k > n - 1 {
        return None;
    }
    if v[n - 1] != ':' {
        return None;
    }
    let mut j: usize = k;
    while j < n - 1
        invariant
            k <= j <= n - 1,
            forall|q: int| k <= q < j as int ==> utils::is_space_char(v@[q]),
        decreases n - 1 - j,
    {
        if !utils::is_space(v[j]) {
            proof {
                assert(!(forall|q: int| k <= q < n - 1 ==> utils::is_space_char(v@[q])));
            }
            return None;
        }
        j = j + 1;
    }
    let mut name: Vec<char> = Vec::new();
    utils::push_subrange(&mut name, &v, 0, k);
    proof {
        assert(Seq::<char>::empty() + v@.subrange(0, k as int) =~= v@.take(k as int));
    }
    Some(utils::chars_to_string(&name))
}

/// A classified field-declaration line: optional `*`/`?` modifier, type
/// name, `[]` suffix, attribute name, and the text behind the colon.
pub struct FieldMatch {
    pub modifier: Option<char>,
    pub ty_name: Seq<char>,
    pub is_array: bool,
    pub attr_name: Seq<char>,
    pub value: Option<Seq<char>>,
}

/// A field declaration: optional whitespace, optional `*` or `?`, a type
/// identifier starting with a letter, an optional `[]`, whitespace, a
/// lowercase-or-underscore attribute identifier, optional whitespace, `:`,
/// and either nothing or whitespace followed by the default literal.
pub open spec fn spec_match_field(s: Seq<char>) -> Option<FieldMatch> {
    let i0 = space_end(s, 0);
    let has_mod = i0 < s.len() && (s[i0] == '*' || s[i0] == '?');
    let i1 = if has_mod {
        i0 + 1
    } else {
        i0
    };
    if i1 >= s.len() || !is_alpha(s[i1]) {
        None
    } else {
        let t_end = ident_end(s, i1 + 1);
        let has_arr = t_end + 2 <= s.len() && s[t_end] == '[' && s[t_end + 1] == ']';
        let i2 = if has_arr {
            t_end + 2
        } else {
            t_end
        };
        let j = space_end(s, i2);
        if j == i2 || j >= s.len() || !is_lower_start(s[j]) {
            None
        } else {
            let a_end = ident_end(s, j + 1);
            let k = space_end(s, a_end);
            if k >= s.len() || s[k] != ':' {
                None
            } else {
                let rest = if k + 1 == s.len() {
                    Option::<Seq<char>>::None
                } else {
                    let m = space_end(s, k + 1);
                    if m == k + 1 {
                        Option::<Seq<char>>::None
                    } else {
                        Some(s.skip(m))
                    }
                };
                if k + 1 < s.len() && space_end(s, k + 1) == k + 1 {
                    None
                } else {
                    Some(
                        FieldMatch {
                            modifier: if has_mod {
                                Some(s[i0])
                            } else {
                                None
                            },
                            ty_name: s.subrange(i1, t_end),
                            is_array: has_arr,
                            attr_name: s.subrange(j, a_end),
                            value: rest,
                        },
                    )
                }
            }
        }
    }
}

/// The executable form of a classified field declaration.
pub struct FieldMatchExec {
    pub modifier: Option<char>,
    pub ty_name: String,
    pub is_array: bool,
    pub attr_name: String,
    pub value: Option<String>,
}

pub open spec fn field_match_model(f: FieldMatchExec) -> FieldMatch {
    FieldMatch {
        modifier: f.modifier,
        ty_name: f.ty_name@,
        is_array: f.is_array,
        attr_name: f.attr_name@,
        value: match f.value {
            None => None,
            Some(v) => Some(v@),
        },
    }
}

/// Classifies a field-declaration line.
#[verifier::loop_isolation(false)]
pub fn match_field(line: &str) -> (r: Option<FieldMatchExec>)
    ensures
        r matches Some(f) ==> spec_match_field(line@) == Some(field_match_model(f)),
        r is None ==> spec_match_field(line@) is None,
{
    let v = utils::to_char_vec(line);
    let n = v.len();
    let i0 = scan_space_end(&v, 0);
    let has_mod = i0 < n && (v[i0] == '*' || v[i0] == '?');
    let i1 = if has_mod {
        i0 + 1
    } else {
        i0
    };
    if i1 >= n {
        return None;
    }
    let u1 = v[i1] as u32;
    if !((65 <= u1 && u1 <= 90) || (97 <= u1 && u1 <= 122)) {
        return None;
    }
    let t_end = scan_ident_end(&v, i1 + 1);
    let has_arr = t_end < n && t_end + 1 < n && v[t_end] == '[' && v[t_end + 1] == ']';
    let i2 = if has_arr {
        t_end + 2
    } else {
        t_end
    };
    let j = scan_space_end(&v, i2);
    if j == i2 || j >= n {
        return None;
    }
    let uj = v[j] as u32;
    if !((97 <= uj && uj <= 122) || v[j] == '_') {
        return None;
    }
    let a_end = scan_ident_end(&v, j + 1);
    let k = scan_space_end(&v, a_end);
    if k >= n || v[k] != ':' {
        return None;
    }
    let value: Option<String> = if k + 1 == n {
        None
    } else {
        let m = scan_space_end(&v, k + 1);
        if m == k + 1 {
            return None;
        }
        let mut rest: Vec<char> = Vec::new();
        utils::push_subrange(&mut rest, &v, m, n);
        proof {
            assert(Seq::<char>::empty() + v@.subrange(m as int, n as int) =~= v@.skip(m as int));
        }
        Some(utils::chars_to_string(&rest))
    };
    let mut tyv: Vec<char> = Vec::new();
    utils::push_subrange(&mut tyv, &v, i1, t_end);
    proof {
        assert(Seq::<char>::empty() + v@.subrange(i1 as int, t_end as int) =~= v@.subrange(
            i1 as int,
            t_end as int,
        ));
    }
    let mut av: Vec<char> = Vec::new();
    utils::push_subrange(&mut av, &v, j, a_end);
    proof {
        assert(Seq::<char>::empty() + v@.subrange(j as int, a_end as int) =~= v@.subrange(
            j as int,
            a_end as int,
        ));
    }
    let modifier: Option<char> = if has_mod {
        Some(v[i0])
    } else {
        None
    };
    Some(
        FieldMatchExec {
            modifier,
            ty_name: utils::chars_to_string(&tyv),
            is_array: has_arr,
            attr_name: utils::chars_to_string(&av),
            value,
        },
    )
}

/// A classified default-update line: attribute name and the text behind
/// the colon.
pub struct UpdateMatch {
    pub attr_name: Seq<char>,
    pub value: Option<Seq<char>>,
}

/// A default update: at least one leading whitespace character, a
/// lowercase-or-underscore identifier, optional whitespace, `:`, and either
/// nothing or whitespace followed by the new default literal.
pub open spec fn spec_match_update(s: Seq<char>) -> Option<UpdateMatch> {
    let i0 = space_end(s, 0);
    if i0 == 0 || i0 >= s.len() || !is_lower_start(s[i0]) {
        None
    } else {
        let a_end = ident_end(s, i0 + 1);
        let k = space_end(s, a_end);
        if k >= s.len() || s[k] != ':' {
            None
        } else {
            if k + 1 < s.len() && space_end(s, k + 1) == k + 1 {
                None
            } else {
                Some(
                    UpdateMatch {
                        attr_name: s.subrange(i0, a_end),
                        value: if k + 1 == s.len() {
                            None
                        } else {
                            Some(s.skip(space_end(s, k + 1)))
                        },
                    },
                )
            }
        }
    }
}

pub struct UpdateMatchExec {
    pub attr_name: String,
    pub value: Option<String>,
}

pub open spec fn update_match_model(f: UpdateMatchExec) -> UpdateMatch {
    UpdateMatch {
        attr_name: f.attr_name@,
        value: match f.value {
            None => None,
            Some(v) => Some(v@),
        },
    }
}

/// Classifies a default-update line.
#[verifier::loop_isolation(false)]
pub fn match_update(line: &str) -> (r: Option<UpdateMatchExec>)
    ensures
        r matches Some(f) ==> spec_match_update(line@) == Some(update_match_model(f)),
        r is None ==> spec_match_update(line@) is None,
{
    let v = utils::to_char_vec(line);
    let n = v.len();
    let i0 = scan_space_end(&v, 0);
    if i0 == 0 || i0 >= n {
        return None;
    }
    let u0 = v[i0] as u32;
    if !((97 <= u0 && u0 <= 122) || v[i0] == '_') {
        return None;
    }
    let a_end = scan_ident_end(&v, i0 + 1);
    let k = scan_space_end(&v, a_end);
    if k >= n || v[k] != ':' {
        return None;
    }
    let value: Option<String> = if k + 1 == n {
        None
    } else {
        let m = scan_space_end(&v, k + 1);
        if m == k + 1 {
            return None;
        }
        let mut rest: Vec<char> = Vec::new();
        utils::push_subrange(&mut rest, &v, m, n);
        proof {
            assert(Seq::<char>::empty() + v@.subrange(m as int, n as int) =~= v@.skip(m as int));
        }
        Some(utils::chars_to_string(&rest))
    };
    let mut av: Vec<char> = Vec::new();
    utils::push_subrange(&mut av, &v, i0, a_end);
    proof {
        assert(Seq::<char>::empty() + v@.subrange(i0 as int, a_end as int) =~= v@.subrange(
            i0 as int,
            a_end as int,
        ));
    }
    Some(UpdateMatchExec { attr_name: utils::chars_to_string(&av), value })
}

// ---------------------------------------------------------------------------
// String literals
// ---------------------------------------------------------------------------
/// What a string literal parses to: triple-double-quoted text is
/// escape-processed with one leading newline stripped and marked
/// template-eligible when it holds both braces; triple-single-quoted text
/// is raw and literal; the single-quote forms likewise; a bare token is
/// template-eligible plain text. `None` is a failed escape.
pub open spec fn spec_parse_string(tok: Seq<char>) -> Option<SpecStr> {
    let dq3 = seq!['"', '"', '"'];
    let sq3 = seq!['\'', '\'', '\''];
    if tok.len() >= 3 && tok.take(3) == dq3 && utils::find_sub_from(tok, dq3, 3) is Some {
        let e = utils::find_sub_from(tok, dq3, 3).unwrap();
        let content0 = utils::spec_strip_leading_newline(tok.subrange(3, e));
        match utils::spec_unescape(content0) {
            None => None,
            Some(content) => Some(
                SpecStr {
                    text: content,
                    has_template: content.contains('{') && content.contains('}'),
                    is_literal: false,
                },
            ),
        }
    } else if tok.len() >= 3 && tok.take(3) == sq3 && utils::find_sub_from(tok, sq3, 3) is Some {
        let e = utils::find_sub_from(tok, sq3, 3).unwrap();
        Some(SpecStr { text: tok.subrange(3, e), has_template: false, is_literal: true })
    } else if tok.len() >= 2 && tok[0] == '"' && tok[tok.len() - 1] == '"' {
        match utils::spec_unescape(tok.subrange(1, tok.len() - 1)) {
            None => None,
            Some(content) => Some(
                SpecStr {
                    text: content,
                    has_template: content.contains('{') && content.contains('}'),
                    is_literal: false,
                },
            ),
        }
    } else if tok.len() >= 2 && tok[0] == '\'' && tok[tok.len() - 1] == '\'' {
        Some(SpecStr { text: tok.subrange(1, tok.len() - 1), has_template: false, is_literal: true })
    } else {
        Some(
            SpecStr {
                text: tok,
                has_template: tok.contains('{') && tok.contains('}'),
                is_literal: false,
            },
        )
    }
}

fn contains_char(v: &Vec<char>, c: char) -> (r: bool)
    ensures
        r == v@.contains(c),
{
    let mut i: usize = 0;
    while i < v.len()
        invariant
            i <= v@.len(),
            forall|j: int| 0 <= j < i as int ==> v@[j] != c,
        decreases v@.len() - i,
    {
        if v[i] == c {
            return true;
        }
        i = i + 1;
    }
    proof {
        assert(!v@.contains(c));
    }
    false
}

/// Parses one of the four quoted string forms, or a bare token.
#[verifier::loop_isolation(false)]
pub fn parse_string_value(token: &str) -> (r: Result<TycoString, TycoError>)
    ensures
        r matches Ok(s) ==> spec_parse_string(token@) == Some(crate::value::str_model(s)),
        r is Err <==> spec_parse_string(token@) is None,
        r matches Err(e) ==> e is Parse,
{
    let v = utils::to_char_vec(token);
    let n = v.len();
    let mut d3: Vec<char> = Vec::new();
    d3.push('"');
    d3.push('"');
    d3.push('"');
    let mut s3: Vec<char> = Vec::new();
    s3.push('\'');
    s3.push('\'');
    s3.push('\'');
    proof {
        assert(d3@ =~= seq!['"', '"', '"']);
        assert(s3@ =~= seq!['\'', '\'', '\'']);
    }
    let starts_d3 = n >= 3 && v[0] == '"' && v[1] == '"' && v[2] == '"';
    let starts_s3 = n >= 3 && v[0] == '\'' && v[1] == '\'' && v[2] == '\'';
    proof {
        if n >= 3 {
            assert(starts_d3 == (v@.take(3) =~= d3@));
            assert(starts_s3 == (v@.take(3) =~= s3@));
            if starts_d3 {
                assert(v@.take(3) == d3@);
            }
            if starts_s3 {
                assert(v@.take(3) == s3@);
            }
            if !starts_d3 {
                assert(v@.take(3) != d3@) by {
                    if v@.take(3) == d3@ {
                        assert(v@[0] == '"' && v@[1] == '"' && v@[2] == '"');
                    }
                }
            }
            if !starts_s3 {
                assert(v@.take(3) != s3@) by {
                    if v@.take(3) == s3@ {
                        assert(v@[0] == '\'' && v@[1] == '\'' && v@[2] == '\'');
                    }
                }
            }
        }
    }
    if starts_d3 {
        match utils::find_sub(&v, &d3, 3) {
            Some(e) => {
                proof {
                    utils::lemma_find_sub_occurs(v@, d3@, 3);
                }
                let mut rawv: Vec<char> = Vec::new();
                utils::push_subrange(&mut rawv, &v, 3, e);
                proof {
                    assert(Seq::<char>::empty() + v@.subrange(3, e as int) =~= v@.subrange(
                        3,
                        e as int,
                    ));
                }
                let raw = utils::chars_to_string(&rawv);
                let content0 = utils::strip_leading_newline(raw.as_str());
                match utils::unescape_basic_string(content0.as_str()) {
                    Err(e2) => {
                        return Err(e2);
                    },
                    Ok(content) => {
                        let cv = utils::to_char_vec(content.as_str());
                        let ht = contains_char(&cv, '{') && contains_char(&cv, '}');
                        return Ok(TycoString::new(content, ht, false));
                    },
                }
            },
            None => {},
        }
    }
    if starts_s3 {
        match utils::find_sub(&v, &s3, 3) {
            Some(e) => {
                proof {
                    utils::lemma_find_sub_occurs(v@, s3@, 3);
                }
                let mut rawv: Vec<char> = Vec::new();
                utils::push_subrange(&mut rawv, &v, 3, e);
                proof {
                    assert(Seq::<char>::empty() + v@.subrange(3, e as int) =~= v@.subrange(
                        3,
                        e as int,
                    ));
                }
                let raw = utils::chars_to_string(&rawv);
                return Ok(TycoString::new(raw, false, true));
            },
            None => {},
        }
    }
    if n >= 2 && v[0] == '"' && v[n - 1] == '"' {
        let mut innerv: Vec<char> = Vec::new();
        utils::push_subrange(&mut innerv, &v, 1, n - 1);
        proof {
            assert(Seq::<char>::empty() + v@.subrange(1, n - 1) =~= v@.subrange(1, n - 1));
        }
        let inner = utils::chars_to_string(&innerv);
        match utils::unescape_basic_string(inner.as_str()) {
            Err(e2) => {
                return Err(e2);
            },
            Ok(content) => {
                let cv = utils::to_char_vec(content.as_str());
                let ht = contains_char(&cv, '{') && contains_char(&cv, '}');
                return Ok(TycoString::new(content, ht, false));
            },
        }
    }
    if n >= 2 && v[0] == '\'' && v[n - 1] == '\'' {
        let mut innerv: Vec<char> = Vec::new();
        utils::push_subrange(&mut innerv, &v, 1, n - 1);
        proof {
            assert(Seq::<char>::empty() + v@.subrange(1, n - 1) =~= v@.subrange(1, n - 1));
        }
        let inner = utils::chars_to_string(&innerv);
        return Ok(TycoString::new(inner, false, true));
    }
    let ht = contains_char(&v, '{') && contains_char(&v, '}');
    Ok(TycoString::new(String::from_str(token), ht, false))
}

// ---------------------------------------------------------------------------
// Named arguments
// ---------------------------------------------------------------------------
/// Scans for the first top-level, unquoted `:` that splits the token into a
/// valid field name and a nonempty value; a colon that fails those tests is
/// skipped and the scan continues.
pub open spec fn sna_scan(s: Seq<char>, i: int, depth: int, in_q: bool, qc: char) -> Option<
    (Seq<char>, Seq<char>),
>
    decreases s.len() - i + 1,
{
    if i >= s.len() || i < 0 {
        None
    } else {
        let c = s[i];
        if in_q {
            if c == qc {
                sna_scan(s, i + 1, depth, false, qc)
            } else if c == '\\' {
                if i + 2 <= s.len() {
                    sna_scan(s, i + 2, depth, true, qc)
                } else {
                    None
                }
            } else {
                sna_scan(s, i + 1, depth, true, qc)
            }
        } else if c == '"' || c == '\'' {
            sna_scan(s, i + 1, depth, true, c)
        } else if c == '(' || c == '[' || c == '{' {
            sna_scan(s, i + 1, depth + 1, false, qc)
        } else if c == ')' || c == ']' || c == '}' {
            sna_scan(s, i + 1, depth - 1, false, qc)
        } else if c == ':' && depth == 0 {
            let name = utils::spec_trim(s.take(i));
            let value = utils::spec_trim(s.skip(i + 1));
            if spec_valid_field_name(name) && value.len() > 0 {
                Some((name, value))
            } else {
                sna_scan(s, i + 1, depth, false, qc)
            }
        } else {
            sna_scan(s, i + 1, depth, false, qc)
        }
    }
}

pub open spec fn spec_sna(part: Seq<char>) -> Option<(Seq<char>, Seq<char>)> {
    sna_scan(part, 0, 0, false, '\0')
}

/// Splits a `name: value` argument at its first top-level colon; `None` for
/// a positional argument.
#[verifier::loop_isolation(false)]
pub fn split_named_argument(part: &str) -> (r: Option<(String, String)>)
    ensures
        r matches Some(p) ==> spec_sna(part@) == Some((p.0@, p.1@)),
        r is None ==> spec_sna(part@) is None,
{
    let v = utils::to_char_vec(part);
    let n = v.len();
    let mut i: usize = 0;
    let mut depth: i128 = 0;
    let mut in_q: bool = false;
    let mut qc: char = '\0';
    while i < n
        invariant
            i <= n,
            -(i as int) - 1 <= depth <= i as int,
            spec_sna(part@) == sna_scan(v@, i as int, depth as int, in_q, qc),
        decreases n - i,
    {
        let c = v[i];
        if in_q {
            if c == qc {
                in_q = false;
                i = i + 1;
            } else if c == '\\' {
                if n - i >= 2 {
                    i = i + 2;
                } else {
                    return None;
                }
            } else {
                i = i + 1;
            }
        } else if c == '"' || c == '\'' {
            in_q = true;
            qc = c;
            i = i + 1;
        } else if c == '(' || c == '[' || c == '{' {
            depth = depth + 1;
            i = i + 1;
        } else if c == ')' || c == ']' || c == '}' {
            depth = depth - 1;
            i = i + 1;
        } else if c == ':' && depth == 0 {
            let mut namev: Vec<char> = Vec::new();
            utils::push_subrange(&mut namev, &v, 0, i);
            proof {
                assert(Seq::<char>::empty() + v@.subrange(0, i as int) =~= v@.take(i as int));
            }
            let namet = utils::trim_char_vec(&namev);
            let mut valv: Vec<char> = Vec::new();
            utils::push_subrange(&mut valv, &v, i + 1, n);
            proof {
                assert(Seq::<char>::empty() + v@.subrange(i as int + 1, n as int) =~= v@.skip(
                    i as int + 1,
                ));
            }
            let valt = utils::trim_char_vec(&valv);
            let name = utils::chars_to_string(&namet);
            let value = utils::chars_to_string(&valt);
            if is_valid_field_name(name.as_str()) && valt.len() > 0 {
                proof {
                    assert(value@.len() > 0);
                }
                return Some((name, value));
            }
            i = i + 1;
        } else {
            i = i + 1;
        }
    }
    None
}

// ---------------------------------------------------------------------------
// The value-literal grammar
// ---------------------------------------------------------------------------
/// `null` in any letter case.
pub open spec fn is_null_lit(t: Seq<char>) -> bool {
    t.len() == 4 && (t[0] == 'n' || t[0] == 'N') && (t[1] == 'u' || t[1] == 'U') && (t[2] == 'l'
        || t[2] == 'L') && (t[3] == 'l' || t[3] == 'L')
}

/// The type a field's literal is parsed against: the base type name plus
/// `[]` for array fields.
pub open spec fn spec_ty_descriptor(base: Seq<char>, is_array: bool) -> Seq<char> {
    if is_array {
        base + seq!['[', ']']
    } else {
        base
    }
}

pub fn field_type_descriptor(base: &str, is_array: bool) -> (r: String)
    ensures
        r@ == spec_ty_descriptor(base@, is_array),
{
    let mut out = String::new();
    out.append(base);
    if is_array {
        out.push('[');
        out.push(']');
        proof {
            assert(out@ =~= base@ + seq!['[', ']']);
        }
    }
    out
}

/// A struct-call literal `Identifier(args)`: the identifier and the text
/// between the outer parentheses.
pub open spec fn spec_struct_call(t: Seq<char>) -> Option<(Seq<char>, Seq<char>)> {
    if t.len() < 3 || !is_alpha(t[0]) {
        None
    } else {
        let k = ident_end(t, 1);
        if k < t.len() - 1 && t[k] == '(' && t[t.len() - 1] == ')' {
            Some((t.take(k), t.subrange(k + 1, t.len() - 1)))
        } else {
            None
        }
    }
}

/// Folds the arguments of an inline instance: `name: value` binds the
/// name, a bare value binds the next `_argN` placeholder; a positional
/// argument after a named one, or a failed string literal, is an error.
pub open spec fn spec_inline_fold(
    parts: Seq<Seq<char>>,
    fields: Seq<SpecField>,
    pos: nat,
    used_named: bool,
) -> Option<Seq<SpecField>>
    decreases parts.len(),
{
    if parts.len() == 0 {
        Some(fields)
    } else {
        match spec_sna(parts[0]) {
            Some(nv) => match spec_parse_string(nv.1) {
                None => None,
                Some(sv) => spec_inline_fold(
                    parts.skip(1),
                    spec_set_field(fields, nv.0, SpecValue::Str(sv)),
                    pos,
                    true,
                ),
            },
            None => if used_named {
                None
            } else {
                match spec_parse_string(parts[0]) {
                    None => None,
                    Some(sv) => spec_inline_fold(
                        parts.skip(1),
                        spec_set_field(
                            fields,
                            "_arg"@ + utils::spec_u64_text(pos),
                            SpecValue::Str(sv),
                        ),
                        pos + 1,
                        used_named,
                    ),
                }
            },
        }
    }
}

/// What a literal token parses to against a declared type, over the
/// declared structs: `null` always; `bool`/`int`/`float` literals; `date`,
/// `time` and `datetime` as normalized text; the string forms; bracketed
/// arrays element-wise against the base type; and `Identifier(args)` as a
/// reference (primary-keyed or unknown struct) or an inline instance.
/// `None` is a parse error.
pub open spec fn spec_parse_value(token: Seq<char>, ty: Seq<char>, structs: Seq<SpecStruct>) -> Option<
    SpecValue,
>
    decreases token.len(), 1int, 0int,
        via spec_parse_value_dec
{
    let t = utils::spec_trim(token);
    if is_null_lit(t) {
        Some(SpecValue::Null)
    } else if ty == "bool"@ {
        if t == "true"@ {
            Some(SpecValue::Bool(true))
        } else if t == "false"@ {
            Some(SpecValue::Bool(false))
        } else {
            None
        }
    } else if ty == "int"@ {
        match utils::spec_parse_integer(t) {
            Some(v) => if -(i64::MAX as int) <= v && v <= i64::MAX as int {
                Some(SpecValue::Int(v))
            } else {
                None
            },
            None => None,
        }
    } else if ty == "float"@ {
        match utils::float_normal_text(t) {
            Some(ft) => Some(SpecValue::Float(ft)),
            None => None,
        }
    } else if ty == "date"@ {
        match spec_parse_string(t) {
            Some(s) => Some(SpecValue::Date(s.text)),
            None => None,
        }
    } else if ty == "time"@ {
        match spec_parse_string(t) {
            Some(s) => Some(SpecValue::Time(utils::spec_normalize_time(s.text))),
            None => None,
        }
    } else if ty == "datetime"@ {
        match spec_parse_string(t) {
            Some(s) => Some(SpecValue::DateTime(utils::spec_normalize_datetime(s.text))),
            None => None,
        }
    } else if ty == "str"@ {
        match spec_parse_string(t) {
            Some(s) => Some(SpecValue::Str(s)),
            None => None,
        }
    } else if ty.len() >= 2 && ty[ty.len() - 2] == '[' && ty[ty.len() - 1] == ']' {
        let base = ty.take(ty.len() - 2);
        if t == "[]"@ {
            Some(SpecValue::Array(Seq::empty()))
        } else if !(t.len() >= 2 && t[0] == '[' && t[t.len() - 1] == ']') {
            None
        } else {
            let inner = t.subrange(1, t.len() - 1);
            let parts = utils::spec_split_top(inner, ',');
            match spec_parse_elems(parts, base, structs, (inner.len() + 1) as nat) {
                None => None,
                Some(vs) => Some(SpecValue::Array(vs)),
            }
        }
    } else {
        spec_parse_struct_call(t, structs)
    }
}

/// Array elements, parsed in order against the base type; parts that
/// trimmed to nothing are skipped.
pub open spec fn spec_parse_elems(
    parts: Seq<Seq<char>>,
    base: Seq<char>,
    structs: Seq<SpecStruct>,
    bound: nat,
) -> Option<Seq<SpecValue>>
    decreases bound, 0int, parts.len(),
{
    if parts.len() == 0 {
        Some(Seq::empty())
    } else {
        let p = parts[0];
        if p.len() == 0 {
            spec_parse_elems(parts.skip(1), base, structs, bound)
        } else if p.len() >= bound {
            None
        } else {
            match spec_parse_value(p, base, structs) {
                None => None,
                Some(v) => match spec_parse_elems(parts.skip(1), base, structs, bound) {
                    None => None,
                    Some(rest) => Some(seq![v] + rest),
                },
            }
        }
    }
}

#[via_fn]
proof fn spec_parse_value_dec(token: Seq<char>, ty: Seq<char>, structs: Seq<SpecStruct>) {
    utils::lemma_trim_len(token);
}

/// A struct-call literal resolves to a reference when the named struct has
/// a primary key or was never declared, and to an inline instance when it
/// was declared without one.
pub open spec fn spec_parse_struct_call(t: Seq<char>, structs: Seq<SpecStruct>) -> Option<
    SpecValue,
> {
    match spec_struct_call(t) {
        None => None,
        Some(na) => {
            let name = na.0;
            let args = na.1;
            match spec_struct_lookup(structs, name) {
                Some(sd) => if sd.primary_key_field is Some {
                    match spec_parse_string(utils::spec_trim(args)) {
                        None => None,
                        Some(s) => Some(
                            SpecValue::Reference(
                                crate::value::SpecReference {
                                    struct_name: name,
                                    primary_key: s.text,
                                    resolved: None,
                                },
                            ),
                        ),
                    }
                } else {
                    match spec_inline_fold(
                        utils::spec_split_top(args, ','),
                        Seq::empty(),
                        0,
                        false,
                    ) {
                        None => None,
                        Some(fs) => Some(
                            SpecValue::Instance(SpecInstance { struct_name: name, fields: fs }),
                        ),
                    }
                },
                None => match spec_parse_string(utils::spec_trim(args)) {
                    None => None,
                    Some(s) => Some(
                        SpecValue::Reference(
                            crate::value::SpecReference {
                                struct_name: name,
                                primary_key: s.text,
                                resolved: None,
                            },
                        ),
                    ),
                },
            }
        },
    }
}

/// Parses an inline instance's arguments into synthetic or named fields.
#[verifier::loop_isolation(false)]
pub fn parse_inline_instance(struct_name: &str, args_str: &str) -> (r: Result<
    TycoInstance,
    TycoError,
>)
    ensures
        r matches Ok(inst) ==> (spec_inline_fold(
            utils::spec_split_top(args_str@, ','),
            Seq::empty(),
            0,
            false,
        ) matches Some(fs) && crate::value::instance_model(inst) == (SpecInstance {
            struct_name: struct_name@,
            fields: fs,
        })),
        r is Err <==> spec_inline_fold(
            utils::spec_split_top(args_str@, ','),
            Seq::empty(),
            0,
            false,
        ) is None,
        r matches Err(e) ==> e is Parse,
{
    let parts = utils::split_top_level(args_str, ',');
    let ghost pv = utils::views_of(parts@);
    let mut instance = TycoInstance::new(struct_name);
    let mut position: u64 = 0;
    let mut used_named: bool = false;
    let mut k: usize = 0;
    proof {
        assert(pv.skip(0) =~= pv);
    }
    while k < parts.len()
        invariant
            k <= parts@.len(),
            pv == utils::views_of(parts@),
            pv.len() == parts@.len(),
            forall|j: int| 0 <= j < parts@.len() ==> pv[j] == parts@[j]@,
            instance.struct_name@ == struct_name@,
            position <= k,
            spec_inline_fold(pv, Seq::empty(), 0, false) == spec_inline_fold(
                pv.skip(k as int),
                crate::value::fields_model(instance.fields@),
                position as nat,
                used_named,
            ),
        decreases parts@.len() - k,
    {
        proof {
            assert(pv.skip(k as int)[0] == pv[k as int]);
            assert(pv.skip(k as int).skip(1) =~= pv.skip(k as int + 1));
        }
        let part = &parts[k];
        match split_named_argument(part.as_str()) {
            Some(nv) => {
                match parse_string_value(nv.1.as_str()) {
                    Err(e) => {
                        return Err(e);
                    },
                    Ok(sv) => {
                        instance.set_attribute(nv.0, TycoValue::Str(sv));
                        used_named = true;
                    },
                }
            },
            None => {
                if used_named {
                    let mut m = String::new();
                    m.append("Positional arguments cannot follow named arguments");
                    return Err(TycoError::parse(m));
                }
                match parse_string_value(part.as_str()) {
                    Err(e) => {
                        return Err(e);
                    },
                    Ok(sv) => {
                        let mut ph = String::new();
                        ph.append("_arg");
                        let pt = utils::u64_text(position);
                        ph.append(pt.as_str());
                        proof {
                            assert(ph@ == "_arg"@ + utils::spec_u64_text(position as nat));
                        }
                        instance.set_attribute(ph, TycoValue::Str(sv));
                        position = position + 1;
                    },
                }
            },
        }
        k = k + 1;
    }
    proof {
        assert(pv.skip(parts@.len() as int).len() == 0);
    }
    Ok(instance)
}

/// Parses `Identifier(args)` into a reference or an inline instance.
#[verifier::loop_isolation(false)]
pub fn parse_struct_call(token: &str, ty_name: &str, context: &TycoContext, span: &SourceSpan) -> (r:
    Result<TycoValue, TycoError>)
    ensures
        r matches Ok(v) ==> spec_parse_struct_call(token@, structs_model(context.structs@))
            == Some(crate::value::value_model(v)),
        r is Err <==> spec_parse_struct_call(token@, structs_model(context.structs@)) is None,
        r matches Err(e) ==> e is Parse,
{
    let v = utils::to_char_vec(token);
    let n = v.len();
    let matched: Option<(String, String)> = if n < 3 {
        None
    } else {
        let u0 = v[0] as u32;
        if !((65 <= u0 && u0 <= 90) || (97 <= u0 && u0 <= 122)) {
            None
        } else {
            let k = scan_ident_end(&v, 1);
            if k < n - 1 && v[k] == '(' && v[n - 1] == ')' {
                let mut namev: Vec<char> = Vec::new();
                utils::push_subrange(&mut namev, &v, 0, k);
                let mut argsv: Vec<char> = Vec::new();
                utils::push_subrange(&mut argsv, &v, k + 1, n - 1);
                proof {
                    assert(Seq::<char>::empty() + v@.subrange(0, k as int) =~= v@.take(k as int));
                    assert(Seq::<char>::empty() + v@.subrange(k as int + 1, n - 1) =~= v@.subrange(
                        k as int + 1,
                        n - 1,
                    ));
                }
                Some((utils::chars_to_string(&namev), utils::chars_to_string(&argsv)))
            } else {
                None
            }
        }
    };
    match matched {
        None => {
            let mut m = String::new();
            m.append("Cannot parse value '");
            m.append(token);
            m.append("' as type '");
            m.append(ty_name);
            m.append("'");
            Err(TycoError::parse_with_span(m, span.clone()))
        },
        Some(na) => {
            let (name, args) = na;
            let has_pk: Option<bool> = match context.get_struct(name.as_str()) {
                Some(def) => Some(def.has_primary_key()),
                None => None,
            };
            match has_pk {
                Some(true) | None => {
                    let av = utils::to_char_vec(args.as_str());
                    let at = utils::trim_char_vec(&av);
                    let ats = utils::chars_to_string(&at);
                    match parse_string_value(ats.as_str()) {
                        Err(e) => Err(e),
                        Ok(s) => Ok(
                            TycoValue::Reference(
                                crate::value::TycoReference::new(name, s.value),
                            ),
                        ),
                    }
                },
                Some(false) => {
                    match parse_inline_instance(name.as_str(), args.as_str()) {
                        Err(e) => Err(e),
                        Ok(inst) => Ok(TycoValue::Instance(inst)),
                    }
                },
            }
        },
    }
}

/// Parses a literal token against a declared type name, over the declared
/// structs; `"null"` (any case) is valid for every type.
#[verifier::loop_isolation(false)]
#[verifier::rlimit(100)]
pub fn parse_value(token: &str, ty_name: &str, context: &TycoContext, span: &SourceSpan) -> (r:
    Result<TycoValue, TycoError>)
    ensures
        r matches Ok(v) ==> spec_parse_value(token@, ty_name@, structs_model(context.structs@))
            == Some(crate::value::value_model(v)),
        r is Err <==> spec_parse_value(token@, ty_name@, structs_model(context.structs@)) is None,
        r matches Err(e) ==> e is Parse,
    decreases token@.len(),
{
    let ghost sm = structs_model(context.structs@);
    let tv = utils::to_char_vec(token);
    let tvec = utils::trim_char_vec(&tv);
    let tn = tvec.len();
    let trimmed = utils::chars_to_string(&tvec);
    let nullish = tn == 4 && (tvec[0] == 'n' || tvec[0] == 'N') && (tvec[1] == 'u' || tvec[1]
        == 'U') && (tvec[2] == 'l' || tvec[2] == 'L') && (tvec[3] == 'l' || tvec[3] == 'L');
    if nullish {
        return Ok(TycoValue::Null);
    }
    if utils::str_eq(ty_name, "bool") {
        if utils::str_eq(trimmed.as_str(), "true") {
            return Ok(TycoValue::Bool(true));
        }
        if utils::str_eq(trimmed.as_str(), "false") {
            return Ok(TycoValue::Bool(false));
        }
        let mut m = String::new();
        m.append("Invalid bool literal '");
        m.append(trimmed.as_str());
        m.append("'");
        return Err(TycoError::parse_with_span(m, span.clone()));
    }
    if utils::str_eq(ty_name, "int") {
        match utils::parse_integer(trimmed.as_str()) {
            Ok(v) => {
                return Ok(TycoValue::Int(v));
            },
            Err(e) => {
                return Err(e.with_span(span.clone()));
            },
        }
    }
    if utils::str_eq(ty_name, "float") {
        match utils::float_text(trimmed.as_str()) {
            Some(ft) => {
                return Ok(TycoValue::Float(ft));
            },
            None => {
                let mut m = String::new();
                m.append("Invalid float literal '");
                m.append(trimmed.as_str());
                m.append("'");
                return Err(TycoError::parse_with_span(m, span.clone()));
            },
        }
    }
    if utils::str_eq(ty_name, "date") {
        match parse_string_value(trimmed.as_str()) {
            Err(e) => {
                return Err(e);
            },
            Ok(s) => {
                return Ok(TycoValue::Date(s.value));
            },
        }
    }
    if utils::str_eq(ty_name, "time") {
        match parse_string_value(trimmed.as_str()) {
            Err(e) => {
                return Err(e);
            },
            Ok(s) => {
                return Ok(TycoValue::Time(utils::normalize_time(s.value.as_str())));
            },
        }
    }
    if utils::str_eq(ty_name, "datetime") {
        match parse_string_value(trimmed.as_str()) {
            Err(e) => {
                return Err(e);
            },
            Ok(s) => {
                return Ok(TycoValue::DateTime(utils::normalize_datetime(s.value.as_str())));
            },
        }
    }
    if utils::str_eq(ty_name, "str") {
        match parse_string_value(trimmed.as_str()) {
            Err(e) => {
                return Err(e);
            },
            Ok(s) => {
                return Ok(TycoValue::Str(s));
            },
        }
    }
    let yv = utils::to_char_vec(ty_name);
    let yn = yv.len();
    if yn >= 2 && yv[yn - 2] == '[' && yv[yn - 1] == ']' {
        let mut basev: Vec<char> = Vec::new();
        utils::push_subrange(&mut basev, &yv, 0, yn - 2);
        proof {
            assert(Seq::<char>::empty() + yv@.subrange(0, yn - 2) =~= yv@.take(yn - 2));
        }
        let base = utils::chars_to_string(&basev);
        if tn == 2 && tvec[0] == '[' && tvec[1] == ']' {
            proof {
                assert(trimmed@ =~= "[]"@) by {
                    reveal_strlit("[]");
                }
                assert(crate::value::values_model(Seq::<TycoValue>::empty()) =~= Seq::<
                    SpecValue,
                >::empty());
            }
            return Ok(TycoValue::Array(Vec::new()));
        }
        proof {
            reveal_strlit("[]");
            assert(trimmed@ != "[]"@);
        }
        if !(tn >= 2 && tvec[0] == '[' && tvec[tn - 1] == ']') {
            let mut m = String::new();
            m.append("Array literal must be wrapped in []: ");
            m.append(trimmed.as_str());
            return Err(TycoError::parse_with_span(m, span.clone()));
        }
        let mut innerv: Vec<char> = Vec::new();
        utils::push_subrange(&mut innerv, &tvec, 1, tn - 1);
        proof {
            assert(Seq::<char>::empty() + tvec@.subrange(1, tn - 1) =~= tvec@.subrange(1, tn - 1));
        }
        let inner = utils::chars_to_string(&innerv);
        let ghost innerm = trimmed@.subrange(1, tn - 1);
        let parts = utils::split_top_level(inner.as_str(), ',');
        let ghost pv = utils::views_of(parts@);
        let ghost bound = (innerm.len() + 1) as nat;
        proof {
            utils::lemma_split_top_part_len(innerm, ',');
            utils::lemma_trim_len(token@);
            assert(pv.skip(0) =~= pv);
            assert(crate::value::values_model(Seq::<TycoValue>::empty()) =~= Seq::<
                SpecValue,
            >::empty());
        }
        let mut out: Vec<TycoValue> = Vec::new();
        let mut k: usize = 0;
        while k < parts.len()
            invariant
                k <= parts@.len(),
                pv == utils::views_of(parts@),
                pv.len() == parts@.len(),
                forall|j: int| 0 <= j < parts@.len() ==> pv[j] == parts@[j]@,
                forall|j: int| 0 <= j < pv.len() ==> pv[j].len() <= innerm.len(),
                base@ == ty_name@.take(yn - 2),
                (match spec_parse_elems(pv.skip(k as int), base@, sm, bound) {
                    None => Option::<Seq<SpecValue>>::None,
                    Some(rest) => Some(crate::value::values_model(out@) + rest),
                }) == spec_parse_elems(pv, base@, sm, bound),
            decreases parts@.len() - k,
        {
            proof {
                assert(pv.skip(k as int)[0] == pv[k as int]);
                assert(pv.skip(k as int).skip(1) =~= pv.skip(k as int + 1));
            }
            let ghost preout = crate::value::values_model(out@);
            let part = &parts[k];
            let pc = utils::to_char_vec(part.as_str());
            if pc.len() == 0 {
                k = k + 1;
                continue ;
            }
            proof {
                assert(pv[k as int].len() < bound);
                assert(part@.len() < token@.len());
            }
            match parse_value(part.as_str(), base.as_str(), context, span) {
                Err(e) => {
                    proof {
                        assert(spec_parse_elems(pv.skip(k as int), base@, sm, bound) is None);
                    }
                    return Err(e);
                },
                Ok(v2) => {
                    let ghost oldout = out@;
                    out.push(v2);
                    proof {
                        crate::value::lemma_values_model_push(oldout, v2);
                        assert(crate::value::values_model(out@) =~= preout + seq![
                            crate::value::value_model(v2),
                        ]);
                        match spec_parse_elems(pv.skip(k as int + 1), base@, sm, bound) {
                            None => {},
                            Some(rest) => {
                                assert((preout + seq![crate::value::value_model(v2)]) + rest
                                    =~= preout + (seq![crate::value::value_model(v2)] + rest));
                            },
                        }
                    }
                },
            }
            k = k + 1;
        }
        proof {
            assert(pv.skip(parts@.len() as int).len() == 0);
            assert(crate::value::values_model(out@) + Seq::<SpecValue>::empty()
                =~= crate::value::values_model(out@));
        }
        return Ok(TycoValue::Array(out));
    }
    parse_struct_call(trimmed.as_str(), ty_name, context, span)
}

// ---------------------------------------------------------------------------
// Instance lines
// ---------------------------------------------------------------------------
/// Folds the comma-split arguments of an instance line: `name: value` binds
/// a declared field (an undeclared name is an error), a bare value binds
/// the next schema field by position; a positional argument after a named
/// one, or more positional arguments than declared fields, is an error.
pub open spec fn spec_inst_fold(
    parts: Seq<Seq<char>>,
    inst_fields: Seq<SpecField>,
    fields: Seq<SpecFieldSchema>,
    pos: nat,
    used_named: bool,
    structs: Seq<SpecStruct>,
) -> Option<Seq<SpecField>>
    decreases parts.len(),
{
    if parts.len() == 0 {
        Some(inst_fields)
    } else {
        let p = parts[0];
        if p.len() == 0 {
            spec_inst_fold(parts.skip(1), inst_fields, fields, pos, used_named, structs)
        } else {
            match spec_sna(p) {
                Some(nv) => match crate::context::schema_index_of(fields, nv.0) {
                    None => None,
                    Some(i) => {
                        let ty = spec_ty_descriptor(fields[i].ty_name, fields[i].is_array);
                        match spec_parse_value(nv.1, ty, structs) {
                            None => None,
                            Some(v) => spec_inst_fold(
                                parts.skip(1),
                                spec_set_field(inst_fields, nv.0, v),
                                fields,
                                pos,
                                true,
                                structs,
                            ),
                        }
                    },
                },
                None => if used_named {
                    None
                } else if pos >= fields.len() {
                    None
                } else {
                    let fs = fields[pos as int];
                    let ty = spec_ty_descriptor(fs.ty_name, fs.is_array);
                    match spec_parse_value(p, ty, structs) {
                        None => None,
                        Some(v) => spec_inst_fold(
                            parts.skip(1),
                            spec_set_field(inst_fields, fs.name, v),
                            fields,
                            pos + 1,
                            used_named,
                            structs,
                        ),
                    }
                },
            }
        }
    }
}

/// Once a named argument was seen, any later nonempty positional argument
/// makes the fold fail.
pub proof fn lemma_named_blocks_positional(
    parts: Seq<Seq<char>>,
    inst_fields: Seq<SpecField>,
    fields: Seq<SpecFieldSchema>,
    pos: nat,
    structs: Seq<SpecStruct>,
    j: int,
)
    requires
        0 <= j < parts.len(),
        spec_sna(parts[j]) is None,
        parts[j].len() > 0,
    ensures
        spec_inst_fold(parts, inst_fields, fields, pos, true, structs) is None,
    decreases parts.len(),
{
    let p = parts[0];
    if j == 0 {
    } else {
        if p.len() == 0 {
            lemma_named_blocks_positional(
                parts.skip(1),
                inst_fields,
                fields,
                pos,
                structs,
                j - 1,
            );
        } else {
            match spec_sna(p) {
                Some(nv) => {
                    match crate::context::schema_index_of(fields, nv.0) {
                        None => {},
                        Some(i) => {
                            let ty = spec_ty_descriptor(fields[i].ty_name, fields[i].is_array);
                            match spec_parse_value(nv.1, ty, structs) {
                                None => {},
                                Some(v) => {
                                    lemma_named_blocks_positional(
                                        parts.skip(1),
                                        spec_set_field(inst_fields, nv.0, v),
                                        fields,
                                        pos,
                                        structs,
                                        j - 1,
                                    );
                                },
                            }
                        },
                    }
                },
                None => {},
            }
        }
    }
}

/// A positional argument that follows a named argument on one instance
/// line is a fatal parse error: no binding of the arguments exists.
pub proof fn lemma_positional_after_named(
    parts: Seq<Seq<char>>,
    inst_fields: Seq<SpecField>,
    fields: Seq<SpecFieldSchema>,
    pos: nat,
    used_named: bool,
    structs: Seq<SpecStruct>,
    i: int,
    j: int,
)
    requires
        0 <= i < j < parts.len(),
        spec_sna(parts[i]) is Some,
        spec_sna(parts[j]) is None,
        parts[j].len() > 0,
    ensures
        spec_inst_fold(parts, inst_fields, fields, pos, used_named, structs) is None,
    decreases parts.len(),
{
    let p = parts[0];
    if i == 0 {
        assert(p.len() > 0) by {
            if p.len() == 0 {
                assert(spec_sna(p) is None);
            }
        }
        match spec_sna(p) {
            Some(nv) => {
                match crate::context::schema_index_of(fields, nv.0) {
                    None => {},
                    Some(k) => {
                        let ty = spec_ty_descriptor(fields[k].ty_name, fields[k].is_array);
                        match spec_parse_value(nv.1, ty, structs) {
                            None => {},
                            Some(v) => {
                                lemma_named_blocks_positional(
                                    parts.skip(1),
                                    spec_set_field(inst_fields, nv.0, v),
                                    fields,
                                    pos,
                                    structs,
                                    j - 1,
                                );
                            },
                        }
                    },
                }
            },
            None => {},
        }
    } else {
        if p.len() == 0 {
            lemma_positional_after_named(
                parts.skip(1),
                inst_fields,
                fields,
                pos,
                used_named,
                structs,
                i - 1,
                j - 1,
            );
        } else {
            match spec_sna(p) {
                Some(nv) => {
                    match crate::context::schema_index_of(fields, nv.0) {
                        None => {},
                        Some(k) => {
                            let ty = spec_ty_descriptor(fields[k].ty_name, fields[k].is_array);
                            match spec_parse_value(nv.1, ty, structs) {
                                None => {},
                                Some(v) => {
                                    lemma_positional_after_named(
                                        parts.skip(1),
                                        spec_set_field(inst_fields, nv.0, v),
                                        fields,
                                        pos,
                                        true,
                                        structs,
                                        i - 1,
                                        j - 1,
                                    );
                                },
                            }
                        },
                    }
                },
                None => {
                    if used_named {
                    } else if pos >= fields.len() {
                    } else {
                        let fs = fields[pos as int];
                        let ty = spec_ty_descriptor(fs.ty_name, fs.is_array);
                        match spec_parse_value(p, ty, structs) {
                            None => {},
                            Some(v) => {
                                lemma_positional_after_named(
                                    parts.skip(1),
                                    spec_set_field(inst_fields, fs.name, v),
                                    fields,
                                    pos + 1,
                                    used_named,
                                    structs,
                                    i - 1,
                                    j - 1,
                                );
                            },
                        }
                    }
                },
            }
        }
    }
}

/// Parses one buffered instance line against a struct's declared fields.
#[verifier::loop_isolation(false)]
pub fn parse_instance_line(
    line: &str,
    fields: &Vec<FieldSchema>,
    struct_name: &str,
    context: &TycoContext,
) -> (r: Result<TycoInstance, TycoError>)
    ensures
        r matches Ok(inst) ==> (spec_inst_fold(
            utils::spec_split_top(line@, ','),
            Seq::empty(),
            schemas_model(fields@),
            0,
            false,
            structs_model(context.structs@),
        ) matches Some(fs) && crate::value::instance_model(inst) == (SpecInstance {
            struct_name: struct_name@,
            fields: fs,
        })),
        r is Err <==> spec_inst_fold(
            utils::spec_split_top(line@, ','),
            Seq::empty(),
            schemas_model(fields@),
            0,
            false,
            structs_model(context.structs@),
        ) is None,
        r matches Err(e) ==> e is Parse,
{
    let ghost sm = structs_model(context.structs@);
    let ghost fm = schemas_model(fields@);
    let parts = utils::split_top_level(line, ',');
    let ghost pv = utils::views_of(parts@);
    let mut instance = TycoInstance::new(struct_name);
    let mut positional_index: usize = 0;
    let mut using_named: bool = false;
    let mut k: usize = 0;
    let span = SourceSpan {
        path: None,
        line: 0,
        column: 1,
        line_text: String::from_str(line),
    };
    proof {
        crate::context::lemma_schemas_model_index(fields@);
        assert(pv.skip(0) =~= pv);
    }
    while k < parts.len()
        invariant
            k <= parts@.len(),
            pv == utils::views_of(parts@),
            pv.len() == parts@.len(),
            forall|j: int| 0 <= j < parts@.len() ==> pv[j] == parts@[j]@,
            instance.struct_name@ == struct_name@,
            positional_index <= fields@.len(),
            spec_inst_fold(pv, Seq::empty(), fm, 0, false, sm) == spec_inst_fold(
                pv.skip(k as int),
                crate::value::fields_model(instance.fields@),
                fm,
                positional_index as nat,
                using_named,
                sm,
            ),
        decreases parts@.len() - k,
    {
        proof {
            assert(pv.skip(k as int)[0] == pv[k as int]);
            assert(pv.skip(k as int).skip(1) =~= pv.skip(k as int + 1));
        }
        let part = &parts[k];
        let pc = utils::to_char_vec(part.as_str());
        if pc.len() == 0 {
            k = k + 1;
            continue ;
        }
        match split_named_argument(part.as_str()) {
            Some(nv) => {
                match crate::context::find_schema_idx(fields, nv.0.as_str()) {
                    None => {
                        let mut m = String::new();
                        m.append("Unknown field '");
                        m.append(nv.0.as_str());
                        m.append("' in ");
                        m.append(struct_name);
                        return Err(TycoError::parse_with_span(m, span));
                    },
                    Some(i) => {
                        let ty = field_type_descriptor(
                            fields[i].ty_name.as_str(),
                            fields[i].is_array,
                        );
                        match parse_value(nv.1.as_str(), ty.as_str(), context, &span) {
                            Err(e) => {
                                return Err(e);
                            },
                            Ok(v) => {
                                instance.set_attribute(nv.0, v);
                                using_named = true;
                            },
                        }
                    },
                }
            },
            None => {
                if using_named {
                    let mut m = String::new();
                    m.append("Positional arguments cannot follow named arguments");
                    return Err(TycoError::parse_with_span(m, span));
                }
                if positional_index >= fields.len() {
                    let mut m = String::new();
                    m.append("Too many positional arguments for ");
                    m.append(struct_name);
                    return Err(TycoError::parse_with_span(m, span));
                }
                let fs = &fields[positional_index];
                let ty = field_type_descriptor(fs.ty_name.as_str(), fs.is_array);
                match parse_value(part.as_str(), ty.as_str(), context, &span) {
                    Err(e) => {
                        return Err(e);
                    },
                    Ok(v) => {
                        instance.set_attribute(fs.name.clone(), v);
                        positional_index = positional_index + 1;
                    },
                }
            },
        }
        k = k + 1;
    }
    proof {
        assert(pv.skip(parts@.len() as int).len() == 0);
    }
    Ok(instance)
}

// ---------------------------------------------------------------------------
// Multi-line literals and physical lines
// ---------------------------------------------------------------------------
pub open spec fn texts_of(lines: Seq<SourceLine>) -> Seq<Seq<char>> {
    Seq::new(lines.len(), |i: int| lines[i].text@)
}

/// Joins following physical lines (newline-separated) onto a buffered
/// literal until its triple-quote delimiter closes or the input ends.
pub open spec fn spec_accumulate(
    texts: Seq<Seq<char>>,
    cursor: int,
    cur: Seq<char>,
    delim: Seq<char>,
) -> (Seq<char>, int)
    decreases texts.len() - cursor,
{
    if cursor + 1 >= texts.len() || !utils::spec_has_unclosed(cur, delim) {
        (cur, cursor)
    } else {
        let c2 = cur + seq!['\n'] + texts[cursor + 1];
        if !utils::spec_has_unclosed(c2, delim) {
            (c2, cursor + 1)
        } else {
            spec_accumulate(texts, cursor + 1, c2, delim)
        }
    }
}

/// Scans forward from `idx`, appending lines to `value_str`, until the
/// delimiter closes; returns the index of the last consumed line.
#[verifier::loop_isolation(false)]
pub fn accumulate_multiline(
    idx: usize,
    lines: &Vec<SourceLine>,
    value_str: &mut String,
    delimiter: &str,
) -> (r: usize)
    requires
        idx <= lines@.len(),
    ensures
        (final(value_str)@, r as int) == spec_accumulate(
            texts_of(lines@),
            idx as int,
            old(value_str)@,
            delimiter@,
        ),
        idx <= r <= lines@.len(),
        idx < lines@.len() ==> r < lines@.len(),
    decreases lines@.len() - idx,
{
    let ghost tx = texts_of(lines@);
    let mut cursor: usize = idx;
    let nlines = lines.len();
    while cursor < nlines && nlines - cursor > 1
        invariant
            nlines == lines@.len(),
            idx <= cursor <= lines@.len(),
            idx < lines@.len() ==> cursor < lines@.len(),
            spec_accumulate(tx, idx as int, old(value_str)@, delimiter@) == spec_accumulate(
                tx,
                cursor as int,
                value_str@,
                delimiter@,
            ),
        decreases lines@.len() - cursor,
    {
        if !utils::has_unclosed_delimiter(value_str.as_str(), delimiter) {
            return cursor;
        }
        cursor = cursor + 1;
        let ghost pre = value_str@;
        value_str.push('\n');
        value_str.append(lines[cursor].text.as_str());
        proof {
            assert(value_str@ =~= pre + seq!['\n'] + tx[cursor as int]);
        }
        if !utils::has_unclosed_delimiter(value_str.as_str(), delimiter) {
            return cursor;
        }
    }
    cursor
}

/// Strips one `\r` left before a line split.
pub open spec fn strip_cr(t: Seq<char>) -> Seq<char> {
    if t.len() > 0 && t[t.len() - 1] == '\r' {
        t.take(t.len() - 1)
    } else {
        t
    }
}

/// The physical lines of a text, split at `\n` or `\r\n`, the final line
/// ending optional.
pub open spec fn spec_split_phys_lines(s: Seq<char>) -> Seq<Seq<char>>
    decreases s.len(),
{
    if s.len() == 0 {
        Seq::empty()
    } else {
        match utils::find_char_from(s, '\n', 0) {
            None => seq![s],
            Some(i) => if 0 <= i && i < s.len() {
                seq![strip_cr(s.take(i))] + spec_split_phys_lines(s.skip(i + 1))
            } else {
                seq![s]
            },
        }
    }
}

/// Splits a document into numbered source lines.
#[verifier::loop_isolation(false)]
pub fn split_phys_lines(content: &str) -> (r: Vec<SourceLine>)
    ensures
        texts_of(r@) == spec_split_phys_lines(content@),
        forall|j: int| 0 <= j < r@.len() ==> r@[j].path is None && r@[j].line_number == j + 1,
{
    let s = utils::to_char_vec(content);
    let n = s.len();
    let mut out: Vec<SourceLine> = Vec::new();
    let mut from: usize = 0;
    proof {
        assert(s@.skip(0) =~= s@);
        assert(texts_of(out@) =~= Seq::<Seq<char>>::empty());
    }
    while from < n
        invariant
            from <= n,
            out@.len() <= from,
            texts_of(out@) + spec_split_phys_lines(s@.skip(from as int)) == spec_split_phys_lines(
                s@,
            ),
            forall|j: int|
                0 <= j < out@.len() ==> out@[j].path is None && out@[j].line_number == j + 1,
        decreases n - from,
    {
        let ghost suffix = s@.skip(from as int);
        let ghost pre = texts_of(out@);
        match utils::find_char(&s, '\n', from) {
            None => {
                proof {
                    utils::lemma_find_char_shift(s@, '\n', from as int);
                }
                let mut piece: Vec<char> = Vec::new();
                utils::push_subrange(&mut piece, &s, from, n);
                proof {
                    assert(Seq::<char>::empty() + s@.subrange(from as int, n as int) =~= suffix);
                }
                let ln = out.len() + 1;
                let text = utils::chars_to_string(&piece);
                out.push(SourceLine { text, path: None, line_number: ln });
                proof {
                    assert(texts_of(out@) =~= pre.push(suffix));
                    assert(spec_split_phys_lines(suffix) == seq![suffix]);
                    assert(pre.push(suffix) =~= pre + seq![suffix]);
                    assert(s@.skip(n as int).len() == 0);
                    assert(texts_of(out@) + spec_split_phys_lines(s@.skip(n as int)) =~= texts_of(
                        out@,
                    ));
                }
                return out;
            },
            Some(j) => {
                proof {
                    utils::lemma_find_char_shift(s@, '\n', from as int);
                    assert(utils::find_char_from(suffix, '\n', 0) == Some(j - from as int));
                    assert(j < n);
                }
                let mut piece: Vec<char> = Vec::new();
                let hasr = j > from && s[j - 1] == '\r';
                let cut = if hasr {
                    j - 1
                } else {
                    j
                };
                utils::push_subrange(&mut piece, &s, from, cut);
                proof {
                    assert(Seq::<char>::empty() + s@.subrange(from as int, cut as int)
                        =~= s@.subrange(from as int, cut as int));
                    assert(suffix.take(j - from as int) =~= s@.subrange(from as int, j as int));
                    if hasr {
                        assert(suffix.take(j - from as int)[j - from as int - 1] == s@[j - 1]);
                        assert(strip_cr(suffix.take(j - from as int)) =~= s@.subrange(
                            from as int,
                            cut as int,
                        ));
                    } else {
                        if j > from {
                            assert(suffix.take(j - from as int)[j - from as int - 1] == s@[j - 1]);
                        }
                        assert(strip_cr(suffix.take(j - from as int)) =~= s@.subrange(
                            from as int,
                            cut as int,
                        ));
                    }
                }
                let ln = out.len() + 1;
                let text = utils::chars_to_string(&piece);
                out.push(SourceLine { text, path: None, line_number: ln });
                proof {
                    assert(texts_of(out@) =~= pre.push(s@.subrange(from as int, cut as int)));
                    assert(suffix.skip(j - from as int + 1) =~= s@.skip(j as int + 1));
                    assert(spec_split_phys_lines(suffix) == seq![
                        strip_cr(suffix.take(j - from as int)),
                    ] + spec_split_phys_lines(s@.skip(j as int + 1)));
                    assert(pre.push(s@.subrange(from as int, cut as int)) + spec_split_phys_lines(
                        s@.skip(j as int + 1),
                    ) =~= pre + (seq![strip_cr(suffix.take(j - from as int))]
                        + spec_split_phys_lines(s@.skip(j as int + 1))));
                }
                from = j + 1;
            },
        }
    }
    proof {
        assert(s@.skip(from as int).len() == 0);
        assert(texts_of(out@) + spec_split_phys_lines(s@.skip(from as int)) =~= texts_of(out@));
    }
    out
}

// ---------------------------------------------------------------------------
// The line-dispatch driver
// ---------------------------------------------------------------------------
/// The state of the line dispatch: at top level, inside a struct's field
/// declarations, or inside its instance lines.
#[derive(PartialEq, Eq, Structural, Clone, Copy, Debug)]
pub enum ParseState {
    TopLevel,
    InStructSchema,
    InStructInstances,
}

/// Appends one parsed instance to its struct's model.
pub open spec fn spec_append_instance(
    structs: Seq<SpecStruct>,
    sname: Seq<char>,
    m: SpecInstance,
) -> Seq<SpecStruct> {
    match crate::context::struct_index_of(structs, sname) {
        None => structs,
        Some(i) => structs.update(
            i,
            SpecStruct { instances: structs[i].instances.push(m), ..structs[i] },
        ),
    }
}

/// Parses buffered instance lines in order, each against the struct list as
/// the earlier lines left it, appending each parsed instance.
pub open spec fn spec_parse_instance_lines(
    lines: Seq<Seq<char>>,
    fields: Seq<SpecFieldSchema>,
    sname: Seq<char>,
    structs: Seq<SpecStruct>,
) -> Option<Seq<SpecStruct>>
    decreases lines.len(),
{
    if lines.len() == 0 {
        Some(structs)
    } else {
        match spec_inst_fold(
            utils::spec_split_top(lines[0], ','),
            Seq::empty(),
            fields,
            0,
            false,
            structs,
        ) {
            None => None,
            Some(fs) => spec_parse_instance_lines(
                lines.skip(1),
                fields,
                sname,
                spec_append_instance(structs, sname, SpecInstance { struct_name: sname, fields: fs }),
            ),
        }
    }
}

/// Updating a struct in place leaves every name where it was.
proof fn lemma_struct_index_stable(structs: Seq<SpecStruct>, i: int, st2: SpecStruct, name: Seq<char>)
    requires
        0 <= i < structs.len(),
        st2.name == structs[i].name,
    ensures
        crate::context::struct_index_of(structs.update(i, st2), name)
            == crate::context::struct_index_of(structs, name),
    decreases structs.len(),
{
    if structs.len() > 0 {
        if i == 0 {
            assert(structs.update(0, st2).skip(1) =~= structs.skip(1));
        } else {
            assert(structs.update(i, st2)[0] == structs[0]);
            assert(structs.update(i, st2).skip(1) =~= structs.skip(1).update(i - 1, st2));
            lemma_struct_index_stable(structs.skip(1), i - 1, st2, name);
        }
    }
}

/// Parses the buffered instance lines of a struct, against the fields it
/// had when the buffer flushed, and appends the instances in order.
#[verifier::loop_isolation(false)]
#[verifier::rlimit(100)]
pub fn parse_struct_instances(
    struct_name: &str,
    instance_lines: &Vec<String>,
    context: &mut TycoContext,
) -> (r: Result<(), TycoError>)
    ensures
        r matches Err(e) ==> (e is Parse || e is UnknownStruct),
        old(context).globals == final(context).globals,
        instance_lines@.len() == 0 ==> r is Ok && *final(context) == *old(context),
        instance_lines@.len() > 0 ==> (match spec_struct_lookup(
            structs_model(old(context).structs@),
            struct_name@,
        ) {
            None => r is Err && (r matches Err(e) ==> e is UnknownStruct),
            Some(sd) => (match spec_parse_instance_lines(
                utils::views_of(instance_lines@),
                sd.fields,
                struct_name@,
                structs_model(old(context).structs@),
            ) {
                None => r is Err && (r matches Err(e) ==> e is Parse),
                Some(s2) => r is Ok && structs_model(final(context).structs@) == s2,
            }),
        }),
{
    if instance_lines.len() == 0 {
        return Ok(());
    }
    let ghost sm0 = structs_model(context.structs@);
    let ghost lv = utils::views_of(instance_lines@);
    let fields = match context.get_struct(struct_name) {
        None => {
            return Err(TycoError::UnknownStruct(String::from_str(struct_name)));
        },
        Some(def) => {
            let f = crate::context::clone_schemas(def.fields());
            proof {
                crate::context::lemma_schemas_model_index(f@);
                crate::context::lemma_schemas_model_index(def.fields@);
                assert(schemas_model(f@) =~= schemas_model(def.fields@));
            }
            f
        },
    };
    let ghost fm = schemas_model(fields@);
    proof {
        crate::context::lemma_struct_index_first(sm0, struct_name@);
        assert(spec_struct_lookup(sm0, struct_name@) matches Some(sd) ==> fm == sd.fields);
        assert(lv.skip(0) =~= lv);
    }
    let mut li: usize = 0;
    while li < instance_lines.len()
        invariant
            li <= instance_lines@.len(),
            context.globals == old(context).globals,
            crate::context::struct_index_of(structs_model(context.structs@), struct_name@)
                == crate::context::struct_index_of(sm0, struct_name@),
            crate::context::struct_index_of(sm0, struct_name@) is Some,
            spec_parse_instance_lines(lv, fm, struct_name@, sm0) == spec_parse_instance_lines(
                lv.skip(li as int),
                fm,
                struct_name@,
                structs_model(context.structs@),
            ),
        decreases instance_lines@.len() - li,
    {
        proof {
            assert(lv.skip(li as int)[0] == lv[li as int]);
            assert(lv.skip(li as int).skip(1) =~= lv.skip(li as int + 1));
        }
        let ghost smcur = structs_model(context.structs@);
        let inst = match parse_instance_line(
            instance_lines[li].as_str(),
            &fields,
            struct_name,
            context,
        ) {
            Err(e) => {
                return Err(e);
            },
            Ok(i) => i,
        };
        let ghost im = crate::value::instance_model(inst);
        match context.add_instance_to(struct_name, inst) {
            Err(e) => {
                proof {
                    assert(false);
                }
                return Err(e);
            },
            Ok(_) => {},
        }
        proof {
            let k = crate::context::struct_index_of(smcur, struct_name@).unwrap();
            crate::context::lemma_struct_index_first(smcur, struct_name@);
            assert(structs_model(context.structs@) == spec_append_instance(
                smcur,
                struct_name@,
                im,
            ));
            lemma_struct_index_stable(
                smcur,
                k,
                (SpecStruct { instances: smcur[k].instances.push(im), ..smcur[k] }),
                struct_name@,
            );
        }
        li = li + 1;
    }
    proof {
        assert(lv.skip(instance_lines@.len() as int).len() == 0);
    }
    Ok(())
}

/// The model of an optional struct name.
pub open spec fn opt_str_view(o: Option<String>) -> Option<Seq<char>> {
    match o {
        None => None,
        Some(s) => Some(s@),
    }
}

/// End of the run of `-` characters starting at `i`.
pub open spec fn dash_end(s: Seq<char>, i: int) -> int
    decreases s.len() - i,
{
    if 0 <= i && i < s.len() && s[i] == '-' {
        dash_end(s, i + 1)
    } else {
        i
    }
}

/// Joining backslash-continued lines: while the buffered line ends in a
/// backslash and a next line exists, the backslash becomes a space and the
/// next line's comment-stripped, trimmed text is appended.
pub open spec fn spec_continuation(texts: Seq<Seq<char>>, idx: int, cur: Seq<char>) -> (
    Seq<char>,
    int,
)
    decreases texts.len() - idx,
{
    if cur.len() > 0 && cur[cur.len() - 1] == '\\' && 0 <= idx && idx + 1 < texts.len() {
        let nl = cur.take(cur.len() - 1) + seq![' '] + utils::spec_trim(
            utils::spec_strip_comment(texts[idx + 1]),
        );
        spec_continuation(texts, idx + 1, nl)
    } else {
        (cur, idx)
    }
}

/// `spec_accumulate` never moves backwards and stays inside the input.
pub proof fn lemma_accumulate_bounds(
    texts: Seq<Seq<char>>,
    cursor: int,
    cur: Seq<char>,
    delim: Seq<char>,
)
    ensures
        cursor <= spec_accumulate(texts, cursor, cur, delim).1,
        cursor < texts.len() ==> spec_accumulate(texts, cursor, cur, delim).1 < texts.len(),
        cursor >= texts.len() ==> spec_accumulate(texts, cursor, cur, delim).1 == cursor,
    decreases texts.len() - cursor,
{
    if !(cursor + 1 >= texts.len() || !utils::spec_has_unclosed(cur, delim)) {
        let c2 = cur + seq!['\n'] + texts[cursor + 1];
        if utils::spec_has_unclosed(c2, delim) {
            lemma_accumulate_bounds(texts, cursor + 1, c2, delim);
        }
    }
}

/// `spec_continuation` never moves backwards and stays inside the input.
pub proof fn lemma_continuation_bounds(texts: Seq<Seq<char>>, idx: int, cur: Seq<char>)
    ensures
        idx <= spec_continuation(texts, idx, cur).1,
        idx < texts.len() ==> spec_continuation(texts, idx, cur).1 < texts.len(),
        idx >= texts.len() ==> spec_continuation(texts, idx, cur).1 == idx,
    decreases texts.len() - idx,
{
    if cur.len() > 0 && cur[cur.len() - 1] == '\\' && 0 <= idx && idx + 1 < texts.len() {
        let nl = cur.take(cur.len() - 1) + seq![' '] + utils::spec_trim(
            utils::spec_strip_comment(texts[idx + 1]),
        );
        lemma_continuation_bounds(texts, idx + 1, nl);
    }
}

/// Flushing a struct's buffered instance lines into the document.
pub open spec fn spec_flush(
    c: SpecContext,
    sname: Seq<char>,
    buffered: Seq<Seq<char>>,
) -> Option<SpecContext> {
    if buffered.len() == 0 {
        Some(c)
    } else {
        match spec_struct_lookup(c.structs, sname) {
            None => None,
            Some(sd) => match spec_parse_instance_lines(buffered, sd.fields, sname, c.structs) {
                None => None,
                Some(s2) => Some(SpecContext { globals: c.globals, structs: s2 }),
            },
        }
    }
}

/// The triple-quote delimiter a multi-line literal continues with: the
/// double-quoted one where it occurs, else the single-quoted one.
pub open spec fn spec_pick_delim(v: Seq<char>) -> Seq<char> {
    if utils::find_sub_from(v, seq!['"', '"', '"'], 0) is Some {
        seq!['"', '"', '"']
    } else {
        seq!['\'', '\'', '\'']
    }
}

/// A buffered literal continues onto following lines when a triple-quote
/// delimiter stands open in it.
pub open spec fn spec_needs_multiline(v: Seq<char>) -> bool {
    utils::spec_has_unclosed(v, seq!['"', '"', '"']) || utils::spec_has_unclosed(
        v,
        seq!['\'', '\'', '\''],
    )
}

/// One field declaration applied to the document: the declared field is
/// appended to the open struct, or the value becomes a global.
pub open spec fn spec_step_field(
    c: SpecContext,
    fmm: FieldMatch,
    value2: Seq<char>,
    is_global: bool,
    current: Option<Seq<char>>,
) -> Option<(SpecContext, ParseState)> {
    if !is_global && current is None {
        None
    } else if !is_global {
        let sn = current.unwrap();
        let schema0 = SpecFieldSchema {
            name: fmm.attr_name,
            ty_name: fmm.ty_name,
            is_primary_key: fmm.modifier == Some('*'),
            is_nullable: fmm.modifier == Some('?'),
            is_array: fmm.is_array,
            default_value: None,
        };
        let schema_opt = if value2.len() > 0 {
            match spec_parse_value(value2, spec_ty_descriptor(fmm.ty_name, fmm.is_array), c.structs) {
                None => None,
                Some(v) => Some(SpecFieldSchema { default_value: Some(v), ..schema0 }),
            }
        } else {
            Some(schema0)
        };
        match schema_opt {
            None => None,
            Some(schema) => match crate::context::struct_index_of(c.structs, sn) {
                None => None,
                Some(i) => Some(
                    (
                        SpecContext {
                            globals: c.globals,
                            structs: c.structs.update(
                                i,
                                SpecStruct {
                                    fields: c.structs[i].fields.push(schema),
                                    primary_key_field: if schema.is_primary_key {
                                        Some(schema.name)
                                    } else {
                                        c.structs[i].primary_key_field
                                    },
                                    ..c.structs[i]
                                },
                            ),
                        },
                        ParseState::InStructSchema,
                    ),
                ),
            },
        }
    } else {
        match spec_parse_value(value2, spec_ty_descriptor(fmm.ty_name, fmm.is_array), c.structs) {
            None => None,
            Some(v) => Some(
                (
                    SpecContext {
                        globals: spec_set_field(c.globals, fmm.attr_name, v),
                        structs: c.structs,
                    },
                    ParseState::TopLevel,
                ),
            ),
        }
    }
}

/// One default update applied to the document: the named, already-declared
/// field of the open struct gets the parsed value (or no value) as its new
/// default.
pub open spec fn spec_step_update(
    c: SpecContext,
    attr: Seq<char>,
    value2: Seq<char>,
    sn: Seq<char>,
) -> Option<SpecContext> {
    match crate::context::struct_index_of(c.structs, sn) {
        None => None,
        Some(i) => match crate::context::schema_index_of(c.structs[i].fields, attr) {
            None => None,
            Some(fi) => {
                let parsed: Option<Option<SpecValue>> = if utils::spec_trim(value2).len() == 0 {
                    Some(None)
                } else {
                    match spec_parse_value(
                        value2,
                        spec_ty_descriptor(
                            c.structs[i].fields[fi].ty_name,
                            c.structs[i].fields[fi].is_array,
                        ),
                        c.structs,
                    ) {
                        None => None,
                        Some(v) => Some(Some(v)),
                    }
                };
                match parsed {
                    None => None,
                    Some(dv) => Some(
                        SpecContext {
                            globals: c.globals,
                            structs: c.structs.update(
                                i,
                                SpecStruct {
                                    fields: c.structs[i].fields.update(
                                        fi,
                                        SpecFieldSchema {
                                            default_value: dv,
                                            ..c.structs[i].fields[fi]
                                        },
                                    ),
                                    ..c.structs[i]
                                },
                            ),
                        },
                    ),
                }
            },
        },
    }
}

/// The line dispatch over the remaining lines, carried state and all:
/// what `parse_lines` computes before the resolution pipeline runs.
pub open spec fn spec_parse_document_from(
    texts: Seq<Seq<char>>,
    idx: int,
    c: SpecContext,
    state: ParseState,
    current: Option<Seq<char>>,
    buffered: Seq<Seq<char>>,
) -> Option<SpecContext>
    decreases texts.len() - idx, 0int,
        via spec_parse_document_dec
{
    if idx >= texts.len() || idx < 0 {
        match current {
            Some(sn) => if buffered.len() > 0 {
                spec_flush(c, sn, buffered)
            } else {
                Some(c)
            },
            None => Some(c),
        }
    } else {
        let tw = utils::spec_trim(utils::spec_strip_comment(texts[idx]));
        if tw.len() == 0 {
            spec_parse_document_from(texts, idx + 1, c, state, current, buffered)
        } else {
            match spec_match_struct_def(tw) {
                Some(name) => {
                    let flushed = current is Some && state == ParseState::InStructInstances;
                    let c2opt = if flushed {
                        spec_flush(c, current.unwrap(), buffered)
                    } else {
                        Some(c)
                    };
                    match c2opt {
                        None => None,
                        Some(c2) => {
                            let c3 = if spec_struct_lookup(c2.structs, name) is None {
                                SpecContext {
                                    globals: c2.globals,
                                    structs: c2.structs.push(
                                        SpecStruct {
                                            name,
                                            fields: Seq::empty(),
                                            primary_key_field: None,
                                            instances: Seq::empty(),
                                            index: Seq::empty(),
                                        },
                                    ),
                                }
                            } else {
                                c2
                            };
                            spec_parse_document_from(
                                texts,
                                idx + 1,
                                c3,
                                ParseState::InStructSchema,
                                Some(name),
                                if flushed {
                                    Seq::empty()
                                } else {
                                    buffered
                                },
                            )
                        },
                    }
                },
                None => match spec_match_field(texts[idx]) {
                    Some(fmm) => {
                        let value0 = match fmm.value {
                            None => Seq::empty(),
                            Some(v) => v,
                        };
                        let acc = if spec_needs_multiline(value0) {
                            spec_accumulate(texts, idx, value0, spec_pick_delim(value0))
                        } else {
                            (value0, idx)
                        };
                        let value2 = utils::spec_strip_comment(acc.0);
                        let is_global = texts[idx].len() > 0 && !utils::is_space_char(
                            texts[idx][0],
                        );
                        match spec_step_field(c, fmm, value2, is_global, current) {
                            None => None,
                            Some(cs) => spec_parse_document_from(
                                texts,
                                acc.1 + 1,
                                cs.0,
                                cs.1,
                                current,
                                buffered,
                            ),
                        }
                    },
                    None => {
                        let um = spec_match_update(texts[idx]);
                        if um is Some && current is Some {
                            let u = um.unwrap();
                            let value0 = match u.value {
                                None => Seq::empty(),
                                Some(v) => v,
                            };
                            let acc = if spec_needs_multiline(value0) {
                                spec_accumulate(texts, idx, value0, spec_pick_delim(value0))
                            } else {
                                (value0, idx)
                            };
                            let value2 = utils::spec_strip_comment(acc.0);
                            match spec_step_update(c, u.attr_name, value2, current.unwrap()) {
                                None => None,
                                Some(c2) => spec_parse_document_from(
                                    texts,
                                    acc.1 + 1,
                                    c2,
                                    state,
                                    current,
                                    buffered,
                                ),
                            }
                        } else if tw.len() > 0 && tw[0] == '-' {
                            if current is None {
                                None
                            } else {
                                let inst0 = utils::spec_trim(tw.skip(dash_end(tw, 0)));
                                let cont = spec_continuation(texts, idx, inst0);
                                let acc = if spec_needs_multiline(cont.0) {
                                    spec_accumulate(texts, cont.1, cont.0, spec_pick_delim(cont.0))
                                } else {
                                    cont
                                };
                                spec_parse_document_from(
                                    texts,
                                    acc.1 + 1,
                                    c,
                                    ParseState::InStructInstances,
                                    current,
                                    buffered.push(acc.0),
                                )
                            }
                        } else if state == ParseState::InStructInstances && texts[idx].len() > 0
                            && utils::is_space_char(texts[idx][0]) {
                            let buffered2 = if buffered.len() > 0 {
                                buffered.update(
                                    buffered.len() - 1,
                                    buffered[buffered.len() - 1] + seq![' '] + tw,
                                )
                            } else {
                                buffered
                            };
                            spec_parse_document_from(texts, idx + 1, c, state, current, buffered2)
                        } else {
                            spec_parse_document_from(texts, idx + 1, c, state, current, buffered)
                        }
                    },
                },
            }
        }
    }
}

#[via_fn]
proof fn spec_parse_document_dec(
    texts: Seq<Seq<char>>,
    idx: int,
    c: SpecContext,
    state: ParseState,
    current: Option<Seq<char>>,
    buffered: Seq<Seq<char>>,
) {
    if 0 <= idx && idx < texts.len() {
        let tw = utils::spec_trim(utils::spec_strip_comment(texts[idx]));
        match spec_match_field(texts[idx]) {
            Some(fmm) => {
                let value0 = match fmm.value {
                    None => Seq::<char>::empty(),
                    Some(v) => v,
                };
                lemma_accumulate_bounds(texts, idx, value0, spec_pick_delim(value0));
            },
            None => {},
        }
        match spec_match_update(texts[idx]) {
            Some(u) => {
                let value0 = match u.value {
                    None => Seq::<char>::empty(),
                    Some(v) => v,
                };
                lemma_accumulate_bounds(texts, idx, value0, spec_pick_delim(value0));
            },
            None => {},
        }
        let inst0 = utils::spec_trim(tw.skip(dash_end(tw, 0)));
        let cont = spec_continuation(texts, idx, inst0);
        lemma_continuation_bounds(texts, idx, inst0);
        lemma_accumulate_bounds(texts, cont.1, cont.0, spec_pick_delim(cont.0));
    }
}

/// The whole raw parse of a document's lines, before resolution.
pub open spec fn spec_parse_document(texts: Seq<Seq<char>>) -> Option<SpecContext> {
    spec_parse_document_from(
        texts,
        0,
        SpecContext { globals: Seq::empty(), structs: Seq::empty() },
        ParseState::TopLevel,
        None,
        Seq::empty(),
    )
}

/// The resolution pipeline, collapsed to success or failure.
pub open spec fn spec_pipeline(c: SpecContext) -> Option<SpecContext> {
    match crate::context::spec_coercion_pass(c, crate::context::resolve_fuel()) {
        None => None,
        Some(c1) => {
            let c2 = crate::context::spec_index_pass(c1);
            match crate::context::spec_reference_pass(c2) {
                Err(_) => None,
                Ok(c3) => Some(crate::render::spec_render_pass(c3)),
            }
        },
    }
}

/// Drives the line dispatch, in precedence order: struct header, field
/// declaration, default update, instance bullet, bare continuation; blank
/// lines (after comment stripping) are skipped. Buffered instance lines
/// flush on the next struct header and at end of input. Resolution is the
/// caller's step.
#[verifier::loop_isolation(false)]
#[verifier::rlimit(100)]
pub fn parse_document(lines: &Vec<SourceLine>) -> (r: Result<TycoContext, TycoError>)
    ensures
        r matches Ok(c) ==> spec_parse_document(texts_of(lines@)) == Some(context_model(c)),
        r is Err <==> spec_parse_document(texts_of(lines@)) is None,
        r matches Err(e) ==> (e is Parse || e is UnknownStruct),
{
    let ghost tx = texts_of(lines@);
    let mut context = TycoContext::new();
    let mut state = ParseState::TopLevel;
    let mut current_struct: Option<String> = None;
    let mut instance_lines: Vec<String> = Vec::new();
    let mut idx: usize = 0;
    proof {
        assert(utils::views_of(instance_lines@) =~= Seq::<Seq<char>>::empty());
    }
    while idx < lines.len()
        invariant
            idx <= lines@.len(),
            spec_parse_document_from(
                tx,
                idx as int,
                context_model(context),
                state,
                opt_str_view(current_struct),
                utils::views_of(instance_lines@),
            ) == spec_parse_document(tx),
        decreases lines@.len() - idx,
    {
        let ghost g_idx = idx as int;
        let ghost g_c = context_model(context);
        let ghost g_state = state;
        let ghost g_cur = opt_str_view(current_struct);
        let ghost g_buf = utils::views_of(instance_lines@);
        let line = &lines[idx];
        proof {
            assert(tx[g_idx] == line.text@);
        }
        let trimmed = utils::strip_inline_comment(line.text.as_str());
        let twv = utils::to_char_vec(trimmed.as_str());
        let tww = utils::trim_char_vec(&twv);
        let trimmed_ws = utils::chars_to_string(&tww);
        let ghost tw = utils::spec_trim(utils::spec_strip_comment(tx[g_idx]));
        proof {
            assert(tww@ == tw);
        }
        if tww.len() == 0 {
            idx = idx + 1;
            continue ;
        }
        match match_struct_def(trimmed_ws.as_str()) {
            Some(name) => {
                let ghost namev = name@;
                let flush: Option<String> = match &current_struct {
                    Some(sn) => if state == ParseState::InStructInstances {
                        Some(sn.clone())
                    } else {
                        None
                    },
                    None => None,
                };
                let ghost flushed = g_cur is Some && g_state == ParseState::InStructInstances;
                proof {
                    assert(flush is Some <==> flushed);
                }
                match flush {
                    Some(sn) => {
                        let ghost pre_c = context_model(context);
                        match parse_struct_instances(sn.as_str(), &instance_lines, &mut context) {
                            Err(e) => {
                                proof {
                                    assert(spec_flush(pre_c, g_cur.unwrap(), g_buf) is None);
                                    assert(spec_parse_document(tx) is None);
                                }
                                return Err(e);
                            },
                            Ok(_) => {},
                        }
                        proof {
                            assert(Some(context_model(context)) == spec_flush(
                                pre_c,
                                g_cur.unwrap(),
                                g_buf,
                            ));
                        }
                        instance_lines = Vec::new();
                        proof {
                            assert(utils::views_of(instance_lines@) =~= Seq::<Seq<char>>::empty());
                        }
                    },
                    None => {},
                }
                let ghost c2 = context_model(context);
                let known = match context.get_struct(name.as_str()) {
                    Some(_) => true,
                    None => false,
                };
                if !known {
                    context.add_struct(TycoStruct::new(name.as_str()));
                    proof {
                        crate::context::lemma_struct_index_first(c2.structs, namev);
                        assert(structs_model(context.structs@) =~= c2.structs.push(
                            SpecStruct {
                                name: namev,
                                fields: Seq::empty(),
                                primary_key_field: None,
                                instances: Seq::empty(),
                                index: Seq::empty(),
                            },
                        ));
                    }
                }
                current_struct = Some(name);
                state = ParseState::InStructSchema;
                idx = idx + 1;
                proof {
                    assert(spec_parse_document_from(
                        tx,
                        idx as int,
                        context_model(context),
                        state,
                        opt_str_view(current_struct),
                        utils::views_of(instance_lines@),
                    ) == spec_parse_document_from(tx, g_idx, g_c, g_state, g_cur, g_buf));
                }
                continue ;
            },
            None => {},
        }
        match match_field(line.text.as_str()) {
            Some(fm) => {
                let ghost fmm = field_match_model(fm);
                let is_primary = match fm.modifier {
                    Some(c) => c == '*',
                    None => false,
                };
                let is_nullable = match fm.modifier {
                    Some(c) => c == '?',
                    None => false,
                };
                let mut value_str: String = match fm.value {
                    Some(v) => v,
                    None => String::new(),
                };
                let ghost value0 = value_str@;
                proof {
                    assert(value0 == (match fmm.value {
                        None => Seq::<char>::empty(),
                        Some(v) => v,
                    }));
                    reveal_strlit("\"\"\"");
                    reveal_strlit("\x27\x27\x27");
                    assert("\"\"\""@ =~= seq!['"', '"', '"']);
                    assert("\x27\x27\x27"@ =~= seq!['\'', '\'', '\'']);
                }
                let line_span = line.span();
                if utils::has_unclosed_delimiter(value_str.as_str(), "\"\"\"")
                    || utils::has_unclosed_delimiter(value_str.as_str(), "\x27\x27\x27") {
                    let vv = utils::to_char_vec(value_str.as_str());
                    let mut d3: Vec<char> = Vec::new();
                    d3.push('"');
                    d3.push('"');
                    d3.push('"');
                    proof {
                        assert(d3@ =~= seq!['"', '"', '"']);
                    }
                    let delim: &str = match utils::find_sub(&vv, &d3, 0) {
                        Some(_) => "\"\"\"",
                        None => "\x27\x27\x27",
                    };
                    proof {
                        assert(delim@ == spec_pick_delim(value0));
                    }
                    idx = accumulate_multiline(idx, lines, &mut value_str, delim);
                } else {
                    proof {
                        assert(!spec_needs_multiline(value0));
                    }
                }
                proof {
                    assert((value_str@, idx as int) == (if spec_needs_multiline(value0) {
                        spec_accumulate(tx, g_idx, value0, spec_pick_delim(value0))
                    } else {
                        (value0, g_idx)
                    }));
                }
                let value_str2 = utils::strip_inline_comment(value_str.as_str());
                let ghost value2 = value_str2@;
                let vs2 = utils::to_char_vec(value_str2.as_str());
                let tv0 = utils::to_char_vec(line.text.as_str());
                let is_global_line = tv0.len() > 0 && !utils::is_space(tv0[0]);
                if !is_global_line && current_struct.is_none() {
                    proof {
                        assert(spec_step_field(g_c, fmm, value2, is_global_line, g_cur) is None);
                        assert(spec_parse_document(tx) is None);
                    }
                    let mut m = String::new();
                    m.append("Struct field defined before struct header");
                    return Err(TycoError::parse_with_span(m, line_span));
                }
                if !is_global_line {
                    let sn: String = match &current_struct {
                        Some(s) => s.clone(),
                        None => {
                            let mut m = String::new();
                            m.append("Struct field defined before struct header");
                            return Err(TycoError::parse_with_span(m, line_span));
                        },
                    };
                    let mut field = FieldSchema::new(fm.attr_name.as_str(), fm.ty_name.as_str());
                    field.is_primary_key = is_primary;
                    field.is_nullable = is_nullable;
                    field.is_array = fm.is_array;
                    if vs2.len() > 0 {
                        let ty = field_type_descriptor(field.ty_name.as_str(), field.is_array);
                        let parsed = match parse_value(
                            value_str2.as_str(),
                            ty.as_str(),
                            &context,
                            &line_span,
                        ) {
                            Err(e) => {
                                proof {
                                    assert(spec_step_field(
                                        g_c,
                                        fmm,
                                        value2,
                                        is_global_line,
                                        g_cur,
                                    ) is None);
                                    assert(spec_parse_document(tx) is None);
                                }
                                return Err(e);
                            },
                            Ok(v) => v,
                        };
                        field.default_value = Some(parsed);
                    }
                    match context.add_field_to(sn.as_str(), field) {
                        Err(e) => {
                            proof {
                                crate::context::lemma_struct_index_first(g_c.structs, sn@);
                                assert(spec_step_field(g_c, fmm, value2, is_global_line, g_cur)
                                    is None);
                                assert(spec_parse_document(tx) is None);
                            }
                            return Err(e);
                        },
                        Ok(_) => {},
                    }
                    proof {
                        assert(spec_step_field(g_c, fmm, value2, is_global_line, g_cur) == Some(
                            (context_model(context), ParseState::InStructSchema),
                        ));
                    }
                    state = ParseState::InStructSchema;
                } else {
                    let tyd = field_type_descriptor(fm.ty_name.as_str(), fm.is_array);
                    let value = match parse_value(
                        value_str2.as_str(),
                        tyd.as_str(),
                        &context,
                        &line_span,
                    ) {
                        Err(e) => {
                            proof {
                                assert(spec_step_field(g_c, fmm, value2, is_global_line, g_cur)
                                    is None);
                                assert(spec_parse_document(tx) is None);
                            }
                            return Err(e);
                        },
                        Ok(v) => v,
                    };
                    context.set_global(fm.attr_name, value);
                    proof {
                        assert(spec_step_field(g_c, fmm, value2, is_global_line, g_cur) == Some(
                            (context_model(context), ParseState::TopLevel),
                        ));
                    }
                    state = ParseState::TopLevel;
                }
                idx = idx + 1;
                proof {
                    assert(spec_parse_document_from(
                        tx,
                        idx as int,
                        context_model(context),
                        state,
                        opt_str_view(current_struct),
                        utils::views_of(instance_lines@),
                    ) == spec_parse_document_from(tx, g_idx, g_c, g_state, g_cur, g_buf));
                }
                continue ;
            },
            None => {},
        }
        let mut handled_update = false;
        match match_update(line.text.as_str()) {
            Some(um) => {
                let ghost umm = update_match_model(um);
                let sn: Option<String> = match &current_struct {
                    Some(s) => Some(s.clone()),
                    None => None,
                };
                match sn {
                    Some(sname) => {
                        let mut value_str: String = match um.value {
                            Some(v) => v,
                            None => String::new(),
                        };
                        let ghost value0 = value_str@;
                        proof {
                            assert(value0 == (match umm.value {
                                None => Seq::<char>::empty(),
                                Some(v) => v,
                            }));
                            reveal_strlit("\"\"\"");
                            reveal_strlit("\x27\x27\x27");
                            assert("\"\"\""@ =~= seq!['"', '"', '"']);
                            assert("\x27\x27\x27"@ =~= seq!['\'', '\'', '\'']);
                        }
                        let value_span = line.span();
                        if utils::has_unclosed_delimiter(value_str.as_str(), "\"\"\"")
                            || utils::has_unclosed_delimiter(value_str.as_str(), "\x27\x27\x27") {
                            let vv = utils::to_char_vec(value_str.as_str());
                            let mut d3: Vec<char> = Vec::new();
                            d3.push('"');
                            d3.push('"');
                            d3.push('"');
                            proof {
                                assert(d3@ =~= seq!['"', '"', '"']);
                            }
                            let delim: &str = match utils::find_sub(&vv, &d3, 0) {
                                Some(_) => "\"\"\"",
                                None => "\x27\x27\x27",
                            };
                            proof {
                                assert(delim@ == spec_pick_delim(value0));
                            }
                            idx = accumulate_multiline(idx, lines, &mut value_str, delim);
                        } else {
                            proof {
                                assert(!spec_needs_multiline(value0));
                            }
                        }
                        proof {
                            assert((value_str@, idx as int) == (if spec_needs_multiline(value0) {
                                spec_accumulate(tx, g_idx, value0, spec_pick_delim(value0))
                            } else {
                                (value0, g_idx)
                            }));
                        }
                        let value_str2 = utils::strip_inline_comment(value_str.as_str());
                        let ghost value2 = value_str2@;
                        let v2c = utils::to_char_vec(value_str2.as_str());
                        let v2t = utils::trim_char_vec(&v2c);
                        let parsed: Option<TycoValue> = if v2t.len() == 0 {
                            None
                        } else {
                            let tyd: Option<String> = match context.get_struct(sname.as_str()) {
                                None => None,
                                Some(schema) => {
                                    proof {
                                        crate::context::lemma_schemas_model_index(schema.fields@);
                                    }
                                    match crate::context::find_schema_idx(
                                        schema.fields(),
                                        um.attr_name.as_str(),
                                    ) {
                                        None => None,
                                        Some(fi) => Some(
                                            field_type_descriptor(
                                                schema.fields()[fi].ty_name.as_str(),
                                                schema.fields()[fi].is_array,
                                            ),
                                        ),
                                    }
                                },
                            };
                            match tyd {
                                None => {
                                    proof {
                                        assert(spec_step_update(
                                            g_c,
                                            umm.attr_name,
                                            value2,
                                            g_cur.unwrap(),
                                        ) is None);
                                        assert(spec_parse_document(tx) is None);
                                    }
                                    let mut m = String::new();
                                    m.append("Unknown field '");
                                    m.append(um.attr_name.as_str());
                                    m.append("'");
                                    return Err(TycoError::parse_with_span(m, value_span));
                                },
                                Some(ty) => {
                                    match parse_value(
                                        value_str2.as_str(),
                                        ty.as_str(),
                                        &context,
                                        &value_span,
                                    ) {
                                        Err(e) => {
                                            proof {
                                                assert(spec_step_update(
                                                    g_c,
                                                    umm.attr_name,
                                                    value2,
                                                    g_cur.unwrap(),
                                                ) is None);
                                                assert(spec_parse_document(tx) is None);
                                            }
                                            return Err(e);
                                        },
                                        Ok(v) => Some(v),
                                    }
                                },
                            }
                        };
                        match context.set_default_in(sname.as_str(), um.attr_name.as_str(), parsed)
                        {
                            Err(e) => {
                                proof {
                                    assert(spec_step_update(
                                        g_c,
                                        umm.attr_name,
                                        value2,
                                        g_cur.unwrap(),
                                    ) is None);
                                    assert(spec_parse_document(tx) is None);
                                }
                                return Err(e);
                            },
                            Ok(_) => {},
                        }
                        proof {
                            assert(spec_step_update(g_c, umm.attr_name, value2, g_cur.unwrap())
                                == Some(context_model(context)));
                        }
                        idx = idx + 1;
                        proof {
                            assert(spec_parse_document_from(
                                tx,
                                idx as int,
                                context_model(context),
                                state,
                                opt_str_view(current_struct),
                                utils::views_of(instance_lines@),
                            ) == spec_parse_document_from(tx, g_idx, g_c, g_state, g_cur, g_buf));
                        }
                        handled_update = true;
                    },
                    None => {},
                }
            },
            None => {},
        }
        if handled_update {
            continue ;
        }
        if tww.len() > 0 && tww[0] == '-' {
            if current_struct.is_none() {
                proof {
                    assert(spec_parse_document(tx) is None);
                }
                let mut m = String::new();
                m.append("Instance data encountered outside of a struct block");
                return Err(TycoError::parse_with_span(m, line.span()));
            }
            state = ParseState::InStructInstances;
            let mut start: usize = 0;
            while start < tww.len() && tww[start] == '-'
                invariant
                    start <= tww@.len(),
                    dash_end(tw, 0) == dash_end(tw, start as int),
                decreases tww@.len() - start,
            {
                start = start + 1;
            }
            proof {
                assert(dash_end(tw, 0) == start as int);
            }
            let mut restv: Vec<char> = Vec::new();
            utils::push_subrange(&mut restv, &tww, start, tww.len());
            let restt = utils::trim_char_vec(&restv);
            let mut inst_line = utils::chars_to_string(&restt);
            let ghost inst0 = utils::spec_trim(tw.skip(dash_end(tw, 0)));
            proof {
                assert(Seq::<char>::empty() + tw.subrange(start as int, tw.len() as int)
                    =~= tw.skip(start as int));
                assert(inst_line@ == inst0);
            }
            let ghost idx0 = idx as int;
            loop
                invariant
                    idx0 <= idx < lines@.len(),
                    spec_continuation(tx, idx0, inst0) == spec_continuation(
                        tx,
                        idx as int,
                        inst_line@,
                    ),
                decreases lines@.len() - idx,
            {
                let ilv = utils::to_char_vec(inst_line.as_str());
                let ends_bs = ilv.len() > 0 && ilv[ilv.len() - 1] == '\\';
                if !(ends_bs && idx < lines.len() && lines.len() - idx > 1) {
                    proof {
                        assert(spec_continuation(tx, idx as int, inst_line@) == (
                            inst_line@,
                            idx as int,
                        ));
                    }
                    break ;
                }
                let mut shorter: Vec<char> = Vec::new();
                utils::push_subrange(&mut shorter, &ilv, 0, ilv.len() - 1);
                let mut nl = utils::chars_to_string(&shorter);
                let ghost prev = inst_line@;
                idx = idx + 1;
                nl.push(' ');
                let stripped = utils::strip_inline_comment(lines[idx].text.as_str());
                let stv = utils::to_char_vec(stripped.as_str());
                let stt = utils::trim_char_vec(&stv);
                let sts = utils::chars_to_string(&stt);
                nl.append(sts.as_str());
                proof {
                    assert(Seq::<char>::empty() + prev.subrange(0, prev.len() - 1) =~= prev.take(
                        prev.len() - 1,
                    ));
                    assert(nl@ =~= prev.take(prev.len() - 1) + seq![' '] + utils::spec_trim(
                        utils::spec_strip_comment(tx[idx as int]),
                    ));
                }
                inst_line = nl;
            }
            let ghost cont = spec_continuation(tx, idx0, inst0);
            proof {
                assert(cont == (inst_line@, idx as int));
                reveal_strlit("\"\"\"");
                reveal_strlit("\x27\x27\x27");
                assert("\"\"\""@ =~= seq!['"', '"', '"']);
                assert("\x27\x27\x27"@ =~= seq!['\'', '\'', '\'']);
            }
            if utils::has_unclosed_delimiter(inst_line.as_str(), "\"\"\"")
                || utils::has_unclosed_delimiter(inst_line.as_str(), "\x27\x27\x27") {
                let vv = utils::to_char_vec(inst_line.as_str());
                let mut d3: Vec<char> = Vec::new();
                d3.push('"');
                d3.push('"');
                d3.push('"');
                proof {
                    assert(d3@ =~= seq!['"', '"', '"']);
                }
                let delim: &str = match utils::find_sub(&vv, &d3, 0) {
                    Some(_) => "\"\"\"",
                    None => "\x27\x27\x27",
                };
                proof {
                    assert(delim@ == spec_pick_delim(cont.0));
                }
                idx = accumulate_multiline(idx, lines, &mut inst_line, delim);
            } else {
                proof {
                    assert(!spec_needs_multiline(cont.0));
                }
            }
            proof {
                assert((inst_line@, idx as int) == (if spec_needs_multiline(cont.0) {
                    spec_accumulate(tx, cont.1, cont.0, spec_pick_delim(cont.0))
                } else {
                    cont
                }));
            }
            let ghost prebuf = utils::views_of(instance_lines@);
            let ghost instv = inst_line@;
            instance_lines.push(inst_line);
            proof {
                assert(utils::views_of(instance_lines@) =~= prebuf.push(instv));
            }
            idx = idx + 1;
            proof {
                assert(spec_parse_document_from(
                    tx,
                    idx as int,
                    context_model(context),
                    state,
                    opt_str_view(current_struct),
                    utils::views_of(instance_lines@),
                ) == spec_parse_document_from(tx, g_idx, g_c, g_state, g_cur, g_buf));
            }
            continue ;
        }
        let lv0 = utils::to_char_vec(line.text.as_str());
        if state == ParseState::InStructInstances && lv0.len() > 0 && utils::is_space(lv0[0]) {
            if instance_lines.len() > 0 {
                let li = instance_lines.len() - 1;
                let mut last = instance_lines.remove(li);
                let ghost lastv = last@;
                last.push(' ');
                last.append(trimmed_ws.as_str());
                instance_lines.insert(li, last);
                proof {
                    assert(last@ =~= lastv + seq![' '] + tw);
                    assert(utils::views_of(instance_lines@) =~= g_buf.update(
                        li as int,
                        g_buf[li as int] + seq![' '] + tw,
                    ));
                }
            }
            idx = idx + 1;
            proof {
                assert(spec_parse_document_from(
                    tx,
                    idx as int,
                    context_model(context),
                    state,
                    opt_str_view(current_struct),
                    utils::views_of(instance_lines@),
                ) == spec_parse_document_from(tx, g_idx, g_c, g_state, g_cur, g_buf));
            }
            continue ;
        }
        idx = idx + 1;
        proof {
            assert(spec_parse_document_from(
                tx,
                idx as int,
                context_model(context),
                state,
                opt_str_view(current_struct),
                utils::views_of(instance_lines@),
            ) == spec_parse_document_from(tx, g_idx, g_c, g_state, g_cur, g_buf));
        }
    }
    let ghost g_c = context_model(context);
    let ghost g_cur = opt_str_view(current_struct);
    let ghost g_buf = utils::views_of(instance_lines@);
    let tail: Option<String> = match &current_struct {
        Some(sn) => if instance_lines.len() > 0 {
            Some(sn.clone())
        } else {
            None
        },
        None => None,
    };
    match tail {
        Some(sn) => {
            match parse_struct_instances(sn.as_str(), &instance_lines, &mut context) {
                Err(e) => {
                    proof {
                        assert(spec_flush(g_c, g_cur.unwrap(), g_buf) is None);
                        assert(spec_parse_document(tx) is None);
                    }
                    return Err(e);
                },
                Ok(_) => {},
            }
            proof {
                assert(Some(context_model(context)) == spec_flush(g_c, g_cur.unwrap(), g_buf));
            }
        },
        None => {},
    }
    proof {
        assert(spec_parse_document(tx) == Some(context_model(context)));
    }
    Ok(context)
}

/// Parses the lines of a document and runs the resolution pipeline.
pub fn parse_lines(lines: &Vec<SourceLine>) -> (r: Result<TycoContext, TycoError>)
    ensures
        r matches Ok(c) ==> (spec_parse_document(texts_of(lines@)) matches Some(c0)
            && spec_pipeline(c0) == Some(context_model(c))),
        r is Err <==> (spec_parse_document(texts_of(lines@)) is None || (spec_parse_document(
            texts_of(lines@),
        ) matches Some(c0) && spec_pipeline(c0) is None)),
        r matches Err(e) ==> (e is Parse || e is UnknownStruct || e is Reference),
{
    let mut context = match parse_document(lines) {
        Err(e) => {
            return Err(e);
        },
        Ok(c) => c,
    };
    match context.render() {
        Err(e) => Err(e),
        Ok(_) => Ok(context),
    }
}

/// What parsing an in-memory document computes: the raw parse of the
/// text's physical lines, then the resolution pipeline.
pub open spec fn spec_loads(content: Seq<char>) -> Option<SpecContext> {
    match spec_parse_document(spec_split_phys_lines(content)) {
        None => None,
        Some(c0) => spec_pipeline(c0),
    }
}

/// Parsing the same text twice produces identical documents: the parsed,
/// resolved document is a function of the text alone, so any two
/// successful parses of equal text agree. (The JSON projection is a
/// function of the document, so its output bytes agree too.)
pub proof fn lemma_parse_deterministic(content: Seq<char>, c1: SpecContext, c2: SpecContext)
    requires
        spec_loads(content) == Some(c1),
        spec_loads(content) == Some(c2),
    ensures
        c1 == c2,
{
}

/// The parser: one value per parse invocation, so separate parses are
/// independent and share no state.
#[derive(Debug)]
pub struct TycoParser {}

impl TycoParser {
    pub fn new() -> (r: TycoParser) {
        TycoParser {  }
    }

    /// Parses an in-memory document: splits it into physical lines, runs
    /// the line dispatch, and resolves the result.
    pub fn parse_str(&mut self, content: &str) -> (r: Result<TycoContext, TycoError>)
        ensures
            r matches Ok(c) ==> spec_loads(content@) == Some(context_model(c)),
            r is Err <==> spec_loads(content@) is None,
            r matches Err(e) ==> (e is Parse || e is UnknownStruct || e is Reference),
    {
        let lines = split_phys_lines(content);
        parse_lines(&lines)
    }
}

impl Default for TycoParser {
    fn default() -> (r: TycoParser)
        ensures
            r == (TycoParser {  }),
    {
        TycoParser::new()
    }
}

/// Parses a document held in a string.
pub fn loads(content: &str) -> (r: Result<TycoContext, TycoError>)
    ensures
        r matches Ok(c) ==> spec_loads(content@) == Some(context_model(c)),
        r is Err <==> spec_loads(content@) is None,
        r matches Err(e) ==> (e is Parse || e is UnknownStruct || e is Reference),
{
    let mut parser = TycoParser::new();
    parser.parse_str(content)
}

} // verus!
