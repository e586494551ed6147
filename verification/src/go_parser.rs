//! Go source scanning: finds `type Name[Params] struct { ... }` declarations by
//! brace counting and reads their fields, line by line.
use vstd::prelude::*;
use crate::text::{
    is_ws, trim, trim_start, trim_end, strip_leading, starts_with, find, find_char, rfind_char, after_last,
    lines, lemma_find_char, lemma_rfind_char, lemma_trim_len, lemma_find_from, chars_of, copy_range,
    trim_chars, trim_end_chars, starts_with_str, eq_str, find_str, find_char_exec, rfind_char_exec,
    after_last_char, strip_leading_char, is_whitespace, split_lines, string_of,
};

verus! {

/// One field of a Go struct.
#[derive(Debug, Clone)]
pub struct GoField {
    pub name: String,
    pub type_str: String,
    pub tag: Option<String>,
    pub inline_comment: Option<String>,
    pub line_number: usize,
    pub raw_line: String,
}

/// A Go struct declaration.
#[derive(Debug, Clone)]
pub struct GoStruct {
    pub name: String,
    pub type_params: Option<String>,
    pub fields: Vec<GoField>,
    pub doc_comments: Vec<String>,
    pub line_number: usize,
}

/// The structs found in one Go source file.
#[derive(Debug, Clone)]
pub struct GoFile {
    pub path: String,
    pub structs: Vec<GoStruct>,
}

/// What a `GoField` holds, as text.
pub struct FieldModel {
    pub name: Seq<char>,
    pub type_str: Seq<char>,
    pub tag: Option<Seq<char>>,
    pub inline_comment: Option<Seq<char>>,
    pub line_number: int,
    pub raw_line: Seq<char>,
}

/// What a `GoStruct` holds, as text.
pub struct StructModel {
    pub name: Seq<char>,
    pub type_params: Option<Seq<char>>,
    pub fields: Seq<FieldModel>,
    pub doc_comments: Seq<Seq<char>>,
    pub line_number: int,
}

pub open spec fn opt_text(o: Option<String>) -> Option<Seq<char>> {
    match o {
        Some(s) => Some(s@),
        None => None,
    }
}

impl View for GoField {
    type V = FieldModel;

    open spec fn view(&self) -> FieldModel {
        FieldModel {
            name: self.name@,
            type_str: self.type_str@,
            tag: opt_text(self.tag),
            inline_comment: opt_text(self.inline_comment),
            line_number: self.line_number as int,
            raw_line: self.raw_line@,
        }
    }
}

pub open spec fn texts(v: Seq<String>) -> Seq<Seq<char>> {
    v.map_values(|s: String| s@)
}

pub open spec fn field_models(v: Seq<GoField>) -> Seq<FieldModel> {
    v.map_values(|f: GoField| f@)
}

impl View for GoStruct {
    type V = StructModel;

    open spec fn view(&self) -> StructModel {
        StructModel {
            name: self.name@,
            type_params: opt_text(self.type_params),
            fields: field_models(self.fields@),
            doc_comments: texts(self.doc_comments@),
            line_number: self.line_number as int,
        }
    }
}

pub open spec fn struct_models(v: Seq<GoStruct>) -> Seq<StructModel> {
    v.map_values(|s: GoStruct| s@)
}

/// Whether `c` has the Unicode `Uppercase` property (`char::is_uppercase`).
pub uninterp spec fn char_is_uppercase(c: char) -> bool;

/// Calls `char::is_uppercase`; the result is named `char_is_uppercase`.
/// Among ASCII characters the `Uppercase` property holds of `'A'..='Z'` and
/// of no other (its documentation: `'C'` is upper case, `'c'` is not).
#[verifier::external_body]
fn is_uppercase(c: char) -> (b: bool)
    ensures
        b == char_is_uppercase(c),
        (c as u32) < 0x80 ==> (b <==> ('A' <= c <= 'Z')),
{
    c.is_uppercase()
}

// ---------------------------------------------------------------------------
// Specification of the scanner
// ---------------------------------------------------------------------------

/// Index in `s` (which starts with `'['`) of the `']'` that closes it, scanning
/// from `i` at bracket depth `depth`; `s.len()` when it is never closed.
pub open spec fn bracket_close_from(s: Seq<char>, i: int, depth: int) -> int
    decreases s.len() - i,
{
    if i < 0 || i >= s.len() {
        s.len() as int
    } else if s[i] == '[' {
        bracket_close_from(s, i + 1, depth + 1)
    } else if s[i] == ']' {
        if depth - 1 == 0 {
            i
        } else {
            bracket_close_from(s, i + 1, depth - 1)
        }
    } else {
        bracket_close_from(s, i + 1, depth)
    }
}

/// A struct header: the name, the type parameters, and whether the opening
/// brace is on the same line.
pub open spec fn struct_header(line: Seq<char>) -> Option<(Seq<char>, Option<Seq<char>>, bool)> {
    let l = trim(line);
    if !starts_with(l, "type "@) {
        None
    } else {
        let rest = l.skip(5);
        match find(rest, " struct"@) {
            None => None,
            Some(sp) => {
                let name_part = rest.take(sp);
                let name = match find_char(name_part, '[') {
                    Some(b) => trim(name_part.take(b)),
                    None => trim(name_part),
                };
                let tp = match find_char(name_part, '[') {
                    Some(b) => {
                        let after = name_part.skip(b);
                        Some(trim(after.subrange(1, bracket_close_from(after, 0, 0))))
                    },
                    None => None,
                };
                if name.len() == 0 || !char_is_uppercase(name[0]) {
                    None
                } else {
                    Some((name, tp, starts_with(trim(rest.skip(sp + 7)), "{"@)))
                }
            },
        }
    }
}

/// Position where a `//` comment starts in `s`, outside backtick and double
/// quote strings, scanning from `i`.
pub open spec fn comment_start_from(s: Seq<char>, i: int, in_bt: bool, in_dq: bool) -> Option<int>
    decreases s.len() - i,
{
    if i < 0 || i >= s.len() {
        None
    } else if s[i] == '`' && !in_dq {
        comment_start_from(s, i + 1, !in_bt, in_dq)
    } else if s[i] == '"' && !in_bt {
        comment_start_from(s, i + 1, in_bt, !in_dq)
    } else if s[i] == '/' && !in_bt && !in_dq && i + 1 < s.len() && s[i + 1] == '/' {
        Some(i)
    } else {
        comment_start_from(s, i + 1, in_bt, in_dq)
    }
}

/// The code before a trailing `//` comment, and the comment.
pub open spec fn comment_split(s: Seq<char>) -> (Seq<char>, Option<Seq<char>>) {
    match comment_start_from(s, 0, false, false) {
        Some(i) => (s.take(i), Some(s.skip(i))),
        None => (s, None),
    }
}

/// The declaration before a backtick struct tag, and the tag.
pub open spec fn tag_split(s: Seq<char>) -> (Seq<char>, Option<Seq<char>>) {
    match rfind_char(s, '`') {
        Some(st) => match rfind_char(s.take(st), '`') {
            Some(e) => (trim_end(s.take(e)), Some(s.subrange(e, st + 1))),
            None => (s, None),
        },
        None => (s, None),
    }
}

/// Position of the first whitespace character of `s`.
pub open spec fn first_ws(s: Seq<char>) -> Option<int>
    decreases s.len(),
{
    if s.len() == 0 {
        None
    } else if is_ws(s[0]) {
        Some(0)
    } else {
        match first_ws(s.drop_first()) {
            Some(k) => Some(k + 1),
            None => None,
        }
    }
}

/// The field declared by a line of a struct body, if it declares one.
pub open spec fn field_of_line(trimmed: Seq<char>, raw: Seq<char>, line_number: int) -> Option<FieldModel> {
    if trimmed.len() == 0 || trimmed == "}"@ || starts_with(trimmed, "//"@) {
        None
    } else {
        let code = trim(comment_split(trimmed).0);
        let comment = comment_split(trimmed).1;
        if code.len() == 0 {
            None
        } else {
            let decl = trim(tag_split(code).0);
            let tag = tag_split(code).1;
            match first_ws(decl) {
                None => Some(
                    FieldModel {
                        name: after_last(strip_leading(decl, '*'), '.'),
                        type_str: decl,
                        tag,
                        inline_comment: comment,
                        line_number,
                        raw_line: raw,
                    },
                ),
                Some(w) => {
                    let n = decl.take(w);
                    let t = trim(decl.skip(w + 1));
                    if starts_with(n, "("@) || t.len() == 0 {
                        None
                    } else {
                        Some(
                            FieldModel {
                                name: n,
                                type_str: t,
                                tag,
                                inline_comment: comment,
                                line_number,
                                raw_line: raw,
                            },
                        )
                    }
                },
            }
        }
    }
}

/// Number of occurrences of `c` in `s`.
pub open spec fn count_char(s: Seq<char>, c: char) -> int
    decreases s.len(),
{
    if s.len() == 0 {
        0
    } else {
        count_char(s.drop_last(), c) + if s.last() == c {
            1int
        } else {
            0int
        }
    }
}

/// Number of `'{'` less the number of `'}'` in `s`.
pub open spec fn brace_delta(s: Seq<char>) -> int {
    count_char(s, '{') - count_char(s, '}')
}

/// Total number of characters in the lines.
pub open spec fn total_len(ls: Seq<Seq<char>>) -> int
    decreases ls.len(),
{
    if ls.len() == 0 {
        0
    } else {
        total_len(ls.drop_last()) + ls.last().len()
    }
}

/// Fields of the struct body that starts at line `start`, read from line `i`
/// on at brace depth `depth`, and the index of the line that closes the body.
pub open spec fn extract_from(lines: Seq<Seq<char>>, start: int, i: int, depth: int) -> (
    Seq<FieldModel>,
    int,
)
    decreases lines.len() - i,
{
    if i < 0 || i >= lines.len() {
        (seq![], if lines.len() > 0 { lines.len() - 1 } else { 0 })
    } else {
        let t = trim(lines[i]);
        let d = depth + brace_delta(t);
        if d == 0 {
            (seq![], i)
        } else {
            let rest = extract_from(lines, start, i + 1, d);
            let f = if d == 1 && i != start {
                field_of_line(t, lines[i], i + 1)
            } else {
                None
            };
            match f {
                Some(fm) => (seq![fm] + rest.0, rest.1),
                None => rest,
            }
        }
    }
}

/// The `//` comment lines directly above line `i`, trimmed, top first.
pub open spec fn docs_before(lines: Seq<Seq<char>>, i: int) -> Seq<Seq<char>>
    decreases i,
{
    if i <= 0 || i > lines.len() || !starts_with(trim(lines[i - 1]), "//"@) {
        seq![]
    } else {
        docs_before(lines, i - 1).push(trim(lines[i - 1]))
    }
}

pub proof fn lemma_extract_end(lines: Seq<Seq<char>>, start: int, i: int, depth: int)
    requires
        0 <= i < lines.len(),
    ensures
        i <= extract_from(lines, start, i, depth).1 < lines.len(),
    decreases lines.len() - i,
{
    let t = trim(lines[i]);
    let d = depth + brace_delta(t);
    if d != 0 {
        if i + 1 < lines.len() {
            lemma_extract_end(lines, start, i + 1, d);
        } else {
            assert(extract_from(lines, start, i + 1, d).1 == lines.len() - 1);
        }
    }
}

proof fn lemma_comment_start_bound(s: Seq<char>, i: int, in_bt: bool, in_dq: bool)
    requires
        0 <= i,
    ensures
        comment_start_from(s, i, in_bt, in_dq) matches Some(k) ==> i <= k < s.len(),
    decreases s.len() - i,
{
    if i < s.len() {
        lemma_comment_start_bound(s, i + 1, !in_bt, in_dq);
        lemma_comment_start_bound(s, i + 1, in_bt, !in_dq);
        lemma_comment_start_bound(s, i + 1, in_bt, in_dq);
    }
}

/// The structs declared in the lines from `i` on.
pub open spec fn structs_from(lines: Seq<Seq<char>>, i: int) -> Seq<StructModel>
    decreases lines.len() - i,
{
    if i < 0 || i >= lines.len() {
        seq![]
    } else {
        match struct_header(lines[i]) {
            None => structs_from(lines, i + 1),
            Some(h) => {
                let body = if h.2 {
                    i
                } else {
                    i + 1
                };
                if h.2 || (i + 1 < lines.len() && trim(lines[i + 1]) == "{"@) {
                    let ex = extract_from(lines, body, body, 0);
                    let sm = StructModel {
                        name: h.0,
                        type_params: h.1,
                        fields: ex.0,
                        doc_comments: docs_before(lines, i),
                        line_number: i + 1,
                    };
                    if i < ex.1 + 1 <= lines.len() {
                        seq![sm] + structs_from(lines, ex.1 + 1)
                    } else {
                        seq![]
                    }
                } else {
                    structs_from(lines, i + 1)
                }
            },
        }
    }
}

/// The struct declarations of a Go source text.
pub open spec fn go_structs(content: Seq<char>) -> Seq<StructModel> {
    structs_from(lines(content), 0)
}

// ---------------------------------------------------------------------------
// Scanner
// ---------------------------------------------------------------------------

fn bracket_close(s: &[char]) -> (r: usize)
    requires
        s@.len() > 0,
        s@[0] == '[',
    ensures
        r == bracket_close_from(s@, 0, 0),
        1 <= r <= s@.len(),
{
    let mut depth: usize = 1;
    let mut i: usize = 1;
    while i < s.len()
        invariant
            1 <= i <= s@.len(),
            1 <= depth <= i,
            bracket_close_from(s@, 0, 0) == bracket_close_from(s@, i as int, depth as int),
        decreases s@.len() - i,
    {
        let c = s[i];
        if c == '[' {
            depth = depth + 1;
        } else if c == ']' {
            if depth - 1 == 0 {
                return i;
            }
            depth = depth - 1;
        }
        i = i + 1;
    }
    s.len()
}

/// Reads a struct header: `type Name[Params] struct` with an exported name.
fn try_parse_struct_header(line: &[char]) -> (r: Option<(Vec<char>, Option<Vec<char>>, bool)>)
    ensures
        match (r, struct_header(line@)) {
            (Some(x), Some(y)) => x.0@ == y.0 && x.2 == y.2 && match (x.1, y.1) {
                (Some(a), Some(b)) => a@ == b,
                (None, None) => true,
                _ => false,
            },
            (None, None) => true,
            _ => false,
        },
{
    let l = trim_chars(line);
    if !starts_with_str(l.as_slice(), "type ") {
        return None;
    }
    proof {
        reveal_strlit("type ");
        reveal_strlit(" struct");
    }
    let rest = copy_range(l.as_slice(), 5, l.len());
    assert(rest@ =~= l@.skip(5));
    let sp = match find_str(rest.as_slice(), " struct") {
        Some(sp) => sp,
        None => return None,
    };
    proof {
        lemma_find_from(rest@, " struct"@, 0);
    }
    let name_part = copy_range(rest.as_slice(), 0, sp);
    assert(name_part@ =~= rest@.take(sp as int));
    proof {
        lemma_find_char(name_part@, '[');
    }
    let (name, tp) = match find_char_exec(name_part.as_slice(), '[') {
        Some(b) => {
            let head = copy_range(name_part.as_slice(), 0, b);
            assert(head@ =~= name_part@.take(b as int));
            let name = trim_chars(head.as_slice());
            let after = copy_range(name_part.as_slice(), b, name_part.len());
            assert(after@ =~= name_part@.skip(b as int));
            let close = bracket_close(after.as_slice());
            let inner = copy_range(after.as_slice(), 1, close);
            (name, Some(trim_chars(inner.as_slice())))
        },
        None => (trim_chars(name_part.as_slice()), None),
    };
    if name.len() == 0 || !is_uppercase(name[0]) {
        return None;
    }
    let after_struct = copy_range(rest.as_slice(), sp + 7, rest.len());
    assert(after_struct@ =~= rest@.skip(sp + 7));
    let ta = trim_chars(after_struct.as_slice());
    let brace = starts_with_str(ta.as_slice(), "{");
    Some((name, tp, brace))
}

fn comment_start(s: &[char]) -> (r: Option<usize>)
    ensures
        r matches Some(i) ==> comment_start_from(s@, 0, false, false) == Some(i as int),
        r is None ==> comment_start_from(s@, 0, false, false) is None,
{
    let mut in_bt = false;
    let mut in_dq = false;
    let mut i: usize = 0;
    while i < s.len()
        invariant
            i <= s@.len(),
            comment_start_from(s@, 0, false, false) == comment_start_from(s@, i as int, in_bt, in_dq),
        decreases s@.len() - i,
    {
        let c = s[i];
        if c == '`' && !in_dq {
            in_bt = !in_bt;
        } else if c == '"' && !in_bt {
            in_dq = !in_dq;
        } else if c == '/' && !in_bt && !in_dq && i + 1 < s.len() && s[i + 1] == '/' {
            return Some(i);
        }
        i = i + 1;
    }
    None
}

fn first_ws_exec(s: &[char]) -> (r: Option<usize>)
    ensures
        r matches Some(k) ==> first_ws(s@) == Some(k as int),
        r is None ==> first_ws(s@) is None,
{
    let mut i: usize = 0;
    while i < s.len()
        invariant
            i <= s@.len(),
            forall|j: int| 0 <= j < i ==> !is_ws(s@[j]),
        decreases s@.len() - i,
    {
        if is_whitespace(s[i]) {
            proof {
                lemma_first_ws(s@, i as int);
            }
            return Some(i);
        }
        i = i + 1;
    }
    proof {
        lemma_first_ws_none(s@);
    }
    None
}

proof fn lemma_first_ws(s: Seq<char>, i: int)
    requires
        0 <= i < s.len(),
        is_ws(s[i]),
        forall|j: int| 0 <= j < i ==> !is_ws(s[j]),
    ensures
        first_ws(s) == Some(i),
    decreases i,
{
    if i > 0 {
        lemma_first_ws(s.drop_first(), i - 1);
    }
}

proof fn lemma_first_ws_none(s: Seq<char>)
    requires
        forall|j: int| 0 <= j < s.len() ==> !is_ws(s[j]),
    ensures
        first_ws(s) is None,
    decreases s.len(),
{
    if s.len() > 0 {
        lemma_first_ws_none(s.drop_first());
    }
}

proof fn lemma_first_ws_bound(s: Seq<char>)
    ensures
        first_ws(s) matches Some(k) ==> 0 <= k < s.len(),
    decreases s.len(),
{
    if s.len() > 0 {
        lemma_first_ws_bound(s.drop_first());
    }
}

proof fn lemma_no_comment(s: Seq<char>, i: int, in_bt: bool, in_dq: bool)
    requires
        forall|j: int| 0 <= j < s.len() ==> s[j] != '/',
    ensures
        comment_start_from(s, i, in_bt, in_dq) is None,
    decreases s.len() - i,
{
    if 0 <= i < s.len() {
        if s[i] == '`' && !in_dq {
            lemma_no_comment(s, i + 1, !in_bt, in_dq);
        } else if s[i] == '"' && !in_bt {
            lemma_no_comment(s, i + 1, in_bt, !in_dq);
        } else {
            lemma_no_comment(s, i + 1, in_bt, in_dq);
        }
    }
}

proof fn lemma_strip_stars(s: Seq<char>) -> (k: int)
    ensures
        0 <= k <= s.len(),
        strip_leading(s, '*') == s.skip(k),
        forall|j: int| 0 <= j < k ==> s[j] == '*',
        k < s.len() ==> s[k] != '*',
    decreases s.len(),
{
    if s.len() > 0 && s[0] == '*' {
        let k1 = lemma_strip_stars(s.drop_first());
        assert(s.drop_first().skip(k1) =~= s.skip(k1 + 1));
        assert forall|j: int| 0 <= j < k1 + 1 implies s[j] == '*' by {
            if j > 0 {
                assert(s[j] == s.drop_first()[j - 1]);
            }
        }
        if k1 + 1 < s.len() {
            assert(s[k1 + 1] == s.drop_first()[k1]);
        }
        k1 + 1
    } else {
        assert(s.skip(0) =~= s);
        0
    }
}

/// A field line that is one token (no space, comment, tag or string) is an
/// embedded field: its type is the token, and its name is the token's last
/// part: no `*` of a pointer and no package qualifier stays in it. The part
/// of the token before the name is either only `*`s, or ends with the `.`
/// that closes the package qualifier.
pub proof fn lemma_embedded_field_name(c: Seq<char>, raw: Seq<char>, n: int)
    requires
        c.len() > 0,
        c != "}"@,
        forall|i: int|
            0 <= i < c.len() ==> !is_ws(#[trigger] c[i]) && c[i] != '/' && c[i] != '`' && c[i] != '"',
        forall|i: int, j: int| 0 <= i < j < c.len() && c[j] == '*' ==> c[i] == '*',
    ensures
        field_of_line(c, raw, n) matches Some(f) && {
            let k = c.len() - f.name.len();
            &&& f.type_str == c
            &&& 0 <= k <= c.len()
            &&& c.skip(k) == f.name
            &&& forall|i: int| 0 <= i < f.name.len() ==> f.name[i] != '*' && f.name[i] != '.'
            &&& (forall|i: int| 0 <= i < k ==> c[i] == '*') || c[k - 1] == '.'
        },
{
    reveal_strlit("//");
    reveal_strlit("}");
    assert(!starts_with(c, "//"@)) by {
        if starts_with(c, "//"@) {
            assert(c[0] == c.take(2)[0]);
        }
    }
    lemma_no_comment(c, 0, false, false);
    assert(comment_split(c) == (c, None::<Seq<char>>));
    assert(trim_start(c) == c);
    assert(trim_end(c) == c);
    assert(trim(c) == c);
    lemma_rfind_char(c, '`');
    assert(rfind_char(c, '`') is None);
    assert(tag_split(c) == (c, None::<Seq<char>>));
    lemma_first_ws_none(c);
    let k0 = lemma_strip_stars(c);
    let x = c.skip(k0);
    assert forall|i: int| 0 <= i < x.len() implies x[i] != '*' by {
        assert(x[i] == c[k0 + i]);
        if c[k0 + i] == '*' && i > 0 {
            assert(c[k0] == '*');
        }
    }
    lemma_rfind_char(x, '.');
    let name = after_last(x, '.');
    match rfind_char(x, '.') {
        Some(d) => {
            assert(name == x.skip(d + 1));
            let k = c.len() - name.len();
            assert(k == k0 + d + 1);
            assert(c.skip(k) =~= name);
            assert(c[k - 1] == x[d]);
            assert forall|i: int| 0 <= i < name.len() implies name[i] != '*' && name[i] != '.' by {
                assert(name[i] == x[d + 1 + i]);
            }
        },
        None => {
            assert(name == x);
            assert(c.skip(k0) =~= name);
        },
    }
}

fn opt_string(o: Option<Vec<char>>) -> (r: Option<String>)
    ensures
        opt_text(r) == match o {
            Some(v) => Some(v@),
            None => None::<Seq<char>>,
        },
{
    match o {
        Some(v) => Some(string_of(v.as_slice())),
        None => None,
    }
}

/// Splits a trailing `//` comment off a field line; `//` inside a backtick
/// tag or a double-quoted string does not start one.
fn split_inline_comment(s: &[char]) -> (r: (Vec<char>, Option<Vec<char>>))
    ensures
        r.0@ == comment_split(s@).0,
        match r.1 {
            Some(v) => comment_split(s@).1 == Some(v@),
            None => comment_split(s@).1 is None,
        },
{
    proof {
        lemma_comment_start_bound(s@, 0, false, false);
    }
    let (code, comment) = match comment_start(s) {
        Some(i) => (copy_range(s, 0, i), Some(copy_range(s, i, s.len()))),
        None => (copy_range(s, 0, s.len()), None),
    };
    assert(code@ =~= comment_split(s@).0);
    assert(match comment {
        Some(v) => comment_split(s@).1 == Some(v@),
        None => comment_split(s@).1 is None,
    }) by {
        if let Some(v) = comment {
            assert(v@ =~= s@.skip(comment_start_from(s@, 0, false, false).unwrap()));
        }
    }
    (code, comment)
}

/// Reads one line of a struct body as a field declaration.
fn parse_field(trimmed: &[char], raw: &[char], line_number: usize) -> (r: Option<GoField>)
    ensures
        match (r, field_of_line(trimmed@, raw@, line_number as int)) {
            (Some(x), Some(y)) => x@ == y,
            (None, None) => true,
            _ => false,
        },
{
    if trimmed.len() == 0 || eq_str(trimmed, "}") || starts_with_str(trimmed, "//") {
        return None;
    }
    let (code0, comment) = split_inline_comment(trimmed);
    let code = trim_chars(code0.as_slice());
    if code.len() == 0 {
        return None;
    }
    let (decl0, tag) = split_tag(code.as_slice());
    let decl = trim_chars(decl0.as_slice());
    let inline_comment = opt_string(comment);
    let tag = opt_string(tag);
    proof {
        lemma_first_ws_bound(decl@);
    }
    match first_ws_exec(decl.as_slice()) {
        None => {
            let t = strip_leading_char(decl.as_slice(), '*');
            let short = after_last_char(t.as_slice(), '.');
            Some(
                GoField {
                    name: string_of(short.as_slice()),
                    type_str: string_of(decl.as_slice()),
                    tag,
                    inline_comment,
                    line_number,
                    raw_line: string_of(raw),
                },
            )
        },
        Some(w) => {
            let n = copy_range(decl.as_slice(), 0, w);
            let t0 = copy_range(decl.as_slice(), w + 1, decl.len());
            assert(n@ =~= decl@.take(w as int));
            assert(t0@ =~= decl@.skip(w + 1));
            let t = trim_chars(t0.as_slice());
            if starts_with_str(n.as_slice(), "(") || t.len() == 0 {
                return None;
            }
            Some(
                GoField {
                    name: string_of(n.as_slice()),
                    type_str: string_of(t.as_slice()),
                    tag,
                    inline_comment,
                    line_number,
                    raw_line: string_of(raw),
                },
            )
        },
    }
}

fn split_tag(s: &[char]) -> (r: (Vec<char>, Option<Vec<char>>))
    ensures
        r.0@ == tag_split(s@).0,
        match r.1 {
            Some(v) => tag_split(s@).1 == Some(v@),
            None => tag_split(s@).1 is None,
        },
{
    let n = s.len();
    proof {
        lemma_rfind_char(s@, '`');
    }
    match rfind_char_exec(s, '`') {
        Some(st) => {
            let head = copy_range(s, 0, st);
            assert(head@ =~= s@.take(st as int));
            proof {
                lemma_rfind_char(head@, '`');
            }
            match rfind_char_exec(head.as_slice(), '`') {
                Some(e) => {
                    let before = copy_range(s, 0, e);
                    assert(before@ =~= s@.take(e as int));
                    let tag = copy_range(s, e, st + 1);
                    (trim_end_chars(before.as_slice()), Some(tag))
                },
                None => (copy_range(s, 0, s.len()), None),
            }
        },
        None => (copy_range(s, 0, s.len()), None),
    }
}


proof fn lemma_count_braces(s: Seq<char>)
    ensures
        0 <= count_char(s, '{'),
        0 <= count_char(s, '}'),
        count_char(s, '{') + count_char(s, '}') <= s.len(),
    decreases s.len(),
{
    if s.len() > 0 {
        lemma_count_braces(s.drop_last());
    }
}

fn count_char_exec(s: &[char], c: char) -> (r: usize)
    ensures
        r == count_char(s@, c),
{
    let mut n: usize = 0;
    let mut i: usize = 0;
    assert(s@.take(0) =~= Seq::<char>::empty());
    while i < s.len()
        invariant
            i <= s@.len(),
            n == count_char(s@.take(i as int), c),
            n <= i,
        decreases s@.len() - i,
    {
        assert(s@.take(i + 1).drop_last() =~= s@.take(i as int));
        if s[i] == c {
            n = n + 1;
        }
        i = i + 1;
    }
    assert(s@.take(s@.len() as int) =~= s@);
    n
}

proof fn lemma_total_len_prefix(ls: Seq<Seq<char>>, i: int)
    requires
        0 <= i <= ls.len(),
    ensures
        0 <= total_len(ls.take(i)) <= total_len(ls),
    decreases ls.len() - i,
{
    if i < ls.len() {
        lemma_total_len_prefix(ls, i + 1);
        assert(ls.take(i + 1).drop_last() =~= ls.take(i));
    } else {
        assert(ls.take(i) =~= ls);
    }
    lemma_total_len_nonneg(ls.take(i));
}

proof fn lemma_total_len_nonneg(ls: Seq<Seq<char>>)
    ensures
        0 <= total_len(ls),
    decreases ls.len(),
{
    if ls.len() > 0 {
        lemma_total_len_nonneg(ls.drop_last());
    }
}

/// No more characters in the lines of a text than in the text.
pub proof fn lemma_lines_total_len(s: Seq<char>)
    ensures
        total_len(lines(s)) <= s.len(),
    decreases s.len(),
{
    if s.len() > 0 {
        crate::text::lemma_find_char(s, '\n');
        match find_char(s, '\n') {
            Some(i) => {
                let rest = s.skip(i + 1);
                lemma_lines_total_len(rest);
                let l = crate::text::strip_cr(s.take(i));
                let ls = seq![l] + lines(rest);
                assert(lines(s) == ls);
                assert(l.len() <= i);
                assert(rest.len() == s.len() - i - 1);
                lemma_total_len_cons(l, lines(rest));
            },
            None => {
                assert(lines(s) == seq![s]);
                lemma_total_len_cons(s, Seq::<Seq<char>>::empty());
                assert(seq![s] + Seq::<Seq<char>>::empty() =~= seq![s]);
                assert(total_len(Seq::<Seq<char>>::empty()) == 0);
            },
        }
    }
}

proof fn lemma_total_len_cons(l: Seq<char>, ls: Seq<Seq<char>>)
    ensures
        total_len(seq![l] + ls) == l.len() + total_len(ls),
    decreases ls.len(),
{
    if ls.len() == 0 {
        assert(seq![l] + ls =~= seq![l]);
        assert(seq![l].drop_last() =~= Seq::<Seq<char>>::empty());
        assert(seq![l].last() == l);
        assert(total_len(seq![l]) == total_len(seq![l].drop_last()) + seq![l].last().len());
    } else {
        lemma_total_len_cons(l, ls.drop_last());
        assert((seq![l] + ls).drop_last() =~= seq![l] + ls.drop_last());
        assert((seq![l] + ls).last() == ls.last());
    }
}

/// Reads the fields of the struct body whose `{` is on line `start`; returns
/// them with the index of the line where the body closes.
fn extract_fields(lines: &Vec<Vec<char>>, start: usize) -> (r: (Vec<GoField>, usize))
    requires
        start < lines@.len(),
        total_len(lines.deep_view()) <= usize::MAX,
    ensures
        field_models(r.0@) == extract_from(lines.deep_view(), start as int, start as int, 0).0,
        r.1 == extract_from(lines.deep_view(), start as int, start as int, 0).1,
{
    let ghost ls = lines.deep_view();
    let ghost whole = extract_from(ls, start as int, start as int, 0);
    let mut fields: Vec<GoField> = Vec::new();
    let mut opens: usize = 0;
    let mut closes: usize = 0;
    let mut i = start;
    proof {
        lemma_total_len_prefix(ls, start as int);
    }
    while i < lines.len()
        invariant
            ls == lines.deep_view(),
            whole == extract_from(ls, start as int, start as int, 0),
            start <= i <= ls.len(),
            total_len(ls) <= usize::MAX,
            opens + closes <= total_len(ls.take(i as int)),
            i == start ==> opens == 0 && closes == 0,
            whole.0 == field_models(fields@) + extract_from(ls, start as int, i as int, opens - closes).0,
            whole.1 == extract_from(ls, start as int, i as int, opens - closes).1,
        decreases ls.len() - i,
    {
        let line = lines[i].as_slice();
        assert(line@ == ls[i as int]);
        let t = trim_chars(line);
        let co = count_char_exec(t.as_slice(), '{');
        let cc = count_char_exec(t.as_slice(), '}');
        proof {
            lemma_count_braces(t@);
            lemma_trim_len(line@);
            lemma_total_len_prefix(ls, i + 1);
            assert(ls.take(i + 1).drop_last() =~= ls.take(i as int));
        }
        let ghost d0 = opens - closes;
        opens = opens + co;
        closes = closes + cc;
        let ghost d = opens - closes;
        assert(d == d0 + brace_delta(t@));
        if opens == closes {
            return (fields, i);
        }
        if opens > closes && opens - closes == 1 && i != start {
            let f = parse_field(t.as_slice(), line, i + 1);
            match f {
                Some(fd) => {
                    let ghost old_f = fields@;
                    fields.push(fd);
                    assert(field_models(fields@) =~= field_models(old_f).push(fd@));
                    assert(field_models(old_f).push(fd@) + extract_from(ls, start as int, i + 1, d).0
                        =~= field_models(old_f) + (seq![fd@] + extract_from(ls, start as int, i + 1, d).0));
                },
                None => {},
            }
        }
        i = i + 1;
    }
    let end = if lines.len() > 0 { lines.len() - 1 } else { 0 };
    assert(field_models(fields@) + Seq::<FieldModel>::empty() =~= field_models(fields@));
    (fields, end)
}

/// The `//` comment lines directly above line `i`, trimmed.
fn doc_comments_above(lines: &Vec<Vec<char>>, i: usize) -> (r: Vec<String>)
    requires
        i <= lines@.len(),
    ensures
        texts(r@) == docs_before(lines.deep_view(), i as int),
{
    let ghost ls = lines.deep_view();
    let mut r: Vec<String> = Vec::new();
    let mut j = i;
    let mut more = true;
    assert(docs_before(ls, i as int) =~= docs_before(ls, j as int) + texts(r@));
    while j > 0 && more
        invariant
            ls == lines.deep_view(),
            j <= i <= ls.len(),
            docs_before(ls, i as int) == docs_before(ls, j as int) + texts(r@),
            !more ==> docs_before(ls, j as int) == Seq::<Seq<char>>::empty(),
        decreases j + if more { 1int } else { 0int },
    {
        let prev = trim_chars(lines[j - 1].as_slice());
        assert(lines[j - 1]@ == ls[j - 1]);
        if !starts_with_str(prev.as_slice(), "//") {
            more = false;
        } else {
            let ghost old_r = r@;
            r.insert(0, string_of(prev.as_slice()));
            assert(texts(r@) =~= seq![prev@] + texts(old_r));
            assert(docs_before(ls, j as int) == docs_before(ls, j - 1).push(prev@));
            assert(docs_before(ls, j - 1).push(prev@) + texts(old_r) =~= docs_before(ls, j - 1) + (
            seq![prev@] + texts(old_r)));
            j = j - 1;
        }
    }
    assert(docs_before(ls, j as int) =~= Seq::<Seq<char>>::empty());
    assert(docs_before(ls, i as int) =~= texts(r@));
    r
}

/// The struct declarations of a Go source text.
pub fn parse_structs(content: &str) -> (r: Vec<GoStruct>)
    ensures
        struct_models(r@) == go_structs(content@),
{
    let chars = chars_of(content);
    let _n = chars.len();
    let lines = split_lines(chars.as_slice());
    let ghost ls = lines.deep_view();
    proof {
        lemma_lines_total_len(chars@);
    }
    let mut structs: Vec<GoStruct> = Vec::new();
    let mut i: usize = 0;
    while i < lines.len()
        invariant
            ls == lines.deep_view(),
            ls == crate::text::lines(content@),
            total_len(ls) <= usize::MAX,
            i <= ls.len(),
            go_structs(content@) == struct_models(structs@) + structs_from(ls, i as int),
        decreases ls.len() - i,
    {
        let line = lines[i].as_slice();
        assert(line@ == ls[i as int]);
        match try_parse_struct_header(line) {
            None => {
                assert(structs_from(ls, i as int) == structs_from(ls, i + 1));
                i = i + 1;
            },
            Some((name, tp, brace_on_line)) => {
                let docs = doc_comments_above(&lines, i);
                let struct_line = i + 1;
                proof {
                    if i + 1 < ls.len() {
                        assert(lines@[i + 1]@ == ls[i + 1]);
                    }
                }
                let body = if brace_on_line {
                    Some(i)
                } else if i + 1 < lines.len() && eq_str(trim_chars(lines[i + 1].as_slice()).as_slice(), "{") {
                    proof {
                        assert(lines[i + 1]@ == ls[i + 1]);
                    }
                    Some(i + 1)
                } else {
                    None
                };
                match body {
                    None => {
                        assert(structs_from(ls, i as int) == structs_from(ls, i + 1));
                        i = i + 1;
                    },
                    Some(b) => {
                        proof {
                            lemma_extract_end(ls, b as int, b as int, 0);
                        }
                        let (fields, end_line) = extract_fields(&lines, b);
                        let s = GoStruct {
                            name: string_of(name.as_slice()),
                            type_params: opt_string(tp),
                            fields,
                            doc_comments: docs,
                            line_number: struct_line,
                        };
                        let ghost old_s = structs@;
                        assert(structs_from(ls, i as int) == seq![s@] + structs_from(ls, end_line + 1));
                        structs.push(s);
                        assert(struct_models(structs@) =~= struct_models(old_s).push(s@));
                        assert(struct_models(old_s).push(s@) + structs_from(ls, end_line + 1) =~=
                            struct_models(old_s) + (seq![s@] + structs_from(ls, end_line + 1)));
                        i = end_line + 1;
                    },
                }
            },
        }
    }
    assert(struct_models(structs@) + structs_from(ls, i as int) =~= struct_models(structs@));
    structs
}

} // verus!
