//! TypeScript declarations: the types the analyzer reads, and the text
//! helpers that turn parser spans into lines, line numbers and comments.
use vstd::prelude::*;
use crate::go_parser::{opt_text, texts, count_char};
use crate::text::{
    trim, starts_with, strip_leading, find, find_char, rfind_char, lines, lemma_find_char,
    lemma_rfind_char, lemma_find_from, chars_of, copy_range, trim_chars, starts_with_str, find_chars,
    find_char_exec, rfind_char_exec, strip_leading_char, split_lines, string_of, push_all,
};
use crate::ts_syntax::ts_statement_nodes;
use oxc_ast::ast::PropertyDefinition;

verus! {

/// The kind of a TypeScript declaration.
#[derive(Debug, Clone, Copy, PartialEq, Eq, Structural)]
pub enum TsDeclKind {
    Class,
    Interface,
    TypeAlias,
}

/// The keyword of each declaration kind.
pub open spec fn kind_name(k: TsDeclKind) -> Seq<char> {
    match k {
        TsDeclKind::Class => "class"@,
        TsDeclKind::Interface => "interface"@,
        TsDeclKind::TypeAlias => "type"@,
    }
}

impl TsDeclKind {
    /// The keyword of the declaration kind: `class`, `interface` or `type`.
    pub fn as_str(&self) -> (s: &'static str)
        ensures
            s@ == kind_name(*self),
    {
        match self {
            TsDeclKind::Class => "class",
            TsDeclKind::Interface => "interface",
            TsDeclKind::TypeAlias => "type",
        }
    }
}

/// One property of a class, interface or object type.
#[derive(Debug, Clone)]
pub struct TsField {
    pub name: String,
    pub type_str: String,
    pub optional: bool,
    pub line_number: usize,
    pub raw_line: String,
}

/// A class, interface or object type alias.
#[derive(Debug, Clone)]
pub struct TsDeclaration {
    pub name: String,
    pub kind: TsDeclKind,
    pub type_params: Option<String>,
    pub fields: Vec<TsField>,
    pub doc_comments: Vec<String>,
    pub line_number: usize,
    pub has_extends: bool,
}

/// The declarations found in one TypeScript source file.
#[derive(Debug, Clone)]
pub struct TsFile {
    pub path: String,
    pub declarations: Vec<TsDeclaration>,
}

/// What a `TsField` holds, as text.
pub struct TsFieldModel {
    pub name: Seq<char>,
    pub type_str: Seq<char>,
    pub optional: bool,
    pub line_number: int,
    pub raw_line: Seq<char>,
}

/// What a `TsDeclaration` holds, as text.
pub struct TsDeclModel {
    pub name: Seq<char>,
    pub kind: TsDeclKind,
    pub type_params: Option<Seq<char>>,
    pub fields: Seq<TsFieldModel>,
    pub doc_comments: Seq<Seq<char>>,
    pub line_number: int,
    pub has_extends: bool,
}

impl View for TsField {
    type V = TsFieldModel;

    open spec fn view(&self) -> TsFieldModel {
        TsFieldModel {
            name: self.name@,
            type_str: self.type_str@,
            optional: self.optional,
            line_number: self.line_number as int,
            raw_line: self.raw_line@,
        }
    }
}

pub open spec fn ts_field_models(v: Seq<TsField>) -> Seq<TsFieldModel> {
    v.map_values(|f: TsField| f@)
}

impl View for TsDeclaration {
    type V = TsDeclModel;

    open spec fn view(&self) -> TsDeclModel {
        TsDeclModel {
            name: self.name@,
            kind: self.kind,
            type_params: opt_text(self.type_params),
            fields: ts_field_models(self.fields@),
            doc_comments: texts(self.doc_comments@),
            line_number: self.line_number as int,
            has_extends: self.has_extends,
        }
    }
}


// ---------------------------------------------------------------------------
// Byte offsets into source text
// ---------------------------------------------------------------------------

/// Number of bytes in the UTF-8 encoding of `c`.
pub open spec fn utf8_width(c: char) -> int {
    let u = c as u32;
    if u <= 0x7f {
        1
    } else if u <= 0x7ff {
        2
    } else if u <= 0xffff {
        3
    } else {
        4
    }
}

/// Number of bytes in the UTF-8 encoding of `s`.
pub open spec fn utf8_len(s: Seq<char>) -> int
    decreases s.len(),
{
    if s.len() == 0 {
        0
    } else {
        utf8_width(s[0]) + utf8_len(s.drop_first())
    }
}

/// `utf8_len` is the length of `str`'s byte view.
pub proof fn lemma_utf8_len_is_encoded_len(s: Seq<char>)
    ensures
        utf8_len(s) == vstd::utf8::encode_utf8(s).len(),
    decreases s.len(),
{
    if s.len() > 0 {
        lemma_utf8_len_is_encoded_len(s.drop_first());
        vstd::utf8::char_is_scalar(s[0]);
    }
}

proof fn lemma_utf8_len_push(s: Seq<char>, k: int)
    requires
        0 <= k < s.len(),
    ensures
        utf8_len(s.take(k + 1)) == utf8_len(s.take(k)) + utf8_width(s[k]),
    decreases k,
{
    if k == 0 {
        assert(s.take(1).drop_first() =~= Seq::<char>::empty());
        assert(s.take(0) =~= Seq::<char>::empty());
    } else {
        let t = s.drop_first();
        lemma_utf8_len_push(t, k - 1);
        assert(s.take(k + 1).drop_first() =~= t.take(k));
        assert(s.take(k).drop_first() =~= t.take(k - 1));
    }
}

proof fn lemma_utf8_len_prefix_mono(s: Seq<char>, j: int, k: int)
    requires
        0 <= j <= k <= s.len(),
    ensures
        utf8_len(s.take(j)) + (k - j) <= utf8_len(s.take(k)),
    decreases k - j,
{
    if j < k {
        lemma_utf8_len_prefix_mono(s, j, k - 1);
        lemma_utf8_len_push(s, k - 1);
    }
}

/// Byte offset `b` falls at the start of character `k` of `s` (or at its end).
pub open spec fn char_at_byte(s: Seq<char>, b: int, k: int) -> bool {
    0 <= k <= s.len() && utf8_len(s.take(k)) == b
}

/// Byte offset `b` falls on a character boundary of `s`.
pub open spec fn is_boundary(s: Seq<char>, b: int) -> bool {
    exists|k: int| char_at_byte(s, b, k)
}

/// The index of the character that starts at byte offset `b`.
pub open spec fn char_index(s: Seq<char>, b: int) -> int {
    choose|k: int| char_at_byte(s, b, k)
}

proof fn lemma_char_index_unique(s: Seq<char>, b: int, k1: int, k2: int)
    requires
        char_at_byte(s, b, k1),
        char_at_byte(s, b, k2),
    ensures
        k1 == k2,
{
    if k1 < k2 {
        lemma_utf8_len_prefix_mono(s, k1, k2);
    } else if k2 < k1 {
        lemma_utf8_len_prefix_mono(s, k2, k1);
    }
}

/// The character index for byte offset `b`, or `None` where `b` is not on a
/// character boundary.
fn char_index_exec(s: &[char], b: usize) -> (r: Option<usize>)
    requires
        utf8_len(s@) <= usize::MAX,
    ensures
        r matches Some(k) ==> char_at_byte(s@, b as int, k as int) && k == char_index(s@, b as int),
        r is None ==> !is_boundary(s@, b as int),
{
    let mut i: usize = 0;
    let mut acc: usize = 0;
    assert(s@.take(0) =~= Seq::<char>::empty());
    assert(s@.take(s@.len() as int) =~= s@);
    while i < s.len() && acc < b
        invariant
            i <= s@.len(),
            acc == utf8_len(s@.take(i as int)),
            utf8_len(s@) <= usize::MAX,
            s@.take(s@.len() as int) == s@,
            forall|k: int| 0 <= k < i ==> utf8_len(#[trigger] s@.take(k)) < b,
        decreases s@.len() - i,
    {
        let c = s[i];
        let u = c as u32;
        let w: usize = if u <= 0x7f {
            1
        } else if u <= 0x7ff {
            2
        } else if u <= 0xffff {
            3
        } else {
            4
        };
        proof {
            lemma_utf8_len_push(s@, i as int);
            lemma_utf8_len_prefix_mono(s@, i + 1, s@.len() as int);
        }
        acc = acc + w;
        i = i + 1;
    }
    if acc == b {
        proof {
            assert(char_at_byte(s@, b as int, i as int));
            let k = char_index(s@, b as int);
            lemma_char_index_unique(s@, b as int, k, i as int);
        }
        Some(i)
    } else {
        proof {
            assert forall|k: int| !char_at_byte(s@, b as int, k) by {
                if char_at_byte(s@, b as int, k) {
                    if k > i {
                        lemma_utf8_len_prefix_mono(s@, i as int, k);
                    } else if k < i {
                    }
                }
            }
        }
        None
    }
}

/// `offset.min(src.len())` for a byte offset.
pub open spec fn clamp(b: int, s: Seq<char>) -> int {
    if b < utf8_len(s) {
        b
    } else {
        utf8_len(s)
    }
}

/// 1-based number of the line holding character `k`.
pub open spec fn line_number_at(s: Seq<char>, k: int) -> int {
    count_char(s.take(k), '\n') + 1
}

/// Start and end of the line holding character `k`, line feed excluded.
pub open spec fn line_bounds(s: Seq<char>, k: int) -> (int, int) {
    let start = match rfind_char(s.take(k), '\n') {
        Some(p) => p + 1,
        None => 0,
    };
    let end = match find_char(s.skip(k), '\n') {
        Some(q) => k + q,
        None => s.len() as int,
    };
    (start, end)
}

/// The line holding character `k`.
pub open spec fn line_text(s: Seq<char>, k: int) -> Seq<char> {
    s.subrange(line_bounds(s, k).0, line_bounds(s, k).1)
}

/// The `//` comment lines directly above line `i` of `ls`, as written, top
/// first.
pub open spec fn comment_lines_before(ls: Seq<Seq<char>>, i: int) -> Seq<Seq<char>>
    decreases i,
{
    if i <= 0 || i > ls.len() || !starts_with(trim(ls[i - 1]), "//"@) {
        seq![]
    } else {
        comment_lines_before(ls, i - 1).push(ls[i - 1])
    }
}

/// The comment lines directly above character `k`.
pub open spec fn docs_above(s: Seq<char>, k: int) -> Seq<Seq<char>> {
    let ls = lines(s.take(k));
    comment_lines_before(ls, ls.len() as int)
}

fn line_number_chars(s: &[char], k: usize) -> (r: usize)
    requires
        k <= s@.len(),
        k < usize::MAX,
    ensures
        r == line_number_at(s@, k as int),
{
    let mut n: usize = 0;
    let mut i: usize = 0;
    assert(s@.take(0) =~= Seq::<char>::empty());
    while i < k
        invariant
            i <= k <= s@.len(),
            n == count_char(s@.take(i as int), '\n'),
            n <= i,
        decreases k - i,
    {
        assert(s@.take(i + 1).drop_last() =~= s@.take(i as int));
        if s[i] == '\n' {
            n = n + 1;
        }
        i = i + 1;
    }
    n + 1
}

fn line_text_chars(s: &[char], k: usize) -> (r: Vec<char>)
    requires
        k <= s@.len(),
    ensures
        r@ == line_text(s@, k as int),
{
    let n = s.len();
    let before = &s[0..k];
    assert(before@ =~= s@.take(k as int));
    proof {
        lemma_rfind_char(before@, '\n');
    }
    let start = match rfind_char_exec(before, '\n') {
        Some(p) => p + 1,
        None => 0,
    };
    let after = &s[k..n];
    assert(after@ =~= s@.skip(k as int));
    proof {
        lemma_find_char(after@, '\n');
    }
    let end = match find_char_exec(after, '\n') {
        Some(q) => k + q,
        None => n,
    };
    copy_range(s, start, end)
}

fn docs_above_chars(s: &[char], k: usize) -> (r: Vec<String>)
    requires
        k <= s@.len(),
    ensures
        texts(r@) == docs_above(s@, k as int),
{
    let before = &s[0..k];
    assert(before@ =~= s@.take(k as int));
    let lines = split_lines(before);
    let ghost ls = lines.deep_view();
    let mut r: Vec<String> = Vec::new();
    let mut j = lines.len();
    let mut more = true;
    assert(comment_lines_before(ls, j as int) =~= comment_lines_before(ls, j as int) + texts(r@));
    while j > 0 && more
        invariant
            ls == lines.deep_view(),
            j <= ls.len(),
            comment_lines_before(ls, ls.len() as int) == comment_lines_before(ls, j as int) + texts(r@),
            !more ==> comment_lines_before(ls, j as int) == Seq::<Seq<char>>::empty(),
        decreases j + if more { 1int } else { 0int },
    {
        let line = lines[j - 1].as_slice();
        assert(line@ == ls[j - 1]);
        let t = trim_chars(line);
        if !starts_with_str(t.as_slice(), "//") {
            more = false;
        } else {
            let ghost old_r = r@;
            r.insert(0, string_of(line));
            assert(texts(r@) =~= seq![line@] + texts(old_r));
            assert(comment_lines_before(ls, j as int) == comment_lines_before(ls, j - 1).push(line@));
            assert(comment_lines_before(ls, j - 1).push(line@) + texts(old_r) =~= comment_lines_before(ls, j - 1) + (
            seq![line@] + texts(old_r)));
            j = j - 1;
        }
    }
    assert(comment_lines_before(ls, j as int) =~= Seq::<Seq<char>>::empty());
    assert(comment_lines_before(ls, ls.len() as int) =~= texts(r@));
    r
}

/// A `str` holds at most `isize::MAX` bytes.
pub open spec fn src_fits(s: Seq<char>) -> bool {
    utf8_len(s) <= isize::MAX
}

/// The source text as characters, and its length in bytes.
fn source_chars(src: &str) -> (r: (Vec<char>, usize))
    requires
        src_fits(src@),
    ensures
        r.0@ == src@,
        r.1 == utf8_len(src@),
{
    let c = chars_of(src);
    proof {
        lemma_utf8_len_is_encoded_len(src@);
    }
    let n = src.len();
    (c, n)
}

proof fn lemma_index_below_len(s: Seq<char>, b: int, k: int)
    requires
        char_at_byte(s, b, k),
    ensures
        k <= b,
{
    lemma_utf8_len_prefix_mono(s, 0, k);
    assert(s.take(0) =~= Seq::<char>::empty());
}

/// 1-based line number of the byte offset `offset` (clamped to the end of
/// `src`).
pub fn byte_to_line(src: &str, offset: usize) -> (r: usize)
    requires
        src_fits(src@),
        is_boundary(src@, clamp(offset as int, src@)),
    ensures
        r == line_number_at(src@, char_index(src@, clamp(offset as int, src@))),
{
    let (s, n) = source_chars(src);
    let safe = if offset < n { offset } else { n };
    match char_index_exec(s.as_slice(), safe) {
        Some(k) => {
            proof {
                lemma_index_below_len(s@, safe as int, k as int);
            }
            line_number_chars(s.as_slice(), k)
        },
        None => 0,
    }
}

/// The full line of `src` that holds the byte offset `offset`.
pub fn line_at(src: &str, offset: usize) -> (r: String)
    requires
        src_fits(src@),
        is_boundary(src@, clamp(offset as int, src@)),
    ensures
        r@ == line_text(src@, char_index(src@, clamp(offset as int, src@))),
{
    let (s, n) = source_chars(src);
    let safe = if offset < n { offset } else { n };
    match char_index_exec(s.as_slice(), safe) {
        Some(k) => string_of(line_text_chars(s.as_slice(), k).as_slice()),
        None => String::new(),
    }
}

/// The `//` comment lines directly above the declaration that starts at byte
/// offset `decl_start`, as written.
pub fn doc_comments_before(src: &str, decl_start: usize) -> (r: Vec<String>)
    requires
        src_fits(src@),
        is_boundary(src@, clamp(decl_start as int, src@)),
    ensures
        texts(r@) == docs_above(src@, char_index(src@, clamp(decl_start as int, src@))),
{
    let (s, n) = source_chars(src);
    let safe = if decl_start < n { decl_start } else { n };
    match char_index_exec(s.as_slice(), safe) {
        Some(k) => docs_above_chars(s.as_slice(), k),
        None => Vec::new(),
    }
}

/// A type annotation without its leading `:` (or `?:`), trimmed.
pub open spec fn strip_colon_spec(s: Seq<char>) -> Seq<char> {
    trim(strip_leading(strip_leading(strip_leading(s, ':'), '?'), ':'))
}

fn strip_colon_chars(s: &[char]) -> (r: Vec<char>)
    ensures
        r@ == strip_colon_spec(s@),
{
    let a = strip_leading_char(s, ':');
    let b = strip_leading_char(a.as_slice(), '?');
    let c = strip_leading_char(b.as_slice(), ':');
    trim_chars(c.as_slice())
}

/// Strips a leading `:` (or `?:`) from a type annotation's text, and trims it.
pub fn strip_colon(s: &str) -> (r: String)
    ensures
        r@ == strip_colon_spec(s@),
{
    let c = chars_of(s);
    string_of(strip_colon_chars(c.as_slice()).as_slice())
}

/// The text of a type annotation given by its byte span, without the colon.
pub open spec fn annotation_text(s: Seq<char>, start: int, end: int) -> Seq<char> {
    strip_colon_spec(s.subrange(char_index(s, start), char_index(s, end)))
}

/// The byte span `start..end` lies within `s` on character boundaries.
pub open spec fn span_ok(s: Seq<char>, start: int, end: int) -> bool {
    &&& start <= end
    &&& is_boundary(s, start)
    &&& is_boundary(s, end)
}

/// The type written in the annotation at bytes `start..end` of `src`.
pub fn type_str_from_annotation(ann_span_start: u32, ann_span_end: u32, src: &str) -> (r: String)
    requires
        src_fits(src@),
        span_ok(src@, ann_span_start as int, ann_span_end as int),
    ensures
        r@ == annotation_text(src@, ann_span_start as int, ann_span_end as int),
{
    let (s, _n) = source_chars(src);
    match (char_index_exec(s.as_slice(), ann_span_start as usize), char_index_exec(s.as_slice(), ann_span_end as usize)) {
        (Some(a), Some(b)) => {
            proof {
                lemma_char_index_order(s@, ann_span_start as int, ann_span_end as int);
            }
            let piece = copy_range(s.as_slice(), a, b);
            string_of(strip_colon_chars(piece.as_slice()).as_slice())
        },
        _ => String::new(),
    }
}

proof fn lemma_char_index_order(s: Seq<char>, b1: int, b2: int)
    requires
        b1 <= b2,
        is_boundary(s, b1),
        is_boundary(s, b2),
    ensures
        char_index(s, b1) <= char_index(s, b2),
{
    let k1 = char_index(s, b1);
    let k2 = char_index(s, b2);
    if k2 < k1 {
        lemma_utf8_len_prefix_mono(s, k2, k1);
    }
}


// ---------------------------------------------------------------------------
// Declarations read from the parser's syntax tree
// ---------------------------------------------------------------------------

/// A property key: an identifier or a string literal, or another kind of key
/// (private `#name`, computed `[expr]`).
#[derive(Debug, Clone)]
pub enum TsKeyNode {
    Identifier(String),
    StringLiteral(String),
    Other,
}

/// A property of a class body, interface body or object type literal, with
/// byte offsets into the source.
#[derive(Debug, Clone)]
pub struct TsPropNode {
    pub key: TsKeyNode,
    pub is_static: bool,
    pub optional: bool,
    /// Byte span of the type annotation (colon included).
    pub annotation: Option<(u32, u32)>,
    /// Byte offset where the property starts.
    pub start: u32,
}

/// A member of a class body, interface body or object type literal.
#[derive(Debug, Clone)]
pub enum TsMemberNode {
    Property(TsPropNode),
    Other,
}

/// A class declaration.
#[derive(Debug, Clone)]
pub struct TsClassNode {
    pub name: Option<String>,
    pub start: u32,
    /// The class has an `extends` clause.
    pub has_super_class: bool,
    /// The number of interfaces in its `implements` clause.
    pub implements: usize,
    /// Byte span of the type parameters, angle brackets included.
    pub type_params: Option<(u32, u32)>,
    pub members: Vec<TsMemberNode>,
}

/// An interface declaration.
#[derive(Debug, Clone)]
pub struct TsInterfaceNode {
    pub name: String,
    pub start: u32,
    /// The number of types in its `extends` clause.
    pub extends: usize,
    pub type_params: Option<(u32, u32)>,
    pub members: Vec<TsMemberNode>,
}

/// A type alias; `literal` holds the members when the aliased type is an
/// object type literal.
#[derive(Debug, Clone)]
pub struct TsAliasNode {
    pub name: String,
    pub start: u32,
    pub type_params: Option<(u32, u32)>,
    pub literal: Option<Vec<TsMemberNode>>,
}

/// A declaration.
#[derive(Debug, Clone)]
pub enum TsDeclNode {
    Class(TsClassNode),
    Interface(TsInterfaceNode),
    TypeAlias(TsAliasNode),
    Other,
}

/// A top-level statement.
#[derive(Debug, Clone)]
pub enum TsStmtNode {
    Decl(TsDeclNode),
    ExportNamed(Option<TsDeclNode>),
    ExportDefaultClass(TsClassNode),
    Other,
}

pub open spec fn key_name(k: TsKeyNode) -> Option<Seq<char>> {
    match k {
        TsKeyNode::Identifier(n) => Some(n@),
        TsKeyNode::StringLiteral(n) => Some(n@),
        TsKeyNode::Other => None,
    }
}

/// A property that becomes a field: it has a named key, and (in a class) it
/// is not static.
pub open spec fn prop_used(p: TsPropNode, skip_static: bool) -> bool {
    !(skip_static && p.is_static) && key_name(p.key) is Some
}

/// The offsets the field of `p` is read from lie on character boundaries.
pub open spec fn prop_spans_ok(p: TsPropNode, s: Seq<char>) -> bool {
    &&& is_boundary(s, clamp(p.start as int, s))
    &&& match p.annotation {
        Some(sp) => span_ok(s, sp.0 as int, sp.1 as int),
        None => true,
    }
}

/// The field that the property `p` declares.
pub open spec fn prop_model(p: TsPropNode, s: Seq<char>) -> TsFieldModel {
    let k = char_index(s, clamp(p.start as int, s));
    TsFieldModel {
        name: key_name(p.key)->0,
        type_str: match p.annotation {
            Some(sp) => annotation_text(s, sp.0 as int, sp.1 as int),
            None => "any"@,
        },
        optional: p.optional,
        line_number: line_number_at(s, k),
        raw_line: line_text(s, k),
    }
}

/// The fields that the members declare.
pub open spec fn members_models(ms: Seq<TsMemberNode>, s: Seq<char>, skip_static: bool) -> Seq<TsFieldModel>
    decreases ms.len(),
{
    if ms.len() == 0 {
        seq![]
    } else {
        members_models(ms.drop_last(), s, skip_static) + match ms.last() {
            TsMemberNode::Property(p) => if prop_used(p, skip_static) {
                seq![prop_model(p, s)]
            } else {
                seq![]
            },
            TsMemberNode::Other => seq![],
        }
    }
}

/// A member that becomes a field is read at character boundaries.
pub open spec fn member_ok(m: TsMemberNode, s: Seq<char>, skip_static: bool) -> bool {
    match m {
        TsMemberNode::Property(p) => prop_used(p, skip_static) ==> prop_spans_ok(p, s),
        TsMemberNode::Other => true,
    }
}

pub open spec fn members_ok(ms: Seq<TsMemberNode>, s: Seq<char>, skip_static: bool) -> bool {
    forall|i: int| 0 <= i < ms.len() ==> member_ok(#[trigger] ms[i], s, skip_static)
}

pub open spec fn tp_ok(tp: Option<(u32, u32)>, s: Seq<char>) -> bool {
    match tp {
        Some(sp) => span_ok(s, sp.0 as int, sp.1 as int),
        None => true,
    }
}

pub open spec fn tp_text(tp: Option<(u32, u32)>, s: Seq<char>) -> Option<Seq<char>> {
    match tp {
        Some(sp) => Some(s.subrange(char_index(s, sp.0 as int), char_index(s, sp.1 as int))),
        None => None,
    }
}

/// A declaration starting at byte `start`: its header data, the fields and
/// the comment lines above it.
pub open spec fn decl_model(
    name: Seq<char>,
    kind: TsDeclKind,
    start: u32,
    tp: Option<(u32, u32)>,
    fields: Seq<TsFieldModel>,
    has_extends: bool,
    s: Seq<char>,
) -> TsDeclModel {
    let k = char_index(s, clamp(start as int, s));
    TsDeclModel {
        name,
        kind,
        type_params: tp_text(tp, s),
        fields,
        doc_comments: docs_above(s, k),
        line_number: line_number_at(s, k),
        has_extends,
    }
}

/// A class extends another class or implements an interface: it is then
/// reported as one whose layout builds on other types.
pub open spec fn class_heritage(c: TsClassNode) -> bool {
    c.has_super_class || c.implements > 0
}

/// The declarations (none or one) that a declaration node yields.
pub open spec fn decl_node_models(d: TsDeclNode, s: Seq<char>) -> Seq<TsDeclModel> {
    match d {
        TsDeclNode::Class(c) => match c.name {
            Some(n) => seq![decl_model(n@, TsDeclKind::Class, c.start, c.type_params, members_models(c.members@, s, true), class_heritage(c), s)],
            None => seq![],
        },
        TsDeclNode::Interface(i) => seq![decl_model(i.name@, TsDeclKind::Interface, i.start, i.type_params, members_models(i.members@, s, false), i.extends > 0, s)],
        TsDeclNode::TypeAlias(a) => match a.literal {
            Some(ms) => seq![decl_model(a.name@, TsDeclKind::TypeAlias, a.start, a.type_params, members_models(ms@, s, false), false, s)],
            None => seq![],
        },
        TsDeclNode::Other => seq![],
    }
}

/// The type-parameter span a declaration node carries.
pub open spec fn node_type_param_span(d: TsDeclNode) -> Option<(u32, u32)> {
    match d {
        TsDeclNode::Class(c) => c.type_params,
        TsDeclNode::Interface(i) => i.type_params,
        TsDeclNode::TypeAlias(a) => a.type_params,
        TsDeclNode::Other => None,
    }
}

/// The node is a named class, an interface, or an alias of an object type
/// literal: the kinds of declaration that are reported.
pub open spec fn node_is_reported(d: TsDeclNode) -> bool {
    match d {
        TsDeclNode::Class(c) => c.name is Some,
        TsDeclNode::Interface(_) => true,
        TsDeclNode::TypeAlias(a) => a.literal is Some,
        TsDeclNode::Other => false,
    }
}

/// Type parameters are read from the source: a statement that declares a
/// named class, an interface or an object type alias yields exactly one
/// declaration, of that name, whose type parameters are the source text of
/// the node's type-parameter span (angle brackets included), and none where
/// the node has no such span. A class exported as the default yields the
/// same declaration.
pub proof fn lemma_type_params_from_source(d: TsDeclNode, s: Seq<char>)
    requires
        node_is_reported(d),
    ensures
        stmts_models(seq![TsStmtNode::Decl(d)], s).len() == 1,
        node_type_param_span(d) matches Some(sp) ==> stmts_models(seq![TsStmtNode::Decl(d)], s)[0].type_params
            == Some(s.subrange(char_index(s, sp.0 as int), char_index(s, sp.1 as int))),
        node_type_param_span(d) is None ==> stmts_models(seq![TsStmtNode::Decl(d)], s)[0].type_params is None,
        d matches TsDeclNode::Class(c) ==> stmts_models(seq![TsStmtNode::Decl(d)], s)[0].name == c.name->0@
            && stmts_models(seq![TsStmtNode::Decl(d)], s)[0].kind == TsDeclKind::Class
            && stmts_models(seq![TsStmtNode::ExportDefaultClass(c)], s) == stmts_models(
            seq![TsStmtNode::Decl(d)],
            s,
        ),
        d matches TsDeclNode::Interface(i) ==> stmts_models(seq![TsStmtNode::Decl(d)], s)[0].name == i.name@
            && stmts_models(seq![TsStmtNode::Decl(d)], s)[0].kind == TsDeclKind::Interface,
        d matches TsDeclNode::TypeAlias(a) ==> stmts_models(seq![TsStmtNode::Decl(d)], s)[0].name == a.name@
            && stmts_models(seq![TsStmtNode::Decl(d)], s)[0].kind == TsDeclKind::TypeAlias,
{
    let one = seq![TsStmtNode::Decl(d)];
    assert(one.drop_last() =~= Seq::<TsStmtNode>::empty());
    assert(one.last() == TsStmtNode::Decl(d));
    assert(stmts_models(Seq::<TsStmtNode>::empty(), s) =~= Seq::<TsDeclModel>::empty());
    assert(stmts_models(one, s) =~= Seq::<TsDeclModel>::empty() + decl_node_models(d, s));
    if let TsDeclNode::Class(c) = d {
        let exp = seq![TsStmtNode::ExportDefaultClass(c)];
        assert(exp.drop_last() =~= Seq::<TsStmtNode>::empty());
        assert(exp.last() == TsStmtNode::ExportDefaultClass(c));
        assert(stmts_models(exp, s) =~= Seq::<TsDeclModel>::empty() + decl_node_models(d, s));
    }
}

/// The offsets read for a declaration node lie on character boundaries.
pub open spec fn decl_node_ok(d: TsDeclNode, s: Seq<char>) -> bool {
    match d {
        TsDeclNode::Class(c) => c.name is Some ==> (is_boundary(s, clamp(c.start as int, s)) && tp_ok(c.type_params, s)
            && members_ok(c.members@, s, true)),
        TsDeclNode::Interface(i) => is_boundary(s, clamp(i.start as int, s)) && tp_ok(i.type_params, s)
            && members_ok(i.members@, s, false),
        TsDeclNode::TypeAlias(a) => match a.literal {
            Some(ms) => is_boundary(s, clamp(a.start as int, s)) && tp_ok(a.type_params, s) && members_ok(ms@, s, false),
            None => true,
        },
        TsDeclNode::Other => true,
    }
}

/// The declaration node a statement stands for, if any.
pub open spec fn stmt_decl(st: TsStmtNode) -> Option<TsDeclNode> {
    match st {
        TsStmtNode::Decl(d) => Some(d),
        TsStmtNode::ExportNamed(d) => d,
        TsStmtNode::ExportDefaultClass(c) => Some(TsDeclNode::Class(c)),
        TsStmtNode::Other => None,
    }
}

/// The declarations of the statements, in order.
pub open spec fn stmts_models(sts: Seq<TsStmtNode>, s: Seq<char>) -> Seq<TsDeclModel>
    decreases sts.len(),
{
    if sts.len() == 0 {
        seq![]
    } else {
        stmts_models(sts.drop_last(), s) + match stmt_decl(sts.last()) {
            Some(d) => decl_node_models(d, s),
            None => seq![],
        }
    }
}

pub open spec fn stmts_ok(sts: Seq<TsStmtNode>, s: Seq<char>) -> bool {
    forall|i: int| 0 <= i < sts.len() ==> (#[trigger] stmt_decl(sts[i]) matches Some(d) ==> decl_node_ok(d, s))
}

pub open spec fn decl_models(v: Seq<TsDeclaration>) -> Seq<TsDeclModel> {
    v.map_values(|d: TsDeclaration| d@)
}

/// The field name of a property key: identifiers and string literals have
/// one; private and computed keys do not.
pub fn field_name_from_key(key: &TsKeyNode) -> (r: Option<String>)
    ensures
        opt_text(r) == key_name(*key),
{
    match key {
        TsKeyNode::Identifier(n) => Some(n.clone()),
        TsKeyNode::StringLiteral(n) => Some(n.clone()),
        TsKeyNode::Other => None,
    }
}

/// Source text as characters with its byte length.
struct Source {
    chars: Vec<char>,
    bytes: usize,
}

impl Source {
    spec fn wf(&self) -> bool {
        self.bytes == utf8_len(self.chars@) && utf8_len(self.chars@) <= isize::MAX
    }

    /// The character index for a byte offset clamped to the end of the text.
    fn index_at(&self, b: u32) -> (r: Option<usize>)
        requires
            self.wf(),
        ensures
            r is Some <==> is_boundary(self.chars@, clamp(b as int, self.chars@)),
            r matches Some(k) ==> k == char_index(self.chars@, clamp(b as int, self.chars@)) && char_at_byte(
                self.chars@,
                clamp(b as int, self.chars@),
                k as int,
            ) && k < usize::MAX,
    {
        let b = b as usize;
        let safe = if b < self.bytes { b } else { self.bytes };
        let r = char_index_exec(self.chars.as_slice(), safe);
        proof {
            if let Some(k) = r {
                lemma_index_below_len(self.chars@, safe as int, k as int);
            }
        }
        r
    }

    /// The text of a byte span.
    fn span_text(&self, a: u32, b: u32) -> (r: Option<Vec<char>>)
        requires
            self.wf(),
        ensures
            r is Some <==> span_ok(self.chars@, a as int, b as int),
            r matches Some(v) ==> v@ == self.chars@.subrange(char_index(self.chars@, a as int), char_index(self.chars@, b as int)),
    {
        if a > b {
            return None;
        }
        let ka = char_index_exec(self.chars.as_slice(), a as usize);
        let kb = char_index_exec(self.chars.as_slice(), b as usize);
        match (ka, kb) {
            (Some(x), Some(y)) => {
                proof {
                    lemma_char_index_order(self.chars@, a as int, b as int);
                }
                Some(copy_range(self.chars.as_slice(), x, y))
            },
            _ => None,
        }
    }
}

fn prop_field(p: &TsPropNode, src: &Source) -> (r: Option<TsField>)
    requires
        src.wf(),
        key_name(p.key) is Some,
    ensures
        r is Some <==> prop_spans_ok(*p, src.chars@),
        r matches Some(f) ==> f@ == prop_model(*p, src.chars@),
{
    let s = src.chars.as_slice();
    let k = match src.index_at(p.start) {
        Some(k) => k,
        None => return None,
    };
    let type_str = match p.annotation {
        Some((a, b)) => match src.span_text(a, b) {
            Some(v) => strip_colon_chars(v.as_slice()),
            None => return None,
        },
        None => chars_of("any"),
    };
    let name = match field_name_from_key(&p.key) {
        Some(n) => n,
        None => String::new(),
    };
    Some(
        TsField {
            name,
            type_str: string_of(type_str.as_slice()),
            optional: p.optional,
            line_number: line_number_chars(s, k),
            raw_line: string_of(line_text_chars(s, k).as_slice()),
        },
    )
}

fn members_fields(ms: &Vec<TsMemberNode>, src: &Source, skip_static: bool) -> (r: Option<Vec<TsField>>)
    requires
        src.wf(),
    ensures
        r is Some <==> members_ok(ms@, src.chars@, skip_static),
        r matches Some(v) ==> ts_field_models(v@) == members_models(ms@, src.chars@, skip_static),
{
    let ghost s = src.chars@;
    let mut v: Vec<TsField> = Vec::new();
    let mut i: usize = 0;
    assert(ms@.take(0) =~= Seq::<TsMemberNode>::empty());
    while i < ms.len()
        invariant
            src.wf(),
            s == src.chars@,
            i <= ms@.len(),
            ts_field_models(v@) == members_models(ms@.take(i as int), s, skip_static),
            members_ok(ms@.take(i as int), s, skip_static),
        decreases ms@.len() - i,
    {
        let ghost pre = ms@.take(i as int);
        assert(ms@.take(i + 1).drop_last() =~= pre);
        assert(ms@.take(i + 1).last() == ms@[i as int]);
        match &ms[i] {
            TsMemberNode::Property(p) => {
                if !(skip_static && p.is_static) && (match &p.key {
                    TsKeyNode::Other => false,
                    _ => true,
                }) {
                    match prop_field(p, src) {
                        Some(f) => {
                            let ghost old_v = v@;
                            v.push(f);
                            assert(ts_field_models(v@) =~= ts_field_models(old_v).push(f@));
                            assert(ts_field_models(old_v).push(f@) =~= members_models(pre, s, skip_static) + seq![prop_model(*p, s)]);
                        },
                        None => {
                            proof {
                                assert(!members_ok(ms@, s, skip_static)) by {
                                    assert(!member_ok(ms@[i as int], s, skip_static));
                                }
                            }
                            return None;
                        },
                    }
                } else {
                    assert(members_models(ms@.take(i + 1), s, skip_static) =~= members_models(pre, s, skip_static));
                }
            },
            TsMemberNode::Other => {
                assert(members_models(ms@.take(i + 1), s, skip_static) =~= members_models(pre, s, skip_static));
            },
        }
        assert(members_ok(ms@.take(i + 1), s, skip_static)) by {
            assert forall|j: int| 0 <= j < i + 1 implies member_ok(#[trigger] ms@.take(i + 1)[j], s, skip_static) by {
                if j < i {
                    assert(ms@.take(i + 1)[j] == pre[j]);
                }
            }
        }
        i = i + 1;
    }
    assert(ms@.take(ms@.len() as int) =~= ms@);
    Some(v)
}

fn opt_span_text(tp: &Option<(u32, u32)>, src: &Source) -> (r: Option<Option<String>>)
    requires
        src.wf(),
    ensures
        r is Some <==> tp_ok(*tp, src.chars@),
        r matches Some(o) ==> opt_text(o) == tp_text(*tp, src.chars@),
{
    match tp {
        Some((a, b)) => match src.span_text(*a, *b) {
            Some(v) => Some(Some(string_of(v.as_slice()))),
            None => None,
        },
        None => Some(None),
    }
}

fn make_decl(
    name: &String,
    kind: TsDeclKind,
    start: u32,
    tp: &Option<(u32, u32)>,
    fields: Vec<TsField>,
    has_extends: bool,
    src: &Source,
) -> (r: Option<TsDeclaration>)
    requires
        src.wf(),
    ensures
        r is Some <==> is_boundary(src.chars@, clamp(start as int, src.chars@)) && tp_ok(*tp, src.chars@),
        r matches Some(d) ==> d@ == decl_model(name@, kind, start, *tp, ts_field_models(fields@), has_extends, src.chars@),
{
    let s = src.chars.as_slice();
    let k = match src.index_at(start) {
        Some(k) => k,
        None => return None,
    };
    let type_params = match opt_span_text(tp, src) {
        Some(o) => o,
        None => return None,
    };
    Some(
        TsDeclaration {
            name: name.clone(),
            kind,
            type_params,
            fields,
            doc_comments: docs_above_chars(s, k),
            line_number: line_number_chars(s, k),
            has_extends,
        },
    )
}

fn push_made(made: Option<TsDeclaration>, results: &mut Vec<TsDeclaration>)
    ensures
        decl_models(final(results)@) == decl_models(old(results)@) + match made {
            Some(x) => seq![x@],
            None => Seq::<TsDeclModel>::empty(),
        },
{
    match made {
        Some(x) => {
            let ghost old_r = results@;
            results.push(x);
            assert(decl_models(results@) =~= decl_models(old_r).push(x@));
        },
        None => {
            assert(decl_models(results@) =~= decl_models(old(results)@) + Seq::<TsDeclModel>::empty());
        },
    }
}

fn handle_class(c: &TsClassNode, src: &Source, results: &mut Vec<TsDeclaration>) -> (ok: bool)
    requires
        src.wf(),
    ensures
        ok == decl_node_ok(TsDeclNode::Class(*c), src.chars@),
        ok ==> decl_models(final(results)@) == decl_models(old(results)@) + decl_node_models(
            TsDeclNode::Class(*c),
            src.chars@,
        ),
{
    let made = match &c.name {
        Some(n) => match members_fields(&c.members, src, true) {
            Some(fields) => match make_decl(n, TsDeclKind::Class, c.start, &c.type_params, fields, c.has_super_class || c.implements > 0, src) {
                Some(x) => Some(x),
                None => return false,
            },
            None => return false,
        },
        None => None,
    };
    push_made(made, results);
    true
}

fn handle_declaration(d: &TsDeclNode, src: &Source, results: &mut Vec<TsDeclaration>) -> (ok: bool)
    requires
        src.wf(),
    ensures
        ok == decl_node_ok(*d, src.chars@),
        ok ==> decl_models(final(results)@) == decl_models(old(results)@) + decl_node_models(*d, src.chars@),
{
    let made = match d {
        TsDeclNode::Class(c) => {
            return handle_class(c, src, results);
        },
        TsDeclNode::Interface(i) => match members_fields(&i.members, src, false) {
            Some(fields) => match make_decl(&i.name, TsDeclKind::Interface, i.start, &i.type_params, fields, i.extends > 0, src) {
                Some(x) => Some(x),
                None => return false,
            },
            None => return false,
        },
        TsDeclNode::TypeAlias(a) => match &a.literal {
            Some(ms) => match members_fields(ms, src, false) {
                Some(fields) => match make_decl(&a.name, TsDeclKind::TypeAlias, a.start, &a.type_params, fields, false, src) {
                    Some(x) => Some(x),
                    None => return false,
                },
                None => return false,
            },
            None => None,
        },
        TsDeclNode::Other => None,
    };
    push_made(made, results);
    true
}

/// The class, interface and object type declarations that the statements
/// hold, in order, read against the source text `src`; `None` where an
/// offset that is read does not fall on a character boundary of `src`.
pub fn declarations_from_statements(src: &str, stmts: &Vec<TsStmtNode>) -> (r: Option<Vec<TsDeclaration>>)
    requires
        src_fits(src@),
    ensures
        r is Some <==> stmts_ok(stmts@, src@),
        r matches Some(v) ==> decl_models(v@) == stmts_models(stmts@, src@),
{
    let (chars, bytes) = source_chars(src);
    let source = Source { chars, bytes };
    let ghost s = src@;
    let mut results: Vec<TsDeclaration> = Vec::new();
    let mut i: usize = 0;
    assert(stmts@.take(0) =~= Seq::<TsStmtNode>::empty());
    assert(decl_models(results@) =~= Seq::<TsDeclModel>::empty());
    while i < stmts.len()
        invariant
            source.wf(),
            s == source.chars@,
            s == src@,
            i <= stmts@.len(),
            decl_models(results@) == stmts_models(stmts@.take(i as int), s),
            stmts_ok(stmts@.take(i as int), s),
        decreases stmts@.len() - i,
    {
        let ghost pre = stmts@.take(i as int);
        assert(stmts@.take(i + 1).drop_last() =~= pre);
        assert(stmts@.take(i + 1).last() == stmts@[i as int]);
        let ok = match &stmts[i] {
            TsStmtNode::Decl(d) => handle_declaration(d, &source, &mut results),
            TsStmtNode::ExportNamed(Some(d)) => handle_declaration(d, &source, &mut results),
            TsStmtNode::ExportDefaultClass(c) => handle_class(c, &source, &mut results),
            _ => true,
        };
        if !ok {
            proof {
                assert(!stmts_ok(stmts@, s)) by {
                    assert(!(stmt_decl(stmts@[i as int]) matches Some(d) ==> decl_node_ok(d, s)));
                }
            }
            return None;
        }
        assert(decl_models(results@) =~= stmts_models(stmts@.take(i + 1), s));
        assert(stmts_ok(stmts@.take(i + 1), s)) by {
            assert forall|j: int| 0 <= j < i + 1 implies (#[trigger] stmt_decl(stmts@.take(i + 1)[j]) matches Some(d) ==> decl_node_ok(d, s)) by {
                if j < i {
                    assert(stmts@.take(i + 1)[j] == pre[j]);
                }
            }
        }
        i = i + 1;
    }
    assert(stmts@.take(stmts@.len() as int) =~= stmts@);
    Some(results)
}

/// Two properties agree on all but their `static` marks.
pub open spec fn prop_same(a: TsPropNode, b: TsPropNode) -> bool {
    &&& a.key == b.key
    &&& a.optional == b.optional
    &&& a.annotation == b.annotation
    &&& a.start == b.start
}

pub open spec fn member_same(a: TsMemberNode, b: TsMemberNode) -> bool {
    match (a, b) {
        (TsMemberNode::Property(p), TsMemberNode::Property(q)) => prop_same(p, q),
        (TsMemberNode::Other, TsMemberNode::Other) => true,
        _ => false,
    }
}

pub open spec fn members_same(a: Seq<TsMemberNode>, b: Seq<TsMemberNode>) -> bool {
    &&& a.len() == b.len()
    &&& forall|i: int| 0 <= i < a.len() ==> member_same(#[trigger] a[i], b[i])
}

pub open spec fn class_same(a: TsClassNode, b: TsClassNode) -> bool {
    &&& a.name == b.name
    &&& a.start == b.start
    &&& a.has_super_class == b.has_super_class
    &&& a.implements == b.implements
    &&& a.type_params == b.type_params
    &&& members_same(a.members@, b.members@)
}

pub open spec fn decl_same(a: TsDeclNode, b: TsDeclNode) -> bool {
    match (a, b) {
        (TsDeclNode::Class(x), TsDeclNode::Class(y)) => class_same(x, y),
        (TsDeclNode::Interface(x), TsDeclNode::Interface(y)) => {
            &&& x.name == y.name
            &&& x.start == y.start
            &&& x.extends == y.extends
            &&& x.type_params == y.type_params
            &&& members_same(x.members@, y.members@)
        },
        (TsDeclNode::TypeAlias(x), TsDeclNode::TypeAlias(y)) => {
            &&& x.name == y.name
            &&& x.start == y.start
            &&& x.type_params == y.type_params
            &&& match (x.literal, y.literal) {
                (Some(m), Some(n)) => members_same(m@, n@),
                (None, None) => true,
                _ => false,
            }
        },
        (TsDeclNode::Other, TsDeclNode::Other) => true,
        _ => false,
    }
}

pub open spec fn stmt_same(a: TsStmtNode, b: TsStmtNode) -> bool {
    match (a, b) {
        (TsStmtNode::Decl(x), TsStmtNode::Decl(y)) => decl_same(x, y),
        (TsStmtNode::ExportNamed(Some(x)), TsStmtNode::ExportNamed(Some(y))) => decl_same(x, y),
        (TsStmtNode::ExportNamed(None), TsStmtNode::ExportNamed(None)) => true,
        (TsStmtNode::ExportDefaultClass(x), TsStmtNode::ExportDefaultClass(y)) => class_same(x, y),
        (TsStmtNode::Other, TsStmtNode::Other) => true,
        _ => false,
    }
}

/// Two lists of statement nodes agree on all but the `static` marks of
/// their properties.
pub open spec fn stmts_same(a: Seq<TsStmtNode>, b: Seq<TsStmtNode>) -> bool {
    &&& a.len() == b.len()
    &&& forall|i: int| 0 <= i < a.len() ==> stmt_same(#[trigger] a[i], b[i])
}

/// The top-level statements of `src`, parsed by oxc as TypeScript (TSX where
/// `is_tsx`), as plain nodes, one per statement, in order: for each class,
/// interface and type alias the fields of its oxc node copied as they are
/// (its name, start offset, whether it has a super class, how many types it
/// implements or extends, its type-parameter span, and for each member that
/// is a property its key, optional mark, annotation span and start offset).
/// The `static` marks of class properties are not part of what this names:
/// they come from the caller's reading of each property definition.
pub uninterp spec fn ts_nodes_of(src: Seq<char>, is_tsx: bool) -> Seq<TsStmtNode>;

/// Every `static` mark of a class property in `c` is a result of `is_static`
/// on some property definition.
pub open spec fn class_marks_from<F: Fn(&PropertyDefinition) -> bool>(is_static: F, c: TsClassNode) -> bool {
    forall|i: int|
        0 <= i < c.members@.len() ==> (#[trigger] c.members@[i] matches TsMemberNode::Property(p) ==> exists|
            d: &PropertyDefinition,
        | call_ensures(is_static, (d,), p.is_static))
}

/// Every `static` mark of a class property in `nodes` is a result of
/// `is_static` on some property definition.
pub open spec fn static_marks_from<F: Fn(&PropertyDefinition) -> bool>(is_static: F, nodes: Seq<TsStmtNode>) -> bool {
    forall|i: int|
        0 <= i < nodes.len() ==> (stmt_decl(#[trigger] nodes[i]) matches Some(TsDeclNode::Class(c))
            ==> class_marks_from(is_static, c))
}

/// Parses `src` as TypeScript (TSX where `is_tsx`) and returns its class,
/// interface and object type declarations, top-level and exported, in
/// order. `is_static` tells whether a class property definition carries the
/// `static` modifier; such properties are no fields of the instance.
///
/// The declarations are those of the statement nodes that the parse yields
/// (`ts_nodes_of`), with the `static` marks that `is_static` gives (see
/// `declarations_from_statements`); `None` where one of their offsets falls
/// inside a character.
pub fn parse_ts_declarations<F: Fn(&PropertyDefinition) -> bool>(src: &str, is_tsx: bool, is_static: F) -> (r: Option<
    Vec<TsDeclaration>,
>)
    requires
        src_fits(src@),
        forall|p: &PropertyDefinition| #[trigger] is_static.requires((p,)),
    ensures
        exists|nodes: Seq<TsStmtNode>|
            {
                &&& #[trigger] stmts_same(nodes, ts_nodes_of(src@, is_tsx))
                &&& static_marks_from(is_static, nodes)
                &&& (r is Some <==> stmts_ok(nodes, src@))
                &&& (r matches Some(v) ==> decl_models(v@) == stmts_models(nodes, src@))
            },
{
    let nodes = ts_statement_nodes(src, is_tsx, &is_static);
    let r = declarations_from_statements(src, &nodes);
    assert(stmts_same(nodes@, ts_nodes_of(src@, is_tsx)));
    r
}

} // verus!
