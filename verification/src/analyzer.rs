//! Padding analysis: sizes of Go and TypeScript field types, the layout of each
//! declaration as written and in the suggested order, and the reordered
//! definition text.
use vstd::prelude::*;
pub use crate::layout::TypeInfo;
use crate::layout::{
    lemma_table_aligns, lemma_align_bounds, wf_info, valid_align, all_wf, all_valid_align, layout_size, layout_fits, max_align,
    round_up, reorder, is_optimal_order, align_non_increasing, struct_layout, optimal_order,
    lemma_round_up, lemma_max_align_bounds, lemma_sorted_layout_is_minimal,
    lemma_sorted_layout_fits,
};
use crate::go_parser::{GoField, GoStruct, GoFile, FieldModel, StructModel, opt_text, texts, field_models, struct_models};
use crate::ts_parser::{TsDeclKind, TsField, TsDeclaration, TsFile, TsFieldModel, TsDeclModel, kind_name, ts_field_models};
use crate::text::{join_lines, lemma_join_lines_append, push_all, lemma_digits_value_nonneg, all_digits, digits_value, digits_part, is_digit,
    trim, starts_with, find_char, after_last, strip_leading, parse_u64, lemma_find_char,
    lemma_trim_len, chars_of, copy_range, trim_chars, starts_with_str, eq_str, find_char_exec,
    after_last_char, strip_leading_char, parse_u64_exec, chars_eq, string_of,
};

verus! {

/// Target architecture of a Go scan.
#[derive(Debug, Clone, Copy, PartialEq, Eq, Structural)]
pub enum Arch {
    Amd64,
    Arm64,
}

/// The lowercase name of each architecture.
pub open spec fn arch_name(a: Arch) -> Seq<char> {
    match a {
        Arch::Amd64 => "amd64"@,
        Arch::Arm64 => "arm64"@,
    }
}

impl Arch {
    /// `"amd64"` or `"arm64"`.
    pub fn as_str(&self) -> (s: &'static str)
        ensures
            s@ == arch_name(*self),
    {
        match self {
            Arch::Amd64 => "amd64",
            Arch::Arm64 => "arm64",
        }
    }
}

/// Reads an architecture name: `"arm64"` is `Arm64`, anything else `Amd64`.
pub fn arch_from_str(s: &str) -> (a: Arch)
    ensures
        a == (if s@ == "arm64"@ {
            Arch::Arm64
        } else {
            Arch::Amd64
        }),
{
    let c = chars_of(s);
    if eq_str(c.as_slice(), "arm64") {
        Arch::Arm64
    } else {
        Arch::Amd64
    }
}

impl std::str::FromStr for Arch {
    type Err = ();

    /// Never fails: `"arm64"` is `Arm64`, anything else `Amd64`.
    fn from_str(s: &str) -> (r: Result<Self, Self::Err>)
        ensures
            r == Ok::<Arch, ()>(if s@ == "arm64"@ {
                Arch::Arm64
            } else {
                Arch::Amd64
            }),
    {
        Ok(arch_from_str(s))
    }
}

// ---------------------------------------------------------------------------
// Registry of named types
// ---------------------------------------------------------------------------

/// Sizes of named types (the structs analysed so far), by type name.
pub struct Registry {
    entries: Vec<(String, TypeInfo)>,
}

/// The entry for `k` last added to `e`.
pub open spec fn lookup(e: Seq<(String, TypeInfo)>, k: Seq<char>) -> Option<TypeInfo>
    decreases e.len(),
{
    if e.len() == 0 {
        None
    } else if e.last().0@ == k {
        Some(e.last().1)
    } else {
        lookup(e.drop_last(), k)
    }
}

impl View for Registry {
    type V = Map<Seq<char>, TypeInfo>;

    closed spec fn view(&self) -> Map<Seq<char>, TypeInfo> {
        Map::new(|k: Seq<char>| lookup(self.entries@, k) is Some, |k: Seq<char>| lookup(self.entries@, k)->0)
    }
}

impl Registry {
    /// An empty registry.
    pub fn new() -> (r: Registry)
        ensures
            r@ == Map::<Seq<char>, TypeInfo>::empty(),
    {
        let r = Registry { entries: Vec::new() };
        assert(r@ =~= Map::<Seq<char>, TypeInfo>::empty());
        r
    }

    /// Records `info` as the size of the type `name`, replacing any earlier
    /// record for that name.
    pub fn insert(&mut self, name: String, info: TypeInfo)
        ensures
            final(self)@ == old(self)@.insert(name@, info),
    {
        let ghost k = name@;
        self.entries.push((name, info));
        assert(self.entries@.drop_last() =~= old(self).entries@);
        assert(self.entries@.last().0@ == k);
        assert(self.entries@.last().1 == info);
        assert forall|j: Seq<char>| #[trigger] lookup(self.entries@, j) == (if j == k {
            Some(info)
        } else {
            lookup(old(self).entries@, j)
        }) by {}
        assert(self@ =~= old(self)@.insert(k, info));
    }

    /// The record for `key`, if there is one.
    pub fn get(&self, key: &[char]) -> (r: Option<TypeInfo>)
        ensures
            r == (if self@.contains_key(key@) {
                Some(self@[key@])
            } else {
                None
            }),
    {
        let mut i = self.entries.len();
        assert(self.entries@.take(i as int) =~= self.entries@);
        while i > 0
            invariant
                i <= self.entries@.len(),
                lookup(self.entries@, key@) == lookup(self.entries@.take(i as int), key@),
            decreases i,
        {
            let e = &self.entries[i - 1];
            assert(self.entries@.take(i as int).drop_last() =~= self.entries@.take(i - 1));
            let ks = chars_of(e.0.as_str());
            if chars_eq(ks.as_slice(), key) {
                return Some(e.1);
            }
            i = i - 1;
        }
        None
    }
}

/// A registry read after a write gives back what was written, and the
/// records of other names stay as they were.
pub proof fn lemma_registry_read_after_write(
    before: Map<Seq<char>, TypeInfo>,
    name: Seq<char>,
    info: TypeInfo,
    other: Seq<char>,
)
    ensures
        before.insert(name, info).contains_key(name),
        before.insert(name, info)[name] == info,
        other != name ==> (before.insert(name, info).contains_key(other) == before.contains_key(other)),
        other != name && before.contains_key(other) ==> before.insert(name, info)[other] == before[other],
{
}

/// Every recorded size is well formed.
pub open spec fn reg_wf(m: Map<Seq<char>, TypeInfo>) -> bool {
    forall|k: Seq<char>| m.contains_key(k) ==> #[trigger] wf_info(m[k])
}

// ---------------------------------------------------------------------------
// Go type sizes
// ---------------------------------------------------------------------------

pub open spec fn exact(size: u64, align: u64) -> TypeInfo {
    TypeInfo { size, align, approximate: false }
}

/// Size and alignment of Go's predeclared types on 64-bit targets.
pub open spec fn go_primitive(t: Seq<char>) -> Option<TypeInfo> {
    if t == "bool"@ || t == "byte"@ || t == "int8"@ || t == "uint8"@ {
        Some(exact(1, 1))
    } else if t == "int16"@ || t == "uint16"@ {
        Some(exact(2, 2))
    } else if t == "int32"@ || t == "uint32"@ || t == "float32"@ || t == "rune"@ {
        Some(exact(4, 4))
    } else if t == "int64"@ || t == "uint64"@ || t == "float64"@ || t == "complex64"@ || t
        == "uintptr"@ {
        Some(exact(8, 8))
    } else if t == "complex128"@ {
        Some(exact(16, 8))
    } else if t == "int"@ || t == "uint"@ {
        Some(exact(8, 8))
    } else if t == "string"@ {
        Some(exact(16, 8))
    } else if t == "error"@ || t == "interface{}"@ || t == "any"@ {
        Some(exact(16, 8))
    } else {
        None
    }
}

/// A named type: looked up without its package qualifier, then as written;
/// unresolved names count 8 bytes, flagged approximate.
pub open spec fn go_named(t: Seq<char>, reg: Map<Seq<char>, TypeInfo>) -> TypeInfo {
    let short = after_last(t, '.');
    if reg.contains_key(short) {
        reg[short]
    } else if reg.contains_key(t) {
        reg[t]
    } else {
        TypeInfo { size: 8, align: 8, approximate: true }
    }
}

/// `[N]T`: the length and the element type.
pub open spec fn go_array_parts(t: Seq<char>) -> Option<(u64, Seq<char>)> {
    match find_char(t, ']') {
        Some(close) => if 1 <= close {
            match parse_u64(t.subrange(1, close)) {
                Some(n) => Some((n, t.skip(close + 1))),
                None => None,
            }
        } else {
            None
        },
        None => None,
    }
}

/// Size, alignment and exactness of a Go type as written in a field
/// declaration; `None` where an array's size does not fit in `u64`.
pub open spec fn go_type_info(t0: Seq<char>, reg: Map<Seq<char>, TypeInfo>) -> Option<TypeInfo>
    decreases t0.len(),
{
    let t = trim(t0);
    if starts_with(t, "*"@) {
        Some(exact(8, 8))
    } else if starts_with(t, "[]"@) {
        Some(exact(24, 8))
    } else if starts_with(t, "["@) && go_array_parts(t) is Some {
        let parts = go_array_parts(t)->0;
        let n = parts.0;
        let elem_t = parts.1;
        proof {
            lemma_trim_len(t0);
            lemma_find_char(t, ']');
        }
        if elem_t.len() < t0.len() {
            match go_type_info(elem_t, reg) {
                Some(e) => if n * e.size <= u64::MAX {
                    Some(TypeInfo { size: (n * e.size) as u64, align: e.align, approximate: e.approximate })
                } else {
                    None
                },
                None => None,
            }
        } else {
            None
        }
    } else if starts_with(t, "map["@) || starts_with(t, "chan "@) || t == "chan"@ || starts_with(
        t,
        "func("@,
    ) || starts_with(t, "func ("@) {
        Some(exact(8, 8))
    } else {
        match go_primitive(t) {
            Some(i) => Some(i),
            None => Some(go_named(t, reg)),
        }
    }
}

proof fn lemma_array_parts_shorter(t0: Seq<char>)
    ensures
        ({
            let t = trim(t0);
            go_array_parts(t) matches Some(p) ==> p.1.len() < t0.len()
        }),
{
    lemma_trim_len(t0);
    lemma_find_char(trim(t0), ']');
}

/// With well-formed recorded sizes, every type size is well formed.
pub proof fn lemma_go_type_info_wf(t0: Seq<char>, reg: Map<Seq<char>, TypeInfo>)
    requires
        reg_wf(reg),
    ensures
        go_type_info(t0, reg) matches Some(i) ==> wf_info(i),
    decreases t0.len(),
{
    lemma_table_aligns();
    let t = trim(t0);
    lemma_array_parts_shorter(t0);
    if !starts_with(t, "*"@) && !starts_with(t, "[]"@) && starts_with(t, "["@) && go_array_parts(t) is Some {
        let parts = go_array_parts(t)->0;
        let n = parts.0;
        let elem_t = parts.1;
        lemma_go_type_info_wf(elem_t, reg);
        if let Some(e) = go_type_info(elem_t, reg) {
            if n * e.size <= u64::MAX {
                lemma_align_bounds(e.align as int);
                let q = (e.size as int) / (e.align as int);
                assert(e.size as int == (e.align as int) * q) by {
                    vstd::arithmetic::div_mod::lemma_fundamental_div_mod(e.size as int, e.align as int);
                }
                assert(n * e.size == (n * q) * (e.align as int)) by {
                    vstd::arithmetic::mul::lemma_mul_is_associative(n as int, q, e.align as int);
                    vstd::arithmetic::mul::lemma_mul_is_commutative(q, e.align as int);
                }
                vstd::arithmetic::div_mod::lemma_mod_multiples_basic(n * q, e.align as int);
            }
        }
    } else {
        let short = after_last(t, '.');
        if reg.contains_key(short) {
            assert(wf_info(reg[short]));
        } else if reg.contains_key(t) {
            assert(wf_info(reg[t]));
        }
        assert(wf_info(go_named(t, reg)));
        assert(wf_info(exact(8, 8)));
        assert(wf_info(exact(24, 8)));
        assert(wf_info(exact(16, 8)));
        assert(wf_info(exact(4, 4)));
        assert(wf_info(exact(2, 2)));
        assert(wf_info(exact(1, 1)));
    }
}

/// An array type `[N]T`, with `N` written in decimal digits, takes `N` times
/// the size of `T`, with `T`'s alignment and exactness, where that size fits
/// in `u64`.
pub proof fn lemma_array_size(t0: Seq<char>, digits: Seq<char>, elem: Seq<char>, reg: Map<Seq<char>, TypeInfo>)
    requires
        trim(t0) == seq!['['] + digits + seq![']'] + elem,
        digits.len() > 0,
        all_digits(digits),
        digits_value(digits) <= u64::MAX,
        go_type_info(elem, reg) is Some,
        digits_value(digits) * go_type_info(elem, reg)->0.size <= u64::MAX,
    ensures
        go_type_info(t0, reg) == Some(
            TypeInfo {
                size: (digits_value(digits) * go_type_info(elem, reg)->0.size) as u64,
                align: go_type_info(elem, reg)->0.align,
                approximate: go_type_info(elem, reg)->0.approximate,
            },
        ),
{
    reveal_strlit("*");
    reveal_strlit("[]");
    reveal_strlit("[");
    let t = trim(t0);
    let close: int = 1 + digits.len() as int;
    assert(t[0] == '[');
    assert(t[close] == ']');
    assert(is_digit(digits[0]));
    assert(t[1] == digits[0]);
    assert(!starts_with(t, "*"@)) by {
        if starts_with(t, "*"@) {
            assert(t.take(1)[0] == "*"@[0]);
        }
    }
    assert(!starts_with(t, "[]"@)) by {
        if starts_with(t, "[]"@) {
            assert(t.take(2)[1] == "[]"@[1]);
        }
    }
    assert(starts_with(t, "["@)) by {
        assert(t.take(1) =~= "["@);
    }
    lemma_find_char(t, ']');
    assert forall|j: int| 0 <= j < close implies t[j] != ']' by {
        if j > 0 {
            assert(t[j] == digits[j - 1]);
            assert(is_digit(digits[j - 1]));
        }
    }
    assert(find_char(t, ']') == Some(close));
    assert(t.subrange(1, close) =~= digits);
    assert(digits_part(digits) == digits);
    assert(t.skip(close + 1) =~= elem);
    lemma_digits_value_nonneg(digits);
    assert((digits_value(digits) as u64) as int == digits_value(digits));
    assert(go_array_parts(t) == Some((digits_value(digits) as u64, elem)));
    lemma_trim_len(t0);
    assert(elem.len() < t0.len());
}

fn go_primitive_exec(t: &[char]) -> (r: Option<TypeInfo>)
    ensures
        r == go_primitive(t@),
{
    if eq_str(t, "bool") || eq_str(t, "byte") || eq_str(t, "int8") || eq_str(t, "uint8") {
        Some(TypeInfo { size: 1, align: 1, approximate: false })
    } else if eq_str(t, "int16") || eq_str(t, "uint16") {
        Some(TypeInfo { size: 2, align: 2, approximate: false })
    } else if eq_str(t, "int32") || eq_str(t, "uint32") || eq_str(t, "float32") || eq_str(t, "rune") {
        Some(TypeInfo { size: 4, align: 4, approximate: false })
    } else if eq_str(t, "int64") || eq_str(t, "uint64") || eq_str(t, "float64") || eq_str(
        t,
        "complex64",
    ) || eq_str(t, "uintptr") {
        Some(TypeInfo { size: 8, align: 8, approximate: false })
    } else if eq_str(t, "complex128") {
        Some(TypeInfo { size: 16, align: 8, approximate: false })
    } else if eq_str(t, "int") || eq_str(t, "uint") {
        Some(TypeInfo { size: 8, align: 8, approximate: false })
    } else if eq_str(t, "string") {
        Some(TypeInfo { size: 16, align: 8, approximate: false })
    } else if eq_str(t, "error") || eq_str(t, "interface{}") || eq_str(t, "any") {
        Some(TypeInfo { size: 16, align: 8, approximate: false })
    } else {
        None
    }
}

/// Size of a Go type as written; `None` where an array's size overflows `u64`.
/// The records a lookup sees: all of them, or all but those of one name.
pub open spec fn lookup_view(reg: Map<Seq<char>, TypeInfo>, except: Option<&[char]>) -> Map<Seq<char>, TypeInfo> {
    match except {
        Some(n) => reg.remove(n@),
        None => reg,
    }
}

fn lookup_except(registry: &Registry, key: &[char], except: Option<&[char]>) -> (r: Option<TypeInfo>)
    ensures
        r == (if lookup_view(registry@, except).contains_key(key@) {
            Some(lookup_view(registry@, except)[key@])
        } else {
            None
        }),
{
    if let Some(n) = except {
        if chars_eq(key, n) {
            return None;
        }
    }
    registry.get(key)
}

fn go_type_info_exec(t0: &[char], registry: &Registry, except: Option<&[char]>) -> (r: Option<TypeInfo>)
    ensures
        r == go_type_info(t0@, lookup_view(registry@, except)),
    decreases t0@.len(),
{
    let t = trim_chars(t0);
    if starts_with_str(t.as_slice(), "*") {
        return Some(TypeInfo { size: 8, align: 8, approximate: false });
    }
    if starts_with_str(t.as_slice(), "[]") {
        return Some(TypeInfo { size: 24, align: 8, approximate: false });
    }
    if starts_with_str(t.as_slice(), "[") {
        proof {
            lemma_array_parts_shorter(t0@);
            lemma_find_char(t@, ']');
        }
        if let Some(close) = find_char_exec(t.as_slice(), ']') {
            if close >= 1 {
                let n_str = copy_range(t.as_slice(), 1, close);
                if let Some(n) = parse_u64_exec(n_str.as_slice()) {
                    let tn = t.len();
                    let elem_t = copy_range(t.as_slice(), close + 1, tn);
                    assert(elem_t@ =~= t@.skip(close + 1));
                    let elem = go_type_info_exec(elem_t.as_slice(), registry, except);
                    return match elem {
                        Some(e) => match n.checked_mul(e.size) {
                            Some(size) => Some(
                                TypeInfo { size, align: e.align, approximate: e.approximate },
                            ),
                            None => None,
                        },
                        None => None,
                    };
                }
            }
        }
    }
    if starts_with_str(t.as_slice(), "map[") || starts_with_str(t.as_slice(), "chan ") || eq_str(
        t.as_slice(),
        "chan",
    ) || starts_with_str(t.as_slice(), "func(") || starts_with_str(t.as_slice(), "func (") {
        return Some(TypeInfo { size: 8, align: 8, approximate: false });
    }
    match go_primitive_exec(t.as_slice()) {
        Some(i) => Some(i),
        None => {
            let short = after_last_char(t.as_slice(), '.');
            match lookup_except(registry, short.as_slice(), except) {
                Some(i) => Some(i),
                None => match lookup_except(registry, t.as_slice(), except) {
                    Some(i) => Some(i),
                    None => Some(TypeInfo { size: 8, align: 8, approximate: true }),
                },
            }
        },
    }
}

/// Size, alignment and exactness of the Go type written `type_str`, for the
/// 64-bit targets (both architectures share one size table). Pointers, maps,
/// channels and functions take 8 bytes; slices 24; `[N]T` N times `T`;
/// struct names are looked up in `registry`; unresolved names count 8
/// bytes, flagged approximate.
pub fn type_info(type_str: &str, arch: Arch, registry: &Registry) -> (r: TypeInfo)
    requires
        go_type_info(type_str@, registry@) is Some,
    ensures
        r == go_type_info(type_str@, registry@)->0,
{
    let t = chars_of(type_str);
    match go_type_info_exec(t.as_slice(), registry, None) {
        Some(i) => i,
        None => TypeInfo { size: 8, align: 8, approximate: true },
    }
}

/// `type_info`, or `None` where the size of an array type overflows `u64`.
pub fn type_info_checked(type_str: &str, arch: Arch, registry: &Registry) -> (r: Option<TypeInfo>)
    ensures
        r == go_type_info(type_str@, registry@),
{
    let t = chars_of(type_str);
    go_type_info_exec(t.as_slice(), registry, None)
}


// ---------------------------------------------------------------------------
// Analysis of one declaration
// ---------------------------------------------------------------------------

/// The padding analysis of one declaration.
#[derive(Debug, Clone)]
pub struct AnalyzedStruct {
    pub name: String,
    pub type_params: Option<String>,
    pub line_number: usize,
    pub current_size: u64,
    pub optimal_size: u64,
    pub bytes_saved: u64,
    pub current_def: String,
    pub optimized_def: String,
    pub has_generics: bool,
    pub has_embedded: bool,
    pub approximate: bool,
    /// "struct" for Go, "class" / "interface" / "type" for TypeScript.
    pub declaration_kind: String,
}

/// Sizes of the fields' types, in declaration order; `None` where one of them
/// overflows.
pub open spec fn field_infos(fs: Seq<FieldModel>, reg: Map<Seq<char>, TypeInfo>) -> Option<Seq<TypeInfo>>
    decreases fs.len(),
{
    if fs.len() == 0 {
        Some(seq![])
    } else {
        match (field_infos(fs.drop_last(), reg), go_type_info(fs.last().type_str, reg)) {
            (Some(a), Some(b)) => Some(a.push(b)),
            _ => None,
        }
    }
}

pub open spec fn any_approximate(infos: Seq<TypeInfo>) -> bool {
    exists|i: int| 0 <= i < infos.len() && (#[trigger] infos[i]).approximate
}

pub open spec fn field_names(fs: Seq<FieldModel>) -> Seq<Seq<char>> {
    fs.map_values(|f: FieldModel| f.name)
}

/// An embedded field: its name is its type's name.
pub open spec fn is_embedded(f: FieldModel) -> bool {
    f.name == after_last(strip_leading(f.type_str, '*'), '.')
}

pub open spec fn has_embedded(fs: Seq<FieldModel>) -> bool {
    exists|i: int| 0 <= i < fs.len() && is_embedded(#[trigger] fs[i])
}

/// The fields taken in the order `o`.
pub open spec fn pick<T>(fs: Seq<T>, o: Seq<usize>) -> Seq<T> {
    o.map_values(|k: usize| fs[k as int])
}

/// The records a struct's own field types are looked up in: every record but
/// the struct's own name. A struct cannot hold itself, so a field type with
/// the struct's own short name is another package's type, unresolved here.
pub open spec fn own_reg(s: StructModel, reg: Map<Seq<char>, TypeInfo>) -> Map<Seq<char>, TypeInfo> {
    reg.remove(s.name)
}

proof fn lemma_reg_wf_remove(reg: Map<Seq<char>, TypeInfo>, k: Seq<char>)
    requires
        reg_wf(reg),
    ensures
        reg_wf(reg.remove(k)),
{
    assert forall|j: Seq<char>| reg.remove(k).contains_key(j) implies #[trigger] wf_info(reg.remove(k)[j]) by {
        assert(reg.contains_key(j));
    }
}

/// Size, alignment and exactness of a struct type, as recorded for later
/// lookups; `None` where its size does not fit in `u64`.
pub open spec fn struct_info(s: StructModel, reg: Map<Seq<char>, TypeInfo>) -> Option<TypeInfo> {
    match field_infos(s.fields, own_reg(s, reg)) {
        None => None,
        Some(infos) => {
            let approx = s.type_params is Some || any_approximate(infos);
            if infos.len() == 0 {
                Some(TypeInfo { size: 0, align: 1, approximate: approx })
            } else if layout_fits(infos) {
                Some(
                    TypeInfo {
                        size: layout_size(infos) as u64,
                        align: max_align(infos) as u64,
                        approximate: approx,
                    },
                )
            } else {
                None
            }
        },
    }
}

/// A field line of a reconstructed definition.
pub open spec fn body_line(raw: Seq<char>) -> Seq<char> {
    "\t"@ + trim(raw)
}

pub open spec fn body_lines(raws: Seq<Seq<char>>) -> Seq<Seq<char>> {
    raws.map_values(|r: Seq<char>| body_line(r))
}

/// The header line of a Go struct definition.
pub open spec fn go_header(name: Seq<char>, tp: Option<Seq<char>>) -> Seq<char> {
    match tp {
        Some(p) => "type "@ + name + "["@ + p + "] struct {"@,
        None => "type "@ + name + " struct {"@,
    }
}

pub open spec fn go_note(optimized: bool) -> Seq<Seq<char>> {
    if optimized {
        seq!["// Reordered for optimal memory alignment"@]
    } else {
        seq![]
    }
}

/// The text of a Go struct definition with its fields in the given order.
pub open spec fn go_def(s: StructModel, fields: Seq<FieldModel>, optimized: bool) -> Seq<char> {
    join_lines(
        s.doc_comments + go_note(optimized) + seq![go_header(s.name, s.type_params)] + body_lines(
            fields.map_values(|f: FieldModel| f.raw_line),
        ) + seq!["}"@],
    )
}

/// `a` is the analysis of the Go struct `s` with the named types of `reg`.
pub open spec fn go_analysis_of(a: AnalyzedStruct, s: StructModel, reg: Map<Seq<char>, TypeInfo>) -> bool {
    let infos = field_infos(s.fields, own_reg(s, reg))->0;
    &&& field_infos(s.fields, own_reg(s, reg)) is Some
    &&& a.name@ == s.name
    &&& opt_text(a.type_params) == s.type_params
    &&& a.line_number as int == s.line_number
    &&& a.current_size == layout_size(infos)
    &&& exists|o: Seq<usize>|
        #[trigger] is_optimal_order(infos, field_names(s.fields), o) && a.optimal_size == layout_size(
            reorder(infos, o),
        ) && a.optimized_def@ == go_def(s, pick(s.fields, o), true)
    &&& a.bytes_saved == a.current_size - a.optimal_size
    &&& forall|h: Seq<TypeInfo>|
        #[trigger] h.to_multiset() == infos.to_multiset() ==> a.optimal_size <= layout_size(h)
    &&& a.current_def@ == go_def(s, s.fields, false)
    &&& a.has_generics == s.type_params is Some
    &&& a.has_embedded == has_embedded(s.fields)
    &&& a.approximate == (s.type_params is Some || any_approximate(infos))
    &&& a.declaration_kind@ == "struct"@
}

/// The suggested order of a Go struct is never larger than the order as
/// written, so the bytes saved are what the reordering gains.
pub proof fn lemma_go_suggestion_never_larger(a: AnalyzedStruct, s: StructModel, reg: Map<Seq<char>, TypeInfo>)
    requires
        go_analysis_of(a, s, reg),
    ensures
        a.optimal_size <= a.current_size,
        a.bytes_saved + a.optimal_size == a.current_size,
{
    let infos = field_infos(s.fields, own_reg(s, reg))->0;
    assert(infos.to_multiset() == infos.to_multiset());
}

/// The doc-comment lines of a definition, each followed by a line break.
pub open spec fn doc_prefix(docs: Seq<Seq<char>>) -> Seq<char> {
    if docs.len() == 0 {
        seq![]
    } else {
        join_lines(docs) + seq!['\n']
    }
}

proof fn lemma_docs_then_rest(docs: Seq<Seq<char>>, rest: Seq<Seq<char>>)
    requires
        rest.len() > 0,
    ensures
        join_lines(docs + rest) == doc_prefix(docs) + join_lines(rest),
{
    if docs.len() == 0 {
        assert(docs + rest =~= rest);
        assert(doc_prefix(docs) + join_lines(rest) =~= join_lines(rest));
    } else {
        lemma_join_lines_append(docs, rest);
    }
}

proof fn lemma_first_line(first: Seq<char>, rest: Seq<Seq<char>>)
    ensures
        starts_with(join_lines(seq![first] + rest), first),
        rest.len() > 0 ==> join_lines(seq![first] + rest) == first + seq!['\n'] + join_lines(rest),
{
    if rest.len() == 0 {
        assert(seq![first] + rest =~= seq![first]);
        assert(first.take(first.len() as int) =~= first);
    } else {
        lemma_join_lines_append(seq![first], rest);
        assert((first + seq!['\n'] + join_lines(rest)).take(first.len() as int) =~= first);
    }
}

proof fn lemma_prefix_skip(p: Seq<char>, x: Seq<char>, q: Seq<char>)
    requires
        starts_with(x, q),
    ensures
        starts_with(p + x, p),
        (p + x).skip(p.len() as int) == x,
        starts_with((p + x).skip(p.len() as int), q),
{
    assert((p + x).take(p.len() as int) =~= p);
    assert((p + x).skip(p.len() as int) =~= x);
}

/// A struct's doc comment leads both of its definitions: the current and the
/// suggested text each begin with the doc-comment lines as written. After
/// them the suggested text carries the reordering note on a line of its own,
/// and the current text starts with the `type` header.
pub proof fn lemma_go_doc_comments_lead(a: AnalyzedStruct, s: StructModel, reg: Map<Seq<char>, TypeInfo>)
    requires
        go_analysis_of(a, s, reg),
    ensures
        starts_with(a.current_def@, doc_prefix(s.doc_comments)),
        starts_with(a.optimized_def@, doc_prefix(s.doc_comments)),
        starts_with(a.current_def@.skip(doc_prefix(s.doc_comments).len() as int), "type "@ + s.name),
        starts_with(
            a.optimized_def@.skip(doc_prefix(s.doc_comments).len() as int),
            "// Reordered for optimal memory alignment"@ + seq!['\n'],
        ),
{
    let infos = field_infos(s.fields, own_reg(s, reg))->0;
    let o = choose|o: Seq<usize>|
        #[trigger] is_optimal_order(infos, field_names(s.fields), o) && a.optimal_size == layout_size(
            reorder(infos, o),
        ) && a.optimized_def@ == go_def(s, pick(s.fields, o), true);
    let docs = s.doc_comments;
    let h = go_header(s.name, s.type_params);
    let tail = |fs: Seq<FieldModel>| body_lines(fs.map_values(|f: FieldModel| f.raw_line)) + seq!["}"@];
    let note = "// Reordered for optimal memory alignment"@;
    // current text
    let cur_rest = seq![h] + tail(s.fields);
    assert(docs + go_note(false) + seq![h] + body_lines(s.fields.map_values(|f: FieldModel| f.raw_line))
        + seq!["}"@] =~= docs + cur_rest);
    lemma_docs_then_rest(docs, cur_rest);
    assert(starts_with(h, "type "@ + s.name)) by {
        assert(h.take(("type "@ + s.name).len() as int) =~= "type "@ + s.name);
    }
    lemma_first_line(h, tail(s.fields));
    assert(starts_with(join_lines(cur_rest), "type "@ + s.name)) by {
        assert(join_lines(cur_rest).take(("type "@ + s.name).len() as int) =~= h.take(
            ("type "@ + s.name).len() as int,
        ));
    }
    lemma_prefix_skip(doc_prefix(docs), join_lines(cur_rest), "type "@ + s.name);
    // suggested text
    let fs = pick(s.fields, o);
    let opt_rest = seq![note] + (seq![h] + tail(fs));
    assert(docs + go_note(true) + seq![h] + body_lines(fs.map_values(|f: FieldModel| f.raw_line))
        + seq!["}"@] =~= docs + opt_rest);
    lemma_docs_then_rest(docs, opt_rest);
    lemma_first_line(note, seq![h] + tail(fs));
    assert(starts_with(join_lines(opt_rest), note + seq!['\n'])) by {
        assert(join_lines(opt_rest).take((note + seq!['\n']).len() as int) =~= note + seq!['\n']);
    }
    lemma_prefix_skip(doc_prefix(docs), join_lines(opt_rest), note + seq!['\n']);
}

/// Joins lines with `'\n'`.
fn join_lines_exec(parts: &Vec<Vec<char>>) -> (r: Vec<char>)
    ensures
        r@ == join_lines(parts.deep_view()),
{
    let ghost ps = parts.deep_view();
    let mut r: Vec<char> = Vec::new();
    let mut i: usize = 0;
    assert(ps.take(0) =~= Seq::<Seq<char>>::empty());
    while i < parts.len()
        invariant
            ps == parts.deep_view(),
            i <= ps.len(),
            r@ == join_lines(ps.take(i as int)),
        decreases ps.len() - i,
    {
        assert(parts[i as int]@ == ps[i as int]);
        assert(ps.take(i + 1).drop_last() =~= ps.take(i as int));
        assert(ps.take(i + 1).last() == ps[i as int]);
        if i > 0 {
            r.push('\n');
        }
        push_all(&mut r, parts[i].as_slice());
        proof {
            if i == 0 {
                assert(ps.take(1) =~= seq![ps[0]]);
                assert(r@ =~= ps[0]);
            } else {
                assert(r@ =~= join_lines(ps.take(i as int)) + seq!['\n'] + ps[i as int]);
            }
        }
        i = i + 1;
    }
    assert(ps.take(ps.len() as int) =~= ps);
    r
}

/// `"\t"` followed by the trimmed line.
fn body_line_exec(raw: &[char]) -> (r: Vec<char>)
    ensures
        r@ == body_line(raw@),
{
    let mut r = chars_of("\t");
    let t = trim_chars(raw);
    push_all(&mut r, t.as_slice());
    r
}

/// Appends the characters of each string as a line of its own.
fn push_text_lines(parts: &mut Vec<Vec<char>>, docs: &Vec<String>)
    ensures
        final(parts).deep_view() == old(parts).deep_view() + texts(docs@),
{
    let mut i: usize = 0;
    while i < docs.len()
        invariant
            i <= docs@.len(),
            parts.deep_view() == old(parts).deep_view() + texts(docs@).take(i as int),
        decreases docs@.len() - i,
    {
        let c = chars_of(docs[i].as_str());
        let ghost before = parts.deep_view();
        assert(c.deep_view() =~= c@);
        parts.push(c);
        assert(parts.deep_view() =~= before.push(c@));
        assert(texts(docs@).take(i + 1) =~= texts(docs@).take(i as int).push(docs@[i as int]@));
        i = i + 1;
    }
    assert(texts(docs@).take(docs@.len() as int) =~= texts(docs@));
}

fn push_line(parts: &mut Vec<Vec<char>>, line: Vec<char>)
    ensures
        final(parts).deep_view() == old(parts).deep_view().push(line@),
{
    assert(line.deep_view() =~= line@);
    parts.push(line);
    assert(parts.deep_view() =~= old(parts).deep_view().push(line@));
}

/// The text of a Go struct definition, fields taken in the order `order`.
fn build_def(s: &GoStruct, order: &Vec<usize>, optimized: bool) -> (r: String)
    requires
        forall|k: int| 0 <= k < order@.len() ==> #[trigger] order@[k] < s.fields@.len(),
    ensures
        r@ == go_def(s@, pick(s@.fields, order@), optimized),
{
    let ghost sm = s@;
    let mut parts: Vec<Vec<char>> = Vec::new();
    assert(parts.deep_view() =~= Seq::<Seq<char>>::empty());
    push_text_lines(&mut parts, &s.doc_comments);
    if optimized {
        push_line(&mut parts, chars_of("// Reordered for optimal memory alignment"));
    }
    assert(parts.deep_view() =~= sm.doc_comments + go_note(optimized));
    let mut header = chars_of("type ");
    let name = chars_of(s.name.as_str());
    push_all(&mut header, name.as_slice());
    match &s.type_params {
        Some(tp) => {
            push_all(&mut header, chars_of("[").as_slice());
            push_all(&mut header, chars_of(tp.as_str()).as_slice());
            push_all(&mut header, chars_of("] struct {").as_slice());
        },
        None => {
            push_all(&mut header, chars_of(" struct {").as_slice());
        },
    }
    assert(header@ =~= go_header(sm.name, sm.type_params));
    push_line(&mut parts, header);
    let ghost head = parts.deep_view();
    let ghost raws = pick(sm.fields, order@).map_values(|f: FieldModel| f.raw_line);
    let mut k: usize = 0;
    while k < order.len()
        invariant
            k <= order@.len(),
            sm == s@,
            forall|j: int| 0 <= j < order@.len() ==> #[trigger] order@[j] < s.fields@.len(),
            raws == pick(sm.fields, order@).map_values(|f: FieldModel| f.raw_line),
            parts.deep_view() == head + body_lines(raws.take(k as int)),
        decreases order@.len() - k,
    {
        let idx = order[k];
        assert(order@[k as int] < s.fields@.len());
        let raw = chars_of(s.fields[idx].raw_line.as_str());
        assert(raw@ == raws[k as int]);
        let line = body_line_exec(raw.as_slice());
        push_line(&mut parts, line);
        assert(body_lines(raws.take(k + 1)) =~= body_lines(raws.take(k as int)).push(body_line(raws[k as int])));
        assert(head + body_lines(raws.take(k + 1)) =~= (head + body_lines(raws.take(k as int))).push(body_line(raws[k as int])));
        k = k + 1;
    }
    assert(raws.take(order@.len() as int) =~= raws);
    push_line(&mut parts, chars_of("}"));
    assert(parts.deep_view() =~= sm.doc_comments + go_note(optimized) + seq![go_header(sm.name, sm.type_params)]
        + body_lines(raws) + seq!["}"@]);
    let text = join_lines_exec(&parts);
    string_of(text.as_slice())
}


proof fn lemma_field_infos_wf(fs: Seq<FieldModel>, reg: Map<Seq<char>, TypeInfo>)
    requires
        reg_wf(reg),
    ensures
        field_infos(fs, reg) matches Some(v) ==> all_wf(v) && v.len() == fs.len(),
    decreases fs.len(),
{
    if fs.len() > 0 {
        lemma_field_infos_wf(fs.drop_last(), reg);
        lemma_go_type_info_wf(fs.last().type_str, reg);
        if let Some(v) = field_infos(fs, reg) {
            let a = field_infos(fs.drop_last(), reg)->0;
            assert(v == a.push(go_type_info(fs.last().type_str, reg)->0));
            assert forall|i: int| 0 <= i < v.len() implies #[trigger] wf_info(v[i]) by {
                if i < a.len() {
                    assert(v[i] == a[i]);
                }
            }
        }
    }
}

fn field_infos_exec(fields: &Vec<GoField>, reg: &Registry, own: &Vec<char>) -> (r: Option<Vec<TypeInfo>>)
    ensures
        match r {
            Some(v) => field_infos(field_models(fields@), reg@.remove(own@)) == Some(v@),
            None => field_infos(field_models(fields@), reg@.remove(own@)) is None,
        },
{
    let ghost fs = field_models(fields@);
    let mut v: Vec<TypeInfo> = Vec::new();
    let mut i: usize = 0;
    assert(fs.take(0) =~= Seq::<FieldModel>::empty());
    while i < fields.len()
        invariant
            fs == field_models(fields@),
            i <= fs.len(),
            field_infos(fs.take(i as int), reg@.remove(own@)) == Some(v@),
        decreases fs.len() - i,
    {
        assert(fs.take(i + 1).drop_last() =~= fs.take(i as int));
        assert(fs.take(i + 1).last() == fields@[i as int]@);
        let tc = chars_of(fields[i].type_str.as_str());
        match go_type_info_exec(tc.as_slice(), reg, Some(own.as_slice())) {
            Some(info) => {
                v.push(info);
            },
            None => {
                proof {
                    lemma_field_infos_prefix_none(fs, i + 1, reg@.remove(own@));
                }
                return None;
            },
        }
        i = i + 1;
    }
    assert(fs.take(fs.len() as int) =~= fs);
    Some(v)
}

proof fn lemma_field_infos_prefix_none(fs: Seq<FieldModel>, k: int, reg: Map<Seq<char>, TypeInfo>)
    requires
        0 <= k <= fs.len(),
        field_infos(fs.take(k), reg) is None,
    ensures
        field_infos(fs, reg) is None,
    decreases fs.len() - k,
{
    if k < fs.len() {
        assert(fs.take(k + 1).drop_last() =~= fs.take(k));
        lemma_field_infos_prefix_none(fs, k + 1, reg);
    } else {
        assert(fs.take(k) =~= fs);
    }
}

fn field_name_chars(fields: &Vec<GoField>) -> (r: Vec<Vec<char>>)
    ensures
        r.deep_view() == field_names(field_models(fields@)),
{
    let mut r: Vec<Vec<char>> = Vec::new();
    let mut i: usize = 0;
    while i < fields.len()
        invariant
            i <= fields@.len(),
            r.deep_view() == field_names(field_models(fields@)).take(i as int),
        decreases fields@.len() - i,
    {
        let c = chars_of(fields[i].name.as_str());
        let ghost before = r.deep_view();
        assert(c.deep_view() =~= c@);
        r.push(c);
        assert(r.deep_view() =~= before.push(c@));
        assert(field_names(field_models(fields@)).take(i + 1) =~= field_names(field_models(fields@)).take(
            i as int,
        ).push(fields@[i as int].name@));
        i = i + 1;
    }
    assert(field_names(field_models(fields@)).take(fields@.len() as int) =~= field_names(field_models(fields@)));
    r
}

fn has_embedded_exec(fields: &Vec<GoField>) -> (r: bool)
    ensures
        r == has_embedded(field_models(fields@)),
{
    let ghost fs = field_models(fields@);
    let mut i: usize = 0;
    while i < fields.len()
        invariant
            fs == field_models(fields@),
            i <= fs.len(),
            forall|j: int| 0 <= j < i ==> !is_embedded(#[trigger] fs[j]),
        decreases fs.len() - i,
    {
        let tc = chars_of(fields[i].type_str.as_str());
        let stripped = strip_leading_char(tc.as_slice(), '*');
        let short = after_last_char(stripped.as_slice(), '.');
        let nc = chars_of(fields[i].name.as_str());
        if chars_eq(nc.as_slice(), short.as_slice()) {
            assert(is_embedded(fs[i as int]));
            return true;
        }
        i = i + 1;
    }
    false
}

fn any_approximate_exec(infos: &Vec<TypeInfo>) -> (r: bool)
    ensures
        r == any_approximate(infos@),
{
    let mut i: usize = 0;
    while i < infos.len()
        invariant
            i <= infos@.len(),
            forall|j: int| 0 <= j < i ==> !(#[trigger] infos@[j]).approximate,
        decreases infos@.len() - i,
    {
        if infos[i].approximate {
            assert(infos@[i as int].approximate);
            return true;
        }
        i = i + 1;
    }
    false
}

fn identity_order(n: usize) -> (r: Vec<usize>)
    ensures
        r@.len() == n,
        forall|k: int| 0 <= k < n ==> #[trigger] r@[k] == k,
{
    let mut r: Vec<usize> = Vec::new();
    let mut i: usize = 0;
    while i < n
        invariant
            i <= n,
            r@.len() == i,
            forall|k: int| 0 <= k < i ==> #[trigger] r@[k] == k,
        decreases n - i,
    {
        r.push(i);
        i = i + 1;
    }
    r
}

fn reorder_exec(infos: &Vec<TypeInfo>, order: &Vec<usize>) -> (r: Vec<TypeInfo>)
    requires
        forall|k: int| 0 <= k < order@.len() ==> #[trigger] order@[k] < infos@.len(),
    ensures
        r@ == reorder(infos@, order@),
{
    let mut r: Vec<TypeInfo> = Vec::new();
    let mut i: usize = 0;
    while i < order.len()
        invariant
            i <= order@.len(),
            forall|k: int| 0 <= k < order@.len() ==> #[trigger] order@[k] < infos@.len(),
            r@ == reorder(infos@, order@).take(i as int),
        decreases order@.len() - i,
    {
        assert(order@[i as int] < infos@.len());
        r.push(infos[order[i]]);
        assert(reorder(infos@, order@).take(i + 1) =~= reorder(infos@, order@).take(i as int).push(
            infos@[order@[i as int] as int],
        ));
        i = i + 1;
    }
    assert(reorder(infos@, order@).take(order@.len() as int) =~= reorder(infos@, order@));
    r
}

/// The laws of the suggested order, for the fields of one declaration.
proof fn lemma_order_facts(infos: Seq<TypeInfo>, names: Seq<Seq<char>>, o: Seq<usize>)
    requires
        all_wf(infos),
        is_optimal_order(infos, names, o),
        reorder(infos, o).to_multiset() == infos.to_multiset(),
    ensures
        all_wf(reorder(infos, o)),
        all_valid_align(reorder(infos, o)),
        align_non_increasing(reorder(infos, o)),
        forall|h: Seq<TypeInfo>|
            #[trigger] h.to_multiset() == infos.to_multiset() ==> layout_size(reorder(infos, o))
                <= layout_size(h),
        layout_fits(infos) ==> layout_fits(reorder(infos, o)),
{
    let g = reorder(infos, o);
    assert forall|i: int| 0 <= i < g.len() implies #[trigger] wf_info(g[i]) by {
        assert(o[i] < infos.len());
        assert(wf_info(infos[o[i] as int]));
    }
    assert forall|i: int| 0 <= i < g.len() implies valid_align(#[trigger] g[i].align as int) by {
        assert(wf_info(g[i]));
    }
    assert forall|a: int, b: int| 0 <= a < b < g.len() implies #[trigger] g[a].align >= #[trigger] g[b].align by {
        assert(crate::layout::goes_before(infos, names, o[a] as int, o[b] as int));
    }
    assert forall|h: Seq<TypeInfo>| #[trigger] h.to_multiset() == infos.to_multiset() implies layout_size(g) <= layout_size(h) by {
        lemma_sorted_layout_is_minimal(g, h);
    }
    if layout_fits(infos) {
        lemma_sorted_layout_fits(g, infos);
    }
}

/// Analyses a Go struct with the named types of `reg`; a struct without
/// fields gives no result.
fn analyze_struct(s: &GoStruct, reg: &Registry) -> (r: Option<AnalyzedStruct>)
    requires
        struct_info(s@, reg@) is Some,
        reg_wf(reg@),
    ensures
        r is None <==> s@.fields.len() == 0,
        r matches Some(a) ==> go_analysis_of(a, s@, reg@),
{
    if s.fields.len() == 0 {
        return None;
    }
    let ghost sm = s@;
    let has_generics = s.type_params.is_some();
    let has_embedded = has_embedded_exec(&s.fields);
    let name_chars = chars_of(s.name.as_str());
    let infos = match field_infos_exec(&s.fields, reg, &name_chars) {
        Some(v) => v,
        None => {
            assert(false);
            Vec::new()
        },
    };
    proof {
        lemma_reg_wf_remove(reg@, sm.name);
        lemma_field_infos_wf(sm.fields, own_reg(sm, reg@));
    }
    let approximate = has_generics || any_approximate_exec(&infos);
    assert(all_valid_align(infos@)) by {
        assert forall|i: int| 0 <= i < infos@.len() implies valid_align(#[trigger] infos@[i].align as int) by {
            assert(wf_info(infos@[i]));
        }
    }
    let current_size = match struct_layout(infos.as_slice()) {
        Some(p) => p.0,
        None => {
            assert(false);
            0
        },
    };
    let names = field_name_chars(&s.fields);
    assert(names@.len() == names.deep_view().len());
    assert(infos@.len() == sm.fields.len());
    let order = optimal_order(infos.as_slice(), &names);
    proof {
        lemma_order_facts(infos@, names.deep_view(), order@);
    }
    let sorted = reorder_exec(&infos, &order);
    let optimal_size = match struct_layout(sorted.as_slice()) {
        Some(p) => p.0,
        None => {
            assert(false);
            0
        },
    };
    proof {
        assert(infos@.to_multiset() == infos@.to_multiset());
    }
    let bytes_saved = current_size - optimal_size;
    let ident = identity_order(s.fields.len());
    assert(pick(sm.fields, ident@) =~= sm.fields);
    let current_def = build_def(s, &ident, false);
    let optimized_def = build_def(s, &order, true);
    let type_params = match &s.type_params {
        Some(tp) => Some(tp.clone()),
        None => None,
    };
    let r = AnalyzedStruct {
        name: s.name.clone(),
        type_params,
        line_number: s.line_number,
        current_size,
        optimal_size,
        bytes_saved,
        current_def,
        optimized_def,
        has_generics,
        has_embedded,
        approximate,
        declaration_kind: string_of(chars_of("struct").as_slice()),
    };
    assert(is_optimal_order(infos@, field_names(sm.fields), order@));
    Some(r)
}


// ---------------------------------------------------------------------------
// Analysis of a Go repository
// ---------------------------------------------------------------------------

/// All structs of all files, in order.
pub open spec fn all_structs(files: Seq<GoFile>) -> Seq<StructModel>
    decreases files.len(),
{
    if files.len() == 0 {
        seq![]
    } else {
        all_structs(files.drop_last()) + struct_models(files.last().structs@)
    }
}

/// Records the size of each struct in turn, each computed with the records
/// made before it; `None` where a size overflows.
pub open spec fn register(ss: Seq<StructModel>, reg: Map<Seq<char>, TypeInfo>) -> Option<
    Map<Seq<char>, TypeInfo>,
>
    decreases ss.len(),
{
    if ss.len() == 0 {
        Some(reg)
    } else {
        match register(ss.drop_last(), reg) {
            Some(r) => match struct_info(ss.last(), r) {
                Some(i) => Some(r.insert(ss.last().name, i)),
                None => None,
            },
            None => None,
        }
    }
}

/// Some struct of `ss`, as its size is recorded in turn, gets a record other
/// than the one its name had just before.
pub open spec fn register_changed(ss: Seq<StructModel>, reg: Map<Seq<char>, TypeInfo>) -> bool
    decreases ss.len(),
{
    if ss.len() == 0 {
        false
    } else {
        register_changed(ss.drop_last(), reg) || match register(ss.drop_last(), reg) {
            Some(r) => match struct_info(ss.last(), r) {
                Some(i) => !(r.contains_key(ss.last().name) && r[ss.last().name] == i),
                None => false,
            },
            None => false,
        }
    }
}

/// Passes over all structs, at most `k` of them, each recording every
/// struct's size with the records of the passes before; they stop after a
/// pass that changes no record. `None` where a size overflows.
pub open spec fn resolve(ss: Seq<StructModel>, reg: Map<Seq<char>, TypeInfo>, k: nat) -> Option<
    Map<Seq<char>, TypeInfo>,
>
    decreases k,
{
    if k == 0 {
        Some(reg)
    } else {
        match register(ss, reg) {
            Some(r2) => if register_changed(ss, reg) {
                resolve(ss, r2, (k - 1) as nat)
            } else {
                Some(r2)
            },
            None => None,
        }
    }
}

/// The number of passes the resolution may take: one more than there are
/// structs (capped at `u64::MAX`), so that sizes resolve through any chain
/// of structs that hold one another.
pub open spec fn pass_bound(files: Seq<GoFile>) -> nat {
    if all_structs(files).len() < u64::MAX {
        (all_structs(files).len() + 1) as nat
    } else {
        u64::MAX as nat
    }
}

/// The registry of struct sizes: starting empty, the sizes are recorded
/// pass after pass, each pass with the records of the one before, until a
/// pass changes nothing (so each struct's named field types are resolved
/// recursively), or `pass_bound` passes were made.
pub open spec fn go_registry(files: Seq<GoFile>) -> Option<Map<Seq<char>, TypeInfo>> {
    resolve(all_structs(files), Map::empty(), pass_bound(files))
}

/// The structs of `ss` that have fields, each with `path`.
pub open spec fn structs_with_fields(path: Seq<char>, ss: Seq<StructModel>) -> Seq<(Seq<char>, StructModel)>
    decreases ss.len(),
{
    if ss.len() == 0 {
        seq![]
    } else {
        structs_with_fields(path, ss.drop_last()) + if ss.last().fields.len() > 0 {
            seq![(path, ss.last())]
        } else {
            seq![]
        }
    }
}

/// The structs that the analysis reports on, with their files' paths.
pub open spec fn analyzed_structs(files: Seq<GoFile>) -> Seq<(Seq<char>, StructModel)>
    decreases files.len(),
{
    if files.len() == 0 {
        seq![]
    } else {
        analyzed_structs(files.drop_last()) + structs_with_fields(
            files.last().path@,
            struct_models(files.last().structs@),
        )
    }
}

/// Analysing the files does not overflow `u64`.
pub open spec fn go_analysis_fits(files: Seq<GoFile>) -> bool {
    &&& go_registry(files) is Some
    &&& forall|i: int|
        0 <= i < analyzed_structs(files).len() ==> struct_info(
            (#[trigger] analyzed_structs(files)[i]).1,
            go_registry(files)->0,
        ) is Some
}

/// `r` reports on each struct of `expected`, in order, analysed with `reg`.
pub open spec fn go_results(
    r: Seq<(String, AnalyzedStruct)>,
    expected: Seq<(Seq<char>, StructModel)>,
    reg: Map<Seq<char>, TypeInfo>,
) -> bool {
    &&& r.len() == expected.len()
    &&& forall|i: int|
        0 <= i < r.len() ==> (#[trigger] r[i]).0@ == expected[i].0 && go_analysis_of(
            r[i].1,
            expected[i].1,
            reg,
        )
}

proof fn lemma_struct_info_wf(s: StructModel, reg: Map<Seq<char>, TypeInfo>)
    requires
        reg_wf(reg),
    ensures
        struct_info(s, reg) matches Some(i) ==> wf_info(i),
{
    lemma_table_aligns();
    lemma_reg_wf_remove(reg, s.name);
    lemma_field_infos_wf(s.fields, own_reg(s, reg));
    if let Some(infos) = field_infos(s.fields, own_reg(s, reg)) {
        if infos.len() > 0 && layout_fits(infos) {
            assert(all_valid_align(infos)) by {
                assert forall|i: int| 0 <= i < infos.len() implies valid_align(#[trigger] infos[i].align as int) by {
                    assert(wf_info(infos[i]));
                }
            }
            lemma_max_align_bounds(infos);
            lemma_align_bounds(max_align(infos));
            crate::layout::lemma_end_offset_at_least_sum(infos);
            lemma_round_up(crate::layout::end_offset(infos), max_align(infos));
            assert(layout_size(infos) as u64 as int == layout_size(infos));
            assert(max_align(infos) as u64 as int == max_align(infos));
        }
    }
}

/// One pass over all structs, recording their sizes; `false` where a size
/// overflows.
fn register_pass(files: &[GoFile], reg: &mut Registry) -> (r: (bool, bool))
    requires
        reg_wf(old(reg)@),
    ensures
        r.0 == register(all_structs(files@), old(reg)@) is Some,
        r.0 ==> final(reg)@ == register(all_structs(files@), old(reg)@)->0,
        r.0 ==> reg_wf(final(reg)@),
        r.0 ==> r.1 == register_changed(all_structs(files@), old(reg)@),
{
    let ghost start = reg@;
    let mut changed = false;
    let mut fi: usize = 0;
    assert(files@.take(0) =~= Seq::<GoFile>::empty());
    while fi < files.len()
        invariant
            fi <= files@.len(),
            start == old(reg)@,
            register(all_structs(files@.take(fi as int)), start) == Some(reg@),
            changed == register_changed(all_structs(files@.take(fi as int)), start),
            reg_wf(reg@),
        decreases files@.len() - fi,
    {
        let structs = &files[fi].structs;
        let ghost before = all_structs(files@.take(fi as int));
        assert(files@.take(fi + 1).drop_last() =~= files@.take(fi as int));
        assert(all_structs(files@.take(fi + 1)) == before + struct_models(structs@));
        let mut si: usize = 0;
        assert(before + struct_models(structs@.take(0)) =~= before);
        while si < structs.len()
            invariant
                si <= structs@.len(),
                fi < files@.len(),
                start == old(reg)@,
                before == all_structs(files@.take(fi as int)),
                structs@ == files@[fi as int].structs@,
                register(before + struct_models(structs@.take(si as int)), start) == Some(reg@),
                changed == register_changed(before + struct_models(structs@.take(si as int)), start),
                reg_wf(reg@),
            decreases structs@.len() - si,
        {
            let s = &structs[si];
            let ghost processed = before + struct_models(structs@.take(si as int));
            assert(before + struct_models(structs@.take(si + 1)) =~= processed.push(s@));
            assert(processed.push(s@).drop_last() =~= processed);
            proof {
                lemma_struct_info_wf(s@, reg@);
            }
            match compute_struct_size(s, reg) {
                Some(info) => {
                    let name = chars_of(s.name.as_str());
                    let differs = match reg.get(name.as_slice()) {
                        Some(prev) => !(prev == info),
                        None => true,
                    };
                    changed = changed || differs;
                    reg.insert(s.name.clone(), info);
                },
                None => {
                    proof {
                        lemma_register_stays_none(all_structs(files@), start, processed.len() + 1int, files@, fi as int, si as int + 1);
                    }
                    return (false, changed);
                },
            }
            si = si + 1;
        }
        assert(structs@.take(structs@.len() as int) =~= structs@);
        fi = fi + 1;
    }
    assert(files@.take(files@.len() as int) =~= files@);
    (true, changed)
}

proof fn lemma_all_structs_prefix(files: Seq<GoFile>, fi: int, si: int)
    requires
        0 <= fi < files.len(),
        0 <= si <= files[fi].structs@.len(),
    ensures
        all_structs(files.take(fi)) + struct_models(files[fi].structs@.take(si)) == all_structs(files).take(
            all_structs(files.take(fi)).len() + si,
        ),
    decreases files.len() - fi,
{
    if fi == files.len() - 1 {
        assert(files.take(fi + 1) =~= files);
        assert(files.drop_last() =~= files.take(fi));
        assert(all_structs(files) == all_structs(files.take(fi)) + struct_models(files[fi].structs@));
        assert(struct_models(files[fi].structs@.take(si)) =~= struct_models(files[fi].structs@).take(si));
        assert(all_structs(files.take(fi)) + struct_models(files[fi].structs@.take(si)) =~= all_structs(
            files,
        ).take(all_structs(files.take(fi)).len() + si));
    } else {
        let f2 = files.drop_last();
        assert(f2.take(fi) =~= files.take(fi));
        assert(f2[fi] == files[fi]);
        lemma_all_structs_prefix(f2, fi, si);
        let a = all_structs(f2);
        assert(all_structs(files) == a + struct_models(files.last().structs@));
        lemma_all_structs_len_bound(f2, fi);
        assert(all_structs(f2.take(fi)).len() + si <= a.len());
        assert(a.take(all_structs(f2.take(fi)).len() + si) =~= (a + struct_models(files.last().structs@)).take(
            all_structs(f2.take(fi)).len() + si,
        ));
    }
}

proof fn lemma_all_structs_len_bound(files: Seq<GoFile>, fi: int)
    requires
        0 <= fi < files.len(),
    ensures
        all_structs(files.take(fi)).len() + files[fi].structs@.len() <= all_structs(files).len(),
    decreases files.len() - fi,
{
    if fi == files.len() - 1 {
        assert(files.drop_last() =~= files.take(fi));
    } else {
        let f2 = files.drop_last();
        assert(f2.take(fi) =~= files.take(fi));
        lemma_all_structs_len_bound(f2, fi);
    }
}

proof fn lemma_register_prefix_none(ss: Seq<StructModel>, reg: Map<Seq<char>, TypeInfo>, k: int)
    requires
        0 <= k <= ss.len(),
        register(ss.take(k), reg) is None,
    ensures
        register(ss, reg) is None,
    decreases ss.len() - k,
{
    if k < ss.len() {
        assert(ss.take(k + 1).drop_last() =~= ss.take(k));
        lemma_register_prefix_none(ss, reg, k + 1);
    } else {
        assert(ss.take(k) =~= ss);
    }
}

proof fn lemma_register_stays_none(
    all: Seq<StructModel>,
    start: Map<Seq<char>, TypeInfo>,
    k: int,
    files: Seq<GoFile>,
    fi: int,
    si: int,
)
    requires
        all == all_structs(files),
        0 <= fi < files.len(),
        0 <= si <= files[fi].structs@.len(),
        k == all_structs(files.take(fi)).len() + si,
        register(all_structs(files.take(fi)) + struct_models(files[fi].structs@.take(si)), start) is None,
    ensures
        register(all, start) is None,
{
    lemma_all_structs_prefix(files, fi, si);
    lemma_all_structs_len_bound(files, fi);
    lemma_register_prefix_none(all, start, k);
}

/// Size, alignment and exactness of a struct; `None` where its size
/// overflows `u64`.
fn compute_struct_size(s: &GoStruct, reg: &Registry) -> (r: Option<TypeInfo>)
    requires
        reg_wf(reg@),
    ensures
        r == struct_info(s@, reg@),
{
    let name_chars = chars_of(s.name.as_str());
    let infos = match field_infos_exec(&s.fields, reg, &name_chars) {
        Some(v) => v,
        None => return None,
    };
    proof {
        lemma_reg_wf_remove(reg@, s@.name);
        lemma_field_infos_wf(s@.fields, own_reg(s@, reg@));
    }
    let approximate = s.type_params.is_some() || any_approximate_exec(&infos);
    if infos.len() == 0 {
        return Some(TypeInfo { size: 0, align: 1, approximate });
    }
    assert(all_valid_align(infos@)) by {
        assert forall|i: int| 0 <= i < infos@.len() implies valid_align(#[trigger] infos@[i].align as int) by {
            assert(wf_info(infos@[i]));
        }
    }
    match struct_layout(infos.as_slice()) {
        Some((size, align)) => Some(TypeInfo { size, align, approximate }),
        None => None,
    }
}


pub open spec fn is_prefix<T>(a: Seq<T>, b: Seq<T>) -> bool {
    a.len() <= b.len() && b.take(a.len() as int) == a
}

proof fn lemma_prefix_trans<T>(a: Seq<T>, b: Seq<T>, c: Seq<T>)
    requires
        is_prefix(a, b),
        is_prefix(b, c),
    ensures
        is_prefix(a, c),
{
    assert(c.take(a.len() as int) =~= c.take(b.len() as int).take(a.len() as int));
}

proof fn lemma_prefix_append<T>(a: Seq<T>, b: Seq<T>, x: Seq<T>)
    requires
        is_prefix(a, b),
    ensures
        is_prefix(x + a, x + b),
{
    assert((x + b).take((x + a).len() as int) =~= x + a);
}

proof fn lemma_swf_prefix(path: Seq<char>, ss: Seq<StructModel>, k: int)
    requires
        0 <= k <= ss.len(),
    ensures
        is_prefix(structs_with_fields(path, ss.take(k)), structs_with_fields(path, ss)),
    decreases ss.len() - k,
{
    if k < ss.len() {
        lemma_swf_prefix(path, ss, k + 1);
        assert(ss.take(k + 1).drop_last() =~= ss.take(k));
        let a = structs_with_fields(path, ss.take(k));
        let b = structs_with_fields(path, ss.take(k + 1));
        assert(b.take(a.len() as int) =~= a);
        lemma_prefix_trans(a, b, structs_with_fields(path, ss));
    } else {
        assert(ss.take(k) =~= ss);
        assert(structs_with_fields(path, ss).take(structs_with_fields(path, ss).len() as int) =~= structs_with_fields(path, ss));
    }
}

proof fn lemma_analyzed_prefix(files: Seq<GoFile>, k: int)
    requires
        0 <= k <= files.len(),
    ensures
        is_prefix(analyzed_structs(files.take(k)), analyzed_structs(files)),
    decreases files.len() - k,
{
    if k < files.len() {
        lemma_analyzed_prefix(files, k + 1);
        assert(files.take(k + 1).drop_last() =~= files.take(k));
        let a = analyzed_structs(files.take(k));
        let b = analyzed_structs(files.take(k + 1));
        assert(b.take(a.len() as int) =~= a);
        lemma_prefix_trans(a, b, analyzed_structs(files));
    } else {
        assert(files.take(k) =~= files);
        assert(analyzed_structs(files).take(analyzed_structs(files).len() as int) =~= analyzed_structs(files));
    }
}

/// Analyses every struct that has fields, with the registry `reg`; `None`
/// where the size of one of them overflows.
fn analysis_pass(files: &[GoFile], reg: &Registry) -> (r: Option<Vec<(String, AnalyzedStruct)>>)
    requires
        reg_wf(reg@),
    ensures
        r is Some <==> forall|i: int|
            0 <= i < analyzed_structs(files@).len() ==> struct_info(
                (#[trigger] analyzed_structs(files@)[i]).1,
                reg@,
            ) is Some,
        r matches Some(v) ==> go_results(v@, analyzed_structs(files@), reg@),
{
    let ghost all = analyzed_structs(files@);
    let mut results: Vec<(String, AnalyzedStruct)> = Vec::new();
    let mut fi: usize = 0;
    assert(files@.take(0) =~= Seq::<GoFile>::empty());
    while fi < files.len()
        invariant
            fi <= files@.len(),
            all == analyzed_structs(files@),
            reg_wf(reg@),
            go_results(results@, analyzed_structs(files@.take(fi as int)), reg@),
            forall|i: int|
                0 <= i < analyzed_structs(files@.take(fi as int)).len() ==> struct_info(
                    (#[trigger] analyzed_structs(files@.take(fi as int))[i]).1,
                    reg@,
                ) is Some,
        decreases files@.len() - fi,
    {
        let file = &files[fi];
        let structs = &file.structs;
        let ghost path = file.path@;
        let ghost ss = struct_models(structs@);
        let ghost before = analyzed_structs(files@.take(fi as int));
        assert(files@.take(fi + 1).drop_last() =~= files@.take(fi as int));
        assert(analyzed_structs(files@.take(fi + 1)) == before + structs_with_fields(path, ss));
        proof {
            lemma_analyzed_prefix(files@, fi + 1);
        }
        let mut si: usize = 0;
        assert(ss.take(0) =~= Seq::<StructModel>::empty());
        assert(before + structs_with_fields(path, ss.take(0)) =~= before);
        while si < structs.len()
            invariant
                si <= structs@.len(),
                fi < files@.len(),
                all == analyzed_structs(files@),
                reg_wf(reg@),
                path == files@[fi as int].path@,
                ss == struct_models(structs@),
                structs@ == files@[fi as int].structs@,
                before == analyzed_structs(files@.take(fi as int)),
                is_prefix(before + structs_with_fields(path, ss), all),
                go_results(results@, before + structs_with_fields(path, ss.take(si as int)), reg@),
                forall|i: int|
                    0 <= i < (before + structs_with_fields(path, ss.take(si as int))).len() ==> struct_info(
                        (#[trigger] (before + structs_with_fields(path, ss.take(si as int)))[i]).1,
                        reg@,
                    ) is Some,
            decreases structs@.len() - si,
        {
            let s = &structs[si];
            let ghost pre = before + structs_with_fields(path, ss.take(si as int));
            assert(ss.take(si + 1).drop_last() =~= ss.take(si as int));
            assert(ss.take(si + 1).last() == s@);
            if s.fields.len() > 0 {
                let ghost x = (path, s@);
                assert(before + structs_with_fields(path, ss.take(si + 1)) =~= pre.push(x));
                proof {
                    lemma_swf_prefix(path, ss, si + 1);
                    lemma_prefix_append(structs_with_fields(path, ss.take(si + 1)), structs_with_fields(path, ss), before);
                    lemma_prefix_trans(pre.push(x), before + structs_with_fields(path, ss), all);
                    assert(all[pre.len() as int] == pre.push(x)[pre.len() as int]);
                    lemma_struct_info_wf(s@, reg@);
                }
                match compute_struct_size(s, reg) {
                    None => {
                        return None;
                    },
                    Some(_) => {},
                }
                let a = match analyze_struct(s, reg) {
                    Some(a) => a,
                    None => {
                        return None;
                    },
                };
                let ghost old_results = results@;
                let p = files[fi].path.clone();
                assert(p@ == path);
                results.push((p, a));
                assert forall|i: int| 0 <= i < results@.len() implies (#[trigger] results@[i]).0@ == pre.push(x)[i].0
                    && go_analysis_of(results@[i].1, pre.push(x)[i].1, reg@) by {
                    if i < old_results.len() {
                        assert(results@[i] == old_results[i]);
                        assert(pre.push(x)[i] == pre[i]);
                        assert(old_results[i].0@ == pre[i].0);
                    } else {
                        assert(results@[i] == (p, a));
                        assert(pre.push(x)[i] == x);
                    }
                }
            } else {
                assert(before + structs_with_fields(path, ss.take(si + 1)) =~= pre);
            }
            si = si + 1;
        }
        assert(ss.take(ss.len() as int) =~= ss);
        fi = fi + 1;
    }
    assert(files@.take(files@.len() as int) =~= files@);
    Some(results)
}

/// The number of passes the resolution of struct sizes may take.
fn pass_limit(files: &[GoFile]) -> (n: u64)
    ensures
        n == pass_bound(files@),
{
    let mut count: u64 = 0;
    let mut fi: usize = 0;
    assert(files@.take(0) =~= Seq::<GoFile>::empty());
    while fi < files.len()
        invariant
            fi <= files@.len(),
            count == (if all_structs(files@.take(fi as int)).len() < u64::MAX {
                all_structs(files@.take(fi as int)).len() as int
            } else {
                u64::MAX as int
            }),
        decreases files@.len() - fi,
    {
        assert(files@.take(fi + 1).drop_last() =~= files@.take(fi as int));
        assert(all_structs(files@.take(fi + 1)).len() == all_structs(files@.take(fi as int)).len()
            + files@[fi as int].structs@.len());
        let len: usize = files[fi].structs.len();
        let l: u64 = len as u64;
        assert(l == len);
        if count < u64::MAX && l < u64::MAX - count {
            count = count + l;
        } else {
            count = u64::MAX;
        }
        fi = fi + 1;
    }
    assert(files@.take(files@.len() as int) =~= files@);
    if count < u64::MAX {
        count + 1
    } else {
        u64::MAX
    }
}

/// Analyses the Go structs of `files` for padding: the sizes of all structs
/// are resolved (see `go_registry`), then each struct with fields is
/// analysed, with the path of its file; `None` where a size does not fit in
/// `u64`.
pub fn try_analyze_files(files: &[GoFile], arch: Arch) -> (r: Option<Vec<(String, AnalyzedStruct)>>)
    ensures
        r is Some <==> go_analysis_fits(files@),
        r matches Some(v) ==> go_results(v@, analyzed_structs(files@), go_registry(files@)->0),
{
    let ghost ss = all_structs(files@);
    let mut registry = Registry::new();
    assert(reg_wf(registry@));
    let mut left: u64 = pass_limit(files);
    let mut done = false;
    while left > 0 && !done
        invariant
            ss == all_structs(files@),
            reg_wf(registry@),
            go_registry(files@) == (if done {
                Some(registry@)
            } else {
                resolve(ss, registry@, left as nat)
            }),
        decreases left,
    {
        let (ok, changed) = register_pass(files, &mut registry);
        if !ok {
            return None;
        }
        if !changed {
            done = true;
        }
        left = left - 1;
    }
    analysis_pass(files, &registry)
}

/// Analyses the Go structs of `files` for padding: one result per struct
/// with fields, with the path of its file.
pub fn analyze_files(files: &[GoFile], arch: Arch) -> (r: Vec<(String, AnalyzedStruct)>)
    requires
        go_analysis_fits(files@),
    ensures
        go_results(r@, analyzed_structs(files@), go_registry(files@)->0),
{
    match try_analyze_files(files, arch) {
        Some(v) => v,
        None => Vec::new(),
    }
}


// ---------------------------------------------------------------------------
// TypeScript (V8 object layout)
// ---------------------------------------------------------------------------

/// V8's size model on 64-bit targets with pointer compression: `number`
/// properties are unboxed 8-byte doubles, everything else a 4-byte tagged
/// pointer; `any`, `unknown`, `never` and `void` are flagged approximate.
pub open spec fn ts_type(t0: Seq<char>) -> TypeInfo {
    let t = trim(t0);
    if t == "number"@ {
        exact(8, 8)
    } else if t == "any"@ || t == "unknown"@ || t == "never"@ || t == "void"@ {
        TypeInfo { size: 4, align: 4, approximate: true }
    } else {
        exact(4, 4)
    }
}

/// The V8 size model of a property type: 8 bytes for `number`, 4 for
/// anything else.
pub fn ts_type_info(type_str: &str) -> (r: TypeInfo)
    ensures
        r == ts_type(type_str@),
{
    let c = chars_of(type_str);
    let t = trim_chars(c.as_slice());
    if eq_str(t.as_slice(), "number") {
        TypeInfo { size: 8, align: 8, approximate: false }
    } else if eq_str(t.as_slice(), "any") || eq_str(t.as_slice(), "unknown") || eq_str(t.as_slice(), "never")
        || eq_str(t.as_slice(), "void") {
        TypeInfo { size: 4, align: 4, approximate: true }
    } else {
        TypeInfo { size: 4, align: 4, approximate: false }
    }
}

pub open spec fn ts_infos(fs: Seq<TsFieldModel>) -> Seq<TypeInfo> {
    fs.map_values(|f: TsFieldModel| ts_type(f.type_str))
}

pub open spec fn ts_field_names(fs: Seq<TsFieldModel>) -> Seq<Seq<char>> {
    fs.map_values(|f: TsFieldModel| f.name)
}

/// The header line of a TypeScript definition.
pub open spec fn ts_header(kind: TsDeclKind, name: Seq<char>, tp: Option<Seq<char>>) -> Seq<char> {
    let p = match tp {
        Some(p) => p,
        None => seq![],
    };
    match kind {
        TsDeclKind::Class => "class "@ + name + p + " {"@,
        TsDeclKind::Interface => "interface "@ + name + p + " {"@,
        TsDeclKind::TypeAlias => "type "@ + name + p + " = {"@,
    }
}

pub open spec fn ts_footer(kind: TsDeclKind) -> Seq<char> {
    if kind == TsDeclKind::TypeAlias {
        "};"@
    } else {
        "}"@
    }
}

pub open spec fn ts_note(optimized: bool) -> Seq<Seq<char>> {
    if optimized {
        seq!["// Reordered for optimal V8 memory layout"@]
    } else {
        seq![]
    }
}

/// The text of a TypeScript definition with its properties in the given
/// order.
pub open spec fn ts_def(d: TsDeclModel, fields: Seq<TsFieldModel>, optimized: bool) -> Seq<char> {
    join_lines(
        d.doc_comments + ts_note(optimized) + seq![ts_header(d.kind, d.name, d.type_params)]
            + body_lines(fields.map_values(|f: TsFieldModel| f.raw_line)) + seq![ts_footer(d.kind)],
    )
}

/// `a` is the analysis of the TypeScript declaration `d`.
pub open spec fn ts_analysis_of(a: AnalyzedStruct, d: TsDeclModel) -> bool {
    let infos = ts_infos(d.fields);
    &&& a.name@ == d.name
    &&& opt_text(a.type_params) == d.type_params
    &&& a.line_number as int == d.line_number
    &&& a.current_size == layout_size(infos)
    &&& exists|o: Seq<usize>|
        #[trigger] is_optimal_order(infos, ts_field_names(d.fields), o) && a.optimal_size == layout_size(
            reorder(infos, o),
        ) && a.optimized_def@ == ts_def(d, pick(d.fields, o), true)
    &&& a.bytes_saved == a.current_size - a.optimal_size
    &&& forall|h: Seq<TypeInfo>|
        #[trigger] h.to_multiset() == infos.to_multiset() ==> a.optimal_size <= layout_size(h)
    &&& a.current_def@ == ts_def(d, d.fields, false)
    &&& a.has_generics == d.type_params is Some
    &&& a.has_embedded == d.has_extends
    &&& a.approximate == (d.type_params is Some || d.has_extends || any_approximate(infos))
    &&& a.declaration_kind@ == kind_name(d.kind)
}

/// The suggested order of a TypeScript declaration is never larger than the
/// order as written, so the bytes saved are what the reordering gains.
pub proof fn lemma_ts_suggestion_never_larger(a: AnalyzedStruct, d: TsDeclModel)
    requires
        ts_analysis_of(a, d),
    ensures
        a.optimal_size <= a.current_size,
        a.bytes_saved + a.optimal_size == a.current_size,
{
    let infos = ts_infos(d.fields);
    assert(infos.to_multiset() == infos.to_multiset());
}

/// A TypeScript declaration's doc comment leads both of its definitions:
/// the current and the suggested text each begin with the doc-comment lines
/// as written. After them the suggested text carries the reordering note on
/// a line of its own, and the current text starts with the declaration's
/// header line.
pub proof fn lemma_ts_doc_comments_lead(a: AnalyzedStruct, d: TsDeclModel)
    requires
        ts_analysis_of(a, d),
    ensures
        starts_with(a.current_def@, doc_prefix(d.doc_comments)),
        starts_with(a.optimized_def@, doc_prefix(d.doc_comments)),
        starts_with(
            a.current_def@.skip(doc_prefix(d.doc_comments).len() as int),
            ts_header(d.kind, d.name, d.type_params),
        ),
        starts_with(
            a.optimized_def@.skip(doc_prefix(d.doc_comments).len() as int),
            "// Reordered for optimal V8 memory layout"@ + seq!['\n'],
        ),
{
    let infos = ts_infos(d.fields);
    let o = choose|o: Seq<usize>|
        #[trigger] is_optimal_order(infos, ts_field_names(d.fields), o) && a.optimal_size == layout_size(
            reorder(infos, o),
        ) && a.optimized_def@ == ts_def(d, pick(d.fields, o), true);
    let docs = d.doc_comments;
    let h = ts_header(d.kind, d.name, d.type_params);
    let tail = |fs: Seq<TsFieldModel>| body_lines(fs.map_values(|f: TsFieldModel| f.raw_line)) + seq![ts_footer(d.kind)];
    let note = "// Reordered for optimal V8 memory layout"@;
    // current text
    let cur_rest = seq![h] + tail(d.fields);
    assert(docs + ts_note(false) + seq![h] + body_lines(d.fields.map_values(|f: TsFieldModel| f.raw_line))
        + seq![ts_footer(d.kind)] =~= docs + cur_rest);
    lemma_docs_then_rest(docs, cur_rest);
    lemma_first_line(h, tail(d.fields));
    lemma_prefix_skip(doc_prefix(docs), join_lines(cur_rest), h);
    // suggested text
    let fs = pick(d.fields, o);
    let opt_rest = seq![note] + (seq![h] + tail(fs));
    assert(docs + ts_note(true) + seq![h] + body_lines(fs.map_values(|f: TsFieldModel| f.raw_line))
        + seq![ts_footer(d.kind)] =~= docs + opt_rest);
    lemma_docs_then_rest(docs, opt_rest);
    lemma_first_line(note, seq![h] + tail(fs));
    assert(starts_with(join_lines(opt_rest), note + seq!['\n'])) by {
        assert(join_lines(opt_rest).take((note + seq!['\n']).len() as int) =~= note + seq!['\n']);
    }
    lemma_prefix_skip(doc_prefix(docs), join_lines(opt_rest), note + seq!['\n']);
}

/// The V8 model: a property whose type is `number` is an unboxed 8-byte
/// double; every other property is a 4-byte tagged pointer, counted as an
/// estimate exactly for `any`, `unknown`, `never` and `void`.
pub proof fn lemma_v8_model(t: Seq<char>)
    ensures
        trim(t) == "number"@ ==> ts_type(t) == (TypeInfo { size: 8, align: 8, approximate: false }),
        trim(t) != "number"@ ==> ts_type(t).size == 4 && ts_type(t).align == 4,
        trim(t) != "number"@ ==> (ts_type(t).approximate <==> (trim(t) == "any"@ || trim(t) == "unknown"@
            || trim(t) == "never"@ || trim(t) == "void"@)),
{
}

proof fn lemma_all_pointers_layout(f: Seq<TypeInfo>)
    requires
        forall|i: int| 0 <= i < f.len() ==> (#[trigger] f[i]).size == 4 && f[i].align == 4,
    ensures
        crate::layout::end_offset(f) == 4 * f.len(),
        max_align(f) == (if f.len() == 0 {
            1int
        } else {
            4int
        }),
        layout_size(f) == 4 * f.len(),
    decreases f.len(),
{
    if f.len() > 0 {
        let h = f.drop_last();
        assert forall|i: int| 0 <= i < h.len() implies (#[trigger] h[i]).size == 4 && h[i].align == 4 by {
            assert(h[i] == f[i]);
        }
        lemma_all_pointers_layout(h);
        assert(f.last() == f[f.len() - 1]);
        vstd::arithmetic::div_mod::lemma_mod_multiples_basic(h.len() as int, 4);
        assert((4 * h.len()) % 4 == 0) by {
            assert(4 * h.len() == h.len() * 4);
        }
        vstd::arithmetic::div_mod::lemma_mod_multiples_basic(f.len() as int, 4);
        assert((4 * f.len()) % 4 == 0) by {
            assert(4 * f.len() == f.len() * 4);
        }
    }
}

/// A TypeScript declaration with no `number` property wastes nothing: all
/// its properties are 4-byte pointers, the declaration takes 4 bytes per
/// property in any order, and no reordering saves a byte.
pub proof fn lemma_no_number_no_padding(a: AnalyzedStruct, d: TsDeclModel)
    requires
        ts_analysis_of(a, d),
        forall|i: int| 0 <= i < d.fields.len() ==> trim(#[trigger] d.fields[i].type_str) != "number"@,
    ensures
        a.current_size == 4 * d.fields.len(),
        a.optimal_size == a.current_size,
        a.bytes_saved == 0,
{
    let infos = ts_infos(d.fields);
    assert forall|i: int| 0 <= i < infos.len() implies (#[trigger] infos[i]).size == 4 && infos[i].align == 4 by {
        lemma_v8_model(d.fields[i].type_str);
    }
    lemma_all_pointers_layout(infos);
    let o = choose|o: Seq<usize>|
        #[trigger] is_optimal_order(infos, ts_field_names(d.fields), o) && a.optimal_size == layout_size(
            reorder(infos, o),
        ) && a.optimized_def@ == ts_def(d, pick(d.fields, o), true);
    let g = reorder(infos, o);
    assert forall|i: int| 0 <= i < g.len() implies (#[trigger] g[i]).size == 4 && g[i].align == 4 by {
        assert(g[i] == infos[o[i] as int]);
    }
    lemma_all_pointers_layout(g);
}

fn ts_infos_exec(fields: &Vec<TsField>) -> (r: Vec<TypeInfo>)
    ensures
        r@ == ts_infos(ts_field_models(fields@)),
        all_wf(r@),
{
    let mut r: Vec<TypeInfo> = Vec::new();
    let mut i: usize = 0;
    while i < fields.len()
        invariant
            i <= fields@.len(),
            r@ == ts_infos(ts_field_models(fields@)).take(i as int),
            all_wf(r@),
        decreases fields@.len() - i,
    {
        let info = ts_type_info(fields[i].type_str.as_str());
        r.push(info);
        assert(ts_infos(ts_field_models(fields@)).take(i + 1) =~= ts_infos(ts_field_models(fields@)).take(
            i as int,
        ).push(info));
        proof {
            lemma_table_aligns();
        }
        assert(wf_info(info));
        assert forall|k: int| 0 <= k < r@.len() implies #[trigger] wf_info(r@[k]) by {
            if k < i {
                assert(r@[k] == ts_infos(ts_field_models(fields@)).take(i as int)[k]);
            } else {
                assert(r@[k] == info);
            }
        }
        i = i + 1;
    }
    assert(ts_infos(ts_field_models(fields@)).take(fields@.len() as int) =~= ts_infos(ts_field_models(fields@)));
    r
}

fn ts_field_name_chars(fields: &Vec<TsField>) -> (r: Vec<Vec<char>>)
    ensures
        r.deep_view() == ts_field_names(ts_field_models(fields@)),
{
    let mut r: Vec<Vec<char>> = Vec::new();
    let mut i: usize = 0;
    while i < fields.len()
        invariant
            i <= fields@.len(),
            r.deep_view() == ts_field_names(ts_field_models(fields@)).take(i as int),
        decreases fields@.len() - i,
    {
        let c = chars_of(fields[i].name.as_str());
        let ghost before = r.deep_view();
        assert(c.deep_view() =~= c@);
        r.push(c);
        assert(r.deep_view() =~= before.push(c@));
        assert(ts_field_names(ts_field_models(fields@)).take(i + 1) =~= ts_field_names(
            ts_field_models(fields@),
        ).take(i as int).push(fields@[i as int].name@));
        i = i + 1;
    }
    assert(ts_field_names(ts_field_models(fields@)).take(fields@.len() as int) =~= ts_field_names(
        ts_field_models(fields@),
    ));
    r
}

/// The text of a TypeScript definition, properties taken in the order `order`.
fn build_ts_def(d: &TsDeclaration, order: &Vec<usize>, optimized: bool) -> (r: String)
    requires
        forall|k: int| 0 <= k < order@.len() ==> #[trigger] order@[k] < d.fields@.len(),
    ensures
        r@ == ts_def(d@, pick(d@.fields, order@), optimized),
{
    let ghost dm = d@;
    let mut parts: Vec<Vec<char>> = Vec::new();
    assert(parts.deep_view() =~= Seq::<Seq<char>>::empty());
    push_text_lines(&mut parts, &d.doc_comments);
    if optimized {
        push_line(&mut parts, chars_of("// Reordered for optimal V8 memory layout"));
    }
    assert(parts.deep_view() =~= dm.doc_comments + ts_note(optimized));
    let mut header = match d.kind {
        TsDeclKind::Class => chars_of("class "),
        TsDeclKind::Interface => chars_of("interface "),
        TsDeclKind::TypeAlias => chars_of("type "),
    };
    push_all(&mut header, chars_of(d.name.as_str()).as_slice());
    match &d.type_params {
        Some(tp) => push_all(&mut header, chars_of(tp.as_str()).as_slice()),
        None => {},
    }
    match d.kind {
        TsDeclKind::TypeAlias => push_all(&mut header, chars_of(" = {").as_slice()),
        _ => push_all(&mut header, chars_of(" {").as_slice()),
    }
    assert(header@ =~= ts_header(dm.kind, dm.name, dm.type_params));
    push_line(&mut parts, header);
    let ghost head = parts.deep_view();
    let ghost raws = pick(dm.fields, order@).map_values(|f: TsFieldModel| f.raw_line);
    let mut k: usize = 0;
    while k < order.len()
        invariant
            k <= order@.len(),
            dm == d@,
            forall|j: int| 0 <= j < order@.len() ==> #[trigger] order@[j] < d.fields@.len(),
            raws == pick(dm.fields, order@).map_values(|f: TsFieldModel| f.raw_line),
            parts.deep_view() == head + body_lines(raws.take(k as int)),
        decreases order@.len() - k,
    {
        let idx = order[k];
        assert(order@[k as int] < d.fields@.len());
        let raw = chars_of(d.fields[idx].raw_line.as_str());
        assert(raw@ == raws[k as int]);
        let line = body_line_exec(raw.as_slice());
        push_line(&mut parts, line);
        assert(body_lines(raws.take(k + 1)) =~= body_lines(raws.take(k as int)).push(body_line(raws[k as int])));
        assert(head + body_lines(raws.take(k + 1)) =~= (head + body_lines(raws.take(k as int))).push(body_line(raws[k as int])));
        k = k + 1;
    }
    assert(raws.take(order@.len() as int) =~= raws);
    let footer = match d.kind {
        TsDeclKind::TypeAlias => chars_of("};"),
        _ => chars_of("}"),
    };
    assert(footer@ == ts_footer(dm.kind));
    push_line(&mut parts, footer);
    assert(parts.deep_view() =~= dm.doc_comments + ts_note(optimized) + seq![ts_header(dm.kind, dm.name, dm.type_params)]
        + body_lines(raws) + seq![ts_footer(dm.kind)]);
    let text = join_lines_exec(&parts);
    string_of(text.as_slice())
}

/// Analyses a TypeScript declaration; a declaration without properties
/// gives no result.
fn analyze_ts_decl(d: &TsDeclaration) -> (r: Option<AnalyzedStruct>)
    requires
        layout_fits(ts_infos(d@.fields)),
    ensures
        r is None <==> d@.fields.len() == 0,
        r matches Some(a) ==> ts_analysis_of(a, d@),
{
    if d.fields.len() == 0 {
        return None;
    }
    let ghost dm = d@;
    let has_generics = d.type_params.is_some();
    let has_embedded = d.has_extends;
    let infos = ts_infos_exec(&d.fields);
    let approximate = has_generics || has_embedded || any_approximate_exec(&infos);
    assert(all_valid_align(infos@)) by {
        assert forall|i: int| 0 <= i < infos@.len() implies valid_align(#[trigger] infos@[i].align as int) by {
            assert(wf_info(infos@[i]));
        }
    }
    let current_size = match struct_layout(infos.as_slice()) {
        Some(p) => p.0,
        None => {
            assert(false);
            0
        },
    };
    let names = ts_field_name_chars(&d.fields);
    assert(names@.len() == names.deep_view().len());
    let order = optimal_order(infos.as_slice(), &names);
    proof {
        lemma_order_facts(infos@, names.deep_view(), order@);
    }
    let sorted = reorder_exec(&infos, &order);
    let optimal_size = match struct_layout(sorted.as_slice()) {
        Some(p) => p.0,
        None => {
            assert(false);
            0
        },
    };
    let bytes_saved = current_size - optimal_size;
    let ident = identity_order(d.fields.len());
    assert(pick(dm.fields, ident@) =~= dm.fields);
    let current_def = build_ts_def(d, &ident, false);
    let optimized_def = build_ts_def(d, &order, true);
    let type_params = match &d.type_params {
        Some(tp) => Some(tp.clone()),
        None => None,
    };
    let kind = d.kind.as_str();
    let r = AnalyzedStruct {
        name: d.name.clone(),
        type_params,
        line_number: d.line_number,
        current_size,
        optimal_size,
        bytes_saved,
        current_def,
        optimized_def,
        has_generics,
        has_embedded,
        approximate,
        declaration_kind: string_of(chars_of(kind).as_slice()),
    };
    assert(is_optimal_order(infos@, ts_field_names(dm.fields), order@));
    Some(r)
}

/// The declarations of `ds` that have properties, each with `path`.
pub open spec fn decls_with_fields(path: Seq<char>, ds: Seq<TsDeclModel>) -> Seq<(Seq<char>, TsDeclModel)>
    decreases ds.len(),
{
    if ds.len() == 0 {
        seq![]
    } else {
        decls_with_fields(path, ds.drop_last()) + if ds.last().fields.len() > 0 {
            seq![(path, ds.last())]
        } else {
            seq![]
        }
    }
}

pub open spec fn decl_models(v: Seq<TsDeclaration>) -> Seq<TsDeclModel> {
    v.map_values(|d: TsDeclaration| d@)
}

/// The declarations that the analysis reports on, with their files' paths.
pub open spec fn analyzed_decls(files: Seq<TsFile>) -> Seq<(Seq<char>, TsDeclModel)>
    decreases files.len(),
{
    if files.len() == 0 {
        seq![]
    } else {
        analyzed_decls(files.drop_last()) + decls_with_fields(
            files.last().path@,
            decl_models(files.last().declarations@),
        )
    }
}

/// Analysing the declarations does not overflow `u64`.
pub open spec fn ts_analysis_fits(files: Seq<TsFile>) -> bool {
    forall|i: int|
        0 <= i < analyzed_decls(files).len() ==> layout_fits(ts_infos((#[trigger] analyzed_decls(files)[i]).1.fields))
}

/// `r` reports on each declaration of `expected`, in order.
pub open spec fn ts_results(r: Seq<(String, AnalyzedStruct)>, expected: Seq<(Seq<char>, TsDeclModel)>) -> bool {
    &&& r.len() == expected.len()
    &&& forall|i: int|
        0 <= i < r.len() ==> (#[trigger] r[i]).0@ == expected[i].0 && ts_analysis_of(r[i].1, expected[i].1)
}

proof fn lemma_dwf_prefix(path: Seq<char>, ds: Seq<TsDeclModel>, k: int)
    requires
        0 <= k <= ds.len(),
    ensures
        is_prefix(decls_with_fields(path, ds.take(k)), decls_with_fields(path, ds)),
    decreases ds.len() - k,
{
    if k < ds.len() {
        lemma_dwf_prefix(path, ds, k + 1);
        assert(ds.take(k + 1).drop_last() =~= ds.take(k));
        let a = decls_with_fields(path, ds.take(k));
        let b = decls_with_fields(path, ds.take(k + 1));
        assert(b.take(a.len() as int) =~= a);
        lemma_prefix_trans(a, b, decls_with_fields(path, ds));
    } else {
        assert(ds.take(k) =~= ds);
        assert(decls_with_fields(path, ds).take(decls_with_fields(path, ds).len() as int) =~= decls_with_fields(path, ds));
    }
}

proof fn lemma_analyzed_decls_prefix(files: Seq<TsFile>, k: int)
    requires
        0 <= k <= files.len(),
    ensures
        is_prefix(analyzed_decls(files.take(k)), analyzed_decls(files)),
    decreases files.len() - k,
{
    if k < files.len() {
        lemma_analyzed_decls_prefix(files, k + 1);
        assert(files.take(k + 1).drop_last() =~= files.take(k));
        let a = analyzed_decls(files.take(k));
        let b = analyzed_decls(files.take(k + 1));
        assert(b.take(a.len() as int) =~= a);
        lemma_prefix_trans(a, b, analyzed_decls(files));
    } else {
        assert(files.take(k) =~= files);
        assert(analyzed_decls(files).take(analyzed_decls(files).len() as int) =~= analyzed_decls(files));
    }
}

/// Analyses the TypeScript declarations of `files` for V8 layout padding: one
/// result per declaration with properties, with the path of its file; `None`
/// where a size does not fit in `u64`.
pub fn try_analyze_ts_files(files: &[TsFile]) -> (r: Option<Vec<(String, AnalyzedStruct)>>)
    ensures
        r is Some <==> ts_analysis_fits(files@),
        r matches Some(v) ==> ts_results(v@, analyzed_decls(files@)),
{
    let ghost all = analyzed_decls(files@);
    let mut results: Vec<(String, AnalyzedStruct)> = Vec::new();
    let mut fi: usize = 0;
    assert(files@.take(0) =~= Seq::<TsFile>::empty());
    while fi < files.len()
        invariant
            fi <= files@.len(),
            all == analyzed_decls(files@),
            ts_results(results@, analyzed_decls(files@.take(fi as int))),
            forall|i: int|
                0 <= i < analyzed_decls(files@.take(fi as int)).len() ==> layout_fits(
                    ts_infos((#[trigger] analyzed_decls(files@.take(fi as int))[i]).1.fields),
                ),
        decreases files@.len() - fi,
    {
        let decls = &files[fi].declarations;
        let ghost path = files@[fi as int].path@;
        let ghost ds = decl_models(decls@);
        let ghost before = analyzed_decls(files@.take(fi as int));
        assert(files@.take(fi + 1).drop_last() =~= files@.take(fi as int));
        assert(analyzed_decls(files@.take(fi + 1)) == before + decls_with_fields(path, ds));
        proof {
            lemma_analyzed_decls_prefix(files@, fi + 1);
        }
        let mut di: usize = 0;
        assert(ds.take(0) =~= Seq::<TsDeclModel>::empty());
        assert(before + decls_with_fields(path, ds.take(0)) =~= before);
        while di < decls.len()
            invariant
                di <= decls@.len(),
                fi < files@.len(),
                all == analyzed_decls(files@),
                path == files@[fi as int].path@,
                ds == decl_models(decls@),
                decls@ == files@[fi as int].declarations@,
                before == analyzed_decls(files@.take(fi as int)),
                is_prefix(before + decls_with_fields(path, ds), all),
                ts_results(results@, before + decls_with_fields(path, ds.take(di as int))),
                forall|i: int|
                    0 <= i < (before + decls_with_fields(path, ds.take(di as int))).len() ==> layout_fits(
                        ts_infos((#[trigger] (before + decls_with_fields(path, ds.take(di as int)))[i]).1.fields),
                    ),
            decreases decls@.len() - di,
        {
            let d = &decls[di];
            let ghost pre = before + decls_with_fields(path, ds.take(di as int));
            assert(ds.take(di + 1).drop_last() =~= ds.take(di as int));
            assert(ds.take(di + 1).last() == d@);
            if d.fields.len() > 0 {
                let ghost x = (path, d@);
                assert(before + decls_with_fields(path, ds.take(di + 1)) =~= pre.push(x));
                proof {
                    lemma_dwf_prefix(path, ds, di + 1);
                    lemma_prefix_append(decls_with_fields(path, ds.take(di + 1)), decls_with_fields(path, ds), before);
                    lemma_prefix_trans(pre.push(x), before + decls_with_fields(path, ds), all);
                    assert(all[pre.len() as int] == pre.push(x)[pre.len() as int]);
                }
                let infos = ts_infos_exec(&d.fields);
                assert(all_valid_align(infos@)) by {
                    assert forall|i: int| 0 <= i < infos@.len() implies valid_align(#[trigger] infos@[i].align as int) by {
                        assert(wf_info(infos@[i]));
                    }
                }
                if struct_layout(infos.as_slice()).is_none() {
                    return None;
                }
                let a = match analyze_ts_decl(d) {
                    Some(a) => a,
                    None => {
                        return None;
                    },
                };
                let ghost old_results = results@;
                let p = files[fi].path.clone();
                assert(p@ == path);
                results.push((p, a));
                assert forall|i: int| 0 <= i < results@.len() implies (#[trigger] results@[i]).0@ == pre.push(x)[i].0
                    && ts_analysis_of(results@[i].1, pre.push(x)[i].1) by {
                    if i < old_results.len() {
                        assert(results@[i] == old_results[i]);
                        assert(pre.push(x)[i] == pre[i]);
                        assert(old_results[i].0@ == pre[i].0);
                    } else {
                        assert(results@[i] == (p, a));
                        assert(pre.push(x)[i] == x);
                    }
                }
            } else {
                assert(before + decls_with_fields(path, ds.take(di + 1)) =~= pre);
            }
            di = di + 1;
        }
        assert(ds.take(ds.len() as int) =~= ds);
        fi = fi + 1;
    }
    assert(files@.take(files@.len() as int) =~= files@);
    Some(results)
}

/// Analyses the TypeScript declarations of `files` for V8 layout padding: one
/// result per declaration with properties, with the path of its file.
pub fn analyze_ts_files(files: &[TsFile]) -> (r: Vec<(String, AnalyzedStruct)>)
    requires
        ts_analysis_fits(files@),
    ensures
        ts_results(r@, analyzed_decls(files@)),
{
    match try_analyze_ts_files(files) {
        Some(v) => v,
        None => Vec::new(),
    }
}

} // verus!
