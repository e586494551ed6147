//! Memory layout of a record: field placement with alignment padding, and the
//! order of fields that leaves no room for padding.
use vstd::prelude::*;
use vstd::arithmetic::power2::{pow2, lemma2_to64, lemma2_to64_rest, lemma_pow2_pos, lemma_pow2_adds, lemma_pow2_strictly_increases};

verus! {

/// Size and alignment of a field's type, in bytes; `approximate` marks a type
/// whose size could not be resolved exactly.
#[derive(Debug, Clone, Copy, PartialEq, Eq, Structural)]
pub struct TypeInfo {
    pub size: u64,
    pub align: u64,
    pub approximate: bool,
}

/// An alignment: a power of two that fits in `u64`.
pub open spec fn valid_align(a: int) -> bool {
    exists|k: nat| k < 64 && #[trigger] pow2(k) == a
}

/// The alignments of the size tables are powers of two.
pub proof fn lemma_table_aligns()
    ensures
        valid_align(1),
        valid_align(2),
        valid_align(4),
        valid_align(8),
{
    lemma2_to64();
    assert(pow2(0) == 1);
    assert(pow2(1) == 2);
    assert(pow2(2) == 4);
    assert(pow2(3) == 8);
}

/// An alignment is positive and at most `2^63`.
pub proof fn lemma_align_bounds(a: int)
    requires
        valid_align(a),
    ensures
        1 <= a <= 0x8000_0000_0000_0000,
{
    let k = choose|k: nat| k < 64 && #[trigger] pow2(k) == a;
    lemma_pow2_pos(k);
    lemma2_to64_rest();
    if k < 63 {
        lemma_pow2_strictly_increases(k, 63);
    }
}

/// A type whose alignment is one of the modelled powers of two and whose size
/// is a whole number of alignment units.
pub open spec fn wf_info(t: TypeInfo) -> bool {
    valid_align(t.align as int) && (t.size as int) % (t.align as int) == 0
}

pub open spec fn all_wf(f: Seq<TypeInfo>) -> bool {
    forall|i: int| 0 <= i < f.len() ==> #[trigger] wf_info(f[i])
}

pub open spec fn all_valid_align(f: Seq<TypeInfo>) -> bool {
    forall|i: int| 0 <= i < f.len() ==> valid_align(#[trigger] f[i].align as int)
}

/// The least multiple of `a` that is not below `o`.
pub open spec fn round_up(o: int, a: int) -> int {
    if a <= 0 || o % a == 0 {
        o
    } else {
        o - o % a + a
    }
}

/// Offset just past the last field, when the fields are placed in order and
/// each starts at a multiple of its alignment.
pub open spec fn end_offset(f: Seq<TypeInfo>) -> int
    decreases f.len(),
{
    if f.len() == 0 {
        0
    } else {
        round_up(end_offset(f.drop_last()), f.last().align as int) + f.last().size
    }
}

/// The largest alignment among the fields, and at least 1.
pub open spec fn max_align(f: Seq<TypeInfo>) -> int
    decreases f.len(),
{
    if f.len() == 0 {
        1
    } else {
        let m = max_align(f.drop_last());
        if f.last().align > m {
            f.last().align as int
        } else {
            m
        }
    }
}

/// Total size of a record with these fields in this order, trailing padding
/// included.
pub open spec fn layout_size(f: Seq<TypeInfo>) -> int {
    round_up(end_offset(f), max_align(f))
}

/// Placing field `i` after the fields before it stays within `u64`.
pub open spec fn step_fits(f: Seq<TypeInfo>, i: int) -> bool {
    let o = end_offset(f.take(i));
    &&& o + f[i].align - 1 <= u64::MAX
    &&& round_up(o, f[i].align as int) + f[i].size <= u64::MAX
}

/// Computing the layout of `f` in `u64` arithmetic does not overflow.
pub open spec fn layout_fits(f: Seq<TypeInfo>) -> bool {
    &&& forall|i: int| 0 <= i < f.len() ==> #[trigger] step_fits(f, i)
    &&& end_offset(f) + max_align(f) - 1 <= u64::MAX
}

/// Sum of the field sizes.
pub open spec fn sum_sizes(f: Seq<TypeInfo>) -> int
    decreases f.len(),
{
    if f.len() == 0 {
        0
    } else {
        sum_sizes(f.drop_last()) + f.last().size
    }
}

proof fn lemma_round_up_c(o: int, a: int)
    requires
        0 <= o,
        0 < a,
    ensures
        o <= round_up(o, a) <= o + a - 1,
        round_up(o, a) % a == 0,
        o % a == 0 ==> round_up(o, a) == o,
{
    vstd::arithmetic::div_mod::lemma_fundamental_div_mod(o, a);
    let q = o / a;
    let r = o % a;
    assert(0 <= r < a) by {
        vstd::arithmetic::div_mod::lemma_mod_pos_bound(o, a);
    }
    if r != 0 {
        assert(round_up(o, a) == a * q + a);
        assert(a * q + a == (q + 1) * a) by (nonlinear_arith);
        vstd::arithmetic::div_mod::lemma_mod_multiples_basic(q + 1, a);
    }
}

pub proof fn lemma_round_up(o: int, a: int)
    requires
        0 <= o,
        valid_align(a),
    ensures
        o <= round_up(o, a) <= o + a - 1,
        round_up(o, a) % a == 0,
        o % a == 0 ==> round_up(o, a) == o,
{
    lemma_align_bounds(a);
    lemma_round_up_c(o, a);
}

proof fn lemma_round_up_monotone(x: int, y: int, a: int)
    requires
        0 <= x <= y,
        valid_align(a),
    ensures
        round_up(x, a) <= round_up(y, a),
{
    lemma_round_up(x, a);
    lemma_round_up(y, a);
    let rx = round_up(x, a);
    let ry = round_up(y, a);
    if ry < rx {
        vstd::arithmetic::div_mod::lemma_fundamental_div_mod(rx, a);
        vstd::arithmetic::div_mod::lemma_fundamental_div_mod(ry, a);
        let qx = rx / a;
        let qy = ry / a;
        assert(rx == a * qx);
        assert(ry == a * qy);
        assert(qy < qx) by {
            if qy >= qx {
                vstd::arithmetic::mul::lemma_mul_inequality(qx, qy, a);
                vstd::arithmetic::mul::lemma_mul_is_commutative(a, qx);
                vstd::arithmetic::mul::lemma_mul_is_commutative(a, qy);
            }
        }
        assert(a * qy <= a * qx - a) by {
            vstd::arithmetic::mul::lemma_mul_inequality(qy, qx - 1, a);
            vstd::arithmetic::mul::lemma_mul_is_commutative(a, qy);
            vstd::arithmetic::mul::lemma_mul_is_commutative(a, qx - 1);
            vstd::arithmetic::mul::lemma_mul_is_distributive_sub(a, qx, 1);
        }
        // ry <= rx - a < x - 1 + 1 <= y <= ry: contradiction
        assert(rx <= x + a - 1);
    }
}

/// `offset` rounded up to a multiple of the power of two `align`.
fn align_up(offset: u64, align: u64) -> (r: u64)
    requires
        valid_align(align as int),
        offset + align - 1 <= u64::MAX,
    ensures
        r == round_up(offset as int, align as int),
{
    proof {
        lemma_align_bounds(align as int);
    }
    let rem: u64 = offset % align;
    proof {
        let q = offset as int / align as int;
        vstd::arithmetic::div_mod::lemma_fundamental_div_mod(offset as int, align as int);
        vstd::arithmetic::div_mod::lemma_mod_pos_bound(offset as int, align as int);
        vstd::arithmetic::div_mod::lemma_div_pos_is_pos(offset as int, align as int);
        assert(rem <= offset) by (nonlinear_arith)
            requires
                offset == align * q + rem,
                q >= 0,
                align > 0,
        ;
    }
    if rem == 0 {
        offset
    } else {
        offset - rem + align
    }
}

/// Size of a record whose fields have the given types, in this order, and its
/// alignment; `None` where that size does not fit in `u64`.
pub fn struct_layout(fields: &[TypeInfo]) -> (r: Option<(u64, u64)>)
    requires
        all_valid_align(fields@),
    ensures
        r is Some <==> layout_fits(fields@),
        r matches Some(p) ==> p.0 == layout_size(fields@) && p.1 == max_align(fields@),
{
    let ghost f = fields@;
    let mut offset: u64 = 0;
    let mut max: u64 = 1;
    let mut i: usize = 0;
    assert(f.take(0) =~= Seq::<TypeInfo>::empty());
    proof {
        lemma_table_aligns();
    }
    while i < fields.len()
        invariant
            f == fields@,
            i <= f.len(),
            all_valid_align(f),
            forall|j: int| 0 <= j < i ==> #[trigger] step_fits(f, j),
            offset == end_offset(f.take(i as int)),
            max == max_align(f.take(i as int)),
            valid_align(max as int),
        decreases f.len() - i,
    {
        let info = fields[i];
        assert(valid_align(f[i as int].align as int));
        proof {
            lemma_align_bounds(info.align as int);
        }
        assert(f.take(i + 1).drop_last() =~= f.take(i as int));
        assert(f.take(i + 1).last() == info);
        if offset > u64::MAX - (info.align - 1) {
            assert(!step_fits(f, i as int));
            return None;
        }
        let aligned = align_up(offset, info.align);
        if aligned > u64::MAX - info.size {
            assert(!step_fits(f, i as int));
            return None;
        }
        offset = aligned + info.size;
        if info.align > max {
            max = info.align;
        }
        i = i + 1;
    }
    assert(f.take(f.len() as int) =~= f);
    proof {
        lemma_align_bounds(max as int);
    }
    if offset > u64::MAX - (max - 1) {
        return None;
    }
    offset = align_up(offset, max);
    Some((offset, max))
}

// ---------------------------------------------------------------------------
// Order of fields
// ---------------------------------------------------------------------------

/// Lexicographic order on character sequences, characters compared by code
/// point (for `String`s this is the order of their UTF-8 bytes, which `Ord`
/// on `String` uses).
pub open spec fn seq_lt(a: Seq<char>, b: Seq<char>) -> bool
    decreases a.len(),
{
    if a.len() == 0 {
        b.len() > 0
    } else if b.len() == 0 {
        false
    } else if a[0] < b[0] {
        true
    } else if a[0] > b[0] {
        false
    } else {
        seq_lt(a.drop_first(), b.drop_first())
    }
}

/// In the suggested order, field `i` comes before field `j`: larger alignment
/// first, then larger size, then name; fields equal in all three keep the
/// order they were declared in.
pub open spec fn goes_before(infos: Seq<TypeInfo>, names: Seq<Seq<char>>, i: int, j: int) -> bool {
    let a = infos[i];
    let b = infos[j];
    ||| a.align > b.align
    ||| a.align == b.align && a.size > b.size
    ||| a.align == b.align && a.size == b.size && seq_lt(names[i], names[j])
    ||| a.align == b.align && a.size == b.size && names[i] == names[j] && i < j
}

/// `o` lists each of `0..n` exactly once.
pub open spec fn is_permutation(o: Seq<usize>, n: int) -> bool {
    &&& o.len() == n
    &&& forall|k: int| 0 <= k < o.len() ==> #[trigger] o[k] < n
    &&& forall|a: int, b: int| 0 <= a < b < o.len() ==> o[a] != o[b]
    &&& forall|x: usize| x < n ==> o.contains(x)
}

/// `o` is the suggested order of the fields: every field once, sorted by
/// `goes_before`.
pub open spec fn is_optimal_order(infos: Seq<TypeInfo>, names: Seq<Seq<char>>, o: Seq<usize>) -> bool {
    &&& is_permutation(o, infos.len() as int)
    &&& forall|a: int, b: int|
        0 <= a < b < o.len() ==> goes_before(infos, names, #[trigger] o[a] as int, #[trigger] o[b] as int)
}

/// The field types taken in the order `o`.
pub open spec fn reorder(infos: Seq<TypeInfo>, o: Seq<usize>) -> Seq<TypeInfo> {
    o.map_values(|k: usize| infos[k as int])
}

/// Alignments never increase along `g`.
pub open spec fn align_non_increasing(g: Seq<TypeInfo>) -> bool {
    forall|a: int, b: int| 0 <= a < b < g.len() ==> #[trigger] g[a].align >= #[trigger] g[b].align
}

/// `seq_lt` is a strict total order.
pub proof fn lemma_seq_lt_order(a: Seq<char>, b: Seq<char>, c: Seq<char>)
    ensures
        !seq_lt(a, a),
        seq_lt(a, b) && seq_lt(b, c) ==> seq_lt(a, c),
        a != b ==> seq_lt(a, b) || seq_lt(b, a),
        seq_lt(a, b) ==> !seq_lt(b, a),
    decreases a.len(),
{
    if a.len() > 0 && b.len() > 0 && c.len() > 0 {
        lemma_seq_lt_order(a.drop_first(), b.drop_first(), c.drop_first());
    } else if a.len() > 0 && b.len() > 0 {
        lemma_seq_lt_order(a.drop_first(), b.drop_first(), b.drop_first());
    } else if a.len() > 0 {
        lemma_seq_lt_order(a.drop_first(), a.drop_first(), a.drop_first());
    }
    if a.len() > 0 && b.len() > 0 && a[0] == b[0] && a.drop_first() == b.drop_first() {
        assert forall|i: int| 0 <= i < a.len() implies a[i] == b[i] by {
            if i > 0 {
                assert(a[i] == a.drop_first()[i - 1]);
                assert(b[i] == b.drop_first()[i - 1]);
            }
        }
        assert(a =~= b);
    }
    if a.len() == 0 && b.len() == 0 {
        assert(a =~= b);
    }
}

/// `goes_before` is a strict total order on the fields.
pub proof fn lemma_goes_before_order(infos: Seq<TypeInfo>, names: Seq<Seq<char>>, i: int, j: int, k: int)
    ensures
        !goes_before(infos, names, i, i),
        goes_before(infos, names, i, j) && goes_before(infos, names, j, k) ==> goes_before(infos, names, i, k),
        i != j ==> goes_before(infos, names, i, j) || goes_before(infos, names, j, i),
        goes_before(infos, names, i, j) ==> !goes_before(infos, names, j, i),
{
    lemma_seq_lt_order(names[i], names[j], names[k]);
    lemma_seq_lt_order(names[j], names[i], names[i]);
}

/// Two suggested orders of the same fields are the same: the order is
/// determined by the fields.
pub proof fn lemma_optimal_order_unique(
    infos: Seq<TypeInfo>,
    names: Seq<Seq<char>>,
    o1: Seq<usize>,
    o2: Seq<usize>,
)
    requires
        is_optimal_order(infos, names, o1),
        is_optimal_order(infos, names, o2),
    ensures
        o1 == o2,
{
    assert forall|x: usize| o1.contains(x) <==> o2.contains(x) by {
        if o1.contains(x) {
            let p = choose|p: int| 0 <= p < o1.len() && o1[p] == x;
            assert(o1[p] < infos.len());
        }
        if o2.contains(x) {
            let p = choose|p: int| 0 <= p < o2.len() && o2[p] == x;
            assert(o2[p] < infos.len());
        }
    }
    lemma_sorted_same_elements_equal(infos, names, o1, o2);
}

proof fn lemma_sorted_same_elements_equal(
    infos: Seq<TypeInfo>,
    names: Seq<Seq<char>>,
    o1: Seq<usize>,
    o2: Seq<usize>,
)
    requires
        forall|a: int, b: int| 0 <= a < b < o1.len() ==> o1[a] != o1[b],
        forall|a: int, b: int| 0 <= a < b < o2.len() ==> o2[a] != o2[b],
        forall|a: int, b: int|
            0 <= a < b < o1.len() ==> goes_before(infos, names, #[trigger] o1[a] as int, #[trigger] o1[b] as int),
        forall|a: int, b: int|
            0 <= a < b < o2.len() ==> goes_before(infos, names, #[trigger] o2[a] as int, #[trigger] o2[b] as int),
        o1.len() == o2.len(),
        forall|x: usize| o1.contains(x) <==> o2.contains(x),
    ensures
        o1 == o2,
    decreases o1.len(),
{
    if o1.len() > 0 {
        let x1 = o1[0];
        let x2 = o2[0];
        if x1 != x2 {
            assert(o2.contains(x1)) by {
                assert(o1.contains(x1));
            }
            assert(o1.contains(x2)) by {
                assert(o2.contains(x2));
            }
            let p2 = choose|p: int| 0 <= p < o2.len() && o2[p] == x1;
            let p1 = choose|p: int| 0 <= p < o1.len() && o1[p] == x2;
            assert(p2 > 0);
            assert(p1 > 0);
            assert(goes_before(infos, names, x2 as int, x1 as int));
            assert(goes_before(infos, names, x1 as int, x2 as int));
            lemma_goes_before_order(infos, names, x1 as int, x2 as int, x2 as int);
        }
        let t1 = o1.drop_first();
        let t2 = o2.drop_first();
        assert forall|x: usize| t1.contains(x) <==> t2.contains(x) by {
            if t1.contains(x) {
                let p = choose|p: int| 0 <= p < t1.len() && t1[p] == x;
                assert(o1[p + 1] == x);
                assert(x != x1);
                assert(o1.contains(x));
                assert(o2.contains(x));
                let q = choose|q: int| 0 <= q < o2.len() && o2[q] == x;
                assert(q != 0);
                assert(t2[q - 1] == x);
            }
            if t2.contains(x) {
                let p = choose|p: int| 0 <= p < t2.len() && t2[p] == x;
                assert(o2[p + 1] == x);
                assert(x != x2);
                assert(o2.contains(x));
                assert(o1.contains(x));
                let q = choose|q: int| 0 <= q < o1.len() && o1[q] == x;
                assert(q != 0);
                assert(t1[q - 1] == x);
            }
        }
        assert forall|a: int, b: int| 0 <= a < b < t1.len() implies goes_before(
            infos,
            names,
            #[trigger] t1[a] as int,
            #[trigger] t1[b] as int,
        ) by {
            assert(t1[a] == o1[a + 1] && t1[b] == o1[b + 1]);
        }
        assert forall|a: int, b: int| 0 <= a < b < t2.len() implies goes_before(
            infos,
            names,
            #[trigger] t2[a] as int,
            #[trigger] t2[b] as int,
        ) by {
            assert(t2[a] == o2[a + 1] && t2[b] == o2[b + 1]);
        }
        lemma_sorted_same_elements_equal(infos, names, t1, t2);
        assert(o1 =~= seq![x1] + t1);
        assert(o2 =~= seq![x2] + t2);
    }
}

/// `a < b` in the order of `seq_lt`.
pub fn name_lt(a: &[char], b: &[char]) -> (r: bool)
    ensures
        r == seq_lt(a@, b@),
{
    let mut i: usize = 0;
    assert(a@.skip(0) =~= a@);
    assert(b@.skip(0) =~= b@);
    while i < a.len() && i < b.len()
        invariant
            i <= a@.len(),
            i <= b@.len(),
            seq_lt(a@, b@) == seq_lt(a@.skip(i as int), b@.skip(i as int)),
        decreases a@.len() - i,
    {
        let ca = a[i];
        let cb = b[i];
        if ca < cb {
            return true;
        }
        if ca > cb {
            return false;
        }
        assert(a@.skip(i as int).drop_first() =~= a@.skip(i + 1));
        assert(b@.skip(i as int).drop_first() =~= b@.skip(i + 1));
        i = i + 1;
    }
    i < b.len()
}

fn goes_before_exec(infos: &[TypeInfo], names: &Vec<Vec<char>>, i: usize, j: usize) -> (r: bool)
    requires
        i < infos@.len(),
        j < infos@.len(),
        names@.len() == infos@.len(),
    ensures
        r == goes_before(infos@, names.deep_view(), i as int, j as int),
{
    let a = infos[i];
    let b = infos[j];
    assert(names.deep_view()[i as int] == names@[i as int]@);
    assert(names.deep_view()[j as int] == names@[j as int]@);
    if a.align != b.align {
        return a.align > b.align;
    }
    if a.size != b.size {
        return a.size > b.size;
    }
    let na = names[i].as_slice();
    let nb = names[j].as_slice();
    if name_lt(na, nb) {
        return true;
    }
    if name_lt(nb, na) {
        proof {
            lemma_seq_lt_order(nb@, na@, na@);
        }
        return false;
    }
    proof {
        lemma_seq_lt_order(na@, nb@, nb@);
    }
    i < j
}

proof fn lemma_insert_to_multiset<A>(s: Seq<A>, p: int, x: A)
    requires
        0 <= p <= s.len(),
    ensures
        s.insert(p, x).to_multiset() =~= s.to_multiset().insert(x),
{
    broadcast use vstd::seq_lib::group_to_multiset_ensures;

    let t = s.insert(p, x);
    assert(t.remove(p) =~= s);
    assert(t[p] == x);
    assert(t.contains(x));
}

/// The suggested order of the fields: indices into `infos`, sorted so that
/// larger alignments come first, then larger sizes, then names in
/// lexicographic order, ties keeping declaration order.
pub fn optimal_order(infos: &[TypeInfo], names: &Vec<Vec<char>>) -> (r: Vec<usize>)
    requires
        names@.len() == infos@.len(),
    ensures
        is_optimal_order(infos@, names.deep_view(), r@),
        reorder(infos@, r@).to_multiset() == infos@.to_multiset(),
{
    let ghost f = infos@;
    let ghost nm = names.deep_view();
    let n = infos.len();
    let mut r: Vec<usize> = Vec::new();
    let mut i: usize = 0;
    assert(f.take(0) =~= Seq::<TypeInfo>::empty());
    assert(reorder(f, r@) =~= Seq::<TypeInfo>::empty());
    while i < n
        invariant
            f == infos@,
            nm == names.deep_view(),
            n == f.len(),
            names@.len() == n,
            i <= n,
            r@.len() == i,
            forall|k: int| 0 <= k < r@.len() ==> #[trigger] r@[k] < i,
            forall|a: int, b: int| 0 <= a < b < r@.len() ==> r@[a] != r@[b],
            forall|x: usize| x < i ==> r@.contains(x),
            forall|a: int, b: int|
                0 <= a < b < r@.len() ==> goes_before(f, nm, #[trigger] r@[a] as int, #[trigger] r@[b] as int),
            reorder(f, r@).to_multiset() == f.take(i as int).to_multiset(),
        decreases n - i,
    {
        let mut p: usize = 0;
        while p < r.len() && !goes_before_exec(infos, names, i, r[p])
            invariant
                f == infos@,
                nm == names.deep_view(),
                n == f.len(),
                names@.len() == n,
                i < n,
                p <= r@.len(),
                forall|k: int| 0 <= k < r@.len() ==> #[trigger] r@[k] < i,
                forall|q: int| 0 <= q < p ==> !goes_before(f, nm, i as int, #[trigger] r@[q] as int),
            decreases r@.len() - p,
        {
            p = p + 1;
        }
        let ghost old_r = r@;
        r.insert(p, i);
        proof {
            assert(r@ =~= old_r.insert(p as int, i));
            assert forall|a: int, b: int| 0 <= a < b < r@.len() implies goes_before(
                f,
                nm,
                #[trigger] r@[a] as int,
                #[trigger] r@[b] as int,
            ) by {
                if a < p && b == p {
                    lemma_goes_before_order(f, nm, i as int, old_r[a] as int, old_r[a] as int);
                } else if a == p && b > p {
                    if b == p + 1 {
                    } else {
                        lemma_goes_before_order(f, nm, i as int, old_r[p as int] as int, old_r[b - 1] as int);
                    }
                } else if a < p && b > p {
                    assert(r@[a] == old_r[a] && r@[b] == old_r[b - 1]);
                } else if b < p {
                } else {
                    assert(r@[a] == old_r[a - 1] && r@[b] == old_r[b - 1]);
                }
            }
            assert forall|x: usize| x < i + 1 implies r@.contains(x) by {
                if x == i {
                    assert(r@[p as int] == i);
                } else {
                    assert(old_r.contains(x));
                    let q = choose|q: int| 0 <= q < old_r.len() && old_r[q] == x;
                    if q < p {
                        assert(r@[q] == x);
                    } else {
                        assert(r@[q + 1] == x);
                    }
                }
            }
            assert forall|a: int, b: int| 0 <= a < b < r@.len() implies r@[a] != r@[b] by {
                if a == p {
                    assert(r@[b] == old_r[b - 1]);
                } else if b == p {
                    assert(r@[a] == old_r[a]);
                } else if a < p && b < p {
                } else if a < p {
                    assert(r@[b] == old_r[b - 1]);
                } else {
                    assert(r@[a] == old_r[a - 1]);
                    assert(r@[b] == old_r[b - 1]);
                }
            }
            assert(reorder(f, r@) =~= reorder(f, old_r).insert(p as int, f[i as int]));
            lemma_insert_to_multiset(reorder(f, old_r), p as int, f[i as int]);
            assert(f.take(i + 1) =~= f.take(i as int).push(f[i as int]));
            broadcast use vstd::seq_lib::group_to_multiset_ensures;
        }
        i = i + 1;
    }
    assert(f.take(n as int) =~= f);
    r
}

// ---------------------------------------------------------------------------
// Laws of the layout
// ---------------------------------------------------------------------------

proof fn lemma_round_up_ge(o: int, a: int)
    requires
        0 <= o,
    ensures
        o <= round_up(o, a),
{
}

proof fn lemma_divides_smaller_power(x: int, big: int, small: int)
    requires
        valid_align(big),
        valid_align(small),
        small <= big,
        x % big == 0,
    ensures
        x % small == 0,
{
    let kb = choose|k: nat| k < 64 && #[trigger] pow2(k) == big;
    let ks = choose|k: nat| k < 64 && #[trigger] pow2(k) == small;
    if kb < ks {
        lemma_pow2_strictly_increases(kb, ks);
    }
    let d = (kb - ks) as nat;
    lemma_pow2_adds(ks, d);
    assert(ks + d == kb);
    let q: int = pow2(d) as int;
    lemma_pow2_pos(d);
    lemma_pow2_pos(ks);
    assert(small * q == big);
    vstd::arithmetic::div_mod::lemma_mod_mod(x, small, q);
}

proof fn lemma_sum_multiple(x: int, y: int, a: int)
    requires
        valid_align(a),
        x % a == 0,
        y % a == 0,
    ensures
        (x + y) % a == 0,
{
    lemma_align_bounds(a);
    vstd::arithmetic::div_mod::lemma_add_mod_noop(x, y, a);
    assert(0int % a == 0) by (nonlinear_arith)
        requires
            a > 0,
    ;
}

/// No field of a record adds less than its size: the fields never overlap.
pub proof fn lemma_end_offset_at_least_sum(f: Seq<TypeInfo>)
    ensures
        end_offset(f) >= sum_sizes(f),
        sum_sizes(f) >= 0,
    decreases f.len(),
{
    if f.len() > 0 {
        lemma_end_offset_at_least_sum(f.drop_last());
        lemma_round_up_ge(end_offset(f.drop_last()), f.last().align as int);
    }
}

/// With alignments that never increase, and each size a whole number of
/// alignment units, fields are placed with no padding between them.
pub proof fn lemma_sorted_no_padding(g: Seq<TypeInfo>)
    requires
        all_wf(g),
        align_non_increasing(g),
    ensures
        end_offset(g) == sum_sizes(g),
        g.len() > 0 ==> end_offset(g) % (g.last().align as int) == 0,
    decreases g.len(),
{
    if g.len() > 0 {
        let h = g.drop_last();
        assert(all_wf(h)) by {
            assert forall|i: int| 0 <= i < h.len() implies #[trigger] wf_info(h[i]) by {
                assert(wf_info(g[i]));
            }
        }
        assert(align_non_increasing(h)) by {
            assert forall|a: int, b: int| 0 <= a < b < h.len() implies #[trigger] h[a].align >= #[trigger] h[b].align by {
                assert(g[a].align >= g[b].align);
            }
        }
        lemma_sorted_no_padding(h);
        let a = g.last().align as int;
        assert(wf_info(g[g.len() - 1]));
        lemma_end_offset_at_least_sum(h);
        if h.len() > 0 {
            assert(wf_info(g[h.len() - 1]));
            assert(g[h.len() - 1].align >= g[g.len() - 1].align);
            lemma_divides_smaller_power(end_offset(h), h.last().align as int, a);
        }
        let e = end_offset(h);
        lemma_align_bounds(a);
        assert(e % a == 0);
        lemma_round_up(e, a);
        assert(round_up(e, a) == e);
        let s = g.last().size as int;
        assert(s % a == 0);
        assert(end_offset(g) == e + s);
        lemma_sum_multiple(e, s, a);
    }
}

proof fn lemma_sum_remove(g: Seq<TypeInfo>, k: int)
    requires
        0 <= k < g.len(),
    ensures
        sum_sizes(g) == sum_sizes(g.remove(k)) + g[k].size,
        max_align(g) == (if g[k].align > max_align(g.remove(k)) {
            g[k].align as int
        } else {
            max_align(g.remove(k))
        }),
    decreases g.len(),
{
    if k == g.len() - 1 {
        assert(g.remove(k) =~= g.drop_last());
    } else {
        lemma_sum_remove(g.drop_last(), k);
        assert(g.remove(k).drop_last() =~= g.drop_last().remove(k));
        assert(g.remove(k).last() == g.last());
    }
}

/// Rearranging fields changes neither the sum of their sizes nor their
/// largest alignment.
pub proof fn lemma_rearranged_sum_and_align(g: Seq<TypeInfo>, h: Seq<TypeInfo>)
    requires
        g.to_multiset() == h.to_multiset(),
    ensures
        sum_sizes(g) == sum_sizes(h),
        max_align(g) == max_align(h),
    decreases h.len(),
{
    broadcast use vstd::seq_lib::group_to_multiset_ensures;

    assert(g.len() == h.len()) by {
        assert(g.len() == g.to_multiset().len());
        assert(h.len() == h.to_multiset().len());
    }
    if h.len() > 0 {
        let x = h.last();
        let h1 = h.drop_last();
        assert(h1.push(x) =~= h);
        assert(h.to_multiset().count(x) > 0) by {
            assert(h.contains(x)) by {
                assert(h[h.len() - 1] == x);
            }
        }
        assert(g.contains(x));
        let k = choose|k: int| 0 <= k < g.len() && g[k] == x;
        assert(g.remove(k).to_multiset() =~= g.to_multiset().remove(x));
        assert(h.remove(h.len() - 1) =~= h1);
        assert(h1.to_multiset() =~= h.to_multiset().remove(x));
        lemma_rearranged_sum_and_align(g.remove(k), h1);
        lemma_sum_remove(g, k);
    }
}

pub proof fn lemma_max_align_bounds(f: Seq<TypeInfo>)
    requires
        all_valid_align(f),
    ensures
        valid_align(max_align(f)),
        forall|i: int| 0 <= i < f.len() ==> #[trigger] f[i].align <= max_align(f),
    decreases f.len(),
{
    lemma_table_aligns();
    if f.len() > 0 {
        let h = f.drop_last();
        assert(all_valid_align(h)) by {
            assert forall|i: int| 0 <= i < h.len() implies valid_align(#[trigger] h[i].align as int) by {
                assert(valid_align(f[i].align as int));
            }
        }
        lemma_max_align_bounds(h);
        assert(valid_align(f[f.len() - 1].align as int));
        assert forall|i: int| 0 <= i < f.len() implies #[trigger] f[i].align <= max_align(f) by {
            if i < h.len() {
                assert(h[i] == f[i]);
            }
        }
    }
}

proof fn lemma_wf_prefix(g: Seq<TypeInfo>, i: int)
    requires
        all_wf(g),
        align_non_increasing(g),
        0 <= i <= g.len(),
    ensures
        all_wf(g.take(i)),
        align_non_increasing(g.take(i)),
{
    let t = g.take(i);
    assert forall|k: int| 0 <= k < t.len() implies #[trigger] wf_info(t[k]) by {
        assert(wf_info(g[k]));
    }
    assert forall|a: int, b: int| 0 <= a < b < t.len() implies #[trigger] t[a].align >= #[trigger] t[b].align by {
        assert(g[a].align >= g[b].align);
    }
}

proof fn lemma_sum_prefix(g: Seq<TypeInfo>, i: int)
    requires
        0 <= i <= g.len(),
    ensures
        sum_sizes(g.take(i)) <= sum_sizes(g),
    decreases g.len() - i,
{
    if i < g.len() {
        lemma_sum_prefix(g, i + 1);
        assert(g.take(i + 1).drop_last() =~= g.take(i));
    } else {
        assert(g.take(i) =~= g);
    }
}

/// The suggested order is optimal: fields sorted by non-increasing alignment
/// make a record no larger than any other arrangement of the same fields.
pub proof fn lemma_sorted_layout_is_minimal(g: Seq<TypeInfo>, h: Seq<TypeInfo>)
    requires
        all_wf(g),
        align_non_increasing(g),
        g.to_multiset() == h.to_multiset(),
    ensures
        layout_size(g) <= layout_size(h),
{
    lemma_sorted_no_padding(g);
    lemma_end_offset_at_least_sum(h);
    lemma_rearranged_sum_and_align(g, h);
    assert(all_valid_align(g)) by {
        assert forall|i: int| 0 <= i < g.len() implies valid_align(#[trigger] g[i].align as int) by {
            assert(wf_info(g[i]));
        }
    }
    lemma_max_align_bounds(g);
    lemma_end_offset_at_least_sum(g);
    lemma_round_up_monotone(end_offset(g), end_offset(h), max_align(g));
}

/// If the layout of a record can be computed in `u64`, so can the layout of
/// the same fields in sorted order.
pub proof fn lemma_sorted_layout_fits(g: Seq<TypeInfo>, h: Seq<TypeInfo>)
    requires
        all_wf(g),
        align_non_increasing(g),
        g.to_multiset() == h.to_multiset(),
        layout_fits(h),
    ensures
        layout_fits(g),
{
    lemma_sorted_no_padding(g);
    lemma_end_offset_at_least_sum(h);
    lemma_rearranged_sum_and_align(g, h);
    assert(all_valid_align(g)) by {
        assert forall|i: int| 0 <= i < g.len() implies valid_align(#[trigger] g[i].align as int) by {
            assert(wf_info(g[i]));
        }
    }
    lemma_max_align_bounds(g);
    assert forall|i: int| 0 <= i < g.len() implies #[trigger] step_fits(g, i) by {
        let t = g.take(i);
        lemma_wf_prefix(g, i);
        lemma_sorted_no_padding(t);
        lemma_sum_prefix(g, i);
        lemma_sum_prefix(g, i + 1);
        lemma_wf_prefix(g, i + 1);
        lemma_sorted_no_padding(g.take(i + 1));
        assert(g.take(i + 1).drop_last() =~= t);
        assert(g[i].align <= max_align(g));
        assert(wf_info(g[i]));
        if i > 0 {
            assert(t.last() == g[i - 1]);
            assert(g[i - 1].align >= g[i].align);
            assert(wf_info(g[i - 1]));
            lemma_divides_smaller_power(end_offset(t), t.last().align as int, g[i].align as int);
        }
        lemma_end_offset_at_least_sum(t);
        lemma_round_up(end_offset(t), g[i].align as int);
    }
}

} // verus!
