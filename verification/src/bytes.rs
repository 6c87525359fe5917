//! Byte-sequence building blocks of the archive format: zero padding,
//! fixed-offset field placement, fixed-width octal fields, and the
//! lexicographic order on byte strings that fixes the traversal order.

use vstd::prelude::*;

verus! {

use vstd::multiset::Multiset;

/// `n` zero bytes.
pub open spec fn zeros(n: nat) -> Seq<u8> {
    Seq::new(n, |i: int| 0u8)
}

/// `base` with the bytes from `at` on replaced by `s` (same length overall).
pub open spec fn splice(base: Seq<u8>, at: int, s: Seq<u8>) -> Seq<u8>
    recommends
        0 <= at,
        at + s.len() <= base.len(),
{
    base.take(at) + s + base.skip(at + s.len())
}

/// A splice inside bounds keeps the length.
pub proof fn lemma_splice_len(base: Seq<u8>, at: int, s: Seq<u8>)
    requires
        0 <= at,
        at + s.len() <= base.len(),
    ensures
        splice(base, at, s).len() == base.len(),
{
}

/// A splice reads back exactly at its own range.
pub proof fn lemma_splice_in(base: Seq<u8>, at: int, s: Seq<u8>)
    requires
        0 <= at,
        at + s.len() <= base.len(),
    ensures
        splice(base, at, s).subrange(at, at + s.len()) == s,
{
    assert(splice(base, at, s).subrange(at, at + s.len()) =~= s);
}

/// A splice leaves every byte outside its own range unchanged.
pub proof fn lemma_splice_out(base: Seq<u8>, at: int, s: Seq<u8>, lo: int, hi: int)
    requires
        0 <= at,
        at + s.len() <= base.len(),
        0 <= lo <= hi <= base.len(),
        hi <= at || at + s.len() <= lo,
    ensures
        splice(base, at, s).subrange(lo, hi) == base.subrange(lo, hi),
{
    assert(splice(base, at, s).subrange(lo, hi) =~= base.subrange(lo, hi));
}

/// 8 to the `w`th power.
pub open spec fn pow8(w: nat) -> nat
    decreases w,
{
    if w == 0 {
        1nat
    } else {
        8 * pow8((w - 1) as nat)
    }
}

/// `v` written as exactly `width` ASCII octal digits, most significant
/// first. Digits beyond the width are dropped at the significant end.
pub open spec fn octal_seq(v: nat, width: nat) -> Seq<u8>
    decreases width,
{
    if width == 0 {
        Seq::<u8>::empty()
    } else {
        octal_seq(v / 8, (width - 1) as nat).push((48 + v % 8) as u8)
    }
}

/// The numeric value of a sequence of ASCII octal digits.
pub open spec fn octal_val(s: Seq<u8>) -> int
    decreases s.len(),
{
    if s.len() == 0 {
        0
    } else {
        8 * octal_val(s.drop_last()) + (s.last() - 48)
    }
}

/// An octal field of `width` digits holds every value below `pow8(width)`
/// and can be read back exactly: the encoder's size and checksum fields are
/// decodable.
pub proof fn lemma_octal_roundtrip(v: nat, width: nat)
    requires
        v < pow8(width),
    ensures
        octal_val(octal_seq(v, width)) == v,
        octal_seq(v, width).len() == width,
    decreases width,
{
    if width > 0 {
        assert(pow8(width) == 8 * pow8((width - 1) as nat));
        assert(v / 8 < pow8((width - 1) as nat)) by (nonlinear_arith)
            requires
                v < 8 * pow8((width - 1) as nat),
        ;
        lemma_octal_roundtrip(v / 8, (width - 1) as nat);
        assert(8 * (v / 8) + v % 8 == v) by (nonlinear_arith);
        let s = octal_seq(v, width);
        assert(s.drop_last() =~= octal_seq(v / 8, (width - 1) as nat));
        assert(s.last() == (48 + v % 8) as u8);
    }
}

/// Every byte of an octal field is an ASCII octal digit.
pub proof fn lemma_octal_digits(v: nat, width: nat)
    ensures
        octal_seq(v, width).len() == width,
        forall|i: int|
            0 <= i < width ==> 48 <= #[trigger] octal_seq(v, width)[i] < 56,
    decreases width,
{
    if width > 0 {
        lemma_octal_digits(v / 8, (width - 1) as nat);
    }
}

/// Lexicographic `<=` on byte strings: a proper prefix comes first, and the
/// first differing byte decides.
pub open spec fn lex_leq(a: Seq<u8>, b: Seq<u8>) -> bool
    decreases a.len(),
{
    if a.len() == 0 {
        true
    } else if b.len() == 0 {
        false
    } else if a.first() < b.first() {
        true
    } else if a.first() > b.first() {
        false
    } else {
        lex_leq(a.drop_first(), b.drop_first())
    }
}

pub proof fn lemma_lex_leq_total(a: Seq<u8>, b: Seq<u8>)
    ensures
        lex_leq(a, b) || lex_leq(b, a),
    decreases a.len(),
{
    if a.len() > 0 && b.len() > 0 && a.first() == b.first() {
        lemma_lex_leq_total(a.drop_first(), b.drop_first());
    }
}

pub proof fn lemma_lex_leq_antisymmetric(a: Seq<u8>, b: Seq<u8>)
    requires
        lex_leq(a, b),
        lex_leq(b, a),
    ensures
        a == b,
    decreases a.len(),
{
    if a.len() > 0 && b.len() > 0 && a.first() == b.first() {
        lemma_lex_leq_antisymmetric(a.drop_first(), b.drop_first());
        assert(a =~= seq![a.first()] + a.drop_first());
        assert(b =~= seq![b.first()] + b.drop_first());
    } else {
        assert(a =~= b);
    }
}

pub proof fn lemma_lex_leq_transitive(a: Seq<u8>, b: Seq<u8>, c: Seq<u8>)
    requires
        lex_leq(a, b),
        lex_leq(b, c),
    ensures
        lex_leq(a, c),
    decreases a.len(),
{
    if a.len() > 0 && b.len() > 0 && c.len() > 0 && a.first() == b.first()
        && b.first() == c.first() {
        lemma_lex_leq_transitive(a.drop_first(), b.drop_first(), c.drop_first());
    }
}

/// Descending lexicographic order, the order in which a directory's
/// surviving children are pushed onto the walk stack (so that the smallest
/// is popped first).
pub open spec fn desc_order() -> spec_fn(Seq<u8>, Seq<u8>) -> bool {
    |a: Seq<u8>, b: Seq<u8>| lex_leq(b, a)
}

pub proof fn lemma_desc_order_total_ordering()
    ensures
        vstd::relations::total_ordering(desc_order()),
{
    let r = desc_order();
    assert forall|a: Seq<u8>| #[trigger] r(a, a) by {
        lemma_lex_leq_total(a, a);
    }
    assert forall|a: Seq<u8>, b: Seq<u8>| #[trigger] r(a, b) && #[trigger] r(b, a) implies a == b by {
        lemma_lex_leq_antisymmetric(a, b);
    }
    assert forall|a: Seq<u8>, b: Seq<u8>, c: Seq<u8>| #[trigger] r(a, b) && #[trigger] r(b, c) implies r(a, c) by {
        lemma_lex_leq_transitive(c, b, a);
    }
    assert forall|a: Seq<u8>, b: Seq<u8>| #[trigger] r(a, b) || #[trigger] r(b, a) by {
        lemma_lex_leq_total(a, b);
    }
}

/// The unique descending reordering of a batch of byte strings.
pub open spec fn sort_desc(s: Seq<Seq<u8>>) -> Seq<Seq<u8>> {
    s.sort_by(desc_order())
}

/// What `sort_desc` yields: a permutation of the input, sorted descending.
pub proof fn lemma_sort_desc_ensures(s: Seq<Seq<u8>>)
    ensures
        sort_desc(s).to_multiset() =~= s.to_multiset(),
        vstd::relations::sorted_by(sort_desc(s), desc_order()),
        sort_desc(s).len() == s.len(),
{
    lemma_desc_order_total_ordering();
    s.lemma_sort_by_ensures(desc_order());
    s.to_multiset_ensures();
    sort_desc(s).to_multiset_ensures();
    assert(sort_desc(s).to_multiset().len() == sort_desc(s).len());
}

/// A vector of `n` zero bytes.
pub fn zero_vec(n: usize) -> (v: Vec<u8>)
    ensures
        v@ == zeros(n as nat),
{
    let mut v: Vec<u8> = Vec::new();
    let mut i: usize = 0;
    while i < n
        invariant
            i <= n,
            v@ =~= zeros(i as nat),
        decreases n - i,
    {
        v.push(0u8);
        i = i + 1;
        assert(v@ =~= zeros(i as nat));
    }
    v
}

/// Copies `src` over `dst` starting at `at`, leaving the rest unchanged.
pub fn put(dst: &mut Vec<u8>, at: usize, src: &Vec<u8>)
    requires
        at + src@.len() <= old(dst)@.len(),
    ensures
        final(dst)@ == splice(old(dst)@, at as int, src@),
        final(dst)@.len() == old(dst)@.len(),
{
    let ghost orig = dst@;
    let total = dst.len();
    let n = src.len();
    let mut i: usize = 0;
    while i < n
        invariant
            n == src@.len(),
            at + n <= orig.len(),
            orig.len() == total,
            i <= n,
            dst@.len() == orig.len(),
            dst@ =~= splice(orig, at as int, src@.take(i as int)),
        decreases n - i,
    {
        dst.set(at + i, src[i]);
        i = i + 1;
        assert(dst@ =~= splice(orig, at as int, src@.take(i as int)));
    }
    assert(src@.take(n as int) =~= src@);
    assert(dst@ =~= splice(orig, at as int, src@));
}

/// Writes `value` at `at` as `width` octal digits followed by a NUL byte,
/// the fixed-width numeric field format of a header.
pub fn put_octal(dst: &mut Vec<u8>, at: usize, value: u64, width: usize)
    requires
        at + width + 1 <= old(dst)@.len(),
    ensures
        final(dst)@ == splice(old(dst)@, at as int, octal_seq(value as nat, width as nat).push(0u8)),
        final(dst)@.len() == old(dst)@.len(),
{
    let mut field = octal_vec(value, width);
    field.push(0u8);
    put(dst, at, &field);
}

/// `value` as exactly `width` ASCII octal digits.
pub fn octal_vec(value: u64, width: usize) -> (v: Vec<u8>)
    ensures
        v@ == octal_seq(value as nat, width as nat),
        v@.len() == width,
    decreases width,
{
    if width == 0 {
        Vec::new()
    } else {
        let mut v = octal_vec(value / 8, width - 1);
        v.push(48 + (value % 8) as u8);
        v
    }
}

/// Lexicographic comparison of two byte strings.
pub fn bytes_leq(a: &Vec<u8>, b: &Vec<u8>) -> (r: bool)
    ensures
        r == lex_leq(a@, b@),
{
    let mut i: usize = 0;
    assert(a@.skip(0) =~= a@);
    assert(b@.skip(0) =~= b@);
    loop
        invariant
            i <= a@.len(),
            i <= b@.len(),
            lex_leq(a@, b@) == lex_leq(a@.skip(i as int), b@.skip(i as int)),
        decreases a@.len() - i,
    {
        if i >= a.len() {
            assert(a@.skip(i as int).len() == 0);
            return true;
        }
        if i >= b.len() {
            assert(b@.skip(i as int).len() == 0);
            assert(a@.skip(i as int).len() > 0);
            return false;
        }
        let x = a[i];
        let y = b[i];
        assert(a@.skip(i as int).first() == x);
        assert(b@.skip(i as int).first() == y);
        if x < y {
            return true;
        }
        if x > y {
            return false;
        }
        assert(a@.skip(i as int).drop_first() =~= a@.skip(i as int + 1));
        assert(b@.skip(i as int).drop_first() =~= b@.skip(i as int + 1));
        i = i + 1;
    }
}

/// A verified byte-for-byte copy.
pub fn copy_bytes(src: &Vec<u8>) -> (r: Vec<u8>)
    ensures
        r@ == src@,
{
    let mut r: Vec<u8> = Vec::new();
    let n = src.len();
    let mut i: usize = 0;
    while i < n
        invariant
            n == src@.len(),
            i <= n,
            r@ =~= src@.take(i as int),
        decreases n - i,
    {
        r.push(src[i]);
        i = i + 1;
        assert(r@ =~= src@.take(i as int));
    }
    assert(src@.take(n as int) =~= src@);
    r
}

/// The first `k` bytes of `src`.
pub fn take_bytes(src: &Vec<u8>, k: usize) -> (r: Vec<u8>)
    requires
        k <= src@.len(),
    ensures
        r@ == src@.take(k as int),
{
    let mut r: Vec<u8> = Vec::new();
    let mut i: usize = 0;
    while i < k
        invariant
            k <= src@.len(),
            i <= k,
            r@ =~= src@.take(i as int),
        decreases k - i,
    {
        r.push(src[i]);
        i = i + 1;
        assert(r@ =~= src@.take(i as int));
    }
    r
}

/// The byte sequences held by a vector of byte vectors.
pub open spec fn views_of(s: Seq<Vec<u8>>) -> Seq<Seq<u8>> {
    s.map_values(|x: Vec<u8>| x@)
}

/// A verified copy of a component list (a relative path).
pub fn copy_components(src: &Vec<Vec<u8>>) -> (r: Vec<Vec<u8>>)
    ensures
        views_of(r@) == views_of(src@),
        r@.len() == src@.len(),
{
    let mut r: Vec<Vec<u8>> = Vec::new();
    let n = src.len();
    let mut i: usize = 0;
    while i < n
        invariant
            n == src@.len(),
            i <= n,
            views_of(r@) =~= views_of(src@).take(i as int),
            r@.len() == i,
        decreases n - i,
    {
        r.push(copy_bytes(&src[i]));
        i = i + 1;
        assert(views_of(r@) =~= views_of(src@).take(i as int));
    }
    assert(views_of(src@).take(n as int) =~= views_of(src@));
    r
}

/// The index of a maximal element under the lexicographic order.
fn max_index(v: &Vec<Vec<u8>>) -> (m: usize)
    requires
        v@.len() > 0,
    ensures
        m < v@.len(),
        forall|j: int| 0 <= j < v@.len() ==> lex_leq(#[trigger] views_of(v@)[j], views_of(v@)[m as int]),
{
    let n = v.len();
    let mut m: usize = 0;
    let mut k: usize = 1;
    proof {
        lemma_lex_leq_total(v@[0]@, v@[0]@);
    }
    while k < n
        invariant
            n == v@.len(),
            m < k <= n,
            forall|j: int| 0 <= j < k ==> lex_leq(#[trigger] views_of(v@)[j], views_of(v@)[m as int]),
        decreases n - k,
    {
        if bytes_leq(&v[m], &v[k]) {
            proof {
                let old_m = m as int;
                assert forall|j: int| 0 <= j < k + 1 implies lex_leq(
                    #[trigger] views_of(v@)[j],
                    views_of(v@)[k as int],
                ) by {
                    assert(views_of(v@)[j] == v@[j]@);
                    assert(views_of(v@)[old_m] == v@[old_m]@);
                    assert(views_of(v@)[k as int] == v@[k as int]@);
                    if j < k {
                        assert(lex_leq(v@[j]@, v@[old_m]@));
                        assert(lex_leq(v@[old_m]@, v@[k as int]@));
                        lemma_lex_leq_transitive(v@[j]@, v@[old_m]@, v@[k as int]@);
                    } else {
                        lemma_lex_leq_total(v@[j]@, v@[j]@);
                    }
                }
            }
            m = k;
        }
        proof {
            if !lex_leq(v@[m as int]@, v@[k as int]@) {
                lemma_lex_leq_total(v@[m as int]@, v@[k as int]@);
            }
        }
        k = k + 1;
    }
    m
}

/// Sorts a batch of byte strings into descending lexicographic order: the
/// executable counterpart of `sort_desc`.
pub fn sort_desc_exec(v: Vec<Vec<u8>>) -> (r: Vec<Vec<u8>>)
    ensures
        views_of(r@) == sort_desc(views_of(v@)),
{
    let ghost goal = views_of(v@);
    let mut work = v;
    let mut r: Vec<Vec<u8>> = Vec::new();
    proof {
        broadcast use vstd::seq_lib::group_to_multiset_ensures;
        broadcast use vstd::multiset::group_multiset_axioms;

        assert(views_of(r@) =~= Seq::<Seq<u8>>::empty());
        assert(views_of(r@).to_multiset().add(views_of(work@).to_multiset())
            =~= goal.to_multiset());
    }
    while work.len() > 0
        invariant
            vstd::relations::sorted_by(views_of(r@), desc_order()),
            views_of(r@).to_multiset().add(views_of(work@).to_multiset()) =~= goal.to_multiset(),
            forall|i: int, j: int|
                0 <= i < r@.len() && 0 <= j < work@.len() ==> lex_leq(
                    #[trigger] views_of(work@)[j],
                    #[trigger] views_of(r@)[i],
                ),
        decreases work@.len(),
    {
        let ghost rv0 = views_of(r@);
        let ghost wv0 = views_of(work@);
        let m = max_index(&work);
        let x = work.remove(m);
        let ghost xv = x@;
        proof {
            broadcast use vstd::seq_lib::group_to_multiset_ensures;
            broadcast use vstd::multiset::group_multiset_axioms;

            assert(views_of(work@) =~= wv0.remove(m as int));
            assert(wv0.remove(m as int).to_multiset() =~= wv0.to_multiset().remove(xv));
            assert(wv0.to_multiset().count(xv) > 0);
        }
        r.push(x);
        proof {
            broadcast use vstd::seq_lib::group_to_multiset_ensures;
            broadcast use vstd::multiset::group_multiset_axioms;

            assert(views_of(r@) =~= rv0.push(xv));
            assert(rv0.push(xv).to_multiset() =~= rv0.to_multiset().insert(xv));
            assert(views_of(r@).to_multiset().add(views_of(work@).to_multiset())
                =~= goal.to_multiset());
            assert forall|i: int, j: int|
                0 <= i < i + 1 <= r@.len() && 0 <= j < work@.len() implies lex_leq(
                #[trigger] views_of(work@)[j],
                #[trigger] views_of(r@)[i],
            ) by {
                let wj = views_of(work@)[j];
                if i < rv0.len() {
                    lemma_lex_leq_transitive(wj, xv, rv0[i]);
                }
            }
            assert(vstd::relations::sorted_by(views_of(r@), desc_order())) by {
                assert forall|i: int, j: int| 0 <= i < j < views_of(r@).len() implies desc_order()(
                    views_of(r@)[i],
                    views_of(r@)[j],
                ) by {
                    if j < rv0.len() {
                        assert(desc_order()(rv0[i], rv0[j]));
                    }
                }
            }
        }
    }
    proof {
        broadcast use vstd::seq_lib::group_to_multiset_ensures;
        broadcast use vstd::multiset::group_multiset_axioms;

        assert(views_of(work@) =~= Seq::<Seq<u8>>::empty());
        assert(views_of(work@).to_multiset() =~= Multiset::<Seq<u8>>::empty());
        assert(views_of(r@).to_multiset() =~= goal.to_multiset());
        lemma_sort_desc_ensures(goal);
        lemma_desc_order_total_ordering();
        vstd::seq_lib::lemma_sorted_unique(views_of(r@), sort_desc(goal), desc_order());
    }
    r
}

} // verus!
