//! The laws of the archiver, proved once and for all inputs: field
//! decodability, the long-name threshold, checksum validity, the ordering
//! and pruning of the walk, and the determinism of a walk step.

use vstd::prelude::*;

use crate::bytes::{
    lemma_octal_digits, lemma_octal_roundtrip, lemma_sort_desc_ensures, lemma_splice_in,
    lemma_splice_len, lemma_splice_out, lex_leq, octal_seq, octal_val, pow8, sort_desc, splice,
    zeros,
};
use crate::codec::{
    checksum_field, header_pre, longlink_name_seq, magic_seq, name_field, pad_len, record_spec,
    root_name_seq, spaces8, sum_bytes, trunc_name, with_checksum,
};
use crate::walker::{
    all_utf8, allowed_by, allowed_filter, dir_step_result, push_batch, stack_view, DirWalkIterator,
    DirWalkItem, DirWalkType,
};
use crate::TarError;

verus! {

/// A header's checksum field holds the byte sum of the header taken with
/// that field as spaces.
pub open spec fn header_checksum_valid(h: Seq<u8>) -> bool {
    h.subrange(148, 156) == checksum_field(sum_bytes(splice(h, 148, spaces8())) as nat)
}

/// The fixed fields of a header before its checksum pass.
proof fn lemma_header_pre_parts(name: Seq<u8>, mode: nat, size: nat, flag: u8)
    ensures
        header_pre(name, mode, size, flag).len() == 512,
        header_pre(name, mode, size, flag).subrange(0, 100) == name_field(name),
        header_pre(name, mode, size, flag).subrange(124, 136) == octal_seq(size, 11).push(0u8),
        header_pre(name, mode, size, flag).subrange(148, 156) == spaces8(),
        header_pre(name, mode, size, flag)[156] == flag,
{
    let tn = trunc_name(name);
    lemma_octal_digits(mode, 7);
    lemma_octal_digits(0, 7);
    lemma_octal_digits(size, 11);
    let h0 = zeros(512);
    let h1 = splice(h0, 0, tn);
    let h2 = splice(h1, 100, octal_seq(mode, 7).push(0u8));
    let h3 = splice(h2, 108, octal_seq(0, 7).push(0u8));
    let h4 = splice(h3, 116, octal_seq(0, 7).push(0u8));
    let h5 = splice(h4, 124, octal_seq(size, 11).push(0u8));
    let h6 = splice(h5, 148, spaces8());
    let h7 = splice(h6, 156, seq![flag]);
    let h8 = splice(h7, 257, magic_seq());
    let h9 = splice(h8, 265, root_name_seq());
    let h10 = splice(h9, 297, root_name_seq());
    assert(h10 == header_pre(name, mode, size, flag));
    assert(h1.len() == 512);
    assert(h2.len() == 512);
    assert(h3.len() == 512);
    assert(h4.len() == 512);
    assert(h5.len() == 512);
    assert(h6.len() == 512);
    assert(h7.len() == 512);
    assert(h8.len() == 512);
    assert(h9.len() == 512);
    assert(h10.len() == 512);
    assert(h1.subrange(0, 100) =~= name_field(name));
    assert(h10.subrange(0, 100) =~= h1.subrange(0, 100));
    assert(h5.subrange(124, 136) =~= octal_seq(size, 11).push(0u8));
    assert(h10.subrange(124, 136) =~= h5.subrange(124, 136));
    assert(h6.subrange(148, 156) =~= spaces8());
    assert(h10.subrange(148, 156) =~= h6.subrange(148, 156));
    assert(h7[156] == flag);
    assert(h10[156] == flag);
}

/// What one checksummed header guarantees: its length, its name field, its
/// decodable size field, its typeflag, and checksum validity.
pub proof fn lemma_header_fields(name: Seq<u8>, mode: nat, size: nat, flag: u8)
    ensures
        with_checksum(header_pre(name, mode, size, flag)).len() == 512,
        with_checksum(header_pre(name, mode, size, flag)).subrange(0, 100) == name_field(name),
        with_checksum(header_pre(name, mode, size, flag)).subrange(124, 136) == octal_seq(
            size,
            11,
        ).push(0u8),
        with_checksum(header_pre(name, mode, size, flag))[156] == flag,
        header_checksum_valid(with_checksum(header_pre(name, mode, size, flag))),
{
    lemma_header_pre_parts(name, mode, size, flag);
    let pre = header_pre(name, mode, size, flag);
    let cs = checksum_field(sum_bytes(pre) as nat);
    lemma_octal_digits(sum_bytes(pre) as nat, 6);
    assert(cs.len() == 8);
    let h = splice(pre, 148, cs);
    assert(h == with_checksum(pre));
    lemma_splice_len(pre, 148, cs);
    lemma_splice_out(pre, 148, cs, 0, 100);
    lemma_splice_out(pre, 148, cs, 124, 136);
    lemma_splice_in(pre, 148, cs);
    assert(h.subrange(156, 157) =~= pre.subrange(156, 157));
    assert(h[156] == pre[156]);
    assert(splice(h, 148, spaces8()) =~= pre);
    assert(h.subrange(148, 156) == cs);
}

/// Checksum validity of every header the encoder emits.
pub proof fn lemma_checksum_valid(name: Seq<u8>, mode: nat, size: nat, flag: u8)
    ensures
        header_checksum_valid(with_checksum(header_pre(name, mode, size, flag))),
{
    lemma_header_fields(name, mode, size, flag);
}

/// The size field decodes back to the size it was encoded from.
pub proof fn lemma_size_field_roundtrip(name: Seq<u8>, mode: nat, size: nat, flag: u8)
    requires
        size < pow8(11),
    ensures
        octal_val(with_checksum(header_pre(name, mode, size, flag)).subrange(124, 135)) == size,
{
    lemma_header_fields(name, mode, size, flag);
    let h = with_checksum(header_pre(name, mode, size, flag));
    lemma_octal_digits(size, 11);
    assert(h.subrange(124, 135) =~= octal_seq(size, 11)) by {
        assert(h.subrange(124, 136) == octal_seq(size, 11).push(0u8));
        assert(forall|i: int|
            0 <= i < 11 ==> h.subrange(124, 135)[i] == h.subrange(124, 136)[i]);
    }
    lemma_octal_roundtrip(size, 11);
}

/// The long-name threshold: a name of at most 100 bytes yields a single
/// 512-byte record with the member's typeflag; a longer one yields a
/// long-name record (typeflag `'L'`, then the name, zero-padded) followed
/// by the regular header, whose name field holds the first 100 bytes.
pub proof fn lemma_long_name_threshold(name: Seq<u8>, mode: nat, size: nat, flag: u8)
    ensures
        name.len() <= 100 ==> (record_spec(name, mode, size, flag).len() == 512 && record_spec(
            name,
            mode,
            size,
            flag,
        )[156] == flag),
        name.len() > 100 ==> ({
            let r = record_spec(name, mode, size, flag);
            let reg_at = 1024 + pad_len(name.len());
            &&& r.len() == reg_at + name.len()
            &&& r[156] == 76
            &&& r.subrange(512, 512 + name.len() as int) == name
            &&& r.subrange(
                (name.len() + reg_at - 512) as int,
                (name.len() + reg_at) as int,
            ) == with_checksum(header_pre(name, mode, size, flag))
            &&& r.subrange(
                (name.len() + reg_at - 512) as int,
                (name.len() + reg_at - 412) as int,
            ) == name.take(100)
        }),
{
    if name.len() <= 100 {
        lemma_header_fields(name, mode, size, flag);
    } else {
        lemma_header_fields(longlink_name_seq(), 0o755 as nat, name.len(), 76u8);
        lemma_header_fields(name, mode, size, flag);
        let ll = with_checksum(header_pre(longlink_name_seq(), 0o755 as nat, name.len(), 76u8));
        let reg = with_checksum(header_pre(name, mode, size, flag));
        let r = record_spec(name, mode, size, flag);
        let p = pad_len(name.len());
        assert(r == ll + name + zeros(p) + reg);
        assert(r.len() == 1024 + p + name.len());
        assert(r[156] == ll[156]);
        assert(r.subrange(512, 512 + name.len() as int) =~= name);
        let reg_at = 1024 + p;
        assert(r.subrange(
            (name.len() + reg_at - 512) as int,
            (name.len() + reg_at) as int,
        ) =~= reg);
        assert(trunc_name(name) == name.take(100));
        assert(name_field(name) =~= name.take(100));
        assert(reg.subrange(0, 100) == name_field(name));
        assert(r.subrange(
            (name.len() + reg_at - 512) as int,
            (name.len() + reg_at - 412) as int,
        ) =~= reg.subrange(0, 100));
    }
}

/// Padding closes every content run to a 512-byte boundary.
pub proof fn lemma_padding_aligns(n: nat)
    ensures
        (n + pad_len(n)) % 512 == 0,
{
    let r = n % 512;
    vstd::arithmetic::div_mod::lemma_fundamental_div_mod(n as int, 512);
    if r == 0 {
        assert(pad_len(n) == 0);
    } else {
        assert(pad_len(n) == 512 - r);
        assert(n + pad_len(n) == 512 * (n as int / 512) + 512);
        vstd::arithmetic::div_mod::lemma_mod_multiples_vanish((n as int / 512) + 1, 0, 512);
    }
}

/// Every record the encoder emits is a whole number of 512-byte blocks, so
/// a standard reader can walk the stream block by block.
#[verifier::rlimit(30)]
pub proof fn lemma_record_block_aligned(name: Seq<u8>, mode: nat, size: nat, flag: u8)
    ensures
        record_spec(name, mode, size, flag).len() % 512 == 0,
{
    lemma_long_name_threshold(name, mode, size, flag);
    if name.len() > 100 {
        lemma_padding_aligns(name.len());
        let padded = name.len() + pad_len(name.len());
        assert(record_spec(name, mode, size, flag).len() == 1024 + padded);
        vstd::arithmetic::div_mod::lemma_add_mod_noop(1024, padded as int, 512);
    }
}

/// The pop order of a pushed batch: the stack yields a directory's
/// surviving children in strictly ascending basename order (later pops are
/// lexicographically at or above earlier ones).
pub proof fn lemma_push_batch_pop_order(rel: Seq<Seq<u8>>, kept: Seq<Seq<u8>>)
    ensures
        push_batch(rel, kept).len() == kept.len(),
        forall|i: int, j: int|
            0 <= i < j < push_batch(rel, kept).len() ==> lex_leq(
                #[trigger] push_batch(rel, kept)[j].last(),
                #[trigger] push_batch(rel, kept)[i].last(),
            ),
{
    lemma_sort_desc_ensures(kept);
    let s = sort_desc(kept);
    assert forall|i: int, j: int|
        0 <= i < j < push_batch(rel, kept).len() implies lex_leq(
        #[trigger] push_batch(rel, kept)[j].last(),
        #[trigger] push_batch(rel, kept)[i].last(),
    ) by {
        assert(push_batch(rel, kept)[i] == rel.push(s[i]));
        assert(push_batch(rel, kept)[j] == rel.push(s[j]));
        assert(vstd::relations::sorted_by(s, crate::bytes::desc_order()));
        assert(crate::bytes::desc_order()(s[i], s[j]));
    }
}

/// Exclusion pruning: every basename a directory step pushes is allowed;
/// an excluded child (and with it its whole subtree) is never pushed.
pub proof fn lemma_excluded_never_pushed(
    children: Seq<Seq<u8>>,
    pats: Seq<crate::pattern::Pattern>,
)
    ensures
        forall|i: int|
            0 <= i < sort_desc(allowed_filter(children, pats)).len() ==> allowed_by(
                pats,
                #[trigger] sort_desc(allowed_filter(children, pats))[i],
            ),
{
    broadcast use vstd::seq_lib::group_to_multiset_ensures;
    broadcast use vstd::multiset::group_multiset_axioms;

    let kept = allowed_filter(children, pats);
    let s = sort_desc(kept);
    lemma_sort_desc_ensures(kept);
    assert forall|i: int| 0 <= i < s.len() implies allowed_by(pats, #[trigger] s[i]) by {
        assert(s.contains(s[i]));
        assert(s.to_multiset().count(s[i]) > 0);
        assert(kept.to_multiset().count(s[i]) > 0);
        assert(kept.contains(s[i]));
        let j = choose|j: int| 0 <= j < kept.len() && kept[j] == s[i];
        children.lemma_filter_pred(|c: Seq<u8>| allowed_by(pats, c), j);
    }
}

/// The native listing order is irrelevant: two listings of the same
/// children (permutations of each other) push the same batch, byte for
/// byte, in the same order.
pub proof fn lemma_listing_order_irrelevant(a: Seq<Seq<u8>>, b: Seq<Seq<u8>>)
    requires
        a.to_multiset() == b.to_multiset(),
    ensures
        sort_desc(a) == sort_desc(b),
{
    lemma_sort_desc_ensures(a);
    lemma_sort_desc_ensures(b);
    crate::bytes::lemma_desc_order_total_ordering();
    vstd::seq_lib::lemma_sorted_unique(sort_desc(a), sort_desc(b), crate::bytes::desc_order());
}

/// Every pending path either already was on the stack, or is the stepped
/// directory's path extended by one allowed child basename.
pub open spec fn stack_members_ok(
    pre: DirWalkIterator,
    post: DirWalkIterator,
    relv: Seq<Seq<u8>>,
) -> bool {
    forall|i: int|
        0 <= i < stack_view(post.remaining@).len() ==> ((i < stack_view(pre.remaining@).len()
            && #[trigger] stack_view(post.remaining@)[i] == stack_view(pre.remaining@)[i]) || (
        stack_view(post.remaining@)[i].len() == relv.len() + 1 && stack_view(
            post.remaining@,
        )[i].drop_last() == relv && allowed_by(
            pre.ignored_filenames@,
            stack_view(post.remaining@)[i].last(),
        )))
}

/// What a directory step leaves on the stack: every pending path either
/// already was there, or is the stepped directory's path extended by one
/// allowed child basename — an excluded child never enters the stack, so
/// its subtree is never walked.
pub proof fn lemma_step_stack_members(
    pre: DirWalkIterator,
    post: DirWalkIterator,
    relv: Seq<Seq<u8>>,
    ch: Seq<Seq<u8>>,
    link: Option<(Seq<u8>, u64)>,
    r: Result<Option<DirWalkItem>, TarError>,
)
    requires
        dir_step_result(pre, post, relv, ch, link, r),
    ensures
        stack_members_ok(pre, post, relv),
{
    let pats = pre.ignored_filenames@;
    let kept = allowed_filter(ch, pats);
    lemma_excluded_never_pushed(ch, pats);
    let pushed = all_utf8(ch) && !(kept.len() == 0 && pre.empty_dirs_ignored);
    assert forall|i: int| 0 <= i < stack_view(post.remaining@).len() implies ((i < stack_view(
        pre.remaining@,
    ).len() && #[trigger] stack_view(post.remaining@)[i] == stack_view(pre.remaining@)[i]) || (
    stack_view(post.remaining@)[i].len() == relv.len() + 1 && stack_view(
        post.remaining@,
    )[i].drop_last() == relv && allowed_by(
        pre.ignored_filenames@,
        stack_view(post.remaining@)[i].last(),
    ))) by {
        if pushed {
            let batch = push_batch(relv, kept);
            assert(stack_view(post.remaining@) == stack_view(pre.remaining@) + batch);
            if i >= stack_view(pre.remaining@).len() {
                let j = i - stack_view(pre.remaining@).len();
                let bw = sort_desc(kept)[j];
                assert(stack_view(post.remaining@)[i] == batch[j]);
                assert(batch[j] == relv.push(bw));
                assert(allowed_by(pre.ignored_filenames@, bw));
                assert(relv.push(bw).drop_last() =~= relv);
                assert(relv.push(bw).last() == bw);
            } else {
                assert(stack_view(post.remaining@)[i] == stack_view(pre.remaining@)[i]);
            }
        } else {
            assert(post.remaining == pre.remaining);
            assert(stack_view(post.remaining@)[i] == stack_view(pre.remaining@)[i]);
        }
    }
}

/// Determinism of one walk step on a directory listing: any two outcomes
/// that meet the step contract from equal states and equal listings agree
/// on the new stack and on the emitted member, byte for byte.
pub proof fn lemma_walk_step_deterministic(
    pre: DirWalkIterator,
    post1: DirWalkIterator,
    post2: DirWalkIterator,
    relv: Seq<Seq<u8>>,
    ch: Seq<Seq<u8>>,
    link: Option<(Seq<u8>, u64)>,
    r1: Result<Option<DirWalkItem>, TarError>,
    r2: Result<Option<DirWalkItem>, TarError>,
)
    requires
        dir_step_result(pre, post1, relv, ch, link, r1),
        dir_step_result(pre, post2, relv, ch, link, r2),
    ensures
        stack_view(post1.remaining@) == stack_view(post2.remaining@),
        r1 is Err <==> r2 is Err,
        r1 is Err ==> r1 == r2,
        r1 matches Ok(o1) ==> (o1 is None ==> r2 == r1),
        r1 matches Ok(o1) ==> (o1 matches Some(i1) ==> (r2 matches Ok(o2) && o2 matches Some(i2)
            && crate::bytes::views_of(i1.relpath@) == crate::bytes::views_of(i2.relpath@)
            && i1.abspath@ == i2.abspath@ && i1.size == i2.size && (i1.typ is Directory
            <==> i2.typ is Directory) && (i1.typ matches DirWalkType::SymlinkToDirectory(q1) ==> (
        i2.typ matches DirWalkType::SymlinkToDirectory(q2) && q1@ == q2@)))),
{
}

} // verus!
