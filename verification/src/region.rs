//! Shared-memory region names.
//!
//! A region name is `/rls-{server pid}-{canonical path}-{generation}` with a
//! terminating NUL byte, the numbers in decimal. The generation counter is
//! scoped to one server instance and never reused, and the lemmas here show
//! that the naming is injective: two names coincide only when they were made
//! for the same path with the same generation. A fresh generation therefore
//! can never collide with any region name this server has ever published.
use vstd::prelude::*;
use crate::wire::{
    dec_digits, lemma_dec_digits_are_digits, lemma_dec_injective, push_dec_digits,
};

verus! {

/// The fixed lead-in of every region name: the bytes of `/rls-`.
pub open spec fn name_prefix() -> Seq<u8> {
    seq![47u8, 114u8, 108u8, 115u8, 45u8]
}

/// The full region name: prefix, server pid, path, generation, NUL.
pub open spec fn region_name_bytes(pid: u32, path: Seq<u8>, generation: u64) -> Seq<u8> {
    name_prefix() + dec_digits(pid as nat) + seq![45u8] + path + seq![45u8] + dec_digits(
        generation as nat,
    ) + seq![0u8]
}

/// Builds the region name for one path and generation.
pub fn generate_shm_name(pid: u32, path: &[u8], generation: u64) -> (r: Vec<u8>)
    ensures
        r@ == region_name_bytes(pid, path@, generation),
{
    let mut r: Vec<u8> = Vec::new();
    r.push(47);
    r.push(114);
    r.push(108);
    r.push(115);
    r.push(45);
    proof {
        assert(r@ =~= name_prefix());
    }
    push_dec_digits(pid as u64, &mut r);
    proof {
        assert(dec_digits(pid as u64 as nat) == dec_digits(pid as nat));
    }
    r.push(45);
    r.extend_from_slice(path);
    r.push(45);
    push_dec_digits(generation, &mut r);
    r.push(0);
    proof {
        assert(r@ =~= region_name_bytes(pid, path@, generation));
    }
    r
}

/// A region name is never much longer than its path: the fixed parts and
/// the two decimal numbers fit in 38 bytes.
pub proof fn lemma_region_name_len(pid: u32, path: Seq<u8>, generation: u64)
    ensures
        region_name_bytes(pid, path, generation).len() <= path.len() + 38,
{
    crate::wire::lemma_dec_digits_len_u32(pid);
    crate::wire::lemma_dec_digits_len_u64(generation);
}

/// With a NUL-free path, a region name is a well-formed NUL-terminated
/// string: its only NUL byte is the final one.
pub proof fn lemma_region_name_wf(pid: u32, path: Seq<u8>, generation: u64)
    requires
        forall|i: int| 0 <= i < path.len() ==> #[trigger] path[i] != 0,
    ensures
        region_name_bytes(pid, path, generation).len() >= 1,
        region_name_bytes(pid, path, generation).last() == 0,
        forall|i: int|
            0 <= i < region_name_bytes(pid, path, generation).len() - 1
                ==> #[trigger] region_name_bytes(pid, path, generation)[i] != 0,
{
    let dp = dec_digits(pid as nat);
    let dg = dec_digits(generation as nat);
    let s1 = name_prefix() + dp;
    let s2 = s1 + seq![45u8];
    let s3 = s2 + path;
    let s4 = s3 + seq![45u8];
    let s5 = s4 + dg;
    let name = region_name_bytes(pid, path, generation);
    assert(name =~= s5 + seq![0u8]);
    lemma_dec_digits_are_digits(pid as nat);
    lemma_dec_digits_are_digits(generation as nat);
    assert(name.last() == 0);
    assert forall|i: int| 0 <= i < name.len() - 1 implies #[trigger] name[i] != 0 by {
        assert(name[i] == s5[i]);
        if i < s1.len() {
            if i < 5 {
                assert(s1[i] == name_prefix()[i]);
            } else {
                assert(s1[i] == dp[i - 5]);
            }
        } else if i < s2.len() {
            assert(s5[i] == 45);
        } else if i < s3.len() {
            assert(s3[i] == path[i - s2.len()]);
        } else if i < s4.len() {
            assert(s5[i] == 45);
        } else {
            assert(s5[i] == dg[i - s4.len()]);
        }
    }
}

/// Dropping a common prefix of two equal concatenations leaves equal tails.
pub proof fn lemma_seq_prefix_cancel<T>(a: Seq<T>, b: Seq<T>, c: Seq<T>)
    requires
        a + b == a + c,
    ensures
        b == c,
{
    assert((a + b).len() == a.len() + b.len());
    assert((a + c).len() == a.len() + c.len());
    assert(b.len() == c.len());
    assert forall|i: int| 0 <= i < b.len() implies b[i] == c[i] by {
        assert((a + b)[a.len() + i] == b[i]);
        assert((a + c)[a.len() + i] == c[i]);
    }
    assert(b =~= c);
}

/// In `x ++ digits ++ NUL`, the run of decimal digits before the final NUL
/// and the part before it are both determined, because the byte just before
/// the run is a `-`, which is not a digit.
pub proof fn lemma_digit_suffix_cancel(x: Seq<u8>, d1: Seq<u8>, y: Seq<u8>, d2: Seq<u8>)
    requires
        x + d1 + seq![0u8] == y + d2 + seq![0u8],
        x.len() >= 1,
        x.last() == 45,
        y.len() >= 1,
        y.last() == 45,
        d1.len() >= 1,
        d2.len() >= 1,
        forall|i: int| 0 <= i < d1.len() ==> 48 <= #[trigger] d1[i] <= 57,
        forall|i: int| 0 <= i < d2.len() ==> 48 <= #[trigger] d2[i] <= 57,
    ensures
        x == y,
        d1 == d2,
    decreases d1.len(),
{
    let left = x + d1 + seq![0u8];
    let right = y + d2 + seq![0u8];
    assert(left.len() == right.len());
    if d1.len() < d2.len() {
        let i = x.len() - 1;
        assert(left[i] == x[i]);
        assert(left[i] == 45);
        // The same position falls inside the digit run of the right side.
        assert(y.len() == right.len() - d2.len() - 1);
        assert(y.len() <= i);
        assert(i < y.len() + d2.len());
        assert(right[i] == d2[i - y.len()]);
        assert(48 <= right[i] <= 57);
        assert(false);
    } else if d1.len() > d2.len() {
        lemma_digit_suffix_cancel(y, d2, x, d1);
    } else {
        assert(x.len() == y.len());
        assert forall|j: int| 0 <= j < d1.len() implies d1[j] == d2[j] by {
            assert(left[x.len() + j] == d1[j]);
            assert(right[y.len() + j] == d2[j]);
        }
        assert(d1 =~= d2);
        assert forall|j: int| 0 <= j < x.len() implies x[j] == y[j] by {
            assert(left[j] == x[j]);
            assert(right[j] == y[j]);
        }
        assert(x =~= y);
    }
}

/// Region naming is injective: under one server pid, two equal names were
/// necessarily made for the same path and the same generation.
pub proof fn lemma_region_name_injective(pid: u32, p1: Seq<u8>, g1: u64, p2: Seq<u8>, g2: u64)
    requires
        region_name_bytes(pid, p1, g1) == region_name_bytes(pid, p2, g2),
    ensures
        p1 == p2,
        g1 == g2,
{
    let head = name_prefix() + dec_digits(pid as nat) + seq![45u8];
    let x1 = head + p1 + seq![45u8];
    let x2 = head + p2 + seq![45u8];
    let d1 = dec_digits(g1 as nat);
    let d2 = dec_digits(g2 as nat);
    assert(region_name_bytes(pid, p1, g1) =~= x1 + d1 + seq![0u8]);
    assert(region_name_bytes(pid, p2, g2) =~= x2 + d2 + seq![0u8]);
    lemma_dec_digits_are_digits(g1 as nat);
    lemma_dec_digits_are_digits(g2 as nat);
    assert(x1.last() == 45);
    assert(x2.last() == 45);
    lemma_digit_suffix_cancel(x1, d1, x2, d2);
    lemma_dec_injective(g1 as nat, g2 as nat);
    assert(head + (p1 + seq![45u8]) =~= x1);
    assert(head + (p2 + seq![45u8]) =~= x2);
    lemma_seq_prefix_cancel(head, p1 + seq![45u8], p2 + seq![45u8]);
    assert(p1 =~= (p1 + seq![45u8]).drop_last());
    assert(p2 =~= (p2 + seq![45u8]).drop_last());
}

/// A fresh generation yields a fresh name: reopening a path after its region
/// was retired can never reuse the retired region's name.
pub proof fn lemma_region_name_fresh(pid: u32, p1: Seq<u8>, g1: u64, p2: Seq<u8>, g2: u64)
    requires
        g1 != g2,
    ensures
        region_name_bytes(pid, p1, g1) != region_name_bytes(pid, p2, g2),
{
    if region_name_bytes(pid, p1, g1) == region_name_bytes(pid, p2, g2) {
        lemma_region_name_injective(pid, p1, g1, p2, g2);
    }
}

} // verus!
