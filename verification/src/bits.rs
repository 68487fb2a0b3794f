//! Membership in a 64-bit set of squares.

use vstd::prelude::*;

verus! {

/// Square `i` belongs to the set `bb`.
#[verifier::opaque]
pub open spec fn member(bb: u64, i: int) -> bool {
    0 <= i < 64 && (bb >> (i as u64)) & 1 == 1
}

/// How many of the squares below `n` belong to `bb`.
pub open spec fn count(bb: u64, n: nat) -> nat
    decreases n,
{
    if n == 0 {
        0
    } else {
        count(bb, (n - 1) as nat) + if member(bb, n - 1) {
            1nat
        } else {
            0nat
        }
    }
}

/// The first member of `bb` at or after `i`; 64 when there is none.
pub open spec fn first(bb: u64, i: int) -> int
    decreases 64 - i,
{
    if i >= 64 {
        64
    } else if member(bb, i) {
        i
    } else {
        first(bb, i + 1)
    }
}

pub proof fn lemma_member_ops()
    ensures
        forall|i: int| !#[trigger] member(0, i),
        forall|a: u64, b: u64, i: int|
            #![trigger member(a | b, i)]
            member(a | b, i) == (member(a, i) || member(b, i)),
        forall|a: u64, b: u64, i: int|
            #![trigger member(a & b, i)]
            member(a & b, i) == (member(a, i) && member(b, i)),
        forall|a: u64, i: int|
            #![trigger member(!a, i)]
            member(!a, i) == (0 <= i < 64 && !member(a, i)),
        forall|s: u8, i: int|
            #![trigger member(1u64 << s, i)]
            s < 64 ==> member(1u64 << s, i) == (i == s),
        forall|a: u64, i: int| #[trigger] member(a, i) ==> 0 <= i < 64,
{
    reveal(member);
    assert(forall|i: u64| #![auto] i < 64 ==> (0u64 >> i) & 1 != 1) by (bit_vector);
    assert forall|a: u64, b: u64, i: int| member(a | b, i) == (member(a, i) || member(b, i)) by {
        let k = i as u64;
        assert(((a | b) >> k) & 1 == 1 <==> ((a >> k) & 1 == 1 || (b >> k) & 1 == 1)) by (bit_vector);
    }
    assert forall|a: u64, b: u64, i: int| member(a & b, i) == (member(a, i) && member(b, i)) by {
        let k = i as u64;
        assert(((a & b) >> k) & 1 == 1 <==> ((a >> k) & 1 == 1 && (b >> k) & 1 == 1)) by (bit_vector);
    }
    assert forall|a: u64, i: int| member(!a, i) == (0 <= i < 64 && !member(a, i)) by {
        let k = i as u64;
        assert(k < 64 ==> (((!a) >> k) & 1 == 1 <==> (a >> k) & 1 != 1)) by (bit_vector);
    }
    assert forall|s: u8, i: int| s < 64 implies member(1u64 << s, i) == (i == s) by {
        let k = i as u64;
        assert(s < 64 && k < 64 ==> (((1u64 << s) >> k) & 1 == 1 <==> k == s)) by (bit_vector);
    }
}

/// Two sets with the same members are the same word.
pub proof fn lemma_member_ext(a: u64, b: u64)
    requires
        forall|i: int| 0 <= i < 64 ==> member(a, i) == member(b, i),
    ensures
        a == b,
{
    if a != b {
        let d = a ^ b;
        assert(a != b ==> a ^ b != 0) by (bit_vector);
        let k = lemma_nonzero_member(d, 64);
        reveal(member);
        assert(member(a, k as int) == member(b, k as int));
        assert((((a ^ b) >> k) & 1 == 1) ==> ((a >> k) & 1 == 1) != ((b >> k) & 1 == 1)) by (bit_vector);
    }
}

proof fn lemma_nonzero_member(d: u64, n: u64) -> (k: u64)
    requires
        0 < n <= 64,
        d != 0,
        n < 64 ==> d >> n == 0,
    ensures
        k < n,
        (d >> k) & 1 == 1,
    decreases n,
{
    let m = (n - 1) as u64;
    if (d >> m) & 1 == 1 {
        m
    } else {
        assert((d >> m) & 1 != 1 && (n == 64 || d >> n == 0) && m + 1 == n && 0 < n <= 64 ==> d >> m
            == 0) by (bit_vector);
        if m == 0 {
            assert(d >> 0u64 == d) by (bit_vector);
        }
        lemma_nonzero_member(d, m)
    }
}

/// A word is zero exactly when it has no member.
pub proof fn lemma_zero_iff_empty(a: u64)
    ensures
        a == 0 <==> forall|i: int| !#[trigger] member(a, i),
{
    lemma_member_ops();
    if forall|i: int| !#[trigger] member(a, i) {
        lemma_member_ext(a, 0);
    }
}

pub proof fn lemma_first(bb: u64, i: int)
    requires
        0 <= i <= 64,
    ensures
        i <= first(bb, i) <= 64,
        first(bb, i) < 64 ==> member(bb, first(bb, i)),
        forall|j: int| i <= j < first(bb, i) ==> !member(bb, j),
    decreases 64 - i,
{
    if i < 64 && !member(bb, i) {
        lemma_first(bb, i + 1);
    }
}

pub proof fn lemma_count_bound(bb: u64, n: nat)
    ensures
        count(bb, n) <= n,
    decreases n,
{
    if n > 0 {
        lemma_count_bound(bb, (n - 1) as nat);
    }
}

} // verus!
