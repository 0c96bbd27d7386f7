//! Cutting a byte sequence into fragments of one size, of which only the last
//! may be shorter.

use vstd::prelude::*;

verus! {

/// The number of fragments of `len` bytes.
pub open spec fn frag_count(len: nat, size: nat) -> nat {
    ((len + size - 1) / size as int) as nat
}

/// The end of fragment `i`.
pub open spec fn frag_end(len: nat, size: nat, i: int) -> int {
    if (i + 1) * size <= len {
        (i + 1) * size
    } else {
        len as int
    }
}

/// Fragment `i`.
pub open spec fn frag(data: Seq<u8>, size: nat, i: int) -> Seq<u8> {
    data.subrange(i * size, frag_end(data.len(), size, i))
}

/// How many fragments there are: as many full ones as fit before the end, and
/// one more.
pub proof fn lemma_frag_count(len: nat, size: nat)
    requires
        size > 0,
        len > 0,
    ensures
        frag_count(len, size) > 0,
        (frag_count(len, size) - 1) * size < len <= frag_count(len, size) * size,
        frag_count(len, size) <= len,
{
    let n = frag_count(len, size) as int;
    let z = size as int;
    let l = len as int;
    assert((l + z - 1) == n * z + (l + z - 1) % z && 0 <= (l + z - 1) % z < z)
        by (nonlinear_arith)
        requires
            z > 0,
            l > 0,
            n == (l + z - 1) / z,
    ;
    assert(n * z >= l && (n - 1) * z < l && n > 0 && n <= l) by (nonlinear_arith)
        requires
            z > 0,
            l > 0,
            (l + z - 1) == n * z + (l + z - 1) % z,
            0 <= (l + z - 1) % z < z,
    ;
}

/// Where fragment `i` lies.
pub proof fn lemma_frag_bounds(len: nat, size: nat, i: int)
    requires
        size > 0,
        len > 0,
        0 <= i < frag_count(len, size),
    ensures
        0 <= i * size < frag_end(len, size, i) <= len,
        i + 1 < frag_count(len, size) ==> frag_end(len, size, i) == (i + 1) * size,
        i + 1 == frag_count(len, size) ==> frag_end(len, size, i) == len,
        frag_end(len, size, i) - i * size <= size,
{
    let n = frag_count(len, size) as int;
    let z = size as int;
    let l = len as int;
    lemma_frag_count(len, size);
    assert(0 <= i * z < l && i * z < (i + 1) * z && (i + 1 < n ==> (i + 1) * z < l) && (i + 1
        == n ==> (i + 1) * z >= l) && (i + 1) * z == i * z + z) by (nonlinear_arith)
        requires
            z > 0,
            0 <= i < n,
            n * z >= l,
            (n - 1) * z < l,
    ;
}

/// The first `n` fragments, one behind the other.
pub open spec fn frags_joined(data: Seq<u8>, size: nat, n: nat) -> Seq<u8>
    decreases n,
{
    if n == 0 {
        Seq::empty()
    } else {
        frags_joined(data, size, (n - 1) as nat) + frag(data, size, n - 1)
    }
}

/// The fragments of a sequence make up the sequence.
pub proof fn fragments_make_up_the_whole(data: Seq<u8>, size: nat)
    requires
        size > 0,
        data.len() > 0,
    ensures
        frags_joined(data, size, frag_count(data.len(), size)) == data,
{
    lemma_frag_count(data.len(), size);
    lemma_frags_joined(data, size, frag_count(data.len(), size));
    lemma_frag_bounds(data.len(), size, frag_count(data.len(), size) - 1);
    assert(data.take(data.len() as int) =~= data);
}

/// The first `n` fragments make up what lies before the end of the last of them.
pub proof fn lemma_frags_joined(data: Seq<u8>, size: nat, n: nat)
    requires
        size > 0,
        data.len() > 0,
        n <= frag_count(data.len(), size),
    ensures
        n == 0 ==> frags_joined(data, size, n) == Seq::<u8>::empty(),
        n > 0 ==> frags_joined(data, size, n) == data.take(frag_end(data.len(), size, n - 1)),
    decreases n,
{
    if n > 0 {
        lemma_frags_joined(data, size, (n - 1) as nat);
        lemma_frag_bounds(data.len(), size, n - 1);
        if n > 1 {
            lemma_frag_bounds(data.len(), size, n - 2);
        } else {
            assert(0 * size == 0) by (nonlinear_arith);
        }
        assert(frags_joined(data, size, n) =~= data.take(frag_end(data.len(), size, n - 1)));
    }
}

} // verus!
