//! Cache-line arithmetic.
use vstd::prelude::*;

verus! {

/// The cache-line size assumed for padding and alignment.
pub const CACHE_LINE_SIZE: usize = 64;

/// The smallest multiple of the cache-line size that is at least `size`.
pub fn align_to_cache_line(size: usize) -> (r: usize)
    requires
        size + 63 <= usize::MAX,
    ensures
        r % 64 == 0,
        size <= r < size + 64,
{
    let r = (size + 63) / 64 * 64;
    assert(r % 64 == 0 && size <= r < size + 64) by (nonlinear_arith)
        requires
            r == (size + 63) / 64 * 64,
    ;
    r
}

/// Copies `src` over the start of `dst`.
pub fn fast_copy(dst: &mut Vec<u8>, src: &[u8])
    requires
        old(dst)@.len() >= src@.len(),
    ensures
        final(dst)@ == src@ + old(dst)@.skip(src@.len() as int),
{
    let mut i: usize = 0;
    while i < src.len()
        invariant
            i <= src@.len(),
            old(dst)@.len() >= src@.len(),
            dst@.len() == old(dst)@.len(),
            forall|j: int| 0 <= j < i ==> dst@[j] == src@[j],
            forall|j: int| src@.len() <= j < dst@.len() ==> dst@[j] == old(dst)@[j],
        decreases src@.len() - i,
    {
        dst.set(i, src[i]);
        i = i + 1;
    }
    assert(dst@ =~= src@ + old(dst)@.skip(src@.len() as int));
}

/// Sets every byte of `dst` to zero.
pub fn fast_zero(dst: &mut Vec<u8>)
    ensures
        final(dst)@ == Seq::new(old(dst)@.len(), |i: int| 0u8),
{
    let mut i: usize = 0;
    while i < dst.len()
        invariant
            i <= dst@.len(),
            dst@.len() == old(dst)@.len(),
            forall|j: int| 0 <= j < i ==> dst@[j] == 0u8,
        decreases dst@.len() - i,
    {
        dst.set(i, 0);
        i = i + 1;
    }
    assert(dst@ =~= Seq::new(old(dst)@.len(), |i: int| 0u8));
}

} // verus!
