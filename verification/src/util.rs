//! Small verified helpers for building and copying byte vectors.

use vstd::prelude::*;

verus! {

/// Copy `src[start..end]` into a fresh vector.
pub(crate) fn copy_range(src: &Vec<u8>, start: usize, end: usize) -> (r: Vec<u8>)
    requires
        start <= end <= src@.len(),
    ensures
        r@ == src@.subrange(start as int, end as int),
{
    let mut out: Vec<u8> = Vec::with_capacity(end - start);
    let mut j: usize = start;
    proof {
        assert(out@ =~= src@.subrange(start as int, start as int));
    }
    while j < end
        invariant
            start <= j <= end <= src@.len(),
            out@ == src@.subrange(start as int, j as int),
        decreases end - j,
    {
        out.push(src[j]);
        proof {
            assert(out@ =~= src@.subrange(start as int, j + 1 as int));
        }
        j += 1;
    }
    out
}

/// Append every byte of `src` to `dst`.
pub(crate) fn append_bytes(dst: &mut Vec<u8>, src: &[u8])
    ensures
        final(dst)@ == old(dst)@ + src@,
{
    let mut j: usize = 0;
    proof {
        assert(dst@ =~= dst@ + src@.take(0));
    }
    while j < src.len()
        invariant
            j <= src@.len(),
            dst@ == old(dst)@ + src@.take(j as int),
        decreases src@.len() - j,
    {
        dst.push(src[j]);
        proof {
            assert(dst@ =~= old(dst)@ + src@.take(j + 1 as int));
        }
        j += 1;
    }
    proof {
        assert(src@.take(src@.len() as int) =~= src@);
    }
}

/// A fresh three-byte vector.
pub(crate) fn bytes3(a: u8, b: u8, c: u8) -> (r: Vec<u8>)
    ensures
        r@ == seq![a, b, c],
{
    let mut out: Vec<u8> = Vec::with_capacity(3);
    out.push(a);
    out.push(b);
    out.push(c);
    proof {
        assert(out@ =~= seq![a, b, c]);
    }
    out
}

} // verus!
