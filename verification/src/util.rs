//! Small verified helpers over byte vectors and slices, shared by the row
//! codec and the command parser.

use vstd::prelude::*;

verus! {

/// A sequence of `n` zero bytes.
pub open spec fn zeros(n: int) -> Seq<u8> {
    Seq::new(n as nat, |i: int| 0u8)
}

/// `b` right-padded with zero bytes to width `w` (unchanged if already wider).
pub open spec fn pad_field(b: Seq<u8>, w: int) -> Seq<u8> {
    if b.len() >= w {
        b
    } else {
        b + zeros(w - b.len())
    }
}

/// Appends every byte of `src` to `dst`, in order.
pub fn append_bytes(dst: &mut Vec<u8>, src: &[u8])
    ensures
        final (dst)@ == old(dst)@ + src@,
{
    let mut i: usize = 0;
    while i < src.len()
        invariant
            i <= src@.len(),
            dst@ == old(dst)@ + src@.subrange(0, i as int),
        decreases src@.len() - i,
    {
        dst.push(src[i]);
        proof {
            assert(src@.subrange(0, i + 1) == src@.subrange(0, i as int).push(src@[i as int]));
            assert(old(dst)@ + src@.subrange(0, i + 1) == (old(dst)@ + src@.subrange(
                0,
                i as int,
            )).push(src@[i as int]));
        }
        i = i + 1;
    }
    proof {
        assert(src@.subrange(0, src@.len() as int) == src@);
    }
}

/// Appends zero bytes to `v` until it is `width` long.
pub fn pad_zero(v: &mut Vec<u8>, width: usize)
    requires
        old(v)@.len() <= width,
    ensures
        final (v)@ == pad_field(old(v)@, width as int),
        final (v)@.len() == width,
{
    let mut i: usize = v.len();
    while i < width
        invariant
            v@.len() == i,
            i <= width,
            v@ == old(v)@ + zeros(i - old(v)@.len()),
        decreases width - i,
    {
        v.push(0);
        proof {
            assert(zeros(i + 1 - old(v)@.len()) == zeros(i - old(v)@.len()).push(0u8));
            assert(old(v)@ + zeros(i + 1 - old(v)@.len()) == (old(v)@ + zeros(
                i - old(v)@.len(),
            )).push(0u8));
        }
        i = i + 1;
    }
    proof {
        if old(v)@.len() == width {
            assert(v@ == old(v)@ + zeros(0));
            assert(old(v)@ + zeros(0) == old(v)@);
        }
    }
}

/// Reports whether two byte slices hold the same bytes.
pub fn bytes_eq(a: &[u8], b: &[u8]) -> (r: bool)
    ensures
        r == (a@ == b@),
{
    if a.len() != b.len() {
        proof {
            assert(a@.len() != b@.len());
        }
        return false;
    }
    let mut i: usize = 0;
    while i < a.len()
        invariant
            i <= a@.len(),
            a@.len() == b@.len(),
            forall|j: int| 0 <= j < i ==> a@[j] == b@[j],
        decreases a@.len() - i,
    {
        if a[i] != b[i] {
            return false;
        }
        i = i + 1;
    }
    proof {
        assert(a@ =~= b@);
    }
    true
}

} // verus!
