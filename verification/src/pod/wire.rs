//! Byte-level primitives of the pod wire format.
//!
//! Every pod is an 8-byte header (a 4-byte body length followed by a 4-byte
//! type tag) and a body, padded with zero bytes to the next multiple of 8 so
//! that consecutive pods stay 8-byte aligned.  Numeric fields are stored
//! little-endian, which is the native byte order of every platform this
//! library targets; the format deliberately uses the host's own order, since
//! pods are exchanged over same-host IPC.

use vstd::prelude::*;
use vstd::bytes::{
    spec_u32_to_le_bytes, spec_u32_from_le_bytes, spec_u64_to_le_bytes, spec_u64_from_le_bytes,
    u32_from_le_bytes, u32_to_le_bytes, u64_from_le_bytes, u64_to_le_bytes,
    lemma_auto_spec_u32_to_from_le_bytes, lemma_auto_spec_u64_to_from_le_bytes,
};
use vstd::slice::slice_subrange;

verus! {

/// The number of zero bytes that pad a body of `n` bytes to a multiple of 8.
pub open spec fn pad_len(n: nat) -> nat {
    ((8 - n % 8) % 8) as nat
}

/// A sequence of `n` zero bytes.
pub open spec fn zeros(n: nat) -> Seq<u8> {
    Seq::new(n, |i: int| 0u8)
}

/// The 8-byte pod header: body length, then type tag.
pub open spec fn enc_header(size: nat, ty: u32) -> Seq<u8> {
    spec_u32_to_le_bytes(size as u32) + spec_u32_to_le_bytes(ty)
}

/// A whole pod on the wire: header, body, and trailing padding.
pub open spec fn enc_pod(ty: u32, body: Seq<u8>) -> Seq<u8> {
    enc_header(body.len(), ty) + body + zeros(pad_len(body.len()))
}

/// Append the little-endian bytes of `x` to `out`.
pub fn put_u32(out: &mut Vec<u8>, x: u32)
    ensures
        final(out)@ == old(out)@ + spec_u32_to_le_bytes(x),
{
    let bytes = u32_to_le_bytes(x);
    out.extend_from_slice(bytes.as_slice());
}

/// Append the little-endian bytes of `x` to `out`.
pub fn put_u64(out: &mut Vec<u8>, x: u64)
    ensures
        final(out)@ == old(out)@ + spec_u64_to_le_bytes(x),
{
    let bytes = u64_to_le_bytes(x);
    out.extend_from_slice(bytes.as_slice());
}

/// Append `n` zero bytes to `out`.
pub fn put_zeros(out: &mut Vec<u8>, n: usize)
    ensures
        final(out)@ == old(out)@ + zeros(n as nat),
{
    let mut i: usize = 0;
    while i < n
        invariant
            i <= n,
            out@ == old(out)@ + zeros(i as nat),
            out@.len() == old(out)@.len() + i,
        decreases n - i,
    {
        out.push(0u8);
        proof {
            assert(zeros((i + 1) as nat) =~= zeros(i as nat).push(0u8));
            assert(out@ =~= old(out)@ + zeros((i + 1) as nat));
        }
        i = i + 1;
    }
}

/// Read a little-endian `u32` at offset `at`.
pub fn get_u32(s: &[u8], at: usize) -> (x: u32)
    requires
        at + 4 <= s@.len(),
    ensures
        x == spec_u32_from_le_bytes(s@.subrange(at as int, at + 4)),
{
    // binding the length shows the verifier that the offsets fit a usize
    let n = s.len();
    u32_from_le_bytes(slice_subrange(s, at, at + 4))
}

/// Read a little-endian `u64` at offset `at`.
pub fn get_u64(s: &[u8], at: usize) -> (x: u64)
    requires
        at + 8 <= s@.len(),
    ensures
        x == spec_u64_from_le_bytes(s@.subrange(at as int, at + 8)),
{
    // binding the length shows the verifier that the offsets fit a usize
    let n = s.len();
    u64_from_le_bytes(slice_subrange(s, at, at + 8))
}

/// Overwrite the 4 bytes of `out` at `pos` with the little-endian bytes of `x`.
///
/// This is the back-patching step of the serializer: a length field is
/// reserved when a container is opened and filled in here when it is closed.
pub fn patch_u32(out: &mut Vec<u8>, pos: usize, x: u32)
    requires
        pos + 4 <= old(out)@.len(),
    ensures
        final(out)@ == old(out)@.subrange(0, pos as int) + spec_u32_to_le_bytes(x)
            + old(out)@.subrange(pos + 4, old(out)@.len() as int),
        final(out)@.len() == old(out)@.len(),
{
    proof {
        lemma_auto_spec_u32_to_from_le_bytes();
    }
    let bytes = u32_to_le_bytes(x);
    let len = out.len();
    let mut k: usize = 0;
    while k < 4
        invariant
            k <= 4,
            pos + 4 <= out@.len(),
            out@.len() == len,
            out@.len() == old(out)@.len(),
            bytes@ == spec_u32_to_le_bytes(x),
            bytes@.len() == 4,
            forall|i: int| 0 <= i < pos ==> out@[i] == old(out)@[i],
            forall|i: int| 0 <= i < k ==> out@[pos + i] == bytes@[i],
            forall|i: int| pos + k <= i < out@.len() ==> out@[i] == old(out)@[i],
        decreases 4 - k,
    {
        let b = bytes[k];
        out[pos + k] = b;
        k = k + 1;
    }
    proof {
        assert(out@ =~= old(out)@.subrange(0, pos as int) + spec_u32_to_le_bytes(x)
            + old(out)@.subrange(pos + 4, old(out)@.len() as int));
    }
}

/// The padding that a body of `len` bytes needs to reach a multiple of 8.
pub fn pad_of(len: usize) -> (p: usize)
    ensures
        p == pad_len(len as nat),
        p < 8,
{
    (8 - len % 8) % 8
}

} // verus!
