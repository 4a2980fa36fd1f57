//! Copying bytes between slices.
use crate::rw::overwrite;
use core::mem::MaybeUninit;
use vstd::prelude::*;
use vstd::std_specs::maybe_uninit::MaybeUninitAdditionalSpecFns;

verus! {

/// The `N` bytes of `s` from `offset` on.
pub fn slice_read<const N: usize>(s: &[u8], offset: usize) -> (r: [u8; N])
    requires
        offset + N <= s@.len(),
    ensures
        r@ == s@.subrange(offset as int, offset + N),
{
    let len = s.len();
    let mut out: [u8; N] = vstd::array::array_fill_for_copy_types(0u8);
    let mut i: usize = 0;
    while i < N
        invariant
            0 <= i <= N,
            offset + N <= s@.len(),
            len == s@.len(),
            out@.len() == N,
            forall|j: int| 0 <= j < i ==> #[trigger] out@[j] == s@[offset + j],
        decreases N - i,
    {
        out[i] = s[offset + i];
        i = i + 1;
    }
    assert(out@ =~= s@.subrange(offset as int, offset + N));
    out
}

/// Fills `val` with the bytes of `s` from `offset` on.
pub fn slice_read_into(s: &[u8], offset: usize, val: &mut [u8])
    requires
        offset + old(val)@.len() <= s@.len(),
    ensures
        final(val)@ == s@.subrange(offset as int, offset + old(val)@.len()),
{
    let n = val.len();
    let len = s.len();
    let mut i: usize = 0;
    while i < n
        invariant
            0 <= i <= n,
            n == val@.len(),
            n == old(val)@.len(),
            len == s@.len(),
            offset + n <= s@.len(),
            forall|j: int| 0 <= j < i ==> #[trigger] val@[j] == s@[offset + j],
        decreases n - i,
    {
        val[i] = s[offset + i];
        i = i + 1;
    }
    assert(val@ =~= s@.subrange(offset as int, offset + n));
}

/// Replaces the bytes of `s` from `offset` on by `val`.
pub fn slice_write(s: &mut [u8], offset: usize, val: &[u8])
    requires
        offset + val@.len() <= old(s)@.len(),
    ensures
        final(s)@ == overwrite(old(s)@, offset as int, val@),
{
    let n = val.len();
    let len = s.len();
    let mut i: usize = 0;
    while i < n
        invariant
            0 <= i <= n,
            n == val@.len(),
            len == old(s)@.len(),
            offset + n <= old(s)@.len(),
            s@.len() == old(s)@.len(),
            forall|j: int| 0 <= j < offset ==> #[trigger] s@[j] == old(s)@[j],
            forall|j: int| offset + i <= j < s@.len() ==> #[trigger] s@[j] == old(s)@[j],
            forall|j: int| offset <= j < offset + i ==> #[trigger] s@[j] == val@[j - offset],
        decreases n - i,
    {
        s[offset + i] = val[i];
        i = i + 1;
    }
    assert(s@ =~= overwrite(old(s)@, offset as int, val@));
}

/// The bytes of a buffer of possibly uninitialized bytes; a byte never written counts as 0.
pub open spec fn known_bytes(s: Seq<MaybeUninit<u8>>) -> Seq<u8> {
    s.map_values(|m: MaybeUninit<u8>| byte_or_zero(m))
}

/// The value of a possibly uninitialized byte, or 0 when it was never written.
pub open spec fn byte_or_zero(m: MaybeUninit<u8>) -> u8 {
    match m.as_option() {
        Some(b) => b,
        None => 0u8,
    }
}

/// Replaces the bytes of `s` from `offset` on by `val`, initializing them.
pub fn uninit_slice_write(s: &mut [MaybeUninit<u8>], offset: usize, val: &[u8])
    requires
        offset + val@.len() <= old(s)@.len(),
    ensures
        known_bytes(final(s)@) == overwrite(known_bytes(old(s)@), offset as int, val@),
        final(s)@.len() == old(s)@.len(),
        forall|j: int|
            offset <= j < offset + val@.len() ==> (#[trigger] final(s)@[j]).as_option() == Some(
                val@[j - offset],
            ),
        forall|j: int|
            0 <= j < old(s)@.len() && !(offset <= j < offset + val@.len()) ==> #[trigger] final(s)@[j]
                == old(s)@[j],
{
    let n = val.len();
    let len = s.len();
    let mut i: usize = 0;
    while i < n
        invariant
            0 <= i <= n,
            n == val@.len(),
            len == old(s)@.len(),
            offset + n <= old(s)@.len(),
            s@.len() == old(s)@.len(),
            forall|j: int| 0 <= j < offset ==> #[trigger] s@[j] == old(s)@[j],
            forall|j: int| offset + i <= j < s@.len() ==> #[trigger] s@[j] == old(s)@[j],
            forall|j: int|
                offset <= j < offset + i ==> (#[trigger] s@[j]).as_option() == Some(
                    val@[j - offset],
                ),
        decreases n - i,
    {
        s[offset + i] = MaybeUninit::new(val[i]);
        i = i + 1;
    }
    assert(known_bytes(s@) =~= overwrite(known_bytes(old(s)@), offset as int, val@));
}

} // verus!
