//! The buffers that readers and writers work on: byte slices, byte arrays, byte vectors, and
//! references and smart pointers to them.
use crate::bytes::{byte_or_zero, known_bytes, slice_read, slice_read_into, slice_write, uninit_slice_write};
use core::mem::MaybeUninit;
use vstd::std_specs::maybe_uninit::MaybeUninitAdditionalSpecFns;
use crate::rw::{zeros, BufferMut, BufferRef, ByteBuffer, EnlargeError};
use std::boxed::Box;
use std::rc::Rc;
use std::sync::Arc;
use std::vec::Vec;
use vstd::prelude::*;

verus! {

/// Calls `Vec::capacity`, which std documents as the number of elements the vector can hold
/// without reallocating, never less than its length. How much room above the length the
/// allocator gave is not stated.
#[verifier::external_body]
fn vec_capacity<T>(v: &Vec<T>) -> (r: usize)
    ensures
        r >= v@.len(),
{
    v.capacity()
}

impl BufferRef for [u8] {
    open spec fn ref_bytes(&self) -> Seq<u8> {
        self@
    }

    proof fn lemma_ref_len_fits(&self) {
        assert(self@.len() == self.len());
    }

    fn len(&self) -> usize {
        self.len()
    }

    fn read<const N: usize>(&self, offset: usize) -> [u8; N] {
        slice_read(self, offset)
    }

    fn read_slice(&self, offset: usize, val: &mut [u8]) {
        slice_read_into(self, offset, val)
    }
}

impl BufferMut for [u8] {
    open spec fn mut_bytes(&self) -> Seq<u8> {
        self@
    }

    open spec fn is_fixed(&self) -> bool {
        true
    }

    proof fn lemma_mut_len_fits(&self) {
        assert(self@.len() == self.len());
    }

    fn capacity(&self) -> (r: usize)
        ensures
            r == self@.len(),
    {
        self.len()
    }

    fn write<const N: usize>(&mut self, offset: usize, val: &[u8; N]) {
        slice_write(self, offset, val.as_slice())
    }

    fn write_slice(&mut self, offset: usize, val: &[u8]) {
        slice_write(self, offset, val)
    }

    fn try_enlarge(&mut self, wanted: usize) -> (r: Result<(), EnlargeError>)
        ensures
            r is Ok <==> wanted <= old(self)@.len(),
            final(self)@ == old(self)@,
    {
        if wanted > <[u8] as BufferMut>::capacity(self) {
            Err(EnlargeError)
        } else {
            Ok(())
        }
    }
}

impl<const LEN: usize> BufferRef for [u8; LEN] {
    open spec fn ref_bytes(&self) -> Seq<u8> {
        self@
    }

    proof fn lemma_ref_len_fits(&self) {
    }

    fn len(&self) -> usize {
        LEN
    }

    fn read<const N: usize>(&self, offset: usize) -> [u8; N] {
        slice_read(self.as_slice(), offset)
    }

    fn read_slice(&self, offset: usize, val: &mut [u8]) {
        slice_read_into(self.as_slice(), offset, val)
    }
}

impl<const LEN: usize> BufferMut for [u8; LEN] {
    open spec fn mut_bytes(&self) -> Seq<u8> {
        self@
    }

    open spec fn is_fixed(&self) -> bool {
        true
    }

    proof fn lemma_mut_len_fits(&self) {
    }

    fn capacity(&self) -> (r: usize)
        ensures
            r == LEN,
    {
        LEN
    }

    fn write<const N: usize>(&mut self, offset: usize, val: &[u8; N]) {
        slice_write(self, offset, val.as_slice())
    }

    fn write_slice(&mut self, offset: usize, val: &[u8]) {
        slice_write(self, offset, val)
    }

    fn try_enlarge(&mut self, wanted: usize) -> (r: Result<(), EnlargeError>)
        ensures
            r is Ok <==> wanted <= LEN,
            final(self)@ == old(self)@,
    {
        if wanted > <[u8; LEN] as BufferMut>::capacity(self) {
            Err(EnlargeError)
        } else {
            Ok(())
        }
    }
}

impl BufferRef for Vec<u8> {
    open spec fn ref_bytes(&self) -> Seq<u8> {
        self@
    }

    proof fn lemma_ref_len_fits(&self) {
        assert(self@.len() == self.len());
    }

    fn len(&self) -> usize {
        self.len()
    }

    fn read<const N: usize>(&self, offset: usize) -> [u8; N] {
        slice_read(self.as_slice(), offset)
    }

    fn read_slice(&self, offset: usize, val: &mut [u8]) {
        slice_read_into(self.as_slice(), offset, val)
    }
}

impl BufferMut for Vec<u8> {
    open spec fn mut_bytes(&self) -> Seq<u8> {
        self@
    }

    open spec fn is_fixed(&self) -> bool {
        false
    }

    proof fn lemma_mut_len_fits(&self) {
        assert(self@.len() == self.len());
    }

    fn capacity(&self) -> usize {
        vec_capacity(self)
    }

    fn write<const N: usize>(&mut self, offset: usize, val: &[u8; N]) {
        slice_write(self.as_mut_slice(), offset, val.as_slice())
    }

    fn write_slice(&mut self, offset: usize, val: &[u8]) {
        slice_write(self.as_mut_slice(), offset, val)
    }

    /// Grows the vector to `wanted` bytes with zeros, if it holds fewer; fails only when the
    /// allocator cannot give the room.
    fn try_enlarge(&mut self, wanted: usize) -> (r: Result<(), EnlargeError>)
        ensures
            r is Ok ==> final(self)@ == if wanted > old(self)@.len() {
                old(self)@ + zeros((wanted - old(self)@.len()) as nat)
            } else {
                old(self)@
            },
            r is Err ==> wanted > old(self)@.len() && final(self)@ == old(self)@,
    {
        let additional = wanted.saturating_sub(self.len());
        if additional > 0 {
            match self.try_reserve(additional) {
                Ok(()) => {},
                Err(e) => {
                    return Err(EnlargeError::from(e));
                },
            }
            let ghost start = self@;
            let mut i: usize = 0;
            while i < additional
                invariant
                    0 <= i <= additional,
                    self@ == start + zeros(i as nat),
                decreases additional - i,
            {
                self.push(0u8);
                i = i + 1;
                assert(self@ =~= start + zeros(i as nat));
            }
        }
        Ok(())
    }
}

impl<T: BufferRef + ?Sized> BufferRef for &T {
    open spec fn ref_bytes(&self) -> Seq<u8> {
        (**self).ref_bytes()
    }

    proof fn lemma_ref_len_fits(&self) {
        (**self).lemma_ref_len_fits();
    }

    fn len(&self) -> usize {
        T::len(*self)
    }

    fn read<const N: usize>(&self, offset: usize) -> [u8; N] {
        T::read(*self, offset)
    }

    fn read_slice(&self, offset: usize, val: &mut [u8]) {
        T::read_slice(*self, offset, val)
    }
}

impl<T: BufferRef + ?Sized> BufferRef for &mut T {
    open spec fn ref_bytes(&self) -> Seq<u8> {
        (**self).ref_bytes()
    }

    proof fn lemma_ref_len_fits(&self) {
        (**self).lemma_ref_len_fits();
    }

    fn len(&self) -> usize {
        T::len(*self)
    }

    fn read<const N: usize>(&self, offset: usize) -> [u8; N] {
        T::read(*self, offset)
    }

    fn read_slice(&self, offset: usize, val: &mut [u8]) {
        T::read_slice(*self, offset, val)
    }
}

impl<T: BufferRef + ?Sized> BufferRef for Box<T> {
    open spec fn ref_bytes(&self) -> Seq<u8> {
        (**self).ref_bytes()
    }

    proof fn lemma_ref_len_fits(&self) {
        (**self).lemma_ref_len_fits();
    }

    fn len(&self) -> usize {
        T::len(self)
    }

    fn read<const N: usize>(&self, offset: usize) -> [u8; N] {
        T::read(self, offset)
    }

    fn read_slice(&self, offset: usize, val: &mut [u8]) {
        T::read_slice(self, offset, val)
    }
}

impl<T: BufferRef + ?Sized> BufferRef for Rc<T> {
    open spec fn ref_bytes(&self) -> Seq<u8> {
        (**self).ref_bytes()
    }

    proof fn lemma_ref_len_fits(&self) {
        (**self).lemma_ref_len_fits();
    }

    fn len(&self) -> usize {
        T::len(self)
    }

    fn read<const N: usize>(&self, offset: usize) -> [u8; N] {
        T::read(self, offset)
    }

    fn read_slice(&self, offset: usize, val: &mut [u8]) {
        T::read_slice(self, offset, val)
    }
}

impl<T: BufferRef + ?Sized> BufferRef for Arc<T> {
    open spec fn ref_bytes(&self) -> Seq<u8> {
        (**self).ref_bytes()
    }

    proof fn lemma_ref_len_fits(&self) {
        (**self).lemma_ref_len_fits();
    }

    fn len(&self) -> usize {
        T::len(self)
    }

    fn read<const N: usize>(&self, offset: usize) -> [u8; N] {
        T::read(self, offset)
    }

    fn read_slice(&self, offset: usize, val: &mut [u8]) {
        T::read_slice(self, offset, val)
    }
}

impl<T: BufferMut + ?Sized> BufferMut for &mut T {
    open spec fn mut_bytes(&self) -> Seq<u8> {
        (**self).mut_bytes()
    }

    open spec fn is_fixed(&self) -> bool {
        (**self).is_fixed()
    }

    proof fn lemma_mut_len_fits(&self) {
        (**self).lemma_mut_len_fits();
    }

    fn capacity(&self) -> usize {
        T::capacity(*self)
    }

    fn write<const N: usize>(&mut self, offset: usize, val: &[u8; N]) {
        T::write(*self, offset, val)
    }

    fn write_slice(&mut self, offset: usize, val: &[u8]) {
        T::write_slice(*self, offset, val)
    }

    fn try_enlarge(&mut self, wanted: usize) -> Result<(), EnlargeError> {
        T::try_enlarge(*self, wanted)
    }
}

impl<T: BufferMut + ?Sized> BufferMut for Box<T> {
    open spec fn mut_bytes(&self) -> Seq<u8> {
        (**self).mut_bytes()
    }

    open spec fn is_fixed(&self) -> bool {
        (**self).is_fixed()
    }

    proof fn lemma_mut_len_fits(&self) {
        (**self).lemma_mut_len_fits();
    }

    fn capacity(&self) -> usize {
        T::capacity(self)
    }

    fn write<const N: usize>(&mut self, offset: usize, val: &[u8; N]) {
        T::write(self, offset, val)
    }

    fn write_slice(&mut self, offset: usize, val: &[u8]) {
        T::write_slice(self, offset, val)
    }

    fn try_enlarge(&mut self, wanted: usize) -> Result<(), EnlargeError> {
        T::try_enlarge(self, wanted)
    }
}

impl ByteBuffer for [u8] {
    proof fn lemma_same_bytes(&self) {
    }
}

impl<const LEN: usize> ByteBuffer for [u8; LEN] {
    proof fn lemma_same_bytes(&self) {
    }
}

impl ByteBuffer for Vec<u8> {
    proof fn lemma_same_bytes(&self) {
    }
}

impl<T: ByteBuffer + ?Sized> ByteBuffer for &mut T {
    proof fn lemma_same_bytes(&self) {
        (**self).lemma_same_bytes();
    }
}

impl<T: ByteBuffer + ?Sized> ByteBuffer for Box<T> {
    proof fn lemma_same_bytes(&self) {
        (**self).lemma_same_bytes();
    }
}

/// A buffer of possibly uninitialized bytes; the bytes it holds are those written, and 0 for a
/// byte never written.
impl BufferMut for [MaybeUninit<u8>] {
    open spec fn mut_bytes(&self) -> Seq<u8> {
        known_bytes(self@)
    }

    open spec fn is_fixed(&self) -> bool {
        true
    }

    proof fn lemma_mut_len_fits(&self) {
        assert(self@.len() == self.len());
    }

    fn capacity(&self) -> (r: usize)
        ensures
            r == self@.len(),
    {
        self.len()
    }

    /// Every byte written is initialized to the byte of `val`; the others are left as they were.
    fn write<const N: usize>(&mut self, offset: usize, val: &[u8; N])
        ensures
            final(self)@.len() == old(self)@.len(),
            forall|j: int|
                offset <= j < offset + N ==> (#[trigger] final(self)@[j]).as_option() == Some(
                    val@[j - offset],
                ),
            forall|j: int|
                0 <= j < old(self)@.len() && !(offset <= j < offset + N) ==> #[trigger] final(self)@[j]
                == old(self)@[j],
    {
        uninit_slice_write(self, offset, val.as_slice())
    }

    /// Every byte written is initialized to the byte of `val`; the others are left as they were.
    fn write_slice(&mut self, offset: usize, val: &[u8])
        ensures
            final(self)@.len() == old(self)@.len(),
            forall|j: int|
                offset <= j < offset + val@.len() ==> (#[trigger] final(self)@[j]).as_option()
                    == Some(val@[j - offset]),
            forall|j: int|
                0 <= j < old(self)@.len() && !(offset <= j < offset + val@.len()) ==> #[trigger] final(self)@[j]
                == old(self)@[j],
    {
        uninit_slice_write(self, offset, val)
    }

    fn try_enlarge(&mut self, wanted: usize) -> (r: Result<(), EnlargeError>)
        ensures
            r is Ok <==> wanted <= old(self)@.len(),
            final(self)@ == old(self)@,
    {
        if wanted > <[MaybeUninit<u8>] as BufferMut>::capacity(self) {
            Err(EnlargeError)
        } else {
            Ok(())
        }
    }
}

impl<const LEN: usize> BufferMut for [MaybeUninit<u8>; LEN] {
    open spec fn mut_bytes(&self) -> Seq<u8> {
        known_bytes(self@)
    }

    open spec fn is_fixed(&self) -> bool {
        true
    }

    proof fn lemma_mut_len_fits(&self) {
    }

    fn capacity(&self) -> (r: usize)
        ensures
            r == LEN,
    {
        LEN
    }

    /// Every byte written is initialized to the byte of `val`; the others are left as they were.
    fn write<const N: usize>(&mut self, offset: usize, val: &[u8; N])
        ensures
            final(self)@.len() == old(self)@.len(),
            forall|j: int|
                offset <= j < offset + N ==> (#[trigger] final(self)@[j]).as_option() == Some(
                    val@[j - offset],
                ),
            forall|j: int|
                0 <= j < old(self)@.len() && !(offset <= j < offset + N) ==> #[trigger] final(self)@[j]
                == old(self)@[j],
    {
        uninit_slice_write(self, offset, val.as_slice())
    }

    /// Every byte written is initialized to the byte of `val`; the others are left as they were.
    fn write_slice(&mut self, offset: usize, val: &[u8])
        ensures
            final(self)@.len() == old(self)@.len(),
            forall|j: int|
                offset <= j < offset + val@.len() ==> (#[trigger] final(self)@[j]).as_option()
                    == Some(val@[j - offset]),
            forall|j: int|
                0 <= j < old(self)@.len() && !(offset <= j < offset + val@.len()) ==> #[trigger] final(self)@[j]
                == old(self)@[j],
    {
        uninit_slice_write(self, offset, val)
    }

    fn try_enlarge(&mut self, wanted: usize) -> (r: Result<(), EnlargeError>)
        ensures
            r is Ok <==> wanted <= LEN,
            final(self)@ == old(self)@,
    {
        if wanted > <[MaybeUninit<u8>; LEN] as BufferMut>::capacity(self) {
            Err(EnlargeError)
        } else {
            Ok(())
        }
    }
}

impl BufferMut for Vec<MaybeUninit<u8>> {
    open spec fn mut_bytes(&self) -> Seq<u8> {
        known_bytes(self@)
    }

    open spec fn is_fixed(&self) -> bool {
        false
    }

    proof fn lemma_mut_len_fits(&self) {
        assert(self@.len() == self.len());
    }

    fn capacity(&self) -> usize {
        vec_capacity(self)
    }

    /// Every byte written is initialized to the byte of `val`; the others are left as they were.
    fn write<const N: usize>(&mut self, offset: usize, val: &[u8; N])
        ensures
            final(self)@.len() == old(self)@.len(),
            forall|j: int|
                offset <= j < offset + N ==> (#[trigger] final(self)@[j]).as_option() == Some(
                    val@[j - offset],
                ),
            forall|j: int|
                0 <= j < old(self)@.len() && !(offset <= j < offset + N) ==> #[trigger] final(self)@[j]
                == old(self)@[j],
    {
        uninit_slice_write(self.as_mut_slice(), offset, val.as_slice())
    }

    /// Every byte written is initialized to the byte of `val`; the others are left as they were.
    fn write_slice(&mut self, offset: usize, val: &[u8])
        ensures
            final(self)@.len() == old(self)@.len(),
            forall|j: int|
                offset <= j < offset + val@.len() ==> (#[trigger] final(self)@[j]).as_option()
                    == Some(val@[j - offset]),
            forall|j: int|
                0 <= j < old(self)@.len() && !(offset <= j < offset + val@.len()) ==> #[trigger] final(self)@[j]
                == old(self)@[j],
    {
        uninit_slice_write(self.as_mut_slice(), offset, val)
    }

    /// Grows the vector to `wanted` uninitialized bytes, if it holds fewer; fails only when the
    /// allocator cannot give the room.
    fn try_enlarge(&mut self, wanted: usize) -> (r: Result<(), EnlargeError>)
        ensures
            r is Ok ==> final(self)@.len() == if wanted > old(self)@.len() {
                wanted as int
            } else {
                old(self)@.len() as int
            },
            r is Ok ==> final(self)@.subrange(0, old(self)@.len() as int) == old(self)@,
            r is Err ==> wanted > old(self)@.len() && final(self)@ == old(self)@,
    {
        let additional = wanted.saturating_sub(self.len());
        if additional > 0 {
            match self.try_reserve(additional) {
                Ok(()) => {},
                Err(e) => {
                    return Err(EnlargeError::from(e));
                },
            }
            let ghost start = self@;
            let mut i: usize = 0;
            while i < additional
                invariant
                    0 <= i <= additional,
                    self@.len() == start.len() + i,
                    self@.subrange(0, start.len() as int) == start,
                    known_bytes(self@) == known_bytes(start) + zeros(i as nat),
                decreases additional - i,
            {
                let ghost before = self@;
                let fresh = MaybeUninit::uninit();
                assert(byte_or_zero(fresh) == 0u8);
                self.push(fresh);
                i = i + 1;
                assert(self@.subrange(0, start.len() as int) =~= start);
                assert(known_bytes(self@) =~= known_bytes(before).push(0u8));
                assert(known_bytes(start) + zeros(i as nat) =~= (known_bytes(start) + zeros(
                    (i - 1) as nat,
                )).push(0u8));
            }
        }
        proof {
            assert(self@.subrange(0, old(self)@.len() as int) =~= old(self)@);
            assert(known_bytes(self@).subrange(0, old(self)@.len() as int) =~= known_bytes(
                old(self)@,
            ));
        }
        Ok(())
    }
}

} // verus!
