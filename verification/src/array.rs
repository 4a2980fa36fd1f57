//! Writing and reading arrays: element after element, each followed by its padding.
use crate::layout::{lemma_round_up, GpuLayout, Std140};
use crate::rw::{BufferMut, BufferRef, CreateFrom, ReadFrom, Reader, WriteInto, Writer};
use std::vec::Vec;
use crate::std140::{element_padding_kept, std140_stride};
use vstd::prelude::*;

verus! {

broadcast use {
    crate::layout::AlignmentValue::lemma_spec_new,
    crate::layout::SizeValue::lemma_spec_new,
};

/// Element regions of an array: with `k < i`, element `k` ends before element `i` starts.
proof fn lemma_element_before(k: int, i: int, stride: int, size: int)
    requires
        0 <= k < i,
        0 <= size <= stride,
    ensures
        k * stride + size <= i * stride,
        0 <= k * stride,
{
    vstd::arithmetic::mul::lemma_mul_inequality(k + 1, i, stride);
    vstd::arithmetic::mul::lemma_mul_is_distributive_add_other_way(stride, k, 1);
    vstd::arithmetic::mul::lemma_mul_nonnegative(k, stride);
}

/// The next element starts one stride after this one.
proof fn lemma_next_element(i: int, n: int, stride: int)
    requires
        0 <= i < n,
        0 <= stride,
    ensures
        (i + 1) * stride == i * stride + stride,
        (i + 1) * stride <= stride * n,
        0 <= i * stride,
        i * stride + stride <= stride * n,
{
    vstd::arithmetic::mul::lemma_mul_is_commutative(n, stride);
    vstd::arithmetic::mul::lemma_mul_is_distributive_add_other_way(stride, i, 1);
    vstd::arithmetic::mul::lemma_mul_inequality(i + 1, n, stride);
    vstd::arithmetic::mul::lemma_mul_nonnegative(i, stride);
}

impl<T: WriteInto<Std140>, const N: usize> WriteInto<Std140> for [T; N] {
    /// The padding after each element is stepped over: its bytes keep what they held.
    fn write_into<B: BufferMut>(&self, writer: &mut Writer<B>)
        ensures
            forall|i: int|
                0 <= i < N ==> #[trigger] element_padding_kept(
                    final(writer).bytes(),
                    old(writer).bytes(),
                    old(writer).position(),
                    T::layout().min_size.spec_get() as int,
                    std140_stride(T::layout().min_size.spec_get() as int),
                    i,
                ),
    {
        let metadata = Self::metadata();
        let el_padding = metadata.el_padding();
        let ghost start = writer.position();
        let ghost initial = writer.bytes();
        let ghost size = T::layout().min_size.spec_get() as int;
        let ghost stride = std140_stride(size);
        proof {
            lemma_round_up(16, size);
            writer.buffer().lemma_mut_len_fits();
        }
        let mut i: usize = 0;
        while i < N
            invariant
                0 <= i <= N,
                T::has_layout(),
                Self::has_layout(),
                0 <= start,
                size == T::layout().min_size.spec_get(),
                stride == std140_stride(size),
                el_padding == stride - size,
                0 <= size <= stride,
                start + stride * N <= initial.len(),
                initial.len() <= usize::MAX,
                writer.position() == start + i * stride,
                writer.bytes().len() == initial.len(),
                forall|j: int|
                    0 <= j < initial.len() && (j < start || start + i * stride <= j)
                        ==> #[trigger] writer.bytes()[j] == initial[j],
                forall|k: int|
                    0 <= k < i ==> #[trigger] self@[k].encodes(
                        writer.bytes().subrange(start + k * stride, start + k * stride + size),
                    ),
                forall|k: int|
                    0 <= k < i ==> #[trigger] element_padding_kept(
                        writer.bytes(),
                        initial,
                        start,
                        size,
                        stride,
                        k,
                    ),
            decreases N - i,
        {
            let ghost before = writer.bytes();
            proof {
                lemma_next_element(i as int, N as int, stride);
            }
            self[i].write_into(writer);
            proof {
                assert forall|k: int| 0 <= k < i implies #[trigger] self@[k].encodes(
                    writer.bytes().subrange(start + k * stride, start + k * stride + size),
                ) by {
                    lemma_element_before(k, i as int, stride, size);
                    assert forall|j: int| start + k * stride <= j < start + k * stride + size
                        implies #[trigger] writer.bytes()[j] == before[j] by {
                        assert(j < start + i * stride);
                        assert(0 <= j < before.len());
                    }
                    assert(writer.bytes().subrange(start + k * stride, start + k * stride + size)
                        =~= before.subrange(start + k * stride, start + k * stride + size));
                }
                assert forall|k: int| 0 <= k <= i implies #[trigger] element_padding_kept(
                    writer.bytes(),
                    initial,
                    start,
                    size,
                    stride,
                    k,
                ) by {
                    if k < i {
                        vstd::arithmetic::mul::lemma_mul_inequality(k + 1, i as int, stride);
                        lemma_next_element(k, N as int, stride);
                        assert(element_padding_kept(before, initial, start, size, stride, k));
                        assert forall|j: int|
                            start + k * stride + size <= j < start + k * stride + stride
                            implies #[trigger] writer.bytes()[j] == initial[j] by {
                            assert(j < start + i * stride);
                            assert(before[j] == initial[j]);
                        }
                    } else {
                        assert forall|j: int|
                            start + k * stride + size <= j < start + k * stride + stride
                            implies #[trigger] writer.bytes()[j] == initial[j] by {
                            assert(writer.bytes()[j] == before[j]);
                        }
                    }
                }
            }
            writer.advance(el_padding as usize);
            i = i + 1;
        }
        proof {
            vstd::arithmetic::mul::lemma_mul_is_commutative(N as int, stride);
            let region = writer.bytes().subrange(start, start + stride * N);
            assert forall|k: int| 0 <= k < N implies #[trigger] self@[k].encodes(
                region.subrange(k * stride, k * stride + size),
            ) by {
                lemma_element_before(k, N as int, stride, size);
                assert(region.subrange(k * stride, k * stride + size) =~= writer.bytes().subrange(
                    start + k * stride,
                    start + k * stride + size,
                ));
            }
        }
    }
}

impl<T: ReadFrom<Std140>, const N: usize> ReadFrom<Std140> for [T; N] {
    fn read_from<B: BufferRef>(&mut self, reader: &mut Reader<B>) {
        let metadata = Self::metadata();
        let el_padding = metadata.el_padding();
        let ghost start = reader.position();
        let ghost bytes = reader.bytes();
        let ghost size = T::layout().min_size.spec_get() as int;
        let ghost stride = std140_stride(size);
        proof {
            lemma_round_up(16, size);
            reader.buffer().lemma_ref_len_fits();
        }
        let mut i: usize = 0;
        while i < N
            invariant
                0 <= i <= N,
                T::has_layout(),
                Self::has_layout(),
                0 <= start,
                size == T::layout().min_size.spec_get(),
                stride == std140_stride(size),
                el_padding == stride - size,
                0 <= size <= stride,
                start + stride * N <= bytes.len(),
                bytes.len() <= usize::MAX,
                reader.position() == start + i * stride,
                reader.bytes() == bytes,
                reader.buffer() == old(reader).buffer(),
                forall|k: int|
                    0 <= k < i ==> #[trigger] self@[k].encodes(
                        bytes.subrange(start + k * stride, start + k * stride + size),
                    ),
            decreases N - i,
        {
            proof {
                lemma_next_element(i as int, N as int, stride);
            }
            self[i].read_from(reader);
            reader.advance(el_padding as usize);
            i = i + 1;
        }
        proof {
            vstd::arithmetic::mul::lemma_mul_is_commutative(N as int, stride);
            let region = bytes.subrange(start, start + stride * N);
            assert forall|k: int| 0 <= k < N implies #[trigger] self@[k].encodes(
                region.subrange(k * stride, k * stride + size),
            ) by {
                lemma_element_before(k, N as int, stride, size);
                assert(region.subrange(k * stride, k * stride + size) =~= bytes.subrange(
                    start + k * stride,
                    start + k * stride + size,
                ));
            }
        }
    }
}

/// Calls `<[T; N]>::try_from` on a vector, which std documents as succeeding exactly when the
/// vector holds `N` elements and then giving them in the same order.
#[verifier::external_body]
fn array_from_vec<T, const N: usize>(items: Vec<T>) -> (r: [T; N])
    requires
        items@.len() == N,
    ensures
        r@ == items@,
{
    <[T; N]>::try_from(items).ok().unwrap()
}

impl<T: CreateFrom<Std140>, const N: usize> CreateFrom<Std140> for [T; N] {
    fn create_from<B: BufferRef>(reader: &mut Reader<B>) -> [T; N] {
        let metadata = Self::metadata();
        let el_padding = metadata.el_padding();
        let ghost start = reader.position();
        let ghost bytes = reader.bytes();
        let ghost size = T::layout().min_size.spec_get() as int;
        let ghost stride = std140_stride(size);
        proof {
            lemma_round_up(16, size);
            reader.buffer().lemma_ref_len_fits();
        }
        let mut items: Vec<T> = Vec::new();
        let mut i: usize = 0;
        while i < N
            invariant
                0 <= i <= N,
                0 <= start,
                T::has_layout(),
                Self::has_layout(),
                size == T::layout().min_size.spec_get(),
                stride == std140_stride(size),
                el_padding == stride - size,
                0 <= size <= stride,
                start + stride * N <= bytes.len(),
                bytes.len() <= usize::MAX,
                reader.position() == start + i * stride,
                reader.bytes() == bytes,
                reader.buffer() == old(reader).buffer(),
                items@.len() == i,
                forall|k: int|
                    0 <= k < i ==> #[trigger] items@[k].encodes(
                        bytes.subrange(start + k * stride, start + k * stride + size),
                    ),
            decreases N - i,
        {
            proof {
                lemma_next_element(i as int, N as int, stride);
            }
            let item = T::create_from(reader);
            items.push(item);
            reader.advance(el_padding as usize);
            i = i + 1;
        }
        let array: [T; N] = array_from_vec(items);
        proof {
            vstd::arithmetic::mul::lemma_mul_is_commutative(N as int, stride);
            let region = bytes.subrange(start, start + stride * N);
            assert forall|k: int| 0 <= k < N implies #[trigger] array@[k].encodes(
                region.subrange(k * stride, k * stride + size),
            ) by {
                lemma_element_before(k, N as int, stride, size);
                assert(array@[k] == items@[k]);
                assert(region.subrange(k * stride, k * stride + size) =~= bytes.subrange(
                    start + k * stride,
                    start + k * stride + size,
                ));
            }
        }
        array
    }
}

} // verus!
