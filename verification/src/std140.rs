//! The std140 layout rules: arrays, vectors, matrices and structs.
use crate::layout::{
    is_next_pow2, is_pow2, lemma_pow2_positive, lemma_round_up, lemma_round_up_pow2, max_int,
    padding_for, round_up_to, AlignmentValue, ArrayMetadata, GpuLayout, GpuLayoutSize, Metadata,
    SizeValue, Std140, StructMetadata, lemma_pow2_divides,
};
use vstd::prelude::*;

verus! {

broadcast use {
    AlignmentValue::lemma_spec_new,
    SizeValue::lemma_spec_new,
    AlignmentValue::lemma_spec_new_of_get,
    SizeValue::lemma_spec_new_of_get,
};

/// The distance between two elements of an array whose elements are `el_size` bytes.
pub open spec fn std140_stride(el_size: int) -> int {
    round_up_to(16, el_size)
}

/// The padding after element `i` of an array laid out from `start`, with elements of `el_size`
/// bytes `stride` bytes apart, holds in `after` the bytes it held in `before`.
pub open spec fn element_padding_kept(
    after: Seq<u8>,
    before: Seq<u8>,
    start: int,
    el_size: int,
    stride: int,
    i: int,
) -> bool {
    forall|j: int|
        start + i * stride + el_size <= j < start + i * stride + stride ==> #[trigger] after[j]
            == before[j]
}

/// Whether an array of `count` elements of `el_size` bytes has a std140 layout.
pub open spec fn std140_array_fits(el_size: int, count: int) -> bool {
    count > 0 && std140_stride(el_size) * count <= u64::MAX
}

/// The std140 layout of an array of `count` elements with the given alignment and size: each
/// element starts on a multiple of 16 bytes.
pub open spec fn std140_array_layout(
    el_alignment: int,
    el_size: int,
    el_is_pod: bool,
    count: int,
) -> Metadata<ArrayMetadata> {
    let stride = std140_stride(el_size);
    let el_padding = stride - el_size;
    Metadata {
        alignment: AlignmentValue::spec_new(round_up_to(16, el_alignment) as u64),
        min_size: SizeValue::spec_new((stride * count) as u64),
        is_pod: el_is_pod && el_padding == 0,
        extra: ArrayMetadata {
            stride: SizeValue::spec_new(stride as u64),
            el_padding: el_padding as u64,
        },
    }
}

/// The 16-byte base alignment.
fn base_alignment() -> (r: AlignmentValue)
    ensures
        r.spec_get() == 16,
{
    proof {
        reveal_with_fuel(is_pow2, 5);
    }
    AlignmentValue::new(16)
}

/// The std140 layout of an array of `count` elements laid out as `element`.
pub fn std140_array_metadata<E>(element: &Metadata<E>, count: u64) -> (m: Metadata<ArrayMetadata>)
    requires
        std140_array_fits(element.min_size.spec_get() as int, count as int),
    ensures
        m == std140_array_layout(
            element.alignment.spec_get() as int,
            element.min_size.spec_get() as int,
            element.is_pod,
            count as int,
        ),
        m.min_size.spec_get() == m.extra.stride.spec_get() * count,
        m.extra.stride.spec_get() == m.extra.el_padding + element.min_size.spec_get(),
        m.extra.stride.spec_get() % 16 == 0,
        m.alignment.spec_get() == max_int(16, element.alignment.spec_get() as int),
        m.is_pod == (element.is_pod && m.extra.el_padding == 0),
        m.extra.el_padding == 0 <==> element.min_size.spec_get() % 16 == 0,
{
    let base_alignment = base_alignment();
    let el_size = element.min_size;
    let el_size_value = el_size.get();
    proof {
        lemma_round_up(16, el_size_value as int);
        let stride = std140_stride(el_size_value as int);
        assert(stride <= stride * count) by (nonlinear_arith)
            requires
                count >= 1,
                stride >= 0,
        ;
    }
    let stride = base_alignment.round_up_size(el_size);
    let el_padding = stride.get() - el_size_value;
    let size = stride.mul(count);
    let el_alignment = element.alignment.get();
    proof {
        reveal_with_fuel(is_pow2, 5);
        lemma_round_up_pow2(16, el_alignment as int);
    }
    let alignment = AlignmentValue::new(base_alignment.round_up(el_alignment));
    Metadata {
        alignment,
        min_size: size,
        is_pod: element.is_pod && el_padding == 0,
        extra: ArrayMetadata { stride, el_padding },
    }
}

/// The std140 layout of a vector of `count` elements of `el_size` bytes: tightly packed, aligned
/// to the smallest power of two that holds it.
pub fn std140_vector_metadata(el_size: SizeValue, count: u64) -> (m: Metadata<()>)
    requires
        2 <= count <= 4,
        el_size.spec_get() * count <= 0x8000_0000_0000_0000u64,
    ensures
        m.min_size.spec_get() == el_size.spec_get() * count,
        is_next_pow2(m.alignment.spec_get() as int, el_size.spec_get() * count),
        m.is_pod == (padding_for(m.alignment.spec_get() as int, el_size.spec_get() * count) == 0),
{
    let size = el_size.mul(count);
    let alignment = AlignmentValue::from_next_power_of_two_size(size);
    let is_pod = alignment.padding_needed_for(size.get()) == 0;
    Metadata { alignment, min_size: size, is_pod, extra: () }
}

/// The std140 layout of a matrix of `columns` columns of `rows` scalars aligned to
/// `scalar_alignment`: each column is aligned to a multiple of 16 bytes.
pub fn std140_matrix_metadata(
    scalar_alignment: AlignmentValue,
    columns: u64,
    rows: u64,
    column_array_is_pod: bool,
) -> (m: Metadata<()>)
    requires
        2 <= columns <= 4,
        2 <= rows <= 4,
        is_pow2(round_up_to(16, scalar_alignment.spec_get() * rows)),
        round_up_to(16, scalar_alignment.spec_get() * rows) * columns <= u64::MAX,
    ensures
        m.alignment.spec_get() == round_up_to(16, scalar_alignment.spec_get() * rows),
        m.min_size.spec_get() == m.alignment.spec_get() * columns,
        m.is_pod == column_array_is_pod,
{
    let base_alignment = base_alignment();
    let a = scalar_alignment.get();
    proof {
        lemma_pow2_positive(a as int);
        lemma_round_up(16, a * rows);
        let r = round_up_to(16, a * rows);
        assert(a * rows <= r <= r * columns) by (nonlinear_arith)
            requires
                a * rows <= r,
                columns >= 1,
                r >= 0,
        ;
    }
    let col_size = a * rows;
    let alignment = AlignmentValue::new(base_alignment.round_up(col_size));
    let size = SizeValue::new(alignment.get() * columns);
    Metadata { alignment, min_size: size, is_pod: column_array_is_pod, extra: () }
}

impl<T: GpuLayout<Std140>, const N: usize> GpuLayout<Std140> for [T; N] {
    type ExtraMetadata = ArrayMetadata;

    open spec fn has_layout() -> bool {
        T::has_layout() && std140_array_fits(T::layout().min_size.spec_get() as int, N as int)
    }

    open spec fn layout() -> Metadata<ArrayMetadata> {
        std140_array_layout(
            T::layout().alignment.spec_get() as int,
            T::layout().min_size.spec_get() as int,
            T::layout().is_pod,
            N as int,
        )
    }

    /// Element `i` lies at `i` strides from the start; the bytes between elements are free.
    open spec fn encodes(&self, bytes: Seq<u8>) -> bool {
        let size = T::layout().min_size.spec_get() as int;
        let stride = std140_stride(size);
        &&& bytes.len() == stride * N
        &&& forall|i: int|
            0 <= i < N ==> #[trigger] self@[i].encodes(
                bytes.subrange(i * stride, i * stride + size),
            )
    }

    proof fn lemma_encoding_unique(a: &Self, b: &Self, bytes: Seq<u8>) {
        let size = T::layout().min_size.spec_get() as int;
        let stride = std140_stride(size);
        assert forall|i: int| 0 <= i < N implies a@[i] == b@[i] by {
            let region = bytes.subrange(i * stride, i * stride + size);
            assert(a@[i].encodes(region));
            assert(b@[i].encodes(region));
            T::lemma_encoding_unique(&a@[i], &b@[i], region);
        }
        assert(*a =~= *b);
    }

    /// The array is plain old data exactly when its element is and no padding follows it.
    fn metadata() -> (m: Metadata<ArrayMetadata>)
        ensures
            m.is_pod == (T::layout().is_pod && T::layout().min_size.spec_get() % 16 == 0),
    {
        let element = T::metadata();
        std140_array_metadata(&element, N as u64)
    }
}

/// An array laid out under std140 is plain old data (its bytes can be copied as they are) exactly
/// when its element is plain old data and no padding follows each element, that is, when the
/// element's size is a multiple of 16 bytes; in particular never when its element is not.
pub proof fn lemma_array_pod<T: GpuLayout<Std140>, const N: usize>()
    requires
        <[T; N] as GpuLayout<Std140>>::has_layout(),
    ensures
        <[T; N] as GpuLayout<Std140>>::layout().extra.el_padding == 0
            <==> T::layout().min_size.spec_get() % 16 == 0,
        <[T; N] as GpuLayout<Std140>>::layout().is_pod <==> (T::layout().is_pod
            && T::layout().min_size.spec_get() % 16 == 0),
        <[T; N] as GpuLayout<Std140>>::layout().is_pod ==> T::layout().is_pod,
{
    let size = T::layout().min_size.spec_get() as int;
    lemma_round_up(16, size);
}

impl<T: GpuLayoutSize<Std140>, const N: usize> GpuLayoutSize<Std140> for [T; N] {

}

/// The alignments of a list of alignment values, as numbers.
pub open spec fn alignment_values(alignments: Seq<AlignmentValue>) -> Seq<int> {
    alignments.map_values(|a: AlignmentValue| a.spec_get() as int)
}

/// The sizes of a list of size values, as numbers.
pub open spec fn size_values(sizes: Seq<SizeValue>) -> Seq<int> {
    sizes.map_values(|s: SizeValue| s.spec_get() as int)
}

/// The offset of field `i` of a struct under std140: the first field starts at 0, and each
/// further field at the first multiple of its alignment after the end of the field before it.
pub open spec fn std140_field_offset(alignments: Seq<int>, sizes: Seq<int>, i: int) -> int
    decreases i,
{
    if i <= 0 {
        0
    } else {
        round_up_to(
            alignments[i],
            std140_field_offset(alignments, sizes, i - 1) + sizes[i - 1],
        )
    }
}

/// The end of field `i`: its offset plus its size.
pub open spec fn std140_field_end(alignments: Seq<int>, sizes: Seq<int>, i: int) -> int {
    std140_field_offset(alignments, sizes, i) + sizes[i]
}

/// The padding that follows field `i`: up to the next field, and none after the last one.
pub open spec fn std140_field_padding(alignments: Seq<int>, sizes: Seq<int>, i: int) -> int {
    if i + 1 < alignments.len() {
        std140_field_offset(alignments, sizes, i + 1) - std140_field_end(alignments, sizes, i)
    } else {
        0
    }
}

/// The alignment of a struct under std140: the largest of 16 and the fields' alignments.
pub open spec fn std140_struct_alignment(alignments: Seq<int>) -> int
    decreases alignments.len(),
{
    if alignments.len() == 0 {
        16
    } else {
        max_int(std140_struct_alignment(alignments.drop_last()), alignments.last())
    }
}

/// The size of a struct under std140: the end of its last field, rounded up to the struct's
/// alignment.
pub open spec fn std140_struct_size(alignments: Seq<int>, sizes: Seq<int>) -> int {
    round_up_to(
        std140_struct_alignment(alignments),
        std140_field_end(alignments, sizes, alignments.len() - 1),
    )
}

/// All values of a list are powers of two.
pub open spec fn all_pow2(alignments: Seq<int>) -> bool {
    forall|i: int| 0 <= i < alignments.len() ==> is_pow2(#[trigger] alignments[i])
}

/// Fields come one after the other: each field ends no later than the next one starts, and the
/// padding between them is less than the next field's alignment.
pub proof fn lemma_std140_fields_in_order(alignments: Seq<int>, sizes: Seq<int>, i: int)
    requires
        all_pow2(alignments),
        sizes.len() == alignments.len(),
        forall|j: int| 0 <= j < sizes.len() ==> #[trigger] sizes[j] >= 0,
        0 <= i,
        i + 1 < alignments.len(),
    ensures
        std140_field_end(alignments, sizes, i) <= std140_field_offset(alignments, sizes, i + 1),
        std140_field_end(alignments, sizes, i) + std140_field_padding(alignments, sizes, i)
            == std140_field_offset(alignments, sizes, i + 1),
        0 <= std140_field_padding(alignments, sizes, i) < alignments[i + 1],
{
    lemma_pow2_positive(alignments[i + 1]);
    lemma_std140_offset_nonnegative(alignments, sizes, i);
    lemma_round_up(alignments[i + 1], std140_field_end(alignments, sizes, i));
}

/// Field offsets are never negative when sizes are not.
pub proof fn lemma_std140_offset_nonnegative(alignments: Seq<int>, sizes: Seq<int>, i: int)
    requires
        all_pow2(alignments),
        sizes.len() == alignments.len(),
        forall|j: int| 0 <= j < sizes.len() ==> #[trigger] sizes[j] >= 0,
        0 <= i < alignments.len(),
    ensures
        0 <= std140_field_offset(alignments, sizes, i),
    decreases i,
{
    if i > 0 {
        lemma_std140_offset_nonnegative(alignments, sizes, i - 1);
        lemma_pow2_positive(alignments[i]);
        lemma_round_up(alignments[i], std140_field_end(alignments, sizes, i - 1));
    }
}

/// Every field starts at a multiple of its own alignment.
pub proof fn lemma_std140_field_aligned(alignments: Seq<int>, sizes: Seq<int>, i: int)
    requires
        all_pow2(alignments),
        sizes.len() == alignments.len(),
        forall|j: int| 0 <= j < sizes.len() ==> #[trigger] sizes[j] >= 0,
        0 <= i < alignments.len(),
    ensures
        std140_field_offset(alignments, sizes, i) % alignments[i] == 0,
{
    assert(is_pow2(alignments[i]));
    lemma_pow2_positive(alignments[i]);
    let a = alignments[i];
    assert(0int % a == 0) by (nonlinear_arith)
        requires
            a > 0,
    ;
    if i > 0 {
        lemma_std140_offset_nonnegative(alignments, sizes, i - 1);
        lemma_round_up(alignments[i], std140_field_end(alignments, sizes, i - 1));
        assert(std140_field_offset(alignments, sizes, i) == round_up_to(
            alignments[i],
            std140_field_end(alignments, sizes, i - 1),
        ));
    }
}

/// Fields further on end further on.
pub proof fn lemma_std140_field_end_monotone(
    alignments: Seq<int>,
    sizes: Seq<int>,
    i: int,
    j: int,
)
    requires
        all_pow2(alignments),
        sizes.len() == alignments.len(),
        forall|k: int| 0 <= k < sizes.len() ==> #[trigger] sizes[k] >= 0,
        0 <= i <= j < alignments.len(),
    ensures
        std140_field_end(alignments, sizes, i) <= std140_field_end(alignments, sizes, j),
        std140_field_offset(alignments, sizes, i) <= std140_field_offset(alignments, sizes, j),
    decreases j - i,
{
    if i < j {
        lemma_std140_field_end_monotone(alignments, sizes, i, j - 1);
        lemma_std140_fields_in_order(alignments, sizes, j - 1);
    }
}

/// The struct alignment is a power of two, at least 16, and a multiple of every field's
/// alignment.
pub proof fn lemma_std140_struct_alignment(alignments: Seq<int>)
    requires
        all_pow2(alignments),
    ensures
        is_pow2(std140_struct_alignment(alignments)),
        std140_struct_alignment(alignments) >= 16,
        forall|i: int|
            0 <= i < alignments.len() ==> #[trigger] alignments[i] <= std140_struct_alignment(
                alignments,
            ) && std140_struct_alignment(alignments) % alignments[i] == 0,
    decreases alignments.len(),
{
    if alignments.len() == 0 {
        reveal_with_fuel(is_pow2, 5);
    } else {
        let rest = alignments.drop_last();
        assert forall|i: int| 0 <= i < rest.len() implies is_pow2(#[trigger] rest[i]) by {
            assert(rest[i] == alignments[i]);
        }
        lemma_std140_struct_alignment(rest);
        let s = std140_struct_alignment(alignments);
        assert(is_pow2(alignments.last()));
        assert forall|i: int| 0 <= i < alignments.len() implies #[trigger] alignments[i] <= s
            && s % alignments[i] == 0 by {
            if i < rest.len() {
                assert(rest[i] == alignments[i]);
            }
            lemma_pow2_divides(alignments[i], s);
        }
    }
}

/// The struct's size is a multiple of its alignment, and no field reaches past it.
pub proof fn lemma_std140_struct_size(alignments: Seq<int>, sizes: Seq<int>)
    requires
        all_pow2(alignments),
        sizes.len() == alignments.len(),
        forall|k: int| 0 <= k < sizes.len() ==> #[trigger] sizes[k] >= 0,
        alignments.len() > 0,
    ensures
        std140_struct_size(alignments, sizes) % std140_struct_alignment(alignments) == 0,
        forall|i: int|
            0 <= i < alignments.len() ==> #[trigger] std140_field_end(alignments, sizes, i)
                <= std140_struct_size(alignments, sizes),
{
    let n = alignments.len() as int;
    lemma_std140_struct_alignment(alignments);
    lemma_pow2_positive(std140_struct_alignment(alignments));
    lemma_std140_offset_nonnegative(alignments, sizes, n - 1);
    lemma_round_up(std140_struct_alignment(alignments), std140_field_end(alignments, sizes, n - 1));
    assert forall|i: int| 0 <= i < n implies #[trigger] std140_field_end(alignments, sizes, i)
        <= std140_struct_size(alignments, sizes) by {
        lemma_std140_field_end_monotone(alignments, sizes, i, n - 1);
    }
}

/// The std140 layout of a struct whose fields have the given alignments and sizes: the offset
/// of each field, the padding after it, the struct's alignment and its size.
pub fn std140_struct_metadata<const N: usize>(
    alignments: &[AlignmentValue; N],
    sizes: &[SizeValue; N],
) -> (m: Metadata<StructMetadata<N>>)
    requires
        N > 0,
        std140_struct_size(alignment_values(alignments@), size_values(sizes@)) <= u64::MAX,
    ensures
        m.alignment.spec_get() == std140_struct_alignment(alignment_values(alignments@)),
        m.min_size.spec_get() == std140_struct_size(
            alignment_values(alignments@),
            size_values(sizes@),
        ),
        !m.is_pod,
        forall|i: int|
            0 <= i < N ==> #[trigger] m.extra.offsets@[i] == std140_field_offset(
                alignment_values(alignments@),
                size_values(sizes@),
                i,
            ),
        forall|i: int|
            0 <= i < N ==> #[trigger] m.extra.paddings@[i] == std140_field_padding(
                alignment_values(alignments@),
                size_values(sizes@),
                i,
            ),
        forall|i: int|
            0 <= i < N ==> (#[trigger] m.extra.offsets@[i] as int) % (
            alignments@[i].spec_get() as int) == 0,
        forall|i: int|
            0 <= i < N - 1 ==> #[trigger] m.extra.offsets@[i] + sizes@[i].spec_get()
                + m.extra.paddings@[i] == m.extra.offsets@[i + 1],
        (m.min_size.spec_get() as int) % (m.alignment.spec_get() as int) == 0,
        m.extra.offsets@[N - 1] + sizes@[N - 1].spec_get() <= m.min_size.spec_get(),
        forall|i: int|
            0 <= i < N ==> (m.alignment.spec_get() as int) % (
            #[trigger] alignments@[i].spec_get() as int) == 0,
{
    let ghost a = alignment_values(alignments@);
    let ghost s = size_values(sizes@);
    let mut struct_alignment = base_alignment();
    let mut i: usize = 0;
    while i < N
        invariant
            0 <= i <= N,
            a == alignment_values(alignments@),
            struct_alignment.spec_get() == std140_struct_alignment(a.take(i as int)),
            forall|j: int| 0 <= j < i ==> is_pow2(#[trigger] a[j]),
        decreases N - i,
    {
        let candidate = alignments[i];
        let c = candidate.get();
        proof {
            assert(a.take(i + 1).drop_last() =~= a.take(i as int));
        }
        if c > struct_alignment.get() {
            struct_alignment = candidate;
        }
        i = i + 1;
    }
    proof {
        assert(a.take(N as int) =~= a);
        assert(all_pow2(a));
        assert forall|k: int| 0 <= k < s.len() implies #[trigger] s[k] >= 0 by {
        }
        lemma_std140_struct_size(a, s);
        lemma_std140_struct_alignment(a);
    }
    let mut paddings: [u64; N] = vstd::array::array_fill_for_copy_types(0u64);
    let mut offsets: [u64; N] = vstd::array::array_fill_for_copy_types(0u64);
    let mut offset: u64 = 0;
    let mut i: usize = 0;
    while i < N
        invariant
            0 <= i <= N,
            a == alignment_values(alignments@),
            s == size_values(sizes@),
            all_pow2(a),
            forall|k: int| 0 <= k < s.len() ==> #[trigger] s[k] >= 0,
            std140_struct_size(a, s) <= u64::MAX,
            forall|k: int|
                0 <= k < N ==> #[trigger] std140_field_end(a, s, k) <= std140_struct_size(a, s),
            i < N ==> offset == if i == 0 {
                0
            } else {
                std140_field_end(a, s, i - 1)
            },
            i == N ==> offset == std140_field_offset(a, s, N - 1),
            i < N ==> forall|k: int| 0 <= k < N ==> #[trigger] offsets@[k] == if k < i {
                std140_field_offset(a, s, k)
            } else {
                0
            },
            i == N ==> forall|k: int|
                0 <= k < N ==> #[trigger] offsets@[k] == std140_field_offset(a, s, k),
            forall|k: int|
                0 <= k < N ==> #[trigger] paddings@[k] == if k + 1 < i {
                    std140_field_padding(a, s, k)
                } else {
                    0
                },
        decreases N - i,
    {
        if i > 0 {
            let alignment = alignments[i];
            proof {
                assert(a[i as int] == alignment.spec_get());
                assert(std140_field_offset(a, s, i as int) == round_up_to(
                    a[i as int],
                    std140_field_end(a, s, i - 1),
                ));
                lemma_std140_offset_nonnegative(a, s, i - 1);
                lemma_round_up(a[i as int], std140_field_end(a, s, i - 1));
                lemma_std140_field_end_monotone(a, s, i as int, i as int);
                lemma_std140_offset_nonnegative(a, s, i as int);
                assert(offset == std140_field_end(a, s, i - 1));
                assert(s[i as int] >= 0);
                assert(std140_field_end(a, s, i as int) <= std140_struct_size(a, s));
                assert(std140_field_offset(a, s, i as int) <= std140_field_end(a, s, i as int));
                assert(round_up_to(alignment.spec_get() as int, offset as int) <= u64::MAX);
            }
            offsets[i] = alignment.round_up(offset);
            let padding = alignment.padding_needed_for(offset);
            offset = offset + padding;
            paddings[i - 1] = padding;
        }
        if i + 1 < N {
            proof {
                lemma_std140_offset_nonnegative(a, s, i as int);
                assert(s[i as int] == sizes@[i as int].spec_get());
                assert(std140_field_end(a, s, i as int) <= std140_struct_size(a, s));
            }
            offset = offset + sizes[i].get();
        }
        i = i + 1;
    }
    let mut end = offsets[N - 1];
    end = end + sizes[N - 1].get();
    let min_size = SizeValue::new(struct_alignment.round_up(end));
    proof {
        assert forall|k: int| 0 <= k < N - 1 implies #[trigger] offsets@[k] + sizes@[k].spec_get()
            + paddings@[k] == offsets@[k + 1] by {
            lemma_std140_fields_in_order(a, s, k);
        }
        assert forall|k: int| 0 <= k < N implies (#[trigger] offsets@[k] as int) % (
        alignments@[k].spec_get() as int) == 0 by {
            assert(a[k] == alignments@[k].spec_get());
            lemma_std140_field_aligned(a, s, k);
        }
        assert forall|k: int| 0 <= k < N implies (struct_alignment.spec_get() as int) % (
        #[trigger] alignments@[k].spec_get() as int) == 0 by {
            assert(a[k] == alignments@[k].spec_get());
        }
    }
    Metadata {
        alignment: struct_alignment,
        min_size,
        is_pod: false,
        extra: StructMetadata { offsets, paddings },
    }
}

} // verus!
