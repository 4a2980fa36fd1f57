//! The 32-bit integer scalars: four bytes, aligned to four, stored little-endian.
//!
//! Only the plain integers have a layout here. `Option<NonZeroU32>` and `Option<NonZeroI32>`
//! have none: Verus cannot be told of `NonZero<T>`, whose parameter carries a bound on a trait
//! that is not stable, so no contract can speak of one. Nor do `Wrapping<u32>`,
//! `Wrapping<i32>` and the 32-bit atomics: Verus sees an outside type only as an opaque value,
//! so no contract could say which number such a value holds or which bytes encode it. A caller
//! with one of these writes and reads the integer inside it.
use crate::layout::{is_pow2, AlignmentValue, GpuLayout, GpuLayoutSize, Metadata, SizeValue};
use crate::rw::{overwrite, BufferMut, BufferRef, CreateFrom, ReadFrom, Reader, WriteInto, Writer};
use vstd::prelude::*;

verus! {

broadcast use {AlignmentValue::lemma_spec_new, SizeValue::lemma_spec_new};

/// The four little-endian bytes of `x`.
pub open spec fn u32_le_bytes(x: u32) -> Seq<u8> {
    seq![
        (x & 0xff) as u8,
        ((x >> 8u32) & 0xff) as u8,
        ((x >> 16u32) & 0xff) as u8,
        ((x >> 24u32) & 0xff) as u8,
    ]
}

/// The number whose little-endian bytes are the first four of `b`.
pub open spec fn u32_from_le_bytes(b: Seq<u8>) -> u32 {
    (b[0] as u32) | ((b[1] as u32) << 8u32) | ((b[2] as u32) << 16u32) | ((b[3] as u32)
        << 24u32)
}

/// The layout of every 32-bit scalar: four bytes aligned to four, copied as they lie.
pub open spec fn scalar_layout() -> Metadata<()> {
    Metadata {
        alignment: AlignmentValue::spec_new(4),
        min_size: SizeValue::spec_new(4),
        is_pod: true,
        extra: (),
    }
}

/// Reading back the bytes of a number gives the number.
pub proof fn lemma_u32_le_round_trip(x: u32)
    ensures
        u32_from_le_bytes(u32_le_bytes(x)) == x,
        u32_le_bytes(x).len() == 4,
{
    let b0 = (x & 0xff) as u8;
    let b1 = ((x >> 8u32) & 0xff) as u8;
    let b2 = ((x >> 16u32) & 0xff) as u8;
    let b3 = ((x >> 24u32) & 0xff) as u8;
    assert((b0 as u32) | ((b1 as u32) << 8u32) | ((b2 as u32) << 16u32) | ((b3 as u32) << 24u32)
        == x) by (bit_vector)
        requires
            b0 == (x & 0xff) as u8,
            b1 == ((x >> 8u32) & 0xff) as u8,
            b2 == ((x >> 16u32) & 0xff) as u8,
            b3 == ((x >> 24u32) & 0xff) as u8,
    ;
}

/// Any four bytes are the little-endian bytes of the number they spell.
pub proof fn lemma_u32_le_of_bytes(b: Seq<u8>)
    requires
        b.len() == 4,
    ensures
        u32_le_bytes(u32_from_le_bytes(b)) == b,
{
    let x = u32_from_le_bytes(b);
    let b0 = b[0];
    let b1 = b[1];
    let b2 = b[2];
    let b3 = b[3];
    assert(((x & 0xff) as u8 == b0) && (((x >> 8u32) & 0xff) as u8 == b1) && (((x >> 16u32)
        & 0xff) as u8 == b2) && (((x >> 24u32) & 0xff) as u8 == b3)) by (bit_vector)
        requires
            x == (b0 as u32) | ((b1 as u32) << 8u32) | ((b2 as u32) << 16u32) | ((b3 as u32)
                << 24u32),
    ;
    assert(u32_le_bytes(x) =~= b);
}

/// Two numbers with the same bytes are equal.
pub proof fn lemma_u32_le_injective(x: u32, y: u32)
    requires
        u32_le_bytes(x) == u32_le_bytes(y),
    ensures
        x == y,
{
    lemma_u32_le_round_trip(x);
    lemma_u32_le_round_trip(y);
}

/// The four little-endian bytes of `x`.
fn u32_to_le(x: u32) -> (r: [u8; 4])
    ensures
        r@ == u32_le_bytes(x),
{
    let r = [
        (x & 0xff) as u8,
        ((x >> 8u32) & 0xff) as u8,
        ((x >> 16u32) & 0xff) as u8,
        ((x >> 24u32) & 0xff) as u8,
    ];
    assert(r@ =~= u32_le_bytes(x));
    r
}

/// The number whose little-endian bytes are `b`.
fn u32_from_le(b: [u8; 4]) -> (r: u32)
    ensures
        r == u32_from_le_bytes(b@),
{
    (b[0] as u32) | ((b[1] as u32) << 8u32) | ((b[2] as u32) << 16u32) | ((b[3] as u32) << 24u32)
}

/// The scalar layout, built.
fn scalar_metadata() -> (m: Metadata<()>)
    ensures
        m == scalar_layout(),
{
    proof {
        reveal_with_fuel(is_pow2, 3);
    }
    Metadata::from_alignment_and_size(4, 4).pod()
}

impl<Layout> GpuLayout<Layout> for u32 {
    type ExtraMetadata = ();

    open spec fn has_layout() -> bool {
        true
    }

    open spec fn layout() -> Metadata<()> {
        scalar_layout()
    }

    open spec fn encodes(&self, bytes: Seq<u8>) -> bool {
        bytes == u32_le_bytes(*self)
    }

    proof fn lemma_encoding_unique(a: &Self, b: &Self, bytes: Seq<u8>) {
        lemma_u32_le_injective(*a, *b);
    }

    fn metadata() -> Metadata<()> {
        scalar_metadata()
    }
}

impl<Layout> GpuLayoutSize<Layout> for u32 {

}

impl<Layout> WriteInto<Layout> for u32 {
    fn write_into<B: BufferMut>(&self, writer: &mut Writer<B>) {
        let bytes = u32_to_le(*self);
        writer.write(&bytes);
        proof {
            let p = old(writer).position();
            assert(writer.bytes().subrange(p, p + 4) =~= u32_le_bytes(*self));
        }
    }
}

impl<Layout> ReadFrom<Layout> for u32 {
    fn read_from<B: BufferRef>(&mut self, reader: &mut Reader<B>) {
        let bytes: [u8; 4] = reader.read();
        *self = u32_from_le(bytes);
        proof {
            lemma_u32_le_of_bytes(bytes@);
        }
    }
}

impl<Layout> CreateFrom<Layout> for u32 {
    fn create_from<B: BufferRef>(reader: &mut Reader<B>) -> u32 {
        let bytes: [u8; 4] = reader.read();
        proof {
            lemma_u32_le_of_bytes(bytes@);
        }
        u32_from_le(bytes)
    }
}

impl<Layout> GpuLayout<Layout> for i32 {
    type ExtraMetadata = ();

    open spec fn has_layout() -> bool {
        true
    }

    open spec fn layout() -> Metadata<()> {
        scalar_layout()
    }

    open spec fn encodes(&self, bytes: Seq<u8>) -> bool {
        bytes == u32_le_bytes(*self as u32)
    }

    proof fn lemma_encoding_unique(a: &Self, b: &Self, bytes: Seq<u8>) {
        let x = *a;
        let y = *b;
        lemma_u32_le_injective(x as u32, y as u32);
        assert(x == y) by (bit_vector)
            requires
                x as u32 == y as u32,
        ;
    }

    fn metadata() -> Metadata<()> {
        scalar_metadata()
    }
}

impl<Layout> GpuLayoutSize<Layout> for i32 {

}

impl<Layout> WriteInto<Layout> for i32 {
    fn write_into<B: BufferMut>(&self, writer: &mut Writer<B>) {
        let bytes = u32_to_le(*self as u32);
        writer.write(&bytes);
        proof {
            let p = old(writer).position();
            assert(writer.bytes().subrange(p, p + 4) =~= u32_le_bytes(*self as u32));
        }
    }
}

/// The signed number with the bits of `x`.
fn i32_from_bits(x: u32) -> (r: i32)
    ensures
        r as u32 == x,
{
    let r = x as i32;
    assert(r as u32 == x) by (bit_vector)
        requires
            r == x as i32,
    ;
    r
}

impl<Layout> ReadFrom<Layout> for i32 {
    fn read_from<B: BufferRef>(&mut self, reader: &mut Reader<B>) {
        let bytes: [u8; 4] = reader.read();
        *self = i32_from_bits(u32_from_le(bytes));
        proof {
            lemma_u32_le_of_bytes(bytes@);
        }
    }
}

impl<Layout> CreateFrom<Layout> for i32 {
    fn create_from<B: BufferRef>(reader: &mut Reader<B>) -> i32 {
        let bytes: [u8; 4] = reader.read();
        proof {
            lemma_u32_le_of_bytes(bytes@);
        }
        i32_from_bits(u32_from_le(bytes))
    }
}

} // verus!
