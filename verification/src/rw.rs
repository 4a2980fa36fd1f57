//! Buffers, and the reader and writer that move laid-out values through them.
use crate::layout::GpuLayout;
use vstd::prelude::*;

verus! {

/// `s` with the bytes from `offset` on replaced by `val`.
pub open spec fn overwrite(s: Seq<u8>, offset: int, val: Seq<u8>) -> Seq<u8> {
    s.subrange(0, offset) + val + s.subrange(offset + val.len(), s.len() as int)
}

/// `n` zero bytes.
pub open spec fn zeros(n: nat) -> Seq<u8> {
    Seq::new(n, |i: int| 0u8)
}

/// `s` grown with zero bytes to `wanted` bytes, or `s` itself if it holds that many already.
pub open spec fn enlarged(s: Seq<u8>, wanted: int) -> Seq<u8> {
    if wanted > s.len() {
        s + zeros((wanted - s.len()) as nat)
    } else {
        s
    }
}

/// A value read back from the bytes where a value was written is that value: `write_into`
/// leaves bytes that the written value encodes, `read_from` and `create_from` give a value that
/// the bytes they read encode, and one sequence of bytes encodes one value only.
pub proof fn lemma_read_returns_written<Layout, T: GpuLayout<Layout>>(
    written: &T,
    read: &T,
    bytes: Seq<u8>,
)
    requires
        written.encodes(bytes),
        read.encodes(bytes),
    ensures
        written == read,
{
    T::lemma_encoding_unique(written, read, bytes);
}

/// A value that can be written into a buffer under `Layout`.
pub trait WriteInto<Layout>: GpuLayout<Layout> {
    /// Writes this value at the writer's position and moves the position past it. Only the
    /// bytes the value occupies change.
    fn write_into<B: BufferMut>(&self, writer: &mut Writer<B>)
        requires
            Self::has_layout(),
            old(writer).position() + Self::layout().min_size.spec_get() <= old(
                writer,
            ).bytes().len(),
        ensures
            final(writer).position() == old(writer).position()
                + Self::layout().min_size.spec_get(),
            final(writer).bytes().len() == old(writer).bytes().len(),
            forall|j: int|
                0 <= j < old(writer).bytes().len() && !(old(writer).position() <= j
                    < old(writer).position() + Self::layout().min_size.spec_get())
                    ==> #[trigger] final(writer).bytes()[j] == old(writer).bytes()[j],
            self.encodes(
                final(writer).bytes().subrange(
                    old(writer).position(),
                    old(writer).position() + Self::layout().min_size.spec_get(),
                ),
            ),
    ;
}

/// A value that can be overwritten by what a buffer holds under `Layout`.
pub trait ReadFrom<Layout>: GpuLayout<Layout> {
    /// Replaces this value by the one at the reader's position, and moves the position past it.
    fn read_from<B: BufferRef>(&mut self, reader: &mut Reader<B>)
        requires
            Self::has_layout(),
            old(reader).position() + Self::layout().min_size.spec_get() <= old(
                reader,
            ).bytes().len(),
        ensures
            final(reader).position() == old(reader).position()
                + Self::layout().min_size.spec_get(),
            final(reader).buffer() == old(reader).buffer(),
            final(self).encodes(
                old(reader).bytes().subrange(
                    old(reader).position(),
                    old(reader).position() + Self::layout().min_size.spec_get(),
                ),
            ),
    ;
}

/// A value that can be created from what a buffer holds under `Layout`.
pub trait CreateFrom<Layout>: GpuLayout<Layout> + Sized {
    /// The value at the reader's position; the position moves past it.
    fn create_from<B: BufferRef>(reader: &mut Reader<B>) -> (r: Self)
        requires
            Self::has_layout(),
            old(reader).position() + Self::layout().min_size.spec_get() <= old(
                reader,
            ).bytes().len(),
        ensures
            final(reader).position() == old(reader).position()
                + Self::layout().min_size.spec_get(),
            final(reader).buffer() == old(reader).buffer(),
            r.encodes(
                old(reader).bytes().subrange(
                    old(reader).position(),
                    old(reader).position() + Self::layout().min_size.spec_get(),
                ),
            ),
    ;
}

/// Bytes that can be read.
pub trait BufferRef {
    /// The bytes the buffer holds.
    spec fn ref_bytes(&self) -> Seq<u8>;

    /// A buffer never holds more bytes than a `usize` counts.
    proof fn lemma_ref_len_fits(&self)
        ensures
            self.ref_bytes().len() <= usize::MAX,
    ;

    /// The number of bytes.
    fn len(&self) -> (r: usize)
        ensures
            r == self.ref_bytes().len(),
    ;

    /// The `N` bytes from `offset` on.
    fn read<const N: usize>(&self, offset: usize) -> (r: [u8; N])
        requires
            offset + N <= self.ref_bytes().len(),
        ensures
            r@ == self.ref_bytes().subrange(offset as int, offset + N),
    ;

    /// Fills `val` with the bytes from `offset` on.
    fn read_slice(&self, offset: usize, val: &mut [u8])
        requires
            offset + old(val)@.len() <= self.ref_bytes().len(),
        ensures
            final(val)@ == self.ref_bytes().subrange(offset as int, offset + old(val)@.len()),
    ;
}

/// Bytes that can be written, and that some buffers can grow.
pub trait BufferMut {
    /// The bytes the buffer holds.
    spec fn mut_bytes(&self) -> Seq<u8>;

    /// A buffer never holds more bytes than a `usize` counts.
    proof fn lemma_mut_len_fits(&self)
        ensures
            self.mut_bytes().len() <= usize::MAX,
    ;

    /// The buffer never grows: it can hold just the bytes it holds.
    spec fn is_fixed(&self) -> bool;

    /// How many bytes the buffer can hold; never fewer than it holds, and just those when it is
    /// fixed.
    fn capacity(&self) -> (r: usize)
        ensures
            r >= self.mut_bytes().len(),
            self.is_fixed() ==> r == self.mut_bytes().len(),
    ;

    /// Replaces the `N` bytes from `offset` on by `val`.
    fn write<const N: usize>(&mut self, offset: usize, val: &[u8; N])
        requires
            offset + N <= (*old(self)).mut_bytes().len(),
        ensures
            (*final(self)).mut_bytes() == overwrite((*old(self)).mut_bytes(), offset as int, val@),
            (*final(self)).is_fixed() == (*old(self)).is_fixed(),
    ;

    /// Replaces the bytes from `offset` on by `val`.
    fn write_slice(&mut self, offset: usize, val: &[u8])
        requires
            offset + val@.len() <= (*old(self)).mut_bytes().len(),
        ensures
            (*final(self)).mut_bytes() == overwrite((*old(self)).mut_bytes(), offset as int, val@),
            (*final(self)).is_fixed() == (*old(self)).is_fixed(),
    ;

    /// Makes the buffer hold at least `wanted` bytes where it can, growing it with zero bytes;
    /// a fixed buffer succeeds exactly when it holds that many already, and fails unchanged.
    fn try_enlarge(&mut self, wanted: usize) -> (r: Result<(), EnlargeError>)
        ensures
            r is Ok ==> (*final(self)).mut_bytes() == enlarged(
                (*old(self)).mut_bytes(),
                wanted as int,
            ),
            r is Err ==> (*final(self)).mut_bytes() == (*old(self)).mut_bytes() && wanted > (*old(
                self,
            )).mut_bytes().len(),
            (*old(self)).is_fixed() ==> (r is Ok <==> wanted <= (*old(self)).mut_bytes().len()),
            (*final(self)).is_fixed() == (*old(self)).is_fixed(),
    ;
}

/// A buffer that can be both read and written; reading sees the bytes that writing left.
pub trait ByteBuffer: BufferRef + BufferMut {
    /// The bytes read are the bytes written.
    proof fn lemma_same_bytes(&self)
        ensures
            self.ref_bytes() == self.mut_bytes(),
    ;
}

/// A value written into a buffer and a value read back from the same bytes of it are equal:
/// the law above, for any buffer that is read where it was written.
pub proof fn lemma_buffer_read_returns_written<Layout, T: GpuLayout<Layout>, B: ByteBuffer>(
    written: &T,
    read: &T,
    buffer: &B,
    start: int,
    end: int,
)
    requires
        written.encodes(buffer.mut_bytes().subrange(start, end)),
        read.encodes(buffer.ref_bytes().subrange(start, end)),
    ensures
        written == read,
{
    buffer.lemma_same_bytes();
    T::lemma_encoding_unique(written, read, buffer.mut_bytes().subrange(start, end));
}

/// A buffer could not be made to hold the bytes wanted.
#[derive(Debug, Clone, Copy)]
pub struct EnlargeError;

impl From<std::collections::TryReserveError> for EnlargeError {
    fn from(e: std::collections::TryReserveError) -> (r: Self) {
        EnlargeError
    }
}

impl vstd::std_specs::convert::FromSpecImpl<std::collections::TryReserveError> for EnlargeError {
    open spec fn obeys_from_spec() -> bool {
        true
    }

    open spec fn from_spec(v: std::collections::TryReserveError) -> Self {
        EnlargeError
    }
}

/// A buffer is too small for the value to be read or written.
#[derive(Debug, Clone, Copy)]
pub enum AccessError {
    BufferTooSmall { expected: u64, found: u64 },
}

/// A buffer with a position in it.
struct Cursor<B> {
    buffer: B,
    pos: usize,
}

impl<B> Cursor<B> {
    fn new(buffer: B, offset: usize) -> (r: Self)
        ensures
            r.buffer == buffer,
            r.pos == offset,
    {
        Cursor { buffer, pos: offset }
    }

    fn advance(&mut self, amount: usize)
        requires
            old(self).pos + amount <= usize::MAX,
        ensures
            final(self).pos == old(self).pos + amount,
            final(self).buffer == old(self).buffer,
    {
        self.pos = self.pos + amount;
    }
}

impl<B: BufferRef> Cursor<B> {
    fn remaining(&self) -> (r: usize)
        ensures
            r == if self.pos <= self.buffer.ref_bytes().len() {
                self.buffer.ref_bytes().len() - self.pos
            } else {
                0
            },
    {
        self.buffer.len().saturating_sub(self.pos)
    }

    fn read<const N: usize>(&mut self) -> (r: [u8; N])
        requires
            old(self).pos + N <= old(self).buffer.ref_bytes().len(),
        ensures
            r@ == old(self).buffer.ref_bytes().subrange(old(self).pos as int, old(self).pos + N),
            final(self).pos == old(self).pos + N,
            final(self).buffer == old(self).buffer,
    {
        proof {
            self.buffer.lemma_ref_len_fits();
        }
        let res = self.buffer.read(self.pos);
        self.pos = self.pos + N;
        res
    }

    fn read_slice(&mut self, val: &mut [u8])
        requires
            old(self).pos + old(val)@.len() <= old(self).buffer.ref_bytes().len(),
        ensures
            final(val)@ == old(self).buffer.ref_bytes().subrange(
                old(self).pos as int,
                old(self).pos + old(val)@.len(),
            ),
            final(self).pos == old(self).pos + old(val)@.len(),
            final(self).buffer == old(self).buffer,
    {
        proof {
            self.buffer.lemma_ref_len_fits();
        }
        self.buffer.read_slice(self.pos, val);
        self.pos = self.pos + val.len();
    }
}

impl<B: BufferMut> Cursor<B> {
    fn capacity(&self) -> (r: usize)
        ensures
            r + self.pos >= self.buffer.mut_bytes().len(),
            self.buffer.is_fixed() ==> r == if self.pos <= self.buffer.mut_bytes().len() {
                self.buffer.mut_bytes().len() - self.pos
            } else {
                0
            },
    {
        self.buffer.capacity().saturating_sub(self.pos)
    }

    fn write<const N: usize>(&mut self, val: &[u8; N])
        requires
            old(self).pos + N <= old(self).buffer.mut_bytes().len(),
        ensures
            final(self).buffer.mut_bytes() == overwrite(
                old(self).buffer.mut_bytes(),
                old(self).pos as int,
                val@,
            ),
            final(self).buffer.is_fixed() == old(self).buffer.is_fixed(),
            final(self).pos == old(self).pos + N,
    {
        proof {
            self.buffer.lemma_mut_len_fits();
        }
        self.buffer.write(self.pos, val);
        self.pos = self.pos + N;
    }

    fn write_slice(&mut self, val: &[u8])
        requires
            old(self).pos + val@.len() <= old(self).buffer.mut_bytes().len(),
        ensures
            final(self).buffer.mut_bytes() == overwrite(
                old(self).buffer.mut_bytes(),
                old(self).pos as int,
                val@,
            ),
            final(self).buffer.is_fixed() == old(self).buffer.is_fixed(),
            final(self).pos == old(self).pos + val@.len(),
    {
        proof {
            self.buffer.lemma_mut_len_fits();
        }
        self.buffer.write_slice(self.pos, val);
        self.pos = self.pos + val.len();
    }

    fn try_enlarge(&mut self, wanted: usize) -> (r: Result<(), EnlargeError>)
        ensures
            final(self).pos == old(self).pos,
            r is Ok ==> final(self).buffer.mut_bytes() == enlarged(
                old(self).buffer.mut_bytes(),
                wanted as int,
            ),
            r is Err ==> final(self).buffer.mut_bytes() == old(self).buffer.mut_bytes() && wanted
                > old(self).buffer.mut_bytes().len(),
            old(self).buffer.is_fixed() ==> (r is Ok <==> wanted
                <= old(self).buffer.mut_bytes().len()),
            final(self).buffer.is_fixed() == old(self).buffer.is_fixed(),
    {
        self.buffer.try_enlarge(wanted)
    }
}

/// Writes laid-out values into a buffer, front to back.
pub struct Writer<B> {
    cursor: Cursor<B>,
}

impl<B> Writer<B> {
    /// The position the next value is written at.
    pub closed spec fn pos(&self) -> usize {
        self.cursor.pos
    }

    /// The position the next value is written at.
    pub open spec fn position(&self) -> int {
        self.pos() as int
    }

    /// The buffer written into.
    pub closed spec fn buffer(&self) -> B {
        self.cursor.buffer
    }

    /// Ends the writing and hands back the buffer written into, holding the bytes written.
    /// Where the buffer is a mutable reference, the contracts say what the reference's bytes
    /// are, not that they are those of the value it was borrowed from: an owned buffer handed
    /// back here is the way to read what was written with proof.
    pub fn into_buffer(self) -> (b: B)
        ensures
            b == self.buffer(),
    {
        self.cursor.buffer
    }
}

impl<B: BufferMut> Writer<B> {
    /// The bytes of the buffer written into.
    pub open spec fn bytes(&self) -> Seq<u8> {
        self.buffer().mut_bytes()
    }

    /// A writer that writes `data` into `buffer` at `offset`, once the buffer has been made to
    /// hold it (a growable buffer grows with zero bytes). A fixed buffer gives a writer exactly
    /// when it holds `offset` plus the size of `data` bytes; otherwise the error tells how many
    /// bytes it has from `offset` on.
    pub fn new<Layout, T: ?Sized + GpuLayout<Layout>>(data: &T, buffer: B, offset: usize) -> (r:
        Result<Self, AccessError>)
        requires
            T::has_layout(),
            offset + T::layout().min_size.spec_get() <= usize::MAX,
        ensures
            buffer.is_fixed() ==> (r is Ok <==> offset + T::layout().min_size.spec_get()
                <= buffer.mut_bytes().len()),
            match r {
                Ok(w) => {
                    &&& w.position() == offset
                    &&& w.bytes() == enlarged(
                        buffer.mut_bytes(),
                        offset + T::layout().min_size.spec_get(),
                    )
                    &&& w.buffer().is_fixed() == buffer.is_fixed()
                },
                Err(AccessError::BufferTooSmall { expected, found }) => {
                    &&& expected == T::layout().min_size.spec_get()
                    &&& buffer.mut_bytes().len() < offset + T::layout().min_size.spec_get()
                    &&& found + offset >= buffer.mut_bytes().len()
                    &&& buffer.is_fixed() ==> found == if offset <= buffer.mut_bytes().len() {
                        buffer.mut_bytes().len() - offset
                    } else {
                        0
                    }
                },
            },
    {
        let mut cursor = Cursor::new(buffer, offset);
        let size = data.size();
        match cursor.try_enlarge(offset + size as usize) {
            Ok(()) => Ok(Writer { cursor }),
            Err(_) => {
                let found = cursor.capacity() as u64;
                Err(AccessError::BufferTooSmall { expected: size, found })
            },
        }
    }

    /// Skips `amount` bytes.
    pub fn advance(&mut self, amount: usize)
        requires
            old(self).position() + amount <= usize::MAX,
        ensures
            final(self).position() == old(self).position() + amount,
            final(self).buffer() == old(self).buffer(),
    {
        self.cursor.advance(amount);
    }

    /// Writes `val` at the position and moves past it.
    pub fn write<const N: usize>(&mut self, val: &[u8; N])
        requires
            old(self).position() + N <= old(self).bytes().len(),
        ensures
            final(self).bytes() == overwrite(old(self).bytes(), old(self).position(), val@),
            final(self).buffer().is_fixed() == old(self).buffer().is_fixed(),
            final(self).position() == old(self).position() + N,
    {
        self.cursor.write(val);
    }

    /// Writes `val` at the position and moves past it.
    pub fn write_slice(&mut self, val: &[u8])
        requires
            old(self).position() + val@.len() <= old(self).bytes().len(),
        ensures
            final(self).bytes() == overwrite(old(self).bytes(), old(self).position(), val@),
            final(self).buffer().is_fixed() == old(self).buffer().is_fixed(),
            final(self).position() == old(self).position() + val@.len(),
    {
        self.cursor.write_slice(val);
    }
}

/// One step of writing a struct: writes `field` at the writer's position, then steps over the
/// `padding` bytes that follow it in the struct, leaving them as they were.
pub fn write_field<Layout, F: WriteInto<Layout>, B: BufferMut>(
    field: &F,
    padding: u64,
    writer: &mut Writer<B>,
)
    requires
        F::has_layout(),
        old(writer).position() + F::layout().min_size.spec_get() <= old(writer).bytes().len(),
        old(writer).position() + F::layout().min_size.spec_get() + padding <= usize::MAX,
    ensures
        final(writer).position() == old(writer).position() + F::layout().min_size.spec_get()
            + padding,
        final(writer).bytes().len() == old(writer).bytes().len(),
        forall|j: int|
            0 <= j < old(writer).bytes().len() && !(old(writer).position() <= j
                < old(writer).position() + F::layout().min_size.spec_get())
                ==> #[trigger] final(writer).bytes()[j] == old(writer).bytes()[j],
        field.encodes(
            final(writer).bytes().subrange(
                old(writer).position(),
                old(writer).position() + F::layout().min_size.spec_get(),
            ),
        ),
{
    field.write_into(writer);
    writer.advance(padding as usize);
}

/// One step of reading a struct: replaces `field` by the value at the reader's position, then
/// steps over the `padding` bytes that follow it in the struct.
pub fn read_field<Layout, F: ReadFrom<Layout>, B: BufferRef>(
    field: &mut F,
    padding: u64,
    reader: &mut Reader<B>,
)
    requires
        F::has_layout(),
        old(reader).position() + F::layout().min_size.spec_get() <= old(reader).bytes().len(),
        old(reader).position() + F::layout().min_size.spec_get() + padding <= usize::MAX,
    ensures
        final(reader).position() == old(reader).position() + F::layout().min_size.spec_get()
            + padding,
        final(reader).buffer() == old(reader).buffer(),
        final(field).encodes(
            old(reader).bytes().subrange(
                old(reader).position(),
                old(reader).position() + F::layout().min_size.spec_get(),
            ),
        ),
{
    field.read_from(reader);
    reader.advance(padding as usize);
}

/// Reads laid-out values from a buffer, front to back.
pub struct Reader<B> {
    cursor: Cursor<B>,
}

impl<B> Reader<B> {
    /// The position the next value is read from.
    pub closed spec fn pos(&self) -> usize {
        self.cursor.pos
    }

    /// The position the next value is read from.
    pub open spec fn position(&self) -> int {
        self.pos() as int
    }

    /// The buffer read from.
    pub closed spec fn buffer(&self) -> B {
        self.cursor.buffer
    }
}

impl<B: BufferRef> Reader<B> {
    /// The bytes of the buffer read from.
    pub open spec fn bytes(&self) -> Seq<u8> {
        self.buffer().ref_bytes()
    }

    /// A reader of a `T` at `offset` in `buffer`, if the buffer holds one there.
    pub fn new<Layout, T: ?Sized + GpuLayout<Layout>>(buffer: B, offset: usize) -> (r: Result<
        Self,
        AccessError,
    >)
        requires
            T::has_layout(),
            T::layout().min_size.spec_get() <= usize::MAX,
        ensures
            r is Ok <==> offset + T::layout().min_size.spec_get() <= buffer.ref_bytes().len(),
            match r {
                Ok(rd) => rd.position() == offset && rd.buffer() == buffer,
                Err(AccessError::BufferTooSmall { expected, found }) => {
                    &&& expected == T::layout().min_size.spec_get()
                    &&& found == if offset <= buffer.ref_bytes().len() {
                        buffer.ref_bytes().len() - offset
                    } else {
                        0
                    }
                },
            },
    {
        let cursor = Cursor::new(buffer, offset);
        let metadata = T::metadata();
        let size = metadata.min_size().get();
        if cursor.remaining() < size as usize {
            Err(AccessError::BufferTooSmall { expected: size, found: cursor.remaining() as u64 })
        } else {
            Ok(Reader { cursor })
        }
    }

    /// Skips `amount` bytes.
    pub fn advance(&mut self, amount: usize)
        requires
            old(self).position() + amount <= usize::MAX,
        ensures
            final(self).position() == old(self).position() + amount,
            final(self).buffer() == old(self).buffer(),
    {
        self.cursor.advance(amount);
    }

    /// The number of bytes from the position to the end of the buffer.
    pub fn remaining(&self) -> (r: usize)
        ensures
            r == if self.position() <= self.bytes().len() {
                self.bytes().len() - self.position()
            } else {
                0
            },
    {
        self.cursor.remaining()
    }

    /// The `N` bytes at the position; the position moves past them.
    pub fn read<const N: usize>(&mut self) -> (r: [u8; N])
        requires
            old(self).position() + N <= old(self).bytes().len(),
        ensures
            r@ == old(self).bytes().subrange(old(self).position(), old(self).position() + N),
            final(self).position() == old(self).position() + N,
            final(self).buffer() == old(self).buffer(),
    {
        self.cursor.read()
    }

    /// Fills `val` with the bytes at the position; the position moves past them.
    pub fn read_slice(&mut self, val: &mut [u8])
        requires
            old(self).position() + old(val)@.len() <= old(self).bytes().len(),
        ensures
            final(val)@ == old(self).bytes().subrange(
                old(self).position(),
                old(self).position() + old(val)@.len(),
            ),
            final(self).position() == old(self).position() + old(val)@.len(),
            final(self).buffer() == old(self).buffer(),
    {
        self.cursor.read_slice(val)
    }
}

} // verus!
