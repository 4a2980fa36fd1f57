//! Layout of values in GPU buffers (std140), and the readers and writers that move them.
pub mod layout;
mod array;
pub mod buffers;
mod bytes;
pub mod rw;
pub mod scalar;
pub mod std140;

pub use layout::{
    std140_align_of, std140_size_of, AlignmentValue, ArrayMetadata, GpuLayout, GpuLayoutSize,
    Metadata, SizeValue, Std140, StructMetadata,
};
pub use rw::{
    read_field, write_field, AccessError, BufferMut, BufferRef, ByteBuffer, CreateFrom,
    EnlargeError, ReadFrom, Reader, WriteInto, Writer,
};
