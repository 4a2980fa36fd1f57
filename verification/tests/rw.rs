use std::mem::MaybeUninit;
use gpu_layout::{
    AccessError, BufferMut, BufferRef, CreateFrom, ReadFrom, Reader, Std140, WriteInto, Writer,
};

#[test]
fn write_then_read_u32() {
    let value: u32 = 0x0102_0304;
    let mut buf: Vec<u8> = Vec::new();
    let mut writer = Writer::new::<Std140, _>(&value, &mut buf, 0).unwrap();
    WriteInto::<Std140>::write_into(&value, &mut writer);
    assert_eq!(buf, vec![4, 3, 2, 1]);

    let mut reader = Reader::new::<Std140, u32>(&buf, 0).unwrap();
    let mut read: u32 = 0;
    ReadFrom::<Std140>::read_from(&mut read, &mut reader);
    assert_eq!(read, value);
    assert_eq!(reader.remaining(), 0);
}

#[test]
fn write_then_read_i32_at_offset() {
    let value: i32 = -2;
    let mut buf: Vec<u8> = vec![9, 9];
    let mut writer = Writer::new::<Std140, _>(&value, &mut buf, 2).unwrap();
    WriteInto::<Std140>::write_into(&value, &mut writer);
    assert_eq!(buf, vec![9, 9, 0xfe, 0xff, 0xff, 0xff]);

    let mut reader = Reader::new::<Std140, i32>(&buf, 2).unwrap();
    let read: i32 = CreateFrom::<Std140>::create_from(&mut reader);
    assert_eq!(read, -2);
}

#[test]
fn write_then_read_array() {
    let value: [u32; 3] = [1, 2, 0xdead_beef];
    let mut buf: Vec<u8> = Vec::new();
    let mut writer = Writer::new::<Std140, _>(&value, &mut buf, 0).unwrap();
    WriteInto::<Std140>::write_into(&value, &mut writer);
    assert_eq!(buf.len(), 48);
    assert_eq!(&buf[0..4], &[1, 0, 0, 0]);
    assert_eq!(&buf[16..20], &[2, 0, 0, 0]);
    assert_eq!(&buf[32..36], &[0xef, 0xbe, 0xad, 0xde]);
    // Padding bytes of a grown vector are zero.
    assert_eq!(&buf[4..16], &[0; 12]);

    let mut reader = Reader::new::<Std140, [u32; 3]>(&buf, 0).unwrap();
    let mut read = [0u32; 3];
    ReadFrom::<Std140>::read_from(&mut read, &mut reader);
    assert_eq!(read, value);
}

#[test]
fn write_then_read_nested_array() {
    let value: [[i32; 2]; 2] = [[1, -1], [7, -7]];
    let mut buf = [0u8; 64];
    let mut writer = Writer::new::<Std140, _>(&value, &mut buf, 0).unwrap();
    WriteInto::<Std140>::write_into(&value, &mut writer);
    let mut reader = Reader::new::<Std140, [[i32; 2]; 2]>(&buf, 0).unwrap();
    let mut read = [[0i32; 2]; 2];
    ReadFrom::<Std140>::read_from(&mut read, &mut reader);
    assert_eq!(read, value);
}

#[test]
fn reader_rejects_short_buffer() {
    let buf: Vec<u8> = vec![1, 2, 3];
    match Reader::new::<Std140, u32>(&buf, 0) {
        Err(AccessError::BufferTooSmall { expected, found }) => {
            assert_eq!(expected, 4);
            assert_eq!(found, 3);
        }
        Ok(_) => panic!("a 3-byte buffer cannot hold a u32"),
    }
    match Reader::new::<Std140, u32>(&buf, 10) {
        Err(AccessError::BufferTooSmall { expected, found }) => {
            assert_eq!(expected, 4);
            assert_eq!(found, 0);
        }
        Ok(_) => panic!("an offset past the end holds nothing"),
    }
}

#[test]
fn writer_rejects_fixed_buffer_too_small() {
    let value: [u32; 2] = [1, 2];
    let mut buf = [0u8; 16];
    match Writer::new::<Std140, _>(&value, &mut buf, 0) {
        Err(AccessError::BufferTooSmall { expected, found }) => {
            assert_eq!(expected, 32);
            assert_eq!(found, 16);
        }
        Ok(_) => panic!("a 16-byte array cannot hold 32 bytes"),
    }
}

#[test]
fn writer_advance_and_raw_writes() {
    let mut buf: Vec<u8> = vec![0; 8];
    let value: [u32; 1] = [0];
    let mut writer = Writer::new::<Std140, _>(&value, &mut buf, 0).unwrap();
    writer.write(&[1u8, 2]);
    writer.advance(2);
    writer.write_slice(&[3u8, 4, 5]);
    assert_eq!(&buf[0..8], &[1, 2, 0, 0, 3, 4, 5, 0]);
    assert_eq!(buf.len(), 16);
}

#[test]
fn reader_raw_reads() {
    let buf: [u8; 8] = [1, 2, 3, 4, 5, 6, 7, 8];
    let mut reader = Reader::new::<Std140, u32>(&buf, 1).unwrap();
    assert_eq!(reader.remaining(), 7);
    let two: [u8; 2] = reader.read();
    assert_eq!(two, [2, 3]);
    reader.advance(1);
    let mut three = [0u8; 3];
    reader.read_slice(&mut three);
    assert_eq!(three, [5, 6, 7]);
    assert_eq!(reader.remaining(), 1);
}

#[test]
fn buffers_read_and_write() {
    let mut v: Vec<u8> = vec![1, 2];
    assert!(BufferMut::try_enlarge(&mut v, 5).is_ok());
    assert_eq!(v, vec![1, 2, 0, 0, 0]);
    assert!(BufferMut::try_enlarge(&mut v, 3).is_ok());
    assert_eq!(v.len(), 5);
    assert!(BufferMut::capacity(&v) >= 5);
    BufferMut::write(&mut v, 1, &[7u8, 8]);
    assert_eq!(v, vec![1, 7, 8, 0, 0]);
    BufferMut::write_slice(&mut v, 3, &[9u8, 9]);
    assert_eq!(BufferRef::read::<3>(&v, 2), [8, 9, 9]);

    let mut a = [0u8; 4];
    assert!(BufferMut::try_enlarge(&mut a, 5).is_err());
    assert!(BufferMut::try_enlarge(&mut a, 4).is_ok());
    assert_eq!(BufferMut::capacity(&a), 4);
    BufferMut::write_slice(&mut a, 0, &[1u8, 2, 3, 4]);
    let mut out = [0u8; 2];
    BufferRef::read_slice(&a, 2, &mut out);
    assert_eq!(out, [3, 4]);
    assert_eq!(BufferRef::len(&a), 4);

    let s: &[u8] = &[5, 6, 7];
    assert_eq!(BufferRef::len(s), 3);
    assert_eq!(BufferRef::read::<2>(s, 1), [6, 7]);

    let boxed: Box<Vec<u8>> = Box::new(vec![1, 2, 3]);
    assert_eq!(BufferRef::len(&boxed), 3);
    let shared = std::rc::Rc::new(vec![4u8, 5]);
    assert_eq!(BufferRef::read::<1>(&shared, 1), [5]);
    let arc = std::sync::Arc::new([6u8, 7]);
    assert_eq!(BufferRef::len(&arc), 2);
}

#[test]
fn uninit_buffers() {
    let value: [u32; 2] = [5, 6];
    let mut v: Vec<MaybeUninit<u8>> = Vec::new();
    let mut writer = Writer::new::<Std140, _>(&value, &mut v, 4).unwrap();
    WriteInto::<Std140>::write_into(&value, &mut writer);
    assert_eq!(v.len(), 36);
    assert!(BufferMut::capacity(&v) >= 36);

    let mut a = [MaybeUninit::<u8>::uninit(); 8];
    assert!(BufferMut::try_enlarge(&mut a, 9).is_err());
    assert!(BufferMut::try_enlarge(&mut a, 8).is_ok());
    assert_eq!(BufferMut::capacity(&a), 8);
    BufferMut::write(&mut a, 0, &[1u8, 2, 3, 4]);
    let s: &mut [MaybeUninit<u8>] = &mut a;
    assert_eq!(BufferMut::capacity(s), 8);
    assert!(BufferMut::try_enlarge(s, 20).is_err());
    BufferMut::write_slice(s, 4, &[1u8]);
}

#[test]
fn boxed_buffer_grows() {
    let value: u32 = 0xaabb_ccdd;
    let mut boxed: Box<Vec<u8>> = Box::new(Vec::new());
    let mut writer = Writer::new::<Std140, _>(&value, &mut boxed, 0).unwrap();
    WriteInto::<Std140>::write_into(&value, &mut writer);
    assert_eq!(*boxed, vec![0xdd, 0xcc, 0xbb, 0xaa]);
    let mut reader = Reader::new::<Std140, u32>(&boxed, 0).unwrap();
    let read: u32 = CreateFrom::<Std140>::create_from(&mut reader);
    assert_eq!(read, value);
}

#[test]
fn create_array_from_buffer() {
    let value: [i32; 3] = [-1, 0, 1];
    let mut buf: Vec<u8> = Vec::new();
    let mut writer = Writer::new::<Std140, _>(&value, &mut buf, 0).unwrap();
    WriteInto::<Std140>::write_into(&value, &mut writer);
    let mut reader = Reader::new::<Std140, [i32; 3]>(&buf, 0).unwrap();
    let read: [i32; 3] = CreateFrom::<Std140>::create_from(&mut reader);
    assert_eq!(read, value);
    assert_eq!(reader.remaining(), 0);
}

#[test]
fn array_padding_is_stepped_over() {
    let value: [u32; 2] = [2, 3];
    let mut buf = [0xAAu8; 32];
    let mut writer = Writer::new::<Std140, _>(&value, &mut buf[..], 0).unwrap();
    WriteInto::<Std140>::write_into(&value, &mut writer);
    drop(writer);
    assert_eq!(&buf[0..4], &[2, 0, 0, 0]);
    assert_eq!(&buf[4..16], &[0xAA; 12]);
    assert_eq!(&buf[16..20], &[3, 0, 0, 0]);
    assert_eq!(&buf[20..32], &[0xAA; 12]);

    let mut reader = Reader::new::<Std140, [u32; 2]>(&buf[..], 0).unwrap();
    let read: [u32; 2] = CreateFrom::<Std140>::create_from(&mut reader);
    assert_eq!(read, [2, 3]);
    assert_eq!(reader.remaining(), 0);
}

#[test]
fn array_padding_kept_in_owned_buffer() {
    let value: [u32; 2] = [2, 3];
    let mut writer = Writer::new::<Std140, _>(&value, [0xAAu8; 32], 0).unwrap();
    WriteInto::<Std140>::write_into(&value, &mut writer);
    let buf: [u8; 32] = writer.into_buffer();
    let mut expected = [0xAAu8; 32];
    expected[0..4].copy_from_slice(&[2, 0, 0, 0]);
    expected[16..20].copy_from_slice(&[3, 0, 0, 0]);
    assert_eq!(buf, expected);
}

#[test]
fn writer_on_slice_reports_room_from_offset() {
    let mut buf = [0u8; 8];
    assert!(matches!(
        Writer::new::<Std140, _>(&7u32, &mut buf[..], 6),
        Err(AccessError::BufferTooSmall { expected: 4, found: 2 })
    ));
    assert!(Writer::new::<Std140, _>(&7u32, &mut buf[..], 4).is_ok());
    assert!(matches!(
        Writer::new::<Std140, _>(&7u32, &mut buf[..], 10),
        Err(AccessError::BufferTooSmall { expected: 4, found: 0 })
    ));
    assert_eq!(buf, [0u8; 8]);
}

#[test]
fn first_write_lands_at_offset() {
    let mut buf = [0u8; 8];
    let mut writer = Writer::new::<Std140, _>(&0u32, &mut buf[..], 2).unwrap();
    writer.write(&[1, 2, 3, 4]);
    drop(writer);
    assert_eq!(buf, [0, 0, 1, 2, 3, 4, 0, 0]);

    let mut writer = Writer::new::<Std140, _>(&0u32, [0u8; 8], 2).unwrap();
    writer.write(&[1, 2, 3, 4]);
    assert_eq!(writer.into_buffer(), [0, 0, 1, 2, 3, 4, 0, 0]);
}

#[test]
fn vec_writer_grows_with_zeros() {
    let mut buf: Vec<u8> = vec![7, 7, 7];
    let writer = Writer::new::<Std140, _>(&0u32, &mut buf, 4).unwrap();
    drop(writer);
    assert_eq!(buf, vec![7, 7, 7, 0, 0, 0, 0, 0]);

    let mut buf: Vec<u8> = vec![7; 10];
    let writer = Writer::new::<Std140, _>(&0u32, &mut buf, 4).unwrap();
    drop(writer);
    assert_eq!(buf, vec![7; 10]);
}

#[test]
fn vec_round_trip_through_into_buffer() {
    let value: [i32; 2] = [-5, 6];
    let mut writer = Writer::new::<Std140, _>(&value, Vec::new(), 0).unwrap();
    WriteInto::<Std140>::write_into(&value, &mut writer);
    let buf: Vec<u8> = writer.into_buffer();
    assert_eq!(buf.len(), 32);
    let mut reader = Reader::new::<Std140, [i32; 2]>(&buf, 0).unwrap();
    let read: [i32; 2] = CreateFrom::<Std140>::create_from(&mut reader);
    assert_eq!(read, value);
}

#[test]
fn struct_fields_written_and_read_with_padding() {
    // A struct { a: u32, b: [i32; 2] } in std140: a at 0, 12 bytes of padding, b at 16.
    let a: u32 = 0x0a0b_0c0d;
    let b: [i32; 2] = [-1, 5];
    let mut buf = [0x55u8; 48];
    let mut writer = Writer::new::<Std140, _>(&b, &mut buf[..], 0).unwrap();
    gpu_layout::write_field::<Std140, _, _>(&a, 12, &mut writer);
    gpu_layout::write_field::<Std140, _, _>(&b, 0, &mut writer);
    drop(writer);
    assert_eq!(&buf[0..4], &[0x0d, 0x0c, 0x0b, 0x0a]);
    assert_eq!(&buf[4..16], &[0x55; 12]);
    assert_eq!(&buf[16..20], &[0xff; 4]);
    assert_eq!(&buf[20..32], &[0x55; 12]);
    assert_eq!(&buf[32..36], &[5, 0, 0, 0]);
    assert_eq!(&buf[36..48], &[0x55; 12]);

    let mut reader = Reader::new::<Std140, [i32; 2]>(&buf[..], 0).unwrap();
    let mut ra: u32 = 0;
    let mut rb: [i32; 2] = [0, 0];
    gpu_layout::read_field::<Std140, _, _>(&mut ra, 12, &mut reader);
    gpu_layout::read_field::<Std140, _, _>(&mut rb, 0, &mut reader);
    assert_eq!(ra, a);
    assert_eq!(rb, b);
    assert_eq!(reader.remaining(), 0);
}

#[test]
fn byte_buffers_read_what_was_written() {
    let value: [u32; 2] = [7, 8];
    let mut writer = Writer::new::<Std140, _>(&value, Box::new([0u8; 40]), 8).unwrap();
    WriteInto::<Std140>::write_into(&value, &mut writer);
    let buf: Box<[u8; 40]> = writer.into_buffer();
    let mut reader = Reader::new::<Std140, [u32; 2]>(&buf, 8).unwrap();
    let read: [u32; 2] = CreateFrom::<Std140>::create_from(&mut reader);
    assert_eq!(read, value);
    assert_eq!(&buf[0..8], &[0u8; 8]);
}
