use gpu_layout::std140::{
    std140_array_metadata, std140_matrix_metadata, std140_struct_metadata,
    std140_vector_metadata,
};
use gpu_layout::{
    std140_align_of, std140_size_of, AlignmentValue, GpuLayout, Metadata, SizeValue, Std140,
};

/// The layout of a four-byte scalar (f32, u32, i32 all share it).
fn scalar() -> Metadata<()> {
    <u32 as GpuLayout<Std140>>::metadata()
}

#[test]
fn check_array_layout() {
    let metadata = <[u32; 3] as GpuLayout<Std140>>::metadata();
    assert_eq!(metadata.extra.stride.get(), 16);
    assert_eq!(metadata.min_size.get(), 16 * 3);
    assert_eq!(metadata.alignment.get(), 16);

    let metadata = <[u32; 4] as GpuLayout<Std140>>::metadata();
    assert_eq!(metadata.alignment.get(), 16);
    assert_eq!(metadata.extra.stride.get(), 16);
    assert_eq!(metadata.min_size.get(), 16 * 4);
}

fn vector(n: u64) -> Metadata<()> {
    std140_vector_metadata(scalar().min_size, n)
}

fn matrix(n: u64) -> Metadata<()> {
    let column = std140_array_metadata(&vector(n), n);
    std140_matrix_metadata(scalar().alignment, n, n, column.is_pod)
}

/// The vector layouts of `n` elements for the three four-byte element kinds: a float (whose
/// layout is that of any four-byte scalar), an unsigned and a signed integer.
fn vectors(n: u64) -> [Metadata<()>; 3] {
    [
        std140_vector_metadata(SizeValue::new(4), n),
        std140_vector_metadata(<u32 as GpuLayout<Std140>>::metadata().min_size, n),
        std140_vector_metadata(<i32 as GpuLayout<Std140>>::metadata().min_size, n),
    ]
}

#[test]
fn check_vec2_layout() {
    for metadata in vectors(2) {
        assert_eq!(metadata.alignment.get(), 8);
        assert_eq!(metadata.min_size.get(), 8);
    }
}

#[test]
fn check_vec3_layout() {
    for metadata in vectors(3) {
        assert_eq!(metadata.alignment.get(), 16);
        assert_eq!(metadata.min_size.get(), 12);
    }
}

#[test]
fn check_vec4_layout() {
    for metadata in vectors(4) {
        assert_eq!(metadata.alignment.get(), 16);
        assert_eq!(metadata.min_size.get(), 16);
    }
}

#[test]
fn check_vec2_array_layout() {
    let metadata = std140_array_metadata(&vector(2), 4);
    assert_eq!(metadata.alignment.get(), 16);
    assert_eq!(metadata.min_size.get(), 4 * 16);
    assert_eq!(metadata.extra.stride.get(), 16);
}

#[test]
fn check_mat2_layout() {
    let metadata = matrix(2);
    assert_eq!(metadata.alignment.get(), 16);
    assert_eq!(metadata.min_size.get(), 16 * 2);
}

#[test]
fn check_mat3_layout() {
    let metadata = matrix(3);
    assert_eq!(metadata.alignment.get(), 16);
    assert_eq!(metadata.min_size.get(), 16 * 3);
}

#[test]
fn check_mat4_layout() {
    let metadata = matrix(4);
    assert_eq!(metadata.alignment.get(), 16);
    assert_eq!(metadata.min_size.get(), 16 * 4);
}

#[test]
fn vector_pod_only_without_tail_padding() {
    assert!(vector(2).is_pod);
    assert!(!vector(3).is_pod);
    assert!(vector(4).is_pod);
}

#[test]
fn matrix_alignment_of_wide_scalars() {
    // Columns of three 8-byte scalars take 24 bytes; they are aligned to 32.
    let m = std140_matrix_metadata(AlignmentValue::new(8), 2, 3, true);
    assert_eq!(m.alignment.get(), 32);
    assert_eq!(m.min_size.get(), 64);
    assert!(m.is_pod);
}

#[test]
fn alignment_padding_and_round_up() {
    let a = AlignmentValue::new(16);
    assert_eq!(a.get(), 16);
    assert_eq!(a.padding_needed_for(0), 0);
    assert_eq!(a.padding_needed_for(20), 12);
    assert_eq!(a.padding_needed_for(32), 0);
    assert_eq!(a.round_up(20), 32);
    assert_eq!(a.round_up(32), 32);
    assert_eq!(a.round_up(1), 16);
    assert_eq!(a.round_up_size(SizeValue::new(12)).get(), 16);
    // Rounding up is idempotent.
    assert_eq!(a.round_up(a.round_up(33)), a.round_up(33));
    // Padding completes a round-up, and rounding keeps order.
    assert_eq!(a.padding_needed_for(20) + 20, a.round_up(20));
    assert!(a.round_up(17) <= a.round_up(33));
    // The least multiple not below 17 is 32: 16 is below it, and 48 above.
    assert_eq!(a.round_up(17), 32);
}

#[test]
fn alignment_max() {
    let m = AlignmentValue::max([
        AlignmentValue::new(4),
        AlignmentValue::new(16),
        AlignmentValue::new(8),
    ]);
    assert_eq!(m.get(), 16);
    assert_eq!(AlignmentValue::max([AlignmentValue::new(2)]).get(), 2);
}

#[test]
fn alignment_from_next_power_of_two() {
    assert_eq!(AlignmentValue::from_next_power_of_two_size(SizeValue::new(1)).get(), 1);
    assert_eq!(AlignmentValue::from_next_power_of_two_size(SizeValue::new(12)).get(), 16);
    assert_eq!(AlignmentValue::from_next_power_of_two_size(SizeValue::new(16)).get(), 16);
    assert_eq!(AlignmentValue::from_next_power_of_two_size(SizeValue::new(17)).get(), 32);
    assert_eq!(
        AlignmentValue::from_next_power_of_two_size(SizeValue::new(1 << 63)).get(),
        1 << 63
    );
}

#[test]
fn size_value_arithmetic() {
    let s = SizeValue::new(12);
    assert_eq!(s.get(), 12);
    assert_eq!(s.mul(3).get(), 36);
    assert_eq!(SizeValue::from(7).get(), 7);
    assert_eq!(SizeValue::new(5), SizeValue::from(5));
}

#[test]
fn metadata_flags() {
    let m = Metadata::from_alignment_and_size(8, 24);
    assert_eq!(m.alignment.get(), 8);
    assert_eq!(m.min_size.get(), 24);
    assert!(!m.is_pod);
    let m = m.pod();
    assert!(m.is_pod);
    assert_eq!(m.min_size().get(), 24);
    let m = Metadata::from_alignment_and_size(8, 24).no_pod();
    // `no_pod` sets the flag, as `pod` does.
    assert!(m.is_pod());
    assert_eq!(Metadata::from_alignment_and_size(8, 24).alignment().get(), 8);
}

#[test]
fn scalar_layouts() {
    assert_eq!(std140_size_of::<u32>(), 4);
    assert_eq!(std140_align_of::<i32>(), 4);
    assert!(scalar().is_pod);
    assert_eq!(std140_size_of::<[i32; 2]>(), 32);
    assert_eq!(std140_align_of::<[[u32; 2]; 3]>(), 16);
    assert_eq!(std140_size_of::<[[u32; 2]; 3]>(), 96);
    assert_eq!(GpuLayout::<Std140>::size(&3u32), 4);
}

#[test]
fn array_metadata_accessors() {
    let m = <[u32; 5] as GpuLayout<Std140>>::metadata();
    assert!(!m.is_pod);
    assert_eq!(m.el_padding(), 12);
    let m = <[u32; 5] as GpuLayout<Std140>>::metadata();
    assert_eq!(m.stride().get(), 16);
    // Elements whose size is a multiple of 16 need no padding.
    let m = <[[u32; 4]; 2] as GpuLayout<Std140>>::metadata();
    assert_eq!(m.extra.el_padding, 0);
    assert_eq!(m.extra.stride.get(), 64);
}

#[test]
fn struct_layout_of_scalar_and_array() {
    // struct { a: u32, ar: [f32; 4] }
    let array = <[u32; 4] as GpuLayout<Std140>>::metadata();
    let s = scalar();
    let m = std140_struct_metadata(&[s.alignment, array.alignment], &[s.min_size, array.min_size]);
    assert_eq!(m.alignment.get(), 16);
    assert_eq!(m.min_size.get(), 80);
    assert!(!m.is_pod);
    assert_eq!(m.extra.offsets, [0, 16]);
    assert_eq!(m.extra.paddings, [12, 0]);
}

#[test]
fn struct_layout_offsets_and_paddings() {
    // struct { a: u32, b: vec2, c: vec3, d: u32 }
    let s = scalar();
    let v2 = vector(2);
    let v3 = vector(3);
    let m = std140_struct_metadata(
        &[s.alignment, v2.alignment, v3.alignment, s.alignment],
        &[s.min_size, v2.min_size, v3.min_size, s.min_size],
    );
    assert_eq!(m.extra.offsets, [0, 8, 16, 28]);
    assert_eq!(m.extra.paddings, [4, 0, 0, 0]);
    assert_eq!(m.alignment.get(), 16);
    assert_eq!(m.min_size.get(), 32);
    let m = std140_struct_metadata(
        &[s.alignment, v2.alignment, v3.alignment, s.alignment],
        &[s.min_size, v2.min_size, v3.min_size, s.min_size],
    );
    assert_eq!(m.offset(2), 16);
    let m = std140_struct_metadata(
        &[s.alignment, v2.alignment, v3.alignment, s.alignment],
        &[s.min_size, v2.min_size, v3.min_size, s.min_size],
    );
    assert_eq!(m.last_offset(), 28);
    let m = std140_struct_metadata(
        &[s.alignment, v2.alignment, v3.alignment, s.alignment],
        &[s.min_size, v2.min_size, v3.min_size, s.min_size],
    );
    assert_eq!(m.padding(0), 4);
}

#[test]
fn struct_layout_single_field() {
    let s = scalar();
    let m = std140_struct_metadata(&[s.alignment], &[s.min_size]);
    assert_eq!(m.extra.offsets, [0]);
    assert_eq!(m.extra.paddings, [0]);
    assert_eq!(m.min_size.get(), 16);
}
