use ssimulacra2_vulkan::pipeline::{plan_dispatch, spv_words, split_groups, workgroup_count};
use ssimulacra2_vulkan::bytes::words_to_le_bytes;
use ssimulacra2_vulkan::blur::blur_push_bytes;

#[test]
fn split_groups_arithmetic() {
    // fits in x: single row
    assert_eq!(split_groups(576, 65535), (576, 1));
    // llvmpipe minimum at 2048^2 mul_planes (3*2048^2/64 = 196608 groups)
    assert_eq!(split_groups(196608, 65535), (65535, 4));
    // flat index reconstruction must round-trip: gx*64 is the row stride
    let (gx, gy) = split_groups(196608, 65535);
    assert!((gx as u64) * (gy as u64) >= 196608);
    assert!((gx as u64) * ((gy - 1) as u64) < 196608, "gy minimal");
    // edge cases
    assert_eq!(split_groups(1, 65535), (1, 1));
    assert_eq!(split_groups(0, 65535), (1, 0)); // never dispatched; must not panic
    assert_eq!(split_groups(131070, 65535), (65535, 2));
    assert_eq!(split_groups(65536, 65535), (65535, 2));
    // degenerate max_x clamps to 1
    assert_eq!(split_groups(5, 0), (1, 5));
}

#[test]
fn split_groups_covers_at_the_extremes() {
    assert_eq!(split_groups(u32::MAX, u32::MAX), (u32::MAX, 1));
    assert_eq!(split_groups(u32::MAX, 65535), (65535, 65537));
    assert_eq!(split_groups(u32::MAX, 1), (1, u32::MAX));
    for (n, m) in [(7u32, 3u32), (9, 3), (100, 7), (65535, 65535)] {
        let (gx, gy) = split_groups(n, m);
        assert!(gx <= m);
        assert!((gx as u64) * (gy as u64) >= n as u64);
        assert!((gx as u64) * ((gy - 1) as u64) < n as u64);
    }
}

#[test]
fn workgroup_count_is_ceiling_of_sixty_fourths() {
    assert_eq!(workgroup_count(0), 0);
    assert_eq!(workgroup_count(1), 1);
    assert_eq!(workgroup_count(64), 1);
    assert_eq!(workgroup_count(65), 2);
    assert_eq!(workgroup_count(3 * 2048 * 2048), 196608);
    assert_eq!(workgroup_count(u32::MAX), 67108864);
}

#[test]
fn spv_words_are_little_endian() {
    let bytes = [0x03u8, 0x02, 0x23, 0x07, 0x00, 0x00, 0x01, 0x00];
    assert_eq!(spv_words(&bytes), vec![0x07230203u32, 0x00010000]);
    assert_eq!(spv_words(&[]), Vec::<u32>::new());
}

#[test]
fn words_survive_a_byte_roundtrip() {
    let words = [0u32, 1, 0xdeadbeef, u32::MAX, 0x01020304];
    let bytes = words_to_le_bytes(&words);
    assert_eq!(bytes.len(), 20);
    assert_eq!(&bytes[16..20], &[4u8, 3, 2, 1]);
    assert_eq!(spv_words(&bytes), words.to_vec());
}

#[test]
fn blur_push_constants_are_width_height_radius() {
    let p = blur_push_bytes(128, 96, 5);
    assert_eq!(p, vec![128u8, 0, 0, 0, 96, 0, 0, 0, 5, 0, 0, 0]);
    let q = blur_push_bytes(0x01020304, 0xa0b0c0d0, 0);
    assert_eq!(&q[0..8], &[4u8, 3, 2, 1, 0xd0, 0xc0, 0xb0, 0xa0]);
}

#[test]
fn dispatch_beyond_the_y_limit_is_refused() {
    assert_eq!(plan_dispatch(196608, 65535, 65535), Some((65535, 4)));
    assert_eq!(plan_dispatch(196608, 65535, 4), Some((65535, 4)));
    assert_eq!(plan_dispatch(196608, 65535, 3), None);
    assert_eq!(plan_dispatch(0, 65535, 0), Some((1, 0)));
    assert_eq!(plan_dispatch(u32::MAX, 1, 65535), None);
}
