use ssimulacra2_vulkan::gpu_pipeline::{
    check_batch_original, check_batch_variant, downsample_dims, downsample_len, meets_min_size,
    order_variants, scale_chain, BatchError,
};

#[test]
fn photo_sized_image_gets_five_scales() {
    // 128x96: the sixth scale would need the 8x6 fifth scale to be 8x8.
    assert_eq!(
        scale_chain(128, 96),
        vec![(128, 96), (64, 48), (32, 24), (16, 12), (8, 6)]
    );
}

#[test]
fn eight_by_eight_gets_two_scales() {
    assert_eq!(scale_chain(8, 8), vec![(8, 8), (4, 4)]);
}

#[test]
fn large_image_is_capped_at_six_scales() {
    assert_eq!(
        scale_chain(2048, 2048),
        vec![(2048, 2048), (1024, 1024), (512, 512), (256, 256), (128, 128), (64, 64)]
    );
}

#[test]
fn odd_sizes_round_up_when_halved() {
    assert_eq!(scale_chain(15, 9), vec![(15, 9), (8, 5)]);
    assert_eq!(downsample_dims(5, 3), (3, 2));
    assert_eq!(downsample_len(1), 1);
    assert_eq!(downsample_len(0), 0);
    assert_eq!(downsample_len(usize::MAX), usize::MAX / 2 + 1);
}

#[test]
fn images_below_eight_have_no_scale() {
    assert!(scale_chain(7, 100).is_empty());
    assert!(scale_chain(100, 7).is_empty());
    assert!(!meets_min_size(7, 8));
    assert!(meets_min_size(8, 8));
}

#[test]
fn batch_original_rules() {
    assert_eq!(check_batch_original(7, 8, false), Err(BatchError::OriginalTooSmall));
    assert_eq!(check_batch_original(7, 8, true), Err(BatchError::OriginalTooSmall));
    assert_eq!(check_batch_original(8, 8, true), Err(BatchError::OriginalHasAlpha));
    assert_eq!(check_batch_original(128, 96, false), Ok(()));
}

#[test]
fn batch_variant_rules() {
    assert_eq!(
        check_batch_variant(128, 96, 96, 128, false, true),
        Err(BatchError::VariantSizeMismatch)
    );
    assert_eq!(
        check_batch_variant(128, 96, 128, 96, true, true),
        Err(BatchError::VariantHasAlpha)
    );
    assert_eq!(check_batch_variant(128, 96, 128, 96, true, false), Ok(()));
    assert_eq!(check_batch_variant(128, 96, 128, 96, false, true), Ok(()));
}

#[test]
fn variants_run_in_byte_order() {
    let v = vec![
        "vars/v2.png".to_string(),
        "vars/V1.png".to_string(),
        "vars/v10.png".to_string(),
        "vars/v1.png".to_string(),
        "vars/v2.png".to_string(),
    ];
    let mut expected = v.clone();
    expected.sort();
    assert_eq!(order_variants(v), Some(expected));
    assert_eq!(order_variants(vec![]), None);
    assert_eq!(
        order_variants(vec!["b/é.png".to_string(), "b/z.png".to_string()]),
        Some(vec!["b/z.png".to_string(), "b/é.png".to_string()])
    );
}
