use stella_app::label::{
    horizontal_anchor_uses_width, native_system_label_hash, native_system_label_horizontal_anchor,
    native_system_label_vertical_anchor, system_label_lifetime_key, SystemFontRenderBinding,
    SystemLabelPool, LABEL_POOL_BYTE_LIMIT,
};

fn binding() -> SystemFontRenderBinding {
    SystemFontRenderBinding {
        label_pool_epoch: 0,
        family: "ArialRoundedMTBold".to_owned(),
        size: 40,
        fill_rgba: [0, 0, 0, 255],
        stroke_width: 0,
        stroke_rgba: [0, 0, 0, 255],
        style: 0,
        ascending: 37,
        descending: 8,
    }
}

#[test]
fn label_hash_sign_extends_native_aarrggbb_fields() {
    assert_eq!(
        native_system_label_hash(&binding(), "Stella"),
        0x0e93_feaf_8762_57ce
    );
    let mut next_epoch = binding();
    next_epoch.label_pool_epoch = 1;
    assert_ne!(
        system_label_lifetime_key(&binding(), "Stella"),
        system_label_lifetime_key(&next_epoch, "Stella")
    );
}

#[test]
fn lifetime_key_spells_hash_and_epoch_in_fixed_width_hex() {
    let mut font = binding();
    font.label_pool_epoch = 0xab;
    assert_eq!(
        system_label_lifetime_key(&font, "Stella"),
        "<system-font:0e93feaf876257ce@00000000000000ab>"
    );
}

#[test]
fn vertical_anchor_uses_native_wrapping_add_and_signed_half() {
    let mut font = binding();
    font.ascending = i32::MAX;
    font.descending = 2;
    assert_eq!(native_system_label_vertical_anchor(&font, "TOP"), 0);
    assert_eq!(
        native_system_label_vertical_anchor(&font, "VCENTER"),
        -1_073_741_823
    );
    assert_eq!(
        native_system_label_vertical_anchor(&font, "BOTTOM"),
        -2_147_483_647
    );
    assert_eq!(
        native_system_label_vertical_anchor(&font, "BASELINE"),
        i32::MAX
    );
    assert_eq!(native_system_label_vertical_anchor(&font, "VPIVOT"), 0);
    assert_eq!(native_system_label_vertical_anchor(&binding(), "VCENTER"), 22);
}

#[test]
fn horizontal_anchor_measures_only_right_and_center() {
    assert!(horizontal_anchor_uses_width("RIGHT"));
    assert!(horizontal_anchor_uses_width("HCENTER"));
    assert!(!horizontal_anchor_uses_width("LEFT"));
    assert_eq!(native_system_label_horizontal_anchor(101, "RIGHT"), 101);
    assert_eq!(native_system_label_horizontal_anchor(101, "HCENTER"), 50);
    assert_eq!(native_system_label_horizontal_anchor(-3, "HCENTER"), -2);
    assert_eq!(native_system_label_horizontal_anchor(101, "LEFT"), 0);
}

#[test]
fn label_pool_uses_five_mib_fifo_without_hit_reordering() {
    let mut pool = SystemLabelPool::new();
    assert!(pool.enter_epoch(7).is_empty());
    // 512 x 1024 RGBA is 2 MiB.
    let (first, retired) = pool.insert(7, 1, 512, 1024).unwrap();
    assert!(retired.is_empty());
    let (_, retired) = pool.insert(7, 2, 512, 1024).unwrap();
    assert!(retired.is_empty());

    // A hit must not promote hash 1. The third insertion reaches the
    // native limit exactly and therefore still evicts nothing.
    assert_eq!(pool.get(1).unwrap().texture_key, first.texture_key);
    let (_, retired) = pool.insert(7, 3, 512, 512).unwrap();
    assert!(retired.is_empty());
    assert_eq!(pool.bytes(), LABEL_POOL_BYTE_LIMIT);

    // Four more bytes exceed 0x500000, so the oldest is hash 1 even though it
    // was just hit. Hash 2 would be selected by an LRU implementation.
    let (_, retired) = pool.insert(7, 4, 1, 1).unwrap();
    assert_eq!(retired.as_slice(), std::slice::from_ref(&first.texture_key));
    assert!(pool.get(1).is_none());
    assert!(pool.get(2).is_some());
    assert!(pool.get(3).is_some());
    assert!(pool.get(4).is_some());

    // Re-insertion gets a distinct texture identity so a draw that used the
    // evicted texture earlier in this frame cannot be rebound.
    let (reinserted, _) = pool.insert(7, 1, 512, 1024).unwrap();
    assert_ne!(reinserted.texture_key, first.texture_key);
}

#[test]
fn label_pool_epoch_clear_retires_all_cached_labels_and_resets_bytes() {
    let mut pool = SystemLabelPool::new();
    pool.enter_epoch(10);
    let (old, _) = pool.insert(10, 42, 16, 16).unwrap();
    let retired = pool.enter_epoch(11);
    assert_eq!(retired.as_slice(), std::slice::from_ref(&old.texture_key));
    assert_eq!(pool.bytes(), 0);
    assert!(pool.is_empty());
    assert_eq!(pool.len(), 0);

    let (new, _) = pool.insert(11, 42, 16, 16).unwrap();
    assert_ne!(new.texture_key, old.texture_key);
    assert!(pool.enter_epoch(11).is_empty());
    assert_eq!(pool.len(), 1);
}

#[test]
fn label_larger_than_native_pool_limit_is_rejected_safely() {
    let mut pool = SystemLabelPool::new();
    pool.enter_epoch(0);
    let result = pool.insert(0, 1, 1281, 1024);
    assert!(result.is_err());
    assert_eq!(result.unwrap_err().bytes, 1281 * 1024 * 4);
    assert_eq!(pool.bytes(), 0);
    assert!(pool.is_empty());
}

#[test]
fn a_hit_returns_the_cached_label_and_changes_nothing() {
    let mut pool = SystemLabelPool::new();
    pool.enter_epoch(3);
    let (label, _) = pool.insert(3, 9, 10, 10).unwrap();
    assert_eq!(label.width, 10);
    assert_eq!(
        label.texture_key,
        "<system-font:0000000000000009@0000000000000003#0000000000000000>"
    );
    let bytes = pool.bytes();
    let (again, retired) = pool.insert(3, 9, 99, 99).unwrap();
    assert!(retired.is_empty());
    assert_eq!(again.texture_key, label.texture_key);
    assert_eq!(again.width, 10);
    assert_eq!(pool.bytes(), bytes);
    assert_eq!(pool.len(), 1);
}
