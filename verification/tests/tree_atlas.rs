use xedit::tree_atlas::{tree_atlas_layout, AtlasError, Billboard};

fn solid(w: u32, h: u32, v: u8) -> Vec<u8> {
    vec![v; (w * h * 4) as usize]
}

#[test]
fn billboard_crc_is_the_crc32_of_the_dds_data() {
    let b = Billboard::from_dds(b"123456789", vec![], 0, 0);
    assert_eq!(b.crc32, 0xCBF4_3926);
    assert_eq!(b.crc32, crc32fast::hash(b"123456789"));
}

#[test]
fn no_billboards_is_an_error() {
    let r = tree_atlas_layout(&[], 0);
    assert!(matches!(r, Err(AtlasError::NoValidBillboards)));
    assert_eq!(AtlasError::NoValidBillboards.to_display_string(), "No valid billboard textures found");
}

#[test]
fn equal_textures_share_a_block() {
    let bbs = vec![
        Billboard::from_dds(b"pine", solid(4, 4, 100), 4, 4),
        Billboard::from_dds(b"pine", solid(4, 4, 100), 4, 4),
        Billboard::from_dds(b"oak", solid(2, 2, 250), 2, 2),
    ];
    let a = tree_atlas_layout(&bbs, 10).ok().unwrap();
    assert_eq!((a.width, a.height), (512, 512));
    assert_eq!(a.blocks.len(), 2);
    assert_eq!(a.positions, vec![Some((0, 0)), Some((0, 0)), Some((6, 0))]);
    assert_eq!(a.canvas.len(), 512 * 512 * 4);
    // pixel (0, 0): 100 + 10 on colour channels, alpha kept
    assert_eq!(&a.canvas[0..4], &[110, 110, 110, 100]);
    // pixel (6, 0): 250 + 10 clamped to 255
    let p = 6 * 4;
    assert_eq!(&a.canvas[p..p + 4], &[255, 255, 255, 250]);
    // blank pixel (5, 0): brightness applied to zero
    let q = 5 * 4;
    assert_eq!(&a.canvas[q..q + 4], &[10, 10, 10, 0]);
}

#[test]
fn a_billboard_larger_than_the_largest_atlas_does_not_fit() {
    let bbs = vec![Billboard::from_dds(b"huge", vec![], 9000, 4)];
    assert!(matches!(tree_atlas_layout(&bbs, 0), Err(AtlasError::NotEnoughSpace)));
    assert_eq!(
        AtlasError::NotEnoughSpace.to_display_string(),
        "Can't fit billboards on atlas, not enough space"
    );
}
