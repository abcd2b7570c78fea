use xedit::trees::{TreeBlock, TreeFileError, TreeRef, TreeType, TreeTypeBlock, TreeTypeList};

fn bits(v: f32) -> u32 {
    v.to_bits()
}

#[test]
fn test_lst_roundtrip() {
    let lst = TreeTypeList {
        types: vec![
            TreeType {
                index: 0,
                width: bits(150.0),
                height: bits(127.0),
                uv_min_x: bits(0.53125),
                uv_min_y: bits(0.0),
                uv_max_x: bits(0.859375),
                uv_max_y: bits(0.25),
                unknown: 0,
            },
            TreeType {
                index: 1,
                width: bits(140.0),
                height: bits(110.0),
                uv_min_x: bits(0.0),
                uv_min_y: bits(0.0),
                uv_max_x: bits(0.5),
                uv_max_y: bits(0.335938),
                unknown: 0,
            },
        ],
    };

    let data = lst.write().unwrap();
    assert_eq!(data.len(), 68);

    let parsed = TreeTypeList::parse(&data).unwrap();
    assert_eq!(parsed.types.len(), 2);
    assert_eq!(parsed.types[0].index, 0);
    assert!((f32::from_bits(parsed.types[0].width) - 150.0).abs() < 0.01);
    assert_eq!(parsed.types[1].index, 1);
}

#[test]
fn test_dtl_roundtrip() {
    let block = TreeBlock {
        type_blocks: vec![TreeTypeBlock {
            type_index: 1,
            refs: vec![
                TreeRef {
                    x: bits(27000.0),
                    y: bits(19300.0),
                    z: bits(4900.0),
                    rotation: bits(1.89),
                    scale: bits(1.05),
                    ref_form_id: 0x000E3FAB,
                    unknown1: 0,
                    unknown2: 0,
                },
                TreeRef {
                    x: bits(27200.0),
                    y: bits(19500.0),
                    z: bits(4850.0),
                    rotation: bits(0.5),
                    scale: bits(1.1),
                    ref_form_id: 0x000E3FAC,
                    unknown1: 0,
                    unknown2: 0,
                },
            ],
        }],
    };

    let data = block.write().unwrap();
    assert_eq!(data.len(), 76);

    let parsed = TreeBlock::parse(&data).unwrap();
    assert_eq!(parsed.type_blocks.len(), 1);
    assert_eq!(parsed.type_blocks[0].type_index, 1);
    assert_eq!(parsed.type_blocks[0].refs.len(), 2);
    assert_eq!(parsed.type_blocks[0].refs[0].ref_form_id, 0x000E3FAB);
}

#[test]
fn lst_errors() {
    assert_eq!(TreeTypeList::parse(&[1, 0]).unwrap_err(), TreeFileError::UnexpectedEnd);
    let mut data = 2i32.to_le_bytes().to_vec();
    data.extend_from_slice(&[0u8; 40]);
    assert_eq!(
        TreeTypeList::parse(&data).unwrap_err(),
        TreeFileError::TooShort { len: 44, expected: 68, count: 2 }
    );
    // Trailing bytes after the declared entries are ignored.
    let mut data = 1i32.to_le_bytes().to_vec();
    data.extend_from_slice(&[7u8; 35]);
    let l = TreeTypeList::parse(&data).unwrap();
    assert_eq!(l.types.len(), 1);
    assert_eq!(l.types[0].index, 0x0707_0707);
    assert_eq!(TreeType::SIZE, 32);
}

#[test]
fn dtl_errors_and_negative_fields() {
    assert_eq!(TreeBlock::parse(&[]).unwrap_err(), TreeFileError::UnexpectedEnd);
    // One type block declared, only its type index present.
    let mut data = 1i32.to_le_bytes().to_vec();
    data.extend_from_slice(&5i32.to_le_bytes());
    assert_eq!(TreeBlock::parse(&data).unwrap_err(), TreeFileError::UnexpectedEnd);
    // A reference is cut short.
    data.extend_from_slice(&1i32.to_le_bytes());
    data.extend_from_slice(&[0u8; 31]);
    assert_eq!(TreeBlock::parse(&data).unwrap_err(), TreeFileError::UnexpectedEnd);

    let block = TreeBlock {
        type_blocks: vec![
            TreeTypeBlock { type_index: -3, refs: vec![] },
            TreeTypeBlock {
                type_index: 2,
                refs: vec![TreeRef { x: 1, y: 2, z: 3, rotation: 4, scale: 5, ref_form_id: 6, unknown1: -1, unknown2: i32::MIN }],
            },
        ],
    };
    let bytes = block.write().unwrap();
    let back = TreeBlock::parse(&bytes).unwrap();
    assert_eq!(back.type_blocks[0].type_index, -3);
    assert_eq!(back.type_blocks[1].refs, block.type_blocks[1].refs);
    assert_eq!(back.write().unwrap(), bytes);
}

#[test]
fn tree_block_add_ref_and_total() {
    let r = TreeRef { x: 0, y: 0, z: 0, rotation: 0, scale: 0, ref_form_id: 9, unknown1: 0, unknown2: 0 };
    let mut block = TreeBlock { type_blocks: vec![] };
    block.add_ref(4, r);
    block.add_ref(7, r);
    block.add_ref(4, r);
    assert_eq!(block.type_blocks.len(), 2);
    assert_eq!(block.type_blocks[0].type_index, 4);
    assert_eq!(block.type_blocks[0].refs.len(), 2);
    assert_eq!(block.type_blocks[1].refs.len(), 1);
    assert_eq!(block.total_refs(), 3);
    let mut out = Vec::new();
    r.write_to(&mut out);
    assert_eq!(TreeRef::read_from(&out, 0), Ok(r));
    assert_eq!(TreeRef::read_from(&out, 1), Err(TreeFileError::UnexpectedEnd));
}
