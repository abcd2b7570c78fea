use xedit::nif::{check_texture_path, is_known_block_type, normalize_texture_path, NifMetadata, ValidationIssue};

#[test]
fn test_nif_metadata_construction() {
    let meta = NifMetadata::new(
        "meshes/armor/iron/ironhelmet.nif".to_string(),
        12,
        3,
        vec![
            "textures/armor/iron/ironhelmet.dds".to_string(),
            "textures/armor/iron/ironhelmet_n.dds".to_string(),
        ],
        vec!["BSFadeNode".to_string(), "BSTriShape".to_string(), "NiNode".to_string()],
    );

    assert_eq!(meta.block_count, 12);
    assert_eq!(meta.shape_count, 3);
    assert_eq!(meta.texture_paths.len(), 2);
    assert_eq!(meta.block_types.len(), 3);
    assert_eq!(meta.file_path, "meshes/armor/iron/ironhelmet.nif");
}

#[test]
fn test_nif_metadata_empty() {
    let meta = NifMetadata::new("empty.nif".to_string(), 0, 0, vec![], vec![]);
    assert_eq!(meta.block_count, 0);
    assert_eq!(meta.shape_count, 0);
    assert!(meta.texture_paths.is_empty());
    assert!(meta.block_types.is_empty());
}

#[test]
fn test_nif_metadata_clone() {
    let meta = NifMetadata::new(
        "test.nif".to_string(),
        5,
        2,
        vec!["tex.dds".to_string()],
        vec!["NiNode".to_string()],
    );
    let cloned = meta.clone();
    assert_eq!(cloned.block_count, meta.block_count);
    assert_eq!(cloned.texture_paths, meta.texture_paths);
}

#[test]
fn test_normalize_texture_path_backslashes() {
    assert_eq!(
        normalize_texture_path("Textures\\Armor\\Iron\\IronHelmet.dds"),
        "textures/armor/iron/ironhelmet.dds"
    );
}

#[test]
fn test_normalize_texture_path_already_normalized() {
    assert_eq!(
        normalize_texture_path("textures/armor/iron/ironhelmet.dds"),
        "textures/armor/iron/ironhelmet.dds"
    );
}

#[test]
fn test_normalize_texture_path_mixed() {
    assert_eq!(
        normalize_texture_path("Textures/Armor\\Iron/IronHelmet_N.dds"),
        "textures/armor/iron/ironhelmet_n.dds"
    );
}

#[test]
fn test_normalize_texture_path_empty() {
    assert_eq!(normalize_texture_path(""), "");
}

#[test]
fn test_known_block_types() {
    assert!(is_known_block_type("NiNode"));
    assert!(is_known_block_type("BSFadeNode"));
    assert!(is_known_block_type("BSTriShape"));
    assert!(is_known_block_type("BSLightingShaderProperty"));
    assert!(!is_known_block_type("FakeBlockType"));
    assert!(!is_known_block_type(""));
}

#[test]
fn test_check_texture_path_valid() {
    assert!(check_texture_path("textures/armor/iron/ironhelmet.dds").is_none());
    assert!(check_texture_path("textures\\armor\\iron\\ironhelmet.dds").is_none());
    assert!(check_texture_path("textures/effects/glow.tga").is_none());
    assert!(check_texture_path("textures/landscape/dirt.bmp").is_none());
    assert!(check_texture_path("textures/test.png").is_none());
}

#[test]
fn test_check_texture_path_absolute() {
    let result = check_texture_path("C:\\Textures\\test.dds");
    assert!(result.is_some());
    assert!(result.unwrap().contains("drive letter"));

    let result = check_texture_path("/usr/share/textures/test.dds");
    assert!(result.is_some());
    assert!(result.unwrap().contains("absolute"));
}

#[test]
fn test_check_texture_path_bad_extension() {
    let result = check_texture_path("textures/test.jpg");
    assert!(result.is_some());
    assert!(result.unwrap().contains("extension"));
}

#[test]
fn test_check_texture_path_empty() {
    assert!(check_texture_path("").is_none());
}

#[test]
fn test_validation_issue_display() {
    let issue = ValidationIssue::EmptyMesh;
    assert_eq!(issue.to_display_string(), "NIF contains no shapes");

    let issue = ValidationIssue::EmptyFile;
    assert_eq!(issue.to_display_string(), "NIF has zero blocks (empty or corrupt)");

    let issue = ValidationIssue::MissingTexture {
        shape_index: 0,
        slot: 1,
        texture_path: "textures/missing.dds".to_string(),
    };
    assert!(issue.to_display_string().contains("missing.dds"));

    let issue = ValidationIssue::InvalidBlockType { block_index: 3, block_type: "FakeType".to_string() };
    assert!(issue.to_display_string().contains("FakeType"));

    let issue = ValidationIssue::UntexturedShape { shape_index: 2 };
    assert!(issue.to_display_string().contains("Shape 2"));
}

#[test]
fn test_validation_issue_equality() {
    let a = ValidationIssue::EmptyMesh;
    let b = ValidationIssue::EmptyMesh;
    assert_eq!(a, b);
    let c = ValidationIssue::EmptyFile;
    assert_ne!(a, c);
}

#[test]
fn test_validation_issue_clone() {
    let issue = ValidationIssue::MissingTexture { shape_index: 1, slot: 0, texture_path: "test.dds".to_string() };
    let cloned = issue.clone();
    assert_eq!(issue, cloned);
}

#[test]
fn validation_issue_full_messages() {
    let issue = ValidationIssue::MissingTexture { shape_index: 4, slot: 7, texture_path: "a.dds".to_string() };
    assert_eq!(issue.to_display_string(), "Shape 4 slot 7: missing texture 'a.dds'");
    let issue = ValidationIssue::NonStandardTexturePath {
        shape_index: 1,
        slot: 2,
        texture_path: "x".to_string(),
        reason: "why".to_string(),
    };
    assert_eq!(issue.to_display_string(), "Shape 1 slot 2: non-standard path 'x' (why)");
    let issue = ValidationIssue::InvalidBlockType { block_index: 10, block_type: "T".to_string() };
    assert_eq!(issue.to_display_string(), "Block 10: unrecognized type 'T'");
}

#[test]
fn check_texture_path_messages() {
    // Upper-case extensions are accepted.
    assert!(check_texture_path("textures/a.DDS").is_none());
    // A path without an extension is flagged.
    assert!(check_texture_path("textures/noext").unwrap().contains("extension"));
}
