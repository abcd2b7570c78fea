//! NIF mesh metadata and validation rules: texture path conventions and
//! the known block types of the NetImmerse/Gamebryo family.

use vstd::prelude::*;

use crate::asset_scan::forward_slashes;
use crate::lines::{chars_end_with, ends_with};
use crate::text::{
    chars_equal, chars_of, concat_str, decimal, owned_string, push_decimal, push_str,
    spec_to_lowercase, str_to_lowercase, string_from_chars,
};

verus! {

/// Errors of the NIF library bindings.
#[derive(Debug, Clone)]
pub enum NifError {
    /// The nifly library was not found in any of these paths.
    LibraryNotFound { searched_paths: Vec<String> },
    /// The nifly library could not be loaded.
    LoadFailed(String),
    /// A symbol is missing from the nifly library.
    MissingSymbol(String),
    /// A NIF operation failed.
    OperationFailed(String),
    /// The file is not a valid NIF.
    InvalidFile(String),
}

/// High-level metadata extracted from a NIF mesh file.
#[derive(Debug, Clone)]
pub struct NifMetadata {
    /// Path to the NIF file that was analyzed.
    pub file_path: String,
    /// Total number of blocks in the NIF header.
    pub block_count: u32,
    /// Number of shapes (geometry nodes) in the NIF.
    pub shape_count: u32,
    /// All non-empty texture paths referenced by shapes in the NIF.
    pub texture_paths: Vec<String>,
    /// Block type names for every block in the NIF (e.g. "NiNode", "BSTriShape").
    pub block_types: Vec<String>,
}

impl NifMetadata {
    /// Metadata with the given values.
    pub fn new(
        file_path: String,
        block_count: u32,
        shape_count: u32,
        texture_paths: Vec<String>,
        block_types: Vec<String>,
    ) -> (m: Self)
        ensures
            m.file_path == file_path,
            m.block_count == block_count,
            m.shape_count == shape_count,
            m.texture_paths == texture_paths,
            m.block_types == block_types,
    {
        NifMetadata { file_path, block_count, shape_count, texture_paths, block_types }
    }
}

/// A texture path in the standard form: backslashes turned into forward
/// slashes, then lower-cased.
pub fn normalize_texture_path(path: &str) -> (r: String)
    ensures
        r@ == spec_to_lowercase(forward_slashes(path@)),
{
    let cs = chars_of(path);
    let mut v: Vec<char> = Vec::new();
    let mut i: usize = 0;
    while i < cs.len()
        invariant
            i <= cs@.len(),
            cs@ == path@,
            v@ == forward_slashes(cs@.take(i as int)),
        decreases cs.len() - i,
    {
        let c = cs[i];
        let d = if c == '\\' {
            '/'
        } else {
            c
        };
        v.push(d);
        assert(forward_slashes(cs@.take(i + 1)) =~= forward_slashes(cs@.take(i as int)).push(d));
        i = i + 1;
    }
    assert(cs@.take(i as int) =~= cs@);
    let s = string_from_chars(v.as_slice());
    str_to_lowercase(s.as_str())
}

/// The known NIF block type names of the Bethesda/NetImmerse/Gamebryo
/// family.
pub open spec fn known_block_types() -> Seq<Seq<char>> {
    known_block_type_list().map_values(|s: &str| s@)
}

/// The known NIF block type names, as text.
pub open spec fn known_block_type_list() -> Seq<&'static str> {
    seq![
        "NiNode", "BSFadeNode", "BSLeafAnimNode", "BSTreeNode", "BSMultiBoundNode",
        "BSOrderedNode", "BSValueNode", "BSBlastNode", "BSDamageStage", "BSDebrisNode",
        "BSRangeNode", "NiBillboardNode", "NiSwitchNode", "NiLODNode", "NiSortAdjustNode",
        "BSTriShape", "BSDynamicTriShape", "BSMeshLODTriShape", "BSSubIndexTriShape",
        "BSEffectShaderProperty", "BSLightingShaderProperty", "BSShaderPPLightingProperty",
        "BSShaderNoLightingProperty", "BSSkyShaderProperty", "BSWaterShaderProperty",
        "BSShaderTextureSet", "NiTriShape", "NiTriShapeData", "NiTriStrips", "NiTriStripsData",
        "BSLODTriShape", "NiAlphaProperty", "NiStencilProperty", "NiTexturingProperty",
        "NiVertexColorProperty", "NiZBufferProperty", "NiMaterialProperty",
        "NiSpecularProperty", "NiSourceTexture", "NiCamera", "NiLight", "NiAmbientLight",
        "NiDirectionalLight", "NiPointLight", "NiSpotLight", "NiSkinInstance",
        "BSDismemberSkinInstance", "NiSkinData", "NiSkinPartition",
        "BSDecalPlacementVectorExtraData", "NiStringExtraData", "NiIntegerExtraData",
        "NiFloatExtraData", "NiBooleanExtraData", "NiBinaryExtraData", "BSXFlags", "BSBound",
        "BSInvMarker", "BSBehaviorGraphExtraData", "BSBoneLODExtraData", "BSConnectPoint",
        "BSFurnitureMarkerNode", "NiCollisionObject", "bhkCollisionObject",
        "bhkNPCollisionObject", "bhkBlendCollisionObject", "bhkSPCollisionObject",
        "bhkRigidBody", "bhkRigidBodyT", "bhkSimpleShapePhantom", "bhkCompressedMeshShape",
        "bhkCompressedMeshShapeData", "bhkConvexVerticesShape", "bhkBoxShape", "bhkSphereShape",
        "bhkCapsuleShape", "bhkListShape", "bhkMoppBvTreeShape", "bhkNiTriStripsShape",
        "bhkPackedNiTriStripsShape", "hkPackedNiTriStripsData", "bhkTransformShape",
        "bhkConvexTransformShape", "NiControllerManager", "NiControllerSequence",
        "NiMultiTargetTransformController", "NiTransformController", "NiTransformInterpolator",
        "NiTransformData", "NiFloatInterpolator", "NiFloatData", "NiBlendFloatInterpolator",
        "NiBlendTransformInterpolator", "NiTextKeyExtraData", "NiDefaultAVObjectPalette",
        "BSAnimNote", "BSAnimNotes", "NiParticleSystem", "NiPSysData", "NiMeshParticleSystem",
        "NiMeshPSysData", "BSStripParticleSystem", "BSStripPSysData", "BSFrustumFOVController",
        "BSProceduralLightningController", "BSLagBoneController", "NiExtraData",
    ]
}

/// Whether a block type name is one of the known ones.
pub fn is_known_block_type(block_type: &str) -> (b: bool)
    ensures
        b == known_block_types().contains(block_type@),
{
    let list: Vec<&str> = vec![
        "NiNode", "BSFadeNode", "BSLeafAnimNode", "BSTreeNode", "BSMultiBoundNode",
        "BSOrderedNode", "BSValueNode", "BSBlastNode", "BSDamageStage", "BSDebrisNode",
        "BSRangeNode", "NiBillboardNode", "NiSwitchNode", "NiLODNode", "NiSortAdjustNode",
        "BSTriShape", "BSDynamicTriShape", "BSMeshLODTriShape", "BSSubIndexTriShape",
        "BSEffectShaderProperty", "BSLightingShaderProperty", "BSShaderPPLightingProperty",
        "BSShaderNoLightingProperty", "BSSkyShaderProperty", "BSWaterShaderProperty",
        "BSShaderTextureSet", "NiTriShape", "NiTriShapeData", "NiTriStrips", "NiTriStripsData",
        "BSLODTriShape", "NiAlphaProperty", "NiStencilProperty", "NiTexturingProperty",
        "NiVertexColorProperty", "NiZBufferProperty", "NiMaterialProperty",
        "NiSpecularProperty", "NiSourceTexture", "NiCamera", "NiLight", "NiAmbientLight",
        "NiDirectionalLight", "NiPointLight", "NiSpotLight", "NiSkinInstance",
        "BSDismemberSkinInstance", "NiSkinData", "NiSkinPartition",
        "BSDecalPlacementVectorExtraData", "NiStringExtraData", "NiIntegerExtraData",
        "NiFloatExtraData", "NiBooleanExtraData", "NiBinaryExtraData", "BSXFlags", "BSBound",
        "BSInvMarker", "BSBehaviorGraphExtraData", "BSBoneLODExtraData", "BSConnectPoint",
        "BSFurnitureMarkerNode", "NiCollisionObject", "bhkCollisionObject",
        "bhkNPCollisionObject", "bhkBlendCollisionObject", "bhkSPCollisionObject",
        "bhkRigidBody", "bhkRigidBodyT", "bhkSimpleShapePhantom", "bhkCompressedMeshShape",
        "bhkCompressedMeshShapeData", "bhkConvexVerticesShape", "bhkBoxShape", "bhkSphereShape",
        "bhkCapsuleShape", "bhkListShape", "bhkMoppBvTreeShape", "bhkNiTriStripsShape",
        "bhkPackedNiTriStripsShape", "hkPackedNiTriStripsData", "bhkTransformShape",
        "bhkConvexTransformShape", "NiControllerManager", "NiControllerSequence",
        "NiMultiTargetTransformController", "NiTransformController", "NiTransformInterpolator",
        "NiTransformData", "NiFloatInterpolator", "NiFloatData", "NiBlendFloatInterpolator",
        "NiBlendTransformInterpolator", "NiTextKeyExtraData", "NiDefaultAVObjectPalette",
        "BSAnimNote", "BSAnimNotes", "NiParticleSystem", "NiPSysData", "NiMeshParticleSystem",
        "NiMeshPSysData", "BSStripParticleSystem", "BSStripPSysData", "BSFrustumFOVController",
        "BSProceduralLightningController", "BSLagBoneController", "NiExtraData",
    ];
    assert(list@ =~= known_block_type_list());
    let ghost names = known_block_types();
    let b = chars_of(block_type);
    let mut i: usize = 0;
    while i < list.len()
        invariant
            i <= list@.len(),
            list@ == known_block_type_list(),
            names == known_block_types(),
            b@ == block_type@,
            forall|j: int| 0 <= j < i ==> names[j] != block_type@,
        decreases list.len() - i,
    {
        let name = chars_of(list[i]);
        assert(names[i as int] == list@[i as int]@);
        if chars_equal(name.as_slice(), b.as_slice()) {
            assert(names[i as int] == block_type@);
            return true;
        }
        i = i + 1;
    }
    false
}

/// Why a texture path does not follow the Bethesda conventions, if it
/// does not: an absolute path with a drive letter (an ASCII first
/// character then `:`), an absolute path starting with `/`, or an
/// extension (in any case) other than .dds, .tga, .bmp and .png. Empty
/// paths are not judged.
pub open spec fn spec_texture_path_issue(p: Seq<char>) -> Option<Seq<char>> {
    let lower = spec_to_lowercase(p);
    if p.len() == 0 {
        None
    } else if p.len() >= 2 && (p[0] as int) < 0x80 && p[1] == ':' {
        Some("absolute path with drive letter"@)
    } else if p[0] == '/' {
        Some("absolute path starting with /"@)
    } else if !ends_with(lower, ".dds"@) && !ends_with(lower, ".tga"@) && !ends_with(
        lower,
        ".bmp"@,
    ) && !ends_with(lower, ".png"@) {
        Some("unexpected texture extension (expected .dds, .tga, .bmp, or .png)"@)
    } else {
        None
    }
}

/// Check whether a texture path follows the Bethesda conventions (see
/// [`spec_texture_path_issue`]); `None` when it does, else the reason.
pub fn check_texture_path(texture_path: &str) -> (r: Option<String>)
    ensures
        match r {
            Some(s) => spec_texture_path_issue(texture_path@) == Some(s@),
            None => spec_texture_path_issue(texture_path@) is None,
        },
{
    let p = chars_of(texture_path);
    if p.len() == 0 {
        return None;
    }
    let ascii_end: char = '\u{80}';
    if p.len() >= 2 && p[0] < ascii_end && p[1] == ':' {
        return Some(owned_string("absolute path with drive letter"));
    }
    if p[0] == '/' {
        return Some(owned_string("absolute path starting with /"));
    }
    let lower = str_to_lowercase(texture_path);
    let l = chars_of(lower.as_str());
    let dds = chars_of(".dds");
    let tga = chars_of(".tga");
    let bmp = chars_of(".bmp");
    let png = chars_of(".png");
    if !chars_end_with(l.as_slice(), dds.as_slice()) && !chars_end_with(l.as_slice(), tga.as_slice())
        && !chars_end_with(l.as_slice(), bmp.as_slice()) && !chars_end_with(
        l.as_slice(),
        png.as_slice(),
    ) {
        return Some(
            owned_string("unexpected texture extension (expected .dds, .tga, .bmp, or .png)"),
        );
    }
    None
}

/// A validation issue found in a NIF file.
#[derive(Debug, Clone, PartialEq)]
pub enum ValidationIssue {
    /// A texture path referenced by a shape could not be verified as existing.
    MissingTexture { shape_index: u32, slot: u32, texture_path: String },
    /// A block type name is not recognized as a standard NIF block type.
    InvalidBlockType { block_index: u32, block_type: String },
    /// The NIF contains no shapes (geometry), which is unusual for a mesh file.
    EmptyMesh,
    /// The NIF has zero blocks, suggesting it is empty or corrupt.
    EmptyFile,
    /// A shape has no textures assigned in any slot.
    UntexturedShape { shape_index: u32 },
    /// A texture path uses non-standard conventions.
    NonStandardTexturePath { shape_index: u32, slot: u32, texture_path: String, reason: String },
}

/// The message of a validation issue.
pub open spec fn issue_text(i: ValidationIssue) -> Seq<char> {
    match i {
        ValidationIssue::MissingTexture { shape_index, slot, texture_path } => "Shape "@ + decimal(
            shape_index as nat,
        ) + " slot "@ + decimal(slot as nat) + ": missing texture '"@ + texture_path@ + "'"@,
        ValidationIssue::InvalidBlockType { block_index, block_type } => "Block "@ + decimal(
            block_index as nat,
        ) + ": unrecognized type '"@ + block_type@ + "'"@,
        ValidationIssue::EmptyMesh => "NIF contains no shapes"@,
        ValidationIssue::EmptyFile => "NIF has zero blocks (empty or corrupt)"@,
        ValidationIssue::UntexturedShape { shape_index } => "Shape "@ + decimal(shape_index as nat)
            + ": no textures assigned"@,
        ValidationIssue::NonStandardTexturePath { shape_index, slot, texture_path, reason } =>
        "Shape "@ + decimal(shape_index as nat) + " slot "@ + decimal(slot as nat)
            + ": non-standard path '"@ + texture_path@ + "' ("@ + reason@ + ")"@,
    }
}

impl ValidationIssue {
    /// The message of this issue (see [`issue_text`]).
    pub fn to_display_string(&self) -> (s: String)
        ensures
            s@ == issue_text(*self),
    {
        let mut v: Vec<char> = Vec::new();
        match self {
            ValidationIssue::MissingTexture { shape_index, slot, texture_path } => {
                push_str(&mut v, "Shape ");
                push_decimal(&mut v, *shape_index as u64);
                push_str(&mut v, " slot ");
                push_decimal(&mut v, *slot as u64);
                push_str(&mut v, ": missing texture '");
                push_str(&mut v, texture_path.as_str());
                push_str(&mut v, "'");
            },
            ValidationIssue::InvalidBlockType { block_index, block_type } => {
                push_str(&mut v, "Block ");
                push_decimal(&mut v, *block_index as u64);
                push_str(&mut v, ": unrecognized type '");
                push_str(&mut v, block_type.as_str());
                push_str(&mut v, "'");
            },
            ValidationIssue::EmptyMesh => {
                push_str(&mut v, "NIF contains no shapes");
            },
            ValidationIssue::EmptyFile => {
                push_str(&mut v, "NIF has zero blocks (empty or corrupt)");
            },
            ValidationIssue::UntexturedShape { shape_index } => {
                push_str(&mut v, "Shape ");
                push_decimal(&mut v, *shape_index as u64);
                push_str(&mut v, ": no textures assigned");
            },
            ValidationIssue::NonStandardTexturePath { shape_index, slot, texture_path, reason } => {
                push_str(&mut v, "Shape ");
                push_decimal(&mut v, *shape_index as u64);
                push_str(&mut v, " slot ");
                push_decimal(&mut v, *slot as u64);
                push_str(&mut v, ": non-standard path '");
                push_str(&mut v, texture_path.as_str());
                push_str(&mut v, "' (");
                push_str(&mut v, reason.as_str());
                push_str(&mut v, ")");
            },
        }
        assert(v@ =~= issue_text(*self));
        string_from_chars(v.as_slice())
    }
}

/// A relative texture path (no drive letter, no leading `/`) follows the
/// conventions exactly when it ends, in any letter case, in `.dds`, `.tga`,
/// `.bmp` or `.png`.
pub proof fn lemma_texture_extensions(p: Seq<char>)
    requires
        p.len() > 0,
        !(p.len() >= 2 && (p[0] as int) < 0x80 && p[1] == ':'),
        p[0] != '/',
    ensures
        spec_texture_path_issue(p) is None <==> {
            let l = spec_to_lowercase(p);
            ||| ends_with(l, seq!['.', 'd', 'd', 's'])
            ||| ends_with(l, seq!['.', 't', 'g', 'a'])
            ||| ends_with(l, seq!['.', 'b', 'm', 'p'])
            ||| ends_with(l, seq!['.', 'p', 'n', 'g'])
        },
{
    reveal_strlit(".dds");
    reveal_strlit(".tga");
    reveal_strlit(".bmp");
    reveal_strlit(".png");
    assert(".dds"@ =~= seq!['.', 'd', 'd', 's']);
    assert(".tga"@ =~= seq!['.', 't', 'g', 'a']);
    assert(".bmp"@ =~= seq!['.', 'b', 'm', 'p']);
    assert(".png"@ =~= seq!['.', 'p', 'n', 'g']);
}

} // verus!
