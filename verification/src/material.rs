//! Shared material description: importers classify surfaces with it and the
//! renderer consumes it.
use vstd::prelude::*;

verus! {

/// Which shading path a surface uses.
#[derive(Clone, Copy, PartialEq, Eq, Debug, Structural)]
pub enum MaterialKind {
    /// BSP world surface: `base_texture * lightmap`.
    BspWorldLit,
    /// Sky surface (rendered without lightmap; drawn far).
    BspSky,
    /// Translucent water surface.
    BspWater,
    /// Alpha-tested BSP surface (textures prefixed `{` in GoldSrc).
    BspAlphaTest,
    /// Static prop, no lighting.
    StaticUnlit,
    /// Static prop, simple lighting.
    StaticLit,
    /// Skinned character, simple lighting.
    SkinnedLit,
    /// First-person weapon viewmodel.
    Viewmodel,
    /// Debug lines/points.
    Debug,
}

impl MaterialKind {
    /// Only water is translucent.
    pub fn is_translucent(self) -> (r: bool)
        ensures
            r == (self == MaterialKind::BspWater),
    {
        match self {
            MaterialKind::BspWater => true,
            _ => false,
        }
    }

    /// Only `{`-prefixed BSP surfaces are alpha-tested.
    pub fn is_alpha_tested(self) -> (r: bool)
        ensures
            r == (self == MaterialKind::BspAlphaTest),
    {
        match self {
            MaterialKind::BspAlphaTest => true,
            _ => false,
        }
    }
}

/// Whether a kind is drawn in the opaque world pass (vs. alpha/water).
pub open spec fn spec_is_world_opaque(kind: MaterialKind) -> bool {
    kind == MaterialKind::BspWorldLit || kind == MaterialKind::BspSky || kind
        == MaterialKind::StaticUnlit || kind == MaterialKind::StaticLit
}

/// True for world materials drawn in the opaque pass (vs. alpha/water).
pub fn is_world_opaque(kind: MaterialKind) -> (r: bool)
    ensures
        r == spec_is_world_opaque(kind),
{
    match kind {
        MaterialKind::BspWorldLit | MaterialKind::BspSky | MaterialKind::StaticUnlit
        | MaterialKind::StaticLit => true,
        _ => false,
    }
}

/// A material description produced by importers and consumed by the renderer.
#[derive(Clone, Debug)]
pub struct MaterialDesc {
    pub name: String,
    pub kind: MaterialKind,
    /// Index into the owning asset's texture table, if any.
    pub base_texture: Option<u32>,
    /// Which lightmap atlas page this material samples, if any.
    pub lightmap_atlas: Option<u32>,
}

impl MaterialDesc {
    /// A material with no texture and no lightmap.
    pub fn new(name: &str, kind: MaterialKind) -> (m: Self)
        ensures
            m.name@ == name@,
            m.kind == kind,
            m.base_texture is None,
            m.lightmap_atlas is None,
    {
        MaterialDesc { name: name.to_owned(), kind, base_texture: None, lightmap_atlas: None }
    }
}

} // verus!
