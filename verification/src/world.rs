//! Plain component records stored per entity, mesh draw batches, and the
//! kinds of hitscan results.
use vstd::prelude::*;
use crate::handles::{MaterialHandle, MeshHandle, SkeletonHandle, SkinnedMeshHandle};

verus! {

/// Per-entity metadata held by the entity arena.
#[derive(Clone, Debug, Default)]
pub struct EntityMeta {
    pub name: Option<String>,
}

/// A static or skinned mesh to draw at the entity's transform.
#[derive(Clone, Copy, Debug)]
pub struct MeshRenderer {
    pub mesh: MeshHandle,
    pub material: MaterialHandle,
    pub visible: bool,
}

/// A skinned mesh + skeleton + the animation runtime slot driving it.
#[derive(Clone, Copy, Debug)]
pub struct SkinnedMesh {
    pub mesh: SkinnedMeshHandle,
    pub skeleton: SkeletonHandle,
    pub material: MaterialHandle,
    /// Index into the animation runtime's pose/instance buffer.
    pub pose_slot: u32,
    pub visible: bool,
}

/// A binding to script-owned data for an entity.
#[derive(Clone, Copy, Debug, Default)]
pub struct ScriptBinding {
    pub script_id: u32,
}

/// What a bullet ray struck.
#[derive(Clone, Copy, PartialEq, Eq, Debug, Structural)]
pub enum HitKind {
    World,
    Bot,
    Nothing,
}

/// A contiguous run of indices that share one material (draw batch).
#[derive(Clone, Debug)]
pub struct Submesh {
    /// Index into the owning asset's material table.
    pub material: u32,
    /// Range into the shared index buffer.
    pub index_start: u32,
    pub index_count: u32,
}

} // verus!
