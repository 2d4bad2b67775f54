//! Opaque, stable resource handles: applications refer to GPU and asset
//! resources through these lightweight `u32` wrappers.
use vstd::prelude::*;

verus! {

/// Handle to a static (non-skinned) mesh.
#[derive(Clone, Copy, PartialEq, Eq, Hash, Debug, PartialOrd, Ord, Structural)]
pub struct MeshHandle(pub u32);

impl MeshHandle {
    /// Sentinel value meaning "no resource".
    pub fn invalid() -> (r: MeshHandle)
        ensures
            r.0 == u32::MAX,
    {
        MeshHandle(0xFFFF_FFFFu32)
    }

    /// The handle as an index.
    pub fn index(self) -> (r: usize)
        ensures
            r == self.0,
    {
        self.0 as usize
    }

    /// Whether the handle is not the sentinel.
    pub fn is_valid(self) -> (r: bool)
        ensures
            r == (self.0 != u32::MAX),
    {
        self.0 != 0xFFFF_FFFFu32
    }
}

impl Default for MeshHandle {
    /// The sentinel.
    fn default() -> (r: Self)
        ensures
            r.0 == u32::MAX,
    {
        MeshHandle(0xFFFF_FFFFu32)
    }
}

/// Handle to a skinned mesh (vertices weighted to a skeleton).
#[derive(Clone, Copy, PartialEq, Eq, Hash, Debug, PartialOrd, Ord, Structural)]
pub struct SkinnedMeshHandle(pub u32);

impl SkinnedMeshHandle {
    /// Sentinel value meaning "no resource".
    pub fn invalid() -> (r: SkinnedMeshHandle)
        ensures
            r.0 == u32::MAX,
    {
        SkinnedMeshHandle(0xFFFF_FFFFu32)
    }

    /// The handle as an index.
    pub fn index(self) -> (r: usize)
        ensures
            r == self.0,
    {
        self.0 as usize
    }

    /// Whether the handle is not the sentinel.
    pub fn is_valid(self) -> (r: bool)
        ensures
            r == (self.0 != u32::MAX),
    {
        self.0 != 0xFFFF_FFFFu32
    }
}

impl Default for SkinnedMeshHandle {
    /// The sentinel.
    fn default() -> (r: Self)
        ensures
            r.0 == u32::MAX,
    {
        SkinnedMeshHandle(0xFFFF_FFFFu32)
    }
}

/// Handle to a decoded texture on the GPU.
#[derive(Clone, Copy, PartialEq, Eq, Hash, Debug, PartialOrd, Ord, Structural)]
pub struct TextureHandle(pub u32);

impl TextureHandle {
    /// Sentinel value meaning "no resource".
    pub fn invalid() -> (r: TextureHandle)
        ensures
            r.0 == u32::MAX,
    {
        TextureHandle(0xFFFF_FFFFu32)
    }

    /// The handle as an index.
    pub fn index(self) -> (r: usize)
        ensures
            r == self.0,
    {
        self.0 as usize
    }

    /// Whether the handle is not the sentinel.
    pub fn is_valid(self) -> (r: bool)
        ensures
            r == (self.0 != u32::MAX),
    {
        self.0 != 0xFFFF_FFFFu32
    }
}

impl Default for TextureHandle {
    /// The sentinel.
    fn default() -> (r: Self)
        ensures
            r.0 == u32::MAX,
    {
        TextureHandle(0xFFFF_FFFFu32)
    }
}

/// Handle to a material (pipeline + texture bindings).
#[derive(Clone, Copy, PartialEq, Eq, Hash, Debug, PartialOrd, Ord, Structural)]
pub struct MaterialHandle(pub u32);

impl MaterialHandle {
    /// Sentinel value meaning "no resource".
    pub fn invalid() -> (r: MaterialHandle)
        ensures
            r.0 == u32::MAX,
    {
        MaterialHandle(0xFFFF_FFFFu32)
    }

    /// The handle as an index.
    pub fn index(self) -> (r: usize)
        ensures
            r == self.0,
    {
        self.0 as usize
    }

    /// Whether the handle is not the sentinel.
    pub fn is_valid(self) -> (r: bool)
        ensures
            r == (self.0 != u32::MAX),
    {
        self.0 != 0xFFFF_FFFFu32
    }
}

impl Default for MaterialHandle {
    /// The sentinel.
    fn default() -> (r: Self)
        ensures
            r.0 == u32::MAX,
    {
        MaterialHandle(0xFFFF_FFFFu32)
    }
}

/// Handle to a compiled BSP world.
#[derive(Clone, Copy, PartialEq, Eq, Hash, Debug, PartialOrd, Ord, Structural)]
pub struct WorldHandle(pub u32);

impl WorldHandle {
    /// Sentinel value meaning "no resource".
    pub fn invalid() -> (r: WorldHandle)
        ensures
            r.0 == u32::MAX,
    {
        WorldHandle(0xFFFF_FFFFu32)
    }

    /// The handle as an index.
    pub fn index(self) -> (r: usize)
        ensures
            r == self.0,
    {
        self.0 as usize
    }

    /// Whether the handle is not the sentinel.
    pub fn is_valid(self) -> (r: bool)
        ensures
            r == (self.0 != u32::MAX),
    {
        self.0 != 0xFFFF_FFFFu32
    }
}

impl Default for WorldHandle {
    /// The sentinel.
    fn default() -> (r: Self)
        ensures
            r.0 == u32::MAX,
    {
        WorldHandle(0xFFFF_FFFFu32)
    }
}

/// Handle to a skeleton (joint hierarchy + inverse bind matrices).
#[derive(Clone, Copy, PartialEq, Eq, Hash, Debug, PartialOrd, Ord, Structural)]
pub struct SkeletonHandle(pub u32);

impl SkeletonHandle {
    /// Sentinel value meaning "no resource".
    pub fn invalid() -> (r: SkeletonHandle)
        ensures
            r.0 == u32::MAX,
    {
        SkeletonHandle(0xFFFF_FFFFu32)
    }

    /// The handle as an index.
    pub fn index(self) -> (r: usize)
        ensures
            r == self.0,
    {
        self.0 as usize
    }

    /// Whether the handle is not the sentinel.
    pub fn is_valid(self) -> (r: bool)
        ensures
            r == (self.0 != u32::MAX),
    {
        self.0 != 0xFFFF_FFFFu32
    }
}

impl Default for SkeletonHandle {
    /// The sentinel.
    fn default() -> (r: Self)
        ensures
            r.0 == u32::MAX,
    {
        SkeletonHandle(0xFFFF_FFFFu32)
    }
}

/// Handle to an animation clip.
#[derive(Clone, Copy, PartialEq, Eq, Hash, Debug, PartialOrd, Ord, Structural)]
pub struct AnimationClipHandle(pub u32);

impl AnimationClipHandle {
    /// Sentinel value meaning "no resource".
    pub fn invalid() -> (r: AnimationClipHandle)
        ensures
            r.0 == u32::MAX,
    {
        AnimationClipHandle(0xFFFF_FFFFu32)
    }

    /// The handle as an index.
    pub fn index(self) -> (r: usize)
        ensures
            r == self.0,
    {
        self.0 as usize
    }

    /// Whether the handle is not the sentinel.
    pub fn is_valid(self) -> (r: bool)
        ensures
            r == (self.0 != u32::MAX),
    {
        self.0 != 0xFFFF_FFFFu32
    }
}

impl Default for AnimationClipHandle {
    /// The sentinel.
    fn default() -> (r: Self)
        ensures
            r.0 == u32::MAX,
    {
        AnimationClipHandle(0xFFFF_FFFFu32)
    }
}

/// Handle to a loaded sound.
#[derive(Clone, Copy, PartialEq, Eq, Hash, Debug, PartialOrd, Ord, Structural)]
pub struct SoundHandle(pub u32);

impl SoundHandle {
    /// Sentinel value meaning "no resource".
    pub fn invalid() -> (r: SoundHandle)
        ensures
            r.0 == u32::MAX,
    {
        SoundHandle(0xFFFF_FFFFu32)
    }

    /// The handle as an index.
    pub fn index(self) -> (r: usize)
        ensures
            r == self.0,
    {
        self.0 as usize
    }

    /// Whether the handle is not the sentinel.
    pub fn is_valid(self) -> (r: bool)
        ensures
            r == (self.0 != u32::MAX),
    {
        self.0 != 0xFFFF_FFFFu32
    }
}

impl Default for SoundHandle {
    /// The sentinel.
    fn default() -> (r: Self)
        ensures
            r.0 == u32::MAX,
    {
        SoundHandle(0xFFFF_FFFFu32)
    }
}

} // verus!
