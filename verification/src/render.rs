//! Renderer-facing data: the ordered render passes, per-frame statistics,
//! the HUD state and the windowed runtime's configuration.
use vstd::prelude::*;

verus! {

/// The ordered render passes. Backends execute them in this order.
#[derive(Clone, Copy, PartialEq, Eq, Debug, Structural)]
pub enum RenderPass {
    WorldOpaque,
    SkinnedActor,
    AlphaTranslucent,
    Viewmodel,
    Debug,
    Hud,
}

/// The position of each pass in the frame.
pub open spec fn pass_rank(p: RenderPass) -> int {
    match p {
        RenderPass::WorldOpaque => 0,
        RenderPass::SkinnedActor => 1,
        RenderPass::AlphaTranslucent => 2,
        RenderPass::Viewmodel => 3,
        RenderPass::Debug => 4,
        RenderPass::Hud => 5,
    }
}

impl RenderPass {
    /// The passes in execution order.
    pub fn order() -> (r: [RenderPass; 6])
        ensures
            forall|i: int| 0 <= i < 6 ==> pass_rank(#[trigger] r@[i]) == i,
    {
        [
            RenderPass::WorldOpaque,
            RenderPass::SkinnedActor,
            RenderPass::AlphaTranslucent,
            RenderPass::Viewmodel,
            RenderPass::Debug,
            RenderPass::Hud,
        ]
    }
}

/// Per-frame renderer statistics for the debug overlay.
#[derive(Clone, Copy, Debug, Default)]
pub struct RenderStats {
    pub draw_calls: u32,
    pub triangles: u32,
    pub world_triangles: u32,
    pub skinned_triangles: u32,
    pub debug_lines: u32,
}

/// Minimal HUD state, drawn with a bitmap font and textured quads.
#[derive(Clone, Debug)]
pub struct Hud {
    pub show_crosshair: bool,
    pub health: i32,
    /// `None` renders an infinite-ammo marker.
    pub ammo: Option<i32>,
    pub round_text: Option<String>,
    pub show_debug: bool,
    /// Free-form debug lines drawn in the corner when `show_debug` is set.
    pub debug_lines: Vec<String>,
}

impl Default for Hud {
    /// Crosshair on, full health, infinite ammo, no text, debug off.
    fn default() -> (h: Self)
        ensures
            h.show_crosshair,
            h.health == 100,
            h.ammo is None,
            h.round_text is None,
            !h.show_debug,
            h.debug_lines@.len() == 0,
    {
        Hud {
            show_crosshair: true,
            health: 100,
            ammo: None,
            round_text: None,
            show_debug: false,
            debug_lines: Vec::new(),
        }
    }
}

/// Configuration for the windowed runtime.
#[derive(Clone, Debug)]
pub struct RunConfig {
    pub title: String,
    pub width: u32,
    pub height: u32,
}

impl Default for RunConfig {
    /// A 1280×720 window titled `Pocket3D`.
    fn default() -> (c: Self)
        ensures
            c.title@ == "Pocket3D"@,
            c.width == 1280,
            c.height == 720,
    {
        RunConfig { title: "Pocket3D".to_owned(), width: 1280, height: 720 }
    }
}

} // verus!
