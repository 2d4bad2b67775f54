use pocket3d::anim::{topo_sort, AnimState, ChannelKind};
use pocket3d::config::RoundConfig;
use pocket3d::handles::{MeshHandle, SoundHandle, TextureHandle};
use pocket3d::input::{Button, InputSnapshot, Key};
use pocket3d::material::{is_world_opaque, MaterialDesc, MaterialKind};
use pocket3d::render::{Hud, RenderPass, RenderStats, RunConfig};
use pocket3d::shaders;
use pocket3d::texture::TextureData;
use pocket3d::world::HitKind;

#[test]
fn run_config_default_is_reasonable() {
    let c = RunConfig::default();
    assert!(c.width > 0 && c.height > 0);
    assert!(!c.title.is_empty());
}

#[test]
fn run_config_default_values() {
    let c = RunConfig::default();
    assert_eq!((c.title.as_str(), c.width, c.height), ("Pocket3D", 1280, 720));
}

#[test]
fn shader_sources_are_present() {
    assert!(shaders::WORLD_WGSL.contains("fs_world"));
    assert!(shaders::MESH_WGSL.contains("vs_mesh"));
    assert!(shaders::SKINNED_WGSL.contains("vs_skinned"));
    assert!(shaders::DEBUG_WGSL.contains("vs_debug"));
    assert!(shaders::HUD_WGSL.contains("vs_hud"));
}

#[test]
fn render_passes_run_in_fixed_order() {
    assert_eq!(
        RenderPass::order(),
        [
            RenderPass::WorldOpaque,
            RenderPass::SkinnedActor,
            RenderPass::AlphaTranslucent,
            RenderPass::Viewmodel,
            RenderPass::Debug,
            RenderPass::Hud,
        ]
    );
    let stats = RenderStats::default();
    assert_eq!(stats.draw_calls + stats.triangles + stats.debug_lines, 0);
}

#[test]
fn hud_and_round_defaults() {
    let h = Hud::default();
    assert!(h.show_crosshair);
    assert_eq!(h.health, 100);
    assert_eq!(h.ammo, None);
    assert!(h.round_text.is_none() && !h.show_debug && h.debug_lines.is_empty());
    let r = RoundConfig::default();
    assert_eq!(r.pre_round_ms, 1000);
    assert_eq!(r.intermission_ms, 3000);
    assert_eq!((r.player_health, r.bot_health), (100, 100));
}

#[test]
fn handles_have_a_sentinel() {
    assert!(!MeshHandle::invalid().is_valid());
    assert!(!MeshHandle::default().is_valid());
    assert_eq!(MeshHandle::invalid().0, u32::MAX);
    assert!(TextureHandle(0).is_valid());
    assert_eq!(SoundHandle(7).index(), 7);
}

#[test]
fn texture_constructors() {
    let t = TextureData::new(3, 2);
    assert_eq!(t.rgba, vec![0u8; 24]);
    assert_eq!(t.pixel_count(), 6);
    let s = TextureData::solid(1, 2, 3, 4);
    assert_eq!((s.width, s.height), (1, 1));
    assert_eq!(s.rgba, vec![1, 2, 3, 4]);
    let f = TextureData::from_rgba(1, 2, vec![9; 8]);
    assert_eq!(f.pixel_count(), 2);
}

#[test]
fn missing_texture_is_a_magenta_checker() {
    let t = TextureData::missing();
    assert_eq!((t.width, t.height), (16, 16));
    assert_eq!(t.rgba.len(), 16 * 16 * 4);
    let px = |x: usize, y: usize| &t.rgba[(y * 16 + x) * 4..(y * 16 + x) * 4 + 4];
    assert_eq!(px(0, 0), &[255, 0, 255, 255]);
    assert_eq!(px(3, 3), &[255, 0, 255, 255]);
    assert_eq!(px(4, 0), &[0, 0, 0, 255]);
    assert_eq!(px(0, 4), &[0, 0, 0, 255]);
    assert_eq!(px(4, 4), &[255, 0, 255, 255]);
    assert_eq!(px(15, 12), &[255, 0, 255, 255]);
    assert_eq!(px(15, 8), &[0, 0, 0, 255]);
}

#[test]
fn material_classification() {
    assert!(MaterialKind::BspWater.is_translucent());
    assert!(!MaterialKind::BspWorldLit.is_translucent());
    assert!(MaterialKind::BspAlphaTest.is_alpha_tested());
    assert!(!MaterialKind::BspWater.is_alpha_tested());
    assert!(is_world_opaque(MaterialKind::BspWorldLit));
    assert!(!is_world_opaque(MaterialKind::BspWater));
    let m = MaterialDesc::new("wall", MaterialKind::StaticLit);
    assert_eq!(m.name, "wall");
    assert_eq!(m.kind, MaterialKind::StaticLit);
    assert_eq!((m.base_texture, m.lightmap_atlas), (None, None));
}

#[test]
fn input_presses_are_edges() {
    let mut s = InputSnapshot::new();
    assert!(!s.key_down(Key::W));
    s.set_key(Key::W, true);
    s.set_button(Button::Left, true);
    assert!(s.key_down(Key::W) && s.key_pressed(Key::W));
    assert!(s.button_down(Button::Left) && s.button_pressed(Button::Left));
    s.begin_frame();
    assert!(s.key_down(Key::W), "held keys stay down");
    assert!(!s.key_pressed(Key::W), "a held key is not pressed again");
    assert!(!s.button_pressed(Button::Left));
    s.set_key(Key::W, false);
    s.begin_frame();
    s.set_key(Key::W, true);
    assert!(s.key_pressed(Key::W));
    assert!(!s.key_down(Key::A) && !s.button_down(Button::Right));
}

#[test]
fn move_axes_follow_wasd() {
    let mut s = InputSnapshot::new();
    assert_eq!(s.move_axes(), (0, 0));
    s.set_key(Key::W, true);
    s.set_key(Key::A, true);
    assert_eq!(s.move_axes(), (-1, 1));
    s.set_key(Key::D, true);
    s.set_key(Key::S, true);
    assert_eq!(s.move_axes(), (0, 0), "opposite keys cancel");
}

#[test]
fn anim_state_looping() {
    assert!(AnimState::Idle.loops());
    assert!(AnimState::Walk.loops());
    assert!(!AnimState::Death.loops());
    assert_ne!(ChannelKind::Rotation, ChannelKind::Scale);
    assert_ne!(HitKind::World, HitKind::Bot);
}

#[test]
fn topo_sort_places_parents_first() {
    // 0 <- 2, 2 <- 1, 3 is a root, 4 <- 3.
    let parents = [None, Some(2), Some(0), None, Some(3)];
    let (order, remap) = topo_sort(&parents);
    assert_eq!(order, vec![0, 2, 3, 4, 1]);
    for (g, p) in parents.iter().enumerate() {
        assert_eq!(order[remap[g]], g);
        if let Some(p) = p {
            assert!(remap[*p] < remap[g]);
        }
    }
}

#[test]
fn topo_sort_keeps_a_cycle_in_index_order() {
    let parents = [Some(1), Some(0), None];
    let (order, remap) = topo_sort(&parents);
    assert_eq!(order, vec![2, 0, 1]);
    assert_eq!(remap, vec![1, 2, 0]);
    assert_eq!(topo_sort(&[]), (vec![], vec![]));
}
