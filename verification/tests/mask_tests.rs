use sms_editor::mask::{
    alpha_compare_passes, goop_is_visible, is_toon_ramp, stage_is_wash_comparison, wash_konst_index,
    J3dAlphaCompare, MaskMaterial, MaskPreview, MaskTexture, MaskTextureSource, TevStage,
};
use sms_editor::editor::SmsEditorApp;
use sms_editor::goop::GoopHistory;

fn app_with(preview: Option<MaskPreview>, invert: bool) -> SmsEditorApp {
    SmsEditorApp {
        document: None,
        goop_history: GoopHistory::new(),
        goop_stroke: None,
        selected_goop_layer: 0,
        document_dirty: false,
        log: Vec::new(),
        mask_wash_invert: invert,
        mask_preview: preview,
        mask_mask_source: MaskTextureSource::Generated,
        mask_generated: false,
        mask_mask_size: 0,
        mask_mask: Vec::new(),
        model_preview: None,
        material_library_baseline: None,
        material_library_assignments: Vec::new(),
    }
}

fn wash_stage(tex_map: u8, tex_coord: u8) -> TevStage {
    TevStage { color_op: 8, alpha_op: 0, konst_color: 0, konst_alpha: 0x1c, tex_map: Some(tex_map), tex_coord: Some(tex_coord) }
}

fn texture() -> MaskTexture {
    MaskTexture { name: "body".to_string(), width: 1, height: 1, rgba: vec![0, 0, 0, 255] }
}

/// The wash is the game's comparison: bright mask clings, dark clears.
#[test]
fn goop_recedes_in_mask_order_as_the_wash_level_falls() {
    assert!(goop_is_visible(40, 255));
    assert!(goop_is_visible(200, 255));
    assert!(!goop_is_visible(40, 0));
    assert!(!goop_is_visible(200, 0));
    assert!(goop_is_visible(40, 128));
    assert!(!goop_is_visible(200, 128));
}

/// Cutout geometry depends on the alpha test: a leaf quad is only a leaf
/// once its transparent texels are discarded.
#[test]
fn alpha_test_discards_transparent_texels() {
    let compare = J3dAlphaCompare { comp0: 6, ref0: 128, op: 0, comp1: 7, ref1: 0 };
    assert!(alpha_compare_passes(&compare, 255));
    assert!(alpha_compare_passes(&compare, 128));
    assert!(!alpha_compare_passes(&compare, 127));
    assert!(!alpha_compare_passes(&compare, 0));

    let always = J3dAlphaCompare { comp0: 7, ref0: 0, op: 1, comp1: 7, ref1: 0 };
    assert!(alpha_compare_passes(&always, 0));
}

#[test]
fn alpha_operations_combine_both_comparisons() {
    let never_or_equal = J3dAlphaCompare { comp0: 0, ref0: 0, op: 1, comp1: 2, ref1: 9 };
    assert!(alpha_compare_passes(&never_or_equal, 9));
    assert!(!alpha_compare_passes(&never_or_equal, 8));
    let xor = J3dAlphaCompare { comp0: 1, ref0: 10, op: 2, comp1: 4, ref1: 5 };
    assert!(alpha_compare_passes(&xor, 3));
    assert!(!alpha_compare_passes(&xor, 7));
    assert!(alpha_compare_passes(&xor, 20));
    let xnor = J3dAlphaCompare { comp0: 5, ref0: 10, op: 3, comp1: 3, ref1: 10 };
    assert!(!alpha_compare_passes(&xnor, 10));
    assert!(alpha_compare_passes(&xnor, 3));
    assert!(!alpha_compare_passes(&xnor, 11));
}

#[test]
fn toon_ramps_are_found_in_any_case() {
    assert!(is_toon_ramp("H_TOON_ramp"));
    assert!(is_toon_ramp("toon"));
    assert!(!is_toon_ramp("too_n"));
    assert!(!is_toon_ramp("body"));
}

#[test]
fn a_wash_stage_compares_against_a_konst_alpha() {
    assert!(stage_is_wash_comparison(&wash_stage(0, 0)));
    let plain = TevStage { color_op: 0, alpha_op: 0, konst_color: 0, konst_alpha: 0x1c, tex_map: None, tex_coord: None };
    assert!(!stage_is_wash_comparison(&plain));
    let other_konst = TevStage { color_op: 0, alpha_op: 9, konst_color: 0, konst_alpha: 0x20, tex_map: None, tex_coord: None };
    assert!(!stage_is_wash_comparison(&other_konst));
}

#[test]
fn the_first_wash_stage_with_a_texture_names_the_mask() {
    let body = MaskMaterial {
        tev_stages: vec![TevStage { color_op: 0, alpha_op: 0, konst_color: 0, konst_alpha: 0, tex_map: Some(0), tex_coord: Some(0) }],
        texture_indices: vec![Some(0)],
        tex_gen_sources: vec![4],
    };
    let missing_texture = MaskMaterial {
        tev_stages: vec![wash_stage(0, 0)],
        texture_indices: vec![Some(5)],
        tex_gen_sources: vec![4],
    };
    let goop = MaskMaterial {
        tev_stages: vec![wash_stage(1, 1)],
        texture_indices: vec![None, Some(1)],
        tex_gen_sources: vec![4, 5],
    };
    let preview = MaskPreview { materials: vec![body, missing_texture, goop], textures: vec![texture(), texture()] };
    let app = app_with(Some(preview), false);
    assert_eq!(app.authored_goop_binding(), Some((1, 1)));
    assert_eq!(app.authored_goop_coord(), Some(1));
    assert_eq!(app_with(None, false).authored_goop_binding(), None);
}

#[test]
fn inverted_masks_read_from_the_other_end() {
    assert_eq!(app_with(None, true).mask_reading(40), 215);
    assert_eq!(app_with(None, false).mask_reading(40), 40);
}

#[test]
fn unfinished_mask_actions_say_so_in_the_log() {
    let mut app = app_with(None, false);
    app.export_mask_gltf();
    app.reimport_mask_uv();
    assert_eq!(app.log.len(), 2);
    assert!(app.log[0].starts_with("Export glTF is not wired yet"));
    assert!(app.log[1].starts_with("Reimport UV is not wired yet"));
}

#[test]
fn wash_comparisons_name_their_konst_register() {
    let stage = |konst_color: u8| TevStage { color_op: 8, alpha_op: 0, konst_color, konst_alpha: 0x1c, tex_map: None, tex_coord: None };
    assert_eq!(wash_konst_index(&stage(12)), 0);
    assert_eq!(wash_konst_index(&stage(15)), 3);
    assert_eq!(wash_konst_index(&stage(16)), 0);
    assert_eq!(wash_konst_index(&stage(22)), 2);
    assert_eq!(wash_konst_index(&stage(31)), 3);
    assert_eq!(wash_konst_index(&stage(5)), 0);
    assert_eq!(wash_konst_index(&stage(40)), 0);
}

#[test]
fn a_model_texture_reads_as_its_red_square() {
    let texture = MaskTexture {
        name: "mask".to_string(),
        width: 3,
        height: 2,
        rgba: vec![
            10, 0, 0, 255, 20, 0, 0, 255, 30, 0, 0, 255, //
            40, 0, 0, 255, 50, 0, 0, 255,
        ],
    };
    assert_eq!(SmsEditorApp::mask_from_texture(&texture), Some((2, vec![10, 20, 40, 50])));
    let short = MaskTexture { name: "s".to_string(), width: 2, height: 2, rgba: vec![7, 0, 0, 0] };
    assert_eq!(SmsEditorApp::mask_from_texture(&short), Some((2, vec![7, 0, 0, 0])));
    let empty = MaskTexture { name: "e".to_string(), width: 0, height: 4, rgba: Vec::new() };
    assert_eq!(SmsEditorApp::mask_from_texture(&empty), None);
}

#[test]
fn the_active_mask_follows_its_source() {
    let mut app = app_with(None, false);
    assert_eq!(app.active_mask(), None);
    app.mask_generated = true;
    app.mask_mask_size = 1;
    app.mask_mask = vec![9];
    assert_eq!(app.active_mask(), Some((1, vec![9])));
    app.mask_mask_source = MaskTextureSource::GoopStyle(2);
    assert_eq!(app.active_mask(), Some((1, vec![9])));
    app.mask_mask_source = MaskTextureSource::Model(0);
    assert_eq!(app.active_mask(), None);
    app.mask_preview = Some(MaskPreview { materials: Vec::new(), textures: vec![texture()] });
    assert_eq!(app.active_mask(), Some((1, vec![0])));
    app.mask_mask_source = MaskTextureSource::Model(1);
    assert_eq!(app.active_mask(), None);
}

#[test]
fn texture_names_carry_their_sizes() {
    let preview = MaskPreview { materials: Vec::new(), textures: vec![texture()] };
    assert_eq!(preview.texture_names(), vec![(0, "body (1x1)".to_string())]);
}
