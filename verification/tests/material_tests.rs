use sms_editor::editor::{ModelStainState, ResourceEdit, SmsEditorApp, StageDocument};
use sms_editor::goop::GoopHistory;
use sms_editor::mask::MaskTextureSource;
use sms_editor::material::{
    default_pick_layers, layer_slot, tex_gen_source_label, texture_format_label, wrap_note,
    MaterialEffectAssignment, MaterialLibraryBaseline, MaterialPreview, Mechanism, PreviewRenderLayer, RuntimeCategory,
    RuntimeConcept, Sample,
};

fn app_with(preview: Option<MaterialPreview>) -> SmsEditorApp {
    SmsEditorApp {
        document: None,
        goop_history: GoopHistory::new(),
        goop_stroke: None,
        selected_goop_layer: 0,
        document_dirty: false,
        log: Vec::new(),
        mask_wash_invert: false,
        mask_preview: None,
        mask_mask_source: MaskTextureSource::Generated,
        mask_generated: false,
        mask_mask_size: 0,
        mask_mask: Vec::new(),
        model_preview: preview,
        material_library_baseline: None,
        material_library_assignments: Vec::new(),
    }
}

fn sample(name: &str, animation: &str) -> Sample {
    Sample {
        name: name.to_string(),
        note: String::new(),
        material: "mat".to_string(),
        stage: "dolpic0".to_string(),
        model: "map".to_string(),
        animation: animation.to_string(),
        keep_texture_slots: 1,
        description: String::new(),
        stages: 1,
    }
}

#[test]
fn every_render_layer_has_its_own_pick_toggle() {
    let layers = [
        PreviewRenderLayer::Main,
        PreviewRenderLayer::Water,
        PreviewRenderLayer::IndirectWater,
        PreviewRenderLayer::WaveFoam,
        PreviewRenderLayer::MirrorSurface,
        PreviewRenderLayer::Goop,
        PreviewRenderLayer::Shadow,
        PreviewRenderLayer::Particle,
        PreviewRenderLayer::Heatwave,
        PreviewRenderLayer::Sky,
        PreviewRenderLayer::MirrorScene,
    ];
    let mut seen = [false; 11];
    for layer in layers {
        let slot = layer_slot(layer);
        assert!(!seen[slot]);
        seen[slot] = true;
    }
    let defaults = default_pick_layers();
    assert!(defaults[layer_slot(PreviewRenderLayer::Goop)]);
    assert!(defaults[layer_slot(PreviewRenderLayer::Water)]);
    assert!(!defaults[layer_slot(PreviewRenderLayer::Sky)]);
    assert!(!defaults[layer_slot(PreviewRenderLayer::Shadow)]);
}

#[test]
fn samples_are_scrolls_patterns_or_material_state() {
    assert_eq!(sample("a", "map.btp").mechanism(), Mechanism::Pattern);
    assert_eq!(sample("a", "").mechanism(), Mechanism::Material);
    assert_eq!(sample("a", "map.btk").mechanism(), Mechanism::Scroll);
    assert_eq!(Mechanism::Scroll.label(), "BTK");
    assert_eq!(Mechanism::Pattern.label(), "BTP");
    assert_eq!(Mechanism::Material.label(), "MAT3");
}

#[test]
fn assignments_find_their_sample_or_nothing() {
    let library = vec![RuntimeConcept {
        name: "Water".to_string(),
        note: "moving water",
        categories: vec![RuntimeCategory {
            name: "Sea".to_string(),
            token: "sea".to_string(),
            samples: vec![sample("calm", "sea.btk"), sample("rough", "sea2.btk")],
        }],
    }];
    let found = MaterialEffectAssignment { material: 3, concept: 0, category: 0, effect: 1 };
    assert_eq!(found.effect(&library).map(|s| s.name.as_str()), Some("rough"));
    let missing = MaterialEffectAssignment { material: 3, concept: 0, category: 0, effect: 2 };
    assert!(missing.effect(&library).is_none());
    let no_concept = MaterialEffectAssignment { material: 3, concept: 1, category: 0, effect: 0 };
    assert!(no_concept.effect(&library).is_none());
}

#[test]
fn gx_enumerations_have_readable_labels() {
    assert_eq!(tex_gen_source_label(0), "position");
    assert_eq!(tex_gen_source_label(3), "tangent");
    assert_eq!(tex_gen_source_label(4), "UVs");
    assert_eq!(tex_gen_source_label(11), "UVs");
    assert_eq!(tex_gen_source_label(12), "other");
    assert_eq!(texture_format_label(14), "CMPR");
    assert_eq!(texture_format_label(5), "RGB5A3");
    assert_eq!(texture_format_label(7), "?");
}

#[test]
fn materials_sharing_a_name_form_one_group() {
    let preview = MaterialPreview {
        material_names: vec!["sea".to_string(), "rock".to_string(), "sea".to_string()],
        animation_binding_counts: vec![0, 0, 0],
        triangle_materials: vec![Some(0), None, Some(2)],
    };
    let app = app_with(Some(preview));
    assert_eq!(app.material_library_group(2), vec![0, 2]);
    assert_eq!(app.material_library_group(1), vec![1]);
    assert!(app.material_library_group(3).is_empty());
    assert!(app_with(None).material_library_group(0).is_empty());
}

#[test]
fn notes_wrap_into_at_most_two_card_lines() {
    assert_eq!(
        wrap_note("Water that scrolls slowly across the floor", 16),
        vec!["Water that".to_string(), "scrolls slowly\u{2026}".to_string()]
    );
    assert_eq!(wrap_note("  short   note ", 16), vec!["short note".to_string()]);
    assert!(wrap_note("   ", 16).is_empty());
    assert_eq!(
        wrap_note("abcdefghijklmnopqrstuvwxyz x", 5),
        vec!["abcdefghijklmnopqrstuvwxyz".to_string(), "x".to_string()]
    );
    assert_eq!(wrap_note("ééé ab", 7), vec!["ééé".to_string(), "ab".to_string()]);
    assert_eq!(wrap_note("ééé ab", 9), vec!["ééé ab".to_string()]);
}

#[test]
fn library_rows_merge_slots_that_share_a_name() {
    let preview = MaterialPreview {
        material_names: vec![
            "pier".to_string(),
            "sea".to_string(),
            "pier".to_string(),
            "unused".to_string(),
        ],
        animation_binding_counts: vec![0, 2],
        triangle_materials: vec![Some(0), Some(1), Some(2), Some(2), None, Some(9), Some(1)],
    };
    let rows = app_with(Some(preview)).material_library_slots();
    assert_eq!(rows.len(), 2);
    assert_eq!(rows[0].name, "pier");
    assert_eq!(rows[0].index, 0);
    assert_eq!(rows[0].slots, vec![0, 2]);
    assert_eq!(rows[0].triangles, 3);
    assert!(!rows[0].animated);
    assert_eq!(rows[1].name, "sea");
    assert_eq!(rows[1].slots, vec![1]);
    assert_eq!(rows[1].triangles, 2);
    assert!(rows[1].animated);
    assert!(app_with(None).material_library_slots().is_empty());
}

fn edit(path: &str, pinned: bool) -> ResourceEdit {
    ResourceEdit {
        raw_resource_path: path.as_bytes().to_vec(),
        model: Some(ModelStainState {
            has_stain_dummy_texture: true,
            can_pin_stain_blend: true,
            stain_blend_pinned: pinned,
        }),
    }
}

fn paths(app: &SmsEditorApp) -> Vec<(String, bool)> {
    app.document
        .as_ref()
        .unwrap()
        .resource_edits
        .iter()
        .map(|e| {
            (String::from_utf8(e.raw_resource_path.clone()).unwrap(), e.model.map_or(false, |m| m.stain_blend_pinned))
        })
        .collect()
}

fn staged(edits: Vec<ResourceEdit>) -> SmsEditorApp {
    let mut app = app_with(None);
    app.document = Some(StageDocument {
        goop_authoring: None,
        objects: Vec::new(),
        tables: None, tables_untyped: false,
        resource_edits: edits,
    });
    app
}

#[test]
fn the_baseline_is_taken_once_before_the_first_install() {
    let mut app = staged(vec![edit("map/map/map.bmd", false), edit("scene/other.bmd", false)]);
    app.take_material_library_baseline();
    let baseline = app.material_library_baseline.as_ref().unwrap();
    assert_eq!(baseline.model.as_ref().unwrap().raw_resource_path, b"map/map/map.bmd".to_vec());
    assert!(baseline.animation.is_none());
    app.document.as_mut().unwrap().resource_edits.push(edit("map/map/map.btk", true));
    app.take_material_library_baseline();
    assert!(app.material_library_baseline.as_ref().unwrap().animation.is_none());

    let mut closed = app_with(None);
    closed.take_material_library_baseline();
    assert!(closed.material_library_baseline.is_none());
}

#[test]
fn reset_puts_both_library_resources_back_and_keeps_the_rest() {
    let mut app = staged(vec![
        edit("scene/other.bmd", false),
        edit("map/map/map.bmd", true),
        edit("map/map/map.btk", true),
    ]);
    app.material_library_baseline = Some(MaterialLibraryBaseline {
        model: Some(edit("map/map/map.bmd", false)),
        animation: None,
    });
    let assignment = MaterialEffectAssignment { material: 0, concept: 0, category: 0, effect: 0 };
    app.material_library_assignments = vec![assignment, assignment];
    app.reset_material_library();
    assert_eq!(
        paths(&app),
        vec![("scene/other.bmd".to_string(), false), ("map/map/map.bmd".to_string(), false)]
    );
    assert!(app.material_library_baseline.is_none());
    assert!(app.material_library_assignments.is_empty());
    assert_eq!(app.log.last().map(String::as_str), Some("Material Library reset: 2 effect(s) removed"));
}

#[test]
fn reset_without_a_baseline_only_forgets_the_effects() {
    let mut app = staged(vec![edit("map/map/map.bmd", true)]);
    app.material_library_assignments =
        vec![MaterialEffectAssignment { material: 1, concept: 0, category: 0, effect: 0 }];
    app.reset_material_library();
    assert_eq!(paths(&app), vec![("map/map/map.bmd".to_string(), true)]);
    assert!(app.material_library_assignments.is_empty());
    assert!(app.log.is_empty());
    assert!(!app.restore_material_library_baseline());
}

#[test]
fn restoring_keeps_the_baseline_and_can_repeat() {
    let mut app = staged(vec![edit("map/map/map.btk", true), edit("map/map/map.bmd", true)]);
    app.material_library_baseline = Some(MaterialLibraryBaseline {
        model: Some(edit("map/map/map.bmd", false)),
        animation: Some(edit("map/map/map.btk", false)),
    });
    assert!(app.restore_material_library_baseline());
    let once = paths(&app);
    assert_eq!(once, vec![("map/map/map.bmd".to_string(), false), ("map/map/map.btk".to_string(), false)]);
    assert!(app.material_library_baseline.is_some());
    assert!(app.restore_material_library_baseline());
    assert_eq!(paths(&app), once);
}

#[test]
fn undoing_an_effect_restores_the_baseline_and_hands_back_the_rest() {
    let mut app = staged(vec![edit("map/map/map.bmd", true)]);
    let first = MaterialEffectAssignment { material: 0, concept: 0, category: 0, effect: 0 };
    let second = MaterialEffectAssignment { material: 3, concept: 1, category: 0, effect: 2 };
    app.material_library_assignments = vec![first, second];
    assert!(app.begin_material_library_undo().is_none());
    assert_eq!(app.material_library_assignments.len(), 2);

    app.material_library_baseline = Some(MaterialLibraryBaseline { model: None, animation: None });
    let remaining = app.begin_material_library_undo().unwrap();
    assert_eq!(remaining.len(), 1);
    assert_eq!(remaining[0].material, 0);
    assert!(app.material_library_assignments.is_empty());
    assert!(paths(&app).is_empty());
    assert!(app.material_library_baseline.is_some());
    assert!(app.begin_material_library_undo().is_none());
}
