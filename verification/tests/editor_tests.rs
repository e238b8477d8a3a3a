use sms_editor::editor::{
    GoopAuthoring, GoopLayer, GoopSnapshotUndo, ResourceEdit, SceneObject, SmsEditorApp, StageDocument,
    StageEdits,
};
use sms_editor::enemy_table::fresh_tables_document;
use sms_editor::goop::{GoopHistory, GoopStroke, GoopUndoRecord};
use sms_editor::mask::MaskTextureSource;

fn app_with_layers(masks: Vec<Vec<u8>>) -> SmsEditorApp {
    let layers = masks
        .into_iter()
        .map(|mask| GoopLayer { visible: true, editable: true, style_name: Some("Oil".to_string()), mask })
        .collect();
    SmsEditorApp {
        document: Some(StageDocument {
            goop_authoring: Some(GoopAuthoring { layers }),
            objects: vec![SceneObject {
                factory_name: "Coin".to_string(),
                class_name: None,
                raw_params: Vec::new(),
                pool_only: false,
            }],
            tables: None, tables_untyped: false,
            resource_edits: Vec::new(),
        }),
        goop_history: GoopHistory::new(),
        goop_stroke: None,
        selected_goop_layer: 0,
        document_dirty: false,
        log: Vec::new(),
        mask_wash_invert: false,
        mask_preview: None,
        mask_mask_source: MaskTextureSource::Generated,
        mask_generated: false,
        mask_mask_size: 0,
        mask_mask: Vec::new(),
        model_preview: None,
        material_library_baseline: None,
        material_library_assignments: Vec::new(),
    }
}

fn mask_of(app: &SmsEditorApp, layer: usize) -> Vec<u8> {
    app.document.as_ref().unwrap().goop_authoring.as_ref().unwrap().layers[layer].mask.clone()
}

fn paint(app: &mut SmsEditorApp, layer: usize, changes: Vec<(usize, u8, u8)>) {
    let mut stroke = GoopStroke::new(layer);
    stroke.record(&changes);
    {
        let mask = &mut app.document.as_mut().unwrap().goop_authoring.as_mut().unwrap().layers[layer].mask;
        for (index, _, after) in &changes {
            mask[*index] = *after;
        }
    }
    app.goop_stroke = Some(stroke);
}

#[test]
fn a_committed_stroke_undoes_and_redoes() {
    let mut app = app_with_layers(vec![vec![0; 6], vec![0; 6]]);
    paint(&mut app, 1, vec![(2, 0, 200), (3, 0, 255)]);
    assert!(app.goop_stroke_pending());
    app.commit_goop_stroke(Ok(()));
    assert!(!app.goop_stroke_pending());
    assert!(app.document_dirty);
    assert_eq!(app.log, vec!["Painted goop mask.".to_string()]);
    assert_eq!(app.goop_history.undo_len(), 1);
    let painted = mask_of(&app, 1);
    assert_eq!(painted, vec![0, 0, 200, 255, 0, 0]);

    assert!(app.undo_goop());
    assert_eq!(mask_of(&app, 1), vec![0; 6]);
    assert_eq!(app.log.last().unwrap(), "Undo goop edit.");
    assert!(!app.undo_goop());

    assert!(app.redo_goop());
    assert_eq!(mask_of(&app, 1), painted);
    assert_eq!(app.log.last().unwrap(), "Redo goop edit.");
    assert!(!app.redo_goop());
    assert_eq!(mask_of(&app, 0), vec![0; 6]);
}

#[test]
fn a_stroke_that_fails_to_compile_is_logged_not_recorded() {
    let mut app = app_with_layers(vec![vec![0; 4]]);
    paint(&mut app, 0, vec![(1, 0, 9)]);
    app.commit_goop_stroke(Err("layer 0 is empty".to_string()));
    assert!(app.goop_stroke.is_none());
    assert_eq!(app.goop_history.undo_len(), 0);
    assert!(!app.document_dirty);
    assert_eq!(app.log, vec!["Could not compile painted goop mask: layer 0 is empty".to_string()]);
}

#[test]
fn an_empty_stroke_leaves_nothing_to_undo() {
    let mut app = app_with_layers(vec![vec![0; 4]]);
    app.goop_stroke = Some(GoopStroke::new(0));
    assert!(!app.goop_stroke_pending());
    app.commit_goop_stroke(Ok(()));
    assert!(app.goop_stroke.is_none());
    assert_eq!(app.goop_history.undo_len(), 0);
    assert!(app.log.is_empty());
}

#[test]
fn layer_visibility_is_one_undoable_edit() {
    let mut app = app_with_layers(vec![vec![1; 2], vec![2; 2]]);
    app.selected_goop_layer = 1;
    app.set_selected_goop_visibility(false);
    let layers = |app: &SmsEditorApp| -> Vec<bool> {
        app.document.as_ref().unwrap().goop_authoring.as_ref().unwrap().layers.iter().map(|l| l.visible).collect()
    };
    assert_eq!(layers(&app), vec![true, false]);
    assert_eq!(app.log, vec!["Changed goop layer visibility.".to_string()]);
    assert!(app.undo_goop());
    assert_eq!(layers(&app), vec![true, true]);
    assert!(app.redo_goop());
    assert_eq!(layers(&app), vec![true, false]);
    app.selected_goop_layer = 5;
    app.set_selected_goop_visibility(true);
    assert_eq!(layers(&app), vec![true, false]);
    assert_eq!(app.goop_history.undo_len(), 1);
}

#[test]
fn a_new_edit_clears_what_could_be_redone() {
    let mut app = app_with_layers(vec![vec![0; 4]]);
    paint(&mut app, 0, vec![(0, 0, 1)]);
    app.commit_goop_stroke(Ok(()));
    assert!(app.undo_goop());
    assert_eq!(app.goop_history.redo_len(), 1);
    paint(&mut app, 0, vec![(3, 0, 4)]);
    app.commit_goop_stroke(Ok(()));
    assert_eq!(app.goop_history.redo_len(), 0);
    assert!(!app.redo_goop());
    assert_eq!(mask_of(&app, 0), vec![0, 0, 0, 4]);
}

#[test]
fn finishing_a_change_logs_its_label() {
    let mut app = app_with_layers(vec![]);
    app.finish_goop_document_change("Moved goop");
    assert!(app.document_dirty);
    assert_eq!(app.log, vec!["Moved goop.".to_string()]);
}

fn edit(path: &[u8]) -> ResourceEdit {
    ResourceEdit { raw_resource_path: path.to_vec(), model: None }
}

fn paths(app: &SmsEditorApp) -> Vec<Vec<u8>> {
    app.document.as_ref().unwrap().resource_edits.iter().map(|e| e.raw_resource_path.clone()).collect()
}

#[test]
fn visibility_undo_keeps_the_archive_edits() {
    let mut app = app_with_layers(vec![vec![0; 2]]);
    app.document.as_mut().unwrap().resource_edits = vec![edit(b"map/pollution/pollution00.bmd")];
    app.document.as_mut().unwrap().tables = Some(fresh_tables_document());
    app.set_selected_goop_visibility(false);
    assert_eq!(paths(&app), vec![b"map/pollution/pollution00.bmd".to_vec()]);
    assert!(app.undo_goop());
    assert_eq!(paths(&app), vec![b"map/pollution/pollution00.bmd".to_vec()]);
    assert!(app.document.as_ref().unwrap().tables.is_some());
    assert!(app.redo_goop());
    assert_eq!(paths(&app), vec![b"map/pollution/pollution00.bmd".to_vec()]);
}

#[test]
fn snapshot_undo_and_redo_restore_their_archive_edits() {
    let mut app = app_with_layers(vec![vec![0; 2]]);
    app.document.as_mut().unwrap().resource_edits = vec![edit(b"after.bmd")];
    app.push_goop_undo(GoopUndoRecord::Snapshot(GoopSnapshotUndo {
        before: None,
        after: Some(GoopAuthoring { layers: vec![GoopLayer { visible: true, editable: true, style_name: None, mask: vec![0; 2] }] }),
        before_edits: StageEdits { resource_edits: vec![edit(b"before.bmd")], tables: None },
        after_edits: StageEdits { resource_edits: vec![edit(b"after.bmd")], tables: Some(fresh_tables_document()) },
    }));
    assert!(app.undo_goop());
    assert_eq!(paths(&app), vec![b"before.bmd".to_vec()]);
    assert!(app.document.as_ref().unwrap().goop_authoring.is_none());
    assert!(app.document.as_ref().unwrap().tables.is_none());
    assert!(app.redo_goop());
    assert_eq!(paths(&app), vec![b"after.bmd".to_vec()]);
    assert!(app.document.as_ref().unwrap().tables.is_some());
    assert_eq!(app.document.as_ref().unwrap().goop_authoring.as_ref().unwrap().layers.len(), 1);
}

#[test]
fn the_brush_only_starts_on_editable_floor_layers() {
    let mut app = app_with_layers(vec![vec![0; 4], vec![0; 4]]);
    app.document.as_mut().unwrap().goop_authoring.as_mut().unwrap().layers[1].editable = false;
    assert!(app.begin_goop_stroke());
    assert_eq!(app.goop_stroke.as_ref().map(|stroke| stroke.layer), Some(0));
    app.goop_stroke = None;
    app.selected_goop_layer = 1;
    assert!(!app.begin_goop_stroke());
    assert!(app.goop_stroke.is_none());
    app.selected_goop_layer = 5;
    assert!(!app.begin_goop_stroke());
}
