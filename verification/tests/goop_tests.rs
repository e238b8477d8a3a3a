use sms_editor::goop::{
    apply_pixel_spans, archive_resource_path, coalesce_pixel_changes, coalesce_sorted_changes,
    flood_fill, source_pollution_stem, GoopGrid, GoopHistory, GoopPixelSpan, GoopStroke,
    GoopUndoRecord,
};
use std::collections::BTreeMap;

#[test]
fn pixel_changes_are_coalesced_into_contiguous_spans() {
    let changes = BTreeMap::from([(2, (0, 1)), (3, (2, 3)), (7, (4, 5))]);
    let spans = coalesce_pixel_changes(changes);
    assert_eq!(spans.len(), 2);
    assert_eq!(spans[0].start, 2);
    assert_eq!(spans[0].before, vec![0, 2]);
    assert_eq!(spans[0].after, vec![1, 3]);
}

#[test]
fn coalescing_keeps_the_lone_trailing_byte_as_its_own_span() {
    let spans = coalesce_sorted_changes(&vec![(2, 0, 1), (3, 2, 3), (7, 4, 5)]);
    assert_eq!(spans.len(), 2);
    assert_eq!(spans[1].start, 7);
    assert_eq!(spans[1].before, vec![4]);
    assert_eq!(spans[1].after, vec![5]);
    assert!(coalesce_sorted_changes(&Vec::new()).is_empty());
}

#[test]
fn connected_fill_stops_at_invalid_depth_cells() {
    let mut depth = vec![0u8; 32];
    for y in 0..4 {
        depth[y * 8 + 4] = 0xff;
    }
    let grid = GoopGrid { width: 8, height: 4, depth };
    let mut mask = vec![0; 32];
    let mut changes = Vec::new();
    flood_fill(&grid, &mut mask, [1, 1], false, &mut changes);
    assert!(mask
        .chunks_exact(8)
        .all(|row| row[..4].iter().all(|value| *value == 255)));
    assert!(mask
        .chunks_exact(8)
        .all(|row| row[4..].iter().all(|value| *value == 0)));
    assert_eq!(changes.len(), 16);
    assert!(changes.iter().all(|(_, before, after)| *before == 0 && *after == 255));
}

#[test]
fn erasing_fill_clears_only_the_connected_region() {
    let mut depth = vec![0u8; 32];
    for y in 0..4 {
        depth[y * 8 + 4] = 0xff;
    }
    let grid = GoopGrid { width: 8, height: 4, depth };
    let mut mask = vec![255; 32];
    let mut changes = Vec::new();
    flood_fill(&grid, &mut mask, [6, 2], true, &mut changes);
    assert!(mask.chunks_exact(8).all(|row| row[..5].iter().all(|v| *v == 255)));
    assert!(mask.chunks_exact(8).all(|row| row[5..].iter().all(|v| *v == 0)));
    assert_eq!(changes.len(), 12);
}

#[test]
fn fill_from_an_invalid_cell_changes_nothing() {
    let mut depth = vec![0u8; 4];
    depth[0] = 0xff;
    let grid = GoopGrid { width: 2, height: 2, depth };
    let mut mask = vec![7; 4];
    let mut changes = Vec::new();
    flood_fill(&grid, &mut mask, [0, 0], false, &mut changes);
    assert_eq!(mask, vec![7; 4]);
    assert!(changes.is_empty());
    flood_fill(&grid, &mut mask, [5, 5], false, &mut changes);
    assert_eq!(mask, vec![7; 4]);
    assert!(changes.is_empty());
}

#[test]
fn undoing_then_redoing_spans_restores_the_painted_mask() {
    let original = vec![0u8, 0, 0, 9, 9, 9, 9, 0];
    let spans = vec![
        GoopPixelSpan { start: 1, before: vec![0, 0], after: vec![5, 6] },
        GoopPixelSpan { start: 5, before: vec![9], after: vec![1] },
    ];
    let mut mask = original.clone();
    apply_pixel_spans(&mut mask, &spans, true);
    assert_eq!(mask, vec![0, 5, 6, 9, 9, 1, 9, 0]);
    let painted = mask.clone();
    apply_pixel_spans(&mut mask, &spans, false);
    assert_eq!(mask, original);
    apply_pixel_spans(&mut mask, &spans, true);
    assert_eq!(mask, painted);
}

#[test]
fn spans_past_the_end_of_the_mask_are_skipped() {
    let mut mask = vec![1u8, 2, 3];
    let spans = vec![GoopPixelSpan { start: 2, before: vec![3, 4], after: vec![7, 8] }];
    apply_pixel_spans(&mut mask, &spans, true);
    assert_eq!(mask, vec![1, 2, 3]);
}

#[test]
fn a_stroke_keeps_the_first_before_and_the_last_after() {
    let mut stroke = GoopStroke::new(3);
    stroke.record(&vec![(4, 10, 20), (5, 11, 21)]);
    stroke.record(&vec![(4, 20, 30)]);
    assert_eq!(stroke.changed.get(&4), Some(&(10, 30)));
    assert_eq!(stroke.changed.get(&5), Some(&(11, 21)));
    match stroke.finish::<()>() {
        Some(GoopUndoRecord::Pixels { layer, spans }) => {
            assert_eq!(layer, 3);
            assert_eq!(spans.len(), 1);
            assert_eq!(spans[0].start, 4);
            assert_eq!(spans[0].before, vec![10, 11]);
            assert_eq!(spans[0].after, vec![30, 21]);
        }
        other => panic!("unexpected record {other:?}"),
    }
    assert!(GoopStroke::new(0).finish::<()>().is_none());
}

#[test]
fn history_moves_edits_between_the_stacks() {
    let mut history: GoopHistory<u32> = GoopHistory::new();
    assert!(!history.undo());
    assert!(!history.redo());
    history.push(1);
    history.push(2);
    assert!(history.undo());
    assert_eq!(history.last_redo(), Some(&2));
    assert_eq!(history.last_undo(), Some(&1));
    assert!(history.redo());
    assert_eq!(history.undo_len(), 2);
    assert_eq!(history.redo_len(), 0);
    assert!(history.undo());
    history.push(3);
    assert_eq!(history.redo_len(), 0);
    assert_eq!(history.last_undo(), Some(&3));
}

#[test]
fn history_drops_the_oldest_edit_past_its_limit() {
    let mut history: GoopHistory<u32> = GoopHistory::new();
    for i in 0..81 {
        history.push(i);
    }
    assert_eq!(history.undo_len(), 80);
    for _ in 0..79 {
        assert!(history.undo());
    }
    assert_eq!(history.last_undo(), Some(&1));
}

#[test]
fn archive_paths_name_the_resource_after_the_separator() {
    assert_eq!(
        archive_resource_path("C:\\dolpic0.szs!/scene\\map\\pollution\\H_ma_rak.bti").as_deref(),
        Some("scene/map/pollution/H_ma_rak.bti")
    );
    assert_eq!(archive_resource_path("a!/b!/c").as_deref(), Some("b!/c"));
    assert_eq!(archive_resource_path("scene/map.bmd"), None);
}

#[test]
fn mare_stages_name_their_last_pollution_layers_by_letter() {
    assert_eq!(source_pollution_stem(0, "dolpic0"), "pollution00");
    assert_eq!(source_pollution_stem(12, "bianco1"), "pollution12");
    assert_eq!(source_pollution_stem(7, "MareBoss"), "pollutionA");
    assert_eq!(source_pollution_stem(8, "mare3"), "pollutionB");
    assert_eq!(source_pollution_stem(7, "dolpic0"), "pollution07");
}

#[test]
fn manual_regions_need_power_of_two_sides_of_at_least_eight_by_four() {
    assert_eq!(sms_editor::goop::manual_region_cells(8, 4), Ok((3, 2)));
    assert_eq!(sms_editor::goop::manual_region_cells(256, 1024), Ok((8, 10)));
    let error = Err("Manual goop region dimensions must be power-of-two cells (minimum 8x4)".to_string());
    assert_eq!(sms_editor::goop::manual_region_cells(4, 4), error);
    assert_eq!(sms_editor::goop::manual_region_cells(8, 2), error);
    assert_eq!(sms_editor::goop::manual_region_cells(12, 8), error);
    assert_eq!(sms_editor::goop::manual_region_cells(0, 8), error);
}
