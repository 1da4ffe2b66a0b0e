use palette_helper::{sample_colors, ColorRgba, DragDropResult, DragDropState, HexEditState};

fn gray(v: u8) -> ColorRgba {
    ColorRgba::from_rgb(v, v, v)
}

#[test]
fn hex_edits_are_kept_until_the_colors_change() {
    let mut h = HexEditState::new();
    let generated = vec![gray(1), gray(2), gray(3)];
    h.sync_with_generated(&generated);
    assert_eq!(h.get(1), Some(gray(2)));
    h.set(1, gray(99));
    assert!(h.was_edited(1));
    assert!(!h.was_edited(0));
    assert!(!h.was_edited(7));
    h.sync_with_generated(&generated);
    assert_eq!(h.get(1), Some(gray(99)));
    h.clear_edit(1);
    assert_eq!(h.get(1), Some(gray(2)));
    h.set(2, gray(50));
    h.sync_with_generated(&vec![gray(1), gray(2), gray(4)]);
    assert_eq!(h.get(2), Some(gray(4)));
    assert!(!h.was_edited(2));
    h.sync_with_generated(&vec![gray(1)]);
    assert_eq!(h.get(1), None);
}

#[test]
fn drag_state_tracks_one_item() {
    let mut d = DragDropState::new();
    assert!(!d.is_any_dragging());
    d.start_drag(3, (10, 20));
    assert!(d.is_dragging(3));
    assert!(!d.is_dragging(2));
    assert_eq!(d.dragging_index(), Some(3));
    d.end_drag();
    assert_eq!(d.dragging_index(), None);
    let r = DragDropResult::Dropped { source_index: 1, target_index: 2 };
    assert_ne!(r, DragDropResult::Idle);
    assert_ne!(DragDropResult::Dragging, DragDropResult::Idle);
}

#[test]
fn sample_colors_picks_evenly() {
    let colors: Vec<ColorRgba> = (0..10).map(|v| gray(v as u8)).collect();
    assert_eq!(sample_colors(&colors, 4), vec![gray(0), gray(3), gray(6), gray(9)]);
    assert_eq!(sample_colors(&colors, 3), vec![gray(0), gray(5), gray(9)]);
    assert_eq!(sample_colors(&colors, 1), vec![gray(0)]);
    assert_eq!(sample_colors(&colors[..2].to_vec(), 4), vec![gray(0), gray(1)]);
    assert_eq!(sample_colors(&vec![], 2), vec![ColorRgba::black(), ColorRgba::black()]);
}
