use palette_helper::{App, ColorRgba, ColorSpace, ControlPoint, CurveType, Linear, Swatch, ONE};

fn ramp(size: usize) -> Swatch {
    Swatch::new(
        size,
        vec![
            ControlPoint::new(0, 0, ColorRgba::from_rgb(200, 0, 0)),
            ControlPoint::new(1, ONE, ColorRgba::from_rgb(0, 0, 200)),
        ],
        CurveType::Linear(Linear { factor: ONE }),
        ColorSpace::Rgb,
    )
}

fn sizes(app: &App) -> Vec<usize> {
    app.palette().swatches().iter().map(|s| s.size()).collect()
}

fn cache_matches(app: &App) -> bool {
    let swatches = app.palette().swatches();
    let cache = app.generated_colors();
    swatches.len() == cache.len() && swatches.iter().zip(cache.iter()).all(|(s, c)| s.generate_colors() == *c)
}

#[test]
fn new_app_has_one_generated_ramp() {
    let app = App::new();
    assert_eq!(app.swatch_count(), 1);
    assert_eq!(app.current_swatch_index(), 0);
    assert_eq!(app.generated_colors()[0].len(), 8);
    assert!(cache_matches(&app));
}

#[test]
fn removing_the_only_ramp_does_nothing() {
    let mut app = App::new();
    app.remove_swatch(0);
    assert_eq!(app.swatch_count(), 1);
    assert!(cache_matches(&app));
}

#[test]
fn add_and_remove_ramps() {
    let mut app = App::new();
    app.add_swatch(ramp(3));
    app.add_swatch(ramp(5));
    assert_eq!(sizes(&app), vec![8, 3, 5]);
    assert!(cache_matches(&app));
    app.select_swatch(2);
    app.remove_swatch(2);
    // the selection moves onto the new last ramp
    assert_eq!(app.current_swatch_index(), 1);
    assert_eq!(sizes(&app), vec![8, 3]);
    app.remove_swatch(9);
    assert_eq!(sizes(&app), vec![8, 3]);
    assert!(cache_matches(&app));
}

#[test]
fn moves_follow_the_selection() {
    let mut app = App::new();
    app.add_swatch(ramp(3));
    app.add_swatch(ramp(5));
    app.select_swatch(1);
    app.move_swatch_up(1);
    assert_eq!(sizes(&app), vec![3, 8, 5]);
    assert_eq!(app.current_swatch_index(), 0);
    app.move_swatch_down(0);
    assert_eq!(sizes(&app), vec![8, 3, 5]);
    assert_eq!(app.current_swatch_index(), 1);
    app.move_swatch_down(0);
    assert_eq!(sizes(&app), vec![3, 8, 5]);
    assert_eq!(app.current_swatch_index(), 0);
    app.move_swatch_up(0);
    app.move_swatch_down(2);
    assert_eq!(sizes(&app), vec![3, 8, 5]);
    assert!(cache_matches(&app));
}

#[test]
fn swap_and_duplicate() {
    let mut app = App::new();
    app.add_swatch(ramp(3));
    app.select_swatch(0);
    app.swap_swatches(0, 1);
    assert_eq!(sizes(&app), vec![3, 8]);
    assert_eq!(app.current_swatch_index(), 1);
    app.swap_swatches(0, 0);
    app.swap_swatches(0, 7);
    assert_eq!(sizes(&app), vec![3, 8]);
    app.duplicate_swatch(0);
    assert_eq!(sizes(&app), vec![3, 3, 8]);
    assert!(cache_matches(&app));
    app.duplicate_swatch(5);
    assert_eq!(app.swatch_count(), 3);
}

#[test]
fn select_ignores_bad_indices() {
    let mut app = App::new();
    app.add_swatch(ramp(3));
    app.select_swatch(1);
    app.select_swatch(2);
    assert_eq!(app.current_swatch_index(), 1);
    assert_eq!(app.current_swatch().size(), 3);
}

#[test]
fn editing_the_current_ramp_then_regenerating() {
    let mut app = App::new();
    app.current_swatch_mut().set_size(4);
    app.current_swatch_mut().add_control_point(ONE / 2, ColorRgba::white());
    app.regenerate_current_colors();
    assert_eq!(app.generated_colors()[0].len(), 4);
    assert!(cache_matches(&app));
    app.current_swatch_mut().set_color_space(ColorSpace::OkLab);
    app.regenerate_all_colors();
    assert!(cache_matches(&app));
}
