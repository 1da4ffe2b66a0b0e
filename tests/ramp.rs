use palette_helper::{
    ColorRgba, ColorSpace, ControlPoint, CurveType, EaseIn, Linear, Palette, Swatch, ONE,
};

fn linear() -> CurveType {
    CurveType::Linear(Linear { factor: ONE })
}

fn two_point(size: usize, space: ColorSpace) -> Swatch {
    Swatch::new(
        size,
        vec![
            ControlPoint::new(0, 0, ColorRgba::from_rgb(240, 230, 220)),
            ControlPoint::new(1, ONE, ColorRgba::from_rgb(20, 20, 40)),
        ],
        linear(),
        space,
    )
}

fn positions(s: &Swatch) -> Vec<i64> {
    s.control_points().iter().map(|cp| cp.position).collect()
}

fn ids(s: &Swatch) -> Vec<u32> {
    s.control_points().iter().map(|cp| cp.id).collect()
}

#[test]
fn two_anchor_rgb_ramp_of_three() {
    let s = two_point(3, ColorSpace::Rgb);
    assert_eq!(
        s.generate_colors(),
        vec![
            ColorRgba::from_rgb(240, 230, 220),
            ColorRgba::from_rgb(130, 125, 130),
            ColorRgba::from_rgb(20, 20, 40),
        ]
    );
}

#[test]
fn no_control_points_gives_black() {
    for size in [0usize, 1, 2, 7, 100] {
        let s = Swatch::new(size, vec![], linear(), ColorSpace::OkLCh);
        let colors = s.generate_colors();
        assert_eq!(colors.len(), size);
        assert!(colors.iter().all(|c| *c == ColorRgba::black()));
    }
}

#[test]
fn generated_length_matches_size() {
    for space in ColorSpace::all() {
        for size in 1usize..=12 {
            assert_eq!(two_point(size, space).generate_colors().len(), size);
        }
    }
}

#[test]
fn generating_twice_gives_the_same_colors() {
    for space in ColorSpace::all() {
        let s = two_point(9, space);
        assert_eq!(s.generate_colors(), s.generate_colors());
    }
}

#[test]
fn sampling_at_an_anchor_gives_its_color() {
    let mut s = two_point(5, ColorSpace::Rgb);
    s.add_control_point(ONE / 2, ColorRgba::from_rgb(200, 10, 10));
    // positions 0, 1/4, 1/2, 3/4, 1: outputs 0, 2 and 4 sit on anchors
    let colors = s.generate_colors();
    assert_eq!(colors[0], ColorRgba::from_rgb(240, 230, 220));
    assert_eq!(colors[2], ColorRgba::from_rgb(200, 10, 10));
    assert_eq!(colors[4], ColorRgba::from_rgb(20, 20, 40));
    // in the perceptual spaces the color comes back within the 8-bit quantization
    for space in [ColorSpace::OkLab, ColorSpace::OkLCh] {
        s.set_color_space(space);
        let colors = s.generate_colors();
        for (i, want) in [(0usize, (240, 230, 220)), (2, (200, 10, 10)), (4, (20, 20, 40))] {
            let c = colors[i];
            assert!((c.r as i32 - want.0).abs() <= 1 && (c.g as i32 - want.1).abs() <= 1 && (c.b as i32 - want.2).abs() <= 1, "{:?} {:?}", space, c);
        }
    }
}

#[test]
fn single_anchor_extrapolates_both_ways() {
    let s = Swatch::new(
        3,
        vec![ControlPoint::new(7, ONE / 2, ColorRgba::from_rgb(100, 100, 100))],
        linear(),
        ColorSpace::Rgb,
    );
    let colors = s.generate_colors();
    // lighter before the point, darker after it, the point itself in the middle
    assert_eq!(colors[0], ColorRgba::from_rgb(178, 178, 178));
    assert_eq!(colors[1], ColorRgba::from_rgb(100, 100, 100));
    assert_eq!(colors[2], ColorRgba::from_rgb(50, 50, 50));
    // one output samples the middle
    let one = Swatch::new(1, vec![ControlPoint::new(0, ONE / 2, ColorRgba::from_rgb(1, 2, 3))], linear(), ColorSpace::OkLab);
    assert_eq!(one.generate_colors(), vec![ColorRgba::from_rgb(1, 2, 3)]);
}

#[test]
fn extrapolates_beyond_inner_anchors() {
    let s = Swatch::new(
        5,
        vec![
            ControlPoint::new(0, ONE / 4, ColorRgba::from_rgb(200, 200, 200)),
            ControlPoint::new(1, ONE * 3 / 4, ColorRgba::from_rgb(100, 100, 100)),
        ],
        linear(),
        ColorSpace::Rgb,
    );
    let colors = s.generate_colors();
    // at 0 the whole region before the first anchor is covered: white
    assert_eq!(colors[0], ColorRgba::white());
    assert_eq!(colors[1], ColorRgba::from_rgb(200, 200, 200));
    assert_eq!(colors[2], ColorRgba::from_rgb(150, 150, 150));
    assert_eq!(colors[3], ColorRgba::from_rgb(100, 100, 100));
    assert_eq!(colors[4], ColorRgba::black());
}

#[test]
fn recoloring_an_anchor_is_local() {
    let mut s = Swatch::new(
        9,
        vec![
            ControlPoint::new(0, 0, ColorRgba::from_rgb(250, 250, 250)),
            ControlPoint::new(1, ONE / 4, ColorRgba::from_rgb(200, 150, 100)),
            ControlPoint::new(2, ONE / 2, ColorRgba::from_rgb(150, 100, 50)),
            ControlPoint::new(3, ONE * 3 / 4, ColorRgba::from_rgb(100, 50, 25)),
            ControlPoint::new(4, ONE, ColorRgba::from_rgb(10, 10, 10)),
        ],
        CurveType::EaseIn(EaseIn { exponent_tenths: 20 }),
        ColorSpace::OkLCh,
    );
    let before = s.generate_colors();
    s.set_control_point_color_by_id(2, ColorRgba::from_rgb(0, 200, 255));
    let after = s.generate_colors();
    // outputs at 0, 1/8 (before the previous anchor) and 7/8, 1 (after the next) stay
    for i in [0usize, 1, 7, 8] {
        assert_eq!(before[i], after[i], "output {}", i);
    }
    assert_ne!(before[4], after[4]);
}

#[test]
fn new_sorts_and_clamps() {
    let s = Swatch::new(
        4,
        vec![
            ControlPoint { id: 5, position: ONE * 2, color: ColorRgba::black() },
            ControlPoint { id: 3, position: -7, color: ColorRgba::white() },
            ControlPoint { id: 9, position: ONE / 2, color: ColorRgba::white() },
        ],
        linear(),
        ColorSpace::Rgb,
    );
    assert_eq!(positions(&s), vec![0, ONE / 2, ONE]);
    assert_eq!(ids(&s), vec![3, 9, 5]);
    let mut s = s;
    s.add_control_point(ONE / 4, ColorRgba::black());
    // the next id follows the greatest id given
    assert_eq!(s.find_control_point_index_by_id(10), Some(1));
}

#[test]
fn add_control_point_assigns_ids_and_keeps_order() {
    let mut s = two_point(4, ColorSpace::Rgb);
    s.add_control_point(ONE / 2, ColorRgba::white());
    s.add_control_point(-3, ColorRgba::white());
    s.add_control_point(ONE / 2, ColorRgba::black());
    assert_eq!(positions(&s), vec![0, 0, ONE / 2, ONE / 2, ONE]);
    // equal positions: the newer point goes after
    assert_eq!(ids(&s), vec![0, 3, 2, 4, 1]);
}

#[test]
fn remove_control_points() {
    let mut s = two_point(4, ColorSpace::Rgb);
    s.remove_control_point(5);
    assert_eq!(s.control_points().len(), 2);
    s.remove_control_point(0);
    assert_eq!(ids(&s), vec![1]);
    s.remove_control_point_by_id(42);
    assert_eq!(ids(&s), vec![1]);
    s.remove_control_point_by_id(1);
    assert!(s.control_points().is_empty());
    assert!(s.generate_colors().iter().all(|c| *c == ColorRgba::black()));
}

#[test]
fn set_color_and_position() {
    let mut s = two_point(4, ColorSpace::Rgb);
    s.set_control_point_color(1, ColorRgba::from_rgb(1, 2, 3));
    assert_eq!(s.control_points()[1].color, ColorRgba::from_rgb(1, 2, 3));
    s.set_control_point_color(9, ColorRgba::white());
    s.set_control_point_color_by_id(0, ColorRgba::from_rgb(9, 9, 9));
    assert_eq!(s.control_points()[0].color, ColorRgba::from_rgb(9, 9, 9));
    // moving the first point past the second reorders them
    s.set_control_point_position(0, 3 * ONE);
    assert_eq!(ids(&s), vec![1, 0]);
    assert_eq!(positions(&s), vec![ONE, ONE]);
    s.set_control_point_position_by_id(1, ONE / 3);
    assert_eq!(positions(&s), vec![ONE / 3, ONE]);
    assert_eq!(s.find_control_point_index_by_id(0), Some(1));
    assert_eq!(s.find_control_point_index_by_id(7), None);
}

#[test]
fn swap_positions_by_id() {
    let mut s = two_point(4, ColorSpace::Rgb);
    s.add_control_point(ONE / 4, ColorRgba::from_rgb(5, 5, 5));
    s.swap_control_points_by_id(0, 2);
    assert_eq!(ids(&s), vec![2, 0, 1]);
    assert_eq!(positions(&s), vec![0, ONE / 4, ONE]);
    assert_eq!(s.control_points()[0].color, ColorRgba::from_rgb(5, 5, 5));
    // an unknown id changes nothing
    s.swap_control_points_by_id(0, 99);
    assert_eq!(ids(&s), vec![2, 0, 1]);
}

#[test]
fn find_point_near_a_position() {
    let s = two_point(4, ColorSpace::Rgb);
    assert_eq!(s.has_control_point_at(10, 20), Some(0));
    assert_eq!(s.has_control_point_at(ONE - 5, 5), Some(1));
    assert_eq!(s.has_control_point_at(ONE / 2, 1000), None);
}

#[test]
fn default_swatch_and_palette() {
    let s = Swatch::default();
    assert_eq!(s.size(), 8);
    assert_eq!(positions(&s), vec![0, ONE]);
    assert_eq!(s.interpolation_curve(), linear());
    assert_eq!(s.color_space(), ColorSpace::Rgb);
    let colors = s.generate_colors();
    assert_eq!(colors[0], ColorRgba::from_rgb(240, 230, 220));
    assert_eq!(colors[7], ColorRgba::from_rgb(20, 20, 40));
    let mut p = Palette::new();
    assert_eq!(p.len(), 1);
    p.add_swatch(two_point(3, ColorSpace::OkLab));
    assert_eq!(p.len(), 2);
    assert_eq!(p.get(1).size(), 3);
    let copy = p.get(1).duplicate();
    assert_eq!(copy.generate_colors(), p.get(1).generate_colors());
}
