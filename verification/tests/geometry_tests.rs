use globe_viewer::sphere::{GridPoint, Sphere};
use globe_viewer::state::viewports::{DivDirection, PixelRect, ViewPort, ViewRect, UNIT};

fn unit_rect() -> ViewRect {
    ViewRect { left: 0, right: UNIT, bottom: 0, top: UNIT }
}

#[test]
fn vertical_split_in_halves() {
    let (bottom, top) = DivDirection::Vertical(500_000).divide(unit_rect());
    assert_eq!(bottom, ViewRect { left: 0, right: UNIT, bottom: 0, top: 500_000 });
    assert_eq!(top, ViewRect { left: 0, right: UNIT, bottom: 500_000, top: UNIT });
}

#[test]
fn horizontal_split_starts_from_the_left_edge() {
    let rect = ViewRect { left: 200_000, right: 1_000_000, bottom: 100_000, top: 900_000 };
    let (left, right) = DivDirection::Horizontal(250_000).divide(rect);
    assert_eq!(left, ViewRect { left: 200_000, right: 400_000, bottom: 100_000, top: 900_000 });
    assert_eq!(right, ViewRect { left: 400_000, right: 1_000_000, bottom: 100_000, top: 900_000 });
}

#[test]
fn vertical_split_starts_from_the_bottom_edge() {
    let rect = ViewRect { left: 0, right: UNIT, bottom: 500_000, top: 1_000_000 };
    let (bottom, top) = DivDirection::Vertical(300_000).divide(rect);
    assert_eq!(bottom.bottom, 500_000);
    assert_eq!(bottom.top, 650_000);
    assert_eq!(top.bottom, 650_000);
    assert_eq!(top.top, 1_000_000);
}

#[test]
fn split_point_rounds_towards_the_first_edge() {
    let rect = ViewRect { left: 0, right: 10, bottom: 0, top: 10 };
    let (left, right) = DivDirection::Horizontal(333_333).divide(rect);
    assert_eq!(left.right, 3);
    assert_eq!(right.left, 3);
    let (left, _) = DivDirection::Horizontal(999_999).divide(rect);
    assert_eq!(left.right, 9);
}

#[test]
fn ratio_zero_and_one_leave_one_part_empty() {
    let (first, second) = DivDirection::Vertical(0).divide(unit_rect());
    assert_eq!(first.top, 0);
    assert!(!ViewPort { div_id: 1, rect: first }.can_render());
    assert!(ViewPort { div_id: 2, rect: second }.can_render());
    assert_eq!(second, unit_rect());

    let (first, second) = DivDirection::Horizontal(UNIT as u32).divide(unit_rect());
    assert_eq!(first, unit_rect());
    assert_eq!(second.left, UNIT);
    assert!(!ViewPort { div_id: 2, rect: second }.can_render());
}

#[test]
fn split_of_a_rect_turned_inside_out() {
    let rect = ViewRect { left: 1_500_000, right: 1_000_000, bottom: 0, top: UNIT };
    let (left, right) = DivDirection::Horizontal(500_000).divide(rect);
    assert_eq!(left, ViewRect { left: 1_500_000, right: 1_250_000, bottom: 0, top: UNIT });
    assert_eq!(right, ViewRect { left: 1_250_000, right: 1_000_000, bottom: 0, top: UNIT });
    assert!(!ViewPort { div_id: 0, rect: left }.can_render());
    assert!(!ViewPort { div_id: 0, rect: right }.can_render());
}

#[test]
fn split_at_the_limits_of_the_coordinates() {
    let rect = ViewRect { left: i32::MIN, right: i32::MAX, bottom: i32::MAX, top: i32::MIN };
    let (left, right) = DivDirection::Horizontal(500_000).divide(rect);
    assert_eq!(left.right, -1);
    assert_eq!(right.left, -1);
    let (bottom, top) = DivDirection::Vertical(UNIT as u32).divide(rect);
    assert_eq!(bottom.top, i32::MIN);
    assert_eq!(top.bottom, i32::MIN);
}

#[test]
fn parts_have_the_area_of_the_whole() {
    let rect = ViewRect { left: 123, right: 98_765, bottom: -5_000, top: 77_777 };
    let area = |r: &ViewRect| r.width() * r.height();
    for ratio in [0u32, 1, 333_333, 500_000, 999_999, 1_000_000] {
        let (a, b) = DivDirection::Vertical(ratio).divide(rect);
        assert_eq!(area(&a) + area(&b), area(&rect));
        assert_eq!(a.top, b.bottom);
        let (a, b) = DivDirection::Horizontal(ratio).divide(rect);
        assert_eq!(area(&a) + area(&b), area(&rect));
        assert_eq!(a.right, b.left);
    }
}

#[test]
fn rect_measures_and_corners() {
    let rect = ViewRect::from_corners([100, 200], [400, 900]);
    assert_eq!(rect, ViewRect { left: 100, right: 400, bottom: 200, top: 900 });
    assert_eq!(rect.width(), 300);
    assert_eq!(rect.height(), 700);
    let wide = ViewRect { left: i32::MIN, right: i32::MAX, bottom: i32::MAX, top: i32::MIN };
    assert_eq!(wide.width(), 4_294_967_295);
    assert_eq!(wide.height(), -4_294_967_295);
}

#[test]
fn contains_leaves_the_border_out() {
    let rect = ViewRect { left: 100, right: 400, bottom: 200, top: 900 };
    assert!(rect.contains([101, 201]));
    assert!(rect.contains([399, 899]));
    assert!(!rect.contains([100, 500]));
    assert!(!rect.contains([400, 500]));
    assert!(!rect.contains([200, 200]));
    assert!(!rect.contains([200, 900]));
    assert!(!rect.contains([-5, 500]));
    let inside_out = ViewRect { left: 400, right: 100, bottom: 200, top: 900 };
    assert!(!inside_out.contains([250, 500]));
}

#[test]
fn pixels_of_a_viewport() {
    let viewport = ViewPort {
        div_id: 3,
        rect: ViewRect { left: 333_300, right: 1_000_000, bottom: 0, top: 500_000 },
    };
    assert_eq!(
        viewport.glium_viewport((900, 900)),
        PixelRect { left: 300, bottom: 0, width: 600, height: 450 }
    );
    assert_eq!(
        viewport.glium_viewport((1001, 3)),
        PixelRect { left: 334, bottom: 0, width: 667, height: 2 }
    );
}

#[test]
fn pixels_round_halves_up_each_on_its_own() {
    let viewport = ViewPort {
        div_id: 0,
        rect: ViewRect { left: 500_000, right: 1_000_000, bottom: 250_000, top: 750_000 },
    };
    assert_eq!(
        viewport.glium_viewport((3, 2)),
        PixelRect { left: 2, bottom: 1, width: 2, height: 1 }
    );
    assert_eq!(
        viewport.glium_viewport((1, 1)),
        PixelRect { left: 1, bottom: 0, width: 1, height: 1 }
    );
    assert_eq!(
        viewport.glium_viewport((0, 0)),
        PixelRect { left: 0, bottom: 0, width: 0, height: 0 }
    );
}

#[test]
fn pixels_stay_within_u32() {
    let negative = ViewPort {
        div_id: 0,
        rect: ViewRect { left: -500_000, right: -100_000, bottom: 0, top: -1 },
    };
    assert_eq!(
        negative.glium_viewport((1000, 1000)),
        PixelRect { left: 0, bottom: 0, width: 400, height: 0 }
    );
    let huge = ViewPort {
        div_id: 0,
        rect: ViewRect { left: i32::MAX, right: i32::MAX, bottom: i32::MIN, top: i32::MAX },
    };
    assert_eq!(
        huge.glium_viewport((u32::MAX, u32::MAX)),
        PixelRect { left: u32::MAX, bottom: 0, width: 0, height: u32::MAX }
    );
}

#[test]
fn pixels_of_a_logical_size() {
    let viewport = ViewPort {
        div_id: 3,
        rect: ViewRect { left: 250_000, right: 1_000_000, bottom: 0, top: 500_000 },
    };
    assert_eq!(
        viewport.glium_vp_logicalsize((800_000_000, 600_000_000)),
        PixelRect { left: 200, bottom: 0, width: 600, height: 300 }
    );
    assert_eq!(
        viewport.glium_vp_logicalsize((801_500_000, 601_000_000)),
        PixelRect { left: 200, bottom: 0, width: 601, height: 301 }
    );
    assert_eq!(
        viewport.glium_vp_logicalsize((u64::MAX, 0)),
        PixelRect { left: u32::MAX, bottom: 0, width: u32::MAX, height: 0 }
    );
}

#[test]
fn sphere_keeps_its_divisions() {
    let sphere = Sphere::new(16, 36);
    assert_eq!(sphere.vertical_divs(), 16);
    assert_eq!(sphere.horizontal_divs(), 36);
    assert_eq!(sphere.generate_vertices().len(), 6 * 16 * 36);
}

#[test]
fn sphere_grid_of_two_bands_of_two_cells() {
    let vertices = Sphere::new(2, 2).generate_vertices();
    let point = |long: u32, lat: u32| GridPoint { long, lat };
    assert_eq!(vertices.len(), 24);
    assert_eq!(
        vertices[0..6],
        [point(0, 0), point(1, 0), point(1, 1), point(0, 0), point(1, 1), point(0, 1)]
    );
    assert_eq!(
        vertices[6..12],
        [point(0, 1), point(1, 1), point(1, 2), point(0, 1), point(1, 2), point(0, 2)]
    );
    assert_eq!(
        vertices[18..24],
        [point(1, 1), point(2, 1), point(2, 2), point(1, 1), point(2, 2), point(1, 2)]
    );
}

#[test]
fn sphere_without_cells_has_no_vertices() {
    assert!(Sphere::new(0, 5).generate_vertices().is_empty());
    assert!(Sphere::new(5, 0).generate_vertices().is_empty());
}

#[test]
fn a_ratio_is_valid_up_to_one() {
    assert!(DivDirection::Vertical(0).is_valid());
    assert!(DivDirection::Horizontal(500_000).is_valid());
    assert!(DivDirection::Vertical(1_000_000).is_valid());
    assert!(!DivDirection::Horizontal(1_000_001).is_valid());
    assert!(!DivDirection::Vertical(u32::MAX).is_valid());
}
