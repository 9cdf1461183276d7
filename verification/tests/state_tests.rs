use globe_viewer::state::layout::Command;
use globe_viewer::state::variable::{MouseInput, MouseVariables};
use globe_viewer::state::viewports::{DivDirection, Division, PixelRect, ViewPort, ViewRect, UNIT};
use globe_viewer::state::GlobalState;

#[derive(Clone, Copy, Debug, PartialEq)]
struct Camera {
    yaw: i32,
    pitch: i32,
}

const START: Camera = Camera { yaw: 0, pitch: 0 };

fn whole() -> ViewRect {
    ViewRect { left: 0, right: UNIT, bottom: 0, top: UNIT }
}

fn ids(state: &GlobalState<Camera>) -> Vec<usize> {
    state.viewports().iter().map(|v| v.div_id).collect()
}

fn settings_keys(state: &GlobalState<Camera>) -> Vec<usize> {
    (0..state.divisions().values.len() + 4)
        .filter(|id| state.get_vp_settings(*id).is_some())
        .collect()
}

fn depth(state: &GlobalState<Camera>, id: usize) -> usize {
    match state.divisions()[id].unwrap() {
        Division::Leaf { .. } => 0,
        Division::Ratio { a, b, .. } => 1 + depth(state, a).max(depth(state, b)),
    }
}

fn three_panels() -> GlobalState<Camera> {
    let mut state = GlobalState::new(START, whole());
    state.split_panel(0, DivDirection::Vertical(500_000));
    state.split_panel(2, DivDirection::Horizontal(300_000));
    state
}

const FRAME: (u32, u32) = (1000, 500);

/// A sample of a pointer that is at the fraction `position` of the frame,
/// counted from the bottom-left corner.
fn sample(position: [i32; 2], pressed: bool, on_ui: bool) -> MouseInput {
    let x = position[0] as i64 * FRAME.0 as i64;
    let y = (UNIT - position[1]) as i64 * FRAME.1 as i64;
    MouseInput { position: [x, y], hovered: 0, pressed, pressed_on_ui: false, on_ui }
}

#[test]
fn a_new_layout_has_one_panel() {
    let main = ViewRect { left: 333_300, right: UNIT, bottom: 0, top: UNIT };
    let state = GlobalState::new(Camera { yaw: 3, pitch: 4 }, main);
    assert_eq!(state.camera, Camera { yaw: 3, pitch: 4 });
    assert_eq!(state.main_viewport(), main);
    assert_eq!(state.viewports(), &vec![ViewPort { div_id: 0, rect: main }]);
    assert_eq!(
        state.divisions().values,
        vec![Some(Division::Leaf { selected: 0, id: 0, parent: None })]
    );
    assert_eq!(settings_keys(&state), vec![0]);
    let settings = state.get_vp_settings(0).unwrap();
    assert!(settings.menu_open);
    assert!(!settings.show_range);
    assert!(settings.cam.is_none());
    assert!(state.is_panel(0));
    assert!(!state.is_panel(1));
    assert_eq!(state.mouse_vars().viewport_pressed, None);
    assert_eq!(state.mouse_vars().hover_time, 250);
}

#[test]
fn two_splits_and_a_collapse() {
    let mut state = GlobalState::new(START, whole());
    state.split_panel(0, DivDirection::Vertical(500_000));
    assert_eq!(
        state.viewports(),
        &vec![
            ViewPort {
                div_id: 1,
                rect: ViewRect { left: 0, right: UNIT, bottom: 0, top: 500_000 },
            },
            ViewPort {
                div_id: 2,
                rect: ViewRect { left: 0, right: UNIT, bottom: 500_000, top: UNIT },
            },
        ]
    );

    let top = state.viewports()[1].div_id;
    state.split_panel(top, DivDirection::Horizontal(300_000));
    assert_eq!(
        state.viewports(),
        &vec![
            ViewPort {
                div_id: 1,
                rect: ViewRect { left: 0, right: UNIT, bottom: 0, top: 500_000 },
            },
            ViewPort {
                div_id: 3,
                rect: ViewRect { left: 0, right: 300_000, bottom: 500_000, top: UNIT },
            },
            ViewPort {
                div_id: 4,
                rect: ViewRect { left: 300_000, right: UNIT, bottom: 500_000, top: UNIT },
            },
        ]
    );
    assert_eq!(depth(&state, 0), 2);

    state.select_field(3, 7);
    state.select_field(4, 9);
    state.collapse_panel(3);
    assert_eq!(
        state.viewports(),
        &vec![
            ViewPort {
                div_id: 1,
                rect: ViewRect { left: 0, right: UNIT, bottom: 0, top: 500_000 },
            },
            ViewPort {
                div_id: 2,
                rect: ViewRect { left: 0, right: UNIT, bottom: 500_000, top: UNIT },
            },
        ]
    );
    assert_eq!(depth(&state, 0), 1);
    assert_eq!(state.divisions()[2].unwrap().get_selected(), Some(7));
    assert_eq!(state.divisions()[3], None);
    assert_eq!(state.divisions()[4], None);
}

#[test]
fn own_camera_turns_alone() {
    let mut state = three_panels();
    let (a, b, c) = (1, 3, 4);
    assert_eq!(ids(&state), vec![a, b, c]);

    state.give_vp_global_cam(a);
    state.get_vp_camera_mut(a).yaw += 30;
    assert_eq!(*state.get_vp_camera(a), Camera { yaw: 30, pitch: 0 });
    assert_eq!(*state.get_vp_camera(b), START);
    assert_eq!(*state.get_vp_camera(c), START);
    assert_eq!(state.camera, START);

    state.get_vp_camera_mut(b).pitch -= 5;
    assert_eq!(*state.get_vp_camera(b), Camera { yaw: 0, pitch: -5 });
    assert_eq!(*state.get_vp_camera(c), Camera { yaw: 0, pitch: -5 });
    assert_eq!(state.camera, Camera { yaw: 0, pitch: -5 });
    assert_eq!(*state.get_vp_camera(a), Camera { yaw: 30, pitch: 0 });
}

#[test]
fn own_camera_starts_as_a_copy_of_the_shared_one() {
    let mut state = three_panels();
    state.camera = Camera { yaw: 12, pitch: 34 };
    assert!(!state.vp_has_cam(3));
    state.give_vp_global_cam(3);
    assert!(state.vp_has_cam(3));
    assert!(!state.vp_has_cam(1));
    assert!(!state.vp_has_cam(99));
    state.camera = Camera { yaw: 0, pitch: 1 };
    assert_eq!(*state.get_vp_camera(3), Camera { yaw: 12, pitch: 34 });
    assert_eq!(*state.get_vp_camera(1), Camera { yaw: 0, pitch: 1 });
    assert_eq!(*state.get_vp_camera(99), Camera { yaw: 0, pitch: 1 });

    state.remove_vp_cam(3);
    assert!(!state.vp_has_cam(3));
    assert_eq!(*state.get_vp_camera(3), Camera { yaw: 0, pitch: 1 });
    assert!(state.get_vp_settings(3).unwrap().menu_open);
}

#[test]
fn camera_of_an_unknown_panel_is_the_shared_one() {
    let mut state = GlobalState::new(START, whole());
    state.get_vp_camera_mut(42).yaw = 9;
    assert_eq!(state.camera, Camera { yaw: 9, pitch: 0 });
}

#[test]
fn settings_follow_the_leaves() {
    let mut state = GlobalState::new(START, whole());
    assert_eq!(settings_keys(&state), ids(&state));

    state.split_panel(0, DivDirection::Vertical(500_000));
    assert_eq!(ids(&state), vec![1, 2]);
    assert_eq!(settings_keys(&state), vec![1, 2]);

    state.split_panel(1, DivDirection::Horizontal(500_000));
    assert_eq!(ids(&state), vec![3, 4, 2]);
    assert_eq!(settings_keys(&state), vec![2, 3, 4]);

    state.split_panel(4, DivDirection::Horizontal(500_000));
    assert_eq!(ids(&state), vec![3, 5, 6, 2]);
    assert_eq!(settings_keys(&state), vec![2, 3, 5, 6]);

    state.collapse_panel(3);
    assert_eq!(ids(&state), vec![1, 2]);
    assert_eq!(settings_keys(&state), vec![1, 2]);

    state.handle_resize(750, 1_000_000, |camera| camera);
    assert_eq!(settings_keys(&state), vec![1, 2]);

    state.collapse_all();
    assert_eq!(ids(&state), vec![0]);
    assert_eq!(settings_keys(&state), vec![0]);
}

#[test]
fn rebuild_keeps_what_is_remembered() {
    let mut state = three_panels();
    state.give_vp_global_cam(3);
    state.get_vp_camera_mut(3).yaw = 45;
    *state.get_vp_menu_open_mut(4).unwrap() = false;
    state.rebuild_viewports();

    assert_eq!(ids(&state), vec![1, 3, 4]);
    assert_eq!(*state.get_vp_camera(3), Camera { yaw: 45, pitch: 0 });
    assert_eq!(state.get_vp_menu_open(4), Some(false));
    assert_eq!(state.get_vp_menu_open(1), Some(true));
    assert_eq!(state.get_vp_menu_open(0), None);
    assert_eq!(state.get_vp_menu_open(2), None);
}

#[test]
fn new_panels_start_with_default_settings() {
    let mut state = GlobalState::new(START, whole());
    state.give_vp_global_cam(0);
    *state.get_vp_menu_open_mut(0).unwrap() = false;
    state.select_field(0, 5);
    state.split_panel(0, DivDirection::Horizontal(500_000));

    for id in [1, 2] {
        let settings = state.get_vp_settings(id).unwrap();
        assert!(settings.menu_open);
        assert!(!settings.show_range);
        assert!(settings.cam.is_none());
        assert_eq!(state.divisions()[id].unwrap().get_selected(), Some(5));
    }
    assert!(state.get_vp_settings(0).is_none());
    assert!(state.get_vp_menu_open_mut(0).is_none());
}

#[test]
fn collapse_hands_the_settings_to_the_parent() {
    let mut state = three_panels();
    state.give_vp_global_cam(4);
    state.get_vp_camera_mut(4).pitch = 60;
    *state.get_vp_menu_open_mut(4).unwrap() = false;
    state.give_vp_global_cam(3);
    state.select_field(4, 2);

    state.collapse_panel(4);
    assert_eq!(ids(&state), vec![1, 2]);
    assert_eq!(state.divisions()[2].unwrap().get_selected(), Some(2));
    assert_eq!(state.divisions()[2].unwrap().get_parent(), Some(0));
    assert!(state.vp_has_cam(2));
    assert_eq!(*state.get_vp_camera(2), Camera { yaw: 0, pitch: 60 });
    assert_eq!(state.get_vp_menu_open(2), Some(false));
    assert!(!state.vp_has_cam(1));
    assert_eq!(state.get_vp_menu_open(1), Some(true));
    assert!(state.get_vp_settings(3).is_none());
    assert!(state.get_vp_settings(4).is_none());
}

#[test]
fn collapse_takes_a_split_sibling_along() {
    let mut state = GlobalState::new(START, whole());
    state.split_panel(0, DivDirection::Vertical(500_000));
    state.split_panel(2, DivDirection::Horizontal(500_000));
    state.split_panel(4, DivDirection::Vertical(500_000));
    assert_eq!(ids(&state), vec![1, 3, 5, 6]);
    state.select_field(1, 8);

    state.collapse_panel(1);
    assert_eq!(ids(&state), vec![0]);
    assert_eq!(
        state.divisions().values,
        vec![
            Some(Division::Leaf { selected: 8, parent: None, id: 0 }),
            None,
            None,
            None,
            None,
            None,
            None,
        ]
    );
    assert_eq!(settings_keys(&state), vec![0]);
    assert_eq!(state.viewports(), &vec![ViewPort { div_id: 0, rect: whole() }]);
}

#[test]
fn collapse_all_starts_afresh() {
    let mut state = three_panels();
    state.give_vp_global_cam(1);
    state.select_field(1, 4);
    state.collapse_all();
    assert_eq!(state.viewports(), &vec![ViewPort { div_id: 0, rect: whole() }]);
    assert_eq!(
        state.divisions()[0],
        Some(Division::Leaf { selected: 0, parent: None, id: 0 })
    );
    assert_eq!(settings_keys(&state), vec![0]);
    assert!(!state.vp_has_cam(0));
    assert_eq!(state.get_vp_menu_open(0), Some(true));
}

#[test]
fn collapse_all_leaves_a_single_panel_alone() {
    let mut state = GlobalState::new(START, whole());
    state.select_field(0, 4);
    state.give_vp_global_cam(0);
    *state.get_vp_menu_open_mut(0).unwrap() = false;
    state.collapse_all();
    assert_eq!(state.divisions()[0].unwrap().get_selected(), Some(4));
    assert!(state.vp_has_cam(0));
    assert_eq!(state.get_vp_menu_open(0), Some(false));
}

#[test]
fn hide_menus_and_lock_globes_reach_every_panel() {
    let mut state = three_panels();
    state.give_vp_global_cam(1);
    state.give_vp_global_cam(4);
    *state.get_vp_menu_open_mut(3).unwrap() = false;

    state.hide_menus();
    for id in [1, 3, 4] {
        assert_eq!(state.get_vp_menu_open(id), Some(false));
    }
    assert!(state.vp_has_cam(1));
    assert!(!state.vp_has_cam(3));
    assert!(state.vp_has_cam(4));

    state.lock_globes();
    for id in [1, 3, 4] {
        assert!(!state.vp_has_cam(id));
        assert_eq!(state.get_vp_menu_open(id), Some(false));
    }
    assert_eq!(settings_keys(&state), vec![1, 3, 4]);
}

#[test]
fn resize_moves_the_left_edge() {
    let mut state = three_panels();
    state.give_vp_global_cam(3);
    state.handle_resize(750, 1_000_000, |camera| camera);
    assert_eq!(
        state.main_viewport(),
        ViewRect { left: 400_000, right: UNIT, bottom: 0, top: UNIT }
    );
    assert_eq!(
        state.viewports(),
        &vec![
            ViewPort {
                div_id: 1,
                rect: ViewRect { left: 400_000, right: UNIT, bottom: 0, top: 500_000 },
            },
            ViewPort {
                div_id: 3,
                rect: ViewRect { left: 400_000, right: 580_000, bottom: 500_000, top: UNIT },
            },
            ViewPort {
                div_id: 4,
                rect: ViewRect { left: 580_000, right: UNIT, bottom: 500_000, top: UNIT },
            },
        ]
    );
    assert!(state.vp_has_cam(3));
}

#[test]
fn panels_squeezed_out_by_a_resize_are_not_drawn() {
    let mut state = three_panels();
    state.handle_resize(250, 1_000_000, |camera| camera);
    assert_eq!(state.main_viewport().left, 1_200_000);
    assert_eq!(state.viewports().len(), 3);
    assert!(state.viewports().iter().all(|v| !v.can_render()));
    assert!(state.render_viewports((800, 600)).is_empty());
    assert_eq!(state.on_viewport([1_100_000, 250_000]), None);

    state.handle_resize(u32::MAX, 1_000_000, |camera| camera);
    assert_eq!(state.main_viewport().left, 0);
    assert_eq!(state.render_viewports((800, 600)).len(), 3);
}

#[test]
fn the_menu_column_takes_its_share_of_the_window() {
    let mut state = GlobalState::new(START, whole());
    assert_eq!(state.menu_width(), 300);
    state.handle_resize(900, 1_000_000, |camera| camera);
    assert_eq!(state.main_viewport().left, 333_333);
    state.handle_resize(900, 2_000_000, |camera| camera);
    assert_eq!(state.main_viewport().left, 166_667);
    state.handle_resize(1024, 1_500_000, |camera| camera);
    assert_eq!(state.main_viewport().left, 195_313);
    state.handle_resize(300, 1_000_000, |camera| camera);
    assert_eq!(state.main_viewport().left, 1_000_000);
    state.handle_resize(1, 1, |camera| camera);
    assert_eq!(state.main_viewport().left, i32::MAX);
    state.handle_resize(0, 1_000_000, |camera| camera);
    assert_eq!(state.main_viewport().left, i32::MAX);
    state.handle_resize(900, 0, |camera| camera);
    assert_eq!(state.main_viewport().left, i32::MAX);
    assert_eq!(
        state.main_viewport(),
        ViewRect { left: i32::MAX, right: UNIT, bottom: 0, top: UNIT }
    );
}

#[test]
fn render_list_resolves_each_panel() {
    let mut state = three_panels();
    state.camera = Camera { yaw: 1, pitch: 2 };
    state.give_vp_global_cam(3);
    state.get_vp_camera_mut(3).yaw = 90;
    state.select_field(4, 6);
    state.split_panel(1, DivDirection::Horizontal(0));

    let draws = state.render_viewports((1000, 500));
    assert_eq!(ids(&state), vec![5, 6, 3, 4]);
    assert_eq!(draws.len(), 3);

    assert_eq!(draws[0].div_id, 6);
    assert_eq!(draws[0].rect, ViewRect { left: 0, right: UNIT, bottom: 0, top: 500_000 });
    assert_eq!(draws[0].pixels, PixelRect { left: 0, bottom: 0, width: 1000, height: 250 });
    assert_eq!(draws[0].selected, 0);
    assert_eq!(draws[0].camera, Camera { yaw: 1, pitch: 2 });
    assert!(!draws[0].show_range);

    assert_eq!(draws[1].div_id, 3);
    assert_eq!(draws[1].pixels, PixelRect { left: 0, bottom: 250, width: 300, height: 250 });
    assert_eq!(draws[1].camera, Camera { yaw: 90, pitch: 2 });

    assert_eq!(draws[2].div_id, 4);
    assert_eq!(draws[2].pixels, PixelRect { left: 300, bottom: 250, width: 700, height: 250 });
    assert_eq!(draws[2].selected, 6);
    assert_eq!(draws[2].camera, Camera { yaw: 1, pitch: 2 });
}

#[test]
fn on_viewport_finds_the_panel_under_a_point() {
    let state = three_panels();
    assert_eq!(state.on_viewport([500_000, 250_000]), Some(0));
    assert_eq!(state.on_viewport([100_000, 750_000]), Some(1));
    assert_eq!(state.on_viewport([900_000, 750_000]), Some(2));
    assert_eq!(state.on_viewport([300_000, 750_000]), None);
    assert_eq!(state.on_viewport([500_000, 500_000]), None);
    assert_eq!(state.on_viewport([-1, 250_000]), None);
    assert_eq!(state.on_viewport([500_000, 1_000_001]), None);
}

#[test]
fn a_press_latches_the_panel_until_release() {
    let mut state = three_panels();
    state.handle_mouse(&sample([100_000, 750_000], false, false), FRAME);
    assert_eq!(state.mouse_vars().viewport_pressed, None);
    assert_eq!(state.mouse_vars().position, [100_000, 750_000]);

    state.handle_mouse(&sample([100_000, 750_000], true, false), FRAME);
    assert_eq!(state.mouse_vars().viewport_pressed, Some(1));
    assert!(state.mouse_vars().m1_pressed);

    state.handle_mouse(&sample([900_000, 750_000], true, false), FRAME);
    assert_eq!(state.mouse_vars().viewport_pressed, Some(1));
    state.handle_mouse(&sample([500_000, 250_000], true, true), FRAME);
    assert_eq!(state.mouse_vars().viewport_pressed, Some(1));
    state.handle_mouse(&sample([-5, 2_000_000], true, false), FRAME);
    assert_eq!(state.mouse_vars().viewport_pressed, Some(1));

    state.handle_mouse(&sample([500_000, 250_000], false, false), FRAME);
    assert_eq!(state.mouse_vars().viewport_pressed, None);
    assert!(!state.mouse_vars().m1_pressed);
}

#[test]
fn a_press_outside_every_panel_latches_none() {
    let mut state = three_panels();
    state.handle_mouse(&sample([500_000, 500_000], true, false), FRAME);
    assert_eq!(state.mouse_vars().viewport_pressed, None);
    state.handle_mouse(&sample([500_000, 250_000], true, false), FRAME);
    assert_eq!(state.mouse_vars().viewport_pressed, None);
}

#[test]
fn over_the_menus_the_latch_stays_as_it_is() {
    let mut state = three_panels();
    state.handle_mouse(&sample([500_000, 250_000], true, true), FRAME);
    assert_eq!(state.mouse_vars().viewport_pressed, None);
    assert!(state.mouse_vars().m1_pressed);
    state.handle_mouse(&sample([500_000, 250_000], false, false), FRAME);
    state.handle_mouse(&sample([500_000, 250_000], true, false), FRAME);
    assert_eq!(state.mouse_vars().viewport_pressed, Some(0));
    state.handle_mouse(&sample([500_000, 250_000], false, true), FRAME);
    assert_eq!(state.mouse_vars().viewport_pressed, Some(0));
    assert!(!state.mouse_vars().m1_pressed);
}

#[test]
fn a_drag_turns_the_camera_of_the_latched_panel() {
    let mut state = three_panels();
    state.give_vp_global_cam(3);

    state.get_drag_camera_mut().yaw += 1;
    assert_eq!(state.camera, Camera { yaw: 1, pitch: 0 });

    state.handle_mouse(&sample([100_000, 750_000], true, false), FRAME);
    state.handle_mouse(&sample([900_000, 100_000], true, false), FRAME);
    state.get_drag_camera_mut().yaw += 10;
    assert_eq!(*state.get_vp_camera(3), Camera { yaw: 10, pitch: 0 });
    assert_eq!(state.camera, Camera { yaw: 1, pitch: 0 });

    state.handle_mouse(&sample([900_000, 100_000], false, false), FRAME);
    state.handle_mouse(&sample([900_000, 100_000], true, false), FRAME);
    state.get_drag_camera_mut().pitch += 7;
    assert_eq!(state.camera, Camera { yaw: 1, pitch: 7 });
    assert_eq!(*state.get_vp_camera(1), Camera { yaw: 1, pitch: 7 });
    assert_eq!(*state.get_vp_camera(3), Camera { yaw: 10, pitch: 0 });
}

#[test]
fn the_pointer_is_placed_by_fractions_of_the_frame() {
    let mut mouse = MouseVariables::new();
    let mut input = sample([0, 0], false, false);

    input.position = [250_000_000, 125_000_000];
    mouse.handle_mouse(&input, &[], (1000, 500));
    assert_eq!(mouse.position, [250_000, 750_000]);

    input.position = [0, 0];
    mouse.handle_mouse(&input, &[], (1000, 500));
    assert_eq!(mouse.position, [0, 1_000_000]);

    input.position = [1_000_000_000, 500_000_000];
    mouse.handle_mouse(&input, &[], (1000, 500));
    assert_eq!(mouse.position, [1_000_000, 0]);

    input.position = [1_000_000, 1_000_000];
    mouse.handle_mouse(&input, &[], (3, 7));
    assert_eq!(mouse.position, [333_333, 857_143]);

    input.position = [-1_000_000, -1_000_000];
    mouse.handle_mouse(&input, &[], (3, 7));
    assert_eq!(mouse.position, [-333_333, 1_142_857]);

    input.position = [i64::MAX, i64::MAX];
    mouse.handle_mouse(&input, &[], (1, 1));
    assert_eq!(mouse.position, [i32::MAX, i32::MIN + 1_000_001]);

    input.position = [i64::MIN, i64::MIN];
    mouse.handle_mouse(&input, &[], (1, 1));
    assert_eq!(mouse.position, [i32::MIN, i32::MAX]);

    input.position = [5, 5];
    mouse.handle_mouse(&input, &[], (0, 0));
    assert_eq!(mouse.position, [i32::MAX, i32::MIN + 1_000_001]);
}

#[test]
fn a_frame_without_extent_has_no_panel_under_the_pointer() {
    let mut state = three_panels();
    let input = MouseInput {
        position: [500_000_000, 100_000_000],
        hovered: 0,
        pressed: true,
        pressed_on_ui: false,
        on_ui: false,
    };
    state.handle_mouse(&input, (0, 500));
    assert_eq!(state.mouse_vars().viewport_pressed, None);
    state.handle_mouse(&sample([0, 0], false, false), FRAME);
    state.handle_mouse(&input, (1000, 500));
    assert_eq!(state.mouse_vars().position, [500_000, 800_000]);
    assert_eq!(state.mouse_vars().viewport_pressed, Some(2));
}

#[test]
fn hovering_takes_a_quarter_of_a_second() {
    let mut mouse = MouseVariables::new();
    assert!(!mouse.hovered);
    let mut input = sample([0, 0], false, false);
    input.hovered = 249;
    mouse.handle_mouse(&input, &[], FRAME);
    assert!(!mouse.hovered);
    input.hovered = 250;
    mouse.handle_mouse(&input, &[], FRAME);
    assert!(mouse.hovered);
}

#[test]
fn tracked_pointer_finds_the_first_viewport_that_holds_it() {
    let overlapping = [
        ViewPort { div_id: 7, rect: ViewRect { left: 0, right: 10, bottom: 0, top: 10 } },
        ViewPort { div_id: 8, rect: ViewRect { left: 5, right: 20, bottom: 0, top: 10 } },
        ViewPort { div_id: 9, rect: ViewRect { left: 0, right: 20, bottom: 0, top: 10 } },
    ];
    let mut mouse = MouseVariables::new();
    mouse.position = [7, 5];
    assert_eq!(mouse.on_viewport(&overlapping), Some(0));
    mouse.position = [12, 5];
    assert_eq!(mouse.on_viewport(&overlapping), Some(1));
    mouse.position = [5, 5];
    assert_eq!(mouse.on_viewport(&overlapping), Some(0));
    mouse.position = [20, 5];
    assert_eq!(mouse.on_viewport(&overlapping), None);
    assert_eq!(mouse.on_viewport(&[]), None);
}

#[test]
fn a_drag_belongs_to_the_panels_unless_it_began_on_the_menus() {
    let mut input = sample([0, 0], true, false);
    assert!(input.get_drag_off_ui());
    input.pressed_on_ui = true;
    assert!(!input.get_drag_off_ui());
    input.pressed = false;
    assert!(!input.get_drag_off_ui());
    input.pressed_on_ui = false;
    assert!(!input.get_drag_off_ui());
}

#[test]
fn select_field_changes_one_leaf() {
    let mut state = three_panels();
    let before = state.viewports().clone();
    state.select_field(3, -4);
    assert_eq!(state.divisions()[3].unwrap().get_selected(), Some(-4));
    assert_eq!(state.divisions()[3].unwrap().get_parent(), Some(2));
    assert_eq!(state.divisions()[1].unwrap().get_selected(), Some(0));
    assert_eq!(state.divisions()[4].unwrap().get_selected(), Some(0));
    assert_eq!(state.viewports(), &before);
    assert!(state.is_panel(3));
    assert!(!state.is_panel(2));
    assert!(!state.is_panel(0));
}

#[test]
fn handles_of_collapsed_panels_are_used_again() {
    let mut state = three_panels();
    state.collapse_panel(3);
    assert_eq!(state.divisions().next_available(), 4);
    state.split_panel(1, DivDirection::Horizontal(500_000));
    assert_eq!(ids(&state), vec![4, 3, 2]);
    assert_eq!(settings_keys(&state), vec![2, 3, 4]);
    assert_eq!(state.divisions().values.len(), 5);
}

#[test]
fn commands_with_a_place_are_carried_out() {
    let mut state = GlobalState::new(START, whole());
    assert!(state.apply(Command::Split(0, DivDirection::Vertical(500_000))));
    assert_eq!(ids(&state), vec![1, 2]);
    assert!(state.apply(Command::Split(2, DivDirection::Horizontal(300_000))));
    assert_eq!(ids(&state), vec![1, 3, 4]);

    assert!(state.apply(Command::Select(3, 7)));
    assert_eq!(state.divisions()[3].unwrap().get_selected(), Some(7));
    assert!(state.apply(Command::GiveCamera(3)));
    assert!(state.vp_has_cam(3));
    assert!(state.apply(Command::MenuOpen(3, false)));
    assert_eq!(state.get_vp_menu_open(3), Some(false));

    assert!(state.apply(Command::Collapse(3)));
    assert_eq!(ids(&state), vec![1, 2]);
    assert_eq!(state.divisions()[2].unwrap().get_selected(), Some(7));
    assert!(state.vp_has_cam(2));
    assert_eq!(state.get_vp_menu_open(2), Some(false));

    assert!(state.apply(Command::RemoveCamera(2)));
    assert!(!state.vp_has_cam(2));
    assert!(state.apply(Command::MenuOpen(2, true)));
    assert_eq!(state.get_vp_menu_open(2), Some(true));
}

#[test]
fn commands_without_a_place_change_nothing() {
    let mut state = three_panels();
    state.give_vp_global_cam(4);
    let viewports = state.viewports().clone();
    let nodes = state.divisions().values.clone();
    let free = state.divisions().available.clone();

    let refused = [
        Command::Split(0, DivDirection::Vertical(500_000)),
        Command::Split(2, DivDirection::Horizontal(500_000)),
        Command::Split(5, DivDirection::Horizontal(500_000)),
        Command::Split(1, DivDirection::Horizontal(1_000_001)),
        Command::Split(1, DivDirection::Vertical(u32::MAX)),
        Command::Collapse(0),
        Command::Collapse(2),
        Command::Collapse(5),
        Command::Collapse(usize::MAX),
        Command::GiveCamera(0),
        Command::GiveCamera(2),
        Command::RemoveCamera(7),
        Command::MenuOpen(2, false),
        Command::Select(0, 3),
        Command::Select(2, 3),
        Command::Select(9, 3),
    ];
    for command in refused {
        assert!(!state.apply(command));
        assert_eq!(state.viewports(), &viewports);
        assert_eq!(state.divisions().values, nodes);
        assert_eq!(state.divisions().available, free);
        assert_eq!(settings_keys(&state), vec![1, 3, 4]);
        assert!(state.vp_has_cam(4));
        assert!(!state.vp_has_cam(1));
        assert_eq!(state.get_vp_menu_open(1), Some(true));
    }
}

#[test]
fn the_root_alone_cannot_be_collapsed() {
    let mut state = GlobalState::new(START, whole());
    assert!(!state.apply(Command::Collapse(0)));
    assert_eq!(ids(&state), vec![0]);
    assert!(state.apply(Command::Split(0, DivDirection::Vertical(1_000_000))));
    assert!(state.apply(Command::Split(1, DivDirection::Vertical(0))));
    assert_eq!(state.viewports().len(), 3);
    assert_eq!(state.render_viewports((100, 100)).len(), 1);
}

#[test]
fn a_resize_reaches_every_camera_once() {
    let mut state = three_panels();
    state.camera = Camera { yaw: 1, pitch: 0 };
    state.give_vp_global_cam(1);
    state.give_vp_global_cam(4);
    state.get_vp_camera_mut(4).yaw = 10;

    state.handle_resize(600, 1_000_000, |camera| Camera { pitch: camera.pitch + 1, ..camera });
    assert_eq!(state.main_viewport().left, 500_000);
    assert_eq!(state.camera, Camera { yaw: 1, pitch: 1 });
    assert_eq!(*state.get_vp_camera(1), Camera { yaw: 1, pitch: 1 });
    assert_eq!(*state.get_vp_camera(4), Camera { yaw: 10, pitch: 1 });
    assert_eq!(*state.get_vp_camera(3), Camera { yaw: 1, pitch: 1 });
    assert!(state.vp_has_cam(1));
    assert!(!state.vp_has_cam(3));
    assert!(state.vp_has_cam(4));
}

#[test]
fn change_cameras_leaves_the_rest_alone() {
    let mut state = three_panels();
    state.give_vp_global_cam(3);
    *state.get_vp_menu_open_mut(3).unwrap() = false;
    let viewports = state.viewports().clone();

    state.change_cameras(|camera| Camera { yaw: camera.yaw * 2 + 1, ..camera });
    state.change_cameras(|camera| Camera { yaw: camera.yaw * 2 + 1, ..camera });
    assert_eq!(state.camera, Camera { yaw: 3, pitch: 0 });
    assert_eq!(*state.get_vp_camera(3), Camera { yaw: 3, pitch: 0 });
    assert_eq!(state.get_vp_menu_open(3), Some(false));
    assert_eq!(state.get_vp_menu_open(1), Some(true));
    assert_eq!(settings_keys(&state), vec![1, 3, 4]);
    assert_eq!(state.viewports(), &viewports);
    assert!(!state.vp_has_cam(1));
}

#[test]
fn selections_follow_the_viewports() {
    let mut state = three_panels();
    assert_eq!(state.selections(), vec![0, 0, 0]);
    state.select_field(4, 2);
    state.select_field(1, -1);
    assert_eq!(state.selections(), vec![-1, 0, 2]);
    state.split_panel(4, DivDirection::Vertical(500_000));
    assert_eq!(state.selections(), vec![-1, 0, 2, 2]);
    state.collapse_panel(1);
    assert_eq!(state.selections(), vec![-1]);
}

#[test]
fn a_latch_beyond_the_viewports_turns_the_shared_camera() {
    let mut state = three_panels();
    state.give_vp_global_cam(4);
    state.handle_mouse(&sample([900_000, 750_000], true, false), FRAME);
    assert_eq!(state.mouse_vars().viewport_pressed, Some(2));
    state.get_drag_camera_mut().yaw = 5;
    assert_eq!(*state.get_vp_camera(4), Camera { yaw: 5, pitch: 0 });

    state.collapse_panel(1);
    assert_eq!(state.viewports().len(), 1);
    assert_eq!(state.mouse_vars().viewport_pressed, Some(2));
    state.get_drag_camera_mut().pitch = 8;
    assert_eq!(state.camera, Camera { yaw: 0, pitch: 8 });
}
