use indexmap::IndexSet;
use pinnacle::geometry::{Point, Rectangle, Size};
use pinnacle::layout::arrange::{pending_windows, LayoutAction};
use pinnacle::output::{Output, OutputSnapshots};
use pinnacle::state::Pinnacle;
use pinnacle::window::{
    LayoutModeKind, WindowElement, WindowElementState, WindowOutput, WindowSurface,
};

const DISPLAY: u64 = 70;

fn at(x: i32, y: i32) -> Point {
    Point { x, y }
}

fn area(x: i32, y: i32, w: i32, h: i32) -> Rectangle {
    Rectangle { loc: at(x, y), size: Size { w, h } }
}

fn window(key: u64, tags: &[u32], layout_mode: LayoutModeKind) -> WindowElement {
    WindowElement {
        key,
        surface: Some(1000 + key),
        underlying_surface: WindowSurface::Wayland,
        x11_override_redirect: false,
        output: Some(WindowOutput { key: DISPLAY, location: at(1920, 0) }),
        location: None,
        mapped_on: vec![],
        state: WindowElementState {
            tags: tags.iter().copied().collect::<IndexSet<u32>>(),
            layout_mode,
            floating_loc: None,
        },
    }
}

fn display() -> Output {
    Output {
        key: DISPLAY,
        name: String::from("DP-1"),
        focused_tags: vec![1, 2],
        geometry: Some(area(1920, 0, 2560, 1440)),
        non_exclusive_zone: area(0, 30, 2560, 1410),
        layout_transaction: false,
        snapshots: OutputSnapshots { fullscreen_and_above: vec![], under_fullscreen: vec![] },
    }
}

fn arrange(windows: Vec<WindowElement>, geometries: Vec<Rectangle>) -> Vec<LayoutAction> {
    let mut pinnacle: Pinnacle<()> = Pinnacle::new();
    pinnacle.windows = windows;
    pinnacle.update_windows_with_geometries(&display(), &geometries)
}

#[test]
fn a_tiled_wayland_window_gets_its_place() {
    let actions = arrange(
        vec![window(1, &[1], LayoutModeKind::Tiled)],
        vec![area(8, 8, 640, 480)],
    );
    assert_eq!(
        actions,
        vec![
            LayoutAction::SetTiledStates { window: 1 },
            LayoutAction::SetPendingSize { window: 1, size: Size { w: 640, h: 480 } },
            LayoutAction::MapElement { window: 1, location: at(1928, 38) },
            LayoutAction::SendPendingConfigure { window: 1 },
            LayoutAction::FixupZLayering,
        ]
    );
}

#[test]
fn a_tiled_x11_window_is_configured_with_its_whole_geometry() {
    let mut win = window(1, &[2], LayoutModeKind::Tiled);
    win.underlying_surface = WindowSurface::X11;
    let actions = arrange(vec![win], vec![area(8, 8, 640, 480)]);
    assert_eq!(
        actions,
        vec![
            LayoutAction::SetTiledStates { window: 1 },
            LayoutAction::ConfigureX11 { window: 1, geometry: area(1928, 38, 640, 480) },
            LayoutAction::MapElement { window: 1, location: at(1928, 38) },
            LayoutAction::FixupZLayering,
        ]
    );
}

#[test]
fn a_hidden_window_leaves_the_space() {
    let mut win = window(1, &[5], LayoutModeKind::Tiled);
    win.location = Some(at(3, 4));
    win.mapped_on = vec![70, 71];
    assert_eq!(
        arrange(vec![win], vec![area(0, 0, 1, 1)]),
        vec![
            LayoutAction::UnmapElement { window: 1 },
            LayoutAction::ScheduleRenderWhenIdle { output: 70 },
            LayoutAction::ScheduleRenderWhenIdle { output: 71 },
            LayoutAction::FixupZLayering,
        ]
    );
}

#[test]
fn the_place_of_a_hidden_floating_window_is_remembered() {
    let mut win = window(1, &[5], LayoutModeKind::Floating);
    win.location = Some(at(3, 4));
    assert_eq!(
        arrange(vec![win], vec![]),
        vec![
            LayoutAction::SaveFloatingLocation { window: 1, location: at(3, 4) },
            LayoutAction::UnmapElement { window: 1 },
            LayoutAction::FixupZLayering,
        ]
    );
}

#[test]
fn a_hidden_floating_window_that_was_not_mapped_has_no_place_to_remember() {
    let win = window(1, &[5], LayoutModeKind::Floating);
    assert_eq!(
        arrange(vec![win], vec![]),
        vec![LayoutAction::UnmapElement { window: 1 }, LayoutAction::FixupZLayering]
    );
}

#[test]
fn windows_of_other_outputs_are_left_alone() {
    let mut elsewhere = window(1, &[1], LayoutModeKind::Tiled);
    elsewhere.output = Some(WindowOutput { key: 71, location: at(0, 0) });
    let mut nowhere = window(2, &[5], LayoutModeKind::Floating);
    nowhere.output = None;
    assert_eq!(
        arrange(vec![elsewhere, nowhere], vec![area(0, 0, 1, 1)]),
        vec![LayoutAction::FixupZLayering]
    );
}

#[test]
fn other_modes_are_mapped_where_they_belong() {
    let mut floating = window(1, &[1], LayoutModeKind::Floating);
    floating.state.floating_loc = Some(at(11, 12));
    let lost = window(2, &[1], LayoutModeKind::Floating);
    let maximized = window(3, &[1], LayoutModeKind::Maximized);
    let mut fullscreen = window(4, &[1], LayoutModeKind::Fullscreen);
    fullscreen.underlying_surface = WindowSurface::X11;
    assert_eq!(
        arrange(vec![floating, lost, maximized, fullscreen], vec![area(0, 0, 1, 1)]),
        vec![
            LayoutAction::SendPendingConfigure { window: 1 },
            LayoutAction::MapElement { window: 1, location: at(11, 12) },
            LayoutAction::SendPendingConfigure { window: 2 },
            LayoutAction::SendPendingConfigure { window: 3 },
            LayoutAction::MapElement { window: 3, location: at(1920, 30) },
            LayoutAction::MapElement { window: 4, location: at(1920, 0) },
            LayoutAction::FixupZLayering,
        ]
    );
}

#[test]
fn a_tiled_window_without_a_geometry_is_not_moved() {
    let actions = arrange(
        vec![
            window(1, &[1], LayoutModeKind::Tiled),
            window(2, &[1], LayoutModeKind::Tiled),
            window(3, &[1], LayoutModeKind::Tiled),
        ],
        vec![area(0, 0, 10, 10)],
    );
    assert_eq!(
        actions,
        vec![
            LayoutAction::SetTiledStates { window: 1 },
            LayoutAction::SetPendingSize { window: 1, size: Size { w: 10, h: 10 } },
            LayoutAction::MapElement { window: 1, location: at(1920, 30) },
            LayoutAction::SendPendingConfigure { window: 1 },
            LayoutAction::SendPendingConfigure { window: 2 },
            LayoutAction::SendPendingConfigure { window: 3 },
            LayoutAction::FixupZLayering,
        ]
    );
}

#[test]
fn override_redirect_windows_take_no_geometry() {
    let mut popup = window(1, &[1], LayoutModeKind::Tiled);
    popup.underlying_surface = WindowSurface::X11;
    popup.x11_override_redirect = true;
    let actions = arrange(
        vec![popup, window(2, &[1], LayoutModeKind::Tiled)],
        vec![area(1, 1, 10, 10), area(2, 2, 20, 20)],
    );
    assert_eq!(
        actions,
        vec![
            LayoutAction::SetTiledStates { window: 2 },
            LayoutAction::SetPendingSize { window: 2, size: Size { w: 10, h: 10 } },
            LayoutAction::MapElement { window: 2, location: at(1921, 31) },
            LayoutAction::SendPendingConfigure { window: 2 },
            LayoutAction::FixupZLayering,
        ]
    );
}

#[test]
fn hiding_comes_before_placing_and_placing_before_sending() {
    let actions = arrange(
        vec![
            window(1, &[1], LayoutModeKind::Tiled),
            window(2, &[9], LayoutModeKind::Tiled),
            window(3, &[2], LayoutModeKind::Tiled),
        ],
        vec![area(0, 0, 10, 10), area(10, 0, 10, 10)],
    );
    assert_eq!(
        actions,
        vec![
            LayoutAction::UnmapElement { window: 2 },
            LayoutAction::SetTiledStates { window: 1 },
            LayoutAction::SetPendingSize { window: 1, size: Size { w: 10, h: 10 } },
            LayoutAction::MapElement { window: 1, location: at(1920, 30) },
            LayoutAction::SetTiledStates { window: 3 },
            LayoutAction::SetPendingSize { window: 3, size: Size { w: 10, h: 10 } },
            LayoutAction::MapElement { window: 3, location: at(1930, 30) },
            LayoutAction::SendPendingConfigure { window: 1 },
            LayoutAction::SendPendingConfigure { window: 3 },
            LayoutAction::FixupZLayering,
        ]
    );
}

#[test]
fn a_far_place_stops_at_the_edge_of_the_space() {
    let actions = arrange(
        vec![window(1, &[1], LayoutModeKind::Tiled)],
        vec![area(i32::MAX, i32::MIN, 1, 1)],
    );
    assert_eq!(
        actions[2],
        LayoutAction::MapElement { window: 1, location: at(i32::MAX, i32::MIN + 30) }
    );
}

#[test]
fn windows_without_a_serial_are_not_waited_for() {
    let pending = pending_windows(&vec![(1, Some(40)), (2, None), (3, Some(41))]);
    assert_eq!(pending, vec![(1, 40), (3, 41)]);
    assert_eq!(pending_windows(&vec![]), vec![]);
}

#[test]
fn a_floating_window_comes_back_where_it_was() {
    let mut win = window(1, &[5], LayoutModeKind::Floating);
    win.location = Some(at(300, 400));
    win.state.floating_loc = Some(at(1, 2));
    let mut pinnacle: Pinnacle<()> = Pinnacle::new();
    pinnacle.windows = vec![win];
    let hiding = pinnacle.update_windows_with_geometries(&display(), &vec![]);
    pinnacle.windows = perform(pinnacle.windows, &hiding, &mut vec![]);
    assert_eq!(places(&pinnacle.windows), vec![(1, None, Some(at(300, 400)))]);

    let mut moved = display();
    moved.focused_tags = vec![5];
    moved.geometry = Some(area(0, 0, 2560, 1440));
    let showing = pinnacle.update_windows_with_geometries(&moved, &vec![]);
    assert_eq!(
        showing,
        vec![
            LayoutAction::SendPendingConfigure { window: 1 },
            LayoutAction::MapElement { window: 1, location: at(300, 400) },
            LayoutAction::FixupZLayering,
        ]
    );
    pinnacle.windows = perform(pinnacle.windows, &showing, &mut vec![]);
    assert_eq!(places(&pinnacle.windows), vec![(1, Some(at(300, 400)), Some(at(300, 400)))]);
}

#[test]
fn swapped_windows_exchange_their_places() {
    let mut pinnacle: Pinnacle<()> = Pinnacle::new();
    pinnacle.windows = vec![
        window(1, &[1], LayoutModeKind::Tiled),
        window(2, &[1], LayoutModeKind::Floating),
        window(3, &[2], LayoutModeKind::Tiled),
    ];
    pinnacle.swap_window_positions(
        &window(1, &[1], LayoutModeKind::Tiled),
        &window(3, &[2], LayoutModeKind::Tiled),
    );
    let actions = pinnacle.update_windows_with_geometries(
        &display(),
        &vec![area(0, 0, 10, 10), area(10, 0, 20, 20)],
    );
    assert!(actions.contains(&LayoutAction::MapElement { window: 3, location: at(1920, 30) }));
    assert!(actions.contains(&LayoutAction::MapElement { window: 1, location: at(1930, 30) }));
}

/// The windows once `actions` were performed, with the sizes that they were given.
fn perform(
    windows: Vec<WindowElement>,
    actions: &[LayoutAction],
    sizes: &mut Vec<(u64, Size)>,
) -> Vec<WindowElement> {
    let mut windows = windows;
    for action in actions {
        for win in &mut windows {
            match *action {
                LayoutAction::SaveFloatingLocation { window, location } if window == win.key => {
                    win.state.floating_loc = Some(location);
                }
                LayoutAction::UnmapElement { window } if window == win.key => win.location = None,
                LayoutAction::MapElement { window, location } if window == win.key => {
                    win.location = Some(location);
                }
                LayoutAction::SetPendingSize { window, size } if window == win.key => {
                    sizes.retain(|sized| sized.0 != window);
                    sizes.push((window, size));
                }
                LayoutAction::ConfigureX11 { window, geometry } if window == win.key => {
                    sizes.retain(|sized| sized.0 != window);
                    sizes.push((window, geometry.size));
                }
                _ => {}
            }
        }
    }
    windows
}

/// The places of the windows and the places where they float.
fn places(windows: &[WindowElement]) -> Vec<(u64, Option<Point>, Option<Point>)> {
    windows.iter().map(|w| (w.key, w.location, w.state.floating_loc)).collect()
}

#[test]
fn arranging_again_changes_nothing() {
    let mut hidden = window(1, &[9], LayoutModeKind::Floating);
    hidden.location = Some(at(5, 6));
    hidden.state.floating_loc = Some(at(1, 1));
    let mut floating = window(2, &[1], LayoutModeKind::Floating);
    floating.location = Some(at(7, 8));
    floating.state.floating_loc = Some(at(2, 2));
    let mut x11 = window(3, &[2], LayoutModeKind::Tiled);
    x11.underlying_surface = WindowSurface::X11;
    let mut elsewhere = window(5, &[1], LayoutModeKind::Tiled);
    elsewhere.output = None;
    elsewhere.location = Some(at(9, 9));
    let windows = vec![
        hidden,
        floating,
        x11,
        window(4, &[1], LayoutModeKind::Tiled),
        elsewhere,
        window(6, &[1], LayoutModeKind::Maximized),
        window(7, &[1], LayoutModeKind::Fullscreen),
    ];
    let geometries = vec![area(0, 0, 10, 10), area(10, 0, 20, 20)];

    let mut pinnacle: Pinnacle<()> = Pinnacle::new();
    pinnacle.windows = windows;
    let mut sizes = vec![];
    let first = pinnacle.update_windows_with_geometries(&display(), &geometries);
    pinnacle.windows = perform(pinnacle.windows, &first, &mut sizes);
    let settled = places(&pinnacle.windows);
    let sized = sizes.clone();
    assert_eq!(
        settled,
        vec![
            (1, None, Some(at(5, 6))),
            (2, Some(at(2, 2)), Some(at(2, 2))),
            (3, Some(at(1920, 30)), None),
            (4, Some(at(1930, 30)), None),
            (5, Some(at(9, 9)), None),
            (6, Some(at(1920, 30)), None),
            (7, Some(at(1920, 0)), None),
        ]
    );
    assert_eq!(sized, vec![(3, Size { w: 10, h: 10 }), (4, Size { w: 20, h: 20 })]);

    let second = pinnacle.update_windows_with_geometries(&display(), &geometries);
    pinnacle.windows = perform(pinnacle.windows, &second, &mut sizes);
    assert_eq!(places(&pinnacle.windows), settled);
    assert_eq!(sizes, sized);
}

#[test]
fn arranging_again_changes_nothing_for_a_window_that_stands_there_twice() {
    let mut hidden = window(2, &[9], LayoutModeKind::Floating);
    hidden.location = Some(at(5, 6));
    let mut hidden_again = window(2, &[9], LayoutModeKind::Floating);
    hidden_again.location = Some(at(5, 6));
    let mut pinnacle: Pinnacle<()> = Pinnacle::new();
    pinnacle.windows = vec![
        window(1, &[1], LayoutModeKind::Tiled),
        hidden,
        window(1, &[1], LayoutModeKind::Tiled),
        hidden_again,
    ];
    let geometries = vec![area(0, 0, 10, 10), area(10, 0, 20, 20)];
    let mut sizes = vec![];
    let first = pinnacle.update_windows_with_geometries(&display(), &geometries);
    pinnacle.windows = perform(pinnacle.windows, &first, &mut sizes);
    let settled = places(&pinnacle.windows);
    assert_eq!(
        settled,
        vec![
            (1, Some(at(1930, 30)), None),
            (2, None, Some(at(5, 6))),
            (1, Some(at(1930, 30)), None),
            (2, None, Some(at(5, 6))),
        ]
    );
    assert_eq!(sizes, vec![(1, Size { w: 20, h: 20 })]);

    let second = pinnacle.update_windows_with_geometries(&display(), &geometries);
    pinnacle.windows = perform(pinnacle.windows, &second, &mut sizes);
    assert_eq!(places(&pinnacle.windows), settled);
    assert_eq!(sizes, vec![(1, Size { w: 20, h: 20 })]);
}

#[test]
fn the_first_places_are_exchanged_where_a_window_stands_there_twice() {
    let mut pinnacle: Pinnacle<()> = Pinnacle::new();
    pinnacle.windows = vec![
        window(1, &[1], LayoutModeKind::Tiled),
        window(2, &[1], LayoutModeKind::Tiled),
        window(1, &[1], LayoutModeKind::Tiled),
    ];
    pinnacle.swap_window_positions(
        &window(2, &[1], LayoutModeKind::Tiled),
        &window(1, &[1], LayoutModeKind::Tiled),
    );
    let actions = pinnacle.update_windows_with_geometries(
        &display(),
        &vec![area(0, 0, 10, 10), area(10, 0, 10, 10), area(20, 0, 10, 10)],
    );
    let mapped: Vec<LayoutAction> = actions
        .into_iter()
        .filter(|a| matches!(a, LayoutAction::MapElement { .. }))
        .collect();
    assert_eq!(
        mapped,
        vec![
            LayoutAction::MapElement { window: 2, location: at(1920, 30) },
            LayoutAction::MapElement { window: 1, location: at(1930, 30) },
            LayoutAction::MapElement { window: 1, location: at(1940, 30) },
        ]
    );
}
