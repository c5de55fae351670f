use indexmap::IndexSet;
use pinnacle::geometry::Point;
use pinnacle::handlers::xdg_shell::{
    snapshot_pre_commit_hook, BufferAssignment, ShellAction, SnapshotStep, BUTTON_LEFT,
};
use pinnacle::state::State;
use pinnacle::window::{
    ClientRequests, FullscreenOrMaximized, LayoutModeKind, Unmapped, UnmappedState, WindowElement,
    WindowElementState, WindowOutput, WindowSurface,
};

fn window(key: u64, surface: u64, layout_mode: LayoutModeKind) -> WindowElement {
    WindowElement {
        key,
        surface: Some(surface),
        underlying_surface: WindowSurface::Wayland,
        x11_override_redirect: false,
        output: Some(WindowOutput { key: 7, location: Point { x: 1920, y: 100 } }),
        location: Some(Point { x: 2000, y: 150 }),
        mapped_on: vec![],
        state: WindowElementState { tags: IndexSet::new(), layout_mode, floating_loc: None },
    }
}

fn waiting_for_tags(wanted: Option<FullscreenOrMaximized>) -> UnmappedState {
    UnmappedState::WaitingForTags { client_requests: ClientRequests { layout_mode: wanted } }
}

fn waiting_for_rules(wanted: Option<FullscreenOrMaximized>) -> UnmappedState {
    UnmappedState::WaitingForRules {
        rules: 99,
        client_requests: ClientRequests { layout_mode: wanted },
    }
}

fn configured(attempt_float_on_map: bool) -> UnmappedState {
    UnmappedState::PostInitialConfigure { attempt_float_on_map }
}

/// A state with one unmapped window, which has the key 4 and the surface 11.
fn with_unmapped(state: UnmappedState) -> State<()> {
    let mut s = State::new();
    s.pinnacle.unmapped_windows.push(Unmapped {
        window: window(4, 11, LayoutModeKind::Tiled),
        activation_token_data: Some(5),
        state,
    });
    s
}

fn with_mapped(win: WindowElement) -> State<()> {
    let mut s = State::new();
    s.pinnacle.windows.push(win);
    s
}

#[test]
fn a_new_toplevel_waits_for_its_tags() {
    let mut s = with_unmapped(configured(true));
    s.new_toplevel(window(9, 12, LayoutModeKind::Tiled));
    assert_eq!(s.pinnacle.unmapped_windows.len(), 2);
    let new = &s.pinnacle.unmapped_windows[1];
    assert_eq!(new.window.key, 9);
    assert_eq!(new.activation_token_data, None);
    assert_eq!(new.state, waiting_for_tags(None));
    assert_eq!(s.pinnacle.unmapped_window_for_surface(12), Some(1));
}

#[test]
fn a_destroyed_tiled_window_leads_to_a_new_layout() {
    let s = with_mapped(window(4, 11, LayoutModeKind::Tiled));
    assert_eq!(
        s.toplevel_destroyed(11),
        vec![
            ShellAction::CaptureSnapshots { output: 7 },
            ShellAction::RemoveWindow { window: 4 },
            ShellAction::BeginLayoutTransaction { output: 7 },
            ShellAction::RequestLayout { output: 7 },
            ShellAction::UpdateKeyboardFocus { output: 7 },
            ShellAction::ScheduleRender { output: 7 },
        ]
    );
}

#[test]
fn a_destroyed_floating_window_needs_no_layout() {
    let s = with_mapped(window(4, 11, LayoutModeKind::Floating));
    assert_eq!(
        s.toplevel_destroyed(11),
        vec![
            ShellAction::RemoveWindow { window: 4 },
            ShellAction::UpdateKeyboardFocus { output: 7 },
            ShellAction::ScheduleRender { output: 7 },
        ]
    );
}

#[test]
fn a_destroyed_window_without_an_output_is_only_removed() {
    let mut win = window(4, 11, LayoutModeKind::Tiled);
    win.output = None;
    assert_eq!(
        with_mapped(win).toplevel_destroyed(11),
        vec![ShellAction::RemoveWindow { window: 4 }]
    );
}

#[test]
fn an_unknown_toplevel_is_destroyed_without_effect() {
    let s = with_unmapped(configured(true));
    assert_eq!(s.toplevel_destroyed(11), vec![]);
}

#[test]
fn mapped_windows_take_requests_at_once() {
    let mut s = with_mapped(window(4, 11, LayoutModeKind::Tiled));
    let update = ShellAction::UpdateWindowStateAndLayout { window: 4 };
    assert_eq!(
        s.fullscreen_request(11, None),
        vec![ShellAction::SetClientFullscreen { window: 4, fullscreen: true }, update]
    );
    assert_eq!(
        s.unfullscreen_request(11),
        vec![ShellAction::SetClientFullscreen { window: 4, fullscreen: false }, update]
    );
    assert_eq!(
        s.maximize_request(11),
        vec![ShellAction::SetClientMaximized { window: 4, maximized: true }, update]
    );
    assert_eq!(
        s.unmaximize_request(11),
        vec![ShellAction::SetClientMaximized { window: 4, maximized: false }, update]
    );
}

#[test]
fn the_output_that_a_client_prefers_is_not_respected() {
    let mut s = with_mapped(window(4, 11, LayoutModeKind::Tiled));
    assert_eq!(s.fullscreen_request(11, Some(8)), s.fullscreen_request(11, None));

    let mut s = with_unmapped(waiting_for_tags(None));
    assert_eq!(s.fullscreen_request(11, Some(8)), vec![]);
    let full = Some(FullscreenOrMaximized::Fullscreen);
    assert_eq!(s.pinnacle.unmapped_windows[0].state, waiting_for_tags(full));
}

#[test]
fn a_mapped_window_comes_before_an_unmapped_one() {
    let mut s = with_unmapped(waiting_for_tags(None));
    s.pinnacle.windows.push(window(8, 11, LayoutModeKind::Tiled));
    assert_eq!(s.fullscreen_request(11, None).len(), 2);
    assert_eq!(s.pinnacle.unmapped_windows[0].state, waiting_for_tags(None));
}

#[test]
fn waiting_windows_note_what_they_are_to_start_as() {
    let full = Some(FullscreenOrMaximized::Fullscreen);
    let max = Some(FullscreenOrMaximized::Maximized);

    let mut s = with_unmapped(waiting_for_tags(max));
    assert_eq!(s.fullscreen_request(11, None), vec![]);
    assert_eq!(s.pinnacle.unmapped_windows[0].state, waiting_for_tags(full));
    assert_eq!(s.maximize_request(11), vec![]);
    assert_eq!(s.pinnacle.unmapped_windows[0].state, waiting_for_tags(max));

    let mut s = with_unmapped(waiting_for_rules(None));
    assert_eq!(s.fullscreen_request(11, None), vec![]);
    assert_eq!(s.pinnacle.unmapped_windows[0].state, waiting_for_rules(full));
    assert_eq!(s.maximize_request(11), vec![]);
    assert_eq!(s.pinnacle.unmapped_windows[0].state, waiting_for_rules(max));
}

#[test]
fn unfullscreen_takes_back_fullscreen_and_nothing_else() {
    let max = Some(FullscreenOrMaximized::Maximized);

    let mut s = with_unmapped(waiting_for_tags(None));
    s.fullscreen_request(11, None);
    assert_eq!(s.unfullscreen_request(11), vec![]);
    assert_eq!(s.pinnacle.unmapped_windows[0].state, waiting_for_tags(None));

    let mut s = with_unmapped(waiting_for_rules(max));
    s.unfullscreen_request(11);
    assert_eq!(s.pinnacle.unmapped_windows[0].state, waiting_for_rules(max));
}

#[test]
fn waiting_windows_take_unmaximize_as_maximize() {
    let max = Some(FullscreenOrMaximized::Maximized);

    let mut s = with_unmapped(waiting_for_tags(None));
    assert_eq!(s.unmaximize_request(11), vec![]);
    assert_eq!(s.pinnacle.unmapped_windows[0].state, waiting_for_tags(max));

    let mut s = with_unmapped(waiting_for_rules(max));
    assert_eq!(s.unmaximize_request(11), vec![]);
    assert_eq!(s.pinnacle.unmapped_windows[0].state, waiting_for_rules(max));
}

#[test]
fn configured_windows_are_configured_again() {
    let mut s = with_unmapped(configured(true));
    let configure = ShellAction::ConfigureWindowIfNontiled { window: 4 };
    let send = ShellAction::SendConfigure { window: 4 };
    assert_eq!(
        s.unfullscreen_request(11),
        vec![
            ShellAction::SetClientFullscreen { window: 4, fullscreen: false },
            configure,
            send,
        ]
    );
    assert_eq!(
        s.unmaximize_request(11),
        vec![ShellAction::SetClientMaximized { window: 4, maximized: false }, configure, send]
    );
    assert_eq!(s.pinnacle.unmapped_windows[0].state, configured(true));
    assert_eq!(
        s.fullscreen_request(11, None),
        vec![ShellAction::SetClientFullscreen { window: 4, fullscreen: true }, configure, send]
    );
    assert_eq!(s.pinnacle.unmapped_windows[0].state, configured(false));
    s.unfullscreen_request(11);
    assert_eq!(s.pinnacle.unmapped_windows[0].state, configured(false));
}

#[test]
fn a_maximized_window_does_not_try_to_float() {
    let mut s = with_unmapped(configured(true));
    assert_eq!(
        s.maximize_request(11)[0],
        ShellAction::SetClientMaximized { window: 4, maximized: true }
    );
    assert_eq!(s.pinnacle.unmapped_windows[0].state, configured(false));
}

#[test]
fn a_request_is_about_one_window() {
    let mut s = with_unmapped(waiting_for_tags(None));
    s.new_toplevel(window(9, 12, LayoutModeKind::Tiled));
    s.fullscreen_request(12, None);
    assert_eq!(s.pinnacle.unmapped_windows[0].state, waiting_for_tags(None));
    assert_eq!(s.pinnacle.unmapped_windows[0].activation_token_data, Some(5));
    assert_eq!(
        s.pinnacle.unmapped_windows[1].state,
        waiting_for_tags(Some(FullscreenOrMaximized::Fullscreen))
    );
}

#[test]
fn requests_of_unknown_surfaces_have_no_effect() {
    let mut s = with_unmapped(configured(true));
    assert_eq!(s.fullscreen_request(1, None), vec![]);
    assert_eq!(s.unfullscreen_request(1), vec![]);
    assert_eq!(s.maximize_request(1), vec![]);
    assert_eq!(s.unmaximize_request(1), vec![]);
    assert_eq!(s.pinnacle.unmapped_windows[0].state, configured(true));
}

#[test]
fn a_window_about_to_be_unmapped_is_captured() {
    let s = with_mapped(window(4, 11, LayoutModeKind::Tiled));
    assert_eq!(
        snapshot_pre_commit_hook(&s, 11, Some(BufferAssignment::Removed)),
        SnapshotStep::Capture { window: 4, output: 7, location: Point { x: 80, y: 50 } }
    );
}

#[test]
fn a_commit_that_keeps_the_window_drops_its_snapshot() {
    let s = with_mapped(window(4, 11, LayoutModeKind::Tiled));
    assert_eq!(snapshot_pre_commit_hook(&s, 11, None), SnapshotStep::Discard { window: 4 });
    assert_eq!(
        snapshot_pre_commit_hook(&s, 11, Some(BufferAssignment::NewBuffer)),
        SnapshotStep::Discard { window: 4 }
    );
}

#[test]
fn a_window_without_a_place_is_not_captured() {
    let mut win = window(4, 11, LayoutModeKind::Tiled);
    win.location = None;
    let removed = Some(BufferAssignment::Removed);
    assert_eq!(snapshot_pre_commit_hook(&with_mapped(win), 11, removed), SnapshotStep::Keep);

    let mut win = window(4, 11, LayoutModeKind::Tiled);
    win.output = None;
    assert_eq!(snapshot_pre_commit_hook(&with_mapped(win), 11, removed), SnapshotStep::Keep);
}

#[test]
fn a_surface_without_a_window_has_no_snapshot() {
    let s = with_unmapped(configured(true));
    assert_eq!(
        snapshot_pre_commit_hook(&s, 11, Some(BufferAssignment::Removed)),
        SnapshotStep::Keep
    );
    assert_eq!(snapshot_pre_commit_hook(&s, 11, None), SnapshotStep::Keep);
}

#[test]
fn resizes_are_held_with_the_left_button() {
    assert_eq!(BUTTON_LEFT, 272);
}
