use indexmap::IndexSet;
use pinnacle::handlers::popup_grab::{
    first_stage, DeviceGrab, GrabFocus, GrabStage, GrabStep, KeyboardFocusTarget, PopupGrab,
};
use pinnacle::state::State;
use pinnacle::window::{LayoutModeKind, WindowElement, WindowElementState, WindowSurface};

fn with_window(key: u64, surface: u64) -> State<()> {
    let mut s = State::new();
    s.pinnacle.windows.push(WindowElement {
        key,
        surface: Some(surface),
        underlying_surface: WindowSurface::Wayland,
        x11_override_redirect: false,
        output: None,
        location: None,
        mapped_on: vec![],
        state: WindowElementState {
            tags: IndexSet::new(),
            layout_mode: LayoutModeKind::Tiled,
            floating_loc: None,
        },
    });
    s
}

const FREE: DeviceGrab = DeviceGrab { is_grabbed: false, has_serial: false, has_previous: false };
const TAKEN: DeviceGrab = DeviceGrab { is_grabbed: true, has_serial: false, has_previous: false };
const OURS: DeviceGrab = DeviceGrab { is_grabbed: true, has_serial: true, has_previous: false };
const PARENTS: DeviceGrab = DeviceGrab { is_grabbed: true, has_serial: false, has_previous: true };

fn nested() -> PopupGrab {
    PopupGrab { request: 10, serial: 12, previous: Some(9) }
}

fn outermost() -> PopupGrab {
    PopupGrab { request: 10, serial: 12, previous: None }
}

#[test]
fn a_popup_of_a_window_grabs_for_the_window() {
    let s = with_window(4, 11);
    assert_eq!(s.grab(Some(11), &vec![Some(3)]), Some(KeyboardFocusTarget::Window(4)));
}

#[test]
fn a_popup_of_a_layer_grabs_for_the_first_layer_found() {
    let s = with_window(4, 11);
    assert_eq!(
        s.grab(Some(20), &vec![None, Some(3), Some(5)]),
        Some(KeyboardFocusTarget::LayerSurface(3))
    );
}

#[test]
fn a_popup_without_a_root_does_not_grab() {
    let s = with_window(4, 11);
    assert_eq!(s.grab(None, &vec![Some(3)]), None);
    assert_eq!(s.grab(Some(20), &vec![None]), None);
    assert_eq!(s.grab(Some(20), &vec![]), None);
}

#[test]
fn nested_grabs_accept_the_serial_of_the_parent() {
    assert_eq!(nested().serials(GrabStage::Keyboard), (10, 9));
    assert_eq!(nested().serials(GrabStage::Pointer), (10, 9));
}

#[test]
fn outermost_grabs_fall_back_on_their_own_serials() {
    assert_eq!(outermost().serials(GrabStage::Keyboard), (10, 10));
    assert_eq!(outermost().serials(GrabStage::Pointer), (10, 12));
}

#[test]
fn a_taken_keyboard_ends_the_grab() {
    assert_eq!(nested().step(GrabStage::Keyboard, Some(TAKEN)), (GrabStep::UngrabAll, None));
}

#[test]
fn a_keyboard_that_lets_the_grab_in_is_installed() {
    let install = GrabStep::Install { serial: 10, focus: GrabFocus::CurrentGrab };
    let go_on = (install, Some(GrabStage::Pointer));
    assert_eq!(nested().step(GrabStage::Keyboard, Some(FREE)), go_on);
    assert_eq!(nested().step(GrabStage::Keyboard, Some(OURS)), go_on);
    assert_eq!(nested().step(GrabStage::Keyboard, Some(PARENTS)), go_on);
}

#[test]
fn a_seat_without_a_keyboard_goes_on_to_the_pointer() {
    assert_eq!(
        nested().step(GrabStage::Keyboard, None),
        (GrabStep::Skip, Some(GrabStage::Pointer))
    );
}

#[test]
fn the_pointer_is_the_last_device() {
    let install = GrabStep::Install { serial: 10, focus: GrabFocus::Keep };
    assert_eq!(nested().step(GrabStage::Pointer, Some(FREE)), (install, None));
    assert_eq!(nested().step(GrabStage::Pointer, Some(OURS)), (install, None));
    assert_eq!(nested().step(GrabStage::Pointer, Some(PARENTS)), (install, None));
    assert_eq!(nested().step(GrabStage::Pointer, Some(TAKEN)), (GrabStep::UngrabAll, None));
    assert_eq!(nested().step(GrabStage::Pointer, None), (GrabStep::Skip, None));
}

#[test]
fn the_keyboard_is_the_first_device() {
    assert_eq!(first_stage(), GrabStage::Keyboard);
}

#[test]
fn a_seat_without_a_pointer_still_gives_its_keyboard() {
    let (step, next) = outermost().step(first_stage(), Some(FREE));
    assert_eq!(step, GrabStep::Install { serial: 10, focus: GrabFocus::CurrentGrab });
    assert_eq!(outermost().step(next.unwrap(), None), (GrabStep::Skip, None));
}
