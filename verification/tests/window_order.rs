use indexmap::IndexSet;
use pinnacle::state::Pinnacle;
use pinnacle::window::{LayoutModeKind, WindowElement, WindowElementState, WindowSurface};

fn window(key: u64) -> WindowElement {
    WindowElement {
        key,
        surface: None,
        underlying_surface: WindowSurface::Wayland,
        x11_override_redirect: false,
        output: None,
        location: None,
        mapped_on: vec![],
        state: WindowElementState {
            tags: IndexSet::new(),
            layout_mode: LayoutModeKind::Tiled,
            floating_loc: None,
        },
    }
}

fn compositor(keys: &[u64]) -> Pinnacle<()> {
    let mut pinnacle = Pinnacle::new();
    pinnacle.windows = keys.iter().map(|key| window(*key)).collect();
    pinnacle
}

fn order(pinnacle: &Pinnacle<()>) -> Vec<u64> {
    pinnacle.windows.iter().map(|w| w.key).collect()
}

#[test]
fn two_windows_change_places() {
    let mut pinnacle = compositor(&[1, 2, 3, 4]);
    pinnacle.swap_window_positions(&window(2), &window(4));
    assert_eq!(order(&pinnacle), vec![1, 4, 3, 2]);
}

#[test]
fn the_order_of_the_arguments_does_not_matter() {
    let mut pinnacle = compositor(&[1, 2, 3, 4]);
    pinnacle.swap_window_positions(&window(4), &window(2));
    assert_eq!(order(&pinnacle), vec![1, 4, 3, 2]);
}

#[test]
fn changing_places_twice_restores_the_order() {
    let mut pinnacle = compositor(&[1, 2, 3]);
    pinnacle.swap_window_positions(&window(1), &window(3));
    pinnacle.swap_window_positions(&window(1), &window(3));
    assert_eq!(order(&pinnacle), vec![1, 2, 3]);
}

#[test]
fn a_missing_window_changes_nothing() {
    let mut pinnacle = compositor(&[1, 2, 3]);
    pinnacle.swap_window_positions(&window(1), &window(9));
    pinnacle.swap_window_positions(&window(9), &window(1));
    assert_eq!(order(&pinnacle), vec![1, 2, 3]);
}

#[test]
fn a_window_and_itself_change_nothing() {
    let mut pinnacle = compositor(&[1, 2, 3]);
    pinnacle.swap_window_positions(&window(2), &window(2));
    assert_eq!(order(&pinnacle), vec![1, 2, 3]);
}

#[test]
fn no_window_is_lost() {
    let mut pinnacle = compositor(&[5, 6, 7, 8]);
    pinnacle.swap_window_positions(&window(8), &window(5));
    let mut keys = order(&pinnacle);
    keys.sort();
    assert_eq!(keys, vec![5, 6, 7, 8]);
}

#[test]
fn a_forgotten_window_leaves_the_others_in_order() {
    let mut pinnacle = compositor(&[5, 6, 7, 6, 8]);
    pinnacle.forget_window(6);
    assert_eq!(order(&pinnacle), vec![5, 7, 8]);
    pinnacle.forget_window(9);
    assert_eq!(order(&pinnacle), vec![5, 7, 8]);
}

#[test]
fn a_window_that_stands_in_between_again_keeps_the_order_from_being_restored() {
    let mut pinnacle = compositor(&[1, 1, 2]);
    pinnacle.swap_window_positions(&window(1), &window(2));
    assert_eq!(order(&pinnacle), vec![2, 1, 1]);
    pinnacle.swap_window_positions(&window(1), &window(2));
    assert_eq!(order(&pinnacle), vec![1, 2, 1]);

    let mut pinnacle = compositor(&[1, 2, 1]);
    pinnacle.swap_window_positions(&window(1), &window(2));
    pinnacle.swap_window_positions(&window(1), &window(2));
    assert_eq!(order(&pinnacle), vec![1, 2, 1]);
}
