use indexmap::IndexSet;
use pinnacle::geometry::{Point, Rectangle, Size};
use pinnacle::layout::answer::TransactionStep;
use pinnacle::layout::arrange::LayoutAction;
use pinnacle::layout::request::{
    LayoutError, LayoutInfo, LayoutRequest, LayoutRequestId, LayoutState,
};
use pinnacle::output::{Output, OutputName, OutputSnapshots};
use pinnacle::state::{Pinnacle, State};
use pinnacle::window::{
    LayoutModeKind, WindowElement, WindowElementState, WindowOutput, WindowSurface,
};
use tokio::sync::mpsc::{unbounded_channel, UnboundedReceiver};

fn area(x: i32, y: i32, w: i32, h: i32) -> Rectangle {
    Rectangle { loc: Point { x, y }, size: Size { w, h } }
}

fn display(key: u64, name: &str) -> Output {
    Output {
        key,
        name: String::from(name),
        focused_tags: vec![3, 1],
        geometry: Some(area(0, 0, 800, 600)),
        non_exclusive_zone: area(0, 20, 800, 580),
        layout_transaction: false,
        snapshots: OutputSnapshots {
            fullscreen_and_above: vec![80, 81],
            under_fullscreen: vec![82],
        },
    }
}

fn window(key: u64, tags: &[u32], layout_mode: LayoutModeKind) -> WindowElement {
    WindowElement {
        key,
        surface: None,
        underlying_surface: WindowSurface::Wayland,
        x11_override_redirect: false,
        output: Some(WindowOutput { key: 7, location: Point { x: 0, y: 0 } }),
        location: None,
        mapped_on: vec![],
        state: WindowElementState {
            tags: tags.iter().copied().collect::<IndexSet<u32>>(),
            layout_mode,
            floating_loc: None,
        },
    }
}

type Tree = Vec<u32>;

fn connected() -> (State<Tree>, UnboundedReceiver<LayoutInfo>) {
    let (sender, receiver) = unbounded_channel();
    let mut state = State::new();
    state.pinnacle.layout_state.layout_request_sender = Some(sender);
    (state, receiver)
}

fn request(pinnacle: &mut Pinnacle<Tree>, output: &Output) -> LayoutInfo {
    match pinnacle.request_layout(output) {
        LayoutRequest::Send(info) => info,
        other => panic!("not sent: {:?}", other),
    }
}

/// Answers with a tree that gives every node a column, and notes the area it was given.
fn answer(
    state: &mut State<Tree>,
    nodes: u32,
    request_id: u32,
    name: &str,
    outputs: &Vec<Output>,
) -> Result<(usize, Vec<LayoutAction>), LayoutError> {
    state
        .apply_layout_tree(
            50,
            nodes,
            request_id,
            String::from(name),
            outputs,
            |n: u32| vec![n],
            |mut tree: Tree, n: u32| {
                tree.push(n);
                tree
            },
            |tree: Tree, w: u32, h: u32| {
                let n = *tree.last().unwrap();
                let geometries = (0..n)
                    .map(|i| area((w / n * i) as i32, 0, (w / n) as i32, h as i32))
                    .collect();
                (tree, geometries)
            },
        )
        .map(|accepted| (accepted.output, accepted.actions))
}

#[test]
fn identifiers_start_at_zero() {
    assert_eq!(LayoutRequestId::default().to_inner(), 0);
}

#[test]
fn identifiers_increase() {
    let mut state: LayoutState<()> = LayoutState::default();
    let first = state.next_id();
    let second = state.next_id();
    assert_eq!(first.to_inner(), 1);
    assert_eq!(second.to_inner(), 2);
    assert!(first < second);
    assert!(LayoutRequestId::default() < first);
    assert_eq!(state.requests.last_request(), second);
}

#[test]
fn a_fresh_state_holds_nothing() {
    let state: LayoutState<()> = LayoutState::default();
    assert!(state.layout_request_sender.is_none());
    assert!(!state.pending_swap);
    assert!(state.layout_trees.is_empty());
    assert!(state.requests.pending_request(7).is_none());
    assert!(state.requests.fulfilled_request(7).is_none());
}

#[test]
fn a_request_counts_the_shown_tiled_windows() {
    let (mut state, mut receiver) = connected();
    let mut popup = window(4, &[1], LayoutModeKind::Tiled);
    popup.x11_override_redirect = true;
    state.pinnacle.windows = vec![
        window(1, &[1], LayoutModeKind::Tiled),
        window(2, &[2], LayoutModeKind::Tiled),
        window(3, &[3, 2], LayoutModeKind::Tiled),
        popup,
        window(5, &[1], LayoutModeKind::Floating),
    ];
    let info = request(&mut state.pinnacle, &display(7, "DP-1"));
    let sender = state.pinnacle.layout_state.layout_request_sender.as_ref().unwrap();
    assert!(sender.send(info).is_ok());

    let info = receiver.try_recv().unwrap();
    assert_eq!(info.request_id.to_inner(), 1);
    assert_eq!(info.output_name.0, "DP-1");
    assert_eq!(info.window_count, 2);
    assert_eq!(info.tag_ids, vec![3, 1]);
    assert_eq!(
        state.pinnacle.layout_state.requests.pending_request(7).unwrap().to_inner(),
        1
    );
}

#[test]
fn a_request_counts_windows_of_every_output() {
    let (mut state, _receiver) = connected();
    let mut elsewhere = window(1, &[1], LayoutModeKind::Tiled);
    elsewhere.output = None;
    state.pinnacle.windows = vec![elsewhere];
    assert_eq!(request(&mut state.pinnacle, &display(7, "DP-1")).window_count, 1);
}

#[test]
fn a_withdrawn_output_gets_no_request() {
    let (mut state, _receiver) = connected();
    state.pinnacle.outputs.insert(7, false);
    let outcome = state.pinnacle.request_layout(&display(7, "DP-1"));
    assert!(matches!(outcome, LayoutRequest::OutputDisabled));
    assert_eq!(state.pinnacle.layout_state.requests.last_request().to_inner(), 0);
    assert!(state.pinnacle.layout_state.requests.pending_request(7).is_none());
}

#[test]
fn advertised_and_unknown_outputs_get_requests() {
    let (mut state, _receiver) = connected();
    state.pinnacle.outputs.insert(7, true);
    assert_eq!(request(&mut state.pinnacle, &display(7, "DP-1")).request_id.to_inner(), 1);
    assert_eq!(request(&mut state.pinnacle, &display(8, "DP-2")).request_id.to_inner(), 2);
}

#[test]
fn without_a_client_a_number_is_used_up() {
    let mut pinnacle: Pinnacle<Tree> = Pinnacle::new();
    assert!(matches!(pinnacle.request_layout(&display(7, "DP-1")), LayoutRequest::NoClient));
    assert_eq!(pinnacle.layout_state.requests.last_request().to_inner(), 1);
    assert!(pinnacle.layout_state.requests.pending_request(7).is_none());
}

#[test]
fn an_answer_arranges_the_windows() {
    let (mut state, _receiver) = connected();
    state.pinnacle.windows = vec![
        window(1, &[1], LayoutModeKind::Tiled),
        window(2, &[3], LayoutModeKind::Tiled),
    ];
    let outputs = vec![display(6, "DP-0"), display(7, "DP-1")];
    let info = request(&mut state.pinnacle, &outputs[1]);
    let (output, actions) =
        answer(&mut state, 2, info.request_id.to_inner(), "DP-1", &outputs).unwrap();
    assert_eq!(output, 1);
    assert_eq!(
        actions,
        vec![
            LayoutAction::SetTiledStates { window: 1 },
            LayoutAction::SetPendingSize { window: 1, size: Size { w: 400, h: 580 } },
            LayoutAction::MapElement { window: 1, location: Point { x: 0, y: 20 } },
            LayoutAction::SetTiledStates { window: 2 },
            LayoutAction::SetPendingSize { window: 2, size: Size { w: 400, h: 580 } },
            LayoutAction::MapElement { window: 2, location: Point { x: 400, y: 20 } },
            LayoutAction::SendPendingConfigure { window: 1 },
            LayoutAction::SendPendingConfigure { window: 2 },
            LayoutAction::FixupZLayering,
        ]
    );
    let requests = &state.pinnacle.layout_state.requests;
    assert!(requests.pending_request(7).is_none());
    assert_eq!(requests.fulfilled_request(7), Some(info.request_id));
    assert_eq!(state.pinnacle.layout_state.layout_trees[&50], vec![2]);
}

#[test]
fn an_unknown_output_is_refused_and_keeps_the_trees() {
    let (mut state, _receiver) = connected();
    let outputs = vec![display(7, "DP-1")];
    request(&mut state.pinnacle, &outputs[0]);
    assert_eq!(answer(&mut state, 1, 1, "DP-9", &outputs), Err(LayoutError::InvalidOutput));
    assert!(state.pinnacle.layout_state.layout_trees.is_empty());
    assert!(state.pinnacle.layout_state.requests.pending_request(7).is_some());
}

#[test]
fn an_answer_without_a_request_is_refused_but_its_tree_is_kept() {
    let (mut state, _receiver) = connected();
    let outputs = vec![display(7, "DP-1")];
    assert_eq!(answer(&mut state, 1, 1, "DP-1", &outputs), Err(LayoutError::NotRequested));
    assert_eq!(state.pinnacle.layout_state.layout_trees[&50], vec![1]);
}

#[test]
fn a_superseded_answer_is_refused() {
    let (mut state, _receiver) = connected();
    let outputs = vec![display(7, "DP-1")];
    request(&mut state.pinnacle, &outputs[0]);
    request(&mut state.pinnacle, &outputs[0]);
    assert_eq!(answer(&mut state, 1, 1, "DP-1", &outputs), Err(LayoutError::Superseded));
    assert!(answer(&mut state, 4, 2, "DP-1", &outputs).is_ok());
    assert_eq!(state.pinnacle.layout_state.layout_trees[&50], vec![1, 4]);
}

#[test]
fn an_answer_from_the_future_is_refused() {
    let (mut state, _receiver) = connected();
    let outputs = vec![display(7, "DP-1")];
    request(&mut state.pinnacle, &outputs[0]);
    assert_eq!(answer(&mut state, 1, 2, "DP-1", &outputs), Err(LayoutError::TooNew));
}

#[test]
fn a_request_is_answered_only_once() {
    let (mut state, _receiver) = connected();
    let outputs = vec![display(7, "DP-1")];
    request(&mut state.pinnacle, &outputs[0]);
    assert!(answer(&mut state, 1, 1, "DP-1", &outputs).is_ok());
    assert_eq!(answer(&mut state, 1, 1, "DP-1", &outputs), Err(LayoutError::NotRequested));
}

#[test]
fn outputs_wait_for_their_own_answers() {
    let (mut state, _receiver) = connected();
    let outputs = vec![display(7, "DP-1"), display(8, "DP-2")];
    request(&mut state.pinnacle, &outputs[0]);
    request(&mut state.pinnacle, &outputs[1]);
    assert!(answer(&mut state, 1, 2, "DP-2", &outputs).is_ok());
    assert!(answer(&mut state, 1, 1, "DP-1", &outputs).is_ok());
}

#[test]
fn a_client_can_place_as_many_windows_as_were_counted() {
    let (mut state, _receiver) = connected();
    state.pinnacle.windows = vec![
        window(1, &[1], LayoutModeKind::Tiled),
        window(2, &[1], LayoutModeKind::Fullscreen),
        window(3, &[3], LayoutModeKind::Tiled),
    ];
    let outputs = vec![display(7, "DP-1")];
    let info = request(&mut state.pinnacle, &outputs[0]);
    let (_, actions) = answer(&mut state, info.window_count, 1, "DP-1", &outputs).unwrap();
    let placed = actions
        .iter()
        .filter(|a| matches!(a, LayoutAction::SetTiledStates { .. }))
        .count();
    assert_eq!(placed, 2);
}

#[test]
fn the_first_output_with_the_name_is_meant() {
    let outputs = vec![display(6, "DP-0"), display(7, "DP-1"), display(8, "DP-1")];
    assert_eq!(OutputName(String::from("DP-1")).output(&outputs), Some(1));
    assert_eq!(OutputName(String::from("DP-3")).output(&outputs), None);
}

#[test]
fn the_end_of_an_answer_updates_a_transaction_under_way() {
    let mut state: State<Tree> = State::new();
    state.pinnacle.layout_state.pending_swap = true;
    let mut output = display(7, "DP-1");
    output.layout_transaction = true;
    let finish = state.finish_layout(&mut output, vec![(1, 40)]);
    assert!(matches!(
        finish.transaction,
        TransactionStep::UpdatePending { pending } if pending == vec![(1, 40)]
    ));
    assert_eq!(finish.schedule_render, 7);
    assert!(!state.pinnacle.layout_state.pending_swap);
    assert!(output.layout_transaction);
    assert_eq!(output.snapshots.fullscreen_and_above, vec![80, 81]);
    assert_eq!(output.snapshots.under_fullscreen, vec![82]);
}

#[test]
fn the_end_of_an_answer_starts_a_transaction() {
    let mut state: State<Tree> = State::new();
    let mut output = display(7, "DP-1");
    let finish = state.finish_layout(&mut output, vec![(1, 40), (2, 41)]);
    match finish.transaction {
        TransactionStep::Start { fullscreen_and_above, under_fullscreen, pending } => {
            assert_eq!(fullscreen_and_above, vec![80, 81]);
            assert_eq!(under_fullscreen, vec![82]);
            assert_eq!(pending, vec![(1, 40), (2, 41)]);
        }
        other => panic!("not started: {:?}", other),
    }
    assert_eq!(finish.schedule_render, 7);
    assert!(output.layout_transaction);
    assert!(output.snapshots.fullscreen_and_above.is_empty());
    assert!(output.snapshots.under_fullscreen.is_empty());
}

#[test]
fn a_second_answer_leaves_new_snapshots_alone() {
    let mut state: State<Tree> = State::new();
    let mut output = display(7, "DP-1");
    state.finish_layout(&mut output, vec![]);
    output.snapshots.under_fullscreen.push(90);
    let finish = state.finish_layout(&mut output, vec![(3, 42)]);
    assert!(matches!(finish.transaction, TransactionStep::UpdatePending { .. }));
    assert_eq!(output.snapshots.under_fullscreen, vec![90]);
}

#[test]
fn an_answer_is_taken_up_before_the_place_of_the_output_is_needed() {
    let (mut state, _receiver) = connected();
    let mut outputs = vec![display(7, "DP-1")];
    outputs[0].geometry = None;
    let info = request(&mut state.pinnacle, &outputs[0]);
    let taken_up = state.take_up_answer(
        50,
        3u32,
        info.request_id.to_inner(),
        String::from("DP-1"),
        &outputs,
        |n: u32| vec![n],
        |tree: Tree, _n: u32| tree,
        |tree: Tree, w: u32, h: u32| (tree, vec![area(0, 0, w as i32, h as i32)]),
    );
    assert_eq!(taken_up, Ok((0, vec![area(0, 0, 800, 580)])));
    assert_eq!(state.pinnacle.layout_state.layout_trees[&50], vec![3]);
    assert!(state.pinnacle.layout_state.requests.pending_request(7).is_none());
    assert_eq!(
        state.pinnacle.layout_state.requests.fulfilled_request(7),
        Some(info.request_id)
    );
}

#[test]
fn errors_have_their_texts() {
    assert_eq!(LayoutError::InvalidOutput.message(), "Output was invalid");
    assert_eq!(LayoutError::NotRequested.message(), "attempted to layout without request");
    assert_eq!(
        LayoutError::Superseded.message(),
        "Attempted to layout but a new request came in"
    );
    assert_eq!(LayoutError::TooNew.message(), "Attempted to layout but request is newer");
}
