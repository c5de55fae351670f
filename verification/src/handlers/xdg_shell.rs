//! Requests of the xdg-shell protocol.

use vstd::prelude::*;

use crate::geometry::Point;
use crate::output::OutputKey;
use crate::seqs::{
    first_where, is_first_where, law_the_first_position_comes_first, lemma_first_where_is,
    lemma_first_where_none, lemma_first_where_some,
};
use crate::state::{Pinnacle, State};
use crate::window::{
    ClientRequests, FullscreenOrMaximized, LayoutModeKind, SurfaceKey, Unmapped, UnmappedState,
    WindowElement, WindowKey,
};

verus! {

/// The code of the button that a resize asked for by a client is held with.
pub const BUTTON_LEFT: u32 = 0x110;

/// A step that the compositor performs for a shell request.
#[derive(Debug, Clone, Copy, PartialEq, Eq, Structural)]
pub enum ShellAction {
    /// Capture snapshots of the windows on the output.
    CaptureSnapshots { output: OutputKey },
    /// Forget the window, which is gone.
    RemoveWindow { window: WindowKey },
    /// Start a layout transaction on the output.
    BeginLayoutTransaction { output: OutputKey },
    /// Request a layout for the output.
    RequestLayout { output: OutputKey },
    /// Bring the keyboard focus on the output up to date.
    UpdateKeyboardFocus { output: OutputKey },
    /// Redraw the output.
    ScheduleRender { output: OutputKey },
    /// Note in the window's layout mode whether its client wants it fullscreen.
    SetClientFullscreen { window: WindowKey, fullscreen: bool },
    /// Note in the window's layout mode whether its client wants it maximized.
    SetClientMaximized { window: WindowKey, maximized: bool },
    /// Carry the window's layout mode over into its state and the layout.
    UpdateWindowStateAndLayout { window: WindowKey },
    /// Configure the window, unless its mode is tiled.
    ConfigureWindowIfNontiled { window: WindowKey },
    /// Send a configure event to the window's toplevel.
    SendConfigure { window: WindowKey },
}

/// What a client asks for its window.
#[derive(Debug, Clone, Copy, PartialEq, Eq, Structural)]
pub enum ModeRequest {
    Fullscreen,
    Unfullscreen,
    Maximize,
    Unmaximize,
}

/// Holds of the windows with the surface `surface`.
pub open spec fn has_surface(surface: SurfaceKey) -> spec_fn(WindowElement) -> bool {
    |w: WindowElement| w.surface == Some(surface)
}

/// Holds of the unmapped windows with the surface `surface`.
pub open spec fn unmapped_has_surface(surface: SurfaceKey) -> spec_fn(Unmapped) -> bool {
    |u: Unmapped| u.window.surface == Some(surface)
}

impl<T> Pinnacle<T> {
    /// The position of the mapped window with the surface `surface`, if there is one.
    pub open spec fn mapped_position(self, surface: SurfaceKey) -> Option<int> {
        first_where(self.windows@, has_surface(surface))
    }

    /// The position of the unmapped window with the surface `surface`, if there is one.
    pub open spec fn unmapped_position(self, surface: SurfaceKey) -> Option<int> {
        first_where(self.unmapped_windows@, unmapped_has_surface(surface))
    }

    /// Finds the mapped window with the surface `surface`.
    pub fn window_for_surface(&self, surface: SurfaceKey) -> (r: Option<&WindowElement>)
        ensures
            match r {
                Some(w) => self.mapped_position(surface) matches Some(i) && 0 <= i
                    < self.windows.len() && *w == self.windows@[i],
                None => self.mapped_position(surface) is None,
            },
    {
        let mut i: usize = 0;
        while i < self.windows.len()
            invariant
                i <= self.windows.len(),
                forall|j: int| 0 <= j < i ==> !has_surface(surface)(#[trigger] self.windows@[j]),
            decreases self.windows.len() - i,
        {
            if let Some(s) = self.windows[i].surface {
                if s == surface {
                    proof {
                        assert(is_first_where(self.windows@, has_surface(surface), i as int));
                        lemma_first_where_is(self.windows@, has_surface(surface), i as int);
                    }
                    return Some(&self.windows[i]);
                }
            }
            i = i + 1;
        }
        proof {
            lemma_first_where_none(self.windows@, has_surface(surface));
        }
        None
    }

    /// Finds the position of the unmapped window with the surface `surface`.
    pub fn unmapped_window_for_surface(&self, surface: SurfaceKey) -> (r: Option<usize>)
        ensures
            match r {
                Some(i) => i < self.unmapped_windows.len() && self.unmapped_position(surface)
                    == Some(i as int),
                None => self.unmapped_position(surface) is None,
            },
    {
        let mut i: usize = 0;
        while i < self.unmapped_windows.len()
            invariant
                i <= self.unmapped_windows.len(),
                forall|j: int|
                    0 <= j < i ==> !unmapped_has_surface(surface)(
                        #[trigger] self.unmapped_windows@[j],
                    ),
            decreases self.unmapped_windows.len() - i,
        {
            if let Some(s) = self.unmapped_windows[i].window.surface {
                if s == surface {
                    proof {
                        assert(is_first_where(
                            self.unmapped_windows@,
                            unmapped_has_surface(surface),
                            i as int,
                        ));
                        lemma_first_where_is(
                            self.unmapped_windows@,
                            unmapped_has_surface(surface),
                            i as int,
                        );
                    }
                    return Some(i);
                }
            }
            i = i + 1;
        }
        proof {
            lemma_first_where_none(self.unmapped_windows@, unmapped_has_surface(surface));
        }
        None
    }
}

/// The step that notes the request in the layout mode of `window`.
pub open spec fn mode_step(window: WindowKey, request: ModeRequest) -> ShellAction {
    match request {
        ModeRequest::Fullscreen => ShellAction::SetClientFullscreen { window, fullscreen: true },
        ModeRequest::Unfullscreen => ShellAction::SetClientFullscreen { window, fullscreen: false },
        ModeRequest::Maximize => ShellAction::SetClientMaximized { window, maximized: true },
        ModeRequest::Unmaximize => ShellAction::SetClientMaximized { window, maximized: false },
    }
}

/// The mode that a window which still waits for its tags or rules is to start in,
/// after the request. Taking back a fullscreen request leaves a maximized one alone. A
/// request to unmaximize does not take a maximized one back: it is not told apart from
/// one to maximize.
pub open spec fn start_mode(
    wanted: Option<FullscreenOrMaximized>,
    request: ModeRequest,
) -> Option<FullscreenOrMaximized> {
    match request {
        ModeRequest::Fullscreen => Some(FullscreenOrMaximized::Fullscreen),
        ModeRequest::Unfullscreen => if wanted == Some(FullscreenOrMaximized::Fullscreen) {
            None
        } else {
            wanted
        },
        ModeRequest::Maximize => Some(FullscreenOrMaximized::Maximized),
        ModeRequest::Unmaximize => Some(FullscreenOrMaximized::Maximized),
    }
}

/// How far an unmapped window has come, after the request.
pub open spec fn after_request(state: UnmappedState, request: ModeRequest) -> UnmappedState {
    match state {
        UnmappedState::WaitingForTags { client_requests } => UnmappedState::WaitingForTags {
            client_requests: ClientRequests {
                layout_mode: start_mode(client_requests.layout_mode, request),
            },
        },
        UnmappedState::WaitingForRules { rules, client_requests } => {
            UnmappedState::WaitingForRules {
                rules,
                client_requests: ClientRequests {
                    layout_mode: start_mode(client_requests.layout_mode, request),
                },
            }
        },
        UnmappedState::PostInitialConfigure { attempt_float_on_map } => {
            UnmappedState::PostInitialConfigure {
                attempt_float_on_map: attempt_float_on_map && (request == ModeRequest::Unfullscreen
                    || request == ModeRequest::Unmaximize),
            }
        },
    }
}

/// The unmapped windows after the request for `surface`.
pub open spec fn unmapped_after<T>(
    pinnacle: Pinnacle<T>,
    surface: SurfaceKey,
    request: ModeRequest,
) -> Seq<Unmapped> {
    if pinnacle.mapped_position(surface) is Some {
        pinnacle.unmapped_windows@
    } else {
        match pinnacle.unmapped_position(surface) {
            Some(i) => pinnacle.unmapped_windows@.update(
                i,
                Unmapped {
                    state: after_request(pinnacle.unmapped_windows@[i].state, request),
                    ..pinnacle.unmapped_windows@[i]
                },
            ),
            None => pinnacle.unmapped_windows@,
        }
    }
}

/// The steps that the request for `surface` leads to.
pub open spec fn mode_request_steps<T>(
    pinnacle: Pinnacle<T>,
    surface: SurfaceKey,
    request: ModeRequest,
) -> Seq<ShellAction> {
    match pinnacle.mapped_position(surface) {
        Some(i) => {
            let window = pinnacle.windows@[i].key;
            seq![
                mode_step(window, request),
                ShellAction::UpdateWindowStateAndLayout { window },
            ]
        },
        None => match pinnacle.unmapped_position(surface) {
            Some(i) => {
                let window = pinnacle.unmapped_windows@[i].window.key;
                if pinnacle.unmapped_windows@[i].state is PostInitialConfigure {
                    seq![
                        mode_step(window, request),
                        ShellAction::ConfigureWindowIfNontiled { window },
                        ShellAction::SendConfigure { window },
                    ]
                } else {
                    Seq::empty()
                }
            },
            None => Seq::empty(),
        },
    }
}

/// The steps that follow when the window `w` is destroyed.
pub open spec fn destroy_steps(w: WindowElement) -> Seq<ShellAction> {
    let tiled = w.state.layout_mode == LayoutModeKind::Tiled;
    let remove = seq![ShellAction::RemoveWindow { window: w.key }];
    match w.output {
        Some(o) => {
            let output = o.key;
            let focus = seq![
                ShellAction::UpdateKeyboardFocus { output },
                ShellAction::ScheduleRender { output },
            ];
            if tiled {
                seq![ShellAction::CaptureSnapshots { output }] + remove + seq![
                    ShellAction::BeginLayoutTransaction { output },
                    ShellAction::RequestLayout { output },
                ] + focus
            } else {
                remove + focus
            }
        },
        None => remove,
    }
}

/// The steps that follow when the toplevel with the surface `surface` is destroyed.
pub open spec fn destroyed<T>(pinnacle: Pinnacle<T>, surface: SurfaceKey) -> Seq<ShellAction> {
    match pinnacle.mapped_position(surface) {
        Some(i) => destroy_steps(pinnacle.windows@[i]),
        None => Seq::empty(),
    }
}

/// The mode that a waiting window is to start in, after the request.
fn next_start_mode(wanted: Option<FullscreenOrMaximized>, request: ModeRequest) -> (r: Option<
    FullscreenOrMaximized,
>)
    ensures
        r == start_mode(wanted, request),
{
    match request {
        ModeRequest::Fullscreen => Some(FullscreenOrMaximized::Fullscreen),
        ModeRequest::Unfullscreen => match wanted {
            Some(FullscreenOrMaximized::Fullscreen) => None,
            other => other,
        },
        ModeRequest::Maximize => Some(FullscreenOrMaximized::Maximized),
        ModeRequest::Unmaximize => Some(FullscreenOrMaximized::Maximized),
    }
}

/// The step that notes the request in the layout mode of `window`.
fn next_mode_step(window: WindowKey, request: ModeRequest) -> (r: ShellAction)
    ensures
        r == mode_step(window, request),
{
    match request {
        ModeRequest::Fullscreen => ShellAction::SetClientFullscreen { window, fullscreen: true },
        ModeRequest::Unfullscreen => ShellAction::SetClientFullscreen { window, fullscreen: false },
        ModeRequest::Maximize => ShellAction::SetClientMaximized { window, maximized: true },
        ModeRequest::Unmaximize => ShellAction::SetClientMaximized { window, maximized: false },
    }
}

/// The unmapped windows with the new toplevel `window`.
pub open spec fn taken_in(unmapped: Seq<Unmapped>, window: WindowElement) -> Seq<Unmapped> {
    unmapped.push(
        Unmapped {
            window,
            activation_token_data: None,
            state: UnmappedState::WaitingForTags {
                client_requests: ClientRequests { layout_mode: None },
            },
        },
    )
}

impl<T> State<T> {
    /// Takes in a new toplevel window, which waits for its tags.
    pub fn new_toplevel(&mut self, window: WindowElement)
        ensures
            final(self).pinnacle.unmapped_windows@ == old(self).pinnacle.unmapped_windows@.push(
                Unmapped {
                    window,
                    activation_token_data: None,
                    state: UnmappedState::WaitingForTags {
                        client_requests: ClientRequests { layout_mode: None },
                    },
                },
            ),
            *final(self) == (State {
                pinnacle: Pinnacle {
                    unmapped_windows: final(self).pinnacle.unmapped_windows,
                    ..old(self).pinnacle
                },
            }),
            final(self).pinnacle.unmapped_windows@ == taken_in(
                old(self).pinnacle.unmapped_windows@,
                window,
            ),
    {
        self.pinnacle.unmapped_windows.push(
            Unmapped {
                window,
                activation_token_data: None,
                state: UnmappedState::WaitingForTags {
                    client_requests: ClientRequests::default(),
                },
            },
        );
    }

    /// Says what follows when the toplevel with the surface `surface` is destroyed.
    pub fn toplevel_destroyed(&self, surface: SurfaceKey) -> (r: Vec<ShellAction>)
        ensures
            r@ == match self.pinnacle.mapped_position(surface) {
                Some(i) => destroy_steps(self.pinnacle.windows@[i]),
                None => Seq::empty(),
            },
            r@ == destroyed(self.pinnacle, surface),
    {
        let mut actions: Vec<ShellAction> = Vec::new();
        let window = match self.pinnacle.window_for_surface(surface) {
            Some(window) => window,
            None => {
                return actions;
            },
        };
        let is_tiled = window.state.layout_mode.is_tiled();
        if is_tiled {
            if let Some(output) = window.output {
                actions.push(ShellAction::CaptureSnapshots { output: output.key });
            }
        }
        actions.push(ShellAction::RemoveWindow { window: window.key });
        if let Some(output) = window.output {
            if is_tiled {
                actions.push(ShellAction::BeginLayoutTransaction { output: output.key });
                actions.push(ShellAction::RequestLayout { output: output.key });
            }
            actions.push(ShellAction::UpdateKeyboardFocus { output: output.key });
            actions.push(ShellAction::ScheduleRender { output: output.key });
        }
        assert(actions@ =~= destroy_steps(*window));
        actions
    }

    /// Takes up a client's request for the mode of the window with the surface
    /// `surface`.
    fn mode_request(&mut self, surface: SurfaceKey, request: ModeRequest) -> (r: Vec<ShellAction>)
        ensures
            r@ == mode_request_steps(old(self).pinnacle, surface, request),
            final(self).pinnacle.unmapped_windows@ == unmapped_after(
                old(self).pinnacle,
                surface,
                request,
            ),
            *final(self) == (State {
                pinnacle: Pinnacle {
                    unmapped_windows: final(self).pinnacle.unmapped_windows,
                    ..old(self).pinnacle
                },
            }),
    {
        let mut actions: Vec<ShellAction> = Vec::new();
        if let Some(window) = self.pinnacle.window_for_surface(surface) {
            actions.push(next_mode_step(window.key, request));
            actions.push(ShellAction::UpdateWindowStateAndLayout { window: window.key });
        } else if let Some(i) = self.pinnacle.unmapped_window_for_surface(surface) {
            let unmapped = &mut self.pinnacle.unmapped_windows[i];
            let window = unmapped.window.key;
            match &mut unmapped.state {
                UnmappedState::WaitingForTags { client_requests } => {
                    client_requests.layout_mode = next_start_mode(
                        client_requests.layout_mode,
                        request,
                    );
                },
                UnmappedState::WaitingForRules { rules: _, client_requests } => {
                    client_requests.layout_mode = next_start_mode(
                        client_requests.layout_mode,
                        request,
                    );
                },
                UnmappedState::PostInitialConfigure { attempt_float_on_map } => {
                    actions.push(next_mode_step(window, request));
                    match request {
                        ModeRequest::Fullscreen | ModeRequest::Maximize => {
                            *attempt_float_on_map = false;
                        },
                        ModeRequest::Unfullscreen | ModeRequest::Unmaximize => (),
                    }
                    actions.push(ShellAction::ConfigureWindowIfNontiled { window });
                    actions.push(ShellAction::SendConfigure { window });
                },
            }
        }
        actions
    }

    /// The client wants its window fullscreen. The output that it would like best is not
    /// taken into account.
    pub fn fullscreen_request(
        &mut self,
        surface: SurfaceKey,
        _output: Option<OutputKey>,
    ) -> (r: Vec<ShellAction>)
        ensures
            r@ == mode_request_steps(old(self).pinnacle, surface, ModeRequest::Fullscreen),
            final(self).pinnacle.unmapped_windows@ == unmapped_after(
                old(self).pinnacle,
                surface,
                ModeRequest::Fullscreen,
            ),
            *final(self) == (State {
                pinnacle: Pinnacle {
                    unmapped_windows: final(self).pinnacle.unmapped_windows,
                    ..old(self).pinnacle
                },
            }),
    {
        self.mode_request(surface, ModeRequest::Fullscreen)
    }

    /// The client no longer wants its window fullscreen.
    pub fn unfullscreen_request(&mut self, surface: SurfaceKey) -> (r: Vec<ShellAction>)
        ensures
            r@ == mode_request_steps(old(self).pinnacle, surface, ModeRequest::Unfullscreen),
            final(self).pinnacle.unmapped_windows@ == unmapped_after(
                old(self).pinnacle,
                surface,
                ModeRequest::Unfullscreen,
            ),
            *final(self) == (State {
                pinnacle: Pinnacle {
                    unmapped_windows: final(self).pinnacle.unmapped_windows,
                    ..old(self).pinnacle
                },
            }),
    {
        self.mode_request(surface, ModeRequest::Unfullscreen)
    }

    /// The client wants its window maximized.
    pub fn maximize_request(&mut self, surface: SurfaceKey) -> (r: Vec<ShellAction>)
        ensures
            r@ == mode_request_steps(old(self).pinnacle, surface, ModeRequest::Maximize),
            final(self).pinnacle.unmapped_windows@ == unmapped_after(
                old(self).pinnacle,
                surface,
                ModeRequest::Maximize,
            ),
            *final(self) == (State {
                pinnacle: Pinnacle {
                    unmapped_windows: final(self).pinnacle.unmapped_windows,
                    ..old(self).pinnacle
                },
            }),
    {
        self.mode_request(surface, ModeRequest::Maximize)
    }

    /// The client no longer wants its window maximized.
    pub fn unmaximize_request(&mut self, surface: SurfaceKey) -> (r: Vec<ShellAction>)
        ensures
            r@ == mode_request_steps(old(self).pinnacle, surface, ModeRequest::Unmaximize),
            final(self).pinnacle.unmapped_windows@ == unmapped_after(
                old(self).pinnacle,
                surface,
                ModeRequest::Unmaximize,
            ),
            *final(self) == (State {
                pinnacle: Pinnacle {
                    unmapped_windows: final(self).pinnacle.unmapped_windows,
                    ..old(self).pinnacle
                },
            }),
    {
        self.mode_request(surface, ModeRequest::Unmaximize)
    }
}

/// What a client has attached to its surface for the coming commit.
#[derive(Debug, Clone, Copy, PartialEq, Eq, Structural)]
pub enum BufferAssignment {
    /// The buffer is taken away, which unmaps the surface.
    Removed,
    /// There is a new buffer.
    NewBuffer,
}

/// What is done with the snapshot of a window before a commit.
#[derive(Debug, Clone, Copy, PartialEq, Eq, Structural)]
pub enum SnapshotStep {
    /// Nothing.
    Keep,
    /// Capture the window, which stands at `location` on `output`, at the scale of
    /// the output and with full opacity, and store the snapshot with the window.
    Capture { window: WindowKey, output: OutputKey, location: Point },
    /// Drop the snapshot that the window holds.
    Discard { window: WindowKey },
}

/// What is done with the snapshot of the window `w` before a commit with `buffer`.
pub open spec fn snapshot_step(w: WindowElement, buffer: Option<BufferAssignment>) -> SnapshotStep {
    if buffer != Some(BufferAssignment::Removed) {
        SnapshotStep::Discard { window: w.key }
    } else {
        match (w.output, w.location) {
            (Some(output), Some(location)) => SnapshotStep::Capture {
                window: w.key,
                output: output.key,
                location: location.minus(output.location),
            },
            _ => SnapshotStep::Keep,
        }
    }
}

/// What is done with the snapshot of the window with the surface `surface` before a commit
/// with `buffer`.
pub open spec fn committed<T>(
    pinnacle: Pinnacle<T>,
    surface: SurfaceKey,
    buffer: Option<BufferAssignment>,
) -> SnapshotStep {
    match pinnacle.mapped_position(surface) {
        Some(i) => snapshot_step(pinnacle.windows@[i], buffer),
        None => SnapshotStep::Keep,
    }
}

/// Decides what is done with the snapshot of a window before the commit of its
/// surface takes effect. A window that is about to be unmapped is captured while its
/// contents are still there.
pub fn snapshot_pre_commit_hook<T>(
    state: &State<T>,
    surface: SurfaceKey,
    buffer: Option<BufferAssignment>,
) -> (r: SnapshotStep)
    ensures
        r == match state.pinnacle.mapped_position(surface) {
            Some(i) => snapshot_step(state.pinnacle.windows@[i], buffer),
            None => SnapshotStep::Keep,
        },
        r == committed(state.pinnacle, surface, buffer),
{
    let window = match state.pinnacle.window_for_surface(surface) {
        Some(window) => window,
        None => {
            return SnapshotStep::Keep;
        },
    };
    let got_unmapped = matches!(buffer, Some(BufferAssignment::Removed));
    if got_unmapped {
        let output = match window.output {
            Some(output) => output,
            None => {
                return SnapshotStep::Keep;
            },
        };
        let location = match window.location {
            Some(location) => location,
            None => {
                return SnapshotStep::Keep;
            },
        };
        SnapshotStep::Capture {
            window: window.key,
            output: output.key,
            location: location.saturating_sub(output.location),
        }
    } else {
        SnapshotStep::Discard { window: window.key }
    }
}

/// The mode that a waiting window is to start in, if it waits.
pub open spec fn wanted_mode(state: UnmappedState) -> Option<Option<FullscreenOrMaximized>> {
    match state {
        UnmappedState::WaitingForTags { client_requests } => Some(client_requests.layout_mode),
        UnmappedState::WaitingForRules { client_requests, .. } => Some(client_requests.layout_mode),
        UnmappedState::PostInitialConfigure { .. } => None,
    }
}

/// A waiting window that asks to be fullscreen and then not to be has no wish left,
/// whatever it wished for before.
pub proof fn law_unfullscreen_takes_back_fullscreen(state: UnmappedState)
    requires
        !(state is PostInitialConfigure),
    ensures
        wanted_mode(
            after_request(
                after_request(state, ModeRequest::Fullscreen),
                ModeRequest::Unfullscreen,
            ),
        ) == Some(None::<FullscreenOrMaximized>),
{
}

/// Taking back a fullscreen request leaves the wish to start maximized alone.
pub proof fn law_unfullscreen_leaves_maximized_alone(state: UnmappedState)
    requires
        wanted_mode(state) == Some(Some(FullscreenOrMaximized::Maximized)),
    ensures
        after_request(state, ModeRequest::Unfullscreen) == state,
{
}

/// On a window that waits, a request to unmaximize is not told apart from one to
/// maximize: after either the window is to start maximized.
pub proof fn law_waiting_windows_take_unmaximize_as_maximize(state: UnmappedState)
    requires
        !(state is PostInitialConfigure),
    ensures
        after_request(state, ModeRequest::Unmaximize) == after_request(
            state,
            ModeRequest::Maximize,
        ),
{
}

/// Of several requests before the window is configured the last one counts, unless it
/// takes back a fullscreen request.
pub proof fn law_the_last_request_counts(
    state: UnmappedState,
    first: ModeRequest,
    last: ModeRequest,
)
    requires
        !(state is PostInitialConfigure),
        last != ModeRequest::Unfullscreen,
    ensures
        after_request(after_request(state, first), last) == after_request(state, last),
{
}

/// A request that comes twice has the effect of one.
pub proof fn law_requests_are_idempotent(state: UnmappedState, request: ModeRequest)
    ensures
        after_request(after_request(state, request), request) == after_request(state, request),
{
}

/// A request neither moves a window on nor back on its way to being mapped, and keeps
/// the rules that were gathered for it.
pub proof fn law_requests_keep_the_stage(state: UnmappedState, request: ModeRequest)
    ensures
        after_request(state, request) is WaitingForTags <==> state is WaitingForTags,
        after_request(state, request) is WaitingForRules <==> state is WaitingForRules,
        state matches UnmappedState::WaitingForRules { rules, .. } ==> after_request(
            state,
            request,
        )->WaitingForRules_rules == rules,
{
}

/// A configured window does not try to float any more once it has asked to be
/// fullscreen or maximized, and no request brings that back.
pub proof fn law_floating_is_given_up_for_good(
    state: UnmappedState,
    first: ModeRequest,
    second: ModeRequest,
)
    requires
        state is PostInitialConfigure,
        first == ModeRequest::Fullscreen || first == ModeRequest::Maximize,
    ensures
        after_request(after_request(state, first), second) == (
        UnmappedState::PostInitialConfigure { attempt_float_on_map: false }),
{
}

/// A request is about one window: every other unmapped window stays as it is, the
/// windows stay in order, and each surface is found where it was found before.
pub proof fn law_a_request_is_about_one_window<T>(
    before: Pinnacle<T>,
    surface: SurfaceKey,
    request: ModeRequest,
    after: Pinnacle<T>,
    other: SurfaceKey,
)
    requires
        after.windows == before.windows,
        after.unmapped_windows@ == unmapped_after(before, surface, request),
    ensures
        after.unmapped_windows.len() == before.unmapped_windows.len(),
        forall|i: int|
            0 <= i < before.unmapped_windows.len() && Some(i) != before.unmapped_position(surface)
                ==> #[trigger] after.unmapped_windows@[i] == before.unmapped_windows@[i],
        after.mapped_position(other) == before.mapped_position(other),
        after.unmapped_position(other) == before.unmapped_position(other),
{
    let p = unmapped_has_surface(other);
    let old_ws = before.unmapped_windows@;
    let new_ws = after.unmapped_windows@;
    if let Some(i) = before.unmapped_position(surface) {
        assert(is_first_where(old_ws, unmapped_has_surface(surface), i));
    }
    assert forall|i: int| 0 <= i < old_ws.len() implies p(#[trigger] new_ws[i]) == p(old_ws[i]) by {
    }
    match before.unmapped_position(other) {
        Some(k) => {
            assert(is_first_where(old_ws, p, k));
            assert forall|j: int| 0 <= j < k implies !p(#[trigger] new_ws[j]) by {
                assert(!p(old_ws[j]));
            }
            assert(is_first_where(new_ws, p, k));
            lemma_first_where_is(new_ws, p, k);
        },
        None => {
            assert forall|j: int| 0 <= j < new_ws.len() implies !p(#[trigger] new_ws[j]) by {
                if p(old_ws[j]) {
                    lemma_first_where_some(old_ws, p, j);
                }
            }
            lemma_first_where_none(new_ws, p);
        },
    }
}

/// When a client asks for fullscreen and then takes that back, before its window was
/// configured, the window has no wish left; the steps in between are empty.
pub proof fn law_fullscreen_and_back_leaves_no_wish<T>(
    before: Pinnacle<T>,
    between: Pinnacle<T>,
    after: Pinnacle<T>,
    surface: SurfaceKey,
)
    requires
        before.mapped_position(surface) is None,
        before.unmapped_position(surface) matches Some(i) && !(
        before.unmapped_windows@[i].state is PostInitialConfigure),
        between.windows == before.windows,
        between.unmapped_windows@ == unmapped_after(before, surface, ModeRequest::Fullscreen),
        after.windows == between.windows,
        after.unmapped_windows@ == unmapped_after(between, surface, ModeRequest::Unfullscreen),
    ensures
        after.unmapped_position(surface) == before.unmapped_position(surface),
        wanted_mode(after.unmapped_windows@[before.unmapped_position(surface)->0].state) == Some(
            None::<FullscreenOrMaximized>,
        ),
        mode_request_steps(before, surface, ModeRequest::Fullscreen) == Seq::<ShellAction>::empty(),
        mode_request_steps(between, surface, ModeRequest::Unfullscreen) == Seq::<
            ShellAction,
        >::empty(),
{
    law_a_request_is_about_one_window(
        before,
        surface,
        ModeRequest::Fullscreen,
        between,
        surface,
    );
    law_a_request_is_about_one_window(
        between,
        surface,
        ModeRequest::Unfullscreen,
        after,
        surface,
    );
    let i = before.unmapped_position(surface)->0;
    assert(is_first_where(before.unmapped_windows@, unmapped_has_surface(surface), i));
    law_unfullscreen_takes_back_fullscreen(before.unmapped_windows@[i].state);
}

/// A new toplevel is found by its surface among the unmapped windows, if no window had
/// this surface before.
pub proof fn law_a_new_toplevel_is_found<T>(
    before: Pinnacle<T>,
    unmapped: Unmapped,
    after: Pinnacle<T>,
    surface: SurfaceKey,
)
    requires
        unmapped.window.surface == Some(surface),
        before.unmapped_position(surface) is None,
        after.unmapped_windows@ == before.unmapped_windows@.push(unmapped),
    ensures
        after.unmapped_position(surface) == Some(before.unmapped_windows.len() as int),
{
    let p = unmapped_has_surface(surface);
    let old_ws = before.unmapped_windows@;
    let new_ws = after.unmapped_windows@;
    assert forall|j: int| 0 <= j < old_ws.len() implies !p(#[trigger] new_ws[j]) by {
        if p(old_ws[j]) {
            lemma_first_where_some(old_ws, p, j);
        }
    }
    assert(is_first_where(new_ws, p, old_ws.len() as int));
    lemma_first_where_is(new_ws, p, old_ws.len() as int);
}

/// A destroyed window is removed once. Snapshots are captured before that, while the
/// window is still there, and the layout is requested after it, so that the window no
/// longer counts.
pub proof fn law_a_destroyed_window_is_removed_before_the_layout(w: WindowElement)
    ensures
        destroy_steps(w).contains(ShellAction::RemoveWindow { window: w.key }),
        forall|i: int, j: int|
            0 <= i < destroy_steps(w).len() && 0 <= j < destroy_steps(w).len()
                && #[trigger] destroy_steps(w)[i] is RemoveWindow && (
            #[trigger] destroy_steps(w)[j] is RemoveWindow) ==> i == j,
        forall|i: int, j: int|
            0 <= i < destroy_steps(w).len() && 0 <= j < destroy_steps(w).len()
                && #[trigger] destroy_steps(w)[i] is CaptureSnapshots && (
            #[trigger] destroy_steps(w)[j] is RemoveWindow) ==> i < j,
        forall|i: int, j: int|
            0 <= i < destroy_steps(w).len() && 0 <= j < destroy_steps(w).len()
                && #[trigger] destroy_steps(w)[i] is RemoveWindow && (
            #[trigger] destroy_steps(w)[j] is RequestLayout) ==> i < j,
        (exists|i: int|
            0 <= i < destroy_steps(w).len() && #[trigger] destroy_steps(w)[i] is RequestLayout)
            <==> w.state.layout_mode == LayoutModeKind::Tiled && w.output is Some,
{
    let steps = destroy_steps(w);
    let remove = ShellAction::RemoveWindow { window: w.key };
    if w.state.layout_mode == LayoutModeKind::Tiled && w.output is Some {
        assert(steps[1] == remove);
        assert(steps[3] is RequestLayout);
    } else {
        assert(steps[0] == remove);
    }
}

/// A surface stands for the first window that has it, among the mapped windows and among the
/// unmapped ones, and for none where no window has it.
pub proof fn law_a_surface_stands_for_the_first_window<T>(pinnacle: Pinnacle<T>, surface: SurfaceKey)
    ensures
        match pinnacle.mapped_position(surface) {
            Some(i) => 0 <= i < pinnacle.windows.len() && pinnacle.windows@[i].surface == Some(
                surface,
            ) && forall|j: int|
                0 <= j < i ==> (#[trigger] pinnacle.windows@[j]).surface != Some(surface),
            None => forall|j: int|
                0 <= j < pinnacle.windows.len() ==> (#[trigger] pinnacle.windows@[j]).surface
                    != Some(surface),
        },
        match pinnacle.unmapped_position(surface) {
            Some(i) => 0 <= i < pinnacle.unmapped_windows.len()
                && pinnacle.unmapped_windows@[i].window.surface == Some(surface) && forall|j: int|
                0 <= j < i ==> (#[trigger] pinnacle.unmapped_windows@[j]).window.surface != Some(
                    surface,
                ),
            None => forall|j: int|
                0 <= j < pinnacle.unmapped_windows.len()
                    ==> (#[trigger] pinnacle.unmapped_windows@[j]).window.surface != Some(surface),
        },
{
    let ws = pinnacle.windows@;
    let us = pinnacle.unmapped_windows@;
    law_the_first_position_comes_first(ws, has_surface(surface));
    law_the_first_position_comes_first(us, unmapped_has_surface(surface));
    let m = match pinnacle.mapped_position(surface) {
        Some(i) => i,
        None => ws.len() as int,
    };
    let n = match pinnacle.unmapped_position(surface) {
        Some(i) => i,
        None => us.len() as int,
    };
    assert forall|j: int| 0 <= j < m implies (#[trigger] ws[j]).surface != Some(surface) by {
        assert(!has_surface(surface)(ws[j]));
    }
    assert forall|j: int| 0 <= j < n implies (#[trigger] us[j]).window.surface != Some(surface) by {
        assert(!unmapped_has_surface(surface)(us[j]));
    }
}

/// A mapped window takes every request at once, whatever its mode: what its client wants is
/// noted as asked, and the window is brought up to date. `i` is where the first window with
/// the surface stands. No unmapped window changes.
pub proof fn law_mapped_windows_take_every_request<T>(
    pinnacle: Pinnacle<T>,
    surface: SurfaceKey,
    i: int,
)
    requires
        0 <= i < pinnacle.windows.len(),
        pinnacle.windows@[i].surface == Some(surface),
        forall|j: int|
            0 <= j < i ==> (#[trigger] pinnacle.windows@[j]).surface != Some(surface),
    ensures
        ({
            let window = pinnacle.windows@[i].key;
            &&& mode_request_steps(pinnacle, surface, ModeRequest::Fullscreen) == seq![
                ShellAction::SetClientFullscreen { window, fullscreen: true },
                ShellAction::UpdateWindowStateAndLayout { window },
            ]
            &&& mode_request_steps(pinnacle, surface, ModeRequest::Unfullscreen) == seq![
                ShellAction::SetClientFullscreen { window, fullscreen: false },
                ShellAction::UpdateWindowStateAndLayout { window },
            ]
            &&& mode_request_steps(pinnacle, surface, ModeRequest::Maximize) == seq![
                ShellAction::SetClientMaximized { window, maximized: true },
                ShellAction::UpdateWindowStateAndLayout { window },
            ]
            &&& mode_request_steps(pinnacle, surface, ModeRequest::Unmaximize) == seq![
                ShellAction::SetClientMaximized { window, maximized: false },
                ShellAction::UpdateWindowStateAndLayout { window },
            ]
            &&& forall|request: ModeRequest| #[trigger]
                unmapped_after(pinnacle, surface, request) == pinnacle.unmapped_windows@
        }),
{
    law_a_surface_stands_for_the_first_window(pinnacle, surface);
    lemma_same_first(pinnacle, surface, i);
}

/// The first mapped window with a surface is the one that the surface stands for.
proof fn lemma_same_first<T>(pinnacle: Pinnacle<T>, surface: SurfaceKey, i: int)
    requires
        0 <= i < pinnacle.windows.len(),
        pinnacle.windows@[i].surface == Some(surface),
        forall|j: int|
            0 <= j < i ==> (#[trigger] pinnacle.windows@[j]).surface != Some(surface),
    ensures
        pinnacle.mapped_position(surface) == Some(i),
{
    law_a_surface_stands_for_the_first_window(pinnacle, surface);
    let k = pinnacle.mapped_position(surface)->0;
    assert(pinnacle.mapped_position(surface) is Some);
    if k < i {
        assert(pinnacle.windows@[k].surface != Some(surface));
    }
    if i < k {
        assert(pinnacle.windows@[i].surface != Some(surface));
    }
}

/// The first unmapped window with a surface that no mapped window has is the one that a
/// request is about.
proof fn lemma_same_first_unmapped<T>(pinnacle: Pinnacle<T>, surface: SurfaceKey, i: int)
    requires
        forall|j: int|
            0 <= j < pinnacle.windows.len() ==> (#[trigger] pinnacle.windows@[j]).surface != Some(
                surface,
            ),
        0 <= i < pinnacle.unmapped_windows.len(),
        pinnacle.unmapped_windows@[i].window.surface == Some(surface),
        forall|j: int|
            0 <= j < i ==> (#[trigger] pinnacle.unmapped_windows@[j]).window.surface != Some(
                surface,
            ),
    ensures
        pinnacle.mapped_position(surface) is None,
        pinnacle.unmapped_position(surface) == Some(i),
{
    law_a_surface_stands_for_the_first_window(pinnacle, surface);
    let k = pinnacle.unmapped_position(surface)->0;
    assert(pinnacle.unmapped_position(surface) is Some);
    if k < i {
        assert(pinnacle.unmapped_windows@[k].window.surface != Some(surface));
    }
    if i < k {
        assert(pinnacle.unmapped_windows@[i].window.surface != Some(surface));
    }
}

/// A window that was configured but is not mapped yet takes every request at once: what its
/// client wants is noted as asked, and it is configured again. It stops trying to float where
/// it asks to be fullscreen or maximized, and only there. Nothing else changes about it, and
/// no other window changes.
pub proof fn law_configured_windows_take_every_request<T>(
    pinnacle: Pinnacle<T>,
    surface: SurfaceKey,
    i: int,
)
    requires
        forall|j: int|
            0 <= j < pinnacle.windows.len() ==> (#[trigger] pinnacle.windows@[j]).surface != Some(
                surface,
            ),
        0 <= i < pinnacle.unmapped_windows.len(),
        pinnacle.unmapped_windows@[i].window.surface == Some(surface),
        forall|j: int|
            0 <= j < i ==> (#[trigger] pinnacle.unmapped_windows@[j]).window.surface != Some(
                surface,
            ),
        pinnacle.unmapped_windows@[i].state is PostInitialConfigure,
    ensures
        ({
            let unmapped = pinnacle.unmapped_windows@[i];
            let window = unmapped.window.key;
            let given_up = UnmappedState::PostInitialConfigure { attempt_float_on_map: false };
            &&& mode_request_steps(pinnacle, surface, ModeRequest::Fullscreen) == seq![
                ShellAction::SetClientFullscreen { window, fullscreen: true },
                ShellAction::ConfigureWindowIfNontiled { window },
                ShellAction::SendConfigure { window },
            ]
            &&& mode_request_steps(pinnacle, surface, ModeRequest::Unfullscreen) == seq![
                ShellAction::SetClientFullscreen { window, fullscreen: false },
                ShellAction::ConfigureWindowIfNontiled { window },
                ShellAction::SendConfigure { window },
            ]
            &&& mode_request_steps(pinnacle, surface, ModeRequest::Maximize) == seq![
                ShellAction::SetClientMaximized { window, maximized: true },
                ShellAction::ConfigureWindowIfNontiled { window },
                ShellAction::SendConfigure { window },
            ]
            &&& mode_request_steps(pinnacle, surface, ModeRequest::Unmaximize) == seq![
                ShellAction::SetClientMaximized { window, maximized: false },
                ShellAction::ConfigureWindowIfNontiled { window },
                ShellAction::SendConfigure { window },
            ]
            &&& unmapped_after(pinnacle, surface, ModeRequest::Fullscreen)
                == pinnacle.unmapped_windows@.update(i, Unmapped { state: given_up, ..unmapped })
            &&& unmapped_after(pinnacle, surface, ModeRequest::Maximize)
                == pinnacle.unmapped_windows@.update(i, Unmapped { state: given_up, ..unmapped })
            &&& unmapped_after(pinnacle, surface, ModeRequest::Unfullscreen)
                == pinnacle.unmapped_windows@
            &&& unmapped_after(pinnacle, surface, ModeRequest::Unmaximize)
                == pinnacle.unmapped_windows@
        }),
{
    lemma_same_first_unmapped(pinnacle, surface, i);
    let ws = pinnacle.unmapped_windows@;
    assert(unmapped_after(pinnacle, surface, ModeRequest::Unfullscreen) =~= ws);
    assert(unmapped_after(pinnacle, surface, ModeRequest::Unmaximize) =~= ws);
}

/// The state of a waiting window with the wish `wish` in place of its own.
pub open spec fn wishing(
    state: UnmappedState,
    wish: Option<FullscreenOrMaximized>,
) -> UnmappedState {
    match state {
        UnmappedState::WaitingForTags { .. } => UnmappedState::WaitingForTags {
            client_requests: ClientRequests { layout_mode: wish },
        },
        UnmappedState::WaitingForRules { rules, .. } => UnmappedState::WaitingForRules {
            rules,
            client_requests: ClientRequests { layout_mode: wish },
        },
        UnmappedState::PostInitialConfigure { .. } => state,
    }
}

/// A window that waits for its tags or rules leads to no step: its wish is noted, and nothing
/// else changes about it or about any other window. It wishes to be fullscreen or maximized
/// after a request for that, and maximized after one to unmaximize. A request not to be
/// fullscreen takes away that wish and no other.
pub proof fn law_waiting_windows_note_their_wish<T>(
    pinnacle: Pinnacle<T>,
    surface: SurfaceKey,
    i: int,
)
    requires
        forall|j: int|
            0 <= j < pinnacle.windows.len() ==> (#[trigger] pinnacle.windows@[j]).surface != Some(
                surface,
            ),
        0 <= i < pinnacle.unmapped_windows.len(),
        pinnacle.unmapped_windows@[i].window.surface == Some(surface),
        forall|j: int|
            0 <= j < i ==> (#[trigger] pinnacle.unmapped_windows@[j]).window.surface != Some(
                surface,
            ),
        !(pinnacle.unmapped_windows@[i].state is PostInitialConfigure),
    ensures
        ({
            let ws = pinnacle.unmapped_windows@;
            let full = wishing(ws[i].state, Some(FullscreenOrMaximized::Fullscreen));
            let max = wishing(ws[i].state, Some(FullscreenOrMaximized::Maximized));
            let none = wishing(ws[i].state, None);
            &&& forall|request: ModeRequest| #[trigger]
                mode_request_steps(pinnacle, surface, request).len() == 0
            &&& unmapped_after(pinnacle, surface, ModeRequest::Fullscreen) == ws.update(
                i,
                Unmapped { state: full, ..ws[i] },
            )
            &&& unmapped_after(pinnacle, surface, ModeRequest::Maximize) == ws.update(
                i,
                Unmapped { state: max, ..ws[i] },
            )
            &&& unmapped_after(pinnacle, surface, ModeRequest::Unmaximize) == ws.update(
                i,
                Unmapped { state: max, ..ws[i] },
            )
            &&& ws[i].state == full ==> unmapped_after(pinnacle, surface, ModeRequest::Unfullscreen)
                == ws.update(i, Unmapped { state: none, ..ws[i] })
            &&& ws[i].state != full ==> unmapped_after(pinnacle, surface, ModeRequest::Unfullscreen)
                == ws
        }),
{
    lemma_same_first_unmapped(pinnacle, surface, i);
    let ws = pinnacle.unmapped_windows@;
    if ws[i].state != wishing(ws[i].state, Some(FullscreenOrMaximized::Fullscreen)) {
        assert(unmapped_after(pinnacle, surface, ModeRequest::Unfullscreen) =~= ws);
    }
}

/// A request for a surface that no window has changes nothing and leads to no step.
pub proof fn law_unknown_surfaces_have_no_effect<T>(
    pinnacle: Pinnacle<T>,
    surface: SurfaceKey,
    request: ModeRequest,
    buffer: Option<BufferAssignment>,
)
    requires
        forall|j: int|
            0 <= j < pinnacle.windows.len() ==> (#[trigger] pinnacle.windows@[j]).surface != Some(
                surface,
            ),
    ensures
        (forall|j: int|
            0 <= j < pinnacle.unmapped_windows.len()
                ==> (#[trigger] pinnacle.unmapped_windows@[j]).window.surface != Some(surface))
            ==> mode_request_steps(pinnacle, surface, request).len() == 0 && unmapped_after(
            pinnacle,
            surface,
            request,
        ) == pinnacle.unmapped_windows@,
        destroyed(pinnacle, surface).len() == 0,
        committed(pinnacle, surface, buffer) == SnapshotStep::Keep,
{
    law_a_surface_stands_for_the_first_window(pinnacle, surface);
    let k = pinnacle.mapped_position(surface)->0;
    if pinnacle.mapped_position(surface) is Some {
        assert(pinnacle.windows@[k].surface != Some(surface));
    }
    let n = pinnacle.unmapped_position(surface)->0;
    if pinnacle.unmapped_position(surface) is Some && (forall|j: int|
        0 <= j < pinnacle.unmapped_windows.len()
            ==> (#[trigger] pinnacle.unmapped_windows@[j]).window.surface != Some(surface)) {
        assert(pinnacle.unmapped_windows@[n].window.surface != Some(surface));
    }
}

/// A destroyed window is removed, whatever its mode. Where it has an output, the keyboard
/// focus there is brought up to date and the output is redrawn, in this order and at the end.
/// Only a tiled window has the output laid out anew: snapshots are captured first of all, and
/// right after the removal a transaction begins and a layout is requested. Nothing else
/// happens, and without an output the removal is all.
pub proof fn law_a_destroyed_window_is_cleared_away<T>(
    pinnacle: Pinnacle<T>,
    surface: SurfaceKey,
    i: int,
)
    requires
        0 <= i < pinnacle.windows.len(),
        pinnacle.windows@[i].surface == Some(surface),
        forall|j: int|
            0 <= j < i ==> (#[trigger] pinnacle.windows@[j]).surface != Some(surface),
    ensures
        ({
            let w = pinnacle.windows@[i];
            let steps = destroyed(pinnacle, surface);
            let output = w.output->0.key;
            let n = steps.len() as int;
            &&& w.output is None ==> n == 1 && steps[0] == (ShellAction::RemoveWindow {
                window: w.key,
            })
            &&& w.output is Some ==> {
                &&& n >= 3
                &&& steps[n - 2] == ShellAction::UpdateKeyboardFocus { output }
                &&& steps[n - 1] == ShellAction::ScheduleRender { output }
            }
            &&& w.output is Some && !(w.state.layout_mode is Tiled) ==> n == 3 && steps[0] == (
            ShellAction::RemoveWindow { window: w.key })
            &&& w.output is Some && w.state.layout_mode is Tiled ==> {
                &&& n == 6
                &&& steps[0] == ShellAction::CaptureSnapshots { output }
                &&& steps[1] == ShellAction::RemoveWindow { window: w.key }
                &&& steps[2] == ShellAction::BeginLayoutTransaction { output }
                &&& steps[3] == ShellAction::RequestLayout { output }
            }
        }),
{
    lemma_same_first(pinnacle, surface, i);
}

/// A window that is about to lose its buffer is captured exactly where it has an output and a
/// place, at the place that it has on that output; without either its snapshot stays. Any
/// other commit drops the snapshot. What else is known of the window does not matter.
pub proof fn law_a_vanishing_window_is_captured_in_place<T>(
    pinnacle: Pinnacle<T>,
    surface: SurfaceKey,
    i: int,
)
    requires
        0 <= i < pinnacle.windows.len(),
        pinnacle.windows@[i].surface == Some(surface),
        forall|j: int|
            0 <= j < i ==> (#[trigger] pinnacle.windows@[j]).surface != Some(surface),
    ensures
        ({
            let w = pinnacle.windows@[i];
            let removed = committed(pinnacle, surface, Some(BufferAssignment::Removed));
            let on = w.output->0.location;
            let at = w.location->0;
            &&& committed(pinnacle, surface, None) == SnapshotStep::Discard { window: w.key }
            &&& committed(pinnacle, surface, Some(BufferAssignment::NewBuffer))
                == SnapshotStep::Discard { window: w.key }
            &&& w.output is None || w.location is None ==> removed == SnapshotStep::Keep
            &&& w.output is Some && w.location is Some ==> {
                &&& removed is Capture
                &&& removed->Capture_window == w.key
                &&& removed->Capture_output == w.output->0.key
                &&& removed->Capture_location == at.minus(on)
                &&& i32::MIN <= at.x - on.x <= i32::MAX ==> removed->Capture_location.x == at.x
                    - on.x
                &&& i32::MIN <= at.y - on.y <= i32::MAX ==> removed->Capture_location.y == at.y
                    - on.y
            }
        }),
{
    lemma_same_first(pinnacle, surface, i);
}

/// A new toplevel comes last among the unmapped windows, waits for its tags, has no wish and
/// no token. The windows before it stay as they are.
pub proof fn law_a_new_toplevel_waits_for_its_tags(unmapped: Seq<Unmapped>, window: WindowElement)
    ensures
        ({
            let after = taken_in(unmapped, window);
            let new = after[after.len() - 1];
            &&& after.len() == unmapped.len() + 1
            &&& after.take(unmapped.len() as int) == unmapped
            &&& new.window == window
            &&& new.activation_token_data is None
            &&& new.state is WaitingForTags
            &&& new.state->WaitingForTags_client_requests.layout_mode is None
        }),
{
    assert(taken_in(unmapped, window).take(unmapped.len() as int) =~= unmapped);
}

} // verus!
