//! What the layout and shell logic reads of a window.

use indexmap::IndexSet;
use vstd::prelude::*;

use crate::geometry::Point;
use crate::output::OutputKey;
use crate::tags::{
    distinct, law_a_shared_tag_stands_in_both, lemma_distinct_contains, share_tag, tag_seq, TagId,
};

verus! {

/// Identifies a window. Two window values with one key are the same window.
pub type WindowKey = u64;

/// Identifies a Wayland surface.
pub type SurfaceKey = u64;

/// Identifies the rules that the compositor has gathered for a new window.
pub type RulesKey = u64;

/// Identifies the activation token that a window was opened with.
pub type TokenKey = u64;

/// The serial of a Wayland event.
pub type Serial = u32;

/// The protocol that a window speaks.
#[derive(Debug, Clone, Copy, PartialEq, Eq, Structural)]
pub enum WindowSurface {
    Wayland,
    X11,
}

/// How a window is laid out at present.
#[derive(Debug, Clone, Copy, PartialEq, Eq, Structural)]
pub enum LayoutModeKind {
    Tiled,
    Floating,
    Maximized,
    Fullscreen,
}

impl LayoutModeKind {
    /// Whether the window takes a place in the tiled layout.
    pub fn is_tiled(self) -> (r: bool)
        ensures
            r == (self == LayoutModeKind::Tiled),
    {
        matches!(self, LayoutModeKind::Tiled)
    }

    /// Whether the window floats.
    pub fn is_floating(self) -> (r: bool)
        ensures
            r == (self == LayoutModeKind::Floating),
    {
        matches!(self, LayoutModeKind::Floating)
    }
}

/// The output that a window belongs to, and where that output is.
#[derive(Debug, Clone, Copy, PartialEq, Eq, Structural)]
pub struct WindowOutput {
    pub key: OutputKey,
    pub location: Point,
}

/// The part of a window's state that its tags and its layout mode make up.
#[derive(Debug)]
pub struct WindowElementState {
    /// The tags of the window.
    pub tags: IndexSet<TagId>,
    /// The present layout mode.
    pub layout_mode: LayoutModeKind,
    /// Where the window floats, rounded to whole coordinates.
    pub floating_loc: Option<Point>,
}

/// A window, as the compositor last reported it.
#[derive(Debug)]
pub struct WindowElement {
    pub key: WindowKey,
    /// The surface of the window, where it has one.
    pub surface: Option<SurfaceKey>,
    pub underlying_surface: WindowSurface,
    /// Whether this is an X11 window that manages its own place.
    pub x11_override_redirect: bool,
    pub output: Option<WindowOutput>,
    /// Where the window is mapped in the space, if it is.
    pub location: Option<Point>,
    /// The outputs that the mapped window overlaps.
    pub mapped_on: Vec<OutputKey>,
    pub state: WindowElementState,
}

impl WindowElement {
    /// The window belongs to `output`.
    pub open spec fn on_output(self, output: OutputKey) -> bool {
        self.output matches Some(o) && o.key == output
    }

    /// One of the window's tags is among `focused`.
    pub open spec fn on_tags(self, focused: Seq<TagId>) -> bool {
        share_tag(tag_seq(self.state.tags), focused)
    }

    /// The window wants a place in the tiled layout.
    pub open spec fn takes_tile(self) -> bool {
        !self.x11_override_redirect && self.state.layout_mode == LayoutModeKind::Tiled
    }

    /// Whether the window belongs to `output`.
    pub fn is_on_output(&self, output: OutputKey) -> (r: bool)
        ensures
            r == self.on_output(output),
    {
        match self.output {
            Some(o) => o.key == output,
            None => false,
        }
    }

    /// Whether the window wants a place in the tiled layout.
    pub fn is_tileable(&self) -> (r: bool)
        ensures
            r == self.takes_tile(),
    {
        !self.x11_override_redirect && self.state.layout_mode.is_tiled()
    }
}

/// Whether the tags of a window are shown does not depend on repetitions.
pub proof fn lemma_on_tags_distinct(w: WindowElement, focused: Seq<TagId>)
    ensures
        share_tag(tag_seq(w.state.tags), distinct(focused)) == w.on_tags(focused),
{
    assert forall|t: u32| distinct(focused).contains(t) == focused.contains(t) by {
        lemma_distinct_contains(focused, t);
    }
}

/// The two modes that a client can ask for.
#[derive(Debug, Clone, Copy, PartialEq, Eq, Structural)]
pub enum FullscreenOrMaximized {
    Fullscreen,
    Maximized,
}

/// What a client has asked for before its window was mapped.
#[derive(Debug, Clone, Copy, PartialEq, Eq, Structural)]
pub struct ClientRequests {
    pub layout_mode: Option<FullscreenOrMaximized>,
}

impl Default for ClientRequests {
    /// No request.
    fn default() -> (r: ClientRequests)
        ensures
            r.layout_mode is None,
    {
        ClientRequests { layout_mode: None }
    }
}

/// How far a window has come on its way to being mapped.
#[derive(Debug, Clone, Copy, PartialEq, Eq, Structural)]
pub enum UnmappedState {
    /// The window has no tags yet.
    WaitingForTags { client_requests: ClientRequests },
    /// The window rules have not been applied yet.
    WaitingForRules { rules: RulesKey, client_requests: ClientRequests },
    /// The initial configure was sent.
    PostInitialConfigure { attempt_float_on_map: bool },
}

/// A window that is not mapped yet.
#[derive(Debug)]
pub struct Unmapped {
    pub window: WindowElement,
    pub activation_token_data: Option<TokenKey>,
    pub state: UnmappedState,
}

/// Tags show a window exactly where one of them is one of the window's own. What else is
/// known of the window does not matter.
pub proof fn law_a_window_is_shown_by_its_own_tags(w: WindowElement, focused: Seq<TagId>)
    ensures
        w.on_tags(focused) <==> exists|i: int, j: int|
            0 <= i < tag_seq(w.state.tags).len() && 0 <= j < focused.len()
                && #[trigger] tag_seq(w.state.tags)[i] == #[trigger] focused[j],
{
    law_a_shared_tag_stands_in_both(tag_seq(w.state.tags), focused);
}

/// A window belongs to one output at most, and to none where it has none.
pub proof fn law_a_window_belongs_to_its_output(w: WindowElement, output: OutputKey)
    ensures
        match w.output {
            Some(o) => w.on_output(o.key) && (w.on_output(output) ==> output == o.key),
            None => !w.on_output(output),
        },
{
}

/// A window takes part in the tiled layout in the tiled mode and in no other, and never
/// where it is an X11 window that manages its own place.
pub proof fn law_tiles_are_for_tiled_windows(w: WindowElement)
    ensures
        w.takes_tile() ==> w.state.layout_mode is Tiled,
        w.takes_tile() ==> !w.x11_override_redirect,
        w.state.layout_mode is Tiled && !w.x11_override_redirect ==> w.takes_tile(),
{
}

} // verus!
