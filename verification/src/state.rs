//! The state that the layout and shell logic works on.

use std::collections::HashMap;

use vstd::prelude::*;

use crate::layout::request::LayoutState;
use crate::output::OutputKey;
use crate::window::{Unmapped, WindowElement};

verus! {

/// The compositor's windows, outputs and layout bookkeeping. `T` is the type of
/// the layout trees that clients build up.
#[derive(Debug)]
pub struct Pinnacle<T> {
    /// The mapped windows, in the order in which they are laid out.
    pub windows: Vec<WindowElement>,
    /// The windows that are not mapped yet, oldest first.
    pub unmapped_windows: Vec<Unmapped>,
    /// The known outputs, each with whether it is advertised to clients.
    pub outputs: HashMap<OutputKey, bool>,
    pub layout_state: LayoutState<T>,
}

impl<T> Pinnacle<T> {
    /// A compositor with no window and no output.
    pub fn new() -> (r: Pinnacle<T>)
        ensures
            r.windows@ == Seq::<WindowElement>::empty(),
            r.unmapped_windows@ == Seq::<Unmapped>::empty(),
            r.outputs@ == Map::<OutputKey, bool>::empty(),
            r.layout_state.is_initial(),
    {
        Pinnacle {
            windows: Vec::new(),
            unmapped_windows: Vec::new(),
            outputs: HashMap::new(),
            layout_state: LayoutState::default(),
        }
    }

    /// The output is known and has been withdrawn from the clients.
    pub open spec fn output_disabled(self, output: OutputKey) -> bool {
        self.outputs@.contains_key(output) && !self.outputs@[output]
    }
}

/// The whole state of the compositor.
#[derive(Debug)]
pub struct State<T> {
    pub pinnacle: Pinnacle<T>,
}

impl<T> State<T> {
    /// A compositor with no window and no output.
    pub fn new() -> (r: State<T>)
        ensures
            r.pinnacle.windows@ == Seq::<WindowElement>::empty(),
            r.pinnacle.unmapped_windows@ == Seq::<Unmapped>::empty(),
            r.pinnacle.outputs@ == Map::<OutputKey, bool>::empty(),
            r.pinnacle.layout_state.is_initial(),
    {
        State { pinnacle: Pinnacle::new() }
    }
}

/// An output counts as withdrawn only where it is known and not advertised: one that is
/// advertised, and one that is not known, do not.
pub proof fn law_only_known_outputs_are_withdrawn<T>(pinnacle: Pinnacle<T>, output: OutputKey)
    ensures
        pinnacle.outputs@.dom().contains(output) ==> pinnacle.output_disabled(output)
            != pinnacle.outputs@[output],
        !pinnacle.outputs@.dom().contains(output) ==> !pinnacle.output_disabled(output),
{
}

} // verus!
