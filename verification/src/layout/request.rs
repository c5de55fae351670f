//! Requests for a layout: their identifiers, and which of them are open.

use std::collections::HashMap;

use tokio::sync::mpsc::UnboundedSender;
use vstd::prelude::*;

use crate::output::{Output, OutputKey, OutputName};
use crate::seqs::lemma_filter_take;
use crate::state::Pinnacle;
use crate::tags::{distinct, tag_seq, FocusedTags, TagId};
use crate::window::{
    law_a_window_is_shown_by_its_own_tags, lemma_on_tags_distinct, WindowElement,
};

verus! {

/// The sending half of the unbounded channel of the `tokio` crate. The state only
/// carries it; nothing is said of what goes through it.
#[verifier::external_type_specification]
#[verifier::external_body]
#[verifier::reject_recursive_types(T)]
pub struct ExUnboundedSender<T>(tokio::sync::mpsc::UnboundedSender<T>);

/// A monotonically increasing identifier for layout requests.
#[derive(Debug, Copy, Clone, Hash, PartialEq, Eq, PartialOrd, Ord, Structural)]
pub struct LayoutRequestId(u32);

impl LayoutRequestId {
    /// The number of the request.
    pub closed spec fn value(self) -> u32 {
        self.0
    }

    /// The number of the request.
    pub fn to_inner(self) -> (r: u32)
        ensures
            r == self.value(),
    {
        self.0
    }
}

impl Default for LayoutRequestId {
    /// The identifier before the first request.
    fn default() -> (r: LayoutRequestId)
        ensures
            r.value() == 0,
    {
        LayoutRequestId(0)
    }
}

/// What a layout client is told of a request.
#[derive(Debug)]
pub struct LayoutInfo {
    pub request_id: LayoutRequestId,
    pub output_name: OutputName,
    /// The number of windows that want a place in the layout.
    pub window_count: u32,
    /// The focused tags of the output.
    pub tag_ids: Vec<TagId>,
}

/// Why the answer to a layout request is refused.
#[derive(Debug, Clone, Copy, PartialEq, Eq, Structural)]
pub enum LayoutError {
    /// No output has the name that the answer gives.
    InvalidOutput,
    /// No request is open for the output.
    NotRequested,
    /// A newer request is open for the output.
    Superseded,
    /// The answer carries a number above that of the open request.
    TooNew,
}

impl LayoutError {
    /// The text shown for the error.
    pub open spec fn text(self) -> Seq<char> {
        match self {
            LayoutError::InvalidOutput => "Output was invalid"@,
            LayoutError::NotRequested => "attempted to layout without request"@,
            LayoutError::Superseded => "Attempted to layout but a new request came in"@,
            LayoutError::TooNew => "Attempted to layout but request is newer"@,
        }
    }

    /// The text shown for the error.
    pub fn message(&self) -> (r: &'static str)
        ensures
            r@ == self.text(),
    {
        match self {
            LayoutError::InvalidOutput => "Output was invalid",
            LayoutError::NotRequested => "attempted to layout without request",
            LayoutError::Superseded => "Attempted to layout but a new request came in",
            LayoutError::TooNew => "Attempted to layout but request is newer",
        }
    }
}

/// What becomes of an answer numbered `request` for `output`, where `pending` holds
/// the open requests: `None` if it is accepted, else the error.
pub open spec fn refusal(
    pending: Map<OutputKey, u32>,
    output: OutputKey,
    request: u32,
) -> Option<LayoutError> {
    if !pending.contains_key(output) {
        Some(LayoutError::NotRequested)
    } else if pending[output] > request {
        Some(LayoutError::Superseded)
    } else if pending[output] < request {
        Some(LayoutError::TooNew)
    } else {
        None
    }
}

/// The numbers of the layout requests that were made, are open and were answered.
#[derive(Debug)]
pub struct LayoutRequests {
    pending_requests: HashMap<OutputKey, LayoutRequestId>,
    fulfilled_requests: HashMap<OutputKey, LayoutRequestId>,
    current_id: LayoutRequestId,
}

impl LayoutRequests {
    /// The open requests: the number of the one that each output waits for.
    pub closed spec fn pending(self) -> Map<OutputKey, u32> {
        self.pending_requests@.map_values(|id: LayoutRequestId| id.0)
    }

    /// The number of the last request that was answered, for each output.
    pub closed spec fn fulfilled(self) -> Map<OutputKey, u32> {
        self.fulfilled_requests@.map_values(|id: LayoutRequestId| id.0)
    }

    /// The number of the last request that was made.
    pub closed spec fn current(self) -> u32 {
        self.current_id.0
    }

    /// No request goes beyond the last number given out, and the open request of an
    /// output is newer than the one that was last answered there.
    pub open spec fn wf(self) -> bool {
        &&& forall|o: OutputKey| #[trigger]
            self.pending().contains_key(o) ==> self.pending()[o] <= self.current()
        &&& forall|o: OutputKey| #[trigger]
            self.fulfilled().contains_key(o) ==> self.fulfilled()[o] <= self.current()
        &&& forall|o: OutputKey|
            #![trigger self.pending().contains_key(o), self.fulfilled().contains_key(o)]
            self.pending().contains_key(o) && self.fulfilled().contains_key(o)
                ==> self.fulfilled()[o] < self.pending()[o]
    }

    /// No request has been made.
    pub open spec fn is_initial(self) -> bool {
        &&& self.pending() == Map::<OutputKey, u32>::empty()
        &&& self.fulfilled() == Map::<OutputKey, u32>::empty()
        &&& self.current() == 0
    }

    /// The state before any request.
    pub fn new() -> (r: LayoutRequests)
        ensures
            r.is_initial(),
            r.wf(),
    {
        let r = LayoutRequests {
            pending_requests: HashMap::new(),
            fulfilled_requests: HashMap::new(),
            current_id: LayoutRequestId::default(),
        };
        proof {
            assert(r.pending() =~= Map::<OutputKey, u32>::empty());
            assert(r.fulfilled() =~= Map::<OutputKey, u32>::empty());
        }
        r
    }

    /// Gives out the next request number.
    pub(crate) fn next_id(&mut self) -> (r: LayoutRequestId)
        requires
            old(self).current() < u32::MAX,
        ensures
            r.value() == old(self).current() + 1,
            final(self).current() == r.value(),
            final(self).pending() == old(self).pending(),
            final(self).fulfilled() == old(self).fulfilled(),
    {
        self.current_id = LayoutRequestId(self.current_id.0 + 1);
        self.current_id
    }

    /// The number of the request that was made last.
    pub fn last_request(&self) -> (r: LayoutRequestId)
        ensures
            r.value() == self.current(),
    {
        self.current_id
    }

    /// The number of the request that `output` waits for.
    pub fn pending_request(&self, output: OutputKey) -> (r: Option<LayoutRequestId>)
        ensures
            match r {
                Some(id) => self.pending().contains_key(output) && id.value()
                    == self.pending()[output],
                None => !self.pending().contains_key(output),
            },
    {
        match self.pending_requests.get(&output) {
            Some(id) => Some(*id),
            None => None,
        }
    }

    /// The number of the request that was last answered for `output`.
    pub fn fulfilled_request(&self, output: OutputKey) -> (r: Option<LayoutRequestId>)
        ensures
            match r {
                Some(id) => self.fulfilled().contains_key(output) && id.value()
                    == self.fulfilled()[output],
                None => !self.fulfilled().contains_key(output),
            },
    {
        match self.fulfilled_requests.get(&output) {
            Some(id) => Some(*id),
            None => None,
        }
    }

    /// Notes that `output` waits for the answer to the request `id`.
    pub(crate) fn open_request(&mut self, output: OutputKey, id: LayoutRequestId)
        ensures
            final(self).current() == old(self).current(),
            final(self).pending() == old(self).pending().insert(output, id.value()),
            final(self).fulfilled() == old(self).fulfilled(),
    {
        self.pending_requests.insert(output, id);
        proof {
            assert(self.pending() =~= old(self).pending().insert(output, id.value()));
        }
    }

    /// Decides on an answer numbered `request_id` for `output`.
    pub fn check_answer(&self, output: OutputKey, request_id: u32) -> (r: Result<
        LayoutRequestId,
        LayoutError,
    >)
        ensures
            match r {
                Ok(id) => refusal(self.pending(), output, request_id) is None && id.value()
                    == request_id,
                Err(e) => refusal(self.pending(), output, request_id) == Some(e),
            },
    {
        let current_pending = match self.pending_request(output) {
            Some(id) => id,
            None => {
                return Err(LayoutError::NotRequested);
            },
        };
        if current_pending.0 > request_id {
            return Err(LayoutError::Superseded);
        }
        if current_pending.0 < request_id {
            return Err(LayoutError::TooNew);
        }
        Ok(current_pending)
    }

    /// Closes the open request of `output` and notes that `id` was answered.
    pub(crate) fn close_request(&mut self, output: OutputKey, id: LayoutRequestId)
        ensures
            final(self).current() == old(self).current(),
            final(self).pending() == old(self).pending().remove(output),
            final(self).fulfilled() == old(self).fulfilled().insert(output, id.value()),
    {
        self.pending_requests.remove(&output);
        self.fulfilled_requests.insert(output, id);
        proof {
            assert(self.pending() =~= old(self).pending().remove(output));
            assert(self.fulfilled() =~= old(self).fulfilled().insert(output, id.value()));
        }
    }
}

/// From `before` to `after` a request was opened for `output`, with the next number.
pub open spec fn request_opened(
    before: LayoutRequests,
    output: OutputKey,
    after: LayoutRequests,
) -> bool {
    &&& after.current() == before.current() + 1
    &&& after.pending() == before.pending().insert(output, after.current())
    &&& after.fulfilled() == before.fulfilled()
}

/// From `before` to `after` the open request of `output` was answered.
pub open spec fn request_answered(
    before: LayoutRequests,
    output: OutputKey,
    after: LayoutRequests,
) -> bool {
    &&& after.current() == before.current()
    &&& after.pending() == before.pending().remove(output)
    &&& after.fulfilled() == before.fulfilled().insert(output, before.pending()[output])
}

/// A new request is newer than every request before it, on every output.
pub proof fn law_new_request_is_newest(
    before: LayoutRequests,
    output: OutputKey,
    after: LayoutRequests,
)
    requires
        before.wf(),
        request_opened(before, output, after),
    ensures
        after.wf(),
        forall|o: OutputKey| #[trigger]
            before.pending().contains_key(o) ==> before.pending()[o] < after.pending()[output],
        forall|o: OutputKey| #[trigger]
            before.fulfilled().contains_key(o) ==> before.fulfilled()[o] < after.pending()[output],
{
    assert forall|o: OutputKey| #[trigger] after.pending().contains_key(o) implies after.pending()[o]
        <= after.current() by {
        if o != output {
            assert(before.pending().contains_key(o));
        }
    }
    assert forall|o: OutputKey|
        #![trigger after.pending().contains_key(o), after.fulfilled().contains_key(o)]
        after.pending().contains_key(o) && after.fulfilled().contains_key(o) implies after.fulfilled()[o]
        < after.pending()[o] by {
        assert(before.fulfilled().contains_key(o));
        if o != output {
            assert(before.pending().contains_key(o));
        }
    }
}

/// Once a request is open, its own answer is the only one that is accepted: earlier
/// numbers are refused as superseded, and later ones as too new.
pub proof fn law_only_the_newest_request_is_answered(
    before: LayoutRequests,
    output: OutputKey,
    after: LayoutRequests,
    answer: u32,
)
    requires
        request_opened(before, output, after),
    ensures
        answer < after.current() ==> refusal(after.pending(), output, answer) == Some(
            LayoutError::Superseded,
        ),
        answer > after.current() ==> refusal(after.pending(), output, answer) == Some(
            LayoutError::TooNew,
        ),
        answer == after.current() ==> refusal(after.pending(), output, answer) is None,
{
}

/// A request is answered once: after that no answer is accepted for the output until
/// there is a new request.
pub proof fn law_a_request_is_answered_once(
    before: LayoutRequests,
    output: OutputKey,
    after: LayoutRequests,
    answer: u32,
)
    requires
        request_answered(before, output, after),
    ensures
        refusal(after.pending(), output, answer) == Some(LayoutError::NotRequested),
{
}

/// An answer keeps the order of the request numbers, and the number that it notes as
/// answered is the one that was open.
pub proof fn law_an_answer_keeps_the_order(
    before: LayoutRequests,
    output: OutputKey,
    after: LayoutRequests,
)
    requires
        before.wf(),
        before.pending().contains_key(output),
        request_answered(before, output, after),
    ensures
        after.wf(),
        after.fulfilled()[output] == before.pending()[output],
        before.fulfilled().contains_key(output) ==> before.fulfilled()[output]
            < after.fulfilled()[output],
{
    assert forall|o: OutputKey| #[trigger] after.pending().contains_key(o) implies after.pending()[o]
        <= after.current() by {
        assert(before.pending().contains_key(o));
    }
    assert forall|o: OutputKey| #[trigger] after.fulfilled().contains_key(o) implies after.fulfilled()[o]
        <= after.current() by {
        if o != output {
            assert(before.fulfilled().contains_key(o));
        }
    }
    assert forall|o: OutputKey|
        #![trigger after.pending().contains_key(o), after.fulfilled().contains_key(o)]
        after.pending().contains_key(o) && after.fulfilled().contains_key(o) implies after.fulfilled()[o]
        < after.pending()[o] by {
        assert(before.pending().contains_key(o));
        assert(before.fulfilled().contains_key(o));
    }
}

/// The requests of one output leave those of another alone: what becomes of an answer
/// there does not change.
pub proof fn law_outputs_do_not_disturb_each_other(
    before: LayoutRequests,
    output: OutputKey,
    after: LayoutRequests,
    other: OutputKey,
    answer: u32,
)
    requires
        request_opened(before, output, after) || request_answered(before, output, after),
        other != output,
    ensures
        refusal(after.pending(), other, answer) == refusal(before.pending(), other, answer),
{
}

/// The layout requests and the layout trees. `T` is the type of the trees.
#[derive(Debug)]
pub struct LayoutState<T> {
    /// Where requests are sent; there is none until a layout client has connected.
    pub layout_request_sender: Option<UnboundedSender<LayoutInfo>>,
    pub pending_swap: bool,
    pub requests: LayoutRequests,
    pub layout_trees: HashMap<u32, T>,
}

impl<T> LayoutState<T> {
    /// No request has been made, no tree is held and no client has connected.
    pub open spec fn is_initial(self) -> bool {
        &&& self.layout_request_sender is None
        &&& !self.pending_swap
        &&& self.requests.is_initial()
        &&& self.layout_trees@ == Map::<u32, T>::empty()
    }

    /// Gives out the next request number.
    pub fn next_id(&mut self) -> (r: LayoutRequestId)
        requires
            old(self).requests.current() < u32::MAX,
        ensures
            r.value() == old(self).requests.current() + 1,
            final(self).requests.current() == r.value(),
            final(self).requests.pending() == old(self).requests.pending(),
            final(self).requests.fulfilled() == old(self).requests.fulfilled(),
            *final(self) == (LayoutState { requests: final(self).requests, ..*old(self) }),
            old(self).requests.wf() ==> final(self).requests.wf(),
    {
        self.requests.next_id()
    }
}

impl<T> Default for LayoutState<T> {
    /// The state before any request.
    fn default() -> (r: LayoutState<T>)
        ensures
            r.is_initial(),
            r.requests.wf(),
    {
        LayoutState {
            layout_request_sender: None,
            pending_swap: false,
            requests: LayoutRequests::new(),
            layout_trees: HashMap::new(),
        }
    }
}

/// What becomes of the wish for a layout.
#[derive(Debug)]
pub enum LayoutRequest {
    /// The output has been withdrawn from the clients: there is no request.
    OutputDisabled,
    /// No layout client has connected: a number was given out and nothing is sent.
    NoClient,
    /// This is to be sent to the layout client.
    Send(LayoutInfo),
}

/// Holds of the windows that a request counts: those that want a place in the
/// tiled layout and that the focused tags show.
pub open spec fn counted(focused: Seq<TagId>) -> spec_fn(WindowElement) -> bool {
    |w: WindowElement| w.takes_tile() && w.on_tags(focused)
}

/// From `before` to `after` a layout was wished for on `output`, and `r` has become of it.
pub open spec fn layout_requested<T>(
    before: Pinnacle<T>,
    output: Output,
    r: LayoutRequest,
    after: Pinnacle<T>,
) -> bool {
    if before.output_disabled(output.key) {
        r is OutputDisabled && after == before
    } else {
        &&& after.windows == before.windows
        &&& after.unmapped_windows == before.unmapped_windows
        &&& after.outputs == before.outputs
        &&& if before.layout_state.layout_request_sender is None {
            &&& r is NoClient
            &&& after.layout_state.requests.current() == before.layout_state.requests.current() + 1
            &&& after.layout_state.requests.pending() == before.layout_state.requests.pending()
        } else {
            &&& r is Send
            &&& request_opened(
                before.layout_state.requests,
                output.key,
                after.layout_state.requests,
            )
            &&& r->0.request_id.value() == after.layout_state.requests.current()
            &&& r->0.output_name.0@ == output.name@
            &&& r->0.tag_ids@ == output.focused_tags@
            &&& r->0.window_count == before.windows@.filter(
                counted(output.focused_tags@),
            ).len() as u32
        }
    }
}

impl<T> Pinnacle<T> {
    /// Opens a layout request for `output` and says what is to be sent for it.
    pub fn request_layout(&mut self, output: &Output) -> (r: LayoutRequest)
        requires
            !old(self).output_disabled(output.key) ==> old(self).layout_state.requests.current()
                < u32::MAX,
        ensures
            r is OutputDisabled <==> old(self).output_disabled(output.key),
            r is NoClient <==> !old(self).output_disabled(output.key) && old(
                self,
            ).layout_state.layout_request_sender is None,
            r is OutputDisabled ==> *final(self) == *old(self),
            *final(self) == (Pinnacle {
                layout_state: LayoutState {
                    requests: final(self).layout_state.requests,
                    ..old(self).layout_state
                },
                ..*old(self)
            }),
            r is NoClient ==> {
                let before = old(self).layout_state.requests;
                let after = final(self).layout_state.requests;
                &&& after.current() == before.current() + 1
                &&& after.pending() == before.pending()
                &&& after.fulfilled() == before.fulfilled()
            },
            r matches LayoutRequest::Send(info) ==> {
                &&& request_opened(
                    old(self).layout_state.requests,
                    output.key,
                    final(self).layout_state.requests,
                )
                &&& info.request_id.value() == final(self).layout_state.requests.current()
                &&& info.output_name.0@ == output.name@
                &&& info.window_count == old(self).windows@.filter(
                    counted(output.focused_tags@),
                ).len() as u32
                &&& info.tag_ids@ == output.focused_tags@
            },
            old(self).layout_state.requests.wf() ==> final(self).layout_state.requests.wf(),
            layout_requested(*old(self), *output, r, *final(self)),
    {
        if let Some(advertised) = self.outputs.get(&output.key) {
            if !*advertised {
                return LayoutRequest::OutputDisabled;
            }
        }
        let id = self.layout_state.next_id();
        if self.layout_state.layout_request_sender.is_none() {
            return LayoutRequest::NoClient;
        }
        let window_count = self.count_requested(&output.focused_tags);
        self.layout_state.requests.open_request(output.key, id);
        LayoutRequest::Send(
            LayoutInfo {
                request_id: id,
                output_name: OutputName(output.name.clone()),
                window_count: window_count as u32,
                tag_ids: output.focused_tags.clone(),
            },
        )
    }

    /// Counts the windows that a request is about, where the tags `ids` are focused.
    fn count_requested(&self, ids: &Vec<TagId>) -> (r: usize)
        ensures
            r == self.windows@.filter(counted(ids@)).len(),
    {
        let focused = FocusedTags::new(ids);
        let ghost ws = self.windows@;
        let mut count: usize = 0;
        let mut i: usize = 0;
        proof {
            reveal(Seq::filter);
            assert(ws.take(0) =~= Seq::empty());
        }
        while i < self.windows.len()
            invariant
                i <= self.windows.len(),
                ws == self.windows@,
                focused@ == distinct(ids@),
                count == ws.take(i as int).filter(counted(ids@)).len(),
                count <= i,
            decreases self.windows.len() - i,
        {
            let win = &self.windows[i];
            proof {
                lemma_on_tags_distinct(ws[i as int], ids@);
                lemma_filter_take(ws, counted(ids@), i as int);
            }
            if !win.x11_override_redirect {
                if focused.shows(&win.state.tags) {
                    if win.state.layout_mode.is_tiled() {
                        count = count + 1;
                    }
                }
            }
            i = i + 1;
        }
        proof {
            assert(ws.take(i as int) =~= ws);
        }
        count
    }
}

/// An answer is accepted exactly where a request is open for the output and the answer has
/// its number. Otherwise the error says which: nothing is open, or the open number is above
/// or below that of the answer.
pub proof fn law_an_answer_has_the_open_number(
    pending: Map<OutputKey, u32>,
    output: OutputKey,
    request: u32,
)
    ensures
        refusal(pending, output, request) is None <==> pending.dom().contains(output)
            && pending[output] == request,
        refusal(pending, output, request) == Some(LayoutError::NotRequested)
            <==> !pending.dom().contains(output),
        refusal(pending, output, request) == Some(LayoutError::Superseded)
            <==> pending.dom().contains(output) && request < pending[output],
        refusal(pending, output, request) == Some(LayoutError::TooNew) <==> pending.dom().contains(
            output,
        ) && pending[output] < request,
{
}

/// A request takes the number after the last one. Its output waits for that number from
/// then on; what other outputs wait for, and what was answered, stays as it was.
pub proof fn law_a_request_takes_the_next_number(
    before: LayoutRequests,
    output: OutputKey,
    after: LayoutRequests,
)
    requires
        request_opened(before, output, after),
    ensures
        after.current() == before.current() + 1,
        after.pending().dom().contains(output) && after.pending()[output] == before.current() + 1,
        forall|o: OutputKey|
            o != output ==> (#[trigger] after.pending().dom().contains(o)
                <==> before.pending().dom().contains(o)) && (before.pending().dom().contains(o)
                ==> after.pending()[o] == before.pending()[o]),
        forall|o: OutputKey|
            (#[trigger] after.fulfilled().dom().contains(o) <==> before.fulfilled().dom().contains(
                o,
            )) && (before.fulfilled().dom().contains(o) ==> after.fulfilled()[o]
                == before.fulfilled()[o]),
{
}

/// An answer closes the request of its output and notes its number; no number is given out,
/// and other outputs wait for what they waited for and were answered as they were.
pub proof fn law_an_answer_closes_its_request(
    before: LayoutRequests,
    output: OutputKey,
    after: LayoutRequests,
)
    requires
        request_answered(before, output, after),
    ensures
        after.current() == before.current(),
        !after.pending().dom().contains(output),
        after.fulfilled().dom().contains(output) && after.fulfilled()[output]
            == before.pending()[output],
        forall|o: OutputKey|
            o != output ==> (#[trigger] after.pending().dom().contains(o)
                <==> before.pending().dom().contains(o)) && (before.pending().dom().contains(o)
                ==> after.pending()[o] == before.pending()[o]),
        forall|o: OutputKey|
            o != output ==> (#[trigger] after.fulfilled().dom().contains(o)
                <==> before.fulfilled().dom().contains(o)) && (before.fulfilled().dom().contains(o)
                ==> after.fulfilled()[o] == before.fulfilled()[o]),
{
}

/// A request counts a window exactly where it is in the tiled mode, does not manage its own
/// place and has one of the focused tags. Which output it belongs to does not matter.
pub proof fn law_a_request_counts_shown_tiled_windows(w: WindowElement, focused: Seq<TagId>)
    ensures
        counted(focused)(w) <==> {
            &&& w.state.layout_mode is Tiled
            &&& !w.x11_override_redirect
            &&& exists|i: int, j: int|
                0 <= i < tag_seq(w.state.tags).len() && 0 <= j < focused.len()
                    && #[trigger] tag_seq(w.state.tags)[i] == #[trigger] focused[j]
        },
{
    law_a_window_is_shown_by_its_own_tags(w, focused);
}

/// One more window adds one to the count where it is counted, and leaves the count as it is
/// where it is not; without windows the count is zero.
pub proof fn law_each_counted_window_adds_one(
    windows: Seq<WindowElement>,
    w: WindowElement,
    focused: Seq<TagId>,
)
    ensures
        Seq::<WindowElement>::empty().filter(counted(focused)).len() == 0,
        windows.push(w).filter(counted(focused)).len() == windows.filter(counted(focused)).len() + (
        if w.state.layout_mode is Tiled && !w.x11_override_redirect && exists|i: int, j: int|
            0 <= i < tag_seq(w.state.tags).len() && 0 <= j < focused.len()
                && #[trigger] tag_seq(w.state.tags)[i] == #[trigger] focused[j] {
            1int
        } else {
            0int
        }),
{
    reveal(Seq::filter);
    law_a_request_counts_shown_tiled_windows(w, focused);
    assert(windows.push(w).drop_last() =~= windows);
}

/// Before any request no output waits, none was answered, and the first number is one.
pub proof fn law_nothing_waits_at_first<T>(
    initial: LayoutState<T>,
    output: OutputKey,
    after: LayoutRequests,
)
    requires
        initial.is_initial(),
    ensures
        !initial.requests.pending().dom().contains(output),
        !initial.requests.fulfilled().dom().contains(output),
        initial.layout_request_sender is None,
        !initial.pending_swap,
        initial.layout_trees@.dom() == Set::<u32>::empty(),
        request_opened(initial.requests, output, after) ==> after.pending()[output] == 1,
{
    assert(initial.layout_trees@.dom() =~= Set::<u32>::empty());
}

/// A request goes out exactly where a client has connected and the output is not known to be
/// withdrawn. It names the output and its focused tags, in order, and carries the number that
/// the output then waits for, which is the one after the last. Without a client a number is
/// used up and nothing waits for it. A withdrawn output uses up none.
pub proof fn law_a_request_goes_out_to_a_client<T>(
    before: Pinnacle<T>,
    output: Output,
    r: LayoutRequest,
    after: Pinnacle<T>,
)
    requires
        layout_requested(before, output, r, after),
    ensures
        ({
            let withdrawn = before.outputs@.dom().contains(output.key)
                && !before.outputs@[output.key];
            let connected = before.layout_state.layout_request_sender is Some;
            let was = before.layout_state.requests;
            let is = after.layout_state.requests;
            &&& r is Send <==> connected && !withdrawn
            &&& r is NoClient <==> !connected && !withdrawn
            &&& withdrawn ==> is.current() == was.current() && is.pending() == was.pending()
            &&& !withdrawn ==> is.current() == was.current() + 1
            &&& r is NoClient ==> is.pending() == was.pending()
            &&& r is Send ==> {
                &&& is.pending().dom().contains(output.key)
                &&& is.pending()[output.key] == was.current() + 1
                &&& r->0.request_id.value() == was.current() + 1
                &&& r->0.output_name.0@ == output.name@
                &&& r->0.tag_ids@ == output.focused_tags@
            }
            &&& after.windows == before.windows
        }),
{
}

/// The number of windows in a request is the number of windows, of any output, that are in
/// the tiled mode, do not manage their own place and have a focused tag: with one more window
/// it is one more or the same.
pub proof fn law_a_request_says_how_many_windows_there_are<T>(
    before: Pinnacle<T>,
    output: Output,
    r: LayoutRequest,
    after: Pinnacle<T>,
    tiled: spec_fn(WindowElement) -> bool,
)
    requires
        layout_requested(before, output, r, after),
        r is Send,
        before.windows.len() <= u32::MAX,
        forall|w: WindowElement|
            #[trigger] tiled(w) <==> {
                &&& w.state.layout_mode is Tiled
                &&& !w.x11_override_redirect
                &&& exists|i: int, j: int|
                    0 <= i < tag_seq(w.state.tags).len() && 0 <= j < output.focused_tags@.len()
                        && #[trigger] tag_seq(w.state.tags)[i] == #[trigger] output.focused_tags@[j]
            },
    ensures
        r->0.window_count == before.windows@.filter(tiled).len(),
{
    let p = counted(output.focused_tags@);
    assert forall|w: WindowElement| #[trigger] tiled(w) == p(w) by {
        law_a_request_counts_shown_tiled_windows(w, output.focused_tags@);
    }
    assert(tiled =~= p);
    before.windows@.lemma_filter_len(p);
}

} // verus!
