//! The answers of layout clients.

use vstd::prelude::*;

use crate::geometry::{Rectangle, Size};
use crate::layout::arrange::{arranged, arrangement, LayoutAction};
use crate::layout::request::{
    law_an_answer_has_the_open_number, law_an_answer_keeps_the_order, refusal, request_answered, LayoutError, LayoutRequests,
    LayoutState,
};
use crate::output::{
    law_a_name_stands_for_the_first_output, output_named, Output, OutputKey, OutputName,
    OutputSnapshots, SnapshotKey,
};
use crate::state::{Pinnacle, State};
use crate::window::{Serial, WindowKey};

verus! {

/// An answer that was accepted: the steps that arrange the windows of the output.
#[derive(Debug)]
pub struct AcceptedLayout {
    /// The position of the output among those that the answer was matched with.
    pub output: usize,
    pub actions: Vec<LayoutAction>,
}

/// What becomes of the layout transaction of an output. `pending` holds the windows
/// whose clients have yet to take up their new state.
#[derive(Debug)]
pub enum TransactionStep {
    /// The transaction under way waits for these windows.
    UpdatePending { pending: Vec<(WindowKey, Serial)> },
    /// A transaction starts, with these snapshots, and waits for these windows.
    Start {
        fullscreen_and_above: Vec<SnapshotKey>,
        under_fullscreen: Vec<SnapshotKey>,
        pending: Vec<(WindowKey, Serial)>,
    },
}

/// The last steps of an accepted answer.
#[derive(Debug)]
pub struct LayoutFinish {
    pub transaction: TransactionStep,
    /// The output that is to be redrawn.
    pub schedule_render: OutputKey,
}

/// `tree` is what a client's `root` makes of the tree `tree_id`: a tree that is held
/// already takes up the changes, and another is made anew.
pub open spec fn grown<T, N, New: FnOnce(N) -> T, Diff: FnOnce(T, N) -> T>(
    trees: Map<u32, T>,
    tree_id: u32,
    root: N,
    new_tree: New,
    diff: Diff,
    tree: T,
) -> bool {
    if trees.contains_key(tree_id) {
        call_ensures(diff, (trees[tree_id], root), tree)
    } else {
        call_ensures(new_tree, (root,), tree)
    }
}

/// The tree `tree_id` can be brought up to date with `root`, or made from it.
pub open spec fn growable<T, N, New: FnOnce(N) -> T, Diff: FnOnce(T, N) -> T>(
    trees: Map<u32, T>,
    tree_id: u32,
    root: N,
    new_tree: New,
    diff: Diff,
) -> bool {
    if trees.contains_key(tree_id) {
        call_requires(diff, (trees[tree_id], root))
    } else {
        call_requires(new_tree, (root,))
    }
}

/// Laying out `tree` in an area of the size `size` gives the tree `laid_tree` and the
/// places `geometries`.
pub open spec fn laid_out<T, Compute: FnOnce(T, u32, u32) -> (T, Vec<Rectangle>)>(
    compute_geos: Compute,
    tree: T,
    size: Size,
    laid_tree: T,
    geometries: Vec<Rectangle>,
) -> bool {
    call_ensures(compute_geos, (tree, size.w as u32, size.h as u32), (laid_tree, geometries))
}

/// The error with which the answer `request_id` for the output named `output_name` is
/// refused, if it is.
pub open spec fn answer_refusal(
    requests: LayoutRequests,
    outputs: Seq<Output>,
    output_name: Seq<char>,
    request_id: u32,
) -> Option<LayoutError> {
    match output_named(outputs, output_name) {
        None => Some(LayoutError::InvalidOutput),
        Some(i) => refusal(requests.pending(), outputs[i].key, request_id),
    }
}

/// From `s` to `t` nothing but the layout trees and the request numbers changes.
pub open spec fn only_trees_and_requests_change<T>(s: State<T>, t: State<T>) -> bool {
    t == (State {
        pinnacle: Pinnacle {
            layout_state: LayoutState {
                layout_trees: t.pinnacle.layout_state.layout_trees,
                requests: t.pinnacle.layout_state.requests,
                ..s.pinnacle.layout_state
            },
            ..s.pinnacle
        },
    })
}

/// From `before` to `after` the tree of an answer was taken up.
pub open spec fn tree_kept<T, N, New: FnOnce(N) -> T, Diff: FnOnce(T, N) -> T>(
    before: Map<u32, T>,
    tree_id: u32,
    root: N,
    new_tree: New,
    diff: Diff,
    after: Map<u32, T>,
) -> bool {
    exists|tree: T| #[trigger]
        grown(before, tree_id, root, new_tree, diff, tree) && after == before.insert(tree_id, tree)
}

/// From `before` to `after` the tree of an answer was taken up and laid out in an area of
/// the size `size`, which gave the places `geometries`.
pub open spec fn tree_placed<T, N, New, Diff, Compute>(
    before: Map<u32, T>,
    tree_id: u32,
    root: N,
    new_tree: New,
    diff: Diff,
    compute_geos: Compute,
    size: Size,
    geometries: Vec<Rectangle>,
    after: Map<u32, T>,
) -> bool where
    New: FnOnce(N) -> T,
    Diff: FnOnce(T, N) -> T,
    Compute: FnOnce(T, u32, u32) -> (T, Vec<Rectangle>),
 {
    exists|tree: T, laid_tree: T|
        {
            &&& #[trigger] grown(before, tree_id, root, new_tree, diff, tree)
            &&& #[trigger] laid_out(compute_geos, tree, size, laid_tree, geometries)
            &&& after == before.insert(tree_id, laid_tree)
        }
}

/// The closures that an answer hands over can be called where the answer has them called:
/// the tree is made or brought up to date once an output has the name, and it is laid out
/// once the answer is accepted.
pub open spec fn answer_callable<T, N, New, Diff, Compute>(
    state: LayoutState<T>,
    tree_id: u32,
    root_node: N,
    request_id: u32,
    output_name: Seq<char>,
    outputs: Seq<Output>,
    new_tree: New,
    diff: Diff,
    compute_geos: Compute,
) -> bool where
    New: FnOnce(N) -> T,
    Diff: FnOnce(T, N) -> T,
    Compute: FnOnce(T, u32, u32) -> (T, Vec<Rectangle>),
 {
    &&& output_named(outputs, output_name) is Some ==> growable(
        state.layout_trees@,
        tree_id,
        root_node,
        new_tree,
        diff,
    )
    &&& answer_refusal(state.requests, outputs, output_name, request_id) is None ==> forall|
        tree: T,
    | #[trigger]
        grown(state.layout_trees@, tree_id, root_node, new_tree, diff, tree) ==> {
            let size = outputs[output_named(outputs, output_name)->0].non_exclusive_zone.size;
            call_requires(compute_geos, (tree, size.w as u32, size.h as u32))
        }
}

/// From `before` to `after` an answer was taken up, and `r` has become of it: the position of
/// the output and the places of the windows, or the error with which it is refused.
pub open spec fn answer_taken_up<T, N, New, Diff, Compute>(
    before: LayoutState<T>,
    tree_id: u32,
    root_node: N,
    request_id: u32,
    output_name: Seq<char>,
    outputs: Seq<Output>,
    new_tree: New,
    diff: Diff,
    compute_geos: Compute,
    r: Result<(usize, Vec<Rectangle>), LayoutError>,
    after: LayoutState<T>,
) -> bool where
    New: FnOnce(N) -> T,
    Diff: FnOnce(T, N) -> T,
    Compute: FnOnce(T, u32, u32) -> (T, Vec<Rectangle>),
 {
    match answer_refusal(before.requests, outputs, output_name, request_id) {
        None => {
            &&& r is Ok
            &&& output_named(outputs, output_name) == Some(r->Ok_0.0 as int)
            &&& request_answered(
                before.requests,
                outputs[r->Ok_0.0 as int].key,
                after.requests,
            )
            &&& tree_placed(
                before.layout_trees@,
                tree_id,
                root_node,
                new_tree,
                diff,
                compute_geos,
                outputs[r->Ok_0.0 as int].non_exclusive_zone.size,
                r->Ok_0.1,
                after.layout_trees@,
            )
        },
        Some(e) => {
            &&& r == Err::<(usize, Vec<Rectangle>), LayoutError>(e)
            &&& after.requests == before.requests
            &&& if e == LayoutError::InvalidOutput {
                after.layout_trees == before.layout_trees
            } else {
                tree_kept(
                    before.layout_trees@,
                    tree_id,
                    root_node,
                    new_tree,
                    diff,
                    after.layout_trees@,
                )
            }
        },
    }
}

impl<T> State<T> {
    /// Takes up the answer to the layout request `request_id`: the tree `tree_id`
    /// with the root `root_node`, for the output named `output_name` among
    /// `outputs`. Gives the position of the output and the places of the windows.
    ///
    /// `new_tree` makes a tree, `diff` brings a tree up to date with a new root, and
    /// `compute_geos` gives the places of the windows in an area of the given width
    /// and height. The tree is taken up as soon as the output is known, also where
    /// the answer is then refused.
    pub fn take_up_answer<N, New, Diff, Compute>(
        &mut self,
        tree_id: u32,
        root_node: N,
        request_id: u32,
        output_name: String,
        outputs: &Vec<Output>,
        new_tree: New,
        diff: Diff,
        compute_geos: Compute,
    ) -> (r: Result<(usize, Vec<Rectangle>), LayoutError>) where
        New: FnOnce(N) -> T,
        Diff: FnOnce(T, N) -> T,
        Compute: FnOnce(T, u32, u32) -> (T, Vec<Rectangle>),

        requires
            answer_callable(
                old(self).pinnacle.layout_state,
                tree_id,
                root_node,
                request_id,
                output_name@,
                outputs@,
                new_tree,
                diff,
                compute_geos,
            ),
        ensures
            match answer_refusal(
                old(self).pinnacle.layout_state.requests,
                outputs@,
                output_name@,
                request_id,
            ) {
                Some(e) => r matches Err(error) && error == e,
                None => r matches Ok((i, _)) && i < outputs.len() && output_named(
                    outputs@,
                    output_name@,
                ) == Some(i as int),
            },
            match r {
                Ok((i, geometries)) => {
                    &&& request_answered(
                        old(self).pinnacle.layout_state.requests,
                        outputs@[i as int].key,
                        final(self).pinnacle.layout_state.requests,
                    )
                    &&& tree_placed(
                        old(self).pinnacle.layout_state.layout_trees@,
                        tree_id,
                        root_node,
                        new_tree,
                        diff,
                        compute_geos,
                        outputs@[i as int].non_exclusive_zone.size,
                        geometries,
                        final(self).pinnacle.layout_state.layout_trees@,
                    )
                },
                Err(e) => {
                    &&& final(self).pinnacle.layout_state.requests == old(
                        self,
                    ).pinnacle.layout_state.requests
                    &&& e != LayoutError::InvalidOutput ==> tree_kept(
                        old(self).pinnacle.layout_state.layout_trees@,
                        tree_id,
                        root_node,
                        new_tree,
                        diff,
                        final(self).pinnacle.layout_state.layout_trees@,
                    )
                },
            },
            output_named(outputs@, output_name@) is None ==> *final(self) == *old(self),
            only_trees_and_requests_change(*old(self), *final(self)),
            old(self).pinnacle.layout_state.requests.wf()
                ==> final(self).pinnacle.layout_state.requests.wf(),
            answer_taken_up(
                old(self).pinnacle.layout_state,
                tree_id,
                root_node,
                request_id,
                output_name@,
                outputs@,
                new_tree,
                diff,
                compute_geos,
                r,
                final(self).pinnacle.layout_state,
            ),
    {
        let output_name = OutputName(output_name);
        let index = match output_name.output(outputs) {
            Some(index) => index,
            None => {
                return Err(LayoutError::InvalidOutput);
            },
        };
        let output = &outputs[index];
        let ghost trees = self.pinnacle.layout_state.layout_trees@;
        let tree = match self.pinnacle.layout_state.layout_trees.remove(&tree_id) {
            Some(tree) => diff(tree, root_node),
            None => new_tree(root_node),
        };
        assert(grown(trees, tree_id, root_node, new_tree, diff, tree));
        assert(trees.remove(tree_id) =~= self.pinnacle.layout_state.layout_trees@);
        let current_pending = match self.pinnacle.layout_state.requests.check_answer(
            output.key,
            request_id,
        ) {
            Ok(id) => id,
            Err(e) => {
                self.pinnacle.layout_state.layout_trees.insert(tree_id, tree);
                assert(self.pinnacle.layout_state.layout_trees@ =~= trees.insert(tree_id, tree));
                return Err(e);
            },
        };
        let zone = output.non_exclusive_zone.size;
        let (laid_tree, geometries) = compute_geos(tree, zone.w as u32, zone.h as u32);
        assert(laid_out(compute_geos, tree, zone, laid_tree, geometries));
        self.pinnacle.layout_state.layout_trees.insert(tree_id, laid_tree);
        assert(self.pinnacle.layout_state.layout_trees@ =~= trees.insert(tree_id, laid_tree));
        self.pinnacle.layout_state.requests.close_request(output.key, current_pending);
        proof {
            let before = old(self).pinnacle.layout_state.requests;
            if before.wf() {
                law_an_answer_keeps_the_order(
                    before,
                    output.key,
                    self.pinnacle.layout_state.requests,
                );
            }
        }
        Ok((index, geometries))
    }

    /// Takes up the answer to a layout request, as `take_up_answer` does, and plans how
    /// the windows of the output are arranged.
    pub fn apply_layout_tree<N, New, Diff, Compute>(
        &mut self,
        tree_id: u32,
        root_node: N,
        request_id: u32,
        output_name: String,
        outputs: &Vec<Output>,
        new_tree: New,
        diff: Diff,
        compute_geos: Compute,
    ) -> (r: Result<AcceptedLayout, LayoutError>) where
        New: FnOnce(N) -> T,
        Diff: FnOnce(T, N) -> T,
        Compute: FnOnce(T, u32, u32) -> (T, Vec<Rectangle>),

        requires
            answer_callable(
                old(self).pinnacle.layout_state,
                tree_id,
                root_node,
                request_id,
                output_name@,
                outputs@,
                new_tree,
                diff,
                compute_geos,
            ),
            answer_refusal(
                old(self).pinnacle.layout_state.requests,
                outputs@,
                output_name@,
                request_id,
            ) is None ==> outputs@[output_named(outputs@, output_name@)->0].geometry is Some,
        ensures
            match answer_refusal(
                old(self).pinnacle.layout_state.requests,
                outputs@,
                output_name@,
                request_id,
            ) {
                Some(e) => r matches Err(error) && error == e,
                None => r matches Ok(accepted) && accepted.output < outputs.len() && output_named(
                    outputs@,
                    output_name@,
                ) == Some(accepted.output as int),
            },
            match r {
                Ok(accepted) => {
                    let output = outputs@[accepted.output as int];
                    &&& request_answered(
                        old(self).pinnacle.layout_state.requests,
                        output.key,
                        final(self).pinnacle.layout_state.requests,
                    )
                    &&& exists|geometries: Vec<Rectangle>| #[trigger]
                        tree_placed(
                            old(self).pinnacle.layout_state.layout_trees@,
                            tree_id,
                            root_node,
                            new_tree,
                            diff,
                            compute_geos,
                            output.non_exclusive_zone.size,
                            geometries,
                            final(self).pinnacle.layout_state.layout_trees@,
                        ) && accepted.actions@ == arrangement(
                            old(self).pinnacle.windows@,
                            output.key,
                            output.focused_tags@,
                            output.geometry->0.loc,
                            output.non_exclusive_zone.loc,
                            geometries@,
                        )
                },
                Err(e) => {
                    &&& final(self).pinnacle.layout_state.requests == old(
                        self,
                    ).pinnacle.layout_state.requests
                    &&& e != LayoutError::InvalidOutput ==> tree_kept(
                        old(self).pinnacle.layout_state.layout_trees@,
                        tree_id,
                        root_node,
                        new_tree,
                        diff,
                        final(self).pinnacle.layout_state.layout_trees@,
                    )
                },
            },
            output_named(outputs@, output_name@) is None ==> *final(self) == *old(self),
            only_trees_and_requests_change(*old(self), *final(self)),
            old(self).pinnacle.layout_state.requests.wf()
                ==> final(self).pinnacle.layout_state.requests.wf(),
            r matches Ok(accepted) ==> exists|geometries: Vec<Rectangle>| #[trigger]
                answer_taken_up(
                old(self).pinnacle.layout_state,
                tree_id,
                root_node,
                request_id,
                output_name@,
                outputs@,
                new_tree,
                diff,
                compute_geos,
                Ok((accepted.output, geometries)),
                final(self).pinnacle.layout_state,
            ) && accepted.actions@ == arranged(
                    old(self).pinnacle.windows@,
                    outputs@[accepted.output as int],
                    geometries@,
                ),
            r matches Err(e) ==> answer_taken_up(
                old(self).pinnacle.layout_state,
                tree_id,
                root_node,
                request_id,
                output_name@,
                outputs@,
                new_tree,
                diff,
                compute_geos,
                Err(e),
                final(self).pinnacle.layout_state,
            ),
    {
        let taken_up = self.take_up_answer(
            tree_id,
            root_node,
            request_id,
            output_name,
            outputs,
            new_tree,
            diff,
            compute_geos,
        );
        match taken_up {
            Ok((index, geometries)) => {
                let actions = self.pinnacle.update_windows_with_geometries(
                    &outputs[index],
                    &geometries,
                );
                Ok(AcceptedLayout { output: index, actions })
            },
            Err(e) => Err(e),
        }
    }

    /// Ends an accepted answer, once its steps were performed: `pending` holds the
    /// windows whose clients have yet to take up their new state. A transaction that
    /// starts takes the snapshots of the output with it.
    pub fn finish_layout(
        &mut self,
        output: &mut Output,
        pending: Vec<(WindowKey, Serial)>,
    ) -> (r: LayoutFinish)
        ensures
            r.schedule_render == old(output).key,
            r.transaction == if old(output).layout_transaction {
                TransactionStep::UpdatePending { pending }
            } else {
                TransactionStep::Start {
                    fullscreen_and_above: old(output).snapshots.fullscreen_and_above,
                    under_fullscreen: old(output).snapshots.under_fullscreen,
                    pending,
                }
            },
            r.transaction == transaction_step(*old(output), pending),
            transaction_entered(*old(output), *final(output)),
            *final(self) == (State {
                pinnacle: Pinnacle {
                    layout_state: LayoutState {
                        pending_swap: false,
                        ..old(self).pinnacle.layout_state
                    },
                    ..old(self).pinnacle
                },
            }),
    {
        let transaction = if output.layout_transaction {
            TransactionStep::UpdatePending { pending }
        } else {
            let mut fullscreen_and_above: Vec<SnapshotKey> = Vec::new();
            let mut under_fullscreen: Vec<SnapshotKey> = Vec::new();
            core::mem::swap(
                &mut fullscreen_and_above,
                &mut output.snapshots.fullscreen_and_above,
            );
            core::mem::swap(&mut under_fullscreen, &mut output.snapshots.under_fullscreen);
            output.layout_transaction = true;
            TransactionStep::Start { fullscreen_and_above, under_fullscreen, pending }
        };
        self.pinnacle.layout_state.pending_swap = false;
        LayoutFinish { transaction, schedule_render: output.key }
    }
}

/// What becomes of the transaction of an output when an answer ends that `pending` is left
/// of.
pub open spec fn transaction_step(
    output: Output,
    pending: Vec<(WindowKey, Serial)>,
) -> TransactionStep {
    if output.layout_transaction {
        TransactionStep::UpdatePending { pending }
    } else {
        TransactionStep::Start {
            fullscreen_and_above: output.snapshots.fullscreen_and_above,
            under_fullscreen: output.snapshots.under_fullscreen,
            pending,
        }
    }
}

/// From `before` to `after` an accepted answer has ended on an output: a transaction is
/// under way there. One that was under way before leaves the output as it is, and one
/// that starts leaves no snapshot behind.
pub open spec fn transaction_entered(before: Output, after: Output) -> bool {
    if before.layout_transaction {
        after == before
    } else {
        &&& after.layout_transaction
        &&& after.snapshots.fullscreen_and_above@ == Seq::<SnapshotKey>::empty()
        &&& after.snapshots.under_fullscreen@ == Seq::<SnapshotKey>::empty()
        &&& after == Output { layout_transaction: true, snapshots: after.snapshots, ..before }
    }
}

/// A second answer that ends while the transaction of the first is still under way goes
/// to that transaction and leaves the output as it is, with snapshots that were taken in
/// between.
pub proof fn law_a_transaction_under_way_is_kept(
    before: Output,
    between: Output,
    snapshots: OutputSnapshots,
    after: Output,
)
    requires
        transaction_entered(before, between),
        transaction_entered(Output { snapshots, ..between }, after),
    ensures
        between.layout_transaction,
        after == (Output { snapshots, ..between }),
{
}

/// An answer for an output that has the name is accepted exactly where the request that is
/// open for the first such output has its number, whatever else holds of the output. `i` is
/// where that output stands.
pub proof fn law_the_answer_to_the_open_request_is_accepted(
    requests: LayoutRequests,
    outputs: Seq<Output>,
    output_name: Seq<char>,
    request_id: u32,
    i: int,
)
    requires
        0 <= i < outputs.len() && outputs[i].name@ == output_name,
        forall|j: int| 0 <= j < i ==> (#[trigger] outputs[j]).name@ != output_name,
    ensures
        ({
            let refused = answer_refusal(requests, outputs, output_name, request_id);
            let open = requests.pending();
            let key = outputs[i].key;
            &&& refused is None <==> open.dom().contains(key) && open[key] == request_id
            &&& refused == Some(LayoutError::NotRequested) <==> !open.dom().contains(key)
            &&& refused == Some(LayoutError::Superseded) <==> open.dom().contains(key) && open[key]
                > request_id
            &&& refused == Some(LayoutError::TooNew) <==> open.dom().contains(key) && open[key]
                < request_id
            &&& refused != Some(LayoutError::InvalidOutput)
        }),
{
    law_a_name_stands_for_the_first_output(outputs, output_name);
    let k = output_named(outputs, output_name)->0;
    if k < i {
        assert(outputs[k].name@ != output_name);
    }
    if i < k {
        assert(outputs[i].name@ != output_name);
    }
    law_an_answer_has_the_open_number(requests.pending(), outputs[i].key, request_id);
}

/// An answer whose name no output has is refused as such, whatever its number.
pub proof fn law_an_unknown_name_is_refused(
    requests: LayoutRequests,
    outputs: Seq<Output>,
    output_name: Seq<char>,
    request_id: u32,
)
    requires
        forall|j: int| 0 <= j < outputs.len() ==> (#[trigger] outputs[j]).name@ != output_name,
    ensures
        answer_refusal(requests, outputs, output_name, request_id) == Some(
            LayoutError::InvalidOutput,
        ),
{
    law_a_name_stands_for_the_first_output(outputs, output_name);
}

/// A tree that is taken up comes from the tree that was held under its number, brought up to
/// date with the new root, or, where none was held, from the root alone. It is held under
/// that number; every other tree stays as it was.
pub proof fn law_a_tree_that_is_taken_up_is_held<T, N, New, Diff>(
    before: Map<u32, T>,
    tree_id: u32,
    root: N,
    new_tree: New,
    diff: Diff,
    after: Map<u32, T>,
) where New: FnOnce(N) -> T, Diff: FnOnce(T, N) -> T
    requires
        tree_kept(before, tree_id, root, new_tree, diff, after),
    ensures
        after.dom().contains(tree_id),
        before.dom().contains(tree_id) ==> call_ensures(
            diff,
            (before[tree_id], root),
            after[tree_id],
        ),
        !before.dom().contains(tree_id) ==> call_ensures(new_tree, (root,), after[tree_id]),
        forall|id: u32|
            id != tree_id ==> (#[trigger] after.dom().contains(id) <==> before.dom().contains(id))
                && (before.dom().contains(id) ==> after[id] == before[id]),
{
}

/// The places of an accepted answer are those of its own tree, in an area of the width and
/// the height that the output leaves free. The tree is held as laying it out has left it;
/// every other tree stays as it was.
pub proof fn law_an_accepted_tree_is_laid_out_in_the_free_area<T, N, New, Diff, Compute>(
    before: Map<u32, T>,
    tree_id: u32,
    root: N,
    new_tree: New,
    diff: Diff,
    compute_geos: Compute,
    size: Size,
    geometries: Vec<Rectangle>,
    after: Map<u32, T>,
) -> (tree: T) where
    New: FnOnce(N) -> T,
    Diff: FnOnce(T, N) -> T,
    Compute: FnOnce(T, u32, u32) -> (T, Vec<Rectangle>),

    requires
        tree_placed(
            before,
            tree_id,
            root,
            new_tree,
            diff,
            compute_geos,
            size,
            geometries,
            after,
        ),
    ensures
        before.dom().contains(tree_id) ==> call_ensures(diff, (before[tree_id], root), tree),
        !before.dom().contains(tree_id) ==> call_ensures(new_tree, (root,), tree),
        after.dom().contains(tree_id),
        call_ensures(
            compute_geos,
            (tree, size.w as u32, size.h as u32),
            (after[tree_id], geometries),
        ),
        forall|id: u32|
            id != tree_id ==> (#[trigger] after.dom().contains(id) <==> before.dom().contains(id))
                && (before.dom().contains(id) ==> after[id] == before[id]),
{
    let (tree, laid_tree) = choose|tree: T, laid_tree: T|
        {
            &&& #[trigger] grown(before, tree_id, root, new_tree, diff, tree)
            &&& #[trigger] laid_out(compute_geos, tree, size, laid_tree, geometries)
            &&& after == before.insert(tree_id, laid_tree)
        };
    tree
}

/// Closures that can be called on everything can be handed over with every answer.
pub proof fn law_closures_that_take_everything_are_taken<T, N, New, Diff, Compute>(
    state: LayoutState<T>,
    tree_id: u32,
    root_node: N,
    request_id: u32,
    output_name: Seq<char>,
    outputs: Seq<Output>,
    new_tree: New,
    diff: Diff,
    compute_geos: Compute,
) where
    New: FnOnce(N) -> T,
    Diff: FnOnce(T, N) -> T,
    Compute: FnOnce(T, u32, u32) -> (T, Vec<Rectangle>),

    requires
        forall|root: N| #[trigger] call_requires(new_tree, (root,)),
        forall|tree: T, root: N| #[trigger] call_requires(diff, (tree, root)),
        forall|tree: T, w: u32, h: u32| #[trigger] call_requires(compute_geos, (tree, w, h)),
    ensures
        answer_callable(
            state,
            tree_id,
            root_node,
            request_id,
            output_name,
            outputs,
            new_tree,
            diff,
            compute_geos,
        ),
{
}

/// An answer leaves the windows, the outputs, the client and a pending swap alone.
pub proof fn law_an_answer_leaves_the_windows_alone<T>(before: State<T>, after: State<T>)
    requires
        only_trees_and_requests_change(before, after),
    ensures
        after.pinnacle.windows == before.pinnacle.windows,
        after.pinnacle.unmapped_windows == before.pinnacle.unmapped_windows,
        after.pinnacle.outputs == before.pinnacle.outputs,
        after.pinnacle.layout_state.layout_request_sender
            == before.pinnacle.layout_state.layout_request_sender,
        after.pinnacle.layout_state.pending_swap == before.pinnacle.layout_state.pending_swap,
{
}

/// After an accepted answer a transaction is under way. Where it started with the answer the
/// output holds no snapshot any more; where it was under way already the snapshots stay.
/// Nothing else changes about the output.
pub proof fn law_a_transaction_takes_the_snapshots(before: Output, after: Output)
    requires
        transaction_entered(before, after),
    ensures
        after.layout_transaction,
        !before.layout_transaction ==> after.snapshots.fullscreen_and_above@.len() == 0
            && after.snapshots.under_fullscreen@.len() == 0,
        before.layout_transaction ==> after.snapshots == before.snapshots,
        after.key == before.key,
        after.name == before.name,
        after.focused_tags == before.focused_tags,
        after.geometry == before.geometry,
        after.non_exclusive_zone == before.non_exclusive_zone,
{
}

/// A transaction starts exactly where none is under way, whatever is waited for, and takes the
/// two lists of snapshots as they are. Either way the transaction waits for all that is left
/// of the answer.
pub proof fn law_a_transaction_starts_once(output: Output, pending: Vec<(WindowKey, Serial)>)
    ensures
        ({
            let step = transaction_step(output, pending);
            &&& step is Start <==> !output.layout_transaction
            &&& step is Start ==> {
                &&& step->fullscreen_and_above == output.snapshots.fullscreen_and_above
                &&& step->under_fullscreen == output.snapshots.under_fullscreen
                &&& step->Start_pending == pending
            }
            &&& step is UpdatePending ==> step->UpdatePending_pending == pending
        }),
{
}

/// The answer to the open request of the first output with its name is taken up. The request
/// is closed, and the places are those of the answer's own tree in an area of the width and
/// height that this output leaves free. `i` is where the output stands.
pub proof fn law_an_accepted_answer_is_laid_out_on_its_output<T, N, New, Diff, Compute>(
    before: LayoutState<T>,
    tree_id: u32,
    root_node: N,
    request_id: u32,
    output_name: Seq<char>,
    outputs: Seq<Output>,
    new_tree: New,
    diff: Diff,
    compute_geos: Compute,
    r: Result<(usize, Vec<Rectangle>), LayoutError>,
    after: LayoutState<T>,
    i: int,
) -> (tree: T) where
    New: FnOnce(N) -> T,
    Diff: FnOnce(T, N) -> T,
    Compute: FnOnce(T, u32, u32) -> (T, Vec<Rectangle>),

    requires
        answer_taken_up(
            before,
            tree_id,
            root_node,
            request_id,
            output_name,
            outputs,
            new_tree,
            diff,
            compute_geos,
            r,
            after,
        ),
        0 <= i < outputs.len() && outputs[i].name@ == output_name,
        forall|j: int| 0 <= j < i ==> (#[trigger] outputs[j]).name@ != output_name,
        before.requests.pending().dom().contains(outputs[i].key),
        before.requests.pending()[outputs[i].key] == request_id,
    ensures
        r is Ok && r->Ok_0.0 == i,
        !after.requests.pending().dom().contains(outputs[i].key),
        after.requests.fulfilled().dom().contains(outputs[i].key)
            && after.requests.fulfilled()[outputs[i].key] == request_id,
        before.layout_trees@.dom().contains(tree_id) ==> call_ensures(
            diff,
            (before.layout_trees@[tree_id], root_node),
            tree,
        ),
        !before.layout_trees@.dom().contains(tree_id) ==> call_ensures(
            new_tree,
            (root_node,),
            tree,
        ),
        after.layout_trees@.dom().contains(tree_id),
        call_ensures(
            compute_geos,
            (
                tree,
                outputs[i].non_exclusive_zone.size.w as u32,
                outputs[i].non_exclusive_zone.size.h as u32,
            ),
            (after.layout_trees@[tree_id], r->Ok_0.1),
        ),
{
    law_the_answer_to_the_open_request_is_accepted(
        before.requests,
        outputs,
        output_name,
        request_id,
        i,
    );
    law_a_name_stands_for_the_first_output(outputs, output_name);
    let k = output_named(outputs, output_name)->0;
    if k < i {
        assert(outputs[k].name@ != output_name);
    }
    if i < k {
        assert(outputs[i].name@ != output_name);
    }
    law_an_accepted_tree_is_laid_out_in_the_free_area(
        before.layout_trees@,
        tree_id,
        root_node,
        new_tree,
        diff,
        compute_geos,
        outputs[i].non_exclusive_zone.size,
        r->Ok_0.1,
        after.layout_trees@,
    )
}

/// An answer for a known output that does not have the open number is refused, and no request
/// changes. Its tree is taken up all the same, and every other tree stays as it was.
pub proof fn law_a_refused_answer_still_brings_its_tree<T, N, New, Diff, Compute>(
    before: LayoutState<T>,
    tree_id: u32,
    root_node: N,
    request_id: u32,
    output_name: Seq<char>,
    outputs: Seq<Output>,
    new_tree: New,
    diff: Diff,
    compute_geos: Compute,
    r: Result<(usize, Vec<Rectangle>), LayoutError>,
    after: LayoutState<T>,
    i: int,
) where
    New: FnOnce(N) -> T,
    Diff: FnOnce(T, N) -> T,
    Compute: FnOnce(T, u32, u32) -> (T, Vec<Rectangle>),

    requires
        answer_taken_up(
            before,
            tree_id,
            root_node,
            request_id,
            output_name,
            outputs,
            new_tree,
            diff,
            compute_geos,
            r,
            after,
        ),
        0 <= i < outputs.len() && outputs[i].name@ == output_name,
        forall|j: int| 0 <= j < i ==> (#[trigger] outputs[j]).name@ != output_name,
        !before.requests.pending().dom().contains(outputs[i].key)
            || before.requests.pending()[outputs[i].key] != request_id,
    ensures
        r is Err,
        after.requests == before.requests,
        after.layout_trees@.dom().contains(tree_id),
        before.layout_trees@.dom().contains(tree_id) ==> call_ensures(
            diff,
            (before.layout_trees@[tree_id], root_node),
            after.layout_trees@[tree_id],
        ),
        !before.layout_trees@.dom().contains(tree_id) ==> call_ensures(
            new_tree,
            (root_node,),
            after.layout_trees@[tree_id],
        ),
        forall|id: u32|
            id != tree_id ==> (#[trigger] after.layout_trees@.dom().contains(id)
                <==> before.layout_trees@.dom().contains(id)) && (
            before.layout_trees@.dom().contains(id) ==> after.layout_trees@[id]
                == before.layout_trees@[id]),
{
    law_the_answer_to_the_open_request_is_accepted(
        before.requests,
        outputs,
        output_name,
        request_id,
        i,
    );
    law_a_tree_that_is_taken_up_is_held(
        before.layout_trees@,
        tree_id,
        root_node,
        new_tree,
        diff,
        after.layout_trees@,
    );
}

} // verus!
