//! The order of the windows, which is the order in which they are laid out.

use vstd::prelude::*;

use crate::seqs::{
    first_where, is_first_where, law_the_first_position_comes_first, lemma_filter_take, lemma_first_where_is, lemma_first_where_none,
    lemma_first_where_some,
};
use crate::state::Pinnacle;
use crate::tags::tag_seq;
use crate::window::{WindowElement, WindowKey};

verus! {

/// Holds of the window `key`.
pub open spec fn is_window(key: WindowKey) -> spec_fn(WindowElement) -> bool {
    |w: WindowElement| w.key == key
}

/// The position of the window `key`: the first one, if it stands there twice.
pub open spec fn window_position(windows: Seq<WindowElement>, key: WindowKey) -> Option<int> {
    first_where(windows, is_window(key))
}

/// The sequence with the items at `i` and `j` exchanged.
pub open spec fn exchanged<A>(s: Seq<A>, i: int, j: int) -> Seq<A> {
    s.update(i, s[j]).update(j, s[i])
}

/// The order after the windows `a` and `b` have changed places: the same as before,
/// where one of them is missing.
pub open spec fn swapped(windows: Seq<WindowElement>, a: WindowKey, b: WindowKey) -> Seq<
    WindowElement,
> {
    match (window_position(windows, a), window_position(windows, b)) {
        (Some(i), Some(j)) => exchanged(windows, i, j),
        _ => windows,
    }
}

/// Finds the window `key`.
fn position(windows: &Vec<WindowElement>, key: WindowKey) -> (r: Option<usize>)
    ensures
        match r {
            Some(i) => i < windows.len() && window_position(windows@, key) == Some(i as int),
            None => window_position(windows@, key) is None,
        },
{
    let mut i: usize = 0;
    while i < windows.len()
        invariant
            i <= windows.len(),
            forall|j: int| 0 <= j < i ==> !is_window(key)(#[trigger] windows@[j]),
        decreases windows.len() - i,
    {
        if windows[i].key == key {
            proof {
                assert(is_first_where(windows@, is_window(key), i as int));
                lemma_first_where_is(windows@, is_window(key), i as int);
            }
            return Some(i);
        }
        i = i + 1;
    }
    proof {
        lemma_first_where_none(windows@, is_window(key));
    }
    None
}

/// Exchanges two items, `first` standing before `second`.
fn exchange(windows: &mut Vec<WindowElement>, first: usize, second: usize)
    requires
        first < second < old(windows).len(),
    ensures
        final(windows)@ == exchanged(old(windows)@, first as int, second as int),
{
    let (front, back) = windows.as_mut_slice().split_at_mut(second);
    core::mem::swap(&mut front[first], &mut back[0]);
}

impl<T> Pinnacle<T> {
    /// Lets two windows change places in the order. Nothing happens where one of
    /// them is not among the mapped windows.
    pub fn swap_window_positions(&mut self, win1: &WindowElement, win2: &WindowElement)
        ensures
            final(self).windows@ == swapped(old(self).windows@, win1.key, win2.key),
            *final(self) == (Pinnacle { windows: final(self).windows, ..*old(self) }),
    {
        let win1_index = position(&self.windows, win1.key);
        let win2_index = position(&self.windows, win2.key);
        if let (Some(first), Some(second)) = (win1_index, win2_index) {
            if first < second {
                exchange(&mut self.windows, first, second);
            } else if second < first {
                exchange(&mut self.windows, second, first);
                assert(self.windows@ =~= exchanged(old(self).windows@, first as int, second as int));
            }
        }
    }
}

/// Holds of the windows other than `key`.
pub open spec fn is_other_window(key: WindowKey) -> spec_fn(WindowElement) -> bool {
    |w: WindowElement| w.key != key
}

/// The order without the window `key`.
pub open spec fn without(windows: Seq<WindowElement>, key: WindowKey) -> Seq<WindowElement> {
    windows.filter(is_other_window(key))
}

impl<T> Pinnacle<T> {
    /// Takes a window that is gone out of the order. The others stay in order.
    pub fn forget_window(&mut self, window: WindowKey)
        ensures
            final(self).windows@ == old(self).windows@.filter(is_other_window(window)),
            final(self).windows@ == without(old(self).windows@, window),
            *final(self) == (Pinnacle { windows: final(self).windows, ..*old(self) }),
    {
        let ghost all = self.windows@;
        let ghost p = is_other_window(window);
        let ghost mut seen: int = 0;
        let mut kept: usize = 0;
        proof {
            reveal(Seq::filter);
            assert(all.take(0).filter(p) =~= Seq::empty());
            assert(self.windows@ =~= all.take(0).filter(p) + all.skip(0));
        }
        while kept < self.windows.len()
            invariant
                0 <= seen <= all.len(),
                p == is_other_window(window),
                kept == all.take(seen).filter(p).len(),
                self.windows@ == all.take(seen).filter(p) + all.skip(seen),
                *self == (Pinnacle { windows: self.windows, ..*old(self) }),
            decreases all.len() - seen,
        {
            proof {
                assert(self.windows@[kept as int] == all[seen]);
                lemma_filter_take(all, p, seen);
            }
            if self.windows[kept].key == window {
                self.windows.remove(kept);
                assert(self.windows@ =~= all.take(seen + 1).filter(p) + all.skip(seen + 1));
            } else {
                kept = kept + 1;
                assert(self.windows@ =~= all.take(seen + 1).filter(p) + all.skip(seen + 1));
            }
            proof {
                seen = seen + 1;
            }
        }
        proof {
            assert(seen == all.len());
            assert(all.take(seen) =~= all);
            assert(self.windows@ =~= all.filter(p));
        }
    }
}

/// No window stands in the order twice.
pub open spec fn distinct_windows(windows: Seq<WindowElement>) -> bool {
    forall|i: int, j: int|
        0 <= i < j < windows.len() ==> #[trigger] windows[i].key != #[trigger] windows[j].key
}

/// The two entries say the same of a window: what protocol it speaks, where it belongs,
/// where it is, what shows it and how it is laid out. Its surface and the outputs that it
/// overlaps are left open; no place depends on them.
pub open spec fn same_window(a: WindowElement, b: WindowElement) -> bool {
    &&& a.key == b.key
    &&& a.underlying_surface == b.underlying_surface
    &&& a.x11_override_redirect == b.x11_override_redirect
    &&& a.output == b.output
    &&& a.location == b.location
    &&& tag_seq(a.state.tags) == tag_seq(b.state.tags)
    &&& a.state.layout_mode == b.state.layout_mode
    &&& a.state.floating_loc == b.state.floating_loc
}

/// Windows are told apart by their keys: two entries with one key are one window. It may
/// stand in the order more than once.
pub open spec fn told_apart(windows: Seq<WindowElement>) -> bool {
    forall|i: int, j: int|
        0 <= i < windows.len() && 0 <= j < windows.len() && #[trigger] windows[i].key
            == #[trigger] windows[j].key ==> same_window(windows[i], windows[j])
}

/// Windows that do not stand in the order twice are told apart.
pub proof fn law_distinct_windows_are_told_apart(windows: Seq<WindowElement>)
    requires
        distinct_windows(windows),
    ensures
        told_apart(windows),
{
    assert forall|i: int, j: int|
        0 <= i < windows.len() && 0 <= j < windows.len() && #[trigger] windows[i].key
            == #[trigger] windows[j].key implies same_window(windows[i], windows[j]) by {
        if i < j {
            assert(windows[i].key != windows[j].key);
        }
        if j < i {
            assert(windows[j].key != windows[i].key);
        }
    }
}

/// A window that was forgotten is not in the order any more, and every other window still
/// is. Windows that were told apart still are.
pub proof fn law_a_forgotten_window_is_gone(windows: Seq<WindowElement>, window: WindowKey)
    ensures
        window_position(windows.filter(is_other_window(window)), window) is None,
        forall|w: WindowElement| #[trigger]
            windows.filter(is_other_window(window)).contains(w) <==> windows.contains(w) && w.key
                != window,
        told_apart(windows) ==> told_apart(windows.filter(is_other_window(window))),
{
    let p = is_other_window(window);
    let left = windows.filter(p);
    assert forall|j: int| 0 <= j < left.len() implies !is_window(window)(#[trigger] left[j]) by {
        windows.lemma_filter_pred(p, j);
    }
    lemma_first_where_none(left, is_window(window));
    assert forall|w: WindowElement| #[trigger] left.contains(w) <==> windows.contains(w) && w.key
        != window by {
        if left.contains(w) {
            windows.lemma_filter_pred(p, left.index_of(w));
            windows.lemma_filter_contains_rev(p, w);
        }
        if windows.contains(w) && w.key != window {
            windows.lemma_filter_contains(p, windows.index_of(w));
        }
    }
    if told_apart(windows) {
        assert forall|i: int, j: int|
            0 <= i < left.len() && 0 <= j < left.len() && #[trigger] left[i].key
                == #[trigger] left[j].key implies same_window(left[i], left[j]) by {
            assert(left.contains(left[i]) && left.contains(left[j]));
            assert(windows[windows.index_of(left[i])].key == windows[windows.index_of(
                left[j],
            )].key);
        }
    }
}

/// Forgetting a window goes entry by entry: one with its key goes, and any other stays where
/// it comes in the order.
pub proof fn law_only_the_forgotten_window_goes(
    windows: Seq<WindowElement>,
    last: WindowElement,
    window: WindowKey,
)
    ensures
        without(Seq::empty(), window) == Seq::<WindowElement>::empty(),
        last.key == window ==> without(windows.push(last), window) == without(windows, window),
        last.key != window ==> without(windows.push(last), window) == without(
            windows,
            window,
        ).push(last),
{
    reveal(Seq::filter);
    assert(windows.push(last).drop_last() =~= windows);
}

/// It does not matter which of two windows is named first when they change places.
pub proof fn law_swap_is_symmetric(windows: Seq<WindowElement>, a: WindowKey, b: WindowKey)
    ensures
        swapped(windows, a, b) == swapped(windows, b, a),
{
    assert(swapped(windows, a, b) =~= swapped(windows, b, a));
}

/// Each of two windows that change places comes to stand where the other stood, and every
/// other window stays where it is. `i` and `j` are where the two stand first.
pub proof fn law_each_stands_where_the_other_stood(
    windows: Seq<WindowElement>,
    a: WindowKey,
    b: WindowKey,
    i: int,
    j: int,
)
    requires
        0 <= i < windows.len() && windows[i].key == a,
        forall|k: int| 0 <= k < i ==> (#[trigger] windows[k]).key != a,
        0 <= j < windows.len() && windows[j].key == b,
        forall|k: int| 0 <= k < j ==> (#[trigger] windows[k]).key != b,
    ensures
        swapped(windows, a, b).len() == windows.len(),
        swapped(windows, a, b)[i] == windows[j],
        swapped(windows, a, b)[j] == windows[i],
        forall|k: int|
            0 <= k < windows.len() && k != i && k != j ==> #[trigger] swapped(windows, a, b)[k]
                == windows[k],
{
    assert forall|k: int| 0 <= k < i implies !is_window(a)(#[trigger] windows[k]) by {
    }
    assert forall|k: int| 0 <= k < j implies !is_window(b)(#[trigger] windows[k]) by {
    }
    assert(is_first_where(windows, is_window(a), i));
    assert(is_first_where(windows, is_window(b), j));
    lemma_first_where_is(windows, is_window(a), i);
    lemma_first_where_is(windows, is_window(b), j);
}

/// Where one of the two windows is not in the order, the order stays as it is.
pub proof fn law_a_missing_window_changes_no_place(
    windows: Seq<WindowElement>,
    a: WindowKey,
    b: WindowKey,
)
    requires
        (forall|k: int| 0 <= k < windows.len() ==> (#[trigger] windows[k]).key != a) || (forall|
            k: int,
        |
            0 <= k < windows.len() ==> (#[trigger] windows[k]).key != b),
    ensures
        swapped(windows, a, b) == windows,
{
    law_the_first_position_comes_first(windows, is_window(a));
    law_the_first_position_comes_first(windows, is_window(b));
}

/// A window that changes places with itself, or with one that is not there, leaves the
/// order as it is.
pub proof fn law_swap_needs_two_windows(windows: Seq<WindowElement>, a: WindowKey, b: WindowKey)
    requires
        a == b || window_position(windows, a) is None || window_position(windows, b) is None,
    ensures
        swapped(windows, a, b) == windows,
{
    assert(swapped(windows, a, b) =~= windows);
}

/// Changing places neither adds nor loses a window.
pub proof fn law_swap_keeps_the_windows(windows: Seq<WindowElement>, a: WindowKey, b: WindowKey)
    ensures
        swapped(windows, a, b).len() == windows.len(),
        swapped(windows, a, b).to_multiset() == windows.to_multiset(),
        distinct_windows(windows) ==> distinct_windows(swapped(windows, a, b)),
        told_apart(windows) ==> told_apart(swapped(windows, a, b)),
{
    if let (Some(i), Some(j)) = (window_position(windows, a), window_position(windows, b)) {
        assert(is_first_where(windows, is_window(a), i));
        assert(is_first_where(windows, is_window(b), j));
        let half = windows.update(i, windows[j]);
        broadcast use vstd::seq_lib::group_to_multiset_ensures;
        vstd::seq_lib::to_multiset_update(windows, i, windows[j]);
        vstd::seq_lib::to_multiset_update(half, j, windows[i]);
        assert(windows.to_multiset().count(windows[i]) > 0);
        assert(swapped(windows, a, b).to_multiset() =~= windows.to_multiset());
    }
}

/// Of the windows `a` and `b`, the one that stands first does not stand in between again.
pub open spec fn none_in_between(windows: Seq<WindowElement>, a: WindowKey, b: WindowKey) -> bool {
    match (window_position(windows, a), window_position(windows, b)) {
        (Some(i), Some(j)) => forall|k: int|
            0 <= k < windows.len() ==> (i < k < j ==> #[trigger] windows[k].key != a) && (j < k < i
                ==> windows[k].key != b),
        _ => true,
    }
}

/// Changing places a second time restores the order, unless the window that stands first
/// stands again in between. That cannot be where no window stands in the order twice.
pub proof fn law_swap_twice_restores(windows: Seq<WindowElement>, a: WindowKey, b: WindowKey)
    ensures
        swapped(swapped(windows, a, b), a, b) == windows <==> none_in_between(windows, a, b),
        distinct_windows(windows) ==> swapped(swapped(windows, a, b), a, b) == windows,
{
    if let (Some(i), Some(j)) = (window_position(windows, a), window_position(windows, b)) {
        assert(is_first_where(windows, is_window(a), i));
        assert(is_first_where(windows, is_window(b), j));
        if distinct_windows(windows) {
            assert forall|k: int| 0 <= k < windows.len() implies (i < k < j
                ==> #[trigger] windows[k].key != a) && (j < k < i ==> windows[k].key != b) by {
                if i < k {
                    assert(windows[i].key != windows[k].key);
                }
                if j < k {
                    assert(windows[j].key != windows[k].key);
                }
            }
        }
        if i <= j {
            lemma_swap_twice(windows, a, b);
        } else {
            lemma_swap_twice(windows, b, a);
            law_swap_is_symmetric(windows, a, b);
            law_swap_is_symmetric(swapped(windows, a, b), a, b);
        }
    }
}

/// The case in which `a` stands first.
proof fn lemma_swap_twice(windows: Seq<WindowElement>, a: WindowKey, b: WindowKey)
    requires
        window_position(windows, a) is Some,
        window_position(windows, b) is Some,
        window_position(windows, a)->0 <= window_position(windows, b)->0,
    ensures
        swapped(swapped(windows, a, b), a, b) == windows <==> none_in_between(windows, a, b),
{
    let i = window_position(windows, a)->0;
    let j = window_position(windows, b)->0;
    let once = swapped(windows, a, b);
    let twice = swapped(once, a, b);
    assert(is_first_where(windows, is_window(a), i));
    assert(is_first_where(windows, is_window(b), j));
    assert(once == exchanged(windows, i, j));
    if i == j {
        assert(once =~= windows);
    } else {
        assert(is_first_where(once, is_window(b), i));
        lemma_first_where_is(once, is_window(b), i);
        if none_in_between(windows, a, b) {
            assert(is_first_where(once, is_window(a), j));
            lemma_first_where_is(once, is_window(a), j);
            assert(exchanged(once, j, i) =~= windows);
        } else {
            let k = choose|k: int|
                0 <= k < windows.len() && i < k < j && #[trigger] windows[k].key == a;
            lemma_first_where_some(once, is_window(a), k);
            let m = window_position(once, a)->0;
            assert(i < m <= k);
            assert(twice == exchanged(once, m, i));
            assert(twice[m].key == b);
            assert(windows[m].key == a);
        }
    }
}

} // verus!
