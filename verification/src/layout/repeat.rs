//! What an output looks like once an arrangement was performed, and a second one after it.

use vstd::prelude::*;

use crate::geometry::{Point, Rectangle, Size};
use crate::layout::arrange::{
    arrangement, hidden, hide_steps, placements, settle_steps, shown, tile_steps, tileable,
    LayoutAction,
};
use crate::layout::laws::{
    law_hidden_windows_are_unmapped, law_other_modes_have_their_places,
    law_shown_windows_are_not_unmapped, lemma_kinds, lemma_origin, subject,
};
use crate::layout::order::{same_window, told_apart};
use crate::output::OutputKey;
use crate::seqs::concat_map;
use crate::tags::TagId;
use crate::window::{LayoutModeKind, WindowElement, WindowElementState, WindowKey};

verus! {

/// What a value is after `steps` were performed, where it was `before` and `sets` says what
/// a step sets it to: the last step that sets it counts.
pub open spec fn after_steps<V>(
    steps: Seq<LayoutAction>,
    sets: spec_fn(LayoutAction) -> Option<V>,
    before: V,
) -> V
    decreases steps.len(),
{
    if steps.len() == 0 {
        before
    } else {
        match sets(steps.last()) {
            Some(v) => v,
            None => after_steps(steps.drop_last(), sets, before),
        }
    }
}

/// Where a step puts the window `window` in the space; `None` inside is out of it.
pub open spec fn sets_location(window: WindowKey) -> spec_fn(LayoutAction) -> Option<
    Option<Point>,
> {
    |a: LayoutAction|
        match a {
            LayoutAction::MapElement { window: w, location } if w == window => Some(Some(location)),
            LayoutAction::UnmapElement { window: w } if w == window => Some(None::<Point>),
            _ => None,
        }
}

/// What a step makes the place at which the window `window` floats.
pub open spec fn sets_floating(window: WindowKey) -> spec_fn(LayoutAction) -> Option<
    Option<Point>,
> {
    |a: LayoutAction|
        match a {
            LayoutAction::SaveFloatingLocation { window: w, location } if w == window => Some(
                Some(location),
            ),
            _ => None,
        }
}

/// The size that a step gives to the window `window`.
pub open spec fn sets_size(window: WindowKey) -> spec_fn(LayoutAction) -> Option<Option<Size>> {
    |a: LayoutAction|
        match a {
            LayoutAction::SetPendingSize { window: w, size } if w == window => Some(Some(size)),
            LayoutAction::ConfigureX11 { window: w, geometry } if w == window => Some(
                Some(geometry.size),
            ),
            _ => None,
        }
}

/// `after` is the window `before` once `steps` were performed: its places are those that
/// the steps gave it. Only its surface and the outputs that it overlaps may differ
/// otherwise.
pub open spec fn performed(
    before: WindowElement,
    steps: Seq<LayoutAction>,
    after: WindowElement,
) -> bool {
    same_window(
        after,
        WindowElement {
            location: after_steps(steps, sets_location(before.key), before.location),
            state: WindowElementState {
                floating_loc: after_steps(
                    steps,
                    sets_floating(before.key),
                    before.state.floating_loc,
                ),
                ..before.state
            },
            ..before
        },
    )
}

/// Steps of which none sets the value leave it.
proof fn lemma_unset<V>(
    steps: Seq<LayoutAction>,
    sets: spec_fn(LayoutAction) -> Option<V>,
    before: V,
)
    requires
        forall|a: LayoutAction| #[trigger] steps.contains(a) ==> sets(a) is None,
    ensures
        after_steps(steps, sets, before) == before,
    decreases steps.len(),
{
    if steps.len() > 0 {
        assert(steps.contains(steps.last()));
        assert forall|a: LayoutAction| #[trigger] steps.drop_last().contains(a) implies sets(
            a,
        ) is None by {
            let k = steps.drop_last().index_of(a);
            assert(steps.drop_last()[k] == a);
            assert(steps[k] == a && steps.contains(a));
        }
        lemma_unset(steps.drop_last(), sets, before);
    }
}

/// Where every step that sets the value sets it to `v`, and one does, it is `v`.
proof fn lemma_set<V>(
    steps: Seq<LayoutAction>,
    sets: spec_fn(LayoutAction) -> Option<V>,
    before: V,
    v: V,
    witness: LayoutAction,
)
    requires
        forall|a: LayoutAction| #[trigger]
            steps.contains(a) ==> sets(a) is None || sets(a) == Some(v),
        steps.contains(witness),
        sets(witness) == Some(v),
    ensures
        after_steps(steps, sets, before) == v,
    decreases steps.len(),
{
    assert(steps.contains(steps.last()));
    if sets(steps.last()) is None {
        let front = steps.drop_last();
        assert forall|a: LayoutAction| #[trigger] front.contains(a) implies sets(a) is None || sets(
            a,
        ) == Some(v) by {
            let k = front.index_of(a);
            assert(front[k] == a);
            assert(steps[k] == a && steps.contains(a));
        }
        let k = steps.index_of(witness);
        assert(front[k] == witness);
        lemma_set(front, sets, before, v, witness);
    }
}

/// Steps that follow others start from what those have left.
proof fn lemma_after_add<V>(
    s: Seq<LayoutAction>,
    t: Seq<LayoutAction>,
    sets: spec_fn(LayoutAction) -> Option<V>,
    before: V,
)
    ensures
        after_steps(s + t, sets, before) == after_steps(t, sets, after_steps(s, sets, before)),
    decreases t.len(),
{
    if t.len() == 0 {
        assert(s + t =~= s);
    } else {
        assert((s + t).drop_last() =~= s + t.drop_last());
        lemma_after_add(s, t.drop_last(), sets, before);
    }
}

/// The same steps a second time change nothing.
proof fn lemma_repeated<V>(
    steps: Seq<LayoutAction>,
    sets: spec_fn(LayoutAction) -> Option<V>,
    before: V,
)
    ensures
        after_steps(steps, sets, after_steps(steps, sets, before)) == after_steps(
            steps,
            sets,
            before,
        ),
    decreases steps.len(),
{
    if steps.len() > 0 && sets(steps.last()) is None {
        lemma_repeated(steps.drop_last(), sets, before);
    }
}

/// Sequences whose items give the same sequences in turn give the same together.
proof fn lemma_concat_map_same<A, B>(s: Seq<A>, t: Seq<A>, f: spec_fn(A) -> Seq<B>)
    requires
        s.len() == t.len(),
        forall|k: int| 0 <= k < s.len() ==> #[trigger] f(s[k]) == f(t[k]),
    ensures
        concat_map(s, f) == concat_map(t, f),
    decreases s.len(),
{
    if s.len() > 0 {
        assert forall|k: int| 0 <= k < s.drop_last().len() implies #[trigger] f(s.drop_last()[k])
            == f(t.drop_last()[k]) by {
            assert(f(s[k]) == f(t[k]));
        }
        lemma_concat_map_same(s.drop_last(), t.drop_last(), f);
        assert(f(s[s.len() - 1]) == f(t[s.len() - 1]));
    }
}

/// A filter keeps sequences in step, item by item, that it cannot tell apart.
proof fn lemma_filter_in_step<A>(
    s: Seq<A>,
    t: Seq<A>,
    p: spec_fn(A) -> bool,
    alike: spec_fn(A, A) -> bool,
)
    requires
        s.len() == t.len(),
        forall|k: int|
            0 <= k < s.len() ==> #[trigger] alike(s[k], t[k]) && p(s[k]) == p(t[k]),
    ensures
        s.filter(p).len() == t.filter(p).len(),
        forall|k: int|
            0 <= k < s.filter(p).len() ==> #[trigger] alike(s.filter(p)[k], t.filter(p)[k]) && p(
                s.filter(p)[k],
            ),
    decreases s.len(),
{
    reveal(Seq::filter);
    if s.len() > 0 {
        let s0 = s.drop_last();
        let t0 = t.drop_last();
        assert forall|k: int| 0 <= k < s0.len() implies #[trigger] alike(s0[k], t0[k]) && p(s0[k])
            == p(t0[k]) by {
            assert(alike(s[k], t[k]));
        }
        lemma_filter_in_step(s0, t0, p, alike);
        assert(alike(s[s.len() - 1], t[s.len() - 1]));
        assert forall|k: int| 0 <= k < s.filter(p).len() implies #[trigger] alike(
            s.filter(p)[k],
            t.filter(p)[k],
        ) && p(s.filter(p)[k]) by {
            if k < s0.filter(p).len() {
                assert(alike(s0.filter(p)[k], t0.filter(p)[k]));
            }
        }
    }
}

/// The two windows are laid out in the same way.
spec fn alike() -> spec_fn(WindowElement, WindowElement) -> bool {
    |a: WindowElement, b: WindowElement|
        {
            &&& a.key == b.key
            &&& a.underlying_surface == b.underlying_surface
            &&& a.takes_tile() == b.takes_tile()
            &&& a.state.layout_mode == b.state.layout_mode
        }
}

/// The two windows are laid out in the same way, and if they float they do so at the same
/// place.
spec fn alike_at(output: OutputKey, focused: Seq<TagId>) -> spec_fn(
    WindowElement,
    WindowElement,
) -> bool {
    |a: WindowElement, b: WindowElement|
        alike()(a, b) && (shown(output, focused)(a) ==> a.state.floating_loc
            == b.state.floating_loc)
}

/// The steps of an arrangement that hide windows.
spec fn hiding(windows: Seq<WindowElement>, output: OutputKey, focused: Seq<TagId>) -> Seq<
    LayoutAction,
> {
    concat_map(windows.filter(hidden(output, focused)), hide_steps())
}

/// The steps of an arrangement after those that hide windows.
spec fn placing(
    windows: Seq<WindowElement>,
    output: OutputKey,
    focused: Seq<TagId>,
    origin: Point,
    zone: Point,
    geometries: Seq<Rectangle>,
) -> Seq<LayoutAction> {
    let base = origin.plus(zone);
    let visible = windows.filter(shown(output, focused));
    concat_map(placements(visible.filter(tileable()), geometries), tile_steps(base)) + concat_map(
        visible,
        settle_steps(origin, base),
    ) + seq![LayoutAction::FixupZLayering]
}

/// An arrangement first hides windows, and the steps that do so give no window a place or a
/// size.
proof fn lemma_split(
    windows: Seq<WindowElement>,
    output: OutputKey,
    focused: Seq<TagId>,
    origin: Point,
    zone: Point,
    geometries: Seq<Rectangle>,
)
    ensures
        arrangement(windows, output, focused, origin, zone, geometries) == hiding(
            windows,
            output,
            focused,
        ) + placing(windows, output, focused, origin, zone, geometries),
        forall|a: LayoutAction| #[trigger]
            hiding(windows, output, focused).contains(a) ==> {
                &&& a is SaveFloatingLocation || a is UnmapElement || a is ScheduleRenderWhenIdle
                &&& arrangement(windows, output, focused, origin, zone, geometries).contains(a)
            },
{
    let base = origin.plus(zone);
    let visible = windows.filter(shown(output, focused));
    let h = hiding(windows, output, focused);
    let all = arrangement(windows, output, focused, origin, zone, geometries);
    assert(all =~= h + placing(windows, output, focused, origin, zone, geometries));
    lemma_kinds(
        windows.filter(hidden(output, focused)),
        placements(visible.filter(tileable()), geometries),
        visible,
        origin,
        base,
    );
    assert forall|a: LayoutAction| #[trigger] h.contains(a) implies {
        &&& a is SaveFloatingLocation || a is UnmapElement || a is ScheduleRenderWhenIdle
        &&& all.contains(a)
    } by {
        assert(all[h.index_of(a)] == a);
    }
}

/// Two arrangements of windows that are laid out in the same way differ at most in the
/// steps that hide windows.
proof fn lemma_same_placing(
    windows: Seq<WindowElement>,
    again: Seq<WindowElement>,
    output: OutputKey,
    focused: Seq<TagId>,
    origin: Point,
    zone: Point,
    geometries: Seq<Rectangle>,
)
    requires
        windows.len() == again.len(),
        forall|k: int|
            0 <= k < windows.len() ==> #[trigger] alike_at(output, focused)(windows[k], again[k])
                && shown(output, focused)(windows[k]) == shown(output, focused)(again[k]),
    ensures
        placing(windows, output, focused, origin, zone, geometries) == placing(
            again,
            output,
            focused,
            origin,
            zone,
            geometries,
        ),
{
    let base = origin.plus(zone);
    let p = shown(output, focused);
    let v1 = windows.filter(p);
    let v2 = again.filter(p);
    lemma_filter_in_step(windows, again, p, alike_at(output, focused));
    assert forall|k: int| 0 <= k < v1.len() implies #[trigger] settle_steps(origin, base)(v1[k])
        == settle_steps(origin, base)(v2[k]) by {
        assert(alike_at(output, focused)(v1[k], v2[k]));
    }
    lemma_concat_map_same(v1, v2, settle_steps(origin, base));
    assert forall|k: int| 0 <= k < v1.len() implies #[trigger] alike()(v1[k], v2[k]) && tileable()(
        v1[k],
    ) == tileable()(v2[k]) by {
        assert(alike_at(output, focused)(v1[k], v2[k]));
    }
    lemma_filter_in_step(v1, v2, tileable(), alike());
    let p1 = placements(v1.filter(tileable()), geometries);
    let p2 = placements(v2.filter(tileable()), geometries);
    assert forall|k: int| 0 <= k < p1.len() implies #[trigger] tile_steps(base)(p1[k])
        == tile_steps(base)(p2[k]) by {
        assert(alike()(v1.filter(tileable())[k], v2.filter(tileable())[k]));
    }
    lemma_concat_map_same(p1, p2, tile_steps(base));
}

/// What the steps that hide windows do not set, a second arrangement leaves as the first
/// did.
proof fn lemma_only_placed<V>(
    windows: Seq<WindowElement>,
    again: Seq<WindowElement>,
    output: OutputKey,
    focused: Seq<TagId>,
    origin: Point,
    zone: Point,
    geometries: Seq<Rectangle>,
    sets: spec_fn(LayoutAction) -> Option<V>,
    before: V,
)
    requires
        placing(windows, output, focused, origin, zone, geometries) == placing(
            again,
            output,
            focused,
            origin,
            zone,
            geometries,
        ),
        forall|a: LayoutAction| #[trigger]
            hiding(windows, output, focused).contains(a) ==> sets(a) is None,
        forall|a: LayoutAction| #[trigger]
            hiding(again, output, focused).contains(a) ==> sets(a) is None,
    ensures
        ({
            let first = arrangement(windows, output, focused, origin, zone, geometries);
            let second = arrangement(again, output, focused, origin, zone, geometries);
            after_steps(second, sets, after_steps(first, sets, before)) == after_steps(
                first,
                sets,
                before,
            )
        }),
{
    let h1 = hiding(windows, output, focused);
    let h2 = hiding(again, output, focused);
    let rest = placing(windows, output, focused, origin, zone, geometries);
    let once = after_steps(rest, sets, before);
    lemma_split(windows, output, focused, origin, zone, geometries);
    lemma_split(again, output, focused, origin, zone, geometries);
    lemma_after_add(h1, rest, sets, before);
    lemma_unset(h1, sets, before);
    lemma_after_add(h2, rest, sets, once);
    lemma_unset(h2, sets, once);
    lemma_repeated(rest, sets, before);
}

/// Arranging an output again with the same geometries changes nothing: after the second
/// time every window is where the first time left it, floats where the first time left it,
/// and has the size that the first time left it with.
pub proof fn law_arranging_again_changes_nothing(
    windows: Seq<WindowElement>,
    again: Seq<WindowElement>,
    output: OutputKey,
    focused: Seq<TagId>,
    origin: Point,
    zone: Point,
    geometries: Seq<Rectangle>,
    i: int,
    size: Option<Size>,
)
    requires
        told_apart(windows),
        windows.len() == again.len(),
        forall|k: int|
            0 <= k < windows.len() ==> performed(
                #[trigger] windows[k],
                arrangement(windows, output, focused, origin, zone, geometries),
                again[k],
            ),
        0 <= i < windows.len(),
    ensures
        ({
            let first = arrangement(windows, output, focused, origin, zone, geometries);
            let second = arrangement(again, output, focused, origin, zone, geometries);
            let w = again[i];
            &&& after_steps(second, sets_location(w.key), w.location) == w.location
            &&& after_steps(second, sets_floating(w.key), w.state.floating_loc)
                == w.state.floating_loc
            &&& after_steps(
                second,
                sets_size(w.key),
                after_steps(first, sets_size(w.key), size),
            ) == after_steps(first, sets_size(w.key), size)
        }),
{
    let first = arrangement(windows, output, focused, origin, zone, geometries);
    let second = arrangement(again, output, focused, origin, zone, geometries);
    let key = windows[i].key;
    assert(performed(windows[i], first, again[i]));
    lemma_still_told_apart(windows, first, again);
    lemma_alike(windows, again, output, focused, origin, zone, geometries);
    lemma_same_placing(windows, again, output, focused, origin, zone, geometries);
    lemma_split(windows, output, focused, origin, zone, geometries);
    lemma_split(again, output, focused, origin, zone, geometries);
    lemma_only_placed(
        windows,
        again,
        output,
        focused,
        origin,
        zone,
        geometries,
        sets_size(key),
        size,
    );
    if hidden(output, focused)(windows[i]) {
        lemma_hidden_is_out(windows, output, focused, origin, zone, geometries, i);
        lemma_hidden_is_out(again, output, focused, origin, zone, geometries, i);
        law_hidden_windows_are_unmapped(again, output, focused, origin, zone, geometries, i);
        assert forall|a: LayoutAction| #[trigger] second.contains(a) implies sets_floating(key)(
            a,
        ) is None by {
            if sets_floating(key)(a) is Some {
                assert(subject(a) == Some(key));
            }
        }
    } else {
        lemma_not_hidden(windows, output, focused, origin, zone, geometries, i);
        lemma_not_hidden(again, output, focused, origin, zone, geometries, i);
        lemma_only_placed(
            windows,
            again,
            output,
            focused,
            origin,
            zone,
            geometries,
            sets_location(key),
            windows[i].location,
        );
    }
    lemma_unset(second, sets_floating(key), again[i].state.floating_loc);
}

/// A floating window comes back where it was: the arrangement that hides it takes it out of
/// the space, and once one shows it again, with what was remembered still its place to
/// float, it is where it was before it was hidden. The output may have moved and its free
/// area may have changed in the meantime.
pub proof fn law_a_floating_window_comes_back_where_it_was(
    before: Seq<WindowElement>,
    hidden_by: Seq<TagId>,
    origin_before: Point,
    zone_before: Point,
    geometries_before: Seq<Rectangle>,
    i: int,
    after: Seq<WindowElement>,
    shown_by: Seq<TagId>,
    origin_after: Point,
    zone_after: Point,
    geometries_after: Seq<Rectangle>,
    j: int,
    output: OutputKey,
)
    requires
        told_apart(before),
        0 <= i < before.len(),
        before[i].on_output(output),
        !before[i].on_tags(hidden_by),
        before[i].state.layout_mode == LayoutModeKind::Floating,
        before[i].location is Some,
        told_apart(after),
        0 <= j < after.len(),
        after[j].key == before[i].key,
        after[j].on_output(output),
        after[j].on_tags(shown_by),
        after[j].state.layout_mode == LayoutModeKind::Floating,
        after[j].state.floating_loc == after_steps(
            arrangement(before, output, hidden_by, origin_before, zone_before, geometries_before),
            sets_floating(before[i].key),
            before[i].state.floating_loc,
        ),
    ensures
        after_steps(
            arrangement(before, output, hidden_by, origin_before, zone_before, geometries_before),
            sets_location(before[i].key),
            before[i].location,
        ) is None,
        after_steps(
            arrangement(after, output, shown_by, origin_after, zone_after, geometries_after),
            sets_location(before[i].key),
            after[j].location,
        ) == before[i].location,
{
    let key = before[i].key;
    let place = before[i].location->0;
    let first = arrangement(
        before,
        output,
        hidden_by,
        origin_before,
        zone_before,
        geometries_before,
    );
    let second = arrangement(
        after,
        output,
        shown_by,
        origin_after,
        zone_after,
        geometries_after,
    );
    lemma_hidden_is_out(
        before,
        output,
        hidden_by,
        origin_before,
        zone_before,
        geometries_before,
        i,
    );
    law_hidden_windows_are_unmapped(
        before,
        output,
        hidden_by,
        origin_before,
        zone_before,
        geometries_before,
        i,
    );
    assert forall|a: LayoutAction| #[trigger] first.contains(a) implies sets_floating(key)(
        a,
    ) is None || sets_floating(key)(a) == Some(Some(place)) by {
        if sets_floating(key)(a) is Some {
            assert(subject(a) == Some(key));
        }
    }
    lemma_set(
        first,
        sets_floating(key),
        before[i].state.floating_loc,
        Some(place),
        LayoutAction::SaveFloatingLocation { window: key, location: place },
    );
    law_other_modes_have_their_places(
        after,
        output,
        shown_by,
        origin_after,
        zone_after,
        geometries_after,
        j,
    );
    law_shown_windows_are_not_unmapped(
        after,
        output,
        shown_by,
        origin_after,
        zone_after,
        geometries_after,
        j,
    );
    assert forall|a: LayoutAction| #[trigger] second.contains(a) implies sets_location(key)(
        a,
    ) is None || sets_location(key)(a) == Some(Some(place)) by {
        if let LayoutAction::MapElement { window, location } = a {
            if window == key {
                assert(second.contains(LayoutAction::MapElement { window: key, location }));
            }
        } else if a is UnmapElement {
            assert(subject(a) is Some);
        }
    }
    lemma_set(
        second,
        sets_location(key),
        after[j].location,
        Some(place),
        LayoutAction::MapElement { window: key, location: place },
    );
}

/// Performing steps leaves windows told apart.
proof fn lemma_still_told_apart(
    windows: Seq<WindowElement>,
    steps: Seq<LayoutAction>,
    again: Seq<WindowElement>,
)
    requires
        told_apart(windows),
        windows.len() == again.len(),
        forall|k: int|
            0 <= k < windows.len() ==> performed(#[trigger] windows[k], steps, again[k]),
    ensures
        told_apart(again),
{
    assert forall|a: int, b: int|
        0 <= a < again.len() && 0 <= b < again.len() && #[trigger] again[a].key
            == #[trigger] again[b].key implies same_window(again[a], again[b]) by {
        assert(performed(windows[a], steps, again[a]));
        assert(performed(windows[b], steps, again[b]));
        assert(same_window(windows[a], windows[b]));
    }
}

/// The first arrangement leaves the windows to be laid out in the same way.
proof fn lemma_alike(
    windows: Seq<WindowElement>,
    again: Seq<WindowElement>,
    output: OutputKey,
    focused: Seq<TagId>,
    origin: Point,
    zone: Point,
    geometries: Seq<Rectangle>,
)
    requires
        told_apart(windows),
        windows.len() == again.len(),
        forall|k: int|
            0 <= k < windows.len() ==> performed(
                #[trigger] windows[k],
                arrangement(windows, output, focused, origin, zone, geometries),
                again[k],
            ),
    ensures
        forall|k: int|
            0 <= k < windows.len() ==> #[trigger] alike_at(output, focused)(windows[k], again[k])
                && shown(output, focused)(windows[k]) == shown(output, focused)(again[k]),
{
    let first = arrangement(windows, output, focused, origin, zone, geometries);
    assert forall|k: int| 0 <= k < windows.len() implies #[trigger] alike_at(output, focused)(
        windows[k],
        again[k],
    ) && shown(output, focused)(windows[k]) == shown(output, focused)(again[k]) by {
        let w = windows[k];
        assert(performed(w, first, again[k]));
        if shown(output, focused)(w) {
            lemma_not_hidden(windows, output, focused, origin, zone, geometries, k);
            lemma_unset(first, sets_floating(w.key), w.state.floating_loc);
        }
    }
}

/// No step hides a window that is shown or belongs to another output, or changes where it
/// floats.
proof fn lemma_not_hidden(
    windows: Seq<WindowElement>,
    output: OutputKey,
    focused: Seq<TagId>,
    origin: Point,
    zone: Point,
    geometries: Seq<Rectangle>,
    i: int,
)
    requires
        told_apart(windows),
        0 <= i < windows.len(),
        !hidden(output, focused)(windows[i]),
    ensures
        forall|a: LayoutAction| #[trigger]
            hiding(windows, output, focused).contains(a) ==> sets_location(windows[i].key)(
                a,
            ) is None,
        forall|a: LayoutAction| #[trigger]
            arrangement(windows, output, focused, origin, zone, geometries).contains(a)
                ==> sets_floating(windows[i].key)(a) is None,
{
    let all = arrangement(windows, output, focused, origin, zone, geometries);
    let key = windows[i].key;
    assert forall|a: LayoutAction| #[trigger] all.contains(a) && (a is UnmapElement
        || a is SaveFloatingLocation) implies subject(a) != Some(key) by {
        if subject(a) == Some(key) {
            if windows[i].on_tags(focused) {
                law_shown_windows_are_not_unmapped(
                    windows,
                    output,
                    focused,
                    origin,
                    zone,
                    geometries,
                    i,
                );
            } else {
                let at = lemma_origin(windows, output, focused, origin, zone, geometries, a);
                assert(same_window(windows[i], windows[at.0]));
            }
        }
    }
    lemma_split(windows, output, focused, origin, zone, geometries);
}

/// A hidden window is out of the space afterwards.
proof fn lemma_hidden_is_out(
    windows: Seq<WindowElement>,
    output: OutputKey,
    focused: Seq<TagId>,
    origin: Point,
    zone: Point,
    geometries: Seq<Rectangle>,
    i: int,
)
    requires
        told_apart(windows),
        0 <= i < windows.len(),
        windows[i].on_output(output),
        !windows[i].on_tags(focused),
    ensures
        after_steps(
            arrangement(windows, output, focused, origin, zone, geometries),
            sets_location(windows[i].key),
            windows[i].location,
        ) is None,
{
    let all = arrangement(windows, output, focused, origin, zone, geometries);
    let key = windows[i].key;
    law_hidden_windows_are_unmapped(windows, output, focused, origin, zone, geometries, i);
    assert forall|a: LayoutAction| #[trigger] all.contains(a) implies sets_location(key)(a) is None
        || sets_location(key)(a) == Some(None::<Point>) by {
        if a is MapElement {
            assert(subject(a) is Some);
        }
    }
    lemma_set(
        all,
        sets_location(key),
        windows[i].location,
        None,
        LayoutAction::UnmapElement { window: key },
    );
}

} // verus!
