//! What holds of every arrangement.

use vstd::prelude::*;

use crate::geometry::{Point, Rectangle};
use crate::layout::arrange::{
    arrangement, hidden, hide_steps, placements, settle_steps, settled_at, shown, tile_steps,
    tileable, LayoutAction,
};
use crate::layout::order::{
    distinct_windows, exchanged, is_window, law_swap_is_symmetric, law_swap_needs_two_windows,
    same_window, swapped, told_apart, window_position,
};
use crate::layout::request::counted;
use crate::output::OutputKey;
use crate::seqs::{
    concat_map, is_first_where, lemma_concat_map_push, lemma_concat_map_source,
    lemma_concat_map_target, lemma_first_where_is, lemma_first_where_some,
};
use crate::tags::TagId;
use crate::window::{LayoutModeKind, WindowElement, WindowKey, WindowSurface};

verus! {

/// The window that a step is about, if it is about one.
pub open spec fn subject(action: LayoutAction) -> Option<WindowKey> {
    match action {
        LayoutAction::SaveFloatingLocation { window, .. } => Some(window),
        LayoutAction::UnmapElement { window } => Some(window),
        LayoutAction::ScheduleRenderWhenIdle { .. } => None,
        LayoutAction::SetTiledStates { window } => Some(window),
        LayoutAction::SetPendingSize { window, .. } => Some(window),
        LayoutAction::ConfigureX11 { window, .. } => Some(window),
        LayoutAction::MapElement { window, .. } => Some(window),
        LayoutAction::SendPendingConfigure { window } => Some(window),
        LayoutAction::FixupZLayering => None,
    }
}

/// An item of a filtered sequence stands in the sequence and passes the filter.
proof fn lemma_filter_source<A>(s: Seq<A>, p: spec_fn(A) -> bool, k: int) -> (i: int)
    requires
        0 <= k < s.filter(p).len(),
    ensures
        0 <= i < s.len(),
        s[i] == s.filter(p)[k],
        p(s[i]),
{
    s.lemma_filter_pred(p, k);
    assert(s.filter(p).contains(s.filter(p)[k]));
    s.lemma_filter_contains_rev(p, s.filter(p)[k]);
    s.index_of(s.filter(p)[k])
}

/// An item that passes the filter stands in the filtered sequence.
proof fn lemma_filter_target<A>(s: Seq<A>, p: spec_fn(A) -> bool, i: int) -> (k: int)
    requires
        0 <= i < s.len(),
        p(s[i]),
    ensures
        0 <= k < s.filter(p).len(),
        s.filter(p)[k] == s[i],
{
    s.lemma_filter_contains(p, i);
    s.filter(p).index_of(s[i])
}

/// A filter does not let a window stand in the order twice.
proof fn lemma_filter_distinct(s: Seq<WindowElement>, p: spec_fn(WindowElement) -> bool)
    requires
        distinct_windows(s),
    ensures
        distinct_windows(s.filter(p)),
    decreases s.len(),
{
    reveal(Seq::filter);
    if s.len() > 0 {
        let front = s.drop_last();
        lemma_filter_distinct(front, p);
        if p(s.last()) {
            let f = front.filter(p);
            assert forall|i: int, j: int| 0 <= i < j < f.push(s.last()).len() implies #[trigger] f.push(
                s.last(),
            )[i].key != #[trigger] f.push(s.last())[j].key by {
                if j == f.len() {
                    let m = lemma_filter_source(front, p, i);
                    assert(s[m].key != s[s.len() - 1].key);
                }
            }
        }
    }
}

/// Two windows of a sequence without repetitions with one key are one.
proof fn lemma_same_key(s: Seq<WindowElement>, i: int, j: int)
    requires
        distinct_windows(s),
        0 <= i < s.len(),
        0 <= j < s.len(),
        s[i].key == s[j].key,
    ensures
        i == j,
{
    if i < j {
        assert(s[i].key != s[j].key);
    }
    if j < i {
        assert(s[j].key != s[i].key);
    }
}

/// A step of an arrangement hides a window, places a tiled one, or settles a shown one.
pub(crate) proof fn lemma_origin(
    windows: Seq<WindowElement>,
    output: OutputKey,
    focused: Seq<TagId>,
    origin: Point,
    zone: Point,
    geometries: Seq<Rectangle>,
    action: LayoutAction,
) -> (at: (int, int))
    requires
        arrangement(windows, output, focused, origin, zone, geometries).contains(action),
        subject(action) is Some,
    ensures
        0 <= at.0 < windows.len(),
        subject(action) == Some(windows[at.0].key),
        ({
            let w = windows[at.0];
            let base = origin.plus(zone);
            let tiled = windows.filter(shown(output, focused)).filter(tileable());
            ||| hidden(output, focused)(w) && hide_steps()(w).contains(action)
            ||| {
                &&& shown(output, focused)(w)
                &&& 0 <= at.1 < placements(tiled, geometries).len()
                &&& tiled[at.1] == w
                &&& tile_steps(base)(placements(tiled, geometries)[at.1]).contains(action)
            }
            ||| shown(output, focused)(w) && settle_steps(origin, base)(w).contains(action)
        }),
{
    let base = origin.plus(zone);
    let visible = windows.filter(shown(output, focused));
    let invisible = windows.filter(hidden(output, focused));
    let tiled = visible.filter(tileable());
    let placed = placements(tiled, geometries);
    let h = concat_map(invisible, hide_steps());
    let p = concat_map(placed, tile_steps(base));
    let s = concat_map(visible, settle_steps(origin, base));
    let all = arrangement(windows, output, focused, origin, zone, geometries);
    let n = all.index_of(action);
    assert(all[n] == action);
    if n < h.len() {
        assert(h[n] == action);
        let k = lemma_concat_map_source(invisible, hide_steps(), action);
        let i = lemma_filter_source(windows, hidden(output, focused), k);
        (i, 0)
    } else if n < h.len() + p.len() {
        assert(p[n - h.len()] == action);
        let k = lemma_concat_map_source(placed, tile_steps(base), action);
        let m = lemma_filter_source(visible, tileable(), k);
        let i = lemma_filter_source(windows, shown(output, focused), m);
        (i, k)
    } else {
        assert(n < h.len() + p.len() + s.len());
        assert(s[n - h.len() - p.len()] == action);
        let k = lemma_concat_map_source(visible, settle_steps(origin, base), action);
        let i = lemma_filter_source(windows, shown(output, focused), k);
        (i, 0)
    }
}

/// The kinds of steps that each part of an arrangement holds.
pub(crate) proof fn lemma_kinds(
    invisible: Seq<WindowElement>,
    placed: Seq<(WindowElement, Rectangle)>,
    visible: Seq<WindowElement>,
    origin: Point,
    base: Point,
)
    ensures
        forall|a: LayoutAction| #[trigger]
            concat_map(invisible, hide_steps()).contains(a) ==> a is SaveFloatingLocation
                || a is UnmapElement || a is ScheduleRenderWhenIdle,
        forall|a: LayoutAction| #[trigger]
            concat_map(placed, tile_steps(base)).contains(a) ==> a is SetTiledStates
                || a is SetPendingSize || a is ConfigureX11 || a is MapElement,
        forall|a: LayoutAction| #[trigger]
            concat_map(visible, settle_steps(origin, base)).contains(a)
                ==> a is SendPendingConfigure || a is MapElement,
{
    assert forall|a: LayoutAction| #[trigger]
        concat_map(invisible, hide_steps()).contains(a) implies a is SaveFloatingLocation
        || a is UnmapElement || a is ScheduleRenderWhenIdle by {
        let k = lemma_concat_map_source(invisible, hide_steps(), a);
        let steps = hide_steps()(invisible[k]);
        assert(steps[steps.index_of(a)] == a);
    }
    assert forall|a: LayoutAction| #[trigger]
        concat_map(placed, tile_steps(base)).contains(a) implies a is SetTiledStates
        || a is SetPendingSize || a is ConfigureX11 || a is MapElement by {
        let k = lemma_concat_map_source(placed, tile_steps(base), a);
        let steps = tile_steps(base)(placed[k]);
        assert(steps[steps.index_of(a)] == a);
    }
    assert forall|a: LayoutAction| #[trigger]
        concat_map(visible, settle_steps(origin, base)).contains(a) implies a is SendPendingConfigure
        || a is MapElement by {
        let k = lemma_concat_map_source(visible, settle_steps(origin, base), a);
        let steps = settle_steps(origin, base)(visible[k]);
        assert(steps[steps.index_of(a)] == a);
    }
}

/// What the three parts of an arrangement hold, the arrangement holds.
proof fn lemma_parts(
    windows: Seq<WindowElement>,
    output: OutputKey,
    focused: Seq<TagId>,
    origin: Point,
    zone: Point,
    geometries: Seq<Rectangle>,
    action: LayoutAction,
)
    requires
        ({
            let base = origin.plus(zone);
            let visible = windows.filter(shown(output, focused));
            ||| concat_map(windows.filter(hidden(output, focused)), hide_steps()).contains(action)
            ||| concat_map(
                placements(visible.filter(tileable()), geometries),
                tile_steps(base),
            ).contains(action)
            ||| concat_map(visible, settle_steps(origin, base)).contains(action)
        }),
    ensures
        arrangement(windows, output, focused, origin, zone, geometries).contains(action),
{
    let base = origin.plus(zone);
    let visible = windows.filter(shown(output, focused));
    let h = concat_map(windows.filter(hidden(output, focused)), hide_steps());
    let p = concat_map(placements(visible.filter(tileable()), geometries), tile_steps(base));
    let s = concat_map(visible, settle_steps(origin, base));
    let all = arrangement(windows, output, focused, origin, zone, geometries);
    if h.contains(action) {
        let n = h.index_of(action);
        assert(all[n] == action);
    } else if p.contains(action) {
        let n = p.index_of(action);
        assert(all[h.len() + n] == action);
    } else {
        let n = s.index_of(action);
        assert(all[h.len() + p.len() + n] == action);
    }
}

/// An arrangement of one output is about the windows of that output only: those of
/// other outputs, and those without an output, are left alone.
pub proof fn law_other_outputs_are_left_alone(
    windows: Seq<WindowElement>,
    output: OutputKey,
    focused: Seq<TagId>,
    origin: Point,
    zone: Point,
    geometries: Seq<Rectangle>,
    action: LayoutAction,
)
    requires
        arrangement(windows, output, focused, origin, zone, geometries).contains(action),
        subject(action) is Some,
    ensures
        exists|i: int|
            #![trigger windows[i]]
            0 <= i < windows.len() && subject(action) == Some(windows[i].key)
                && windows[i].on_output(output),
{
    let at = lemma_origin(windows, output, focused, origin, zone, geometries, action);
    assert(windows[at.0].on_output(output));
}

/// A window that the focused tags do not show leaves the space, is mapped nowhere and
/// is sent nothing; the place of a floating one is remembered.
pub proof fn law_hidden_windows_are_unmapped(
    windows: Seq<WindowElement>,
    output: OutputKey,
    focused: Seq<TagId>,
    origin: Point,
    zone: Point,
    geometries: Seq<Rectangle>,
    i: int,
)
    requires
        told_apart(windows),
        0 <= i < windows.len(),
        windows[i].on_output(output),
        !windows[i].on_tags(focused),
    ensures
        ({
            let all = arrangement(windows, output, focused, origin, zone, geometries);
            let w = windows[i];
            &&& all.contains(LayoutAction::UnmapElement { window: w.key })
            &&& w.state.layout_mode == LayoutModeKind::Floating && w.location is Some
                ==> all.contains(
                LayoutAction::SaveFloatingLocation { window: w.key, location: w.location->0 },
            )
            &&& forall|a: LayoutAction| #[trigger]
                all.contains(a) && subject(a) == Some(w.key) ==> a == (
                LayoutAction::UnmapElement { window: w.key }) || {
                    &&& w.state.layout_mode == LayoutModeKind::Floating
                    &&& w.location is Some
                    &&& a == LayoutAction::SaveFloatingLocation {
                        window: w.key,
                        location: w.location->0,
                    }
                }
        }),
{
    let all = arrangement(windows, output, focused, origin, zone, geometries);
    let w = windows[i];
    let invisible = windows.filter(hidden(output, focused));
    let k = lemma_filter_target(windows, hidden(output, focused), i);
    let steps = hide_steps()(w);
    let unmap = LayoutAction::UnmapElement { window: w.key };
    if w.state.layout_mode == LayoutModeKind::Floating && w.location is Some {
        let save = LayoutAction::SaveFloatingLocation { window: w.key, location: w.location->0 };
        assert(steps[0] == save);
        assert(steps[1] == unmap);
        lemma_concat_map_target(invisible, hide_steps(), k, save);
        lemma_parts(windows, output, focused, origin, zone, geometries, save);
    } else {
        assert(steps[0] == unmap);
    }
    lemma_concat_map_target(invisible, hide_steps(), k, unmap);
    lemma_parts(windows, output, focused, origin, zone, geometries, unmap);
    assert forall|a: LayoutAction| #[trigger]
        all.contains(a) && subject(a) == Some(w.key) implies a == unmap || {
        &&& w.state.layout_mode == LayoutModeKind::Floating
        &&& w.location is Some
        &&& a == LayoutAction::SaveFloatingLocation { window: w.key, location: w.location->0 }
    } by {
        let at = lemma_origin(windows, output, focused, origin, zone, geometries, a);
        assert(same_window(windows[i], windows[at.0]));
        let there = hide_steps()(windows[at.0]);
        assert(there[there.index_of(a)] == a);
    }
}

/// A window that the focused tags show is not taken out of the space, and what is known
/// of where it floats stays as it is.
pub proof fn law_shown_windows_are_not_unmapped(
    windows: Seq<WindowElement>,
    output: OutputKey,
    focused: Seq<TagId>,
    origin: Point,
    zone: Point,
    geometries: Seq<Rectangle>,
    i: int,
)
    requires
        told_apart(windows),
        0 <= i < windows.len(),
        windows[i].on_tags(focused),
    ensures
        forall|a: LayoutAction| #[trigger]
            arrangement(windows, output, focused, origin, zone, geometries).contains(a) && subject(a)
                == Some(windows[i].key) ==> !(a is UnmapElement) && !(a is SaveFloatingLocation),
{
    let all = arrangement(windows, output, focused, origin, zone, geometries);
    let w = windows[i];
    assert forall|a: LayoutAction| #[trigger]
        all.contains(a) && subject(a) == Some(w.key) implies !(a is UnmapElement) && !(
    a is SaveFloatingLocation) by {
        let at = lemma_origin(windows, output, focused, origin, zone, geometries, a);
        assert(same_window(windows[i], windows[at.0]));
        let base = origin.plus(zone);
        let tiled = windows.filter(shown(output, focused)).filter(tileable());
        let settle = settle_steps(origin, base)(windows[at.0]);
        if settle.contains(a) {
            assert(settle[settle.index_of(a)] == a);
        } else {
            let steps = tile_steps(base)(placements(tiled, geometries)[at.1]);
            assert(steps[steps.index_of(a)] == a);
        }
    }
}

/// A step that maps a shown window maps it where its mode puts it, or, where it is tiled,
/// at the place of a geometry that it gets.
proof fn lemma_mapped_place(
    windows: Seq<WindowElement>,
    output: OutputKey,
    focused: Seq<TagId>,
    origin: Point,
    zone: Point,
    geometries: Seq<Rectangle>,
    i: int,
    location: Point,
) -> (n: int)
    requires
        told_apart(windows),
        0 <= i < windows.len(),
        windows[i].on_tags(focused),
        arrangement(windows, output, focused, origin, zone, geometries).contains(
            LayoutAction::MapElement { window: windows[i].key, location },
        ),
    ensures
        ({
            let base = origin.plus(zone);
            let tiled = windows.filter(shown(output, focused)).filter(tileable());
            ||| settled_at(windows[i], origin, base) == Some(location)
            ||| {
                &&& windows[i].takes_tile()
                &&& 0 <= n < tiled.len() && n < geometries.len()
                &&& tiled[n].key == windows[i].key
                &&& location == geometries[n].moved(base).loc
            }
        }),
{
    let base = origin.plus(zone);
    let tiled = windows.filter(shown(output, focused)).filter(tileable());
    let a = LayoutAction::MapElement { window: windows[i].key, location };
    let at = lemma_origin(windows, output, focused, origin, zone, geometries, a);
    assert(same_window(windows[i], windows[at.0]));
    let settle = settle_steps(origin, base)(windows[at.0]);
    if settle.contains(a) {
        assert(settle[settle.index_of(a)] == a);
    } else {
        let steps = tile_steps(base)(placements(tiled, geometries)[at.1]);
        assert(steps[steps.index_of(a)] == a);
        let m = lemma_filter_source(windows.filter(shown(output, focused)), tileable(), at.1);
    }
    at.1
}

/// The tiled windows get the geometries in order. Each is mapped at the place that its
/// geometry has in the free area of the output, and nowhere else; one for which no
/// geometry is left is not mapped. A window that stands in the order more than once gets a
/// geometry each time.
pub proof fn law_tiled_windows_get_their_places(
    windows: Seq<WindowElement>,
    output: OutputKey,
    focused: Seq<TagId>,
    origin: Point,
    zone: Point,
    geometries: Seq<Rectangle>,
    n: int,
)
    requires
        told_apart(windows),
        0 <= n < windows.filter(shown(output, focused)).filter(tileable()).len(),
    ensures
        ({
            let all = arrangement(windows, output, focused, origin, zone, geometries);
            let w = windows.filter(shown(output, focused)).filter(tileable())[n];
            let place = geometries[n].moved(origin.plus(zone));
            &&& n < geometries.len() ==> all.contains(
                LayoutAction::MapElement { window: w.key, location: place.loc },
            )
            &&& n < geometries.len() && w.underlying_surface == WindowSurface::Wayland
                ==> all.contains(
                LayoutAction::SetPendingSize { window: w.key, size: place.size },
            )
            &&& n < geometries.len() && w.underlying_surface == WindowSurface::X11 ==> all.contains(
                LayoutAction::ConfigureX11 { window: w.key, geometry: place },
            )
            &&& forall|location: Point| #[trigger]
                all.contains(LayoutAction::MapElement { window: w.key, location }) ==> exists|k: int|
                    {
                        &&& 0 <= k < geometries.len() && k < windows.filter(
                            shown(output, focused),
                        ).filter(tileable()).len()
                        &&& windows.filter(shown(output, focused)).filter(tileable())[k].key
                            == w.key
                        &&& location == (#[trigger] geometries[k]).moved(origin.plus(zone)).loc
                    }
            &&& distinct_windows(windows) ==> forall|location: Point| #[trigger]
                all.contains(LayoutAction::MapElement { window: w.key, location }) ==> n
                    < geometries.len() && location == place.loc
        }),
{
    let base = origin.plus(zone);
    let all = arrangement(windows, output, focused, origin, zone, geometries);
    let visible = windows.filter(shown(output, focused));
    let tiled = visible.filter(tileable());
    let placed = placements(tiled, geometries);
    let w = tiled[n];
    let place = geometries[n].moved(base);
    if n < geometries.len() {
        let steps = tile_steps(base)(placed[n]);
        assert(placed[n] == (w, geometries[n]));
        assert(steps.contains(steps[1]));
        assert(steps.contains(steps[2]));
        lemma_concat_map_target(placed, tile_steps(base), n, steps[1]);
        lemma_concat_map_target(placed, tile_steps(base), n, steps[2]);
        lemma_parts(windows, output, focused, origin, zone, geometries, steps[1]);
        lemma_parts(windows, output, focused, origin, zone, geometries, steps[2]);
    }
    let m = lemma_filter_source(visible, tileable(), n);
    let i = lemma_filter_source(windows, shown(output, focused), m);
    assert forall|location: Point| #[trigger]
        all.contains(LayoutAction::MapElement { window: w.key, location }) implies exists|k: int|
        {
            &&& 0 <= k < geometries.len() && k < tiled.len()
            &&& tiled[k].key == w.key
            &&& location == (#[trigger] geometries[k]).moved(base).loc
        } by {
        let k = lemma_mapped_place(
            windows,
            output,
            focused,
            origin,
            zone,
            geometries,
            i,
            location,
        );
        assert(location == geometries[k].moved(base).loc);
    }
    if distinct_windows(windows) {
        lemma_filter_distinct(windows, shown(output, focused));
        lemma_filter_distinct(visible, tileable());
        assert forall|location: Point| #[trigger]
            all.contains(LayoutAction::MapElement { window: w.key, location }) implies n
            < geometries.len() && location == place.loc by {
            let k = choose|k: int|
                {
                    &&& 0 <= k < geometries.len() && k < tiled.len()
                    &&& tiled[k].key == w.key
                    &&& location == (#[trigger] geometries[k]).moved(base).loc
                };
            lemma_same_key(tiled, n, k);
        }
    }
}

/// A shown window that is not tiled is mapped where its mode puts it: a floating one
/// at its own place, a maximized one at the free area and a fullscreen one at the
/// corner of the output. Where windows are told apart, it is mapped nowhere else.
pub proof fn law_other_modes_have_their_places(
    windows: Seq<WindowElement>,
    output: OutputKey,
    focused: Seq<TagId>,
    origin: Point,
    zone: Point,
    geometries: Seq<Rectangle>,
    i: int,
)
    requires
        0 <= i < windows.len(),
        windows[i].on_output(output),
        windows[i].on_tags(focused),
        settled_at(windows[i], origin, origin.plus(zone)) is Some,
    ensures
        arrangement(windows, output, focused, origin, zone, geometries).contains(
            LayoutAction::MapElement {
                window: windows[i].key,
                location: settled_at(windows[i], origin, origin.plus(zone))->0,
            },
        ),
        told_apart(windows) ==> forall|location: Point| #[trigger]
            arrangement(windows, output, focused, origin, zone, geometries).contains(
                LayoutAction::MapElement { window: windows[i].key, location },
            ) ==> settled_at(windows[i], origin, origin.plus(zone)) == Some(location),
{
    let base = origin.plus(zone);
    let visible = windows.filter(shown(output, focused));
    let k = lemma_filter_target(windows, shown(output, focused), i);
    let steps = settle_steps(origin, base)(windows[i]);
    let a = LayoutAction::MapElement {
        window: windows[i].key,
        location: settled_at(windows[i], origin, base)->0,
    };
    assert(steps[steps.len() - 1] == a);
    lemma_concat_map_target(visible, settle_steps(origin, base), k, a);
    lemma_parts(windows, output, focused, origin, zone, geometries, a);
    if told_apart(windows) {
        let all = arrangement(windows, output, focused, origin, zone, geometries);
        assert forall|location: Point| #[trigger]
            all.contains(LayoutAction::MapElement { window: windows[i].key, location }) implies settled_at(
            windows[i],
            origin,
            base,
        ) == Some(location) by {
            lemma_mapped_place(windows, output, focused, origin, zone, geometries, i, location);
        }
    }
}

/// The sizes of tiled windows are set before any state is sent, so that what is sent
/// holds them, and the stacking order is brought up to date once, at the end.
pub proof fn law_sizes_are_set_before_states_are_sent(
    windows: Seq<WindowElement>,
    output: OutputKey,
    focused: Seq<TagId>,
    origin: Point,
    zone: Point,
    geometries: Seq<Rectangle>,
)
    ensures
        ({
            let all = arrangement(windows, output, focused, origin, zone, geometries);
            &&& forall|i: int, j: int|
                0 <= i < all.len() && 0 <= j < all.len() && #[trigger] all[i] is SetPendingSize
                    && #[trigger] all[j] is SendPendingConfigure ==> i < j
            &&& forall|i: int|
                0 <= i < all.len() ==> (#[trigger] all[i] is FixupZLayering <==> i == all.len() - 1)
        }),
{
    let base = origin.plus(zone);
    let visible = windows.filter(shown(output, focused));
    let invisible = windows.filter(hidden(output, focused));
    let placed = placements(visible.filter(tileable()), geometries);
    let h = concat_map(invisible, hide_steps());
    let p = concat_map(placed, tile_steps(base));
    let s = concat_map(visible, settle_steps(origin, base));
    let all = arrangement(windows, output, focused, origin, zone, geometries);
    lemma_kinds(invisible, placed, visible, origin, base);
    assert forall|i: int| 0 <= i < h.len() implies h.contains(#[trigger] h[i]) by {
    }
    assert forall|i: int| 0 <= i < p.len() implies p.contains(#[trigger] p[i]) by {
    }
    assert forall|i: int| 0 <= i < s.len() implies s.contains(#[trigger] s[i]) by {
    }
    assert forall|i: int| 0 <= i < all.len() implies #[trigger] all[i] == if i < h.len() {
        h[i]
    } else if i < h.len() + p.len() {
        p[i - h.len()]
    } else if i < h.len() + p.len() + s.len() {
        s[i - h.len() - p.len()]
    } else {
        LayoutAction::FixupZLayering
    } by {
    }
}

/// The window whose pending state a step sends, if it sends one.
pub open spec fn asked() -> spec_fn(LayoutAction) -> Option<WindowKey> {
    |a: LayoutAction|
        match a {
            LayoutAction::SendPendingConfigure { window } => Some(window),
            _ => None,
        }
}

/// Holds of the windows that speak Wayland.
pub open spec fn speaks_wayland() -> spec_fn(WindowElement) -> bool {
    |w: WindowElement| w.underlying_surface == WindowSurface::Wayland
}

/// The keys of the windows.
pub open spec fn keys(windows: Seq<WindowElement>) -> Seq<WindowKey> {
    windows.map_values(|w: WindowElement| w.key)
}

proof fn lemma_asked_push(s: Seq<LayoutAction>, a: LayoutAction)
    ensures
        s.push(a).filter_map(asked()) == match asked()(a) {
            Some(k) => s.filter_map(asked()).push(k),
            None => s.filter_map(asked()),
        },
{
    assert(s.push(a).drop_last() =~= s);
}

proof fn lemma_asked_add(s: Seq<LayoutAction>, t: Seq<LayoutAction>)
    ensures
        (s + t).filter_map(asked()) == s.filter_map(asked()) + t.filter_map(asked()),
    decreases t.len(),
{
    if t.len() == 0 {
        assert(s + t =~= s);
        assert(s.filter_map(asked()) + t.filter_map(asked()) =~= s.filter_map(asked()));
    } else {
        let front = t.drop_last();
        lemma_asked_add(s, front);
        assert(s + t =~= (s + front).push(t.last()));
        assert(t =~= front.push(t.last()));
        lemma_asked_push(s + front, t.last());
        lemma_asked_push(front, t.last());
        assert((s + t).filter_map(asked()) =~= s.filter_map(asked()) + t.filter_map(asked()));
    }
}

proof fn lemma_asked_none(s: Seq<LayoutAction>)
    requires
        forall|i: int| 0 <= i < s.len() ==> !(#[trigger] s[i] is SendPendingConfigure),
    ensures
        s.filter_map(asked()) == Seq::<WindowKey>::empty(),
    decreases s.len(),
{
    if s.len() > 0 {
        lemma_asked_none(s.drop_last());
        assert(s =~= s.drop_last().push(s.last()));
        lemma_asked_push(s.drop_last(), s.last());
    }
}

proof fn lemma_asked_settle(ws: Seq<WindowElement>, origin: Point, base: Point)
    ensures
        concat_map(ws, settle_steps(origin, base)).filter_map(asked()) == keys(
            ws.filter(speaks_wayland()),
        ),
    decreases ws.len(),
{
    reveal(Seq::filter);
    if ws.len() == 0 {
        assert(keys(ws.filter(speaks_wayland())) =~= Seq::empty());
    } else {
        let front = ws.drop_last();
        let w = ws.last();
        let steps = settle_steps(origin, base)(w);
        lemma_asked_settle(front, origin, base);
        assert(ws =~= front.push(w));
        lemma_concat_map_push(front, settle_steps(origin, base), w);
        lemma_asked_add(concat_map(front, settle_steps(origin, base)), steps);
        if w.underlying_surface == WindowSurface::Wayland {
            let rest = steps.drop_first();
            assert(steps =~= seq![LayoutAction::SendPendingConfigure { window: w.key }] + rest);
            assert forall|i: int| 0 <= i < rest.len() implies !(
            #[trigger] rest[i] is SendPendingConfigure) by {
                assert(rest[i] == steps[i + 1]);
            }
            lemma_asked_none(rest);
            lemma_asked_add(seq![LayoutAction::SendPendingConfigure { window: w.key }], rest);
            assert(Seq::<LayoutAction>::empty().push(
                LayoutAction::SendPendingConfigure { window: w.key },
            ) =~= seq![LayoutAction::SendPendingConfigure { window: w.key }]);
            lemma_asked_push(
                Seq::empty(),
                LayoutAction::SendPendingConfigure { window: w.key },
            );
            assert(steps.filter_map(asked()) =~= seq![w.key]);
            assert(keys(ws.filter(speaks_wayland())) =~= keys(
                front.filter(speaks_wayland()),
            ).push(w.key));
        } else {
            lemma_asked_none(steps);
        }
    }
}

/// Every shown window that speaks Wayland is sent its state once, in the order of the
/// windows, and no other window is sent one.
pub proof fn law_every_shown_client_is_asked_once(
    windows: Seq<WindowElement>,
    output: OutputKey,
    focused: Seq<TagId>,
    origin: Point,
    zone: Point,
    geometries: Seq<Rectangle>,
)
    ensures
        arrangement(windows, output, focused, origin, zone, geometries).filter_map(asked()) == keys(
            windows.filter(shown(output, focused)).filter(speaks_wayland()),
        ),
{
    let base = origin.plus(zone);
    let visible = windows.filter(shown(output, focused));
    let invisible = windows.filter(hidden(output, focused));
    let placed = placements(visible.filter(tileable()), geometries);
    let h = concat_map(invisible, hide_steps());
    let p = concat_map(placed, tile_steps(base));
    let s = concat_map(visible, settle_steps(origin, base));
    let z = seq![LayoutAction::FixupZLayering];
    lemma_kinds(invisible, placed, visible, origin, base);
    assert forall|i: int| 0 <= i < h.len() implies !(#[trigger] h[i] is SendPendingConfigure) by {
        assert(h.contains(h[i]));
    }
    assert forall|i: int| 0 <= i < p.len() implies !(#[trigger] p[i] is SendPendingConfigure) by {
        assert(p.contains(p[i]));
    }
    lemma_asked_none(h);
    lemma_asked_none(p);
    lemma_asked_none(z);
    lemma_asked_settle(visible, origin, base);
    lemma_asked_add(h + p + s, z);
    lemma_asked_add(h + p, s);
    lemma_asked_add(h, p);
    assert(arrangement(windows, output, focused, origin, zone, geometries).filter_map(asked())
        =~= s.filter_map(asked()));
}

/// Where the focused tags show windows of this output only, the number of windows in a
/// request is the number of windows that the layout gives places to: a client that
/// answers with as many geometries has a place for each of them, and none to spare.
pub proof fn law_a_request_counts_the_tiles(
    windows: Seq<WindowElement>,
    output: OutputKey,
    focused: Seq<TagId>,
)
    requires
        forall|i: int|
            0 <= i < windows.len() && #[trigger] windows[i].on_tags(focused)
                ==> windows[i].on_output(output),
    ensures
        windows.filter(counted(focused)) == windows.filter(shown(output, focused)).filter(
            tileable(),
        ),
        forall|geometries: Seq<Rectangle>|
            geometries.len() == windows.filter(counted(focused)).len() ==> #[trigger] placements(
                windows.filter(shown(output, focused)).filter(tileable()),
                geometries,
            ).len() == windows.filter(counted(focused)).len(),
    decreases windows.len(),
{
    reveal(Seq::filter);
    if windows.len() > 0 {
        let front = windows.drop_last();
        let w = windows.last();
        assert forall|i: int| 0 <= i < front.len() && #[trigger] front[i].on_tags(
            focused,
        ) implies front[i].on_output(output) by {
            assert(windows[i].on_tags(focused));
        }
        law_a_request_counts_the_tiles(front, output, focused);
        assert(windows[windows.len() - 1] == w);
        if shown(output, focused)(w) {
            let f = front.filter(shown(output, focused));
            assert(f.push(w).drop_last() =~= f);
        }
    }
}

/// Exchanging two items that pass a filter exchanges them in what the filter lets
/// through.
proof fn lemma_filter_exchange<A>(s: Seq<A>, p: spec_fn(A) -> bool, i: int, j: int) -> (at: (
    int,
    int,
))
    requires
        0 <= i < j < s.len(),
        p(s[i]),
        p(s[j]),
    ensures
        0 <= at.0 < at.1 < s.filter(p).len(),
        s.filter(p)[at.0] == s[i],
        s.filter(p)[at.1] == s[j],
        s.filter(p).take(at.0) == s.take(i).filter(p),
        s.filter(p).take(at.1) == s.take(j).filter(p),
        exchanged(s, i, j).filter(p) == exchanged(s.filter(p), at.0, at.1),
{
    let a = s.take(i);
    let b = s.subrange(i + 1, j);
    let c = s.skip(j + 1);
    let x = seq![s[i]];
    let y = seq![s[j]];
    assert(s =~= a + x + b + y + c);
    assert(exchanged(s, i, j) =~= a + y + b + x + c);
    lemma_filter_single(s[i], p);
    lemma_filter_single(s[j], p);
    Seq::filter_distributes_over_add(a + x + b + y, c, p);
    Seq::filter_distributes_over_add(a + x + b, y, p);
    Seq::filter_distributes_over_add(a + x, b, p);
    Seq::filter_distributes_over_add(a, x, p);
    Seq::filter_distributes_over_add(a + y + b + x, c, p);
    Seq::filter_distributes_over_add(a + y + b, x, p);
    Seq::filter_distributes_over_add(a + y, b, p);
    Seq::filter_distributes_over_add(a, y, p);
    let fa = a.filter(p);
    let fb = b.filter(p);
    let fc = c.filter(p);
    let m = fa.len() as int;
    let n = m + 1 + fb.len();
    assert(s.filter(p) == fa + x + fb + y + fc);
    assert(exchanged(s, i, j).filter(p) == fa + y + fb + x + fc);
    assert(exchanged(s, i, j).filter(p) =~= exchanged(s.filter(p), m, n));
    assert(s.filter(p).take(m) =~= fa);
    assert(s.take(j) =~= a + x + b);
    assert(s.filter(p).take(n) =~= fa + x + fb);
    (m, n)
}

proof fn lemma_filter_single<A>(a: A, p: spec_fn(A) -> bool)
    requires
        p(a),
    ensures
        seq![a].filter(p) == seq![a],
{
    reveal_with_fuel(Seq::filter, 2);
    assert(seq![a].drop_last() =~= Seq::empty());
    assert(seq![a].filter(p) =~= seq![a]);
}

/// An item that comes first keeps coming first in what a filter lets through: nothing
/// before it there is the window `key` either.
proof fn lemma_filter_first(
    s: Seq<WindowElement>,
    p: spec_fn(WindowElement) -> bool,
    key: WindowKey,
    i: int,
    n: int,
)
    requires
        is_first_where(s, is_window(key), i),
        0 <= n < s.filter(p).len(),
        s.filter(p)[n] == s[i],
        s.filter(p).take(n) == s.take(i).filter(p),
    ensures
        is_first_where(s.filter(p), is_window(key), n),
{
    let f = s.filter(p);
    assert forall|k: int| 0 <= k < n implies !is_window(key)(#[trigger] f[k]) by {
        assert(f[k] == f.take(n)[k]);
        let m = lemma_filter_source(s.take(i), p, k);
        assert(!is_window(key)(s[m]));
    }
}

/// Two tiled windows that change places in the order change places in the layout: each
/// stands where the other stood, and so gets the other's geometry. Of a window that stands
/// there more than once, the first place counts.
pub proof fn law_swapped_windows_exchange_their_places(
    windows: Seq<WindowElement>,
    output: OutputKey,
    focused: Seq<TagId>,
    a: WindowKey,
    b: WindowKey,
)
    requires
        told_apart(windows),
        window_position(windows.filter(shown(output, focused)).filter(tileable()), a) is Some,
        window_position(windows.filter(shown(output, focused)).filter(tileable()), b) is Some,
    ensures
        swapped(windows, a, b).filter(shown(output, focused)).filter(tileable()) == swapped(
            windows.filter(shown(output, focused)).filter(tileable()),
            a,
            b,
        ),
{
    if a == b {
        law_swap_needs_two_windows(windows, a, b);
        law_swap_needs_two_windows(
            windows.filter(shown(output, focused)).filter(tileable()),
            a,
            b,
        );
    } else {
        let i = lemma_tiled_position(windows, output, focused, a);
        let j = lemma_tiled_position(windows, output, focused, b);
        if i < j {
            lemma_swap_tiled(windows, output, focused, a, b, i, j);
        } else {
            lemma_swap_tiled(windows, output, focused, b, a, j, i);
            law_swap_is_symmetric(windows, a, b);
            law_swap_is_symmetric(
                windows.filter(shown(output, focused)).filter(tileable()),
                a,
                b,
            );
        }
    }
}

/// The first entry of a window that is tiled somewhere is tiled.
proof fn lemma_tiled_position(
    windows: Seq<WindowElement>,
    output: OutputKey,
    focused: Seq<TagId>,
    key: WindowKey,
) -> (i: int)
    requires
        told_apart(windows),
        window_position(windows.filter(shown(output, focused)).filter(tileable()), key) is Some,
    ensures
        is_first_where(windows, is_window(key), i),
        window_position(windows, key) == Some(i),
        shown(output, focused)(windows[i]),
        tileable()(windows[i]),
{
    let visible = windows.filter(shown(output, focused));
    let tiled = visible.filter(tileable());
    let n = window_position(tiled, key)->0;
    assert(is_first_where(tiled, is_window(key), n));
    let v = lemma_filter_source(visible, tileable(), n);
    let m = lemma_filter_source(windows, shown(output, focused), v);
    lemma_first_where_some(windows, is_window(key), m);
    let i = window_position(windows, key)->0;
    assert(windows[i].key == windows[m].key);
    assert(same_window(windows[i], windows[m]));
    i
}

/// The case in which `a` stands before `b`.
proof fn lemma_swap_tiled(
    windows: Seq<WindowElement>,
    output: OutputKey,
    focused: Seq<TagId>,
    a: WindowKey,
    b: WindowKey,
    i: int,
    j: int,
)
    requires
        i < j,
        is_first_where(windows, is_window(a), i),
        is_first_where(windows, is_window(b), j),
        shown(output, focused)(windows[i]) && tileable()(windows[i]),
        shown(output, focused)(windows[j]) && tileable()(windows[j]),
    ensures
        swapped(windows, a, b).filter(shown(output, focused)).filter(tileable()) == swapped(
            windows.filter(shown(output, focused)).filter(tileable()),
            a,
            b,
        ),
{
    let visible = windows.filter(shown(output, focused));
    let tiled = visible.filter(tileable());
    let v = lemma_filter_exchange(windows, shown(output, focused), i, j);
    lemma_filter_first(windows, shown(output, focused), a, i, v.0);
    lemma_filter_first(windows, shown(output, focused), b, j, v.1);
    let t = lemma_filter_exchange(visible, tileable(), v.0, v.1);
    lemma_filter_first(visible, tileable(), a, v.0, t.0);
    lemma_filter_first(visible, tileable(), b, v.1, t.1);
    lemma_first_where_is(windows, is_window(a), i);
    lemma_first_where_is(windows, is_window(b), j);
    lemma_first_where_is(tiled, is_window(a), t.0);
    lemma_first_where_is(tiled, is_window(b), t.1);
}

} // verus!
