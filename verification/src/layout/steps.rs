//! Which steps an arrangement holds, and in which order.

use vstd::prelude::*;

use crate::geometry::{Point, Rectangle, Size};
use crate::layout::arrange::{
    arranged, arrangement, hidden, hide_steps, placements, replied, settle_steps, settled_at,
    shown, tile_steps, tileable, LayoutAction,
};
use crate::layout::laws::{law_other_modes_have_their_places, lemma_kinds};
use crate::layout::order::told_apart;
use crate::output::{Output, OutputKey};
use crate::seqs::concat_map;
use crate::tags::{tag_seq, TagId};
use crate::window::{
    law_a_window_is_shown_by_its_own_tags, LayoutModeKind, Serial, WindowElement, WindowKey,
    WindowSurface,
};

verus! {

/// The window belongs to the output, and one of its tags is one of the tags `focused`.
pub open spec fn in_view(w: WindowElement, output: OutputKey, focused: Seq<TagId>) -> bool {
    &&& w.output is Some && w.output->0.key == output
    &&& exists|i: int, j: int|
        0 <= i < tag_seq(w.state.tags).len() && 0 <= j < focused.len() && #[trigger] tag_seq(
            w.state.tags,
        )[i] == #[trigger] focused[j]
}

/// The window belongs to the output, and none of its tags is one of the tags `focused`.
pub open spec fn out_of_view(w: WindowElement, output: OutputKey, focused: Seq<TagId>) -> bool {
    &&& w.output is Some && w.output->0.key == output
    &&& forall|i: int, j: int|
        0 <= i < tag_seq(w.state.tags).len() && 0 <= j < focused.len() ==> #[trigger] tag_seq(
            w.state.tags,
        )[i] != #[trigger] focused[j]
}

/// Holds of the windows that the layout gives places to.
pub open spec fn in_layout(output: OutputKey, focused: Seq<TagId>) -> spec_fn(WindowElement) -> bool {
    |w: WindowElement|
        in_view(w, output, focused) && w.state.layout_mode is Tiled && !w.x11_override_redirect
}

/// The windows that the layout gives places to, each with its geometry: the first window has
/// the first geometry and so on, as far as both go.
pub open spec fn laid_windows(
    windows: Seq<WindowElement>,
    output: OutputKey,
    focused: Seq<TagId>,
    geometries: Seq<Rectangle>,
) -> Seq<(WindowElement, Rectangle)> {
    let tiled = windows.filter(in_layout(output, focused));
    Seq::new(
        if tiled.len() < geometries.len() {
            tiled.len()
        } else {
            geometries.len()
        },
        |k: int| (tiled[k], geometries[k]),
    )
}

/// The window that a step takes out of the space.
pub open spec fn leaving() -> spec_fn(LayoutAction) -> Option<WindowKey> {
    |a: LayoutAction|
        match a {
            LayoutAction::UnmapElement { window } => Some(window),
            _ => None,
        }
}

/// The window whose place a step remembers, and the place.
pub open spec fn remembered() -> spec_fn(LayoutAction) -> Option<(WindowKey, Point)> {
    |a: LayoutAction|
        match a {
            LayoutAction::SaveFloatingLocation { window, location } => Some((window, location)),
            _ => None,
        }
}

/// The output that a step has redrawn when idle.
pub open spec fn redrawn() -> spec_fn(LayoutAction) -> Option<OutputKey> {
    |a: LayoutAction|
        match a {
            LayoutAction::ScheduleRenderWhenIdle { output } => Some(output),
            _ => None,
        }
}

/// The window whose client a step tells that it is tiled.
pub open spec fn told_tiled() -> spec_fn(LayoutAction) -> Option<WindowKey> {
    |a: LayoutAction|
        match a {
            LayoutAction::SetTiledStates { window } => Some(window),
            _ => None,
        }
}

/// The Wayland window that a step gives a size, and the size.
pub open spec fn sized() -> spec_fn(LayoutAction) -> Option<(WindowKey, Size)> {
    |a: LayoutAction|
        match a {
            LayoutAction::SetPendingSize { window, size } => Some((window, size)),
            _ => None,
        }
}

/// The X11 window that a step configures, and the area that it gets.
pub open spec fn configured() -> spec_fn(LayoutAction) -> Option<(WindowKey, Rectangle)> {
    |a: LayoutAction|
        match a {
            LayoutAction::ConfigureX11 { window, geometry } => Some((window, geometry)),
            _ => None,
        }
}

/// The window that a step maps, and where.
pub open spec fn mapped() -> spec_fn(LayoutAction) -> Option<(WindowKey, Point)> {
    |a: LayoutAction|
        match a {
            LayoutAction::MapElement { window, location } => Some((window, location)),
            _ => None,
        }
}

/// The window whose state a step sends.
pub open spec fn sent() -> spec_fn(LayoutAction) -> Option<WindowKey> {
    |a: LayoutAction|
        match a {
            LayoutAction::SendPendingConfigure { window } => Some(window),
            _ => None,
        }
}

/// The item as a sequence of at most one.
spec fn at_most_one<C>(o: Option<C>) -> Seq<C> {
    match o {
        Some(c) => seq![c],
        None => Seq::empty(),
    }
}

proof fn lemma_pick_add<A, C>(s: Seq<A>, t: Seq<A>, g: spec_fn(A) -> Option<C>)
    ensures
        (s + t).filter_map(g) == s.filter_map(g) + t.filter_map(g),
    decreases t.len(),
{
    if t.len() == 0 {
        assert(s + t =~= s);
        assert(s.filter_map(g) + t.filter_map(g) =~= s.filter_map(g));
    } else {
        lemma_pick_add(s, t.drop_last(), g);
        assert((s + t).drop_last() =~= s + t.drop_last());
        assert((s + t).filter_map(g) =~= s.filter_map(g) + t.filter_map(g));
    }
}

proof fn lemma_pick_none<A, C>(s: Seq<A>, g: spec_fn(A) -> Option<C>)
    requires
        forall|i: int| 0 <= i < s.len() ==> g(#[trigger] s[i]) is None,
    ensures
        s.filter_map(g) == Seq::<C>::empty(),
    decreases s.len(),
{
    if s.len() > 0 {
        assert(g(s[s.len() - 1]) is None);
        lemma_pick_none(s.drop_last(), g);
    }
}

proof fn lemma_pick_all<A, B>(s: Seq<A>, f: spec_fn(A) -> B, g: spec_fn(B) -> Option<A>)
    requires
        forall|a: A| g(#[trigger] f(a)) == Some(a),
    ensures
        s.map_values(f).filter_map(g) == s,
    decreases s.len(),
{
    if s.len() > 0 {
        lemma_pick_all(s.drop_last(), f, g);
        assert(s.map_values(f).drop_last() =~= s.drop_last().map_values(f));
        assert(s.map_values(f).filter_map(g) =~= s);
    } else {
        assert(s.map_values(f).filter_map(g) =~= s);
    }
}

proof fn lemma_pick_one<A, C>(a: A, g: spec_fn(A) -> Option<C>)
    ensures
        seq![a].filter_map(g) == at_most_one(g(a)),
{
    Seq::lemma_filter_map_singleton(a, g);
    assert(seq![a].filter_map(g) =~= at_most_one(g(a)));
}

/// Picking out of what is put together, piece by piece.
proof fn lemma_pick_pieces<A, B, C>(
    s: Seq<A>,
    f: spec_fn(A) -> Seq<B>,
    g: spec_fn(B) -> Option<C>,
    h: spec_fn(A) -> Seq<C>,
)
    requires
        forall|a: A| (#[trigger] f(a)).filter_map(g) == h(a),
    ensures
        concat_map(s, f).filter_map(g) == concat_map(s, h),
    decreases s.len(),
{
    if s.len() > 0 {
        lemma_pick_pieces(s.drop_last(), f, g, h);
        lemma_pick_add(concat_map(s.drop_last(), f), f(s.last()), g);
        assert(f(s.last()).filter_map(g) == h(s.last()));
    }
}

/// Pieces of at most one item.
proof fn lemma_pieces_of_one<A, C>(s: Seq<A>, h: spec_fn(A) -> Seq<C>, k: spec_fn(A) -> Option<C>)
    requires
        forall|a: A| #[trigger] h(a) == at_most_one(k(a)),
    ensures
        concat_map(s, h) == s.filter_map(k),
    decreases s.len(),
{
    if s.len() > 0 {
        lemma_pieces_of_one(s.drop_last(), h, k);
        assert(h(s.last()) == at_most_one(k(s.last())));
        assert(concat_map(s, h) =~= s.filter_map(k));
    }
}

proof fn lemma_pick_pieces_of_one<A, B, C>(
    s: Seq<A>,
    f: spec_fn(A) -> Seq<B>,
    g: spec_fn(B) -> Option<C>,
    k: spec_fn(A) -> Option<C>,
)
    requires
        forall|a: A| (#[trigger] f(a)).filter_map(g) == at_most_one(k(a)),
    ensures
        concat_map(s, f).filter_map(g) == s.filter_map(k),
{
    let h = |a: A| at_most_one(k(a));
    lemma_pick_pieces(s, f, g, h);
    lemma_pieces_of_one(s, h, k);
}

/// Picking out of what a filter lets through.
proof fn lemma_pick_filtered<A, C>(
    s: Seq<A>,
    p: spec_fn(A) -> bool,
    k: spec_fn(A) -> Option<C>,
    m: spec_fn(A) -> Option<C>,
)
    requires
        forall|a: A|
            #[trigger] m(a) == if p(a) {
                k(a)
            } else {
                None
            },
    ensures
        s.filter(p).filter_map(k) == s.filter_map(m),
    decreases s.len(),
{
    reveal(Seq::filter);
    if s.len() > 0 {
        lemma_pick_filtered(s.drop_last(), p, k, m);
        assert(m(s.last()) == if p(s.last()) {
            k(s.last())
        } else {
            None
        });
        if p(s.last()) {
            let f = s.drop_last().filter(p);
            assert(f.push(s.last()).drop_last() =~= f);
        }
    }
}

/// The two ways to say what is in view and what is not agree.
proof fn lemma_view(w: WindowElement, output: OutputKey, focused: Seq<TagId>)
    ensures
        shown(output, focused)(w) == in_view(w, output, focused),
        hidden(output, focused)(w) == out_of_view(w, output, focused),
{
    law_a_window_is_shown_by_its_own_tags(w, focused);
}

proof fn lemma_pick_hide<C>(w: WindowElement, g: spec_fn(LayoutAction) -> Option<C>)
    requires
        forall|output: OutputKey|
            #[trigger] g(LayoutAction::ScheduleRenderWhenIdle { output }) is None,
    ensures
        hide_steps()(w).filter_map(g) == (if w.state.layout_mode is Floating && w.location is Some {
            at_most_one(
                g(
                    LayoutAction::SaveFloatingLocation {
                        window: w.key,
                        location: w.location->0,
                    },
                ),
            )
        } else {
            Seq::empty()
        }) + at_most_one(g(LayoutAction::UnmapElement { window: w.key })),
{
    let save = match w.location {
        Some(location) if w.state.layout_mode == LayoutModeKind::Floating => seq![
            LayoutAction::SaveFloatingLocation { window: w.key, location },
        ],
        _ => Seq::<LayoutAction>::empty(),
    };
    let unmap = LayoutAction::UnmapElement { window: w.key };
    let renders = w.mapped_on@.map_values(
        |output: OutputKey| LayoutAction::ScheduleRenderWhenIdle { output },
    );
    assert(hide_steps()(w) =~= save + seq![unmap] + renders);
    lemma_pick_add(save + seq![unmap], renders, g);
    lemma_pick_add(save, seq![unmap], g);
    lemma_pick_one(unmap, g);
    lemma_pick_none(renders, g);
    if save.len() > 0 {
        lemma_pick_one(save[0], g);
        assert(save =~= seq![save[0]]);
    }
    assert(hide_steps()(w).filter_map(g) =~= save.filter_map(g) + seq![unmap].filter_map(g));
}

proof fn lemma_pick_tile<C>(
    base: Point,
    p: (WindowElement, Rectangle),
    g: spec_fn(LayoutAction) -> Option<C>,
)
    ensures
        tile_steps(base)(p).len() == 3,
        tile_steps(base)(p).filter_map(g) == at_most_one(g(tile_steps(base)(p)[0])) + at_most_one(
            g(tile_steps(base)(p)[1]),
        ) + at_most_one(g(tile_steps(base)(p)[2])),
{
    let s = tile_steps(base)(p);
    assert(s =~= seq![s[0]] + seq![s[1]] + seq![s[2]]);
    lemma_pick_add(seq![s[0]] + seq![s[1]], seq![s[2]], g);
    lemma_pick_add(seq![s[0]], seq![s[1]], g);
    lemma_pick_one(s[0], g);
    lemma_pick_one(s[1], g);
    lemma_pick_one(s[2], g);
}

proof fn lemma_pick_settle<C>(
    origin: Point,
    base: Point,
    w: WindowElement,
    g: spec_fn(LayoutAction) -> Option<C>,
)
    ensures
        settle_steps(origin, base)(w).filter_map(g) == (if w.underlying_surface is Wayland {
            at_most_one(g(LayoutAction::SendPendingConfigure { window: w.key }))
        } else {
            Seq::empty()
        }) + (match settled_at(w, origin, base) {
            Some(location) => at_most_one(
                g(LayoutAction::MapElement { window: w.key, location }),
            ),
            None => Seq::empty(),
        }),
{
    let send = match w.underlying_surface {
        WindowSurface::Wayland => seq![LayoutAction::SendPendingConfigure { window: w.key }],
        WindowSurface::X11 => Seq::<LayoutAction>::empty(),
    };
    let map = match settled_at(w, origin, base) {
        Some(location) => seq![LayoutAction::MapElement { window: w.key, location }],
        None => Seq::<LayoutAction>::empty(),
    };
    assert(settle_steps(origin, base)(w) =~= send + map);
    lemma_pick_add(send, map, g);
    if send.len() > 0 {
        lemma_pick_one(send[0], g);
    }
    if map.len() > 0 {
        lemma_pick_one(map[0], g);
    }
}

/// The tiled windows and what the layout gives them, said in one go.
proof fn lemma_laid(
    windows: Seq<WindowElement>,
    output: OutputKey,
    focused: Seq<TagId>,
    geometries: Seq<Rectangle>,
)
    ensures
        placements(windows.filter(shown(output, focused)).filter(tileable()), geometries)
            == laid_windows(windows, output, focused, geometries),
{
    lemma_filter_twice(
        windows,
        shown(output, focused),
        tileable(),
        in_layout(output, focused),
        output,
        focused,
    );
    assert(placements(windows.filter(shown(output, focused)).filter(tileable()), geometries)
        =~= laid_windows(windows, output, focused, geometries));
}

proof fn lemma_filter_twice(
    s: Seq<WindowElement>,
    p: spec_fn(WindowElement) -> bool,
    q: spec_fn(WindowElement) -> bool,
    both: spec_fn(WindowElement) -> bool,
    output: OutputKey,
    focused: Seq<TagId>,
)
    requires
        p == shown(output, focused),
        q == tileable(),
        both == in_layout(output, focused),
    ensures
        s.filter(p).filter(q) == s.filter(both),
    decreases s.len(),
{
    reveal(Seq::filter);
    if s.len() > 0 {
        lemma_filter_twice(s.drop_last(), p, q, both, output, focused);
        lemma_view(s.last(), output, focused);
        if p(s.last()) {
            let f = s.drop_last().filter(p);
            assert(f.push(s.last()).drop_last() =~= f);
        }
    }
}

/// What is picked out of an arrangement comes from the windows out of view, then from those
/// that get a geometry and then from those in view.
proof fn lemma_pick_arrangement<C>(
    windows: Seq<WindowElement>,
    output: OutputKey,
    focused: Seq<TagId>,
    origin: Point,
    zone: Point,
    geometries: Seq<Rectangle>,
    g: spec_fn(LayoutAction) -> Option<C>,
    kh: spec_fn(WindowElement) -> Option<C>,
    kt: spec_fn((WindowElement, Rectangle)) -> Option<C>,
    ks: spec_fn(WindowElement) -> Option<C>,
    mh: spec_fn(WindowElement) -> Option<C>,
    ms: spec_fn(WindowElement) -> Option<C>,
)
    requires
        forall|w: WindowElement| (#[trigger] hide_steps()(w)).filter_map(g) == at_most_one(kh(w)),
        forall|p: (WindowElement, Rectangle)|
            (#[trigger] tile_steps(origin.plus(zone))(p)).filter_map(g) == at_most_one(kt(p)),
        forall|w: WindowElement|
            (#[trigger] settle_steps(origin, origin.plus(zone))(w)).filter_map(g) == at_most_one(
                ks(w),
            ),
        g(LayoutAction::FixupZLayering) is None,
        forall|w: WindowElement|
            #[trigger] mh(w) == if out_of_view(w, output, focused) {
                kh(w)
            } else {
                None
            },
        forall|w: WindowElement|
            #[trigger] ms(w) == if in_view(w, output, focused) {
                ks(w)
            } else {
                None
            },
    ensures
        arrangement(windows, output, focused, origin, zone, geometries).filter_map(g)
            == windows.filter_map(mh) + laid_windows(
            windows,
            output,
            focused,
            geometries,
        ).filter_map(kt) + windows.filter_map(ms),
{
    let base = origin.plus(zone);
    let visible = windows.filter(shown(output, focused));
    let invisible = windows.filter(hidden(output, focused));
    let placed = placements(visible.filter(tileable()), geometries);
    let h = concat_map(invisible, hide_steps());
    let p = concat_map(placed, tile_steps(base));
    let s = concat_map(visible, settle_steps(origin, base));
    let z = seq![LayoutAction::FixupZLayering];
    lemma_laid(windows, output, focused, geometries);
    lemma_pick_pieces_of_one(invisible, hide_steps(), g, kh);
    lemma_pick_pieces_of_one(placed, tile_steps(base), g, kt);
    lemma_pick_pieces_of_one(visible, settle_steps(origin, base), g, ks);
    assert forall|w: WindowElement|
        #[trigger] mh(w) == if hidden(output, focused)(w) {
            kh(w)
        } else {
            None
        } by {
        lemma_view(w, output, focused);
    }
    assert forall|w: WindowElement|
        #[trigger] ms(w) == if shown(output, focused)(w) {
            ks(w)
        } else {
            None
        } by {
        lemma_view(w, output, focused);
    }
    lemma_pick_filtered(windows, hidden(output, focused), kh, mh);
    lemma_pick_filtered(windows, shown(output, focused), ks, ms);
    lemma_pick_one(LayoutAction::FixupZLayering, g);
    lemma_pick_add(h + p + s, z, g);
    lemma_pick_add(h + p, s, g);
    lemma_pick_add(h, p, g);
    assert(arrangement(windows, output, focused, origin, zone, geometries).filter_map(g)
        =~= h.filter_map(g) + p.filter_map(g) + s.filter_map(g));
}

/// The window, where it is out of view.
pub open spec fn out_of_view_key(output: OutputKey, focused: Seq<TagId>) -> spec_fn(
    WindowElement,
) -> Option<WindowKey> {
    |w: WindowElement|
        if out_of_view(w, output, focused) {
            Some(w.key)
        } else {
            None
        }
}

/// The window and its place, where it is out of view, floats and is in the space.
pub open spec fn out_of_view_place(output: OutputKey, focused: Seq<TagId>) -> spec_fn(
    WindowElement,
) -> Option<(WindowKey, Point)> {
    |w: WindowElement|
        if out_of_view(w, output, focused) && w.state.layout_mode is Floating && w.location is Some {
            Some((w.key, w.location->0))
        } else {
            None
        }
}

/// The window and the place of its own, where it is in view and not tiled: where it floats,
/// the free area for a maximized window, and the output itself for a fullscreen one.
pub open spec fn own_place(
    output: OutputKey,
    focused: Seq<TagId>,
    origin: Point,
    zone: Point,
) -> spec_fn(WindowElement) -> Option<(WindowKey, Point)> {
    |w: WindowElement|
        if !in_view(w, output, focused) {
            None
        } else if w.state.layout_mode is Floating && w.state.floating_loc is Some {
            Some((w.key, w.state.floating_loc->0))
        } else if w.state.layout_mode is Maximized {
            Some((w.key, origin.plus(zone)))
        } else if w.state.layout_mode is Fullscreen {
            Some((w.key, origin))
        } else {
            None
        }
}

/// The window, where it is in view and speaks Wayland.
pub open spec fn in_view_client(output: OutputKey, focused: Seq<TagId>) -> spec_fn(
    WindowElement,
) -> Option<WindowKey> {
    |w: WindowElement|
        if in_view(w, output, focused) && w.underlying_surface is Wayland {
            Some(w.key)
        } else {
            None
        }
}

/// The windows that leave the space are those out of view, each once, in order, and no
/// others.
pub proof fn law_windows_out_of_view_leave(
    windows: Seq<WindowElement>,
    output: OutputKey,
    focused: Seq<TagId>,
    origin: Point,
    zone: Point,
    geometries: Seq<Rectangle>,
)
    ensures
        arrangement(windows, output, focused, origin, zone, geometries).filter_map(leaving())
            == windows.filter_map(out_of_view_key(output, focused)),
{
    let g = leaving();
    let base = origin.plus(zone);
    let laid = laid_windows(windows, output, focused, geometries);
    let kh = |w: WindowElement| Some(w.key);
    let kt = |x: (WindowElement, Rectangle)| None::<WindowKey>;
    let ks = |x: WindowElement| None::<WindowKey>;
    let mh = |w: WindowElement|
        if out_of_view(w, output, focused) {
            kh(w)
        } else {
            None
        };
    let ms = |w: WindowElement|
        if in_view(w, output, focused) {
            ks(w)
        } else {
            None
        };
    assert forall|w: WindowElement| (#[trigger] hide_steps()(w)).filter_map(g) == at_most_one(
        kh(w),
    ) by {
        lemma_pick_hide(w, g);
        assert(hide_steps()(w).filter_map(g) =~= at_most_one(kh(w)));
    }
    assert forall|p: (WindowElement, Rectangle)|
        (#[trigger] tile_steps(base)(p)).filter_map(g) == at_most_one(kt(p)) by {
        lemma_pick_tile(base, p, g);
        assert(tile_steps(base)(p).filter_map(g) =~= at_most_one(kt(p)));
    }
    assert forall|w: WindowElement|
        (#[trigger] settle_steps(origin, base)(w)).filter_map(g) == at_most_one(ks(w)) by {
        lemma_pick_settle(origin, base, w, g);
        assert(settle_steps(origin, base)(w).filter_map(g) =~= at_most_one(ks(w)));
    }
    lemma_pick_arrangement(
        windows,
        output,
        focused,
        origin,
        zone,
        geometries,
        g,
        kh,
        kt,
        ks,
        mh,
        ms,
    );
    lemma_pick_none(laid, kt);
    lemma_pick_none(windows, ms);
    assert(mh =~= out_of_view_key(output, focused));
    assert(windows.filter_map(mh) + Seq::<WindowKey>::empty() + Seq::<WindowKey>::empty()
        =~= windows.filter_map(mh));
}

/// The places that are remembered are those of the floating windows out of view that are in
/// the space, each once and in order: no other window's, and no other place.
pub proof fn law_places_out_of_view_are_remembered(
    windows: Seq<WindowElement>,
    output: OutputKey,
    focused: Seq<TagId>,
    origin: Point,
    zone: Point,
    geometries: Seq<Rectangle>,
)
    ensures
        arrangement(windows, output, focused, origin, zone, geometries).filter_map(remembered())
            == windows.filter_map(out_of_view_place(output, focused)),
{
    let g = remembered();
    let base = origin.plus(zone);
    let laid = laid_windows(windows, output, focused, geometries);
    let kh = |w: WindowElement|
        if w.state.layout_mode is Floating && w.location is Some {
            Some((w.key, w.location->0))
        } else {
            None
        };
    let kt = |x: (WindowElement, Rectangle)| None::<(WindowKey, Point)>;
    let ks = |x: WindowElement| None::<(WindowKey, Point)>;
    let mh = |w: WindowElement|
        if out_of_view(w, output, focused) {
            kh(w)
        } else {
            None
        };
    let ms = |w: WindowElement|
        if in_view(w, output, focused) {
            ks(w)
        } else {
            None
        };
    assert forall|w: WindowElement| (#[trigger] hide_steps()(w)).filter_map(g) == at_most_one(
        kh(w),
    ) by {
        lemma_pick_hide(w, g);
        assert(hide_steps()(w).filter_map(g) =~= at_most_one(kh(w)));
    }
    assert forall|p: (WindowElement, Rectangle)|
        (#[trigger] tile_steps(base)(p)).filter_map(g) == at_most_one(kt(p)) by {
        lemma_pick_tile(base, p, g);
        assert(tile_steps(base)(p).filter_map(g) =~= at_most_one(kt(p)));
    }
    assert forall|w: WindowElement|
        (#[trigger] settle_steps(origin, base)(w)).filter_map(g) == at_most_one(ks(w)) by {
        lemma_pick_settle(origin, base, w, g);
        assert(settle_steps(origin, base)(w).filter_map(g) =~= at_most_one(ks(w)));
    }
    lemma_pick_arrangement(
        windows,
        output,
        focused,
        origin,
        zone,
        geometries,
        g,
        kh,
        kt,
        ks,
        mh,
        ms,
    );
    lemma_pick_none(laid, kt);
    lemma_pick_none(windows, ms);
    assert(mh =~= out_of_view_place(output, focused));
    assert(windows.filter_map(mh) + Seq::<(WindowKey, Point)>::empty() + Seq::<
        (WindowKey, Point),
    >::empty() =~= windows.filter_map(mh));
}

/// The windows that are told that they are tiled are those that the layout gives a place to,
/// each once and in order.
pub proof fn law_laid_windows_are_told(
    windows: Seq<WindowElement>,
    output: OutputKey,
    focused: Seq<TagId>,
    origin: Point,
    zone: Point,
    geometries: Seq<Rectangle>,
)
    ensures
        arrangement(windows, output, focused, origin, zone, geometries).filter_map(told_tiled())
            == laid_windows(
            windows,
            output,
            focused,
            geometries,
        ).filter_map(|p: (WindowElement, Rectangle)| Some(p.0.key)),
{
    let g = told_tiled();
    let base = origin.plus(zone);
    let laid = laid_windows(windows, output, focused, geometries);
    let kh = |x: WindowElement| None::<WindowKey>;
    let kt = |p: (WindowElement, Rectangle)| Some(p.0.key);
    let ks = |x: WindowElement| None::<WindowKey>;
    let mh = |w: WindowElement|
        if out_of_view(w, output, focused) {
            kh(w)
        } else {
            None
        };
    let ms = |w: WindowElement|
        if in_view(w, output, focused) {
            ks(w)
        } else {
            None
        };
    assert forall|w: WindowElement| (#[trigger] hide_steps()(w)).filter_map(g) == at_most_one(
        kh(w),
    ) by {
        lemma_pick_hide(w, g);
        assert(hide_steps()(w).filter_map(g) =~= at_most_one(kh(w)));
    }
    assert forall|p: (WindowElement, Rectangle)|
        (#[trigger] tile_steps(base)(p)).filter_map(g) == at_most_one(kt(p)) by {
        lemma_pick_tile(base, p, g);
        assert(tile_steps(base)(p).filter_map(g) =~= at_most_one(kt(p)));
    }
    assert forall|w: WindowElement|
        (#[trigger] settle_steps(origin, base)(w)).filter_map(g) == at_most_one(ks(w)) by {
        lemma_pick_settle(origin, base, w, g);
        assert(settle_steps(origin, base)(w).filter_map(g) =~= at_most_one(ks(w)));
    }
    lemma_pick_arrangement(
        windows,
        output,
        focused,
        origin,
        zone,
        geometries,
        g,
        kh,
        kt,
        ks,
        mh,
        ms,
    );
    lemma_pick_none(windows, mh);
    lemma_pick_none(windows, ms);
    assert(Seq::<WindowKey>::empty() + laid.filter_map(kt) + Seq::<WindowKey>::empty()
        =~= laid.filter_map(kt));
}

/// The sizes that Wayland windows get are those of their geometries, each once and in order.
pub proof fn law_wayland_windows_get_the_sizes_of_their_geometries(
    windows: Seq<WindowElement>,
    output: OutputKey,
    focused: Seq<TagId>,
    origin: Point,
    zone: Point,
    geometries: Seq<Rectangle>,
)
    ensures
        arrangement(windows, output, focused, origin, zone, geometries).filter_map(sized())
            == laid_windows(
            windows,
            output,
            focused,
            geometries,
        ).filter_map(
            |p: (WindowElement, Rectangle)|
                if p.0.underlying_surface is Wayland {
                    Some((p.0.key, p.1.size))
                } else {
                    None
                },
        ),
{
    let g = sized();
    let base = origin.plus(zone);
    let laid = laid_windows(windows, output, focused, geometries);
    let kh = |x: WindowElement| None::<(WindowKey, Size)>;
    let kt = |p: (WindowElement, Rectangle)|
        if p.0.underlying_surface is Wayland {
            Some((p.0.key, p.1.size))
        } else {
            None
        };
    let ks = |x: WindowElement| None::<(WindowKey, Size)>;
    let mh = |w: WindowElement|
        if out_of_view(w, output, focused) {
            kh(w)
        } else {
            None
        };
    let ms = |w: WindowElement|
        if in_view(w, output, focused) {
            ks(w)
        } else {
            None
        };
    assert forall|w: WindowElement| (#[trigger] hide_steps()(w)).filter_map(g) == at_most_one(
        kh(w),
    ) by {
        lemma_pick_hide(w, g);
        assert(hide_steps()(w).filter_map(g) =~= at_most_one(kh(w)));
    }
    assert forall|p: (WindowElement, Rectangle)|
        (#[trigger] tile_steps(base)(p)).filter_map(g) == at_most_one(kt(p)) by {
        lemma_pick_tile(base, p, g);
        assert(tile_steps(base)(p).filter_map(g) =~= at_most_one(kt(p)));
    }
    assert forall|w: WindowElement|
        (#[trigger] settle_steps(origin, base)(w)).filter_map(g) == at_most_one(ks(w)) by {
        lemma_pick_settle(origin, base, w, g);
        assert(settle_steps(origin, base)(w).filter_map(g) =~= at_most_one(ks(w)));
    }
    lemma_pick_arrangement(
        windows,
        output,
        focused,
        origin,
        zone,
        geometries,
        g,
        kh,
        kt,
        ks,
        mh,
        ms,
    );
    lemma_pick_none(windows, mh);
    lemma_pick_none(windows, ms);
    assert(Seq::<(WindowKey, Size)>::empty() + laid.filter_map(kt) + Seq::<
        (WindowKey, Size),
    >::empty() =~= laid.filter_map(kt));
}

/// The areas that X11 windows get are their geometries, moved to the free area of the output,
/// each once and in order.
pub proof fn law_x11_windows_get_their_geometries(
    windows: Seq<WindowElement>,
    output: OutputKey,
    focused: Seq<TagId>,
    origin: Point,
    zone: Point,
    geometries: Seq<Rectangle>,
)
    ensures
        arrangement(windows, output, focused, origin, zone, geometries).filter_map(configured())
            == laid_windows(
            windows,
            output,
            focused,
            geometries,
        ).filter_map(
            |p: (WindowElement, Rectangle)|
                if p.0.underlying_surface is X11 {
                    Some(
                        (
                            p.0.key,
                            Rectangle { loc: p.1.loc.plus(origin.plus(zone)), size: p.1.size },
                        ),
                    )
                } else {
                    None
                },
        ),
{
    let g = configured();
    let base = origin.plus(zone);
    let laid = laid_windows(windows, output, focused, geometries);
    let kh = |x: WindowElement| None::<(WindowKey, Rectangle)>;
    let kt = |p: (WindowElement, Rectangle)|
        if p.0.underlying_surface is X11 {
            Some((p.0.key, Rectangle { loc: p.1.loc.plus(origin.plus(zone)), size: p.1.size }))
        } else {
            None
        };
    let ks = |x: WindowElement| None::<(WindowKey, Rectangle)>;
    let mh = |w: WindowElement|
        if out_of_view(w, output, focused) {
            kh(w)
        } else {
            None
        };
    let ms = |w: WindowElement|
        if in_view(w, output, focused) {
            ks(w)
        } else {
            None
        };
    assert forall|w: WindowElement| (#[trigger] hide_steps()(w)).filter_map(g) == at_most_one(
        kh(w),
    ) by {
        lemma_pick_hide(w, g);
        assert(hide_steps()(w).filter_map(g) =~= at_most_one(kh(w)));
    }
    assert forall|p: (WindowElement, Rectangle)|
        (#[trigger] tile_steps(base)(p)).filter_map(g) == at_most_one(kt(p)) by {
        lemma_pick_tile(base, p, g);
        assert(tile_steps(base)(p).filter_map(g) =~= at_most_one(kt(p)));
    }
    assert forall|w: WindowElement|
        (#[trigger] settle_steps(origin, base)(w)).filter_map(g) == at_most_one(ks(w)) by {
        lemma_pick_settle(origin, base, w, g);
        assert(settle_steps(origin, base)(w).filter_map(g) =~= at_most_one(ks(w)));
    }
    lemma_pick_arrangement(
        windows,
        output,
        focused,
        origin,
        zone,
        geometries,
        g,
        kh,
        kt,
        ks,
        mh,
        ms,
    );
    lemma_pick_none(windows, mh);
    lemma_pick_none(windows, ms);
    assert(Seq::<(WindowKey, Rectangle)>::empty() + laid.filter_map(kt) + Seq::<
        (WindowKey, Rectangle),
    >::empty() =~= laid.filter_map(kt));
}

/// Windows are mapped in this order: first those that the layout gives a place to, each at the
/// corner of its geometry in the free area of the output; then those in view that have a place
/// of their own, each there. Each is mapped once, and no other window is mapped.
pub proof fn law_windows_are_mapped_at_their_places(
    windows: Seq<WindowElement>,
    output: OutputKey,
    focused: Seq<TagId>,
    origin: Point,
    zone: Point,
    geometries: Seq<Rectangle>,
)
    ensures
        arrangement(windows, output, focused, origin, zone, geometries).filter_map(mapped())
            == laid_windows(
            windows,
            output,
            focused,
            geometries,
        ).filter_map(
            |p: (WindowElement, Rectangle)| Some((p.0.key, p.1.loc.plus(origin.plus(zone)))),
        ) + windows.filter_map(own_place(output, focused, origin, zone)),
{
    let g = mapped();
    let base = origin.plus(zone);
    let laid = laid_windows(windows, output, focused, geometries);
    let kh = |x: WindowElement| None::<(WindowKey, Point)>;
    let kt = |p: (WindowElement, Rectangle)| Some((p.0.key, p.1.loc.plus(origin.plus(zone))));
    let ks = |w: WindowElement|
        match settled_at(w, origin, base) {
            Some(location) => Some((w.key, location)),
            None => None,
        };
    let mh = |w: WindowElement|
        if out_of_view(w, output, focused) {
            kh(w)
        } else {
            None
        };
    let ms = |w: WindowElement|
        if in_view(w, output, focused) {
            ks(w)
        } else {
            None
        };
    assert forall|w: WindowElement| (#[trigger] hide_steps()(w)).filter_map(g) == at_most_one(
        kh(w),
    ) by {
        lemma_pick_hide(w, g);
        assert(hide_steps()(w).filter_map(g) =~= at_most_one(kh(w)));
    }
    assert forall|p: (WindowElement, Rectangle)|
        (#[trigger] tile_steps(base)(p)).filter_map(g) == at_most_one(kt(p)) by {
        lemma_pick_tile(base, p, g);
        assert(tile_steps(base)(p).filter_map(g) =~= at_most_one(kt(p)));
    }
    assert forall|w: WindowElement|
        (#[trigger] settle_steps(origin, base)(w)).filter_map(g) == at_most_one(ks(w)) by {
        lemma_pick_settle(origin, base, w, g);
        assert(settle_steps(origin, base)(w).filter_map(g) =~= at_most_one(ks(w)));
    }
    lemma_pick_arrangement(
        windows,
        output,
        focused,
        origin,
        zone,
        geometries,
        g,
        kh,
        kt,
        ks,
        mh,
        ms,
    );
    lemma_pick_none(windows, mh);
    assert(ms =~= own_place(output, focused, origin, zone));
    assert(Seq::<(WindowKey, Point)>::empty() + laid.filter_map(kt) =~= laid.filter_map(kt));
}

/// The windows whose state is sent are those in view that speak Wayland, each once and in
/// order.
pub proof fn law_clients_in_view_are_sent_their_state(
    windows: Seq<WindowElement>,
    output: OutputKey,
    focused: Seq<TagId>,
    origin: Point,
    zone: Point,
    geometries: Seq<Rectangle>,
)
    ensures
        arrangement(windows, output, focused, origin, zone, geometries).filter_map(sent())
            == windows.filter_map(in_view_client(output, focused)),
{
    let g = sent();
    let base = origin.plus(zone);
    let laid = laid_windows(windows, output, focused, geometries);
    let kh = |x: WindowElement| None::<WindowKey>;
    let kt = |x: (WindowElement, Rectangle)| None::<WindowKey>;
    let ks = |w: WindowElement|
        if w.underlying_surface is Wayland {
            Some(w.key)
        } else {
            None
        };
    let mh = |w: WindowElement|
        if out_of_view(w, output, focused) {
            kh(w)
        } else {
            None
        };
    let ms = |w: WindowElement|
        if in_view(w, output, focused) {
            ks(w)
        } else {
            None
        };
    assert forall|w: WindowElement| (#[trigger] hide_steps()(w)).filter_map(g) == at_most_one(
        kh(w),
    ) by {
        lemma_pick_hide(w, g);
        assert(hide_steps()(w).filter_map(g) =~= at_most_one(kh(w)));
    }
    assert forall|p: (WindowElement, Rectangle)|
        (#[trigger] tile_steps(base)(p)).filter_map(g) == at_most_one(kt(p)) by {
        lemma_pick_tile(base, p, g);
        assert(tile_steps(base)(p).filter_map(g) =~= at_most_one(kt(p)));
    }
    assert forall|w: WindowElement|
        (#[trigger] settle_steps(origin, base)(w)).filter_map(g) == at_most_one(ks(w)) by {
        lemma_pick_settle(origin, base, w, g);
        assert(settle_steps(origin, base)(w).filter_map(g) =~= at_most_one(ks(w)));
    }
    lemma_pick_arrangement(
        windows,
        output,
        focused,
        origin,
        zone,
        geometries,
        g,
        kh,
        kt,
        ks,
        mh,
        ms,
    );
    lemma_pick_none(windows, mh);
    lemma_pick_none(laid, kt);
    assert(ms =~= in_view_client(output, focused));
    assert(Seq::<WindowKey>::empty() + Seq::<WindowKey>::empty() + windows.filter_map(ms)
        =~= windows.filter_map(ms));
}

/// The outputs that are redrawn when idle are those that the windows out of view overlap:
/// for each such window in turn, all of them in order.
pub proof fn law_outputs_are_redrawn_where_windows_leave(
    windows: Seq<WindowElement>,
    output: OutputKey,
    focused: Seq<TagId>,
    origin: Point,
    zone: Point,
    geometries: Seq<Rectangle>,
)
    ensures
        arrangement(windows, output, focused, origin, zone, geometries).filter_map(redrawn())
            == concat_map(
            windows,
            |w: WindowElement|
                if out_of_view(w, output, focused) {
                    w.mapped_on@
                } else {
                    Seq::empty()
                },
        ),
{
    let g = redrawn();
    let base = origin.plus(zone);
    let visible = windows.filter(shown(output, focused));
    let invisible = windows.filter(hidden(output, focused));
    let placed = placements(visible.filter(tileable()), geometries);
    let h = concat_map(invisible, hide_steps());
    let p = concat_map(placed, tile_steps(base));
    let s = concat_map(visible, settle_steps(origin, base));
    let z = seq![LayoutAction::FixupZLayering];
    let k = |w: WindowElement| w.mapped_on@;
    let m = |w: WindowElement|
        if out_of_view(w, output, focused) {
            w.mapped_on@
        } else {
            Seq::empty()
        };
    assert forall|w: WindowElement| (#[trigger] hide_steps()(w)).filter_map(g) == k(w) by {
        lemma_redrawn_for_one(w);
    }
    lemma_pick_pieces(invisible, hide_steps(), g, k);
    assert forall|w: WindowElement|
        #[trigger] m(w) == if hidden(output, focused)(w) {
            k(w)
        } else {
            Seq::empty()
        } by {
        lemma_view(w, output, focused);
    }
    lemma_pieces_filtered(windows, hidden(output, focused), k, m);
    lemma_kinds(invisible, placed, visible, origin, base);
    assert forall|i: int| 0 <= i < p.len() implies g(#[trigger] p[i]) is None by {
        assert(p.contains(p[i]));
    }
    assert forall|i: int| 0 <= i < s.len() implies g(#[trigger] s[i]) is None by {
        assert(s.contains(s[i]));
    }
    lemma_pick_none(p, g);
    lemma_pick_none(s, g);
    lemma_pick_none(z, g);
    lemma_pick_add(h + p + s, z, g);
    lemma_pick_add(h + p, s, g);
    lemma_pick_add(h, p, g);
    assert(arrangement(windows, output, focused, origin, zone, geometries).filter_map(g)
        =~= h.filter_map(g));
}

proof fn lemma_redrawn_for_one(w: WindowElement)
    ensures
        hide_steps()(w).filter_map(redrawn()) == w.mapped_on@,
{
    let g = redrawn();
    let render = |output: OutputKey| LayoutAction::ScheduleRenderWhenIdle { output };
    let renders = w.mapped_on@.map_values(render);
    let rest = hide_steps()(w).take(hide_steps()(w).len() - renders.len());
    assert(hide_steps()(w) =~= rest + renders);
    assert forall|i: int| 0 <= i < rest.len() implies g(#[trigger] rest[i]) is None by {
        assert(rest[i] == hide_steps()(w)[i]);
    }
    lemma_pick_none(rest, g);
    lemma_pick_all(w.mapped_on@, render, g);
    lemma_pick_add(rest, renders, g);
    assert(hide_steps()(w).filter_map(g) =~= w.mapped_on@);
}

proof fn lemma_pieces_filtered<A, C>(
    s: Seq<A>,
    p: spec_fn(A) -> bool,
    k: spec_fn(A) -> Seq<C>,
    m: spec_fn(A) -> Seq<C>,
)
    requires
        forall|a: A|
            #[trigger] m(a) == if p(a) {
                k(a)
            } else {
                Seq::empty()
            },
    ensures
        concat_map(s.filter(p), k) == concat_map(s, m),
    decreases s.len(),
{
    reveal(Seq::filter);
    if s.len() > 0 {
        lemma_pieces_filtered(s.drop_last(), p, k, m);
        let last = s.last();
        assert(m(last) == if p(last) {
            k(last)
        } else {
            Seq::empty()
        });
        if p(last) {
            let f = s.drop_last().filter(p);
            assert(f.push(last).drop_last() =~= f);
        }
        assert(concat_map(s.filter(p), k) =~= concat_map(s, m));
    }
}

/// A place that is remembered is that of the window which leaves next, and a window that is
/// told that it is tiled gets its size next and is then mapped.
pub open spec fn in_turn(steps: Seq<LayoutAction>) -> bool {
    &&& forall|i: int|
        0 <= i < steps.len() && #[trigger] steps[i] is SaveFloatingLocation ==> i + 1 < steps.len()
            && steps[i + 1] == (LayoutAction::UnmapElement {
            window: steps[i]->SaveFloatingLocation_window,
        })
    &&& forall|i: int|
        0 <= i < steps.len() && #[trigger] steps[i] is SetTiledStates ==> {
            let window = steps[i]->SetTiledStates_window;
            &&& i + 2 < steps.len()
            &&& (steps[i + 1] is SetPendingSize && steps[i + 1]->SetPendingSize_window == window)
                || (steps[i + 1] is ConfigureX11 && steps[i + 1]->ConfigureX11_window == window)
            &&& steps[i + 2] is MapElement && steps[i + 2]->MapElement_window == window
        }
}

proof fn lemma_in_turn_add(s: Seq<LayoutAction>, t: Seq<LayoutAction>)
    requires
        in_turn(s),
        in_turn(t),
    ensures
        in_turn(s + t),
{
    let all = s + t;
    assert forall|i: int| 0 <= i < all.len() && #[trigger] all[i] is SaveFloatingLocation implies i
        + 1 < all.len() && all[i + 1] == (LayoutAction::UnmapElement {
        window: all[i]->SaveFloatingLocation_window,
    }) by {
        if i < s.len() {
            assert(s[i] is SaveFloatingLocation);
        } else {
            assert(t[i - s.len()] is SaveFloatingLocation);
        }
    }
    assert forall|i: int| 0 <= i < all.len() && #[trigger] all[i] is SetTiledStates implies {
        let window = all[i]->SetTiledStates_window;
        &&& i + 2 < all.len()
        &&& (all[i + 1] is SetPendingSize && all[i + 1]->SetPendingSize_window == window) || (all[i
            + 1] is ConfigureX11 && all[i + 1]->ConfigureX11_window == window)
        &&& all[i + 2] is MapElement && all[i + 2]->MapElement_window == window
    } by {
        if i < s.len() {
            assert(s[i] is SetTiledStates);
        } else {
            assert(t[i - s.len()] is SetTiledStates);
        }
    }
}

proof fn lemma_in_turn_pieces<A>(s: Seq<A>, f: spec_fn(A) -> Seq<LayoutAction>)
    requires
        forall|a: A| in_turn(#[trigger] f(a)),
    ensures
        in_turn(concat_map(s, f)),
    decreases s.len(),
{
    if s.len() > 0 {
        lemma_in_turn_pieces(s.drop_last(), f);
        assert(in_turn(f(s.last())));
        lemma_in_turn_add(concat_map(s.drop_last(), f), f(s.last()));
    }
}

/// The steps for one window come in turn.
pub proof fn law_the_steps_for_a_window_come_in_turn(
    windows: Seq<WindowElement>,
    output: OutputKey,
    focused: Seq<TagId>,
    origin: Point,
    zone: Point,
    geometries: Seq<Rectangle>,
)
    ensures
        in_turn(arrangement(windows, output, focused, origin, zone, geometries)),
{
    let base = origin.plus(zone);
    let visible = windows.filter(shown(output, focused));
    let invisible = windows.filter(hidden(output, focused));
    let placed = placements(visible.filter(tileable()), geometries);
    lemma_in_turn_pieces(invisible, hide_steps());
    lemma_in_turn_pieces(placed, tile_steps(base));
    lemma_in_turn_pieces(visible, settle_steps(origin, base));
    let h = concat_map(invisible, hide_steps());
    let p = concat_map(placed, tile_steps(base));
    let s = concat_map(visible, settle_steps(origin, base));
    lemma_in_turn_add(h, p);
    lemma_in_turn_add(h + p, s);
    lemma_in_turn_add(h + p + s, seq![LayoutAction::FixupZLayering]);
}

/// Windows leave before any window is placed, sized or sent its state, and no state is sent
/// before every window that the layout gives a place to has its size.
pub proof fn law_windows_leave_before_others_are_placed(
    windows: Seq<WindowElement>,
    output: OutputKey,
    focused: Seq<TagId>,
    origin: Point,
    zone: Point,
    geometries: Seq<Rectangle>,
    i: int,
    j: int,
)
    requires
        0 <= i < arrangement(windows, output, focused, origin, zone, geometries).len(),
        0 <= j < arrangement(windows, output, focused, origin, zone, geometries).len(),
    ensures
        ({
            let a = arrangement(windows, output, focused, origin, zone, geometries)[i];
            let b = arrangement(windows, output, focused, origin, zone, geometries)[j];
            &&& (a is SaveFloatingLocation || a is UnmapElement || a is ScheduleRenderWhenIdle) && (
            b is SetTiledStates || b is SetPendingSize || b is ConfigureX11 || b is MapElement
                || b is SendPendingConfigure || b is FixupZLayering) ==> i < j
            &&& (a is SetTiledStates || a is SetPendingSize || a is ConfigureX11)
                && b is SendPendingConfigure ==> i < j
            &&& a is FixupZLayering <==> i == arrangement(windows, output, focused, origin, zone, geometries).len()
                - 1
        }),
{
    let base = origin.plus(zone);
    let visible = windows.filter(shown(output, focused));
    let invisible = windows.filter(hidden(output, focused));
    let placed = placements(visible.filter(tileable()), geometries);
    let h = concat_map(invisible, hide_steps());
    let p = concat_map(placed, tile_steps(base));
    let s = concat_map(visible, settle_steps(origin, base));
    let all = arrangement(windows, output, focused, origin, zone, geometries);
    lemma_kinds(invisible, placed, visible, origin, base);
    assert forall|n: int| 0 <= n < all.len() implies {
        &&& n < h.len() ==> h.contains(#[trigger] all[n])
        &&& h.len() <= n < h.len() + p.len() ==> p.contains(all[n])
        &&& h.len() + p.len() <= n < h.len() + p.len() + s.len() ==> s.contains(all[n])
        &&& n == h.len() + p.len() + s.len() ==> all[n] is FixupZLayering
        &&& n <= h.len() + p.len() + s.len()
    } by {
        if n < h.len() {
            assert(h[n] == all[n]);
        } else if n < h.len() + p.len() {
            assert(p[n - h.len()] == all[n]);
        } else if n < h.len() + p.len() + s.len() {
            assert(s[n - h.len() - p.len()] == all[n]);
        }
    }
    assert(all[i] == all[i] && all[j] == all[j]);
}

/// A window in view that is not tiled is mapped at one place only. A fullscreen window is
/// mapped at the corner of its output, a maximized one at the corner of the free area there,
/// and a floating one where it floats.
pub proof fn law_windows_in_view_stand_where_their_mode_puts_them(
    windows: Seq<WindowElement>,
    output: OutputKey,
    focused: Seq<TagId>,
    origin: Point,
    zone: Point,
    geometries: Seq<Rectangle>,
    i: int,
    location: Point,
)
    requires
        told_apart(windows),
        0 <= i < windows.len(),
        in_view(windows[i], output, focused),
    ensures
        ({
            let w = windows[i];
            let maps = arrangement(windows, output, focused, origin, zone, geometries).contains(
                LayoutAction::MapElement { window: w.key, location },
            );
            &&& w.state.layout_mode is Fullscreen ==> (maps <==> location.x == origin.x
                && location.y == origin.y)
            &&& w.state.layout_mode is Maximized ==> (maps <==> location == origin.plus(zone))
            &&& w.state.layout_mode is Maximized && maps && i32::MIN <= origin.x + zone.x
                <= i32::MAX ==> location.x == origin.x + zone.x
            &&& w.state.layout_mode is Maximized && maps && i32::MIN <= origin.y + zone.y
                <= i32::MAX ==> location.y == origin.y + zone.y
            &&& w.state.layout_mode is Floating && w.state.floating_loc is Some ==> (maps
                <==> location == w.state.floating_loc->0)
        }),
{
    lemma_view(windows[i], output, focused);
    let w = windows[i];
    if settled_at(w, origin, origin.plus(zone)) is Some {
        law_other_modes_have_their_places(windows, output, focused, origin, zone, geometries, i);
    }
}

/// The windows that are waited for are those that answered with a serial, each as often and in
/// the order in which it did: nothing is waited for without replies, a reply with a serial
/// adds its window and serial at the end, and one without adds nothing.
pub proof fn law_replies_with_a_serial_are_waited_for(
    replies: Seq<(WindowKey, Option<Serial>)>,
    window: WindowKey,
    serial: Serial,
)
    ensures
        Seq::<(WindowKey, Option<Serial>)>::empty().filter_map(replied()) == Seq::<
            (WindowKey, Serial),
        >::empty(),
        replies.push((window, Some(serial))).filter_map(replied()) == replies.filter_map(
            replied(),
        ).push((window, serial)),
        replies.push((window, None)).filter_map(replied()) == replies.filter_map(replied()),
{
    assert(replies.push((window, Some(serial))).drop_last() =~= replies);
    assert(replies.push((window, None)).drop_last() =~= replies);
    assert(replies.push((window, Some(serial))).filter_map(replied()) =~= replies.filter_map(
        replied(),
    ).push((window, serial)));
}

/// An output is arranged by what holds of it: its own windows leave or come by its own focused
/// tags, those that the layout gives a place to stand in its free area, and the others in view
/// stand where they float, on its free area or on the whole of it. Nothing else of the output
/// matters.
pub proof fn law_an_output_is_arranged_by_what_holds_of_it(
    windows: Seq<WindowElement>,
    output: Output,
    geometries: Seq<Rectangle>,
)
    requires
        output.geometry is Some,
    ensures
        ({
            let steps = arranged(windows, output, geometries);
            let focused = output.focused_tags@;
            let corner = output.geometry->0.loc;
            let free = output.non_exclusive_zone.loc;
            let laid = laid_windows(windows, output.key, focused, geometries);
            &&& steps.filter_map(leaving()) == windows.filter_map(
                out_of_view_key(output.key, focused),
            )
            &&& steps.filter_map(remembered()) == windows.filter_map(
                out_of_view_place(output.key, focused),
            )
            &&& steps.filter_map(told_tiled()) == laid.filter_map(
                |p: (WindowElement, Rectangle)| Some(p.0.key),
            )
            &&& steps.filter_map(redrawn()) == concat_map(
                windows,
                |w: WindowElement|
                    if out_of_view(w, output.key, focused) {
                        w.mapped_on@
                    } else {
                        Seq::empty()
                    },
            )
            &&& steps.filter_map(sized()) == laid.filter_map(
                |p: (WindowElement, Rectangle)|
                    if p.0.underlying_surface is Wayland {
                        Some((p.0.key, p.1.size))
                    } else {
                        None
                    },
            )
            &&& steps.filter_map(configured()) == laid.filter_map(
                |p: (WindowElement, Rectangle)|
                    if p.0.underlying_surface is X11 {
                        Some(
                            (
                                p.0.key,
                                Rectangle {
                                    loc: p.1.loc.plus(corner.plus(free)),
                                    size: p.1.size,
                                },
                            ),
                        )
                    } else {
                        None
                    },
            )
            &&& steps.filter_map(mapped()) == laid.filter_map(
                |p: (WindowElement, Rectangle)| Some((p.0.key, p.1.loc.plus(corner.plus(free)))),
            ) + windows.filter_map(own_place(output.key, focused, corner, free))
            &&& steps.filter_map(sent()) == windows.filter_map(in_view_client(output.key, focused))
            &&& in_turn(steps)
        }),
{
    let focused = output.focused_tags@;
    let corner = output.geometry->0.loc;
    let free = output.non_exclusive_zone.loc;
    law_windows_out_of_view_leave(windows, output.key, focused, corner, free, geometries);
    law_places_out_of_view_are_remembered(windows, output.key, focused, corner, free, geometries);
    law_laid_windows_are_told(windows, output.key, focused, corner, free, geometries);
    law_outputs_are_redrawn_where_windows_leave(
        windows,
        output.key,
        focused,
        corner,
        free,
        geometries,
    );
    law_wayland_windows_get_the_sizes_of_their_geometries(
        windows,
        output.key,
        focused,
        corner,
        free,
        geometries,
    );
    law_x11_windows_get_their_geometries(windows, output.key, focused, corner, free, geometries);
    law_windows_are_mapped_at_their_places(windows, output.key, focused, corner, free, geometries);
    law_clients_in_view_are_sent_their_state(
        windows,
        output.key,
        focused,
        corner,
        free,
        geometries,
    );
    law_the_steps_for_a_window_come_in_turn(windows, output.key, focused, corner, free, geometries);
}

/// On an output whose corner is `corner` a fullscreen window in view is mapped at that corner
/// and nowhere else, and a maximized one at the corner of the free area and nowhere else.
pub proof fn law_fullscreen_and_maximized_windows_stand_on_their_output(
    windows: Seq<WindowElement>,
    output: Output,
    geometries: Seq<Rectangle>,
    i: int,
    location: Point,
)
    requires
        output.geometry is Some,
        told_apart(windows),
        0 <= i < windows.len(),
        in_view(windows[i], output.key, output.focused_tags@),
    ensures
        ({
            let w = windows[i];
            let corner = output.geometry->0.loc;
            let free = output.non_exclusive_zone.loc;
            let maps = arranged(windows, output, geometries).contains(
                LayoutAction::MapElement { window: w.key, location },
            );
            &&& w.state.layout_mode is Fullscreen ==> (maps <==> location.x == corner.x
                && location.y == corner.y)
            &&& w.state.layout_mode is Maximized ==> (maps <==> location == corner.plus(free))
            &&& w.state.layout_mode is Maximized && i32::MIN <= corner.x + free.x <= i32::MAX
                && i32::MIN <= corner.y + free.y <= i32::MAX ==> (maps <==> location.x == corner.x
                + free.x && location.y == corner.y + free.y)
        }),
{
    law_windows_in_view_stand_where_their_mode_puts_them(
        windows,
        output.key,
        output.focused_tags@,
        output.geometry->0.loc,
        output.non_exclusive_zone.loc,
        geometries,
        i,
        location,
    );
}

} // verus!
