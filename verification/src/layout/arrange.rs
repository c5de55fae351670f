//! The arrangement of an output's windows from the geometries of a layout.

use vstd::prelude::*;

use crate::geometry::{Point, Rectangle, Size};
use crate::output::{Output, OutputKey};
use crate::seqs::{concat_map, lemma_concat_map_push, lemma_filter_take};
use crate::state::Pinnacle;
use crate::tags::{distinct, FocusedTags, TagId};
use crate::window::{
    lemma_on_tags_distinct, LayoutModeKind, Serial, WindowElement, WindowKey, WindowSurface,
};

verus! {

/// A step of an arrangement.
#[derive(Debug, Clone, Copy, PartialEq, Eq, Structural)]
pub enum LayoutAction {
    /// Remember where the window floats.
    SaveFloatingLocation { window: WindowKey, location: Point },
    /// Take the window out of the space.
    UnmapElement { window: WindowKey },
    /// Redraw the output once the event loop is idle.
    ScheduleRenderWhenIdle { output: OutputKey },
    /// Tell the client that its window is tiled on every side.
    SetTiledStates { window: WindowKey },
    /// Put the size into the pending state of a Wayland toplevel.
    SetPendingSize { window: WindowKey, size: Size },
    /// Configure an X11 surface.
    ConfigureX11 { window: WindowKey, geometry: Rectangle },
    /// Put the window into the space, without activating it.
    MapElement { window: WindowKey, location: Point },
    /// Send the pending state of a Wayland toplevel, if it has changed. The
    /// compositor notes the serial that this gives, if any.
    SendPendingConfigure { window: WindowKey },
    /// Bring the stacking order of the space up to date.
    FixupZLayering,
}

/// Holds of the windows of `output` that the focused tags show.
pub open spec fn shown(output: OutputKey, focused: Seq<TagId>) -> spec_fn(WindowElement) -> bool {
    |w: WindowElement| w.on_output(output) && w.on_tags(focused)
}

/// Holds of the windows of `output` that the focused tags do not show.
pub open spec fn hidden(output: OutputKey, focused: Seq<TagId>) -> spec_fn(WindowElement) -> bool {
    |w: WindowElement| w.on_output(output) && !w.on_tags(focused)
}

/// Holds of the windows that want a place in the tiled layout.
pub open spec fn tileable() -> spec_fn(WindowElement) -> bool {
    |w: WindowElement| w.takes_tile()
}

/// The steps for a window that the focused tags do not show: it leaves the space,
/// and a floating one has its place remembered.
pub open spec fn hide_steps() -> spec_fn(WindowElement) -> Seq<LayoutAction> {
    |w: WindowElement|
        {
            let save = match w.location {
                Some(location) if w.state.layout_mode == LayoutModeKind::Floating => seq![
                    LayoutAction::SaveFloatingLocation { window: w.key, location },
                ],
                _ => Seq::<LayoutAction>::empty(),
            };
            save + seq![LayoutAction::UnmapElement { window: w.key }] + w.mapped_on@.map_values(
                |output: OutputKey| LayoutAction::ScheduleRenderWhenIdle { output },
            )
        }
}

/// The steps that give a window the place `geo`, which is relative to `base`.
pub open spec fn tile_steps(base: Point) -> spec_fn((WindowElement, Rectangle)) -> Seq<LayoutAction> {
    |p: (WindowElement, Rectangle)|
        {
            let window = p.0.key;
            let geo = p.1.moved(base);
            seq![
                LayoutAction::SetTiledStates { window },
                match p.0.underlying_surface {
                    WindowSurface::Wayland => LayoutAction::SetPendingSize {
                        window,
                        size: geo.size,
                    },
                    WindowSurface::X11 => LayoutAction::ConfigureX11 { window, geometry: geo },
                },
                LayoutAction::MapElement { window, location: geo.loc },
            ]
        }
}

/// The steps for a window that the focused tags show, after the tiled ones have
/// their places: its state is sent, and it is mapped where its mode puts it.
pub open spec fn settle_steps(origin: Point, base: Point) -> spec_fn(WindowElement) -> Seq<
    LayoutAction,
> {
    |w: WindowElement|
        {
            let send = match w.underlying_surface {
                WindowSurface::Wayland => seq![
                    LayoutAction::SendPendingConfigure { window: w.key },
                ],
                WindowSurface::X11 => Seq::<LayoutAction>::empty(),
            };
            send + (match settled_at(w, origin, base) {
                Some(location) => seq![LayoutAction::MapElement { window: w.key, location }],
                None => Seq::<LayoutAction>::empty(),
            })
        }
}

/// Where the mode of a shown window puts it, for an output at `origin` whose free
/// area starts at `base`. A tiled window has its place from the layout.
pub open spec fn settled_at(w: WindowElement, origin: Point, base: Point) -> Option<Point> {
    match w.state.layout_mode {
        LayoutModeKind::Tiled => None,
        LayoutModeKind::Floating => w.state.floating_loc,
        LayoutModeKind::Maximized => Some(base),
        LayoutModeKind::Fullscreen => Some(origin),
    }
}

/// The windows of `tiled` that get a geometry, each with the one it gets. Windows
/// and geometries are paired in order; what is left over of either is not used.
pub open spec fn placements(tiled: Seq<WindowElement>, geometries: Seq<Rectangle>) -> Seq<
    (WindowElement, Rectangle),
> {
    let n = if tiled.len() <= geometries.len() {
        tiled.len()
    } else {
        geometries.len()
    };
    Seq::new(n, |i: int| (tiled[i], geometries[i]))
}

/// The whole arrangement of `windows` on an output.
pub open spec fn arrangement(
    windows: Seq<WindowElement>,
    output: OutputKey,
    focused: Seq<TagId>,
    origin: Point,
    zone: Point,
    geometries: Seq<Rectangle>,
) -> Seq<LayoutAction> {
    let base = origin.plus(zone);
    let visible = windows.filter(shown(output, focused));
    concat_map(windows.filter(hidden(output, focused)), hide_steps()) + concat_map(
        placements(visible.filter(tileable()), geometries),
        tile_steps(base),
    ) + concat_map(visible, settle_steps(origin, base)) + seq![LayoutAction::FixupZLayering]
}

/// The arrangement of `windows` on `output`, whose place in the space is known.
pub open spec fn arranged(
    windows: Seq<WindowElement>,
    output: Output,
    geometries: Seq<Rectangle>,
) -> Seq<LayoutAction> {
    arrangement(
        windows,
        output.key,
        output.focused_tags@,
        output.geometry->0.loc,
        output.non_exclusive_zone.loc,
        geometries,
    )
}

/// The windows that answered with a serial, each with its serial.
pub open spec fn replied() -> spec_fn((WindowKey, Option<Serial>)) -> Option<(WindowKey, Serial)> {
    |r: (WindowKey, Option<Serial>)|
        match r.1 {
            Some(serial) => Some((r.0, serial)),
            None => None,
        }
}

/// Adds the steps that hide `win` to `actions`.
fn push_hide_steps(win: &WindowElement, actions: &mut Vec<LayoutAction>)
    ensures
        final(actions)@ == old(actions)@ + hide_steps()(*win),
{
    if win.state.layout_mode.is_floating() {
        if let Some(location) = win.location {
            actions.push(LayoutAction::SaveFloatingLocation { window: win.key, location });
        }
    }
    actions.push(LayoutAction::UnmapElement { window: win.key });
    let ghost before = actions@;
    let ghost renders = win.mapped_on@.map_values(
        |output: OutputKey| LayoutAction::ScheduleRenderWhenIdle { output },
    );
    let mut i: usize = 0;
    while i < win.mapped_on.len()
        invariant
            i <= win.mapped_on.len(),
            renders == win.mapped_on@.map_values(
                |output: OutputKey| LayoutAction::ScheduleRenderWhenIdle { output },
            ),
            actions@ == before + renders.take(i as int),
        decreases win.mapped_on.len() - i,
    {
        actions.push(LayoutAction::ScheduleRenderWhenIdle { output: win.mapped_on[i] });
        proof {
            assert(renders.take(i + 1) =~= renders.take(i as int).push(renders[i as int]));
        }
        i = i + 1;
    }
    proof {
        assert(renders.take(i as int) =~= renders);
        assert(actions@ =~= old(actions)@ + hide_steps()(*win));
    }
}

/// Adds the steps that give `win` the place `geo`.
fn push_tile_steps(
    win: &WindowElement,
    geo: Rectangle,
    base: Point,
    actions: &mut Vec<LayoutAction>,
)
    ensures
        final(actions)@ == old(actions)@ + tile_steps(base)((*win, geo)),
{
    let geo = geo.translate(base);
    actions.push(LayoutAction::SetTiledStates { window: win.key });
    match win.underlying_surface {
        WindowSurface::Wayland => {
            actions.push(LayoutAction::SetPendingSize { window: win.key, size: geo.size });
        },
        WindowSurface::X11 => {
            actions.push(LayoutAction::ConfigureX11 { window: win.key, geometry: geo });
        },
    }
    actions.push(LayoutAction::MapElement { window: win.key, location: geo.loc });
}

/// Adds the steps that settle `win`.
fn push_settle_steps(
    win: &WindowElement,
    origin: Point,
    base: Point,
    actions: &mut Vec<LayoutAction>,
)
    ensures
        final(actions)@ == old(actions)@ + settle_steps(origin, base)(*win),
{
    if let WindowSurface::Wayland = win.underlying_surface {
        actions.push(LayoutAction::SendPendingConfigure { window: win.key });
    }
    match win.state.layout_mode {
        LayoutModeKind::Tiled => (),
        LayoutModeKind::Floating => {
            if let Some(location) = win.state.floating_loc {
                actions.push(LayoutAction::MapElement { window: win.key, location });
            }
        },
        LayoutModeKind::Maximized => {
            actions.push(LayoutAction::MapElement { window: win.key, location: base });
        },
        LayoutModeKind::Fullscreen => {
            actions.push(LayoutAction::MapElement { window: win.key, location: origin });
        },
    }
    proof {
        assert(actions@ =~= old(actions)@ + settle_steps(origin, base)(*win));
    }
}

/// The windows that stand at the positions `indices`.
spec fn pick(windows: Seq<WindowElement>, indices: Seq<usize>) -> Seq<WindowElement> {
    indices.map_values(|i: usize| windows[i as int])
}

impl<T> Pinnacle<T> {
    /// Plans how the windows of `output` are arranged, where the layout gives the
    /// tiled ones the places `geometries`, relative to the free area of the output.
    ///
    /// A tiled window for which no geometry is left keeps the place it had.
    pub fn update_windows_with_geometries(
        &self,
        output: &Output,
        geometries: &Vec<Rectangle>,
    ) -> (r: Vec<LayoutAction>)
        requires
            output.geometry is Some,
        ensures
            r@ == arrangement(
                self.windows@,
                output.key,
                output.focused_tags@,
                output.geometry->0.loc,
                output.non_exclusive_zone.loc,
                geometries@,
            ),
            r@ == arranged(self.windows@, *output, geometries@),
    {
        let output_geo = output.geometry.unwrap();
        let origin = output_geo.loc;
        let base = origin.saturating_add(output.non_exclusive_zone.loc);
        let focused = FocusedTags::new(&output.focused_tags);
        let ghost ws = self.windows@;
        let ghost is_shown = shown(output.key, output.focused_tags@);
        let ghost is_hidden = hidden(output.key, output.focused_tags@);

        let mut actions: Vec<LayoutAction> = Vec::new();
        let mut visible: Vec<usize> = Vec::new();
        let mut i: usize = 0;
        proof {
            reveal(Seq::filter);
            assert(ws.take(0) =~= Seq::empty());
            assert(pick(ws, visible@) =~= ws.take(0).filter(is_shown));
        }
        while i < self.windows.len()
            invariant
                i <= self.windows.len(),
                ws == self.windows@,
                is_shown == shown(output.key, output.focused_tags@),
                is_hidden == hidden(output.key, output.focused_tags@),
                focused@ == distinct(output.focused_tags@),
                forall|k: int| 0 <= k < visible.len() ==> #[trigger] visible[k] < ws.len(),
                pick(ws, visible@) == ws.take(i as int).filter(is_shown),
                actions@ == concat_map(ws.take(i as int).filter(is_hidden), hide_steps()),
            decreases self.windows.len() - i,
        {
            let win = &self.windows[i];
            proof {
                lemma_on_tags_distinct(ws[i as int], output.focused_tags@);
                lemma_filter_take(ws, is_shown, i as int);
                lemma_filter_take(ws, is_hidden, i as int);
                lemma_concat_map_push(
                    ws.take(i as int).filter(is_hidden),
                    hide_steps(),
                    ws[i as int],
                );
            }
            if win.is_on_output(output.key) {
                if focused.shows(&win.state.tags) {
                    let ghost before = visible@;
                    visible.push(i);
                    proof {
                        assert(pick(ws, visible@) =~= pick(ws, before).push(ws[i as int]));
                    }
                } else {
                    push_hide_steps(win, &mut actions);
                }
            }
            i = i + 1;
        }

        let ghost vis = ws.filter(is_shown);
        let ghost hide = concat_map(ws.filter(is_hidden), hide_steps());
        proof {
            assert(ws.take(i as int) =~= ws);
            assert(vis.take(0) =~= Seq::empty());
            assert(vis.take(0).filter(tileable()) =~= Seq::empty());
            assert(placements(vis.take(0).filter(tileable()), geometries@) =~= Seq::empty());
            assert(actions@ =~= hide + concat_map(
                placements(vis.take(0).filter(tileable()), geometries@),
                tile_steps(base),
            ));
        }
        let mut placed: usize = 0;
        let mut j: usize = 0;
        while j < visible.len()
            invariant
                j <= visible.len(),
                ws == self.windows@,
                forall|k: int| 0 <= k < visible.len() ==> #[trigger] visible[k] < ws.len(),
                pick(ws, visible@) == vis,
                placed == placements(vis.take(j as int).filter(tileable()), geometries@).len(),
                actions@ == hide + concat_map(
                    placements(vis.take(j as int).filter(tileable()), geometries@),
                    tile_steps(base),
                ),
            decreases visible.len() - j,
        {
            let win = &self.windows[visible[j]];
            let ghost tiled = vis.take(j as int).filter(tileable());
            proof {
                assert(vis[j as int] == *win);
                lemma_filter_take(vis, tileable(), j as int);
            }
            if win.is_tileable() {
                if placed < geometries.len() {
                    let ghost pair = (*win, geometries@[placed as int]);
                    push_tile_steps(win, geometries[placed], base, &mut actions);
                    proof {
                        assert(placements(tiled.push(*win), geometries@) =~= placements(
                            tiled,
                            geometries@,
                        ).push(pair));
                        lemma_concat_map_push(
                            placements(tiled, geometries@),
                            tile_steps(base),
                            pair,
                        );
                        assert(actions@ =~= hide + concat_map(
                            placements(tiled.push(*win), geometries@),
                            tile_steps(base),
                        ));
                    }
                    placed = placed + 1;
                } else {
                    proof {
                        assert(placements(tiled.push(*win), geometries@) =~= placements(
                            tiled,
                            geometries@,
                        ));
                    }
                }
            }
            j = j + 1;
        }

        let ghost tile = concat_map(
            placements(vis.filter(tileable()), geometries@),
            tile_steps(base),
        );
        proof {
            assert(vis.take(j as int) =~= vis);
            assert(vis.take(0) =~= Seq::empty());
            assert(actions@ =~= hide + tile + concat_map(vis.take(0), settle_steps(origin, base)));
        }
        let mut k: usize = 0;
        while k < visible.len()
            invariant
                k <= visible.len(),
                ws == self.windows@,
                forall|m: int| 0 <= m < visible.len() ==> #[trigger] visible[m] < ws.len(),
                pick(ws, visible@) == vis,
                actions@ == hide + tile + concat_map(
                    vis.take(k as int),
                    settle_steps(origin, base),
                ),
            decreases visible.len() - k,
        {
            let win = &self.windows[visible[k]];
            proof {
                assert(vis[k as int] == *win);
                assert(vis.take(k + 1) =~= vis.take(k as int).push(*win));
                lemma_concat_map_push(vis.take(k as int), settle_steps(origin, base), *win);
            }
            push_settle_steps(win, origin, base, &mut actions);
            proof {
                assert(actions@ =~= hide + tile + concat_map(
                    vis.take(k + 1),
                    settle_steps(origin, base),
                ));
            }
            k = k + 1;
        }
        proof {
            assert(vis.take(k as int) =~= vis);
        }
        actions.push(LayoutAction::FixupZLayering);
        actions
    }
}

/// Gathers the windows whose new state is on its way to the client, from what
/// sending it gave for each window that was asked.
pub fn pending_windows(replies: &Vec<(WindowKey, Option<Serial>)>) -> (r: Vec<(WindowKey, Serial)>)
    ensures
        r@ == replies@.filter_map(replied()),
{
    let mut pending: Vec<(WindowKey, Serial)> = Vec::new();
    let mut i: usize = 0;
    while i < replies.len()
        invariant
            i <= replies.len(),
            pending@ == replies@.take(i as int).filter_map(replied()),
        decreases replies.len() - i,
    {
        let reply = replies[i];
        proof {
            assert(replies@.take(i + 1).drop_last() =~= replies@.take(i as int));
            assert(replies@.take(i + 1).last() == reply);
        }
        if let Some(serial) = reply.1 {
            pending.push((reply.0, serial));
        }
        i = i + 1;
    }
    proof {
        assert(replies@.take(i as int) =~= replies@);
    }
    pending
}

} // verus!
