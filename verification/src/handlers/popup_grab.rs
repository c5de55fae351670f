//! The grab of keyboard and pointer that a popup asks for.
//!
//! A grab goes through three decisions. First, what the popup belongs to: without
//! such a root there is no grab. Then, once the popup manager has granted the grab,
//! whether the keyboard lets it in, and after that whether the pointer does. A device
//! that something else has grabbed ends the whole grab.

use vstd::prelude::*;

use crate::handlers::xdg_shell::has_surface;
use crate::seqs::{first_where, is_first_where, lemma_first_where_is, lemma_first_where_none};
use crate::state::State;
use crate::window::{Serial, SurfaceKey, WindowElement, WindowKey};

verus! {

/// Identifies a layer surface.
pub type LayerKey = u64;

/// What the keyboard can be focused on.
#[derive(Debug, Clone, Copy, PartialEq, Eq, Structural)]
pub enum KeyboardFocusTarget {
    Window(WindowKey),
    LayerSurface(LayerKey),
}

/// Holds of the answers that name a layer.
pub open spec fn names_layer() -> spec_fn(Option<LayerKey>) -> bool {
    |layer: Option<LayerKey>| layer is Some
}

/// What the popup with the root surface `root` belongs to: the mapped window with
/// this surface, or else the layer that the first output with one has for it.
pub open spec fn grab_root(
    windows: Seq<WindowElement>,
    root: SurfaceKey,
    layers: Seq<Option<LayerKey>>,
) -> Option<KeyboardFocusTarget> {
    match first_where(windows, has_surface(root)) {
        Some(i) => Some(KeyboardFocusTarget::Window(windows[i].key)),
        None => match first_where(layers, names_layer()) {
            Some(i) => Some(KeyboardFocusTarget::LayerSurface(layers[i]->0)),
            None => None,
        },
    }
}

/// What a popup that asks for a grab belongs to, where `root` is its root surface, if it has
/// one.
pub open spec fn grab_target(
    windows: Seq<WindowElement>,
    root: Option<SurfaceKey>,
    layers: Seq<Option<LayerKey>>,
) -> Option<KeyboardFocusTarget> {
    match root {
        Some(root) => grab_root(windows, root, layers),
        None => None,
    }
}

impl<T> State<T> {
    /// Finds what a popup that asks for a grab belongs to. `root` is the root surface
    /// of the popup, if it has one, and `layers` holds, for each output of the space
    /// in turn, the layer whose toplevel surface is `root`. Without a root there is
    /// nothing to grab for.
    pub fn grab(&self, root: Option<SurfaceKey>, layers: &Vec<Option<LayerKey>>) -> (r: Option<
        KeyboardFocusTarget,
    >)
        ensures
            r == match root {
                Some(root) => grab_root(self.pinnacle.windows@, root, layers@),
                None => None,
            },
            r == grab_target(self.pinnacle.windows@, root, layers@),
    {
        let surface = match root {
            Some(surface) => surface,
            None => {
                return None;
            },
        };
        if let Some(window) = self.pinnacle.window_for_surface(surface) {
            return Some(KeyboardFocusTarget::Window(window.key));
        }
        let mut i: usize = 0;
        while i < layers.len()
            invariant
                i <= layers.len(),
                forall|j: int| 0 <= j < i ==> !names_layer()(#[trigger] layers@[j]),
                root == Some(surface),
                first_where(self.pinnacle.windows@, has_surface(surface)) is None,
            decreases layers.len() - i,
        {
            if let Some(layer) = layers[i] {
                proof {
                    assert(is_first_where(layers@, names_layer(), i as int));
                    lemma_first_where_is(layers@, names_layer(), i as int);
                }
                return Some(KeyboardFocusTarget::LayerSurface(layer));
            }
            i = i + 1;
        }
        proof {
            lemma_first_where_none(layers@, names_layer());
        }
        None
    }
}

/// Who has grabbed an input device.
#[derive(Debug, Clone, Copy, PartialEq, Eq, Structural)]
pub struct DeviceGrab {
    /// Whether the device is grabbed at all.
    pub is_grabbed: bool,
    /// Whether the grab has the serial that was asked for first.
    pub has_serial: bool,
    /// Whether the grab has the serial that was asked for second.
    pub has_previous: bool,
}

impl DeviceGrab {
    /// Something else has grabbed the device.
    pub open spec fn taken(self) -> bool {
        self.is_grabbed && !self.has_serial && !self.has_previous
    }

    /// Whether something else has grabbed the device.
    pub fn is_taken(&self) -> (r: bool)
        ensures
            r == self.taken(),
    {
        self.is_grabbed && !(self.has_serial || self.has_previous)
    }
}

/// What becomes of the focus of a device that a popup takes.
#[derive(Debug, Clone, Copy, PartialEq, Eq, Structural)]
pub enum GrabFocus {
    /// The device is focused on what the grab is on at the time.
    CurrentGrab,
    /// The device keeps the focus that it has.
    Keep,
}

/// What is done with an input device.
#[derive(Debug, Clone, Copy, PartialEq, Eq, Structural)]
pub enum GrabStep {
    /// The seat has no such device: nothing is done with it.
    Skip,
    /// The popup takes the device. The focus is set first, where it is set, and both
    /// that and the grab are made with the serial `serial`.
    Install { serial: Serial, focus: GrabFocus },
    /// The whole grab ends and all its popups are dismissed.
    UngrabAll,
}

/// A grab that the popup manager has granted.
#[derive(Debug, Clone, Copy, PartialEq, Eq, Structural)]
pub struct PopupGrab {
    /// The serial that the client asked with.
    pub request: Serial,
    /// The serial of the grab itself.
    pub serial: Serial,
    /// The serial of the grab that the parent popup has, if there is one.
    pub previous: Option<Serial>,
}

/// The device that a grab takes next.
#[derive(Debug, Clone, Copy, PartialEq, Eq, Structural)]
pub enum GrabStage {
    Keyboard,
    Pointer,
}

/// The device that a grab takes first.
pub fn first_stage() -> (r: GrabStage)
    ensures
        r == GrabStage::Keyboard,
{
    GrabStage::Keyboard
}

/// What becomes of the focus of the device of `stage`: the keyboard follows the grab
/// and the pointer stays where it is.
pub open spec fn focus_at(stage: GrabStage) -> GrabFocus {
    match stage {
        GrabStage::Keyboard => GrabFocus::CurrentGrab,
        GrabStage::Pointer => GrabFocus::Keep,
    }
}

/// The device that comes after `stage`, where `step` is done with that of `stage`.
pub open spec fn next_stage(stage: GrabStage, step: GrabStep) -> Option<GrabStage> {
    if stage == GrabStage::Keyboard && step != GrabStep::UngrabAll {
        Some(GrabStage::Pointer)
    } else {
        None
    }
}

impl PopupGrab {
    /// What is done with the device of `stage`, where `device` says who has grabbed it.
    pub open spec fn grab_step(self, stage: GrabStage, device: Option<DeviceGrab>) -> GrabStep {
        match device {
            None => GrabStep::Skip,
            Some(grab) => if grab.taken() {
                GrabStep::UngrabAll
            } else {
                GrabStep::Install { serial: self.request, focus: focus_at(stage) }
            },
        }
    }

    /// A whole grab from `stage` on: the devices that it takes up, in turn, each with
    /// what is done with it. `keyboard` and `pointer` say who has grabbed the two.
    pub open spec fn run(
        self,
        stage: GrabStage,
        keyboard: Option<DeviceGrab>,
        pointer: Option<DeviceGrab>,
    ) -> Seq<(GrabStage, GrabStep)>
        decreases if stage == GrabStage::Keyboard { 1int } else { 0int },
    {
        let step = self.grab_step(
            stage,
            match stage {
                GrabStage::Keyboard => keyboard,
                GrabStage::Pointer => pointer,
            },
        );
        match next_stage(stage, step) {
            Some(GrabStage::Pointer) => seq![(stage, step)] + self.run(
                GrabStage::Pointer,
                keyboard,
                pointer,
            ),
            _ => seq![(stage, step)],
        }
    }

    /// The second serial with which the device of `stage` may be grabbed already: that
    /// of the parent popup's grab. Without one it is, for the keyboard, the serial of
    /// the request, and, for the pointer, that of the grab itself.
    pub open spec fn fallback_serial(self, stage: GrabStage) -> Serial {
        match (self.previous, stage) {
            (Some(previous), _) => previous,
            (None, GrabStage::Keyboard) => self.request,
            (None, GrabStage::Pointer) => self.serial,
        }
    }

    /// The two serials with which the device of `stage` may be grabbed already.
    pub fn serials(&self, stage: GrabStage) -> (r: (Serial, Serial))
        ensures
            r == (self.request, self.fallback_serial(stage)),
    {
        match stage {
            GrabStage::Keyboard => (self.request, self.previous.unwrap_or(self.request)),
            GrabStage::Pointer => (self.request, self.previous.unwrap_or(self.serial)),
        }
    }

    /// Decides what is done with the device of `stage`, and which device is next.
    /// `device` says who has grabbed it, with the two serials of `serials` asked for;
    /// it is `None` where the seat has no such device.
    pub fn step(&self, stage: GrabStage, device: Option<DeviceGrab>) -> (r: (
        GrabStep,
        Option<GrabStage>,
    ))
        ensures
            r.0 == self.grab_step(stage, device),
            r.1 == next_stage(stage, r.0),
    {
        let grab = match device {
            Some(grab) => grab,
            None => {
                return match stage {
                    GrabStage::Keyboard => (GrabStep::Skip, Some(GrabStage::Pointer)),
                    GrabStage::Pointer => (GrabStep::Skip, None),
                };
            },
        };
        if grab.is_taken() {
            return (GrabStep::UngrabAll, None);
        }
        match stage {
            GrabStage::Keyboard => (
                GrabStep::Install { serial: self.request, focus: GrabFocus::CurrentGrab },
                Some(GrabStage::Pointer),
            ),
            GrabStage::Pointer => (
                GrabStep::Install { serial: self.request, focus: GrabFocus::Keep },
                None,
            ),
        }
    }
}

/// The pointer is taken up exactly where the keyboard is not grabbed by something
/// else, and a grab that ends does so with its last step: nothing is installed after.
pub proof fn law_grab_ends_at_a_taken_device(
    grab: PopupGrab,
    keyboard: Option<DeviceGrab>,
    pointer: Option<DeviceGrab>,
)
    ensures
        ({
            let run = grab.run(GrabStage::Keyboard, keyboard, pointer);
            let blocked = keyboard matches Some(k) && k.taken();
            &&& run.len() == if blocked { 1nat } else { 2nat }
            &&& run[0] == (GrabStage::Keyboard, grab.grab_step(GrabStage::Keyboard, keyboard))
            &&& !blocked ==> run[1] == (
                GrabStage::Pointer,
                grab.grab_step(GrabStage::Pointer, pointer),
            )
            &&& forall|i: int|
                0 <= i < run.len() && #[trigger] run[i].1 == GrabStep::UngrabAll ==> i == run.len()
                    - 1
            &&& (exists|i: int| 0 <= i < run.len() && #[trigger] run[i].1 == GrabStep::UngrabAll)
                <==> blocked || (pointer matches Some(p) && p.taken())
        }),
{
    reveal_with_fuel(PopupGrab::run, 2);
    let run = grab.run(GrabStage::Keyboard, keyboard, pointer);
    assert(run[0].1 == grab.grab_step(GrabStage::Keyboard, keyboard));
    if !(keyboard matches Some(k) && k.taken()) {
        assert(run =~= seq![
            (GrabStage::Keyboard, grab.grab_step(GrabStage::Keyboard, keyboard)),
            (GrabStage::Pointer, grab.grab_step(GrabStage::Pointer, pointer)),
        ]);
        assert(run[1].1 == grab.grab_step(GrabStage::Pointer, pointer));
    }
}

/// Where nothing else has grabbed a device, the popup takes each device that the seat
/// has, with the serial of the request: the keyboard is focused on the grab and the
/// pointer keeps its focus. A seat that lacks one device still gives the other.
pub proof fn law_free_devices_are_all_taken(
    grab: PopupGrab,
    keyboard: Option<DeviceGrab>,
    pointer: Option<DeviceGrab>,
)
    requires
        keyboard matches Some(k) ==> !k.taken(),
        pointer matches Some(p) ==> !p.taken(),
    ensures
        grab.run(GrabStage::Keyboard, keyboard, pointer) == seq![
            (
                GrabStage::Keyboard,
                if keyboard is Some {
                    GrabStep::Install { serial: grab.request, focus: GrabFocus::CurrentGrab }
                } else {
                    GrabStep::Skip
                },
            ),
            (
                GrabStage::Pointer,
                if pointer is Some {
                    GrabStep::Install { serial: grab.request, focus: GrabFocus::Keep }
                } else {
                    GrabStep::Skip
                },
            ),
        ],
{
    law_grab_ends_at_a_taken_device(grab, keyboard, pointer);
}

/// A device ends the grab exactly where it is grabbed and the grab has neither of the two
/// serials. A device that is free, or that either serial has grabbed, is taken, with the
/// serial of the request; a device that the seat lacks is passed over.
pub proof fn law_a_device_is_given_up_to_other_grabs_only(
    grab: PopupGrab,
    stage: GrabStage,
    device: DeviceGrab,
)
    ensures
        grab.grab_step(stage, Some(device)) == GrabStep::UngrabAll <==> device.is_grabbed
            && !device.has_serial && !device.has_previous,
        !device.is_grabbed || device.has_serial || device.has_previous ==> grab.grab_step(
            stage,
            Some(device),
        ) == (GrabStep::Install {
            serial: grab.request,
            focus: if stage is Keyboard {
                GrabFocus::CurrentGrab
            } else {
                GrabFocus::Keep
            },
        }),
        grab.grab_step(stage, None) == GrabStep::Skip,
{
}

/// After the keyboard comes the pointer, unless the grab has ended, and after the pointer
/// nothing.
pub proof fn law_the_pointer_comes_after_the_keyboard(step: GrabStep)
    ensures
        step is UngrabAll ==> next_stage(GrabStage::Keyboard, step) is None,
        !(step is UngrabAll) ==> next_stage(GrabStage::Keyboard, step) == Some(GrabStage::Pointer),
        next_stage(GrabStage::Pointer, step) is None,
{
}

/// The second serial is that of the parent's grab, for both devices. Only without a parent do
/// they differ: the keyboard falls back on the request and the pointer on the grab itself.
pub proof fn law_the_parent_comes_before_the_fallback(grab: PopupGrab)
    ensures
        grab.previous is Some ==> grab.fallback_serial(GrabStage::Keyboard) == grab.previous->0
            && grab.fallback_serial(GrabStage::Pointer) == grab.previous->0,
        grab.previous is None ==> grab.fallback_serial(GrabStage::Keyboard) == grab.request
            && grab.fallback_serial(GrabStage::Pointer) == grab.serial,
{
}

/// A popup belongs to the first mapped window with its root surface, whatever the layers
/// are.
pub proof fn law_a_popup_belongs_to_its_window(
    windows: Seq<WindowElement>,
    root: SurfaceKey,
    layers: Seq<Option<LayerKey>>,
    i: int,
)
    requires
        0 <= i < windows.len() && windows[i].surface == Some(root),
        forall|j: int| 0 <= j < i ==> (#[trigger] windows[j]).surface != Some(root),
    ensures
        grab_root(windows, root, layers) == Some(KeyboardFocusTarget::Window(windows[i].key)),
        grab_target(windows, Some(root), layers) == Some(
            KeyboardFocusTarget::Window(windows[i].key),
        ),
        grab_target(windows, None, layers) is None,
{
    assert forall|j: int| 0 <= j < i implies !has_surface(root)(#[trigger] windows[j]) by {
    }
    assert(is_first_where(windows, has_surface(root), i));
    lemma_first_where_is(windows, has_surface(root), i);
}

/// Without such a window a popup belongs to the layer of the first output that has one for
/// it, and to nothing where no output has one.
pub proof fn law_a_popup_belongs_to_its_layer(
    windows: Seq<WindowElement>,
    root: SurfaceKey,
    layers: Seq<Option<LayerKey>>,
    i: int,
)
    requires
        forall|j: int| 0 <= j < windows.len() ==> (#[trigger] windows[j]).surface != Some(root),
        0 <= i <= layers.len(),
        forall|j: int| 0 <= j < i ==> (#[trigger] layers[j]) is None,
        i < layers.len() ==> layers[i] is Some,
    ensures
        i < layers.len() ==> grab_root(windows, root, layers) == Some(
            KeyboardFocusTarget::LayerSurface(layers[i]->0),
        ),
        i == layers.len() ==> grab_root(windows, root, layers) is None,
        i < layers.len() ==> grab_target(windows, Some(root), layers) == Some(
            KeyboardFocusTarget::LayerSurface(layers[i]->0),
        ),
        i == layers.len() ==> grab_target(windows, Some(root), layers) is None,
        grab_target(windows, None, layers) is None,
{
    assert forall|j: int| 0 <= j < windows.len() implies !has_surface(root)(
        #[trigger] windows[j],
    ) by {
    }
    lemma_first_where_none(windows, has_surface(root));
    assert forall|j: int| 0 <= j < i implies !names_layer()(#[trigger] layers[j]) by {
    }
    if i < layers.len() {
        assert(is_first_where(layers, names_layer(), i));
        lemma_first_where_is(layers, names_layer(), i);
    } else {
        lemma_first_where_none(layers, names_layer());
    }
}

} // verus!
