//! The colour plane: a picker of two channels with a third that is fixed.

use vstd::prelude::*;

use crate::float_bits;
use crate::material::{ColorPlaneAxes, UiMaterialData, UiMaterialTag};
use crate::abi::UI_MODE_COLOR_PLANE;

verus! {

/// The channels of a colour plane.
#[derive(Debug, Clone, Copy, PartialEq, Eq, Structural, Hash)]
pub enum FeathersColorPlane {
    RedGreen,
    RedBlue,
    GreenBlue,
    HueSaturation,
    HueLightness,
}

impl Default for FeathersColorPlane {
    fn default() -> (plane: FeathersColorPlane)
        ensures
            plane == FeathersColorPlane::HueLightness,
    {
        FeathersColorPlane::HueLightness
    }
}

/// The axes of a plane.
pub open spec fn axes_of(plane: FeathersColorPlane) -> ColorPlaneAxes {
    match plane {
        FeathersColorPlane::RedGreen => ColorPlaneAxes::RedGreen,
        FeathersColorPlane::RedBlue => ColorPlaneAxes::RedBlue,
        FeathersColorPlane::GreenBlue => ColorPlaneAxes::GreenBlue,
        FeathersColorPlane::HueSaturation => ColorPlaneAxes::HueSaturation,
        FeathersColorPlane::HueLightness => ColorPlaneAxes::HueLightness,
    }
}

/// Finds the axes of a plane.
pub fn plane_axes(plane: FeathersColorPlane) -> (axes: ColorPlaneAxes)
    ensures
        axes == axes_of(plane),
{
    match plane {
        FeathersColorPlane::RedGreen => ColorPlaneAxes::RedGreen,
        FeathersColorPlane::RedBlue => ColorPlaneAxes::RedBlue,
        FeathersColorPlane::GreenBlue => ColorPlaneAxes::GreenBlue,
        FeathersColorPlane::HueSaturation => ColorPlaneAxes::HueSaturation,
        FeathersColorPlane::HueLightness => ColorPlaneAxes::HueLightness,
    }
}

/// The material of a plane's inside: its axes and the channel that is fixed.
pub fn plane_material(plane: FeathersColorPlane, fixed_channel: u32) -> (tag: UiMaterialTag)
    ensures
        tag.mode == UI_MODE_COLOR_PLANE,
        tag.data == (UiMaterialData { variant: axes_of(plane).plane(), fixed_channel }),
{
    UiMaterialTag::color_plane(plane_axes(plane), fixed_channel)
}

/// The bit pattern of one.
pub const ONE: u32 = 0x3f80_0000;

/// A channel's value held between zero and one; what is no number is held at
/// zero.
pub open spec fn held_to_unit(value: u32) -> u32 {
    if !float_bits::less(0, value) {
        0
    } else if float_bits::less(value, ONE) {
        value
    } else {
        ONE
    }
}

/// Holds a channel's value between zero and one.
pub fn hold_to_unit(value: u32) -> (held: u32)
    ensures
        held == held_to_unit(value),
{
    if !float_bits::is_less(0, value) {
        0
    } else if float_bits::is_less(value, ONE) {
        value
    } else {
        ONE
    }
}

/// What is held lies between zero and one, whatever it was.
pub proof fn law_held_values_lie_in_unit(value: u32)
    ensures
        float_bits::at_most(0, held_to_unit(value)),
        float_bits::at_most(held_to_unit(value), ONE),
{
}

// ---------------------------------------------------------------------------
// Dragging

/// What the pointer does on a plane.
#[derive(Debug, Clone, Copy, PartialEq, Eq, Structural)]
pub enum PlaneEvent {
    Press,
    DragStart,
    Drag,
    DragEnd,
    Cancel,
}

/// What follows from an event.
#[derive(Debug, Clone, Copy, PartialEq, Eq, Structural)]
pub struct PlaneReaction {
    /// Whether a drag is under way from then on.
    pub dragging: bool,
    /// Whether the event stops here.
    pub consumed: bool,
    /// Whether the value changes, and whether that is final.
    pub emits: Option<bool>,
}

/// What follows from an event on the inside of a plane.
pub open spec fn reaction(event: PlaneEvent, dragging: bool, disabled: bool) -> PlaneReaction {
    match event {
        PlaneEvent::Press => PlaneReaction {
            dragging,
            consumed: true,
            emits: if disabled {
                None
            } else {
                Some(false)
            },
        },
        PlaneEvent::DragStart => PlaneReaction {
            dragging: dragging || !disabled,
            consumed: true,
            emits: None,
        },
        PlaneEvent::Drag => PlaneReaction {
            dragging,
            consumed: true,
            emits: if dragging && !disabled {
                Some(false)
            } else {
                None
            },
        },
        PlaneEvent::DragEnd => PlaneReaction {
            dragging: false,
            consumed: true,
            emits: if dragging && !disabled {
                Some(true)
            } else {
                None
            },
        },
        PlaneEvent::Cancel => PlaneReaction { dragging: false, consumed: false, emits: None },
    }
}

/// Decides what follows from an event; one beside the inside of a plane changes
/// nothing.
pub fn on_plane_event(event: PlaneEvent, on_plane: bool, dragging: bool, disabled: bool) -> (r: PlaneReaction)
    ensures
        r == if on_plane {
            reaction(event, dragging, disabled)
        } else {
            PlaneReaction { dragging, consumed: false, emits: None }
        },
{
    if !on_plane {
        return PlaneReaction { dragging, consumed: false, emits: None };
    }
    match event {
        PlaneEvent::Press => PlaneReaction {
            dragging,
            consumed: true,
            emits: if disabled {
                None
            } else {
                Some(false)
            },
        },
        PlaneEvent::DragStart => PlaneReaction {
            dragging: dragging || !disabled,
            consumed: true,
            emits: None,
        },
        PlaneEvent::Drag => PlaneReaction {
            dragging,
            consumed: true,
            emits: if dragging && !disabled {
                Some(false)
            } else {
                None
            },
        },
        PlaneEvent::DragEnd => PlaneReaction {
            dragging: false,
            consumed: true,
            emits: if dragging && !disabled {
                Some(true)
            } else {
                None
            },
        },
        PlaneEvent::Cancel => PlaneReaction { dragging: false, consumed: false, emits: None },
    }
}

/// Whether a drag is under way after the first `n` events on a plane that is not
/// disabled.
pub open spec fn dragging_after(events: Seq<PlaneEvent>, n: int) -> bool
    decreases n,
{
    if n <= 0 {
        false
    } else {
        reaction(events[n - 1], dragging_after(events, n - 1), false).dragging
    }
}

/// A disabled plane never changes its value.
pub proof fn law_disabled_planes_emit_nothing(event: PlaneEvent, dragging: bool)
    ensures
        reaction(event, dragging, true).emits is None,
{
}

/// A value becomes final just where a drag ends that was under way, and a drag
/// emits only between its start and its end.
pub proof fn law_final_values_end_a_drag(events: Seq<PlaneEvent>, n: int)
    requires
        0 <= n < events.len(),
    ensures
        reaction(events[n], dragging_after(events, n), false).emits == Some(true) <==> events[n]
            == PlaneEvent::DragEnd && dragging_after(events, n),
        dragging_after(events, n) ==> exists|k: int|
            0 <= k < n && #[trigger] events[k] == PlaneEvent::DragStart && forall|j: int|
                k < j < n ==> #[trigger] events[j] != PlaneEvent::DragEnd && events[j]
                    != PlaneEvent::Cancel,
    decreases n,
{
    if n > 0 {
        law_final_values_end_a_drag(events, n - 1);
        if dragging_after(events, n) {
            if events[n - 1] == PlaneEvent::DragStart {
                assert(events[n - 1] == PlaneEvent::DragStart);
            } else {
                let k = choose|k: int|
                    0 <= k < n - 1 && #[trigger] events[k] == PlaneEvent::DragStart && forall|j: int|
                        k < j < n - 1 ==> #[trigger] events[j] != PlaneEvent::DragEnd && events[j]
                            != PlaneEvent::Cancel;
                assert(events[k] == PlaneEvent::DragStart);
                assert forall|j: int| k < j < n implies #[trigger] events[j] != PlaneEvent::DragEnd
                    && events[j] != PlaneEvent::Cancel by {}
            }
        }
    }
}

} // verus!
