//! Computed data of cameras that draw to windows.
//!
//! A camera is refreshed only where something that it depends on has changed; a
//! window that is missing affects only the cameras that draw to it.

use bevy_camera::Viewport;
use bevy_math::UVec2;
use vstd::prelude::*;

use crate::float_bits;

verus! {

/// A width and a height in pixels.
#[derive(Debug, Clone, Copy, PartialEq, Eq, Structural)]
pub struct PixelSize {
    pub width: u32,
    pub height: u32,
}

/// The part of a window that a camera draws to.
#[derive(Debug, Clone, Copy, PartialEq, Eq, Structural)]
pub struct ViewportRect {
    pub x: u32,
    pub y: u32,
    pub width: u32,
    pub height: u32,
}

impl ViewportRect {
    /// The far corner can be told.
    pub open spec fn is_sound(self) -> bool {
        self.x + self.width <= u32::MAX && self.y + self.height <= u32::MAX
    }

    /// The rectangle lies within a size.
    pub open spec fn lies_within(self, size: PixelSize) -> bool {
        self.x + self.width <= size.width && self.y + self.height <= size.height
    }

    pub open spec fn size(self) -> PixelSize {
        PixelSize { width: self.width, height: self.height }
    }
}

/// Where a span starts once it is held within a limit.
pub open spec fn held_start(start: u32, length: u32, limit: u32) -> u32 {
    if start + length <= limit || start < limit {
        start
    } else if limit > 0 {
        (limit - 1) as u32
    } else {
        0
    }
}

/// How long a span is once it is held within a limit.
pub open spec fn held_length(start: u32, length: u32, limit: u32) -> u32 {
    if start + length <= limit {
        length
    } else if start < limit {
        (limit - start) as u32
    } else if limit > 0 {
        1
    } else {
        0
    }
}

/// A viewport that is held within a size.
pub open spec fn held(rect: ViewportRect, size: PixelSize) -> ViewportRect {
    ViewportRect {
        x: held_start(rect.x, rect.width, size.width),
        y: held_start(rect.y, rect.height, size.height),
        width: held_length(rect.x, rect.width, size.width),
        height: held_length(rect.y, rect.height, size.height),
    }
}

/// Calls `Viewport::clamp_to_size`: in each direction, a viewport that reaches
/// beyond the size is cut, one that starts beyond it is moved to the last pixel,
/// and one in a size of zero is empty. The call adds positions and sizes, so
/// their sums have to fit.
#[verifier::external_body]
fn clamp_to_size(rect: ViewportRect, size: PixelSize) -> (clamped: ViewportRect)
    requires
        rect.is_sound(),
    ensures
        clamped == held(rect, size),
{
    let mut viewport = Viewport {
        physical_position: UVec2::new(rect.x, rect.y),
        physical_size: UVec2::new(rect.width, rect.height),
        ..Default::default()
    };
    viewport.clamp_to_size(UVec2::new(size.width, size.height));
    let (at, span) = (viewport.physical_position, viewport.physical_size);
    ViewportRect { x: at.x, y: at.y, width: span.x, height: span.y }
}

/// A viewport that is held within a size lies within it, and one that lies
/// within it already is left alone.
pub proof fn law_held_viewports_fit(rect: ViewportRect, size: PixelSize)
    ensures
        held(rect, size).lies_within(size),
        rect.lies_within(size) ==> held(rect, size) == rect,
        held(held(rect, size), size) == held(rect, size),
{
}

/// Whether a window is among some.
pub open spec fn among(window: u64, windows: Seq<u64>) -> bool {
    windows.contains(window)
}

fn is_among(window: u64, windows: &Vec<u64>) -> (yes: bool)
    ensures
        yes == among(window, windows@),
{
    let count: usize = windows.len();
    let mut i: usize = 0;
    while i < count
        invariant
            i <= count,
            count == windows@.len(),
            forall|p: int| 0 <= p < i ==> #[trigger] windows@[p] != window,
        decreases count - i,
    {
        if windows[i] == window {
            assert(windows@[i as int] == window);
            return true;
        }
        i = i + 1;
    }
    false
}

/// What happened to windows since the last update.
pub struct WindowChanges {
    pub created: Vec<u64>,
    pub resized: Vec<u64>,
    pub rescaled: Vec<u64>,
}

impl WindowChanges {
    /// Whether anything happened to a window.
    pub open spec fn touch(self, window: u64) -> bool {
        among(window, self.created@) || among(window, self.resized@) || among(
            window,
            self.rescaled@,
        )
    }

    /// Tells whether anything happened to a window.
    pub fn has_changed(&self, window: u64) -> (yes: bool)
        ensures
            yes == self.touch(window),
    {
        is_among(window, &self.created) || is_among(window, &self.resized) || is_among(
            window,
            &self.rescaled,
        )
    }
}

/// What a camera knows of its window.
#[derive(Debug, Clone, Copy, PartialEq, Eq, Structural)]
pub struct TargetInfo {
    pub physical_size: PixelSize,
    /// Bits of the physical pixels per logical pixel.
    pub scale_factor: u32,
}

/// What a camera keeps between updates.
#[derive(Debug, Clone, Copy, PartialEq, Eq, Structural)]
pub struct CameraState {
    /// The part of the window that it draws to, or none for the whole.
    pub viewport: Option<ViewportRect>,
    /// The size of the viewport at the last update.
    pub old_viewport_size: Option<PixelSize>,
    /// What it knew of its window at its last refresh.
    pub target_info: Option<TargetInfo>,
}

/// What an update knows of a camera.
#[derive(Debug, Clone, Copy, PartialEq, Eq, Structural)]
pub struct CameraInput {
    /// The window that it draws to, or none for another target.
    pub window: Option<u64>,
    pub is_added: bool,
    pub projection_changed: bool,
    pub sub_view_changed: bool,
    /// The window's size and scale, where it exists.
    pub window_info: Option<TargetInfo>,
    /// The viewport in proportion to the window's new scale. It has no meaning
    /// for a camera without a viewport or without a former scale.
    pub rescaled_viewport: ViewportRect,
}

pub open spec fn size_of(viewport: Option<ViewportRect>) -> Option<PixelSize> {
    match viewport {
        Some(rect) => Some(rect.size()),
        None => None,
    }
}

/// Whether a camera is refreshed.
pub open spec fn refreshes(camera: CameraState, input: CameraInput, changes: WindowChanges) -> bool {
    &&& input.window is Some
    &&& input.window_info is Some
    &&& changes.touch(input.window->0) || input.is_added || input.projection_changed
        || input.sub_view_changed || camera.old_viewport_size != size_of(camera.viewport)
}

/// The viewport of a camera that is refreshed, before it is held within the
/// window: it keeps its proportions where the window's scale has changed from
/// one that is known.
pub open spec fn scaled(camera: CameraState, input: CameraInput, changes: WindowChanges) -> Option<ViewportRect> {
    if camera.viewport is Some && camera.target_info is Some && among(
        input.window->0,
        changes.rescaled@,
    ) {
        Some(input.rescaled_viewport)
    } else {
        camera.viewport
    }
}

/// A camera after an update.
pub open spec fn updated(camera: CameraState, input: CameraInput, changes: WindowChanges) -> CameraState {
    if refreshes(camera, input, changes) {
        let viewport = scaled(camera, input, changes);
        CameraState {
            viewport: match viewport {
                Some(rect) => Some(held(rect, input.window_info->0.physical_size)),
                None => None,
            },
            old_viewport_size: size_of(viewport),
            target_info: input.window_info,
        }
    } else {
        CameraState { old_viewport_size: size_of(camera.viewport), ..camera }
    }
}

/// Tells whether a camera is refreshed.
pub fn is_refreshed(camera: &CameraState, input: &CameraInput, changes: &WindowChanges) -> (yes: bool)
    ensures
        yes == refreshes(*camera, *input, *changes),
{
    match (input.window, input.window_info) {
        (Some(window), Some(_)) => changes.has_changed(window) || input.is_added
            || input.projection_changed || input.sub_view_changed || sizes_differ(
            camera.old_viewport_size,
            viewport_size_of(&camera.viewport),
        ),
        _ => false,
    }
}

/// Finds the viewport that a refreshed camera's window has to hold.
pub fn scaled_viewport(camera: &CameraState, input: &CameraInput, changes: &WindowChanges) -> (viewport:
    Option<ViewportRect>)
    requires
        input.window is Some,
    ensures
        viewport == scaled(*camera, *input, *changes),
{
    if let Some(window) = input.window {
        if camera.viewport.is_some() && camera.target_info.is_some() && is_among(
            window,
            &changes.rescaled,
        ) {
            return Some(input.rescaled_viewport);
        }
    }
    camera.viewport
}

/// Updates a camera and tells whether it was refreshed.
pub fn camera_system(camera: &mut CameraState, input: CameraInput, changes: &WindowChanges) -> (refreshed: bool)
    requires
        refreshes(*old(camera), input, *changes) ==> (scaled(
            *old(camera),
            input,
            *changes,
        ) matches Some(rect) ==> rect.is_sound()),
    ensures
        refreshed == refreshes(*old(camera), input, *changes),
        *final(camera) == updated(*old(camera), input, *changes),
{
    if !is_refreshed(camera, &input, changes) {
        camera.old_viewport_size = viewport_size_of(&camera.viewport);
        return false;
    }
    let viewport = scaled_viewport(camera, &input, changes);
    camera.old_viewport_size = viewport_size_of(&viewport);
    if let Some(info) = input.window_info {
        if let Some(rect) = viewport {
            camera.viewport = Some(clamp_to_size(rect, info.physical_size));
        }
    }
    camera.target_info = input.window_info;
    true
}

fn viewport_size_of(viewport: &Option<ViewportRect>) -> (size: Option<PixelSize>)
    ensures
        size == size_of(*viewport),
{
    match viewport {
        Some(rect) => Some(PixelSize { width: rect.width, height: rect.height }),
        None => None,
    }
}

fn sizes_differ(a: Option<PixelSize>, b: Option<PixelSize>) -> (differ: bool)
    ensures
        differ == (a != b),
{
    match (a, b) {
        (Some(x), Some(y)) => x.width != y.width || x.height != y.height,
        (None, None) => false,
        _ => true,
    }
}

/// A camera whose viewport fits its window is not refreshed again until
/// something changes.
pub proof fn law_refreshes_settle(
    camera: CameraState,
    input: CameraInput,
    changes: WindowChanges,
    later: CameraInput,
    none: WindowChanges,
)
    requires
        refreshes(camera, input, changes),
        scaled(camera, input, changes) matches Some(rect) ==> rect.lies_within(
            input.window_info->0.physical_size,
        ),
        later.window is Some ==> !none.touch(later.window->0),
        !later.is_added,
        !later.projection_changed,
        !later.sub_view_changed,
    ensures
        !refreshes(updated(camera, input, changes), later, none),
{
    if let Some(rect) = scaled(camera, input, changes) {
        law_held_viewports_fit(rect, input.window_info->0.physical_size);
    }
}

/// A refreshed camera knows its window's physical size and scale factor.
pub proof fn law_refreshed_cameras_know_their_window(
    camera: CameraState,
    input: CameraInput,
    changes: WindowChanges,
)
    requires
        input.window is Some,
        input.window_info is Some,
        changes.touch(input.window->0) || input.is_added || input.projection_changed
            || input.sub_view_changed || camera.old_viewport_size != size_of(camera.viewport),
    ensures
        updated(camera, input, changes).target_info == input.window_info,
{
}

/// A missing window leaves the viewport of its cameras, and what they know of
/// it, as it is.
pub proof fn law_missing_windows_change_nothing(
    camera: CameraState,
    input: CameraInput,
    changes: WindowChanges,
)
    requires
        input.window_info is None,
    ensures
        updated(camera, input, changes).viewport == camera.viewport,
        updated(camera, input, changes).target_info == camera.target_info,
{
}

/// Whether a projection follows the logical size of the viewport: not where
/// that is empty.
pub fn projection_follows(width: u32, height: u32) -> (yes: bool)
    ensures
        yes == (!float_bits::equal(width, 0) && !float_bits::equal(height, 0)),
{
    !float_bits::is_zero(width) && !float_bits::is_zero(height)
}

} // verus!
