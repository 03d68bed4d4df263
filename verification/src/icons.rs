//! Registry of the embedded icons and the queue of their uploads.
//!
//! Each icon has a fixed logical slot, one more than its place in
//! [`ICON_PATHS`]; slot zero means untextured. Image assets are known here by a
//! number that the caller derives from their identity.

use std::collections::HashMap;

use vstd::prelude::*;

verus! {

broadcast use vstd::std_specs::hash::group_hash_axioms;

/// Embedded icon paths in logical-slot order.
pub const ICON_PATHS: [&'static str; 3] = [
    "embedded://widgets/assets/icons/chevron-down.png",
    "embedded://widgets/assets/icons/chevron-right.png",
    "embedded://widgets/assets/icons/x.png",
];

/// How many icons there are.
pub const ICON_COUNT: usize = 3;

/// A decoded image as the asset store holds it.
pub struct IconImage {
    pub width: u32,
    pub height: u32,
    /// The pixel bytes, unless they have been dropped after loading.
    pub data: Option<Vec<u8>>,
}

/// Decoded icon pixels queued for one upload.
pub struct IconUploadPayload {
    /// One-based logical slot; zero means untextured.
    pub logical_slot: u32,
    pub width: u32,
    pub height: u32,
    /// RGBA bytes in sRGB; upload linearizes the color channels.
    pub pixels: Vec<u8>,
}

/// Model of an upload.
pub struct PayloadModel {
    pub logical_slot: u32,
    pub width: u32,
    pub height: u32,
    pub pixels: Seq<u8>,
}

impl View for IconUploadPayload {
    type V = PayloadModel;

    open spec fn view(&self) -> PayloadModel {
        PayloadModel {
            logical_slot: self.logical_slot,
            width: self.width,
            height: self.height,
            pixels: self.pixels@,
        }
    }
}

impl Clone for IconUploadPayload {
    fn clone(&self) -> (payload: IconUploadPayload)
        ensures
            payload@ == self@,
    {
        let pixels = self.pixels.clone();
        assert(pixels@ =~= self.pixels@);
        IconUploadPayload {
            logical_slot: self.logical_slot,
            width: self.width,
            height: self.height,
            pixels,
        }
    }
}

/// Whether pixel bytes are four per pixel of a nonempty image.
pub open spec fn is_rgba8(width: u32, height: u32, len: int) -> bool {
    width != 0 && height != 0 && len == width * height * 4
}

/// The upload for an image, if its pixels are there and as many as they should be.
pub open spec fn payload_of(logical_slot: u32, image: IconImage) -> Option<PayloadModel> {
    match image.data {
        Some(data) => if is_rgba8(image.width, image.height, data@.len() as int) {
            Some(
                PayloadModel {
                    logical_slot,
                    width: image.width,
                    height: image.height,
                    pixels: data@,
                },
            )
        } else {
            None
        },
        None => None,
    }
}

/// The model of an optional payload.
pub open spec fn payload_view(payload: Option<IconUploadPayload>) -> Option<PayloadModel> {
    match payload {
        Some(payload) => Some(payload@),
        None => None,
    }
}

impl IconUploadPayload {
    /// The upload for an image; `None` without pixels or with a wrong number of them.
    pub fn from_image(logical_slot: u32, image: &IconImage) -> (payload: Option<IconUploadPayload>)
        ensures
            payload_view(payload) == payload_of(logical_slot, *image),
    {
        let data: &Vec<u8> = match &image.data {
            Some(data) => data,
            None => return None,
        };
        proof {
            assert(image.width * image.height <= 0xffff_ffff * 0xffff_ffff) by (nonlinear_arith)
                requires
                    0 <= image.width <= 0xffff_ffff,
                    0 <= image.height <= 0xffff_ffff,
            ;
            assert(image.width * image.height >= 0) by (nonlinear_arith)
                requires
                    0 <= image.width,
                    0 <= image.height,
            ;
        }
        if image.width == 0 || image.height == 0 || data.len() as u128 != (image.width as u128)
            * (image.height as u128) * 4 {
            return None;
        }
        Some(
            IconUploadPayload {
                logical_slot,
                width: image.width,
                height: image.height,
                pixels: vstd::slice::slice_to_vec(data.as_slice()),
            },
        )
    }
}

/// Map from image assets to logical icon slots.
pub struct IconRegistry {
    /// The registered images, in slot order.
    handles: Vec<u128>,
    slots: HashMap<u128, u32>,
    /// Which slots have been queued for upload.
    queued: Vec<bool>,
}

/// Slots after registering the first `n` pairs; a later pair replaces an earlier one.
pub open spec fn slots_of(pairs: Seq<(u128, u32)>, n: nat) -> Map<u128, u32>
    decreases n,
{
    if n == 0 {
        Map::empty()
    } else {
        slots_of(pairs, (n - 1) as nat).insert(pairs[n - 1].0, pairs[n - 1].1)
    }
}

/// The registration of a list of images under consecutive slots from one on.
pub open spec fn numbered(handles: Seq<u128>) -> Seq<(u128, u32)> {
    Seq::new(handles.len(), |i: int| (handles[i], (i + 1) as u32))
}

impl IconRegistry {
    /// The slot of each registered image.
    pub closed spec fn slot_map(self) -> Map<u128, u32> {
        self.slots@
    }

    /// The registered images, in slot order.
    pub closed spec fn handle_list(self) -> Seq<u128> {
        self.handles@
    }

    /// Which slots have been queued for upload.
    pub closed spec fn queued_list(self) -> Seq<bool> {
        self.queued@
    }

    /// Whether every registered image has its queueing state.
    pub open spec fn wf(self) -> bool {
        self.queued_list().len() == ICON_COUNT && self.handle_list().len() <= ICON_COUNT
    }

    /// A registry of the icons with these identities, in slot order.
    pub fn new(handles: Vec<u128>) -> (registry: IconRegistry)
        requires
            handles@.len() == ICON_COUNT,
        ensures
            registry.wf(),
            registry.handle_list() == handles@,
            registry.slot_map() == slots_of(numbered(handles@), handles@.len()),
            registry.queued_list() == seq![false, false, false],
    {
        let mut slots: HashMap<u128, u32> = HashMap::new();
        let mut i: usize = 0;
        while i < handles.len()
            invariant
                i <= handles@.len(),
                handles@.len() == ICON_COUNT,
                slots@ == slots_of(numbered(handles@), i as nat),
            decreases handles@.len() - i,
        {
            slots.insert(handles[i], i as u32 + 1);
            i = i + 1;
        }
        let mut queued: Vec<bool> = Vec::new();
        queued.push(false);
        queued.push(false);
        queued.push(false);
        assert(queued@ =~= seq![false, false, false]);
        IconRegistry { handles, slots, queued }
    }

    /// The logical slot of an image, if it is registered.
    pub fn logical_slot(&self, id: u128) -> (slot: Option<u32>)
        ensures
            slot == (if self.slot_map().contains_key(id) {
                Some(self.slot_map()[id])
            } else {
                None
            }),
    {
        match self.slots.get(&id) {
            Some(slot) => Some(*slot),
            None => None,
        }
    }

    /// A registry of given slots that keeps no image alive and uploads nothing.
    pub fn from_slots(slots: Vec<(u128, u32)>) -> (registry: IconRegistry)
        ensures
            registry.wf(),
            registry.handle_list() == Seq::<u128>::empty(),
            registry.slot_map() == slots_of(slots@, slots@.len()),
            registry.queued_list() == seq![false, false, false],
    {
        let mut map: HashMap<u128, u32> = HashMap::new();
        let mut i: usize = 0;
        while i < slots.len()
            invariant
                i <= slots@.len(),
                map@ == slots_of(slots@, i as nat),
            decreases slots@.len() - i,
        {
            let (id, slot): (u128, u32) = slots[i];
            map.insert(id, slot);
            i = i + 1;
        }
        let mut queued: Vec<bool> = Vec::new();
        queued.push(false);
        queued.push(false);
        queued.push(false);
        assert(queued@ =~= seq![false, false, false]);
        IconRegistry { handles: Vec::new(), slots: map, queued }
    }
}

/// Uploads waiting to be taken over by the renderer.
pub struct IconUploadQueue {
    pending: Vec<IconUploadPayload>,
}

impl Default for IconUploadQueue {
    fn default() -> (queue: IconUploadQueue)
        ensures
            queue.uploads() == Seq::<PayloadModel>::empty(),
    {
        let queue = IconUploadQueue { pending: Vec::new() };
        assert(queue.uploads() =~= Seq::<PayloadModel>::empty());
        queue
    }
}

impl IconUploadQueue {
    /// The waiting uploads.
    pub closed spec fn uploads(self) -> Seq<PayloadModel> {
        self.pending@.map_values(|payload: IconUploadPayload| payload@)
    }

    /// The waiting uploads.
    pub fn pending(&self) -> (pending: &Vec<IconUploadPayload>)
        ensures
            pending@.map_values(|payload: IconUploadPayload| payload@) == self.uploads(),
    {
        &self.pending
    }
}

/// The upload that slot `i + 1` is due: none if it was queued before or its
/// image is not there or not usable.
pub open spec fn due_upload(queued: Seq<bool>, images: Seq<Option<IconImage>>, i: int) -> Option<
    PayloadModel,
> {
    match images[i] {
        Some(image) => if queued[i] {
            None
        } else {
            payload_of((i + 1) as u32, image)
        },
        None => None,
    }
}

/// The uploads that the first `n` slots are due, in slot order.
pub open spec fn due_uploads(queued: Seq<bool>, images: Seq<Option<IconImage>>, n: nat) -> Seq<
    PayloadModel,
>
    decreases n,
{
    if n == 0 {
        Seq::empty()
    } else {
        let before = due_uploads(queued, images, (n - 1) as nat);
        match due_upload(queued, images, n - 1) {
            Some(payload) => before.push(payload),
            None => before,
        }
    }
}

/// Which slots have been queued once the first `n` have had their turn.
pub open spec fn queued_after(queued: Seq<bool>, images: Seq<Option<IconImage>>, n: nat) -> Seq<bool> {
    Seq::new(
        queued.len(),
        |i: int| queued[i] || (i < n && due_upload(queued, images, i) is Some),
    )
}

/// Replaces the waiting uploads by those of the icons that have become
/// available and were never queued before.
///
/// `images[i]` is the image that is registered under slot `i + 1`, if it is loaded.
pub fn queue_icon_uploads(
    registry: &mut IconRegistry,
    queue: &mut IconUploadQueue,
    images: &Vec<Option<IconImage>>,
)
    requires
        old(registry).wf(),
        images@.len() == old(registry).handle_list().len(),
    ensures
        final(registry).wf(),
        final(registry).handle_list() == old(registry).handle_list(),
        final(registry).slot_map() == old(registry).slot_map(),
        final(registry).queued_list() == queued_after(
            old(registry).queued_list(),
            images@,
            images@.len(),
        ),
        final(queue).uploads() == due_uploads(old(registry).queued_list(), images@, images@.len()),
{
    let ghost start = registry.queued@;
    let mut pending: Vec<IconUploadPayload> = Vec::new();
    let mut i: usize = 0;
    assert(pending@.map_values(|payload: IconUploadPayload| payload@) =~= due_uploads(
        start,
        images@,
        0,
    ));
    assert(start =~= queued_after(start, images@, 0));
    while i < registry.handles.len()
        invariant
            i <= registry.handles@.len(),
            start == old(registry).queued@,
            registry.handles@ == old(registry).handles@,
            registry.slots@ == old(registry).slots@,
            registry.handles@.len() == images@.len() <= ICON_COUNT,
            start.len() == ICON_COUNT,
            registry.queued@ == queued_after(start, images@, i as nat),
            pending@.map_values(|payload: IconUploadPayload| payload@) == due_uploads(
                start,
                images@,
                i as nat,
            ),
        decreases registry.handles@.len() - i,
    {
        let ghost before = pending@;
        if !registry.queued[i] {
            if let Some(image) = &images[i] {
                if let Some(payload) = IconUploadPayload::from_image(i as u32 + 1, image) {
                    pending.push(payload);
                    registry.queued.set(i, true);
                    assert(pending@.map_values(|payload: IconUploadPayload| payload@)
                        =~= before.map_values(|payload: IconUploadPayload| payload@).push(
                        payload@,
                    ));
                }
            }
        }
        assert(registry.queued@ =~= queued_after(start, images@, (i + 1) as nat));
        i = i + 1;
    }
    queue.pending = pending;
}

proof fn lemma_due_upload_listed(queued: Seq<bool>, images: Seq<Option<IconImage>>, n: nat, k: int)
    requires
        0 <= k < due_uploads(queued, images, n).len(),
        n < u32::MAX,
    ensures
        exists|i: int|
            0 <= i < n && due_upload(queued, images, i) is Some && #[trigger] due_uploads(
                queued,
                images,
                n,
            )[k].logical_slot == i + 1,
    decreases n,
{
    let before = due_uploads(queued, images, (n - 1) as nat);
    if k < before.len() {
        lemma_due_upload_listed(queued, images, (n - 1) as nat, k);
        let i = choose|i: int|
            0 <= i < n - 1 && due_upload(queued, images, i) is Some && before[k].logical_slot == i
                + 1;
        assert(due_uploads(queued, images, n)[k].logical_slot == i + 1);
    } else {
        assert(due_uploads(queued, images, n)[k].logical_slot == (n - 1) + 1);
    }
}

/// An icon crosses to the renderer once: whatever is loaded later, no slot
/// that was queued in one frame is queued again in the next.
pub proof fn law_icons_cross_once(
    queued: Seq<bool>,
    first: Seq<Option<IconImage>>,
    second: Seq<Option<IconImage>>,
    a: int,
    b: int,
)
    requires
        first.len() == second.len(),
        first.len() <= queued.len(),
        queued.len() < u32::MAX,
        0 <= a < due_uploads(queued, first, first.len()).len(),
        0 <= b < due_uploads(
            queued_after(queued, first, first.len()),
            second,
            second.len(),
        ).len(),
    ensures
        due_uploads(queued, first, first.len())[a].logical_slot != due_uploads(
            queued_after(queued, first, first.len()),
            second,
            second.len(),
        )[b].logical_slot,
{
    let later = queued_after(queued, first, first.len());
    lemma_due_upload_listed(queued, first, first.len(), a);
    lemma_due_upload_listed(later, second, second.len(), b);
    let i = choose|i: int|
        0 <= i < first.len() && due_upload(queued, first, i) is Some && due_uploads(
            queued,
            first,
            first.len(),
        )[a].logical_slot == i + 1;
    let j = choose|j: int|
        0 <= j < second.len() && due_upload(later, second, j) is Some && due_uploads(
            later,
            second,
            second.len(),
        )[b].logical_slot == j + 1;
    if i == j {
        assert(later[i]);
    }
}

} // verus!
