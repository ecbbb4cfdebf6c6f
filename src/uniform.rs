use vstd::prelude::*;

use crate::buffer::Buffer;
use crate::error::Error;

verus! {

/// Descriptor set slot of the world (camera and lights) group.
pub const WORLD_SET: u32 = 0;
/// Descriptor set slot of the material parameter group.
pub const MATERIAL_SET: u32 = 1;
/// Descriptor set slot of the image and sampler group.
pub const IMAGE_SET: u32 = 2;
/// Descriptor set slot of the shadow map group.
pub const SHADOW_MAP_SET: u32 = 3;

/// Number of image slots written on every flush of the image group.
pub const IMAGE_SLOT_COUNT: usize = 100;
/// Number of precomputed sampler combinations (filter x address x mipmaps).
pub const SAMPLER_COMBINATION_COUNT: usize = 8;

/// Binding of the image array inside the image group.
pub const IMAGE_BINDING: u32 = 0;
/// Binding of the sampler array inside the image group.
pub const SAMPLER_BINDING: u32 = 1;
/// Binding of the skybox cubemap inside the image group.
pub const SKYBOX_BINDING: u32 = 2;

/// A bound descriptor set: its set slot and the raw set handle.
#[derive(Clone, Copy, Debug, PartialEq, Eq, Hash, Structural)]
pub struct Descriptor(pub u32, pub u64);

#[derive(Clone, Copy, Debug, PartialEq, Eq, Hash, Structural)]
pub enum SamplerFilter {
    Linear,
    Nearest,
}

#[derive(Clone, Copy, Debug, PartialEq, Eq, Hash, Structural)]
pub enum SamplerAddress {
    Repeat,
    Clamp,
}

#[derive(Clone, Copy, Debug, PartialEq, Eq, Hash, Structural)]
pub enum SamplerMipmaps {
    Enabled,
    Disabled,
}

/// One of the sampler configurations that the image group precomputes.
#[derive(Clone, Copy, Debug, PartialEq, Eq, Hash, Structural)]
pub struct SamplerCombination {
    pub filter: SamplerFilter,
    pub address: SamplerAddress,
    pub mipmaps: SamplerMipmaps,
}

/// The combination stored at position `i` of the precomputed list: bit 2 of
/// `i` selects nearest filtering, bit 1 clamping, bit 0 disables mipmaps.
pub open spec fn combination_at(i: int) -> SamplerCombination {
    SamplerCombination {
        filter: if i / 4 % 2 == 1 { SamplerFilter::Nearest } else { SamplerFilter::Linear },
        address: if i / 2 % 2 == 1 { SamplerAddress::Clamp } else { SamplerAddress::Repeat },
        mipmaps: if i % 2 == 1 { SamplerMipmaps::Disabled } else { SamplerMipmaps::Enabled },
    }
}

/// The combination selected by the three sampler flags of a draw.
pub open spec fn combination_of(nearest: bool, clamp: bool, no_mipmaps: bool) -> SamplerCombination {
    SamplerCombination {
        filter: if nearest { SamplerFilter::Nearest } else { SamplerFilter::Linear },
        address: if clamp { SamplerAddress::Clamp } else { SamplerAddress::Repeat },
        mipmaps: if no_mipmaps { SamplerMipmaps::Disabled } else { SamplerMipmaps::Enabled },
    }
}

/// The full cross product of sampler settings, in the order in which the image
/// group binds them: filter outermost, then address mode, then mipmaps.
pub fn sampler_combinations() -> (r: Vec<SamplerCombination>)
    ensures
        r@.len() == SAMPLER_COMBINATION_COUNT,
        forall|i: int| 0 <= i < r@.len() ==> #[trigger] r@[i] == combination_at(i),
{
    let filters = [SamplerFilter::Linear, SamplerFilter::Nearest];
    let addresses = [SamplerAddress::Repeat, SamplerAddress::Clamp];
    let mipmaps = [SamplerMipmaps::Enabled, SamplerMipmaps::Disabled];
    let mut r: Vec<SamplerCombination> = Vec::new();
    let mut f: usize = 0;
    while f < 2
        invariant
            0 <= f <= 2,
            filters@ == seq![SamplerFilter::Linear, SamplerFilter::Nearest],
            addresses@ == seq![SamplerAddress::Repeat, SamplerAddress::Clamp],
            mipmaps@ == seq![SamplerMipmaps::Enabled, SamplerMipmaps::Disabled],
            r@.len() == 4 * f,
            forall|i: int| 0 <= i < r@.len() ==> #[trigger] r@[i] == combination_at(i),
        decreases 2 - f,
    {
        let mut a: usize = 0;
        while a < 2
            invariant
                0 <= f < 2,
                0 <= a <= 2,
                filters@ == seq![SamplerFilter::Linear, SamplerFilter::Nearest],
                addresses@ == seq![SamplerAddress::Repeat, SamplerAddress::Clamp],
                mipmaps@ == seq![SamplerMipmaps::Enabled, SamplerMipmaps::Disabled],
                r@.len() == 4 * f + 2 * a,
                forall|i: int| 0 <= i < r@.len() ==> #[trigger] r@[i] == combination_at(i),
            decreases 2 - a,
        {
            let mut m: usize = 0;
            while m < 2
                invariant
                    0 <= f < 2,
                    0 <= a < 2,
                    0 <= m <= 2,
                    filters@ == seq![SamplerFilter::Linear, SamplerFilter::Nearest],
                    addresses@ == seq![SamplerAddress::Repeat, SamplerAddress::Clamp],
                    mipmaps@ == seq![SamplerMipmaps::Enabled, SamplerMipmaps::Disabled],
                    r@.len() == 4 * f + 2 * a + m,
                    forall|i: int| 0 <= i < r@.len() ==> #[trigger] r@[i] == combination_at(i),
                decreases 2 - m,
            {
                let c = SamplerCombination {
                    filter: filters[f],
                    address: addresses[a],
                    mipmaps: mipmaps[m],
                };
                proof {
                    let i = 4 * f + 2 * a + m;
                    assert(i / 4 % 2 == f as int);
                    assert(i / 2 % 2 == a as int);
                    assert(i % 2 == m as int);
                }
                r.push(c);
                m = m + 1;
            }
            a = a + 1;
        }
        f = f + 1;
    }
    r
}

/// Position of the combination selected by the sampler flags.
pub open spec fn sampler_index_spec(nearest: bool, clamp: bool, no_mipmaps: bool) -> i32 {
    ((if nearest { 4int } else { 0int }) + (if clamp { 2int } else { 0int }) + (if no_mipmaps { 1int } else { 0int })) as i32
}

/// Index into the precomputed sampler list for the given sampler flags.
pub fn sampler_index(nearest: bool, clamp: bool, no_mipmaps: bool) -> (r: i32)
    ensures
        r == sampler_index_spec(nearest, clamp, no_mipmaps),
        0 <= r < SAMPLER_COMBINATION_COUNT,
        combination_at(r as int) == combination_of(nearest, clamp, no_mipmaps),
{
    let mut index: i32 = 0;
    if nearest {
        index += 4;
    }
    if clamp {
        index += 2;
    }
    if no_mipmaps {
        index += 1;
    }
    index
}

/// `k` is the lowest free slot of `slots`, or `slots.len()` when every slot
/// is taken.
pub open spec fn lowest_free(slots: Seq<Option<u64>>, k: int) -> bool {
    &&& 0 <= k <= slots.len()
    &&& forall|j: int| 0 <= j < k ==> (#[trigger] slots[j]) is Some
    &&& k < slots.len() ==> slots[k] is None
}

/// Slots after an image is placed at the lowest free slot `k`.
pub open spec fn slots_after_add(slots: Seq<Option<u64>>, k: int, image: u64) -> Seq<Option<u64>> {
    if k == slots.len() {
        slots.push(Some(image))
    } else {
        slots.update(k, Some(image))
    }
}

/// Image bound at position `i` of the flushed image array: the slot's own
/// image, or slot 0's image where the slot is empty or past the end.
pub open spec fn flushed_image(slots: Seq<Option<u64>>, i: int) -> u64 {
    if 0 <= i < slots.len() && slots[i] is Some {
        slots[i]->Some_0
    } else {
        slots[0]->Some_0
    }
}

/// The descriptor writes of one flush of the image group.
pub struct ImageWrites {
    /// Raw handle of the descriptor set that is written.
    pub set: u64,
    /// One image view per slot, `IMAGE_SLOT_COUNT` of them, for `IMAGE_BINDING`.
    pub images: Vec<u64>,
    /// The precomputed samplers, for `SAMPLER_BINDING`.
    pub samplers: Vec<u64>,
    /// The skybox view, for `SKYBOX_BINDING`, if one was set.
    pub skybox: Option<u64>,
}

/// The image group: a slot array of image views with first-fit reuse of
/// removed slots, the precomputed samplers and an optional skybox. Changes
/// are batched behind a pending flag and flushed at most once per frame.
pub struct ImageUniform {
    descriptor: Descriptor,
    sampler_combinations: Vec<u64>,
    images: Vec<Option<u64>>,
    skybox: Option<u64>,
    should_update: bool,
}

impl ImageUniform {
    pub closed spec fn slots(&self) -> Seq<Option<u64>> {
        self.images@
    }

    pub closed spec fn skybox_view(&self) -> Option<u64> {
        self.skybox
    }

    pub closed spec fn samplers(&self) -> Seq<u64> {
        self.sampler_combinations@
    }

    pub closed spec fn pending(&self) -> bool {
        self.should_update
    }

    pub closed spec fn descriptor_view(&self) -> Descriptor {
        self.descriptor
    }

    /// A new image group on descriptor set `set`, with one sampler handle per
    /// entry of `sampler_combinations()`, in that order.
    pub fn new(set: u64, samplers: Vec<u64>) -> (r: Self)
        requires
            samplers@.len() == SAMPLER_COMBINATION_COUNT,
        ensures
            r.descriptor_view() == Descriptor(IMAGE_SET, set),
            r.samplers() == samplers@,
            r.slots() == Seq::<Option<u64>>::empty(),
            r.skybox_view() is None,
            r.pending(),
    {
        ImageUniform {
            descriptor: Descriptor(IMAGE_SET, set),
            sampler_combinations: samplers,
            images: Vec::new(),
            skybox: None,
            should_update: true,
        }
    }

    pub fn descriptor(&self) -> (r: Descriptor)
        ensures
            r == self.descriptor_view(),
    {
        self.descriptor
    }

    /// Number of slots, taken or free.
    pub fn image_count(&self) -> (r: usize)
        ensures
            r == self.slots().len(),
    {
        self.images.len()
    }

    /// Puts `image` in the lowest free slot, or in a new slot at the end when
    /// none is free, and returns that slot's index.
    pub fn add(&mut self, image: u64) -> (r: i32)
        requires
            old(self).slots().len() < i32::MAX,
        ensures
            lowest_free(old(self).slots(), r as int),
            final(self).slots() == slots_after_add(old(self).slots(), r as int, image),
            final(self).pending(),
            final(self).skybox_view() == old(self).skybox_view(),
            final(self).samplers() == old(self).samplers(),
            final(self).descriptor_view() == old(self).descriptor_view(),
    {
        let next_index = self.images.len();
        let mut index: usize = 0;
        while index < next_index && self.images[index].is_some()
            invariant
                next_index == self.images@.len(),
                self.images@ == old(self).images@,
                0 <= index <= next_index,
                forall|j: int| 0 <= j < index ==> (#[trigger] self.images@[j]) is Some,
            decreases next_index - index,
        {
            index = index + 1;
        }
        if index == next_index {
            self.images.push(Some(image));
        } else {
            self.images.set(index, Some(image));
        }
        self.should_update = true;
        index as i32
    }

    /// Empties slot `index`. Other slots keep their indices.
    pub fn remove(&mut self, index: i32)
        requires
            0 <= index < old(self).slots().len(),
        ensures
            final(self).slots() == old(self).slots().update(index as int, None),
            final(self).pending(),
            final(self).skybox_view() == old(self).skybox_view(),
            final(self).samplers() == old(self).samplers(),
            final(self).descriptor_view() == old(self).descriptor_view(),
    {
        self.images.set(index as usize, None);
        self.should_update = true;
    }

    pub fn set_skybox(&mut self, image: u64)
        ensures
            final(self).skybox_view() == Some(image),
            final(self).pending(),
            final(self).slots() == old(self).slots(),
            final(self).samplers() == old(self).samplers(),
            final(self).descriptor_view() == old(self).descriptor_view(),
    {
        self.skybox = Some(image);
        self.should_update = true;
    }

    /// Flushes pending changes. With nothing pending this returns `Ok(None)`.
    /// Otherwise it returns the writes for every image slot (empty slots
    /// repeat slot 0), every sampler and the skybox, and clears the pending
    /// flag; it fails, changing nothing, where slot 0 holds no image.
    pub fn update_if_needed(&mut self) -> (r: Result<Option<ImageWrites>, Error>)
        ensures
            !old(self).pending() ==> r == Ok::<Option<ImageWrites>, Error>(None) && *final(self) == *old(self),
            old(self).pending() && (old(self).slots().len() == 0 || old(self).slots()[0] is None)
                ==> r == Err::<Option<ImageWrites>, Error>(Error::ImageSlotZeroEmpty) && *final(self) == *old(self),
            old(self).pending() && old(self).slots().len() > 0 && old(self).slots()[0] is Some ==> {
                &&& r is Ok
                &&& r->Ok_0 is Some
                &&& !final(self).pending()
                &&& final(self).slots() == old(self).slots()
                &&& final(self).skybox_view() == old(self).skybox_view()
                &&& final(self).samplers() == old(self).samplers()
                &&& final(self).descriptor_view() == old(self).descriptor_view()
                &&& r->Ok_0->Some_0.set == old(self).descriptor_view().1
                &&& r->Ok_0->Some_0.images@.len() == IMAGE_SLOT_COUNT
                &&& forall|i: int| 0 <= i < IMAGE_SLOT_COUNT
                    ==> #[trigger] r->Ok_0->Some_0.images@[i] == flushed_image(old(self).slots(), i)
                &&& r->Ok_0->Some_0.samplers@ == old(self).samplers()
                &&& r->Ok_0->Some_0.skybox == old(self).skybox_view()
            },
    {
        if !self.should_update {
            return Ok(None);
        }
        if self.images.len() == 0 {
            return Err(Error::ImageSlotZeroEmpty);
        }
        let default_image = match self.images[0] {
            Some(img) => img,
            None => {
                return Err(Error::ImageSlotZeroEmpty);
            },
        };
        let mut images: Vec<u64> = Vec::new();
        let mut i: usize = 0;
        while i < IMAGE_SLOT_COUNT
            invariant
                0 <= i <= IMAGE_SLOT_COUNT,
                self.images@.len() > 0,
                self.images@[0] == Some(default_image),
                images@.len() == i,
                forall|j: int| 0 <= j < i ==> #[trigger] images@[j] == flushed_image(self.images@, j),
            decreases IMAGE_SLOT_COUNT - i,
        {
            let image = if i < self.images.len() {
                match self.images[i] {
                    Some(img) => img,
                    None => default_image,
                }
            } else {
                default_image
            };
            images.push(image);
            i = i + 1;
        }
        let samplers = clone_handles(&self.sampler_combinations);
        self.should_update = false;
        Ok(Some(ImageWrites { set: self.descriptor.1, images, samplers, skybox: self.skybox }))
    }
}

/// A copy of a list of raw handles.
pub fn clone_handles(v: &Vec<u64>) -> (r: Vec<u64>)
    ensures
        r@ == v@,
{
    let mut r: Vec<u64> = Vec::new();
    let mut i: usize = 0;
    while i < v.len()
        invariant
            0 <= i <= v@.len(),
            r@ == v@.subrange(0, i as int),
        decreases v@.len() - i,
    {
        r.push(v[i]);
        i = i + 1;
    }
    r
}

/// After `remove(i)`, an `add` goes to slot `i` when every slot below `i` is
/// taken: free slots are reused first-fit by ascending index.
pub proof fn lemma_removed_slot_reused(slots: Seq<Option<u64>>, i: int)
    requires
        0 <= i < slots.len(),
        forall|j: int| 0 <= j < i ==> (#[trigger] slots[j]) is Some,
    ensures
        lowest_free(slots.update(i, None), i),
{
}

/// The world group: one record of camera and light data of type `D` in a
/// uniform buffer, bound at set slot `WORLD_SET`.
pub struct WorldUniform<D> {
    descriptor: Descriptor,
    buffer: Buffer<D>,
}

impl<D> WorldUniform<D> {
    pub closed spec fn descriptor_view(&self) -> Descriptor {
        self.descriptor
    }

    pub closed spec fn buffer_view(&self) -> Buffer<D> {
        self.buffer
    }

    /// The group over `buffer`, which holds one record, and the set `set`
    /// that was written to point at it.
    pub fn new(buffer: Buffer<D>, set: u64) -> (r: Self)
        requires
            crate::buffer::bytes_for(vstd::layout::size_of::<D>(), 1) <= buffer.size_view(),
        ensures
            r.descriptor_view() == Descriptor(WORLD_SET, set),
            r.buffer_view() == buffer,
            r.inv(),
    {
        WorldUniform { descriptor: Descriptor(WORLD_SET, set), buffer }
    }

    pub open spec fn inv(&self) -> bool {
        crate::buffer::bytes_for(vstd::layout::size_of::<D>(), 1) <= self.buffer_view().size_view()
    }

    /// Bytes to write into the buffer's memory for `data`: one whole record.
    pub fn update(&self, data: D) -> (r: Result<usize, Error>)
        requires
            self.inv(),
        ensures
            r == Ok::<usize, Error>(vstd::layout::size_of::<D>() as usize),
    {
        let records = [data];
        let r = self.buffer.copy_from_data(records.as_slice());
        proof {
            assert(crate::buffer::bytes_for(vstd::layout::size_of::<D>(), 1) == vstd::layout::size_of::<D>());
        }
        r
    }

    pub fn buffer(&self) -> (r: &Buffer<D>)
        ensures
            *r == self.buffer_view(),
    {
        &self.buffer
    }

    pub fn descriptor(&self) -> (r: Descriptor)
        ensures
            r == self.descriptor_view(),
    {
        self.descriptor
    }
}

/// The material group: one record of material parameters of type `D` in a
/// uniform buffer, bound at set slot `MATERIAL_SET`.
pub struct MaterialUniform<D> {
    descriptor: Descriptor,
    buffer: Buffer<D>,
}

impl<D> MaterialUniform<D> {
    pub closed spec fn descriptor_view(&self) -> Descriptor {
        self.descriptor
    }

    pub closed spec fn buffer_view(&self) -> Buffer<D> {
        self.buffer
    }

    pub open spec fn inv(&self) -> bool {
        crate::buffer::bytes_for(vstd::layout::size_of::<D>(), 1) <= self.buffer_view().size_view()
    }

    /// The group over `buffer`, which holds one record, and the set `set`
    /// that was written to point at it.
    pub fn new(buffer: Buffer<D>, set: u64) -> (r: Self)
        requires
            crate::buffer::bytes_for(vstd::layout::size_of::<D>(), 1) <= buffer.size_view(),
        ensures
            r.descriptor_view() == Descriptor(MATERIAL_SET, set),
            r.buffer_view() == buffer,
            r.inv(),
    {
        MaterialUniform { descriptor: Descriptor(MATERIAL_SET, set), buffer }
    }

    /// Bytes to write into the buffer's memory for `data`: one whole record.
    pub fn update(&self, data: D) -> (r: Result<usize, Error>)
        requires
            self.inv(),
        ensures
            r == Ok::<usize, Error>(vstd::layout::size_of::<D>() as usize),
    {
        let records = [data];
        let r = self.buffer.copy_from_data(records.as_slice());
        proof {
            assert(crate::buffer::bytes_for(vstd::layout::size_of::<D>(), 1) == vstd::layout::size_of::<D>());
        }
        r
    }

    pub fn buffer(&self) -> (r: &Buffer<D>)
        ensures
            *r == self.buffer_view(),
    {
        &self.buffer
    }

    pub fn descriptor(&self) -> (r: Descriptor)
        ensures
            r == self.descriptor_view(),
    {
        self.descriptor
    }

    /// Two material groups are equal when they write the same buffer.
    pub fn same_material(&self, other: &MaterialUniform<D>) -> (r: bool)
        ensures
            r == (self.buffer_view().allocation_view().handle == other.buffer_view().allocation_view().handle),
    {
        self.buffer.same_buffer(&other.buffer)
    }
}

/// The shadow map group: the cascades' depth images, bound at set slot
/// `SHADOW_MAP_SET`. The set never changes after it is made.
pub struct ShadowMapUniform {
    descriptor: Descriptor,
}

impl ShadowMapUniform {
    pub closed spec fn descriptor_view(&self) -> Descriptor {
        self.descriptor
    }

    pub fn new(set: u64) -> (r: Self)
        ensures
            r.descriptor_view() == Descriptor(SHADOW_MAP_SET, set),
    {
        ShadowMapUniform { descriptor: Descriptor(SHADOW_MAP_SET, set) }
    }

    pub fn descriptor(&self) -> (r: Descriptor)
        ensures
            r == self.descriptor_view(),
    {
        self.descriptor
    }
}

} // verus!
