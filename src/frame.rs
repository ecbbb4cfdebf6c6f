use vstd::prelude::*;

use crate::error::Error;
use crate::resource::ResourceManager;
use crate::resource::Stored;
use crate::resource::Texture;
use crate::resource::dead;
use crate::resource::entry_of;
use crate::resource::live;
use crate::resource::release_slots;
use crate::uniform::ImageUniform;
use crate::uniform::ImageWrites;
use crate::uniform::SAMPLER_COMBINATION_COUNT;
use crate::uniform::flushed_image;
use crate::uniform::lowest_free;
use crate::uniform::slots_after_add;
use crate::uniform::IMAGE_SLOT_COUNT;

verus! {

/// Where the frame loop stands.
#[derive(Clone, Copy, Debug, PartialEq, Eq, Structural)]
pub enum RenderStage {
    /// Between frames: resources may change freely.
    Before,
    /// A frame is being recorded.
    During,
}

/// Every texture's image slot exists in the image group.
pub open spec fn slots_cover(textures: Seq<Stored<Texture>>, slot_count: nat) -> bool {
    forall|i: int| 0 <= i < textures.len() ==> 0 <= (#[trigger] textures[i]).value.image_index < slot_count
}

proof fn lemma_dead_in_range(s: Seq<Stored<Texture>>, slot_count: nat)
    requires
        slots_cover(s, slot_count),
    ensures
        forall|k: int| 0 <= k < dead(s).len() ==> 0 <= (#[trigger] dead(s)[k]).image_index < slot_count,
    decreases s.len(),
{
    if s.len() > 0 {
        let p = s.drop_last();
        assert forall|i: int| 0 <= i < p.len() implies 0 <= (#[trigger] p[i]).value.image_index < slot_count by {
            assert(p[i] == s[i]);
        }
        lemma_dead_in_range(p, slot_count);
        assert forall|k: int| 0 <= k < dead(s).len() implies 0 <= (#[trigger] dead(s)[k]).image_index < slot_count by {
            if k < dead(p).len() {
                assert(dead(s)[k] == dead(p)[k]);
            } else {
                assert(dead(s)[k] == s[s.len() - 1].value);
            }
        }
    }
}

proof fn lemma_live_in_range(s: Seq<Stored<Texture>>, slot_count: nat)
    requires
        slots_cover(s, slot_count),
    ensures
        slots_cover(live(s), slot_count),
    decreases s.len(),
{
    if s.len() > 0 {
        let p = s.drop_last();
        assert forall|i: int| 0 <= i < p.len() implies 0 <= (#[trigger] p[i]).value.image_index < slot_count by {
            assert(p[i] == s[i]);
        }
        lemma_live_in_range(p, slot_count);
        let l = live(s);
        assert forall|i: int| 0 <= i < l.len() implies 0 <= (#[trigger] l[i]).value.image_index < slot_count by {
            if i < live(p).len() {
                assert(l[i] == live(p)[i]);
            } else {
                assert(l[i] == s[s.len() - 1]);
            }
        }
    }
}

/// The resources of a running engine, the image group their textures live
/// in, and the stage of the frame loop. Resource changes made between frames
/// are settled when a frame begins: unused resources are collected, then the
/// image group is flushed once, before anything is drawn.
pub struct Context {
    resources: ResourceManager,
    images: ImageUniform,
    stage: RenderStage,
}

impl Context {
    pub closed spec fn resources_view(&self) -> ResourceManager {
        self.resources
    }

    pub closed spec fn images_view(&self) -> ImageUniform {
        self.images
    }

    pub closed spec fn stage_view(&self) -> RenderStage {
        self.stage
    }

    pub open spec fn inv(&self) -> bool {
        &&& self.resources_view().wf()
        &&& slots_cover(self.resources_view().textures_view(), self.images_view().slots().len())
    }

    /// A context with no resources, whose image group writes descriptor set
    /// `image_set` and binds `samplers`, one per sampler combination.
    pub fn new(image_set: u64, samplers: Vec<u64>) -> (r: Self)
        requires
            samplers@.len() == SAMPLER_COMBINATION_COUNT,
        ensures
            r.inv(),
            r.stage_view() == RenderStage::Before,
            r.resources_view().textures_view() == Seq::<Stored<Texture>>::empty(),
            r.resources_view().next_view() == 0,
            r.images_view().slots() == Seq::<Option<u64>>::empty(),
            r.images_view().samplers() == samplers@,
    {
        Context { resources: ResourceManager::new(), images: ImageUniform::new(image_set, samplers), stage: RenderStage::Before }
    }

    pub fn resources(&self) -> (r: &ResourceManager)
        ensures
            *r == self.resources_view(),
    {
        &self.resources
    }

    pub fn images(&self) -> (r: &ImageUniform)
        ensures
            *r == self.images_view(),
    {
        &self.images
    }

    pub fn stage(&self) -> (r: RenderStage)
        ensures
            r == self.stage_view(),
    {
        self.stage
    }

    /// Makes a texture of image view `view`: the view takes the lowest free
    /// image slot and the texture gets the next handle, with one reference.
    pub fn create_texture(&mut self, view: u64) -> (r: u32)
        requires
            old(self).inv(),
            old(self).resources_view().next_view() < u32::MAX,
            old(self).images_view().slots().len() < i32::MAX,
        ensures
            final(self).inv(),
            r == old(self).resources_view().next_view(),
            exists|slot: int| {
                &&& lowest_free(old(self).images_view().slots(), slot)
                &&& final(self).images_view().slots() == slots_after_add(old(self).images_view().slots(), slot, view)
                &&& final(self).resources_view().textures_view() == old(self).resources_view().textures_view().push(
                    Stored { id: r, value: Texture { view, image_index: slot as i32 }, count: 1 },
                )
            },
            final(self).images_view().pending(),
            final(self).stage_view() == old(self).stage_view(),
    {
        let slot = self.images.add(view);
        let r = self.resources.add_texture(Texture { view, image_index: slot });
        proof {
            let t = self.resources.textures_view();
            assert forall|i: int| 0 <= i < t.len() implies 0 <= (#[trigger] t[i]).value.image_index < self.images.slots().len() by {
                if i < t.len() - 1 {
                    assert(t[i] == old(self).resources.textures_view()[i]);
                }
            }
        }
        r
    }

    /// Drops one reference to texture `id`; the texture goes at the start of
    /// a frame once no reference is left.
    pub fn release_texture(&mut self, id: u32) -> (r: Result<(), Error>)
        requires
            old(self).inv(),
        ensures
            final(self).inv(),
            (entry_of(old(self).resources_view().textures_view(), id) is None
                || entry_of(old(self).resources_view().textures_view(), id)->Some_0.count == 0) ==> r is Err
                && final(self).resources_view().textures_view() == old(self).resources_view().textures_view(),
            (entry_of(old(self).resources_view().textures_view(), id) is Some
                && entry_of(old(self).resources_view().textures_view(), id)->Some_0.count > 0) ==> r is Ok
                && exists|i: int| 0 <= i < old(self).resources_view().textures_view().len()
                && (#[trigger] old(self).resources_view().textures_view()[i]).id == id
                && final(self).resources_view().textures_view() == old(self).resources_view().textures_view().update(
                    i,
                    Stored { count: (old(self).resources_view().textures_view()[i].count - 1) as u32, ..old(self).resources_view().textures_view()[i] },
                ),
            final(self).images_view() == old(self).images_view(),
            final(self).stage_view() == old(self).stage_view(),
    {
        let r = self.resources.release_texture(id);
        proof {
            let t = self.resources.textures_view();
            let t0 = old(self).resources.textures_view();
            assert forall|i: int| 0 <= i < t.len() implies 0 <= (#[trigger] t[i]).value.image_index < self.images.slots().len() by {
                assert(t[i].value == t0[i].value);
            }
        }
        r
    }

    /// Starts a frame if none is being recorded: collects unused resources,
    /// then flushes the image group once. Returns the image writes to apply
    /// before the frame's draws, if any. Inside a frame this does nothing.
    pub fn begin_draw(&mut self) -> (r: Result<Option<ImageWrites>, Error>)
        requires
            old(self).inv(),
        ensures
            final(self).inv(),
            old(self).stage_view() == RenderStage::During ==> r == Ok::<Option<ImageWrites>, Error>(None) && *final(self) == *old(self),
            old(self).stage_view() == RenderStage::Before ==> {
                let textures = old(self).resources_view().textures_view();
                let slots = release_slots(old(self).images_view().slots(), dead(textures));
                let pending = old(self).images_view().pending() || dead(textures).len() > 0;
                &&& final(self).stage_view() == RenderStage::During
                &&& final(self).resources_view().textures_view() == live(textures)
                &&& final(self).resources_view().shaders_view() == live(old(self).resources_view().shaders_view())
                &&& final(self).resources_view().fonts_view() == live(old(self).resources_view().fonts_view())
                &&& final(self).resources_view().materials_view() == old(self).resources_view().materials_view()
                &&& final(self).resources_view().meshes_view() == old(self).resources_view().meshes_view()
                &&& final(self).resources_view().framebuffers_view() == old(self).resources_view().framebuffers_view()
                &&& final(self).images_view().slots() == slots
                &&& !pending ==> r == Ok::<Option<ImageWrites>, Error>(None)
                &&& pending && (slots.len() == 0 || slots[0] is None) ==> r == Err::<Option<ImageWrites>, Error>(Error::ImageSlotZeroEmpty)
                &&& pending && slots.len() > 0 && slots[0] is Some ==> {
                    &&& r is Ok && r->Ok_0 is Some
                    &&& !final(self).images_view().pending()
                    &&& r->Ok_0->Some_0.images@.len() == IMAGE_SLOT_COUNT
                    &&& forall|i: int| 0 <= i < IMAGE_SLOT_COUNT ==> #[trigger] r->Ok_0->Some_0.images@[i] == flushed_image(slots, i)
                    &&& r->Ok_0->Some_0.samplers@ == old(self).images_view().samplers()
                    &&& r->Ok_0->Some_0.skybox == old(self).images_view().skybox_view()
                }
            },
    {
        if self.stage == RenderStage::During {
            return Ok(None);
        }
        proof {
            lemma_dead_in_range(self.resources.textures_view(), self.images.slots().len());
            lemma_live_in_range(self.resources.textures_view(), self.images.slots().len());
            crate::resource::lemma_release_len(self.images.slots(), dead(self.resources.textures_view()));
        }
        self.resources.clean_unused(&mut self.images);
        let r = self.images.update_if_needed();
        self.stage = RenderStage::During;
        r
    }

    /// Ends the frame being recorded.
    pub fn end_draw(&mut self)
        ensures
            final(self).stage_view() == RenderStage::Before,
            final(self).resources_view() == old(self).resources_view(),
            final(self).images_view() == old(self).images_view(),
    {
        self.stage = RenderStage::Before;
    }
}

} // verus!
