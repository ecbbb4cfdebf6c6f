use vstd::prelude::*;

use std::collections::HashMap;

use crate::error::Error;
use crate::uniform::Descriptor;
use crate::uniform::ImageUniform;
use crate::uniform::lowest_free;

verus! {

broadcast use vstd::std_specs::hash::group_hash_axioms;

/// A texture: its image view and the image slot it was given.
#[derive(Clone, Copy, Debug, PartialEq, Eq, Structural)]
pub struct Texture {
    pub view: u64,
    pub image_index: i32,
}

/// A shader: its pipeline handle.
#[derive(Clone, Copy, Debug, PartialEq, Eq, Structural)]
pub struct Shader {
    pub pipeline: u64,
}

/// A font: the texture that holds its glyph atlas.
#[derive(Clone, Copy, Debug, PartialEq, Eq, Structural)]
pub struct Font {
    pub atlas: u32,
}

/// A material: the descriptor of its parameter group.
#[derive(Clone, Copy, Debug, PartialEq, Eq, Structural)]
pub struct CoreMaterial {
    pub descriptor: Descriptor,
}

/// A mesh uploaded to the device.
#[derive(Clone, Copy, Debug, PartialEq, Eq, Structural)]
pub struct CoreMesh {
    pub vertex_buffer: u64,
    pub index_buffer: u64,
    pub index_count: u32,
}

/// A framebuffer: the descriptor that exposes its image, and its size.
#[derive(Clone, Copy, Debug, PartialEq, Eq, Structural)]
pub struct CoreFramebuffer {
    pub descriptor: Descriptor,
    pub width: u32,
    pub height: u32,
}

/// A stored resource with its id and its count of live references.
#[derive(Clone, Copy)]
pub struct Stored<T> {
    pub id: u32,
    pub value: T,
    pub count: u32,
}

/// Entries that survive a collection: those still referenced, in order.
pub open spec fn live<T>(s: Seq<Stored<T>>) -> Seq<Stored<T>>
    decreases s.len(),
{
    if s.len() == 0 {
        s
    } else {
        let p = live(s.drop_last());
        if s.last().count != 0 {
            p.push(s.last())
        } else {
            p
        }
    }
}

/// Values of the entries that a collection removes, in order.
pub open spec fn dead<T>(s: Seq<Stored<T>>) -> Seq<T>
    decreases s.len(),
{
    if s.len() == 0 {
        Seq::empty()
    } else {
        let p = dead(s.drop_last());
        if s.last().count == 0 {
            p.push(s.last().value)
        } else {
            p
        }
    }
}

/// Image slots after the slot of every texture in `removed` is emptied.
pub open spec fn release_slots(slots: Seq<Option<u64>>, removed: Seq<Texture>) -> Seq<Option<u64>>
    decreases removed.len(),
{
    if removed.len() == 0 {
        slots
    } else {
        release_slots(slots, removed.drop_last()).update(removed.last().image_index as int, None)
    }
}

pub open spec fn ids_distinct<T>(s: Seq<Stored<T>>) -> bool {
    forall|i: int, j: int| 0 <= i < s.len() && 0 <= j < s.len() && i != j ==> (#[trigger] s[i]).id != (#[trigger] s[j]).id
}

pub open spec fn ids_below<T>(s: Seq<Stored<T>>, bound: u32) -> bool {
    forall|i: int| 0 <= i < s.len() ==> (#[trigger] s[i]).id < bound
}

/// The entry with id `id`, if any.
pub open spec fn entry_of<T>(s: Seq<Stored<T>>, id: u32) -> Option<Stored<T>> {
    if exists|i: int| 0 <= i < s.len() && (#[trigger] s[i]).id == id {
        Some(s[choose|i: int| 0 <= i < s.len() && (#[trigger] s[i]).id == id])
    } else {
        None
    }
}

proof fn lemma_live_from<T>(s: Seq<Stored<T>>)
    ensures
        forall|k: int| 0 <= k < live(s).len() ==> s.contains(#[trigger] live(s)[k]),
        ids_distinct(s) ==> ids_distinct(live(s)),
    decreases s.len(),
{
    if s.len() > 0 {
        let p = s.drop_last();
        lemma_live_from(p);
        let lp = live(p);
        assert forall|k: int| 0 <= k < live(s).len() implies s.contains(#[trigger] live(s)[k]) by {
            if k < lp.len() {
                assert(live(s)[k] == lp[k]);
                let x = choose|x: int| 0 <= x < p.len() && p[x] == lp[k];
                assert(s[x] == lp[k]);
            } else {
                assert(live(s)[k] == s[s.len() - 1]);
            }
        }
        if ids_distinct(s) && s.last().count != 0 {
            let l = live(s);
            assert forall|i: int, j: int| 0 <= i < l.len() && 0 <= j < l.len() && i != j implies (#[trigger] l[i]).id != (#[trigger] l[j]).id by {
                if i < lp.len() && j < lp.len() {
                    assert(l[i] == lp[i] && l[j] == lp[j]);
                } else if i < lp.len() {
                    let x = choose|x: int| 0 <= x < p.len() && p[x] == lp[i];
                    assert(s[x] == l[i]);
                    assert(l[j] == s[s.len() - 1]);
                } else {
                    let x = choose|x: int| 0 <= x < p.len() && p[x] == lp[j];
                    assert(s[x] == l[j]);
                    assert(l[i] == s[s.len() - 1]);
                }
            }
        }
    }
}

/// A slot array of reference-counted resources. Ids are unique; entries
/// keep their insertion order.
pub struct RefTable<T> {
    entries: Vec<Stored<T>>,
}

impl<T: Copy> RefTable<T> {
    pub closed spec fn view(&self) -> Seq<Stored<T>> {
        self.entries@
    }

    pub fn new() -> (r: Self)
        ensures
            r.view() == Seq::<Stored<T>>::empty(),
    {
        RefTable { entries: Vec::new() }
    }

    /// Adds `value` under the fresh id `id`, with one reference.
    fn insert(&mut self, id: u32, value: T)
        requires
            ids_below(old(self).view(), id),
            ids_distinct(old(self).view()),
        ensures
            final(self).view() == old(self).view().push(Stored { id, value, count: 1 }),
            ids_distinct(final(self).view()),
    {
        self.entries.push(Stored { id, value, count: 1 });
    }

    fn position(&self, id: u32) -> (r: Option<usize>)
        requires
            ids_distinct(self.view()),
        ensures
            r is None ==> entry_of(self.view(), id) is None,
            r is Some ==> r->Some_0 < self.view().len() && self.view()[r->Some_0 as int].id == id
                && entry_of(self.view(), id) == Some(self.view()[r->Some_0 as int]),
    {
        let mut i: usize = 0;
        while i < self.entries.len() && self.entries[i].id != id
            invariant
                0 <= i <= self.entries@.len(),
                forall|k: int| 0 <= k < i ==> (#[trigger] self.entries@[k]).id != id,
            decreases self.entries@.len() - i,
        {
            i = i + 1;
        }
        if i < self.entries.len() {
            let ghost c = choose|k: int| 0 <= k < self.entries@.len() && (#[trigger] self.entries@[k]).id == id;
            assert(c == i);
            Some(i)
        } else {
            None
        }
    }

    /// The value stored under `id`.
    pub fn get(&self, id: u32) -> (r: Result<T, Error>)
        requires
            ids_distinct(self.view()),
        ensures
            entry_of(self.view(), id) is None ==> r == Err::<T, Error>(Error::InvalidHandle),
            entry_of(self.view(), id) is Some ==> r == Ok::<T, Error>(entry_of(self.view(), id)->Some_0.value),
    {
        match self.position(id) {
            Some(i) => Ok(self.entries[i].value),
            None => Err(Error::InvalidHandle),
        }
    }

    /// The number of live references to `id`.
    pub fn count(&self, id: u32) -> (r: Result<u32, Error>)
        requires
            ids_distinct(self.view()),
        ensures
            entry_of(self.view(), id) is None ==> r == Err::<u32, Error>(Error::InvalidHandle),
            entry_of(self.view(), id) is Some ==> r == Ok::<u32, Error>(entry_of(self.view(), id)->Some_0.count),
    {
        match self.position(id) {
            Some(i) => Ok(self.entries[i].count),
            None => Err(Error::InvalidHandle),
        }
    }

    /// Records one more live reference to `id`.
    pub fn acquire(&mut self, id: u32) -> (r: Result<(), Error>)
        requires
            ids_distinct(old(self).view()),
            entry_of(old(self).view(), id) is Some ==> entry_of(old(self).view(), id)->Some_0.count < u32::MAX,
        ensures
            ids_distinct(final(self).view()),
            entry_of(old(self).view(), id) is None ==> r is Err && r->Err_0 == Error::InvalidHandle && final(self).view() == old(self).view(),
            entry_of(old(self).view(), id) is Some ==> r is Ok && exists|i: int| 0 <= i < old(self).view().len() && (#[trigger] old(self).view()[i]).id == id
                && final(self).view() == old(self).view().update(i, Stored { count: (old(self).view()[i].count + 1) as u32, ..old(self).view()[i] }),
    {
        match self.position(id) {
            Some(i) => {
                let e = self.entries[i];
                self.entries.set(i, Stored { count: e.count + 1, ..e });
                assert forall|a: int, b: int| 0 <= a < self.entries@.len() && 0 <= b < self.entries@.len() && a != b
                    implies (#[trigger] self.entries@[a]).id != (#[trigger] self.entries@[b]).id by {
                    assert(self.entries@[a].id == old(self).entries@[a].id);
                    assert(self.entries@[b].id == old(self).entries@[b].id);
                }
                Ok(())
            },
            None => Err(Error::InvalidHandle),
        }
    }

    /// Drops one live reference to `id`. Fails where `id` is unknown or has
    /// no live reference left.
    pub fn release(&mut self, id: u32) -> (r: Result<(), Error>)
        requires
            ids_distinct(old(self).view()),
        ensures
            ids_distinct(final(self).view()),
            (entry_of(old(self).view(), id) is None || entry_of(old(self).view(), id)->Some_0.count == 0) ==> r is Err
                && r->Err_0 == Error::InvalidHandle && final(self).view() == old(self).view(),
            (entry_of(old(self).view(), id) is Some && entry_of(old(self).view(), id)->Some_0.count > 0) ==> r is Ok
                && exists|i: int| 0 <= i < old(self).view().len() && (#[trigger] old(self).view()[i]).id == id
                && final(self).view() == old(self).view().update(i, Stored { count: (old(self).view()[i].count - 1) as u32, ..old(self).view()[i] }),
    {
        match self.position(id) {
            Some(i) => {
                let e = self.entries[i];
                if e.count == 0 {
                    return Err(Error::InvalidHandle);
                }
                self.entries.set(i, Stored { count: e.count - 1, ..e });
                assert forall|a: int, b: int| 0 <= a < self.entries@.len() && 0 <= b < self.entries@.len() && a != b
                    implies (#[trigger] self.entries@[a]).id != (#[trigger] self.entries@[b]).id by {
                    assert(self.entries@[a].id == old(self).entries@[a].id);
                    assert(self.entries@[b].id == old(self).entries@[b].id);
                }
                Ok(())
            },
            None => Err(Error::InvalidHandle),
        }
    }

    /// Removes every entry without live references and returns their values.
    pub fn collect(&mut self) -> (r: Vec<T>)
        requires
            ids_distinct(old(self).view()),
        ensures
            final(self).view() == live(old(self).view()),
            r@ == dead(old(self).view()),
            ids_distinct(final(self).view()),
    {
        let ghost s = self.entries@;
        let mut kept: Vec<Stored<T>> = Vec::new();
        let mut removed: Vec<T> = Vec::new();
        let mut i: usize = 0;
        while i < self.entries.len()
            invariant
                self.entries@ == s,
                0 <= i <= s.len(),
                kept@ == live(s.subrange(0, i as int)),
                removed@ == dead(s.subrange(0, i as int)),
            decreases s.len() - i,
        {
            let e = self.entries[i];
            proof {
                assert(s.subrange(0, i + 1).drop_last() =~= s.subrange(0, i as int));
            }
            if e.count != 0 {
                kept.push(e);
            } else {
                removed.push(e.value);
            }
            i = i + 1;
        }
        proof {
            assert(s.subrange(0, s.len() as int) =~= s);
            lemma_live_from(s);
        }
        self.entries = kept;
        removed
    }
}

/// Ties resource handles to live resources. Textures, shaders and fonts are
/// reference counted and collected once unused; materials, meshes and
/// framebuffers live until removed explicitly. Every handle comes from one
/// counter, so no two resources ever share a handle.
pub struct ResourceManager {
    textures: RefTable<Texture>,
    shaders: RefTable<Shader>,
    fonts: RefTable<Font>,
    framebuffers: HashMap<u32, CoreFramebuffer>,
    materials: HashMap<u32, CoreMaterial>,
    meshes: HashMap<u32, CoreMesh>,
    next_index: u32,
}

impl ResourceManager {
    pub closed spec fn textures_view(&self) -> Seq<Stored<Texture>> {
        self.textures.view()
    }

    pub closed spec fn shaders_view(&self) -> Seq<Stored<Shader>> {
        self.shaders.view()
    }

    pub closed spec fn fonts_view(&self) -> Seq<Stored<Font>> {
        self.fonts.view()
    }

    pub closed spec fn framebuffers_view(&self) -> Map<u32, CoreFramebuffer> {
        self.framebuffers@
    }

    pub closed spec fn materials_view(&self) -> Map<u32, CoreMaterial> {
        self.materials@
    }

    pub closed spec fn meshes_view(&self) -> Map<u32, CoreMesh> {
        self.meshes@
    }

    /// The handle the next added resource gets.
    pub closed spec fn next_view(&self) -> u32 {
        self.next_index
    }

    pub open spec fn wf(&self) -> bool {
        &&& ids_distinct(self.textures_view())
        &&& ids_distinct(self.shaders_view())
        &&& ids_distinct(self.fonts_view())
        &&& ids_below(self.textures_view(), self.next_view())
        &&& ids_below(self.shaders_view(), self.next_view())
        &&& ids_below(self.fonts_view(), self.next_view())
        &&& forall|k: u32| #[trigger] self.framebuffers_view().contains_key(k) ==> k < self.next_view()
        &&& forall|k: u32| #[trigger] self.materials_view().contains_key(k) ==> k < self.next_view()
        &&& forall|k: u32| #[trigger] self.meshes_view().contains_key(k) ==> k < self.next_view()
    }

    pub fn new() -> (r: Self)
        ensures
            r.wf(),
            r.textures_view() == Seq::<Stored<Texture>>::empty(),
            r.shaders_view() == Seq::<Stored<Shader>>::empty(),
            r.fonts_view() == Seq::<Stored<Font>>::empty(),
            r.framebuffers_view() == Map::<u32, CoreFramebuffer>::empty(),
            r.materials_view() == Map::<u32, CoreMaterial>::empty(),
            r.meshes_view() == Map::<u32, CoreMesh>::empty(),
            r.next_view() == 0,
    {
        ResourceManager {
            textures: RefTable::new(),
            shaders: RefTable::new(),
            fonts: RefTable::new(),
            framebuffers: HashMap::new(),
            materials: HashMap::new(),
            meshes: HashMap::new(),
            next_index: 0,
        }
    }

    pub fn add_texture(&mut self, texture: Texture) -> (r: u32)
        requires
            old(self).wf(),
            old(self).next_view() < u32::MAX,
        ensures
            final(self).wf(),
            r == old(self).next_view(),
            final(self).next_view() == old(self).next_view() + 1,
            final(self).textures_view() == old(self).textures_view().push(Stored { id: r, value: texture, count: 1 }),
            final(self).shaders_view() == old(self).shaders_view(),
            final(self).fonts_view() == old(self).fonts_view(),
            final(self).framebuffers_view() == old(self).framebuffers_view(),
            final(self).materials_view() == old(self).materials_view(),
            final(self).meshes_view() == old(self).meshes_view(),
    {
        let id = self.next_index;
        self.textures.insert(id, texture);
        self.next_index = id + 1;
        assert(self.framebuffers_view() == old(self).framebuffers_view());
        assert(self.materials_view() == old(self).materials_view());
        assert(self.meshes_view() == old(self).meshes_view());
        id
    }

    pub fn add_shader(&mut self, shader: Shader) -> (r: u32)
        requires
            old(self).wf(),
            old(self).next_view() < u32::MAX,
        ensures
            final(self).wf(),
            r == old(self).next_view(),
            final(self).next_view() == old(self).next_view() + 1,
            final(self).shaders_view() == old(self).shaders_view().push(Stored { id: r, value: shader, count: 1 }),
            final(self).textures_view() == old(self).textures_view(),
            final(self).fonts_view() == old(self).fonts_view(),
            final(self).framebuffers_view() == old(self).framebuffers_view(),
            final(self).materials_view() == old(self).materials_view(),
            final(self).meshes_view() == old(self).meshes_view(),
    {
        let id = self.next_index;
        self.shaders.insert(id, shader);
        self.next_index = id + 1;
        assert(self.framebuffers_view() == old(self).framebuffers_view());
        assert(self.materials_view() == old(self).materials_view());
        assert(self.meshes_view() == old(self).meshes_view());
        id
    }

    pub fn add_font(&mut self, font: Font) -> (r: u32)
        requires
            old(self).wf(),
            old(self).next_view() < u32::MAX,
        ensures
            final(self).wf(),
            r == old(self).next_view(),
            final(self).next_view() == old(self).next_view() + 1,
            final(self).fonts_view() == old(self).fonts_view().push(Stored { id: r, value: font, count: 1 }),
            final(self).textures_view() == old(self).textures_view(),
            final(self).shaders_view() == old(self).shaders_view(),
            final(self).framebuffers_view() == old(self).framebuffers_view(),
            final(self).materials_view() == old(self).materials_view(),
            final(self).meshes_view() == old(self).meshes_view(),
    {
        let id = self.next_index;
        self.fonts.insert(id, font);
        self.next_index = id + 1;
        assert(self.framebuffers_view() == old(self).framebuffers_view());
        assert(self.materials_view() == old(self).materials_view());
        assert(self.meshes_view() == old(self).meshes_view());
        id
    }

    pub fn add_material(&mut self, material: CoreMaterial) -> (r: u32)
        requires
            old(self).wf(),
            old(self).next_view() < u32::MAX,
        ensures
            final(self).wf(),
            r == old(self).next_view(),
            final(self).next_view() == old(self).next_view() + 1,
            final(self).materials_view() == old(self).materials_view().insert(r, material),
            !old(self).materials_view().contains_key(r),
            final(self).textures_view() == old(self).textures_view(),
            final(self).shaders_view() == old(self).shaders_view(),
            final(self).fonts_view() == old(self).fonts_view(),
            final(self).framebuffers_view() == old(self).framebuffers_view(),
            final(self).meshes_view() == old(self).meshes_view(),
    {
        let index = self.next_index;
        self.next_index = index + 1;
        self.materials.insert(index, material);
        assert(self.framebuffers_view() == old(self).framebuffers_view());
        assert(self.meshes_view() == old(self).meshes_view());
        assert forall|key: u32| #[trigger] self.materials_view().contains_key(key) implies key < self.next_view() by {
            if key != index {
                assert(old(self).materials_view().contains_key(key));
            }
        }
        index
    }

    pub fn add_mesh(&mut self, mesh: CoreMesh) -> (r: u32)
        requires
            old(self).wf(),
            old(self).next_view() < u32::MAX,
        ensures
            final(self).wf(),
            r == old(self).next_view(),
            final(self).next_view() == old(self).next_view() + 1,
            final(self).meshes_view() == old(self).meshes_view().insert(r, mesh),
            !old(self).meshes_view().contains_key(r),
            final(self).textures_view() == old(self).textures_view(),
            final(self).shaders_view() == old(self).shaders_view(),
            final(self).fonts_view() == old(self).fonts_view(),
            final(self).framebuffers_view() == old(self).framebuffers_view(),
            final(self).materials_view() == old(self).materials_view(),
    {
        let index = self.next_index;
        self.next_index = index + 1;
        self.meshes.insert(index, mesh);
        assert(self.framebuffers_view() == old(self).framebuffers_view());
        assert(self.materials_view() == old(self).materials_view());
        assert forall|key: u32| #[trigger] self.meshes_view().contains_key(key) implies key < self.next_view() by {
            if key != index {
                assert(old(self).meshes_view().contains_key(key));
            }
        }
        index
    }

    pub fn add_framebuffer(&mut self, framebuffer: CoreFramebuffer) -> (r: u32)
        requires
            old(self).wf(),
            old(self).next_view() < u32::MAX,
        ensures
            final(self).wf(),
            r == old(self).next_view(),
            final(self).next_view() == old(self).next_view() + 1,
            final(self).framebuffers_view() == old(self).framebuffers_view().insert(r, framebuffer),
            !old(self).framebuffers_view().contains_key(r),
            final(self).textures_view() == old(self).textures_view(),
            final(self).shaders_view() == old(self).shaders_view(),
            final(self).fonts_view() == old(self).fonts_view(),
            final(self).materials_view() == old(self).materials_view(),
            final(self).meshes_view() == old(self).meshes_view(),
    {
        let index = self.next_index;
        self.next_index = index + 1;
        self.framebuffers.insert(index, framebuffer);
        assert(self.materials_view() == old(self).materials_view());
        assert(self.meshes_view() == old(self).meshes_view());
        assert forall|key: u32| #[trigger] self.framebuffers_view().contains_key(key) implies key < self.next_view() by {
            if key != index {
                assert(old(self).framebuffers_view().contains_key(key));
            }
        }
        index
    }

    pub fn material(&self, index: u32) -> (r: Result<CoreMaterial, Error>)
        ensures
            self.materials_view().contains_key(index) ==> r == Ok::<CoreMaterial, Error>(self.materials_view()[index]),
            !self.materials_view().contains_key(index) ==> r == Err::<CoreMaterial, Error>(Error::InvalidHandle),
    {
        match self.materials.get(&index) {
            Some(m) => Ok(*m),
            None => Err(Error::InvalidHandle),
        }
    }

    pub fn mesh(&self, index: u32) -> (r: Result<CoreMesh, Error>)
        ensures
            self.meshes_view().contains_key(index) ==> r == Ok::<CoreMesh, Error>(self.meshes_view()[index]),
            !self.meshes_view().contains_key(index) ==> r == Err::<CoreMesh, Error>(Error::InvalidHandle),
    {
        match self.meshes.get(&index) {
            Some(m) => Ok(*m),
            None => Err(Error::InvalidHandle),
        }
    }

    pub fn framebuffer(&self, index: u32) -> (r: Result<CoreFramebuffer, Error>)
        ensures
            self.framebuffers_view().contains_key(index) ==> r == Ok::<CoreFramebuffer, Error>(self.framebuffers_view()[index]),
            !self.framebuffers_view().contains_key(index) ==> r == Err::<CoreFramebuffer, Error>(Error::InvalidHandle),
    {
        match self.framebuffers.get(&index) {
            Some(f) => Ok(*f),
            None => Err(Error::InvalidHandle),
        }
    }

    /// Replaces the material stored under `index`.
    pub fn material_mut(&mut self, index: u32, material: CoreMaterial) -> (r: Result<(), Error>)
        requires
            old(self).wf(),
        ensures
            final(self).wf(),
            old(self).materials_view().contains_key(index) ==> r is Ok && final(self).materials_view() == old(self).materials_view().insert(index, material),
            !old(self).materials_view().contains_key(index) ==> r == Err::<(), Error>(Error::InvalidHandle) && final(self).materials_view() == old(self).materials_view(),
            final(self).textures_view() == old(self).textures_view(),
            final(self).shaders_view() == old(self).shaders_view(),
            final(self).fonts_view() == old(self).fonts_view(),
            final(self).framebuffers_view() == old(self).framebuffers_view(),
            final(self).meshes_view() == old(self).meshes_view(),
            final(self).next_view() == old(self).next_view(),
    {
        if self.materials.contains_key(&index) {
            self.materials.insert(index, material);
            assert(self.framebuffers_view() == old(self).framebuffers_view());
            assert(self.meshes_view() == old(self).meshes_view());
            assert forall|key: u32| #[trigger] self.materials_view().contains_key(key) implies key < self.next_view() by {
                assert(old(self).materials_view().contains_key(key));
            }
            Ok(())
        } else {
            Err(Error::InvalidHandle)
        }
    }

    /// Replaces the mesh stored under `index`.
    pub fn mesh_mut(&mut self, index: u32, mesh: CoreMesh) -> (r: Result<(), Error>)
        requires
            old(self).wf(),
        ensures
            final(self).wf(),
            old(self).meshes_view().contains_key(index) ==> r is Ok && final(self).meshes_view() == old(self).meshes_view().insert(index, mesh),
            !old(self).meshes_view().contains_key(index) ==> r == Err::<(), Error>(Error::InvalidHandle) && final(self).meshes_view() == old(self).meshes_view(),
            final(self).textures_view() == old(self).textures_view(),
            final(self).shaders_view() == old(self).shaders_view(),
            final(self).fonts_view() == old(self).fonts_view(),
            final(self).framebuffers_view() == old(self).framebuffers_view(),
            final(self).materials_view() == old(self).materials_view(),
            final(self).next_view() == old(self).next_view(),
    {
        if self.meshes.contains_key(&index) {
            self.meshes.insert(index, mesh);
            assert(self.framebuffers_view() == old(self).framebuffers_view());
            assert(self.materials_view() == old(self).materials_view());
            assert forall|key: u32| #[trigger] self.meshes_view().contains_key(key) implies key < self.next_view() by {
                assert(old(self).meshes_view().contains_key(key));
            }
            Ok(())
        } else {
            Err(Error::InvalidHandle)
        }
    }

    /// Replaces the framebuffer stored under `index`.
    pub fn framebuffer_mut(&mut self, index: u32, framebuffer: CoreFramebuffer) -> (r: Result<(), Error>)
        requires
            old(self).wf(),
        ensures
            final(self).wf(),
            old(self).framebuffers_view().contains_key(index) ==> r is Ok && final(self).framebuffers_view() == old(self).framebuffers_view().insert(index, framebuffer),
            !old(self).framebuffers_view().contains_key(index) ==> r == Err::<(), Error>(Error::InvalidHandle) && final(self).framebuffers_view() == old(self).framebuffers_view(),
            final(self).textures_view() == old(self).textures_view(),
            final(self).shaders_view() == old(self).shaders_view(),
            final(self).fonts_view() == old(self).fonts_view(),
            final(self).materials_view() == old(self).materials_view(),
            final(self).meshes_view() == old(self).meshes_view(),
            final(self).next_view() == old(self).next_view(),
    {
        if self.framebuffers.contains_key(&index) {
            self.framebuffers.insert(index, framebuffer);
            assert(self.materials_view() == old(self).materials_view());
            assert(self.meshes_view() == old(self).meshes_view());
            assert forall|key: u32| #[trigger] self.framebuffers_view().contains_key(key) implies key < self.next_view() by {
                assert(old(self).framebuffers_view().contains_key(key));
            }
            Ok(())
        } else {
            Err(Error::InvalidHandle)
        }
    }

    pub fn texture(&self, id: u32) -> (r: Result<Texture, Error>)
        requires
            self.wf(),
        ensures
            entry_of(self.textures_view(), id) is None ==> r == Err::<Texture, Error>(Error::InvalidHandle),
            entry_of(self.textures_view(), id) is Some ==> r == Ok::<Texture, Error>(entry_of(self.textures_view(), id)->Some_0.value),
    {
        self.textures.get(id)
    }

    pub fn shader(&self, id: u32) -> (r: Result<Shader, Error>)
        requires
            self.wf(),
        ensures
            entry_of(self.shaders_view(), id) is None ==> r == Err::<Shader, Error>(Error::InvalidHandle),
            entry_of(self.shaders_view(), id) is Some ==> r == Ok::<Shader, Error>(entry_of(self.shaders_view(), id)->Some_0.value),
    {
        self.shaders.get(id)
    }

    pub fn font(&self, id: u32) -> (r: Result<Font, Error>)
        requires
            self.wf(),
        ensures
            entry_of(self.fonts_view(), id) is None ==> r == Err::<Font, Error>(Error::InvalidHandle),
            entry_of(self.fonts_view(), id) is Some ==> r == Ok::<Font, Error>(entry_of(self.fonts_view(), id)->Some_0.value),
    {
        self.fonts.get(id)
    }

    /// Records one more live handle to texture `id`.
    pub fn acquire_texture(&mut self, id: u32) -> (r: Result<(), Error>)
        requires
            old(self).wf(),
            entry_of(old(self).textures_view(), id) is Some ==> entry_of(old(self).textures_view(), id)->Some_0.count < u32::MAX,
        ensures
            final(self).wf(),
            entry_of(old(self).textures_view(), id) is None ==> r is Err && r->Err_0 == Error::InvalidHandle
                && final(self).textures_view() == old(self).textures_view(),
            entry_of(old(self).textures_view(), id) is Some ==> r is Ok && exists|i: int| 0 <= i < old(self).textures_view().len()
                && (#[trigger] old(self).textures_view()[i]).id == id
                && final(self).textures_view() == old(self).textures_view().update(i, Stored { count: (old(self).textures_view()[i].count + 1) as u32, ..old(self).textures_view()[i] }),
            final(self).shaders_view() == old(self).shaders_view(),
            final(self).fonts_view() == old(self).fonts_view(),
            final(self).framebuffers_view() == old(self).framebuffers_view(),
            final(self).materials_view() == old(self).materials_view(),
            final(self).meshes_view() == old(self).meshes_view(),
            final(self).next_view() == old(self).next_view(),
    {
        let r = self.textures.acquire(id);
        proof {
            assert(self.framebuffers_view() == old(self).framebuffers_view());
            assert(self.materials_view() == old(self).materials_view());
            assert(self.meshes_view() == old(self).meshes_view());
            assert forall|i: int| 0 <= i < self.textures_view().len() implies (#[trigger] self.textures_view()[i]).id < self.next_view() by {
                if r is Ok {
                    let k = choose|k: int| 0 <= k < old(self).textures_view().len() && (#[trigger] old(self).textures_view()[k]).id == id
                        && self.textures_view() == old(self).textures_view().update(k, Stored { count: (old(self).textures_view()[k].count + 1) as u32, ..old(self).textures_view()[k] });
                    assert(self.textures_view()[i].id == old(self).textures_view()[i].id);
                }
            }
        }
        r
    }

    /// Drops one live handle to texture `id`.
    pub fn release_texture(&mut self, id: u32) -> (r: Result<(), Error>)
        requires
            old(self).wf(),
        ensures
            final(self).wf(),
            (entry_of(old(self).textures_view(), id) is None || entry_of(old(self).textures_view(), id)->Some_0.count == 0) ==> r is Err
                && r->Err_0 == Error::InvalidHandle && final(self).textures_view() == old(self).textures_view(),
            (entry_of(old(self).textures_view(), id) is Some && entry_of(old(self).textures_view(), id)->Some_0.count > 0) ==> r is Ok
                && exists|i: int| 0 <= i < old(self).textures_view().len() && (#[trigger] old(self).textures_view()[i]).id == id
                && final(self).textures_view() == old(self).textures_view().update(i, Stored { count: (old(self).textures_view()[i].count - 1) as u32, ..old(self).textures_view()[i] }),
            final(self).shaders_view() == old(self).shaders_view(),
            final(self).fonts_view() == old(self).fonts_view(),
            final(self).framebuffers_view() == old(self).framebuffers_view(),
            final(self).materials_view() == old(self).materials_view(),
            final(self).meshes_view() == old(self).meshes_view(),
            final(self).next_view() == old(self).next_view(),
    {
        let r = self.textures.release(id);
        proof {
            assert(self.framebuffers_view() == old(self).framebuffers_view());
            assert(self.materials_view() == old(self).materials_view());
            assert(self.meshes_view() == old(self).meshes_view());
            assert forall|i: int| 0 <= i < self.textures_view().len() implies (#[trigger] self.textures_view()[i]).id < self.next_view() by {
                if r is Ok {
                    let k = choose|k: int| 0 <= k < old(self).textures_view().len() && (#[trigger] old(self).textures_view()[k]).id == id
                        && self.textures_view() == old(self).textures_view().update(k, Stored { count: (old(self).textures_view()[k].count - 1) as u32, ..old(self).textures_view()[k] });
                    assert(self.textures_view()[i].id == old(self).textures_view()[i].id);
                }
            }
        }
        r
    }

    /// Removes the fonts, shaders and textures that no handle refers to any
    /// more, and empties the image slot of each removed texture. Materials,
    /// meshes and framebuffers are left alone.
    pub fn clean_unused(&mut self, uniform: &mut ImageUniform)
        requires
            old(self).wf(),
            forall|k: int| 0 <= k < dead(old(self).textures_view()).len() ==>
                0 <= (#[trigger] dead(old(self).textures_view())[k]).image_index < old(uniform).slots().len(),
        ensures
            final(self).wf(),
            final(self).textures_view() == live(old(self).textures_view()),
            final(self).shaders_view() == live(old(self).shaders_view()),
            final(self).fonts_view() == live(old(self).fonts_view()),
            final(self).framebuffers_view() == old(self).framebuffers_view(),
            final(self).materials_view() == old(self).materials_view(),
            final(self).meshes_view() == old(self).meshes_view(),
            final(self).next_view() == old(self).next_view(),
            final(uniform).slots() == release_slots(old(uniform).slots(), dead(old(self).textures_view())),
            final(uniform).pending() == (old(uniform).pending() || dead(old(self).textures_view()).len() > 0),
            final(uniform).skybox_view() == old(uniform).skybox_view(),
            final(uniform).samplers() == old(uniform).samplers(),
            final(uniform).descriptor_view() == old(uniform).descriptor_view(),
    {
        let _ = self.fonts.collect();
        let _ = self.shaders.collect();
        let removed = self.textures.collect();
        proof {
            lemma_live_below(old(self).fonts_view(), self.next_index);
            lemma_live_below(old(self).shaders_view(), self.next_index);
            lemma_live_below(old(self).textures_view(), self.next_index);
            assert(self.framebuffers_view() == old(self).framebuffers_view());
            assert(self.materials_view() == old(self).materials_view());
            assert(self.meshes_view() == old(self).meshes_view());
        }
        let ghost slots0 = uniform.slots();
        let mut i: usize = 0;
        while i < removed.len()
            invariant
                0 <= i <= removed@.len(),
                removed@ == dead(old(self).textures_view()),
                forall|k: int| 0 <= k < removed@.len() ==> 0 <= (#[trigger] removed@[k]).image_index < slots0.len(),
                slots0 == old(uniform).slots(),
                uniform.slots() == release_slots(slots0, removed@.subrange(0, i as int)),
                uniform.slots().len() == slots0.len(),
                uniform.pending() == (old(uniform).pending() || i > 0),
                uniform.skybox_view() == old(uniform).skybox_view(),
                uniform.samplers() == old(uniform).samplers(),
                uniform.descriptor_view() == old(uniform).descriptor_view(),
            decreases removed@.len() - i,
        {
            let t = removed[i];
            uniform.remove(t.image_index);
            proof {
                assert(removed@.subrange(0, i + 1).drop_last() =~= removed@.subrange(0, i as int));
            }
            i = i + 1;
        }
        proof {
            assert(removed@.subrange(0, removed@.len() as int) =~= removed@);
        }
    }
}

proof fn lemma_live_below<T>(s: Seq<Stored<T>>, bound: u32)
    requires
        ids_below(s, bound),
    ensures
        ids_below(live(s), bound),
{
    lemma_live_from(s);
    assert forall|i: int| 0 <= i < live(s).len() implies (#[trigger] live(s)[i]).id < bound by {
        let x = choose|x: int| 0 <= x < s.len() && s[x] == live(s)[i];
    }
}

proof fn lemma_dead_from<T>(s: Seq<Stored<T>>, e: int)
    requires
        0 <= e < s.len(),
        s[e].count == 0,
    ensures
        dead(s).contains(s[e].value),
    decreases s.len(),
{
    let p = s.drop_last();
    if e < s.len() - 1 {
        lemma_dead_from(p, e);
        assert(p[e] == s[e]);
        let k = choose|k: int| 0 <= k < dead(p).len() && dead(p)[k] == s[e].value;
        if s.last().count == 0 {
            assert(dead(s)[k] == s[e].value);
        }
    } else {
        assert(dead(s)[dead(p).len() as int] == s[e].value);
    }
}

proof fn lemma_released_stays_free(slots: Seq<Option<u64>>, removed: Seq<Texture>, k: int)
    requires
        exists|j: int| 0 <= j < removed.len() && (#[trigger] removed[j]).image_index == k,
        0 <= k < slots.len(),
        forall|j: int| 0 <= j < removed.len() ==> 0 <= (#[trigger] removed[j]).image_index < slots.len(),
    ensures
        release_slots(slots, removed)[k] is None,
        release_slots(slots, removed).len() == slots.len(),
    decreases removed.len(),
{
    let p = removed.drop_last();
    lemma_release_len(slots, p);
    if removed.last().image_index != k {
        let j = choose|j: int| 0 <= j < removed.len() && (#[trigger] removed[j]).image_index == k;
        assert(p[j].image_index == k);
        lemma_released_stays_free(slots, p, k);
    }
}

pub(crate) proof fn lemma_release_len(slots: Seq<Option<u64>>, removed: Seq<Texture>)
    requires
        forall|j: int| 0 <= j < removed.len() ==> 0 <= (#[trigger] removed[j]).image_index < slots.len(),
    ensures
        release_slots(slots, removed).len() == slots.len(),
    decreases removed.len(),
{
    if removed.len() > 0 {
        lemma_release_len(slots, removed.drop_last());
    }
}

/// Collection frees image slots: a texture at slot `k` whose reference count
/// has dropped to zero leaves slot `k` empty after `clean_unused`, so the
/// next `add` on the image group takes slot `k` or a lower one.
pub proof fn lemma_collect_frees_slot(textures: Seq<Stored<Texture>>, slots: Seq<Option<u64>>, e: int, next: int)
    requires
        0 <= e < textures.len(),
        textures[e].count == 0,
        0 <= textures[e].value.image_index < slots.len(),
        forall|j: int| 0 <= j < dead(textures).len() ==> 0 <= (#[trigger] dead(textures)[j]).image_index < slots.len(),
        lowest_free(release_slots(slots, dead(textures)), next),
    ensures
        release_slots(slots, dead(textures))[textures[e].value.image_index as int] is None,
        next <= textures[e].value.image_index,
{
    let k = textures[e].value.image_index as int;
    lemma_dead_from(textures, e);
    let d = dead(textures);
    let j = choose|j: int| 0 <= j < d.len() && d[j] == textures[e].value;
    assert(d[j].image_index == k);
    lemma_released_stays_free(slots, d, k);
}

} // verus!
