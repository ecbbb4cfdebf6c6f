use vstd::prelude::*;

use crate::uniform::sampler_index;
use crate::uniform::sampler_index_spec;

verus! {

/// One draw call: what to draw, with which texture, where, and how.
/// `M` is the model transform, carried through unchanged.
#[derive(Clone, Copy)]
pub struct Order<M> {
    pub mesh: u32,
    pub albedo: u32,
    pub framebuffer: Option<u32>,
    pub model: M,
    pub has_shadows: bool,
    pub sampler_index: i32,
}

/// A material bucket: the material and its orders, in the order they came.
pub type MaterialGroup<M> = (u32, Seq<Order<M>>);

/// A shader bucket: the shader and its material buckets, in first-seen order.
pub type ShaderGroup<M> = (u32, Seq<MaterialGroup<M>>);

/// Orders that share a material, inside one shader bucket.
pub struct OrdersByMaterial<M> {
    material: u32,
    orders: Vec<Order<M>>,
}

/// Orders that share a shader, grouped further by material.
pub struct OrdersByShader<M> {
    shader: u32,
    orders_by_material: Vec<OrdersByMaterial<M>>,
}

impl<M> View for OrdersByMaterial<M> {
    type V = MaterialGroup<M>;

    closed spec fn view(&self) -> MaterialGroup<M> {
        (self.material, self.orders@)
    }
}

impl<M> View for OrdersByShader<M> {
    type V = ShaderGroup<M>;

    closed spec fn view(&self) -> ShaderGroup<M> {
        (self.shader, material_groups(self.orders_by_material@))
    }
}

pub open spec fn material_groups<M>(v: Seq<OrdersByMaterial<M>>) -> Seq<MaterialGroup<M>> {
    v.map_values(|g: OrdersByMaterial<M>| g@)
}

pub open spec fn shader_groups<M>(v: Seq<OrdersByShader<M>>) -> Seq<ShaderGroup<M>> {
    v.map_values(|g: OrdersByShader<M>| g@)
}

/// Material buckets after `order` is drawn with `material`: appended to the
/// bucket of that material, or to a new bucket at the end.
pub open spec fn insert_by_material<M>(g: Seq<MaterialGroup<M>>, material: u32, order: Order<M>) -> Seq<MaterialGroup<M>> {
    if exists|j: int| 0 <= j < g.len() && (#[trigger] g[j]).0 == material {
        let j = choose|j: int| 0 <= j < g.len() && (#[trigger] g[j]).0 == material;
        g.update(j, (material, g[j].1.push(order)))
    } else {
        g.push((material, seq![order]))
    }
}

/// Shader buckets after `order` is drawn with `shader` and `material`.
pub open spec fn insert_order<M>(b: Seq<ShaderGroup<M>>, shader: u32, material: u32, order: Order<M>) -> Seq<ShaderGroup<M>> {
    if exists|i: int| 0 <= i < b.len() && (#[trigger] b[i]).0 == shader {
        let i = choose|i: int| 0 <= i < b.len() && (#[trigger] b[i]).0 == shader;
        b.update(i, (shader, insert_by_material(b[i].1, material, order)))
    } else {
        b.push((shader, seq![(material, seq![order])]))
    }
}

/// Shader buckets after the wireframe copy of `order` is added: to the first
/// material bucket of the wireframe shader's bucket, or to a new bucket of
/// that shader with `material`.
pub open spec fn insert_wireframe<M>(b: Seq<ShaderGroup<M>>, shader: u32, material: u32, order: Order<M>) -> Seq<ShaderGroup<M>> {
    if exists|i: int| 0 <= i < b.len() && (#[trigger] b[i]).0 == shader {
        let i = choose|i: int| 0 <= i < b.len() && (#[trigger] b[i]).0 == shader;
        b.update(i, (shader, b[i].1.update(0, (b[i].1[0].0, b[i].1[0].1.push(order)))))
    } else {
        b.push((shader, seq![(material, seq![order])]))
    }
}

pub open spec fn material_keys_distinct<M>(g: Seq<MaterialGroup<M>>) -> bool {
    forall|i: int, j: int| 0 <= i < g.len() && 0 <= j < g.len() && i != j ==> (#[trigger] g[i]).0 != (#[trigger] g[j]).0
}

/// Bucket structure invariant: shaders distinct, and each shader bucket holds
/// at least one material bucket, with distinct materials.
pub open spec fn buckets_wf<M>(b: Seq<ShaderGroup<M>>) -> bool {
    &&& forall|i: int, j: int| 0 <= i < b.len() && 0 <= j < b.len() && i != j ==> (#[trigger] b[i]).0 != (#[trigger] b[j]).0
    &&& forall|i: int| 0 <= i < b.len() ==> (#[trigger] b[i]).1.len() > 0 && material_keys_distinct(b[i].1)
}

impl<M: Copy> OrdersByMaterial<M> {
    pub fn material(&self) -> (r: u32)
        ensures
            r == self@.0,
    {
        self.material
    }

    pub fn orders(&self) -> (r: &Vec<Order<M>>)
        ensures
            r@ == self@.1,
    {
        &self.orders
    }
}

impl<M: Copy> OrdersByShader<M> {
    pub fn shader(&self) -> (r: u32)
        ensures
            r == self@.0,
    {
        self.shader
    }

    pub fn orders_by_material(&self) -> (r: &Vec<OrdersByMaterial<M>>)
        ensures
            material_groups(r@) == self@.1,
    {
        &self.orders_by_material
    }

    fn new_with(shader: u32, material: u32, order: Order<M>) -> (r: Self)
        ensures
            r@ == (shader, seq![(material, seq![order])]),
    {
        let mut orders: Vec<Order<M>> = Vec::new();
        orders.push(order);
        let mut groups: Vec<OrdersByMaterial<M>> = Vec::new();
        groups.push(OrdersByMaterial { material, orders });
        let r = OrdersByShader { shader, orders_by_material: groups };
        assert(material_groups(r.orders_by_material@) =~= seq![(material, seq![order])]);
        r
    }

    fn push_order(&mut self, material: u32, order: Order<M>)
        requires
            material_keys_distinct(old(self)@.1),
        ensures
            final(self)@ == (old(self)@.0, insert_by_material(old(self)@.1, material, order)),
    {
        let ghost g = self@.1;
        let len = self.orders_by_material.len();
        let mut j: usize = 0;
        while j < len && self.orders_by_material[j].material != material
            invariant
                len == self.orders_by_material@.len(),
                g == material_groups(self.orders_by_material@),
                0 <= j <= len,
                forall|k: int| 0 <= k < j ==> (#[trigger] g[k]).0 != material,
            decreases len - j,
        {
            j = j + 1;
        }
        if j < len {
            assert(g[j as int].0 == material);
            let ghost jj = choose|k: int| 0 <= k < g.len() && (#[trigger] g[k]).0 == material;
            assert(jj == j);
            self.orders_by_material[j].orders.push(order);
            assert(material_groups(self.orders_by_material@) =~= g.update(j as int, (material, g[j as int].1.push(order))));
        } else {
            let mut orders: Vec<Order<M>> = Vec::new();
            orders.push(order);
            self.orders_by_material.push(OrdersByMaterial { material, orders });
            assert(material_groups(self.orders_by_material@) =~= g.push((material, seq![order])));
        }
    }

    fn push_first(&mut self, order: Order<M>)
        requires
            old(self)@.1.len() > 0,
        ensures
            final(self)@ == (old(self)@.0, old(self)@.1.update(0, (old(self)@.1[0].0, old(self)@.1[0].1.push(order)))),
    {
        let ghost g = self@.1;
        self.orders_by_material[0].orders.push(order);
        assert(material_groups(self.orders_by_material@) =~= g.update(0, (g[0].0, g[0].1.push(order))));
    }
}

/// Resources every frame can draw with, chosen when the engine starts.
#[derive(Clone, Copy, Debug, PartialEq, Eq, Structural)]
pub struct Builtins {
    pub phong_shader: u32,
    pub font_shader: u32,
    pub blit_shader: u32,
    pub wireframe_shader: u32,
    pub white_material: u32,
    pub white_texture: u32,
    pub roboto_font: u32,
    pub cube_mesh: u32,
    pub sphere_mesh: u32,
    pub surface_mesh: u32,
}

/// Collects one frame's draw calls, bucketed by shader and then by material
/// in first-seen order. `M` is the model transform type and `L` the light type.
pub struct Target<M, L> {
    orders_by_shader: Vec<OrdersByShader<M>>,
    lights: Vec<L>,
    current_shader: u32,
    current_material: u32,
    current_albedo: u32,
    current_framebuffer: Option<u32>,
    current_font: u32,
    has_shadows: bool,
    wireframes: bool,
    sampler_nearest: bool,
    sampler_clamp: bool,
    sampler_no_mipmaps: bool,
    builtins: Builtins,
    surface_model: M,
}

/// The state that the next `draw*` call reads.
#[derive(Clone, Copy, Debug, PartialEq, Eq, Structural)]
pub struct DrawState {
    pub shader: u32,
    pub material: u32,
    pub albedo: u32,
    pub framebuffer: Option<u32>,
    pub wireframes: bool,
    pub sampler_nearest: bool,
    pub sampler_clamp: bool,
    pub sampler_no_mipmaps: bool,
}

/// The state a target starts with, and returns to on `reset`.
pub open spec fn default_state(b: Builtins) -> DrawState {
    DrawState {
        shader: b.phong_shader,
        material: b.white_material,
        albedo: b.white_texture,
        framebuffer: None,
        wireframes: false,
        sampler_nearest: false,
        sampler_clamp: false,
        sampler_no_mipmaps: false,
    }
}

/// The order a draw of `mesh` with `model` makes under `st`.
pub open spec fn order_for<M>(st: DrawState, mesh: u32, model: M, has_shadows: bool) -> Order<M> {
    Order {
        mesh,
        albedo: st.albedo,
        framebuffer: st.framebuffer,
        model,
        has_shadows,
        sampler_index: sampler_index_spec(st.sampler_nearest, st.sampler_clamp, st.sampler_no_mipmaps),
    }
}

/// Buckets after `order` is collected under `st`, including its wireframe
/// copy when wireframes are on.
pub open spec fn collect_order<M>(b: Seq<ShaderGroup<M>>, st: DrawState, builtins: Builtins, order: Order<M>) -> Seq<ShaderGroup<M>> {
    let placed = insert_order(b, st.shader, st.material, order);
    if st.wireframes {
        insert_wireframe(placed, builtins.wireframe_shader, builtins.white_material, order)
    } else {
        placed
    }
}

proof fn lemma_insert_order_wf<M>(b: Seq<ShaderGroup<M>>, shader: u32, material: u32, order: Order<M>)
    requires
        buckets_wf(b),
    ensures
        buckets_wf(insert_order(b, shader, material, order)),
{
    let r = insert_order(b, shader, material, order);
    if exists|i: int| 0 <= i < b.len() && (#[trigger] b[i]).0 == shader {
        let i = choose|i: int| 0 <= i < b.len() && (#[trigger] b[i]).0 == shader;
        let g = b[i].1;
        let ng = insert_by_material(g, material, order);
        if exists|j: int| 0 <= j < g.len() && (#[trigger] g[j]).0 == material {
            assert(ng.len() == g.len());
        } else {
            assert(ng.len() == g.len() + 1);
            assert forall|x: int, y: int| 0 <= x < ng.len() && 0 <= y < ng.len() && x != y implies (#[trigger] ng[x]).0 != (#[trigger] ng[y]).0 by {
                if x < g.len() && y < g.len() {
                    assert(ng[x] == g[x] && ng[y] == g[y]);
                }
            }
        }
        assert(material_keys_distinct(ng));
        assert forall|x: int| 0 <= x < r.len() implies (#[trigger] r[x]).1.len() > 0 && material_keys_distinct(r[x].1) by {
            if x != i {
                assert(r[x] == b[x]);
            }
        }
    } else {
        assert(material_keys_distinct(seq![(material, seq![order])]));
        assert forall|x: int| 0 <= x < r.len() implies (#[trigger] r[x]).1.len() > 0 && material_keys_distinct(r[x].1) by {
            if x < b.len() {
                assert(r[x] == b[x]);
            }
        }
    }
}

proof fn lemma_insert_wireframe_wf<M>(b: Seq<ShaderGroup<M>>, shader: u32, material: u32, order: Order<M>)
    requires
        buckets_wf(b),
    ensures
        buckets_wf(insert_wireframe(b, shader, material, order)),
{
    let r = insert_wireframe(b, shader, material, order);
    if exists|i: int| 0 <= i < b.len() && (#[trigger] b[i]).0 == shader {
        let i = choose|i: int| 0 <= i < b.len() && (#[trigger] b[i]).0 == shader;
        let g = b[i].1;
        let ng = g.update(0, (g[0].0, g[0].1.push(order)));
        assert forall|x: int, y: int| 0 <= x < ng.len() && 0 <= y < ng.len() && x != y implies (#[trigger] ng[x]).0 != (#[trigger] ng[y]).0 by {
            assert(ng[x].0 == g[x].0 && ng[y].0 == g[y].0);
        }
        assert forall|x: int| 0 <= x < r.len() implies (#[trigger] r[x]).1.len() > 0 && material_keys_distinct(r[x].1) by {
            if x != i {
                assert(r[x] == b[x]);
            }
        }
    } else {
        assert(material_keys_distinct(seq![(material, seq![order])]));
        assert forall|x: int| 0 <= x < r.len() implies (#[trigger] r[x]).1.len() > 0 && material_keys_distinct(r[x].1) by {
            if x < b.len() {
                assert(r[x] == b[x]);
            }
        }
    }
}

/// The first `n` of `lights`, padded with `empty` to `n` entries.
pub open spec fn padded_lights<L>(lights: Seq<L>, empty: L, n: int) -> Seq<L> {
    Seq::new(n as nat, |i: int| if i < lights.len() { lights[i] } else { empty })
}

/// Most directional lights a frame passes to its shaders.
pub const LIGHT_COUNT: usize = 3;

impl<M: Copy, L: Copy> Target<M, L> {
    pub closed spec fn buckets(&self) -> Seq<ShaderGroup<M>> {
        shader_groups(self.orders_by_shader@)
    }

    pub closed spec fn state(&self) -> DrawState {
        DrawState {
            shader: self.current_shader,
            material: self.current_material,
            albedo: self.current_albedo,
            framebuffer: self.current_framebuffer,
            wireframes: self.wireframes,
            sampler_nearest: self.sampler_nearest,
            sampler_clamp: self.sampler_clamp,
            sampler_no_mipmaps: self.sampler_no_mipmaps,
        }
    }

    pub closed spec fn builtins_view(&self) -> Builtins {
        self.builtins
    }

    pub closed spec fn shadows_view(&self) -> bool {
        self.has_shadows
    }

    pub closed spec fn lights_view(&self) -> Seq<L> {
        self.lights@
    }

    pub closed spec fn font_view(&self) -> u32 {
        self.current_font
    }

    pub closed spec fn surface_model_view(&self) -> M {
        self.surface_model
    }

    pub open spec fn wf(&self) -> bool {
        buckets_wf(self.buckets())
    }

    /// An empty target in the default state. `surface_model` is the
    /// transform that full-screen surface draws use.
    pub fn new(builtins: Builtins, surface_model: M) -> (r: Self)
        ensures
            r.wf(),
            r.buckets() == Seq::<ShaderGroup<M>>::empty(),
            r.state() == default_state(builtins),
            r.builtins_view() == builtins,
            !r.shadows_view(),
            r.lights_view() == Seq::<L>::empty(),
            r.font_view() == builtins.roboto_font,
            r.surface_model_view() == surface_model,
    {
        let r = Target {
            orders_by_shader: Vec::new(),
            lights: Vec::new(),
            current_shader: builtins.phong_shader,
            current_material: builtins.white_material,
            current_albedo: builtins.white_texture,
            current_framebuffer: None,
            current_font: builtins.roboto_font,
            has_shadows: false,
            wireframes: false,
            sampler_nearest: false,
            sampler_clamp: false,
            sampler_no_mipmaps: false,
            builtins,
            surface_model,
        };
        assert(r.buckets() =~= Seq::<ShaderGroup<M>>::empty());
        r
    }

    fn place(&mut self, shader: u32, material: u32, order: Order<M>)
        requires
            buckets_wf(shader_groups(old(self).orders_by_shader@)),
        ensures
            shader_groups(final(self).orders_by_shader@) == insert_order(shader_groups(old(self).orders_by_shader@), shader, material, order),
            buckets_wf(shader_groups(final(self).orders_by_shader@)),
            final(self).lights == old(self).lights,
            final(self).current_shader == old(self).current_shader,
            final(self).current_material == old(self).current_material,
            final(self).current_albedo == old(self).current_albedo,
            final(self).current_framebuffer == old(self).current_framebuffer,
            final(self).current_font == old(self).current_font,
            final(self).has_shadows == old(self).has_shadows,
            final(self).wireframes == old(self).wireframes,
            final(self).sampler_nearest == old(self).sampler_nearest,
            final(self).sampler_clamp == old(self).sampler_clamp,
            final(self).sampler_no_mipmaps == old(self).sampler_no_mipmaps,
            final(self).builtins == old(self).builtins,
            final(self).surface_model == old(self).surface_model,
    {
        let ghost b = shader_groups(self.orders_by_shader@);
        proof {
            lemma_insert_order_wf(b, shader, material, order);
        }
        let len = self.orders_by_shader.len();
        let mut i: usize = 0;
        while i < len && self.orders_by_shader[i].shader != shader
            invariant
                len == self.orders_by_shader@.len(),
                b == shader_groups(self.orders_by_shader@),
                0 <= i <= len,
                forall|k: int| 0 <= k < i ==> (#[trigger] b[k]).0 != shader,
            decreases len - i,
        {
            i = i + 1;
        }
        if i < len {
            assert(b[i as int].0 == shader);
            let ghost ii = choose|k: int| 0 <= k < b.len() && (#[trigger] b[k]).0 == shader;
            assert(ii == i);
            assert(material_keys_distinct(b[i as int].1));
            self.orders_by_shader[i].push_order(material, order);
            assert(shader_groups(self.orders_by_shader@) =~= b.update(i as int, (shader, insert_by_material(b[i as int].1, material, order))));
        } else {
            self.orders_by_shader.push(OrdersByShader::new_with(shader, material, order));
            assert(shader_groups(self.orders_by_shader@) =~= b.push((shader, seq![(material, seq![order])])));
        }
    }

    fn place_wireframe(&mut self, order: Order<M>)
        requires
            buckets_wf(shader_groups(old(self).orders_by_shader@)),
        ensures
            shader_groups(final(self).orders_by_shader@) == insert_wireframe(shader_groups(old(self).orders_by_shader@), old(self).builtins.wireframe_shader, old(self).builtins.white_material, order),
            buckets_wf(shader_groups(final(self).orders_by_shader@)),
            final(self).lights == old(self).lights,
            final(self).current_shader == old(self).current_shader,
            final(self).current_material == old(self).current_material,
            final(self).current_albedo == old(self).current_albedo,
            final(self).current_framebuffer == old(self).current_framebuffer,
            final(self).current_font == old(self).current_font,
            final(self).has_shadows == old(self).has_shadows,
            final(self).wireframes == old(self).wireframes,
            final(self).sampler_nearest == old(self).sampler_nearest,
            final(self).sampler_clamp == old(self).sampler_clamp,
            final(self).sampler_no_mipmaps == old(self).sampler_no_mipmaps,
            final(self).builtins == old(self).builtins,
            final(self).surface_model == old(self).surface_model,
    {
        let ghost b = shader_groups(self.orders_by_shader@);
        let shader = self.builtins.wireframe_shader;
        let material = self.builtins.white_material;
        proof {
            lemma_insert_wireframe_wf(b, shader, material, order);
        }
        let len = self.orders_by_shader.len();
        let mut i: usize = 0;
        while i < len && self.orders_by_shader[i].shader != shader
            invariant
                len == self.orders_by_shader@.len(),
                b == shader_groups(self.orders_by_shader@),
                0 <= i <= len,
                forall|k: int| 0 <= k < i ==> (#[trigger] b[k]).0 != shader,
            decreases len - i,
        {
            i = i + 1;
        }
        if i < len {
            assert(b[i as int].0 == shader);
            let ghost ii = choose|k: int| 0 <= k < b.len() && (#[trigger] b[k]).0 == shader;
            assert(ii == i);
            self.orders_by_shader[i].push_first(order);
            assert(shader_groups(self.orders_by_shader@) =~= b.update(i as int, (shader, b[i as int].1.update(0, (b[i as int].1[0].0, b[i as int].1[0].1.push(order))))));
        } else {
            self.orders_by_shader.push(OrdersByShader::new_with(shader, material, order));
            assert(shader_groups(self.orders_by_shader@) =~= b.push((shader, seq![(material, seq![order])])));
        }
    }

    /// Files `order` under the current shader and material; with wireframes
    /// on, a copy also goes to the wireframe shader's bucket. A shadow-casting
    /// order turns on the frame's shadow pass.
    fn add_order(&mut self, order: Order<M>)
        requires
            old(self).wf(),
        ensures
            final(self).wf(),
            final(self).buckets() == collect_order(old(self).buckets(), old(self).state(), old(self).builtins_view(), order),
            final(self).shadows_view() == (old(self).shadows_view() || order.has_shadows),
            final(self).state() == old(self).state(),
            final(self).builtins_view() == old(self).builtins_view(),
            final(self).lights_view() == old(self).lights_view(),
            final(self).font_view() == old(self).font_view(),
            final(self).surface_model_view() == old(self).surface_model_view(),
    {
        let material = self.current_material;
        let shader = self.current_shader;
        if order.has_shadows {
            self.has_shadows = true;
        }
        self.place(shader, material, order);
        if self.wireframes {
            self.place_wireframe(order);
        }
    }

    fn sampler_combination(&self) -> (r: i32)
        ensures
            r == sampler_index_spec(self.sampler_nearest, self.sampler_clamp, self.sampler_no_mipmaps),
    {
        sampler_index(self.sampler_nearest, self.sampler_clamp, self.sampler_no_mipmaps)
    }
    /// Draws `mesh` with `model` under the current state; it casts shadows.
    pub fn draw(&mut self, mesh: u32, model: M)
        requires
            old(self).wf(),
        ensures
            final(self).wf(),
            final(self).buckets() == collect_order(old(self).buckets(), old(self).state(), old(self).builtins_view(), order_for(old(self).state(), mesh, model, true)),
            final(self).shadows_view(),
            final(self).state() == old(self).state(),
            final(self).builtins_view() == old(self).builtins_view(),
            final(self).lights_view() == old(self).lights_view(),
            final(self).font_view() == old(self).font_view(),
            final(self).surface_model_view() == old(self).surface_model_view(),
    {
        let order = Order {
            mesh,
            albedo: self.current_albedo,
            framebuffer: self.current_framebuffer,
            model,
            has_shadows: true,
            sampler_index: self.sampler_combination(),
        };
        self.add_order(order);
    }

    /// Draws the built-in cube with `model`; it casts shadows.
    pub fn draw_cube(&mut self, model: M)
        requires
            old(self).wf(),
        ensures
            final(self).wf(),
            final(self).buckets() == collect_order(old(self).buckets(), old(self).state(), old(self).builtins_view(), order_for(old(self).state(), old(self).builtins_view().cube_mesh, model, true)),
            final(self).shadows_view(),
            final(self).state() == old(self).state(),
            final(self).builtins_view() == old(self).builtins_view(),
            final(self).lights_view() == old(self).lights_view(),
            final(self).font_view() == old(self).font_view(),
            final(self).surface_model_view() == old(self).surface_model_view(),
    {
        let mesh = self.builtins.cube_mesh;
        self.draw(mesh, model);
    }

    /// Draws the built-in sphere with `model`; it casts shadows.
    pub fn draw_sphere(&mut self, model: M)
        requires
            old(self).wf(),
        ensures
            final(self).wf(),
            final(self).buckets() == collect_order(old(self).buckets(), old(self).state(), old(self).builtins_view(), order_for(old(self).state(), old(self).builtins_view().sphere_mesh, model, true)),
            final(self).shadows_view(),
            final(self).state() == old(self).state(),
            final(self).builtins_view() == old(self).builtins_view(),
            final(self).lights_view() == old(self).lights_view(),
            final(self).font_view() == old(self).font_view(),
            final(self).surface_model_view() == old(self).surface_model_view(),
    {
        let mesh = self.builtins.sphere_mesh;
        self.draw(mesh, model);
    }

    /// Draws the built-in full-screen surface; it casts no shadows.
    pub fn draw_surface(&mut self)
        requires
            old(self).wf(),
        ensures
            final(self).wf(),
            final(self).buckets() == collect_order(old(self).buckets(), old(self).state(), old(self).builtins_view(), order_for(old(self).state(), old(self).builtins_view().surface_mesh, old(self).surface_model_view(), false)),
            final(self).shadows_view() == old(self).shadows_view(),
            final(self).state() == old(self).state(),
            final(self).builtins_view() == old(self).builtins_view(),
            final(self).lights_view() == old(self).lights_view(),
            final(self).font_view() == old(self).font_view(),
            final(self).surface_model_view() == old(self).surface_model_view(),
    {
        let order = Order {
            mesh: self.builtins.surface_mesh,
            albedo: self.current_albedo,
            framebuffer: self.current_framebuffer,
            model: self.surface_model,
            has_shadows: false,
            sampler_index: self.sampler_combination(),
        };
        self.add_order(order);
    }

    /// Draws `framebuffer`'s image as a full-screen surface with the blit
    /// shader, then restores the shader and clears the framebuffer override.
    pub fn blit_framebuffer(&mut self, framebuffer: u32)
        requires
            old(self).wf(),
        ensures
            final(self).wf(),
            final(self).buckets() == collect_order(
                old(self).buckets(),
                (DrawState { shader: old(self).builtins_view().blit_shader, framebuffer: Some(framebuffer), ..old(self).state() }),
                old(self).builtins_view(),
                order_for((DrawState { framebuffer: Some(framebuffer), ..old(self).state() }), old(self).builtins_view().surface_mesh, old(self).surface_model_view(), false),
            ),
            final(self).shadows_view() == old(self).shadows_view(),
            final(self).state() == (DrawState { framebuffer: None, ..old(self).state() }),
            final(self).builtins_view() == old(self).builtins_view(),
            final(self).lights_view() == old(self).lights_view(),
            final(self).font_view() == old(self).font_view(),
            final(self).surface_model_view() == old(self).surface_model_view(),
    {
        let temp_shader = self.current_shader;
        self.current_shader = self.builtins.blit_shader;
        self.current_framebuffer = Some(framebuffer);
        self.draw_surface();
        self.current_shader = temp_shader;
        self.current_framebuffer = None;
    }

    /// Draws laid-out text: one order per glyph, each a `(mesh, model)` pair,
    /// textured with the font atlas `atlas`, under the font shader. The
    /// glyphs cast no shadows; the current shader is restored afterwards.
    pub fn draw_text(&mut self, glyphs: &Vec<(u32, M)>, atlas: u32)
        requires
            old(self).wf(),
        ensures
            final(self).wf(),
            final(self).buckets() == text_buckets(
                old(self).buckets(),
                (DrawState { shader: old(self).builtins_view().font_shader, ..old(self).state() }),
                old(self).builtins_view(),
                glyphs@,
                atlas,
            ),
            final(self).shadows_view() == old(self).shadows_view(),
            final(self).state() == old(self).state(),
            final(self).builtins_view() == old(self).builtins_view(),
            final(self).lights_view() == old(self).lights_view(),
            final(self).font_view() == old(self).font_view(),
            final(self).surface_model_view() == old(self).surface_model_view(),
    {
        let temp_shader = self.current_shader;
        self.current_shader = self.builtins.font_shader;
        let ghost st = self.state();
        let ghost b0 = self.buckets();
        let mut i: usize = 0;
        while i < glyphs.len()
            invariant
                self.wf(),
                0 <= i <= glyphs@.len(),
                self.state() == st,
                self.builtins_view() == old(self).builtins_view(),
                st == (DrawState { shader: old(self).builtins_view().font_shader, ..old(self).state() }),
                self.buckets() == text_buckets(b0, st, self.builtins_view(), glyphs@.subrange(0, i as int), atlas),
                self.shadows_view() == old(self).shadows_view(),
                self.lights_view() == old(self).lights_view(),
                self.font_view() == old(self).font_view(),
                self.surface_model_view() == old(self).surface_model_view(),
                b0 == old(self).buckets(),
            decreases glyphs@.len() - i,
        {
            let (mesh, model) = glyphs[i];
            let order = Order {
                mesh,
                albedo: atlas,
                framebuffer: self.current_framebuffer,
                model,
                has_shadows: false,
                sampler_index: self.sampler_combination(),
            };
            self.add_order(order);
            proof {
                assert(glyphs@.subrange(0, i + 1).drop_last() =~= glyphs@.subrange(0, i as int));
            }
            i = i + 1;
        }
        proof {
            assert(glyphs@.subrange(0, glyphs@.len() as int) =~= glyphs@);
        }
        self.current_shader = temp_shader;
    }

    pub fn add_directional_light(&mut self, light: L)
        ensures
            final(self).lights_view() == old(self).lights_view().push(light),
            final(self).buckets() == old(self).buckets(),
            final(self).state() == old(self).state(),
            final(self).shadows_view() == old(self).shadows_view(),
            final(self).builtins_view() == old(self).builtins_view(),
            final(self).font_view() == old(self).font_view(),
            final(self).surface_model_view() == old(self).surface_model_view(),
    {
        self.lights.push(light);
    }

    /// The first `LIGHT_COUNT` lights added, padded with `empty`; lights past
    /// that count are dropped.
    pub fn lights(&self, empty: L) -> (r: [L; 3])
        ensures
            r@ == padded_lights(self.lights_view(), empty, LIGHT_COUNT as int),
    {
        let mut r = [empty, empty, empty];
        let mut i: usize = 0;
        while i < LIGHT_COUNT && i < self.lights.len()
            invariant
                0 <= i <= LIGHT_COUNT,
                i <= self.lights@.len(),
                r@.len() == LIGHT_COUNT,
                forall|k: int| 0 <= k < i ==> #[trigger] r@[k] == self.lights@[k],
                forall|k: int| i <= k < LIGHT_COUNT ==> #[trigger] r@[k] == empty,
            decreases LIGHT_COUNT - i,
        {
            r.set(i, self.lights[i]);
            i = i + 1;
        }
        assert(r@ =~= padded_lights(self.lights_view(), empty, LIGHT_COUNT as int));
        r
    }

    pub fn set_material(&mut self, material: u32)
        ensures
            final(self).state() == (DrawState { material, ..old(self).state() }),
            final(self).buckets() == old(self).buckets(),
            final(self).shadows_view() == old(self).shadows_view(),
            final(self).builtins_view() == old(self).builtins_view(),
            final(self).lights_view() == old(self).lights_view(),
            final(self).font_view() == old(self).font_view(),
            final(self).surface_model_view() == old(self).surface_model_view(),
    {
        self.current_material = material;
    }

    pub fn set_albedo_texture(&mut self, texture: u32)
        ensures
            final(self).state() == (DrawState { albedo: texture, ..old(self).state() }),
            final(self).buckets() == old(self).buckets(),
            final(self).shadows_view() == old(self).shadows_view(),
            final(self).builtins_view() == old(self).builtins_view(),
            final(self).lights_view() == old(self).lights_view(),
            final(self).font_view() == old(self).font_view(),
            final(self).surface_model_view() == old(self).surface_model_view(),
    {
        self.current_albedo = texture;
    }

    pub fn set_shader(&mut self, shader: u32)
        ensures
            final(self).state() == (DrawState { shader, ..old(self).state() }),
            final(self).buckets() == old(self).buckets(),
            final(self).shadows_view() == old(self).shadows_view(),
            final(self).builtins_view() == old(self).builtins_view(),
            final(self).lights_view() == old(self).lights_view(),
            final(self).font_view() == old(self).font_view(),
            final(self).surface_model_view() == old(self).surface_model_view(),
    {
        self.current_shader = shader;
    }

    pub fn set_framebuffer(&mut self, framebuffer: u32)
        ensures
            final(self).state() == (DrawState { framebuffer: Some(framebuffer), ..old(self).state() }),
            final(self).buckets() == old(self).buckets(),
            final(self).shadows_view() == old(self).shadows_view(),
            final(self).builtins_view() == old(self).builtins_view(),
            final(self).lights_view() == old(self).lights_view(),
            final(self).font_view() == old(self).font_view(),
            final(self).surface_model_view() == old(self).surface_model_view(),
    {
        self.current_framebuffer = Some(framebuffer);
    }

    pub fn enable_wireframes(&mut self)
        ensures
            final(self).state() == (DrawState { wireframes: true, ..old(self).state() }),
            final(self).buckets() == old(self).buckets(),
            final(self).shadows_view() == old(self).shadows_view(),
            final(self).builtins_view() == old(self).builtins_view(),
            final(self).lights_view() == old(self).lights_view(),
            final(self).font_view() == old(self).font_view(),
            final(self).surface_model_view() == old(self).surface_model_view(),
    {
        self.wireframes = true;
    }

    pub fn set_wireframes(&mut self, enable: bool)
        ensures
            final(self).state() == (DrawState { wireframes: enable, ..old(self).state() }),
            final(self).buckets() == old(self).buckets(),
            final(self).shadows_view() == old(self).shadows_view(),
            final(self).builtins_view() == old(self).builtins_view(),
            final(self).lights_view() == old(self).lights_view(),
            final(self).font_view() == old(self).font_view(),
            final(self).surface_model_view() == old(self).surface_model_view(),
    {
        self.wireframes = enable;
    }

    pub fn enable_sampler_nearest(&mut self)
        ensures
            final(self).state() == (DrawState { sampler_nearest: true, ..old(self).state() }),
            final(self).buckets() == old(self).buckets(),
            final(self).shadows_view() == old(self).shadows_view(),
            final(self).builtins_view() == old(self).builtins_view(),
            final(self).lights_view() == old(self).lights_view(),
            final(self).font_view() == old(self).font_view(),
            final(self).surface_model_view() == old(self).surface_model_view(),
    {
        self.sampler_nearest = true;
    }

    pub fn enable_sampler_clamp(&mut self)
        ensures
            final(self).state() == (DrawState { sampler_clamp: true, ..old(self).state() }),
            final(self).buckets() == old(self).buckets(),
            final(self).shadows_view() == old(self).shadows_view(),
            final(self).builtins_view() == old(self).builtins_view(),
            final(self).lights_view() == old(self).lights_view(),
            final(self).font_view() == old(self).font_view(),
            final(self).surface_model_view() == old(self).surface_model_view(),
    {
        self.sampler_clamp = true;
    }

    pub fn enable_sampler_no_mipmaps(&mut self)
        ensures
            final(self).state() == (DrawState { sampler_no_mipmaps: true, ..old(self).state() }),
            final(self).buckets() == old(self).buckets(),
            final(self).shadows_view() == old(self).shadows_view(),
            final(self).builtins_view() == old(self).builtins_view(),
            final(self).lights_view() == old(self).lights_view(),
            final(self).font_view() == old(self).font_view(),
            final(self).surface_model_view() == old(self).surface_model_view(),
    {
        self.sampler_no_mipmaps = true;
    }

    /// Returns the draw state to the defaults; collected orders stay.
    pub fn reset(&mut self)
        ensures
            final(self).state() == default_state(old(self).builtins_view()),
            final(self).buckets() == old(self).buckets(),
            final(self).shadows_view() == old(self).shadows_view(),
            final(self).builtins_view() == old(self).builtins_view(),
            final(self).lights_view() == old(self).lights_view(),
            final(self).font_view() == old(self).font_view(),
            final(self).surface_model_view() == old(self).surface_model_view(),
    {
        self.current_material = self.builtins.white_material;
        self.current_albedo = self.builtins.white_texture;
        self.current_shader = self.builtins.phong_shader;
        self.current_framebuffer = None;
        self.wireframes = false;
        self.sampler_nearest = false;
        self.sampler_clamp = false;
        self.sampler_no_mipmaps = false;
    }

    pub fn orders_by_shader(&self) -> (r: &Vec<OrdersByShader<M>>)
        ensures
            shader_groups(r@) == self.buckets(),
    {
        &self.orders_by_shader
    }

    /// Whether any collected order casts shadows.
    pub fn has_shadows(&self) -> (r: bool)
        ensures
            r == self.shadows_view(),
    {
        self.has_shadows
    }

    pub fn current_font(&self) -> (r: u32)
        ensures
            r == self.font_view(),
    {
        self.current_font
    }
}

/// Buckets after the glyphs are drawn one by one under `st` with `atlas`.
pub open spec fn text_buckets<M>(b: Seq<ShaderGroup<M>>, st: DrawState, builtins: Builtins, glyphs: Seq<(u32, M)>, atlas: u32) -> Seq<ShaderGroup<M>>
    decreases glyphs.len(),
{
    if glyphs.len() == 0 {
        b
    } else {
        let g = glyphs.last();
        collect_order(
            text_buckets(b, st, builtins, glyphs.drop_last(), atlas),
            st,
            builtins,
            order_for((DrawState { albedo: atlas, ..st }), g.0, g.1, false),
        )
    }
}
/// A draw as the bucketing sees it: the shader and material current at the
/// call, and the order it made.
pub type Draw<M> = (u32, u32, Order<M>);

/// Buckets after `draws` are filed one after another, wireframes off.
pub open spec fn collect_all<M>(draws: Seq<Draw<M>>) -> Seq<ShaderGroup<M>>
    decreases draws.len(),
{
    if draws.len() == 0 {
        Seq::empty()
    } else {
        let d = draws.last();
        insert_order(collect_all(draws.drop_last()), d.0, d.1, d.2)
    }
}

/// The shaders of `draws`, each once, in order of first use.
pub open spec fn shaders_seen<M>(draws: Seq<Draw<M>>) -> Seq<u32>
    decreases draws.len(),
{
    if draws.len() == 0 {
        Seq::empty()
    } else {
        let p = shaders_seen(draws.drop_last());
        if p.contains(draws.last().0) {
            p
        } else {
            p.push(draws.last().0)
        }
    }
}

/// The materials drawn with `shader`, each once, in order of first use.
pub open spec fn materials_seen<M>(draws: Seq<Draw<M>>, shader: u32) -> Seq<u32>
    decreases draws.len(),
{
    if draws.len() == 0 {
        Seq::empty()
    } else {
        let p = materials_seen(draws.drop_last(), shader);
        if draws.last().0 == shader && !p.contains(draws.last().1) {
            p.push(draws.last().1)
        } else {
            p
        }
    }
}

/// The orders drawn with `shader` and `material`, in call order.
pub open spec fn orders_drawn<M>(draws: Seq<Draw<M>>, shader: u32, material: u32) -> Seq<Order<M>>
    decreases draws.len(),
{
    if draws.len() == 0 {
        Seq::empty()
    } else {
        let p = orders_drawn(draws.drop_last(), shader, material);
        if draws.last().0 == shader && draws.last().1 == material {
            p.push(draws.last().2)
        } else {
            p
        }
    }
}

pub open spec fn distinct(s: Seq<u32>) -> bool {
    forall|i: int, j: int| 0 <= i < s.len() && 0 <= j < s.len() && i != j ==> s[i] != s[j]
}

proof fn lemma_seen_facts<M>(draws: Seq<Draw<M>>, shader: u32, material: u32)
    ensures
        distinct(shaders_seen(draws)),
        distinct(materials_seen(draws, shader)),
        !shaders_seen(draws).contains(shader) ==> materials_seen(draws, shader).len() == 0,
        !materials_seen(draws, shader).contains(material) ==> orders_drawn(draws, shader, material).len() == 0,
    decreases draws.len(),
{
    if draws.len() > 0 {
        let p = draws.drop_last();
        lemma_seen_facts(p, shader, material);
        let d = draws.last();
        let sp = shaders_seen(p);
        if !sp.contains(d.0) {
            let ss = sp.push(d.0);
            assert forall|i: int, j: int| 0 <= i < ss.len() && 0 <= j < ss.len() && i != j implies ss[i] != ss[j] by {
                if i == sp.len() as int {
                    assert(sp[j] == ss[j]);
                } else if j == sp.len() as int {
                    assert(sp[i] == ss[i]);
                }
            }
        }
        if shaders_seen(p).contains(shader) {
            assert(shaders_seen(draws).contains(shader)) by {
                let k = choose|k: int| 0 <= k < sp.len() && sp[k] == shader;
                if !sp.contains(d.0) {
                    assert(sp.push(d.0)[k] == shader);
                }
            }
        }
        if d.0 == shader {
            assert(shaders_seen(draws).contains(shader)) by {
                if !sp.contains(d.0) {
                    assert(sp.push(d.0)[sp.len() as int] == shader);
                }
            }
        }
        let mp = materials_seen(p, shader);
        if d.0 == shader && !mp.contains(d.1) {
            let ms = mp.push(d.1);
            assert forall|i: int, j: int| 0 <= i < ms.len() && 0 <= j < ms.len() && i != j implies ms[i] != ms[j] by {
                if i == mp.len() as int {
                    assert(mp[j] == ms[j]);
                } else if j == mp.len() as int {
                    assert(mp[i] == ms[i]);
                }
            }
        }
        if mp.contains(material) {
            assert(materials_seen(draws, shader).contains(material)) by {
                let k = choose|k: int| 0 <= k < mp.len() && mp[k] == material;
                if d.0 == shader && !mp.contains(d.1) {
                    assert(mp.push(d.1)[k] == material);
                }
            }
        }
        if d.0 == shader && d.1 == material {
            assert(materials_seen(draws, shader).contains(material)) by {
                if !mp.contains(d.1) {
                    assert(mp.push(d.1)[mp.len() as int] == material);
                }
            }
        }
    }
}

/// Bucketing law: after any sequence of draws (wireframes off), the shader
/// buckets are the shaders in order of first use; the material buckets of a
/// shader are the materials drawn with it, in order of first use; and each
/// material bucket holds exactly the orders drawn with its shader and
/// material, in call order.
pub proof fn lemma_grouping<M>(draws: Seq<Draw<M>>)
    ensures
        collect_all(draws).len() == shaders_seen(draws).len(),
        forall|i: int| #![trigger collect_all(draws)[i]] 0 <= i < collect_all(draws).len() ==> {
            let b = collect_all(draws)[i];
            &&& b.0 == shaders_seen(draws)[i]
            &&& b.1.len() == materials_seen(draws, b.0).len()
            &&& forall|j: int| #![trigger b.1[j]] 0 <= j < b.1.len() ==> {
                &&& b.1[j].0 == materials_seen(draws, b.0)[j]
                &&& b.1[j].1 == orders_drawn(draws, b.0, b.1[j].0)
            }
        },
    decreases draws.len(),
{
    if draws.len() > 0 {
        let p = draws.drop_last();
        let d = draws.last();
        let (s, m, o) = d;
        lemma_grouping(p);
        lemma_seen_facts(p, s, m);
        let bp = collect_all(p);
        let b = collect_all(draws);
        let sp = shaders_seen(p);
        assert(b == insert_order(bp, s, m, o));
        if exists|i: int| 0 <= i < bp.len() && (#[trigger] bp[i]).0 == s {
            let i0 = choose|i: int| 0 <= i < bp.len() && (#[trigger] bp[i]).0 == s;
            assert(sp[i0] == s);
            assert(sp.contains(s));
            assert(shaders_seen(draws) == sp);
            let g = bp[i0].1;
            let mp = materials_seen(p, s);
            let ng = insert_by_material(g, m, o);
            assert(b == bp.update(i0, (s, ng)));
            if exists|j: int| 0 <= j < g.len() && (#[trigger] g[j]).0 == m {
                let j0 = choose|j: int| 0 <= j < g.len() && (#[trigger] g[j]).0 == m;
                assert(mp[j0] == m);
                assert(mp.contains(m));
                assert(materials_seen(draws, s) == mp);
                assert forall|j: int| 0 <= j < ng.len() implies #[trigger] ng[j].0 == materials_seen(draws, s)[j]
                    && ng[j].1 == orders_drawn(draws, s, ng[j].0) by {
                    if j != j0 {
                        assert(ng[j] == g[j]);
                        assert(g[j].0 != m) by {
                            assert(mp[j] != mp[j0]);
                        }
                    }
                }
            } else {
                assert(!mp.contains(m)) by {
                    if mp.contains(m) {
                        let k = choose|k: int| 0 <= k < mp.len() && mp[k] == m;
                        assert(g[k].0 == m);
                    }
                }
                assert(materials_seen(draws, s) == mp.push(m));
                assert(orders_drawn(p, s, m).len() == 0);
                assert(orders_drawn(draws, s, m) =~= seq![o]);
                assert forall|j: int| 0 <= j < ng.len() implies #[trigger] ng[j].0 == materials_seen(draws, s)[j]
                    && ng[j].1 == orders_drawn(draws, s, ng[j].0) by {
                    if j < g.len() {
                        assert(ng[j] == g[j]);
                        assert(g[j].0 != m);
                    }
                }
            }
            assert forall|i: int| #![trigger b[i]] 0 <= i < b.len() implies {
                let bi = b[i];
                &&& bi.0 == shaders_seen(draws)[i]
                &&& bi.1.len() == materials_seen(draws, bi.0).len()
                &&& forall|j: int| #![trigger bi.1[j]] 0 <= j < bi.1.len() ==> {
                    &&& bi.1[j].0 == materials_seen(draws, bi.0)[j]
                    &&& bi.1[j].1 == orders_drawn(draws, bi.0, bi.1[j].0)
                }
            } by {
                if i != i0 {
                    assert(b[i] == bp[i]);
                    assert(bp[i].0 != s) by {
                        assert(sp[i] != sp[i0]);
                    }
                    let t = bp[i].0;
                    assert(materials_seen(draws, t) == materials_seen(p, t));
                    assert forall|j: int| #![trigger bp[i].1[j]] 0 <= j < bp[i].1.len() implies
                        orders_drawn(draws, t, bp[i].1[j].0) == orders_drawn(p, t, bp[i].1[j].0) by {
                    }
                }
            }
        } else {
            assert(!sp.contains(s)) by {
                if sp.contains(s) {
                    let k = choose|k: int| 0 <= k < sp.len() && sp[k] == s;
                    assert(bp[k].0 == s);
                }
            }
            assert(shaders_seen(draws) == sp.push(s));
            assert(materials_seen(p, s).len() == 0);
            assert(!materials_seen(p, s).contains(m));
            assert(orders_drawn(p, s, m).len() == 0);
            assert(materials_seen(draws, s) =~= seq![m]);
            assert(orders_drawn(draws, s, m) =~= seq![o]);
            assert(b == bp.push((s, seq![(m, seq![o])])));
            assert forall|i: int| #![trigger b[i]] 0 <= i < b.len() implies {
                let bi = b[i];
                &&& bi.0 == shaders_seen(draws)[i]
                &&& bi.1.len() == materials_seen(draws, bi.0).len()
                &&& forall|j: int| #![trigger bi.1[j]] 0 <= j < bi.1.len() ==> {
                    &&& bi.1[j].0 == materials_seen(draws, bi.0)[j]
                    &&& bi.1[j].1 == orders_drawn(draws, bi.0, bi.1[j].0)
                }
            } by {
                if i < bp.len() {
                    assert(b[i] == bp[i]);
                    let t = bp[i].0;
                    assert(t != s);
                    assert(materials_seen(draws, t) == materials_seen(p, t));
                    assert forall|j: int| #![trigger bp[i].1[j]] 0 <= j < bp[i].1.len() implies
                        orders_drawn(draws, t, bp[i].1[j].0) == orders_drawn(p, t, bp[i].1[j].0) by {
                    }
                }
            }
        }
    }
}

/// With wireframes off, a target's buckets after one more draw are the
/// bucketing of its draw list extended by that draw; so `lemma_grouping`
/// describes every target filled by `draw*` calls.
pub proof fn lemma_collect_extends<M>(draws: Seq<Draw<M>>, st: DrawState, builtins: Builtins, order: Order<M>)
    requires
        !st.wireframes,
    ensures
        collect_order(collect_all(draws), st, builtins, order) == collect_all(draws.push((st.shader, st.material, order))),
{
    assert(draws.push((st.shader, st.material, order)).drop_last() =~= draws);
}

} // verus!
