use vstd::prelude::*;

use crate::resource::ResourceManager;
use crate::resource::entry_of;
use crate::target::MaterialGroup;
use crate::target::Order;
use crate::target::ShaderGroup;
use crate::target::Target;
use crate::uniform::Descriptor;
use crate::uniform::ShadowMapUniform;

verus! {

/// Number of shadow cascades the view frustum is split into.
pub const CASCADE_COUNT: usize = 3;
/// Side length of each cascade's square shadow map, in texels.
pub const SHADOW_MAP_SIZE: u32 = 2048;

/// Everything one indexed draw needs, with every handle resolved.
#[derive(Clone, Copy)]
pub struct DrawCall<M> {
    /// Descriptor of a framebuffer whose image the draw samples, if any.
    pub framebuffer: Option<Descriptor>,
    pub model: M,
    pub sampler_index: i32,
    pub albedo_index: i32,
    pub vertex_buffer: u64,
    pub index_buffer: u64,
    pub index_count: u32,
}

/// One step of a render pass, in recording order.
#[derive(Clone, Copy)]
pub enum Command<M> {
    /// Bind the pipeline with this handle.
    BindShader(u64),
    /// Bind this descriptor set (a material's parameters).
    BindDescriptor(Descriptor),
    /// Push the draw's constants, bind its buffers and draw.
    Draw(DrawCall<M>),
}

/// The draw an order turns into, or `None` when its mesh, albedo texture or
/// framebuffer no longer resolves; such an order is skipped.
pub open spec fn resolved<M>(rm: ResourceManager, o: Order<M>) -> Option<DrawCall<M>> {
    if rm.meshes_view().contains_key(o.mesh) && entry_of(rm.textures_view(), o.albedo) is Some && (o.framebuffer is None
        || rm.framebuffers_view().contains_key(o.framebuffer->Some_0)) {
        let mesh = rm.meshes_view()[o.mesh];
        Some(
            DrawCall {
                framebuffer: match o.framebuffer {
                    Some(f) => Some(rm.framebuffers_view()[f].descriptor),
                    None => None,
                },
                model: o.model,
                sampler_index: o.sampler_index,
                albedo_index: entry_of(rm.textures_view(), o.albedo)->Some_0.value.image_index,
                vertex_buffer: mesh.vertex_buffer,
                index_buffer: mesh.index_buffer,
                index_count: mesh.index_count,
            },
        )
    } else {
        None
    }
}

/// Draws of `orders` in order; with `shadows_only`, only shadow casters.
pub open spec fn order_commands<M>(rm: ResourceManager, orders: Seq<Order<M>>, shadows_only: bool) -> Seq<Command<M>>
    decreases orders.len(),
{
    if orders.len() == 0 {
        Seq::empty()
    } else {
        let p = order_commands(rm, orders.drop_last(), shadows_only);
        let o = orders.last();
        if (!shadows_only || o.has_shadows) && resolved(rm, o) is Some {
            p.push(Command::Draw(resolved(rm, o)->Some_0))
        } else {
            p
        }
    }
}

/// For each material bucket whose material resolves: bind it, then its draws.
pub open spec fn material_commands<M>(rm: ResourceManager, groups: Seq<MaterialGroup<M>>, shadows_only: bool) -> Seq<Command<M>>
    decreases groups.len(),
{
    if groups.len() == 0 {
        Seq::empty()
    } else {
        let p = material_commands(rm, groups.drop_last(), shadows_only);
        let g = groups.last();
        if rm.materials_view().contains_key(g.0) {
            p.push(Command::BindDescriptor(rm.materials_view()[g.0].descriptor)) + order_commands(rm, g.1, shadows_only)
        } else {
            p
        }
    }
}

/// The color pass: for each shader bucket whose shader resolves, bind it,
/// then its material buckets.
pub open spec fn color_commands<M>(rm: ResourceManager, buckets: Seq<ShaderGroup<M>>) -> Seq<Command<M>>
    decreases buckets.len(),
{
    if buckets.len() == 0 {
        Seq::empty()
    } else {
        let p = color_commands(rm, buckets.drop_last());
        let b = buckets.last();
        if entry_of(rm.shaders_view(), b.0) is Some {
            p.push(Command::BindShader(entry_of(rm.shaders_view(), b.0)->Some_0.value.pipeline)) + material_commands(rm, b.1, false)
        } else {
            p
        }
    }
}

/// The material buckets of every shader bucket, shadow casters only.
pub open spec fn caster_commands<M>(rm: ResourceManager, buckets: Seq<ShaderGroup<M>>) -> Seq<Command<M>>
    decreases buckets.len(),
{
    if buckets.len() == 0 {
        Seq::empty()
    } else {
        caster_commands(rm, buckets.drop_last()) + material_commands(rm, buckets.last().1, true)
    }
}

/// One cascade of the shadow pass: the depth-only shader, then every bucket's
/// shadow casters.
pub open spec fn shadow_commands<M>(rm: ResourceManager, buckets: Seq<ShaderGroup<M>>, shadow_pipeline: u64) -> Seq<Command<M>> {
    seq![Command::BindShader(shadow_pipeline)] + caster_commands(rm, buckets)
}

/// Resolves `order` against the resources.
pub fn resolve_order<M: Copy>(rm: &ResourceManager, order: &Order<M>) -> (r: Option<DrawCall<M>>)
    requires
        rm.wf(),
    ensures
        r == resolved(*rm, *order),
{
    let mesh = match rm.mesh(order.mesh) {
        Ok(m) => m,
        Err(_) => {
            return None;
        },
    };
    let albedo = match rm.texture(order.albedo) {
        Ok(t) => t,
        Err(_) => {
            return None;
        },
    };
    let framebuffer = match order.framebuffer {
        Some(f) => match rm.framebuffer(f) {
            Ok(fb) => Some(fb.descriptor),
            Err(_) => {
                return None;
            },
        },
        None => None,
    };
    Some(
        DrawCall {
            framebuffer,
            model: order.model,
            sampler_index: order.sampler_index,
            albedo_index: albedo.image_index,
            vertex_buffer: mesh.vertex_buffer,
            index_buffer: mesh.index_buffer,
            index_count: mesh.index_count,
        },
    )
}

fn push_order_commands<M: Copy>(rm: &ResourceManager, orders: &Vec<Order<M>>, shadows_only: bool, out: &mut Vec<Command<M>>)
    requires
        rm.wf(),
    ensures
        final(out)@ == old(out)@ + order_commands(*rm, orders@, shadows_only),
{
    let mut i: usize = 0;
    while i < orders.len()
        invariant
            rm.wf(),
            0 <= i <= orders@.len(),
            out@ == old(out)@ + order_commands(*rm, orders@.subrange(0, i as int), shadows_only),
        decreases orders@.len() - i,
    {
        let o = &orders[i];
        proof {
            assert(orders@.subrange(0, i + 1).drop_last() =~= orders@.subrange(0, i as int));
            assert(orders@.subrange(0, i + 1).last() == orders@[i as int]);
        }
        if !shadows_only || o.has_shadows {
            match resolve_order(rm, o) {
                Some(call) => {
                    out.push(Command::Draw(call));
                    proof {
                        assert(out@ =~= old(out)@ + order_commands(*rm, orders@.subrange(0, i + 1), shadows_only));
                    }
                },
                None => {},
            }
        }
        i = i + 1;
    }
    proof {
        assert(orders@.subrange(0, orders@.len() as int) =~= orders@);
    }
}

fn push_material_commands<M: Copy>(rm: &ResourceManager, groups: &Vec<crate::target::OrdersByMaterial<M>>, shadows_only: bool, out: &mut Vec<Command<M>>)
    requires
        rm.wf(),
    ensures
        final(out)@ == old(out)@ + material_commands(*rm, crate::target::material_groups(groups@), shadows_only),
{
    let ghost gs = crate::target::material_groups(groups@);
    let mut i: usize = 0;
    while i < groups.len()
        invariant
            rm.wf(),
            0 <= i <= groups@.len(),
            gs == crate::target::material_groups(groups@),
            out@ == old(out)@ + material_commands(*rm, gs.subrange(0, i as int), shadows_only),
        decreases groups@.len() - i,
    {
        let g = &groups[i];
        proof {
            assert(gs.subrange(0, i + 1).drop_last() =~= gs.subrange(0, i as int));
            assert(gs.subrange(0, i + 1).last() == gs[i as int]);
            assert(gs[i as int] == g@);
        }
        match rm.material(g.material()) {
            Ok(material) => {
                out.push(Command::BindDescriptor(material.descriptor));
                push_order_commands(rm, g.orders(), shadows_only, out);
                proof {
                    assert(out@ =~= old(out)@ + material_commands(*rm, gs.subrange(0, i + 1), shadows_only));
                }
            },
            Err(_) => {},
        }
        i = i + 1;
    }
    proof {
        assert(gs.subrange(0, gs.len() as int) =~= gs);
    }
}

/// Commands of the color pass over `target`'s buckets.
pub fn color_pass<M: Copy, L: Copy>(rm: &ResourceManager, target: &Target<M, L>) -> (r: Vec<Command<M>>)
    requires
        rm.wf(),
    ensures
        r@ == color_commands(*rm, target.buckets()),
{
    let buckets = target.orders_by_shader();
    let ghost bs = target.buckets();
    let mut out: Vec<Command<M>> = Vec::new();
    let mut i: usize = 0;
    while i < buckets.len()
        invariant
            rm.wf(),
            0 <= i <= buckets@.len(),
            bs == crate::target::shader_groups(buckets@),
            out@ == color_commands(*rm, bs.subrange(0, i as int)),
        decreases buckets@.len() - i,
    {
        let b = &buckets[i];
        proof {
            assert(bs.subrange(0, i + 1).drop_last() =~= bs.subrange(0, i as int));
            assert(bs.subrange(0, i + 1).last() == bs[i as int]);
            assert(bs[i as int] == b@);
        }
        match rm.shader(b.shader()) {
            Ok(shader) => {
                out.push(Command::BindShader(shader.pipeline));
                push_material_commands(rm, b.orders_by_material(), false, &mut out);
                proof {
                    assert(out@ =~= color_commands(*rm, bs.subrange(0, i + 1)));
                }
            },
            Err(_) => {},
        }
        i = i + 1;
    }
    proof {
        assert(bs.subrange(0, bs.len() as int) =~= bs);
    }
    out
}

/// Commands of one shadow cascade over `target`'s buckets, drawn with the
/// depth-only pipeline `shadow_pipeline`.
pub fn shadow_pass<M: Copy, L: Copy>(rm: &ResourceManager, target: &Target<M, L>, shadow_pipeline: u64) -> (r: Vec<Command<M>>)
    requires
        rm.wf(),
    ensures
        r@ == shadow_commands(*rm, target.buckets(), shadow_pipeline),
{
    let buckets = target.orders_by_shader();
    let ghost bs = target.buckets();
    let mut out: Vec<Command<M>> = Vec::new();
    out.push(Command::BindShader(shadow_pipeline));
    let mut i: usize = 0;
    while i < buckets.len()
        invariant
            rm.wf(),
            0 <= i <= buckets@.len(),
            bs == crate::target::shader_groups(buckets@),
            out@ == seq![Command::BindShader(shadow_pipeline)] + caster_commands(*rm, bs.subrange(0, i as int)),
        decreases buckets@.len() - i,
    {
        let b = &buckets[i];
        proof {
            assert(bs.subrange(0, i + 1).drop_last() =~= bs.subrange(0, i as int));
            assert(bs.subrange(0, i + 1).last() == bs[i as int]);
            assert(bs[i as int] == b@);
        }
        push_material_commands(rm, b.orders_by_material(), true, &mut out);
        proof {
            assert(out@ =~= seq![Command::BindShader(shadow_pipeline)] + caster_commands(*rm, bs.subrange(0, i + 1)));
        }
        i = i + 1;
    }
    proof {
        assert(bs.subrange(0, bs.len() as int) =~= bs);
    }
    out
}

/// A pass of one frame.
#[derive(Clone, Copy, Debug, PartialEq, Eq, Structural)]
pub enum Pass {
    /// Depth-only render of cascade `i` from the light.
    Shadow(usize),
    /// The main render from the camera.
    Color,
}

/// The passes of a frame, in order: one per cascade when anything casts
/// shadows, then the color pass.
pub open spec fn frame_passes(has_shadows: bool) -> Seq<Pass> {
    if has_shadows {
        Seq::new(CASCADE_COUNT as nat, |i: int| Pass::Shadow(i as usize)).push(Pass::Color)
    } else {
        seq![Pass::Color]
    }
}

pub fn passes(has_shadows: bool) -> (r: Vec<Pass>)
    ensures
        r@ == frame_passes(has_shadows),
{
    let mut r: Vec<Pass> = Vec::new();
    if has_shadows {
        let mut i: usize = 0;
        while i < CASCADE_COUNT
            invariant
                0 <= i <= CASCADE_COUNT,
                r@ == Seq::new(i as nat, |k: int| Pass::Shadow(k as usize)),
            decreases CASCADE_COUNT - i,
        {
            r.push(Pass::Shadow(i));
            proof {
                assert(r@ =~= Seq::new((i + 1) as nat, |k: int| Pass::Shadow(k as usize)));
            }
            i = i + 1;
        }
    }
    r.push(Pass::Color);
    proof {
        assert(r@ =~= frame_passes(has_shadows));
    }
    r
}

pub open spec fn shader_binds<M>(cmds: Seq<Command<M>>) -> nat
    decreases cmds.len(),
{
    if cmds.len() == 0 {
        0
    } else {
        shader_binds(cmds.drop_last()) + if cmds.last() is BindShader { 1nat } else { 0nat }
    }
}

pub open spec fn material_binds<M>(cmds: Seq<Command<M>>) -> nat
    decreases cmds.len(),
{
    if cmds.len() == 0 {
        0
    } else {
        material_binds(cmds.drop_last()) + if cmds.last() is BindDescriptor { 1nat } else { 0nat }
    }
}

pub open spec fn draw_count<M>(cmds: Seq<Command<M>>) -> nat
    decreases cmds.len(),
{
    if cmds.len() == 0 {
        0
    } else {
        draw_count(cmds.drop_last()) + if cmds.last() is Draw { 1nat } else { 0nat }
    }
}

/// Total indices drawn by the draw commands.
pub open spec fn index_total<M>(cmds: Seq<Command<M>>) -> nat
    decreases cmds.len(),
{
    if cmds.len() == 0 {
        0
    } else {
        index_total(cmds.drop_last()) + match cmds.last() {
            Command::Draw(c) => c.index_count as nat,
            _ => 0nat,
        }
    }
}

/// Counters of one rendered frame.
#[derive(Clone, Copy, Debug, PartialEq, Eq, Structural)]
pub struct RenderStats {
    /// Indices drawn, saturating at `u64::MAX`.
    pub drawn_indices: u64,
    pub drawn_triangles: u64,
    pub shaders_used: usize,
    pub materials_used: usize,
    pub draw_calls: usize,
}

proof fn lemma_counts_bounded<M>(cmds: Seq<Command<M>>)
    ensures
        shader_binds(cmds) <= cmds.len(),
        material_binds(cmds) <= cmds.len(),
        draw_count(cmds) <= cmds.len(),
    decreases cmds.len(),
{
    if cmds.len() > 0 {
        lemma_counts_bounded(cmds.drop_last());
    }
}

/// The counters of a pass recorded from `cmds`.
pub fn stats<M>(cmds: &Vec<Command<M>>) -> (r: RenderStats)
    ensures
        r.shaders_used == shader_binds(cmds@),
        r.materials_used == material_binds(cmds@),
        r.draw_calls == draw_count(cmds@),
        r.drawn_indices == if index_total(cmds@) > u64::MAX { u64::MAX as nat } else { index_total(cmds@) },
        r.drawn_triangles == r.drawn_indices / 3,
{
    let mut r = RenderStats { drawn_indices: 0, drawn_triangles: 0, shaders_used: 0, materials_used: 0, draw_calls: 0 };
    let mut i: usize = 0;
    while i < cmds.len()
        invariant
            0 <= i <= cmds@.len(),
            r.shaders_used == shader_binds(cmds@.subrange(0, i as int)),
            r.materials_used == material_binds(cmds@.subrange(0, i as int)),
            r.draw_calls == draw_count(cmds@.subrange(0, i as int)),
            r.drawn_indices == if index_total(cmds@.subrange(0, i as int)) > u64::MAX { u64::MAX as nat } else { index_total(cmds@.subrange(0, i as int)) },
        decreases cmds@.len() - i,
    {
        proof {
            assert(cmds@.subrange(0, i + 1).drop_last() =~= cmds@.subrange(0, i as int));
            lemma_counts_bounded(cmds@.subrange(0, i as int));
        }
        match &cmds[i] {
            Command::BindShader(_) => {
                r.shaders_used = r.shaders_used + 1;
            },
            Command::BindDescriptor(_) => {
                r.materials_used = r.materials_used + 1;
            },
            Command::Draw(c) => {
                r.draw_calls = r.draw_calls + 1;
                r.drawn_indices = r.drawn_indices.saturating_add(c.index_count as u64);
            },
        }
        i = i + 1;
    }
    proof {
        assert(cmds@.subrange(0, cmds@.len() as int) =~= cmds@);
    }
    r.drawn_triangles = r.drawn_indices / 3;
    r
}

/// What the shadow pass of a frame records.
pub struct ShadowPlan<M> {
    /// Shadow map set bound while the cascades are rendered: one that no
    /// frame in flight reads this frame.
    pub recording_set: Descriptor,
    /// Commands of each cascade; every cascade records the same list.
    pub commands: Vec<Command<M>>,
    /// Shadow map set bound for the color pass: this frame's own.
    pub color_set: Descriptor,
}

/// What a frame records: the shadow pass, when anything casts shadows, and
/// the color pass.
pub struct FramePlan<M> {
    pub passes: Vec<Pass>,
    pub shadow: Option<ShadowPlan<M>>,
    pub color: Vec<Command<M>>,
    pub stats: RenderStats,
}

/// Renders a frame's orders: shadow cascades first, then the color pass.
/// Light matrices and cascade bounds are computed by the caller for each
/// cascade; this type decides what is bound and drawn, and in which order.
pub struct ForwardRenderer {
    shadow_uniforms: Vec<ShadowMapUniform>,
    shadow_pipeline: u64,
    shadow_map_size: u32,
}

impl ForwardRenderer {
    pub closed spec fn shadow_sets(&self) -> Seq<Descriptor> {
        self.shadow_uniforms@.map_values(|u: ShadowMapUniform| u.descriptor_view())
    }

    pub closed spec fn shadow_pipeline_view(&self) -> u64 {
        self.shadow_pipeline
    }

    pub closed spec fn shadow_map_size_view(&self) -> u32 {
        self.shadow_map_size
    }

    /// A renderer with one shadow map set per frame in flight and the
    /// depth-only pipeline `shadow_pipeline`.
    pub fn new(shadow_sets: &Vec<u64>, shadow_pipeline: u64) -> (r: Self)
        requires
            shadow_sets@.len() > 0,
        ensures
            r.shadow_sets().len() == shadow_sets@.len(),
            forall|i: int| 0 <= i < shadow_sets@.len() ==> #[trigger] r.shadow_sets()[i] == Descriptor(crate::uniform::SHADOW_MAP_SET, shadow_sets@[i]),
            r.shadow_pipeline_view() == shadow_pipeline,
            r.shadow_map_size_view() == SHADOW_MAP_SIZE,
    {
        let mut shadow_uniforms: Vec<ShadowMapUniform> = Vec::new();
        let mut i: usize = 0;
        while i < shadow_sets.len()
            invariant
                0 <= i <= shadow_sets@.len(),
                shadow_uniforms@.len() == i,
                forall|k: int| 0 <= k < i ==> #[trigger] shadow_uniforms@[k].descriptor_view() == Descriptor(crate::uniform::SHADOW_MAP_SET, shadow_sets@[k]),
            decreases shadow_sets@.len() - i,
        {
            shadow_uniforms.push(ShadowMapUniform::new(shadow_sets[i]));
            i = i + 1;
        }
        ForwardRenderer { shadow_uniforms, shadow_pipeline, shadow_map_size: SHADOW_MAP_SIZE }
    }

    pub fn shadow_map_size(&self) -> (r: u32)
        ensures
            r == self.shadow_map_size_view(),
    {
        self.shadow_map_size
    }

    /// Number of frames in flight, one shadow map set each.
    pub fn frames_in_flight(&self) -> (r: usize)
        ensures
            r == self.shadow_sets().len(),
    {
        self.shadow_uniforms.len()
    }

    /// The plan of frame `frame` for `target`. The shadow pass is left out
    /// when nothing casts shadows; orders whose resources no longer resolve
    /// are skipped, the rest are drawn.
    pub fn draw<M: Copy, L: Copy>(&self, rm: &ResourceManager, target: &Target<M, L>, frame: usize) -> (r: FramePlan<M>)
        requires
            rm.wf(),
            frame < self.shadow_sets().len(),
        ensures
            r.passes@ == frame_passes(target.shadows_view()),
            r.color@ == color_commands(*rm, target.buckets()),
            target.shadows_view() <==> r.shadow is Some,
            r.shadow is Some ==> {
                let sp = r.shadow->Some_0;
                &&& sp.recording_set == self.shadow_sets()[(frame + 1) % self.shadow_sets().len() as int]
                &&& sp.color_set == self.shadow_sets()[frame as int]
                &&& sp.commands@ == shadow_commands(*rm, target.buckets(), self.shadow_pipeline_view())
            },
            r.stats.shaders_used == shader_binds(r.color@),
            r.stats.materials_used == material_binds(r.color@),
            r.stats.draw_calls == draw_count(r.color@),
            r.stats.drawn_indices == if index_total(r.color@) > u64::MAX { u64::MAX as nat } else { index_total(r.color@) },
            r.stats.drawn_triangles == r.stats.drawn_indices / 3,
    {
        let count = self.shadow_uniforms.len();
        let shadow = if target.has_shadows() {
            let other = (frame + 1) % count;
            Some(
                ShadowPlan {
                    recording_set: self.shadow_uniforms[other].descriptor(),
                    commands: shadow_pass(rm, target, self.shadow_pipeline),
                    color_set: self.shadow_uniforms[frame].descriptor(),
                },
            )
        } else {
            None
        };
        let color = color_pass(rm, target);
        let stats = stats(&color);
        FramePlan { passes: passes(target.has_shadows()), shadow, color, stats }
    }
}

} // verus!
