use crate::bind_group::BindGroupLayout;
use crate::deps::DependencySet;
use crate::error::RenderGraphError;
use crate::graph::{slot_handle, Graph};
use crate::resource::{
    BlendMode, ColorTargetState, ResourceMeta, FragmentState, RenderPipelineDescriptor, ResourceDescriptor,
    ResourceHandle, ResourceTable, TextureFormat, VertexState,
};
use vstd::prelude::*;
use vstd::string::StringExecFns;

verus! {

/// Asset path of the vertex shader that draws one triangle over the target.
pub const FULLSCREEN_SHADER: &'static str = "embedded://render_graph/std/fullscreen.wgsl";

/// Asset path of the fragment shader that copies a texture.
pub const BLIT_SHADER: &'static str = "embedded://render_graph/std/blit.wgsl";

/// Provides the shaders of the full-screen passes.
#[derive(Clone, Copy, Debug, Default, PartialEq, Eq, Structural)]
pub struct FullscreenPlugin;

impl FullscreenPlugin {
    /// The asset paths of the shaders to embed: the full-screen vertex
    /// shader and the blit fragment shader.
    pub fn build(&self) -> (r: Vec<String>)
        ensures
            r@.len() == 2,
            r@[0]@ == FULLSCREEN_SHADER@,
            r@[1]@ == BLIT_SHADER@,
    {
        let mut r: Vec<String> = Vec::new();
        r.push(String::from_str(FULLSCREEN_SHADER));
        r.push(String::from_str(BLIT_SHADER));
        r
    }
}

/// What a pass does with a target's previous contents.
#[derive(Clone, Copy, Debug, PartialEq, Eq)]
pub enum LoadOp<C> {
    /// Overwrite everything with a colour.
    Clear(C),
    /// Keep the previous contents and draw over them.
    Load,
}

/// What a pass does with its results.
#[derive(Clone, Copy, Debug, PartialEq, Eq)]
pub enum StoreOp {
    Store,
    Discard,
}

/// The load and store behaviour of one colour attachment.
#[derive(Clone, Copy, Debug, PartialEq, Eq)]
pub struct Operations<C> {
    pub load: LoadOp<C>,
    pub store: StoreOp,
}

/// The deferred work of the standard passes: handles and operations only,
/// resolved when the node runs.
#[derive(Clone, Debug)]
pub enum PassCommand<C> {
    /// Draw one full-screen triangle into `target` with `pipeline`.
    Fullscreen { target: ResourceHandle, pipeline: ResourceHandle, ops: Operations<C> },
    /// Draw `bind_group`'s texture into `target` with `pipeline`.
    Blit {
        target: ResourceHandle,
        pipeline: ResourceHandle,
        bind_group: ResourceHandle,
        ops: Operations<C>,
    },
}

/// A source and a destination of a copy.
#[derive(Clone, Copy, Debug, PartialEq, Eq, Structural)]
pub struct SrcDst {
    pub src: ResourceHandle,
    pub dst: ResourceHandle,
}

/// The operations of a write: the first write of a frame clears when a
/// colour is asked for; any other write loads, so that an earlier node's
/// contribution is kept.
pub open spec fn write_ops<C>(fresh: bool, clear_color: Option<C>) -> Operations<C> {
    Operations {
        load: if !fresh && clear_color is Some {
            LoadOp::Clear(clear_color->Some_0)
        } else {
            LoadOp::Load
        },
        store: StoreOp::Store,
    }
}

/// A write of a resource that an earlier node already wrote this frame
/// loads and stores, whatever colour it asks to clear to; the first write
/// clears when it asks for a colour.
pub proof fn lemma_write_policy<C>(clear_color: Option<C>)
    ensures
        write_ops(true, clear_color) == (Operations::<C> { load: LoadOp::Load, store: StoreOp::Store }),
        clear_color is Some ==> write_ops(false, clear_color).load == LoadOp::Clear(
            clear_color->Some_0,
        ),
{
}

/// The format a pass writes through `view`: the view's own, else its
/// texture's.
pub open spec fn view_format(t: ResourceTable, view: ResourceHandle) -> Result<
    TextureFormat,
    RenderGraphError,
> {
    match t.handle_status(view) {
        Err(e) => Err(e),
        Ok(_) => match t.meta_of(view).descriptor {
            ResourceDescriptor::TextureView { texture, format } => match format {
                Some(f) => Ok(f),
                None => if t.is_live(texture) && t.meta_of(texture).descriptor is Texture {
                    Ok(t.meta_of(texture).descriptor->Texture_format)
                } else {
                    Err(RenderGraphError::UnsupportedResource)
                },
            },
            _ => Err(RenderGraphError::UnsupportedResource),
        },
    }
}

/// A bind group handle must be live and name a bind group.
pub open spec fn bind_group_status(t: ResourceTable, h: ResourceHandle) -> Result<
    (),
    RenderGraphError,
> {
    match t.handle_status(h) {
        Err(e) => Err(e),
        Ok(_) => if t.meta_of(h).descriptor is BindGroup {
            Ok(())
        } else {
            Err(RenderGraphError::UnsupportedResource)
        },
    }
}

/// The status of the first bind group of `bgs` that fails, or `Ok`.
pub open spec fn bind_groups_status(t: ResourceTable, bgs: Seq<ResourceHandle>) -> Result<
    (),
    RenderGraphError,
>
    decreases bgs.len(),
{
    if bgs.len() == 0 {
        Ok(())
    } else {
        match bind_groups_status(t, bgs.drop_last()) {
            Err(e) => Err(e),
            Ok(_) => bind_group_status(t, bgs.last()),
        }
    }
}

/// The layouts of the bind groups `bgs`, in order.
pub open spec fn layouts_of(t: ResourceTable, bgs: Seq<ResourceHandle>) -> Seq<BindGroupLayout> {
    bgs.map_values(|h: ResourceHandle| t.meta_of(h).descriptor->BindGroup_layout)
}

/// The bind groups `bgs` and all their members.
pub open spec fn composite_reads(t: ResourceTable, bgs: Seq<ResourceHandle>) -> Set<ResourceHandle>
    decreases bgs.len(),
{
    if bgs.len() == 0 {
        Set::empty()
    } else {
        composite_reads(t, bgs.drop_last()).insert(bgs.last()).union(
            t.meta_of(bgs.last()).descriptor->BindGroup_members@.to_set(),
        )
    }
}

/// The load and store operations of a write of a target that is `fresh` or
/// not.
pub fn load_ops<C>(fresh: bool, clear_color: Option<C>) -> (r: Operations<C>)
    ensures
        r == write_ops(fresh, clear_color),
{
    let load = if fresh {
        LoadOp::Load
    } else {
        match clear_color {
            Some(c) => LoadOp::Clear(c),
            None => LoadOp::Load,
        }
    };
    Operations { load, store: StoreOp::Store }
}

/// The vertex stage shared by the full-screen passes. The draw is one
/// triangle: three vertices, one instance.
pub fn fullscreen_shader_vertex_state() -> (r: VertexState)
    ensures
        r.shader@ == FULLSCREEN_SHADER@,
        r.entry_point@ == "fullscreen_vertex_shader"@,
{
    VertexState {
        shader: String::from_str(FULLSCREEN_SHADER),
        entry_point: String::from_str("fullscreen_vertex_shader"),
    }
}

/// The format written through `view`.
pub fn target_format<W>(graph: &Graph<W>, view: ResourceHandle) -> (r: Result<
    TextureFormat,
    RenderGraphError,
>)
    ensures
        r == view_format(graph.spec_table(), view),
{
    match graph.meta(view) {
        Err(e) => Err(e),
        Ok(meta) => match &meta.descriptor {
            ResourceDescriptor::TextureView { texture, format } => match format {
                Some(f) => Ok(*f),
                None => match graph.table().resolve(*texture) {
                    Ok(ResourceDescriptor::Texture { format, .. }) => Ok(*format),
                    _ => Err(RenderGraphError::UnsupportedResource),
                },
            },
            _ => Err(RenderGraphError::UnsupportedResource),
        },
    }
}

/// The layouts of `bind_groups`, checking each in order.
pub fn bind_group_layouts<W>(graph: &Graph<W>, bind_groups: &[ResourceHandle]) -> (r: Result<
    Vec<BindGroupLayout>,
    RenderGraphError,
>)
    ensures
        r is Ok <==> bind_groups_status(graph.spec_table(), bind_groups@) is Ok,
        r is Ok ==> r->Ok_0@ == layouts_of(graph.spec_table(), bind_groups@),
        r is Err ==> r->Err_0 == bind_groups_status(graph.spec_table(), bind_groups@)->Err_0,
{
    let ghost t = graph.spec_table();
    let mut layouts: Vec<BindGroupLayout> = Vec::new();
    let mut i: usize = 0;
    while i < bind_groups.len()
        invariant
            t == graph.spec_table(),
            i <= bind_groups@.len(),
            bind_groups_status(t, bind_groups@.take(i as int)) is Ok,
            layouts@ == layouts_of(t, bind_groups@.take(i as int)),
        decreases bind_groups@.len() - i,
    {
        let h = bind_groups[i];
        assert(bind_groups@.take(i + 1).drop_last() == bind_groups@.take(i as int));
        match graph.meta(h) {
            Err(e) => {
                proof {
                    lemma_bind_groups_status_prefix(t, bind_groups@, i + 1);
                }
                return Err(e);
            },
            Ok(meta) => match &meta.descriptor {
                ResourceDescriptor::BindGroup { layout, .. } => {
                    layouts.push(*layout);
                    assert(layouts@ =~= layouts_of(t, bind_groups@.take(i + 1)));
                },
                _ => {
                    proof {
                        lemma_bind_groups_status_prefix(t, bind_groups@, i + 1);
                    }
                    return Err(RenderGraphError::UnsupportedResource);
                },
            },
        }
        i += 1;
    }
    assert(bind_groups@.take(i as int) == bind_groups@);
    Ok(layouts)
}

/// A failure among the first `k` bind groups is the failure of the whole
/// list.
proof fn lemma_bind_groups_status_prefix(t: ResourceTable, bgs: Seq<ResourceHandle>, k: int)
    requires
        0 <= k <= bgs.len(),
        bind_groups_status(t, bgs.take(k)) is Err,
    ensures
        bind_groups_status(t, bgs) == bind_groups_status(t, bgs.take(k)),
    decreases bgs.len() - k,
{
    if k < bgs.len() {
        assert(bgs.take(k + 1).drop_last() == bgs.take(k));
        lemma_bind_groups_status_prefix(t, bgs, k + 1);
    } else {
        assert(bgs.take(k) == bgs);
    }
}

/// The members of a composite that check out are live.
proof fn lemma_members_live(t: ResourceTable, ms: Seq<ResourceHandle>)
    requires
        t.members_status(ms) is Ok,
    ensures
        forall|k: int| 0 <= k < ms.len() ==> t.is_live(#[trigger] ms[k]),
    decreases ms.len(),
{
    if ms.len() > 0 {
        lemma_members_live(t, ms.drop_last());
        assert forall|k: int| 0 <= k < ms.len() implies t.is_live(#[trigger] ms[k]) by {
            if k < ms.len() - 1 {
                assert(ms[k] == ms.drop_last()[k]);
            }
        }
    }
}

/// Every bind group of a list that checks out, and every member of one, is
/// live.
proof fn lemma_composite_reads_live(t: ResourceTable, bgs: Seq<ResourceHandle>)
    requires
        t.wf(),
        bind_groups_status(t, bgs) is Ok,
    ensures
        forall|x: ResourceHandle| #[trigger] composite_reads(t, bgs).contains(x) ==> t.is_live(x),
    decreases bgs.len(),
{
    if bgs.len() > 0 {
        lemma_composite_reads_live(t, bgs.drop_last());
        let bg = bgs.last();
        let ms = t.meta_of(bg).descriptor->BindGroup_members@;
        assert(t.spec_entries()[bg.index as int].descriptor is BindGroup);
        lemma_members_live(t, ms);
        assert(bind_group_status(t, bg) is Ok);
        assert(t.is_live(bg));
        assert(t.members_status(t.spec_entries()[bg.index as int].descriptor->BindGroup_members@) is Ok);
        assert forall|x: ResourceHandle| #[trigger] composite_reads(t, bgs).contains(x) implies t.is_live(
            x,
        ) by {
            if ms.to_set().contains(x) {
                let k = choose|k: int| 0 <= k < ms.len() && ms[k] == x;
                assert(t.is_live(ms[k]));
            } else if x != bg {
                assert(composite_reads(t, bgs.drop_last()).contains(x));
            }
        }
    }
}

/// A list of live handles checks out.
proof fn lemma_handles_live(t: ResourceTable, hs: Seq<ResourceHandle>)
    requires
        forall|k: int| 0 <= k < hs.len() ==> t.is_live(#[trigger] hs[k]),
    ensures
        t.handles_status(hs) is Ok,
    decreases hs.len(),
{
    if hs.len() > 0 {
        assert forall|k: int| 0 <= k < hs.len() - 1 implies t.is_live(#[trigger] hs.drop_last()[k]) by {
            assert(hs.drop_last()[k] == hs[k]);
        }
        lemma_handles_live(t, hs.drop_last());
        assert(t.is_live(hs[hs.len() - 1]));
    }
}

/// A table of the same epoch that keeps the descriptors of `t0`'s slots
/// sees the same bind groups, layouts and members.
proof fn lemma_bind_groups_kept(t0: ResourceTable, t1: ResourceTable, bgs: Seq<ResourceHandle>)
    requires
        t0.spec_epoch() == t1.spec_epoch(),
        t0.spec_entries().len() <= t1.spec_entries().len(),
        forall|i: int|
            0 <= i < t0.spec_entries().len() ==> (#[trigger] t1.spec_entries()[i]).descriptor
                == t0.spec_entries()[i].descriptor,
        bind_groups_status(t0, bgs) is Ok,
    ensures
        bind_groups_status(t1, bgs) is Ok,
        composite_reads(t1, bgs) == composite_reads(t0, bgs),
        layouts_of(t1, bgs) == layouts_of(t0, bgs),
    decreases bgs.len(),
{
    if bgs.len() > 0 {
        lemma_bind_groups_kept(t0, t1, bgs.drop_last());
        let bg = bgs.last();
        assert(t1.spec_entries()[bg.index as int].descriptor == t0.spec_entries()[bg.index as int].descriptor);
    }
    assert forall|k: int| 0 <= k < bgs.len() implies layouts_of(t1, bgs)[k] == layouts_of(t0, bgs)[k] by {
        if bind_groups_status(t0, bgs) is Ok {
            lemma_bind_groups_each(t0, bgs, k);
        }
        let h = bgs[k];
        assert(t1.spec_entries()[h.index as int].descriptor == t0.spec_entries()[h.index as int].descriptor);
    }
    assert(layouts_of(t1, bgs) =~= layouts_of(t0, bgs));
}

/// Each bind group of a list that checks out is live and a bind group.
proof fn lemma_bind_groups_each(t: ResourceTable, bgs: Seq<ResourceHandle>, k: int)
    requires
        bind_groups_status(t, bgs) is Ok,
        0 <= k < bgs.len(),
    ensures
        t.is_live(bgs[k]),
        t.meta_of(bgs[k]).descriptor is BindGroup,
    decreases bgs.len(),
{
    if k < bgs.len() - 1 {
        lemma_bind_groups_each(t, bgs.drop_last(), k);
        assert(bgs.drop_last()[k] == bgs[k]);
    }
}

/// The dependencies of a pass that writes `target`, reads `pipeline`, and
/// reads each bind group of `bgs` with its members.
fn pass_deps(
    table: &ResourceTable,
    target: ResourceHandle,
    pipeline: ResourceHandle,
    bgs: &[ResourceHandle],
) -> (deps: DependencySet)
    requires
        table.wf(),
        table.is_live(target),
        table.is_live(pipeline),
        bind_groups_status(*table, bgs@) is Ok,
    ensures
        deps.writes@ == seq![target],
        deps.reads@.to_set() == composite_reads(*table, bgs@).insert(pipeline),
        crate::graph::deps_status(*table, deps) is Ok,
{
    proof {
        lemma_composite_reads_live(*table, bgs@);
    }
    let mut deps = DependencySet::new();
    let _ = deps.write(table, target);
    let _ = deps.read(table, pipeline);
    proof {
        assert(deps.reads@ == seq![pipeline]);
        assert(bgs@.take(0).len() == 0);
        assert(composite_reads(*table, bgs@.take(0)) == Set::<ResourceHandle>::empty());
        assert forall|x: ResourceHandle| deps.reads@.to_set().contains(x) <==> x == pipeline by {
            if x == pipeline {
                assert(deps.reads@[0] == x);
            }
        }
        assert(deps.reads@.to_set() =~= composite_reads(*table, bgs@.take(0)).insert(pipeline));
    }
    let mut i: usize = 0;
    while i < bgs.len()
        invariant
            i <= bgs@.len(),
            table.wf(),
            bind_groups_status(*table, bgs@) is Ok,
            deps.writes@ == seq![target],
            deps.reads@.to_set() == composite_reads(*table, bgs@.take(i as int)).insert(pipeline),
        decreases bgs@.len() - i,
    {
        let bg = bgs[i];
        proof {
            lemma_bind_groups_each(*table, bgs@, i as int);
            assert(bgs@.take(i + 1).drop_last() == bgs@.take(i as int));
        }
        let _ = deps.add_bind_group(table, bg);
        proof {
            assert(deps.reads@.to_set() =~= composite_reads(*table, bgs@.take(i + 1)).insert(
                pipeline,
            ));
        }
        i += 1;
    }
    proof {
        assert(bgs@.take(i as int) == bgs@);
        assert forall|k: int| 0 <= k < deps.reads@.len() implies table.is_live(
            #[trigger] deps.reads@[k],
        ) by {
            assert(deps.reads@.to_set().contains(deps.reads@[k]));
        }
        lemma_handles_live(*table, deps.reads@);
        assert forall|k: int| 0 <= k < deps.writes@.len() implies table.is_live(
            #[trigger] deps.writes@[k],
        ) by {}
        lemma_handles_live(*table, deps.writes@);
    }
    deps
}

/// A pipeline descriptor of the standard passes: one colour target of
/// `format` and `blend`, the shared vertex stage, and `shader`'s `entry`.
pub open spec fn is_pass_pipeline(
    d: ResourceDescriptor,
    label: Seq<char>,
    layouts: Seq<BindGroupLayout>,
    shader: Seq<char>,
    entry: Seq<char>,
    format: TextureFormat,
    blend: Option<BlendMode>,
) -> bool {
    &&& d is RenderPipeline
    &&& d->RenderPipeline_0.label is Some
    &&& d->RenderPipeline_0.label->Some_0@ == label
    &&& d->RenderPipeline_0.layout@ == layouts
    &&& d->RenderPipeline_0.vertex.shader@ == FULLSCREEN_SHADER@
    &&& d->RenderPipeline_0.vertex.entry_point@ == "fullscreen_vertex_shader"@
    &&& d->RenderPipeline_0.fragment is Some
    &&& d->RenderPipeline_0.fragment->Some_0.shader@ == shader
    &&& d->RenderPipeline_0.fragment->Some_0.entry_point@ == entry
    &&& d->RenderPipeline_0.fragment->Some_0.targets@ == seq![ColorTargetState { format, blend }]
}

/// What `fullscreen_pass` leaves in the graph when it succeeds: one new
/// pipeline slot and one new node after the old ones.
pub open spec fn fullscreen_recorded<C>(
    g0: Graph<PassCommand<C>>,
    g1: Graph<PassCommand<C>>,
    node: usize,
    shader: Seq<char>,
    target: ResourceHandle,
    blend: Option<BlendMode>,
    clear_color: Option<C>,
    bgs: Seq<ResourceHandle>,
) -> bool {
    let t0 = g0.spec_table();
    let t1 = g1.spec_table();
    let pipeline = slot_handle(t0, t0.spec_entries().len() as int);
    let n = g1.spec_nodes().last();
    &&& node == g0.spec_nodes().len()
    &&& g1.spec_nodes().len() == node + 1
    &&& g1.spec_nodes().drop_last() == g0.spec_nodes()
    &&& n.label is Some
    &&& n.label->Some_0@ == "fullscreen_pass"@
    &&& n.work == PassCommand::Fullscreen {
        target,
        pipeline,
        ops: write_ops(t0.meta_of(target).fresh, clear_color),
    }
    &&& n.deps.writes@ == seq![target]
    &&& n.deps.reads@.to_set() == composite_reads(t0, bgs).insert(pipeline)
    &&& t1.spec_epoch() == t0.spec_epoch()
    &&& t1.spec_entries().len() == t0.spec_entries().len() + 1
    &&& is_pass_pipeline(
        t1.meta_of(pipeline).descriptor,
        "fullscreen_pass_pipeline"@,
        layouts_of(t0, bgs),
        shader,
        "fullscreen_frag"@,
        view_format(t0, target)->Ok_0,
        blend,
    )
    &&& t1.meta_of(target).fresh
    &&& slots_kept(t0, t1, target)
}

/// Every slot of `t0` is in `t1` as it was, except that `written` is now
/// marked fresh.
pub open spec fn slots_kept(t0: ResourceTable, t1: ResourceTable, written: ResourceHandle) -> bool {
    forall|i: int|
        0 <= i < t0.spec_entries().len() ==> #[trigger] t1.spec_entries()[i] == (ResourceMeta {
            fresh: t0.spec_entries()[i].fresh || slot_handle(t0, i) == written,
            ..t0.spec_entries()[i]
        })
}

/// Adds a pass that draws one full-screen triangle into `target` with
/// `shader`, reading `bind_groups`. The first write of `target` in the frame
/// clears it to `clear_color` if one is given; any later write loads. The
/// node writes `target` and reads the pass's pipeline, each bind group and
/// each bind group's members. Nothing is added when `target` is not a live
/// texture view with a format, or a bind group is not a live bind group.
pub fn fullscreen_pass<C>(
    graph: &mut Graph<PassCommand<C>>,
    shader: String,
    target: ResourceHandle,
    blend: Option<BlendMode>,
    clear_color: Option<C>,
    bind_groups: &[ResourceHandle],
) -> (r: Result<usize, RenderGraphError>)
    requires
        old(graph).wf(),
        old(graph).spec_table().spec_entries().len() < usize::MAX,
    ensures
        final(graph).wf(),
        final(graph).spec_next_layout_id() == old(graph).spec_next_layout_id(),
        r is Ok <==> view_format(old(graph).spec_table(), target) is Ok && bind_groups_status(
            old(graph).spec_table(),
            bind_groups@,
        ) is Ok,
        r is Err ==> final(graph).spec_table() == old(graph).spec_table(),
        r is Err ==> final(graph).spec_nodes() == old(graph).spec_nodes(),
        r is Err ==> r->Err_0 == if view_format(old(graph).spec_table(), target) is Err {
            view_format(old(graph).spec_table(), target)->Err_0
        } else {
            bind_groups_status(old(graph).spec_table(), bind_groups@)->Err_0
        },
        r is Ok ==> fullscreen_recorded(
            *old(graph),
            *final(graph),
            r->Ok_0,
            shader@,
            target,
            blend,
            clear_color,
            bind_groups@,
        ),
{
    let ghost g0 = *graph;
    let ghost t0 = graph.spec_table();
    let format = match target_format(graph, target) {
        Ok(f) => f,
        Err(e) => {
            return Err(e);
        },
    };
    let layout = match bind_group_layouts(graph, bind_groups) {
        Ok(l) => l,
        Err(e) => {
            return Err(e);
        },
    };
    let fresh = graph.is_fresh(target);
    let ops = load_ops(fresh, clear_color);
    let mut targets: Vec<ColorTargetState> = Vec::new();
    targets.push(ColorTargetState { format, blend });
    let descriptor = RenderPipelineDescriptor {
        label: Some(String::from_str("fullscreen_pass_pipeline")),
        layout,
        vertex: fullscreen_shader_vertex_state(),
        fragment: Some(
            FragmentState { shader, entry_point: String::from_str("fullscreen_frag"), targets },
        ),
    };
    let ghost d = ResourceDescriptor::RenderPipeline(descriptor);
    let pipeline = match graph.new_resource(ResourceDescriptor::RenderPipeline(descriptor)) {
        Ok(h) => h,
        Err(e) => {
            return Err(e);
        },
    };
    let ghost t1 = graph.spec_table();
    proof {
        assert forall|i: int| 0 <= i < t0.spec_entries().len() implies (#[trigger] t1.spec_entries()[i]).descriptor
            == t0.spec_entries()[i].descriptor by {
            assert(t1.spec_entries()[i] == t0.spec_entries()[i]);
        }
        lemma_bind_groups_kept(t0, t1, bind_groups@);
    }
    let deps = pass_deps(graph.table(), target, pipeline, bind_groups);
    let ghost dd = deps;
    let label = Some(String::from_str("fullscreen_pass"));
    let r = graph.add_node(label, deps, PassCommand::Fullscreen { target, pipeline, ops });
    proof {
        let g1 = *graph;
        assert(g1.spec_nodes().drop_last() =~= g0.spec_nodes());
        assert(g1.spec_table().spec_entries()[pipeline.index as int].descriptor == d);
        assert(dd.writes@.contains(target));
        assert(g1.spec_table().spec_entries()[target.index as int].fresh);
        assert forall|i: int| 0 <= i < t0.spec_entries().len() implies #[trigger] g1.spec_table().spec_entries()[i]
            == (ResourceMeta {
            fresh: t0.spec_entries()[i].fresh || slot_handle(t0, i) == target,
            ..t0.spec_entries()[i]
        }) by {
            assert(t1.spec_entries()[i] == t0.spec_entries()[i]);
            assert(slot_handle(t1, i) == slot_handle(t0, i));
            if slot_handle(t0, i) == target {
                assert(dd.writes@[0] == target);
            }
        }
        reveal_strlit("fullscreen_pass");
        reveal_strlit("fullscreen_pass_pipeline");
        reveal_strlit("fullscreen_frag");
    }
    r
}

/// A sampler given to a blit must be a live sampler.
pub open spec fn sampler_status(t: ResourceTable, sampler: Option<ResourceHandle>) -> Result<
    (),
    RenderGraphError,
> {
    match sampler {
        None => Ok(()),
        Some(h) => match t.handle_status(h) {
            Err(e) => Err(e),
            Ok(_) => if t.meta_of(h).descriptor is Sampler {
                Ok(())
            } else {
                Err(RenderGraphError::UnsupportedResource)
            },
        },
    }
}

/// The source of a blit must be a live texture view.
pub open spec fn source_status(t: ResourceTable, src: ResourceHandle) -> Result<(), RenderGraphError> {
    match t.handle_status(src) {
        Err(e) => Err(e),
        Ok(_) => if t.meta_of(src).descriptor is TextureView {
            Ok(())
        } else {
            Err(RenderGraphError::UnsupportedResource)
        },
    }
}

/// Whether a blit can be added, and the format it writes: the sampler is
/// checked first, then the source, then the destination.
pub open spec fn blit_status(t: ResourceTable, src_dst: SrcDst, sampler: Option<ResourceHandle>) -> Result<
    TextureFormat,
    RenderGraphError,
> {
    match sampler_status(t, sampler) {
        Err(e) => Err(e),
        Ok(_) => match source_status(t, src_dst.src) {
            Err(e) => Err(e),
            Ok(_) => view_format(t, src_dst.dst),
        },
    }
}

/// What `custom` leaves in the graph when it succeeds: a sampler slot when
/// none was given, then a bind group of the source and the sampler with a
/// new layout, then a pipeline, and one new node after the old ones.
pub open spec fn blit_recorded<C>(
    g0: Graph<PassCommand<C>>,
    g1: Graph<PassCommand<C>>,
    node: usize,
    shader: Seq<char>,
    src_dst: SrcDst,
    sampler: Option<ResourceHandle>,
    blend: Option<BlendMode>,
    clear_color: Option<C>,
) -> bool {
    let t0 = g0.spec_table();
    let t1 = g1.spec_table();
    let e0 = t0.spec_entries().len() as int;
    let sampler_h = if sampler is Some {
        sampler->Some_0
    } else {
        slot_handle(t0, e0)
    };
    let base = if sampler is Some {
        e0
    } else {
        e0 + 1
    };
    let bind_group = slot_handle(t0, base);
    let pipeline = slot_handle(t0, base + 1);
    let bg = t1.meta_of(bind_group).descriptor;
    let n = g1.spec_nodes().last();
    &&& node == g0.spec_nodes().len()
    &&& g1.spec_nodes().len() == node + 1
    &&& g1.spec_nodes().drop_last() == g0.spec_nodes()
    &&& n.label is Some
    &&& n.label->Some_0@ == "blit_node"@
    &&& n.work == PassCommand::Blit {
        target: src_dst.dst,
        pipeline,
        bind_group,
        ops: write_ops(t0.meta_of(src_dst.dst).fresh, clear_color),
    }
    &&& n.deps.writes@ == seq![src_dst.dst]
    &&& n.deps.reads@.to_set() == set![bind_group, src_dst.src, sampler_h, pipeline]
    &&& t1.spec_epoch() == t0.spec_epoch()
    &&& t1.spec_entries().len() == base + 2
    &&& sampler is None ==> t1.meta_of(sampler_h).descriptor is Sampler
    &&& bg is BindGroup
    &&& bg->BindGroup_layout.spec_id() == crate::bind_group::BindGroupLayoutId(
        g0.spec_next_layout_id(),
    )
    &&& bg->BindGroup_members@ == seq![src_dst.src, sampler_h]
    &&& is_pass_pipeline(
        t1.meta_of(pipeline).descriptor,
        "blit_pipeline"@,
        seq![bg->BindGroup_layout],
        shader,
        "blit_frag"@,
        blit_status(t0, src_dst, sampler)->Ok_0,
        blend,
    )
    &&& t1.meta_of(src_dst.dst).fresh
    &&& slots_kept(t0, t1, src_dst.dst)
    &&& g1.spec_next_layout_id() == g0.spec_next_layout_id() + 1
}

/// Makes the resources of a blit: the sampler when none is given, a bind
/// group of the source and the sampler with a new layout, and the pipeline.
fn blit_resources<C>(
    graph: &mut Graph<PassCommand<C>>,
    src: ResourceHandle,
    sampler: Option<ResourceHandle>,
    shader: String,
    format: TextureFormat,
    blend: Option<BlendMode>,
) -> (r: (ResourceHandle, ResourceHandle, ResourceHandle))
    requires
        old(graph).wf(),
        old(graph).spec_table().spec_entries().len() + 3 < usize::MAX,
        old(graph).spec_next_layout_id() < u64::MAX,
        sampler_status(old(graph).spec_table(), sampler) is Ok,
        source_status(old(graph).spec_table(), src) is Ok,
    ensures
        ({
            let t0 = old(graph).spec_table();
            let t1 = final(graph).spec_table();
            let e0 = t0.spec_entries().len() as int;
            let base = if sampler is Some {
                e0
            } else {
                e0 + 1
            };
            let (sampler_h, bind_group, pipeline) = r;
            let bg = t1.meta_of(bind_group).descriptor;
            &&& final(graph).wf()
            &&& final(graph).spec_nodes() == old(graph).spec_nodes()
            &&& final(graph).spec_next_layout_id() == old(graph).spec_next_layout_id() + 1
            &&& t1.spec_epoch() == t0.spec_epoch()
            &&& t1.spec_entries().len() == base + 2
            &&& forall|i: int| 0 <= i < e0 ==> #[trigger] t1.spec_entries()[i] == t0.spec_entries()[i]
            &&& sampler_h == if sampler is Some {
                sampler->Some_0
            } else {
                slot_handle(t0, e0)
            }
            &&& sampler is None ==> t1.meta_of(sampler_h).descriptor is Sampler
            &&& bind_group == slot_handle(t0, base)
            &&& pipeline == slot_handle(t0, base + 1)
            &&& bg is BindGroup
            &&& bg->BindGroup_layout.spec_id() == crate::bind_group::BindGroupLayoutId(
                old(graph).spec_next_layout_id(),
            )
            &&& bg->BindGroup_members@ == seq![src, sampler_h]
            &&& is_pass_pipeline(
                t1.meta_of(pipeline).descriptor,
                "blit_pipeline"@,
                seq![bg->BindGroup_layout],
                shader@,
                "blit_frag"@,
                format,
                blend,
            )
        }),
{
    let ghost t0 = graph.spec_table();
    let sampler = match sampler {
        Some(s) => s,
        None => match graph.new_resource(ResourceDescriptor::Sampler) {
            Ok(h) => h,
            Err(_) => {
                proof {
                    assert(false);
                }
                ResourceHandle { index: 0, epoch: 0 }
            },
        },
    };
    let layout = graph.new_bind_group_layout();
    let bind_group = make_bind_group(graph, layout, src, sampler);
    let ghost tb = graph.spec_table();
    let mut targets: Vec<ColorTargetState> = Vec::new();
    targets.push(ColorTargetState { format, blend });
    let mut layouts: Vec<BindGroupLayout> = Vec::new();
    layouts.push(layout);
    let descriptor = RenderPipelineDescriptor {
        label: Some(String::from_str("blit_pipeline")),
        layout: layouts,
        vertex: fullscreen_shader_vertex_state(),
        fragment: Some(FragmentState { shader, entry_point: String::from_str("blit_frag"), targets }),
    };
    let pipeline = match graph.new_resource(ResourceDescriptor::RenderPipeline(descriptor)) {
        Ok(h) => h,
        Err(_) => {
            proof {
                assert(false);
            }
            ResourceHandle { index: 0, epoch: 0 }
        },
    };
    proof {
        let t1 = graph.spec_table();
        assert(t1.meta_of(bind_group) == tb.meta_of(bind_group));
        assert(layouts@ == seq![layout]);
        reveal_strlit("blit_pipeline");
        reveal_strlit("blit_frag");
    }
    (sampler, bind_group, pipeline)
}

/// Makes a bind group over a texture view and a sampler.
fn make_bind_group<C>(
    graph: &mut Graph<PassCommand<C>>,
    layout: BindGroupLayout,
    view: ResourceHandle,
    sampler: ResourceHandle,
) -> (r: ResourceHandle)
    requires
        old(graph).wf(),
        old(graph).spec_table().spec_entries().len() < usize::MAX,
        old(graph).spec_table().is_live(view),
        old(graph).spec_table().meta_of(view).descriptor is TextureView,
        old(graph).spec_table().is_live(sampler),
        old(graph).spec_table().meta_of(sampler).descriptor is Sampler,
    ensures
        final(graph).wf(),
        final(graph).spec_nodes() == old(graph).spec_nodes(),
        final(graph).spec_next_layout_id() == old(graph).spec_next_layout_id(),
        final(graph).spec_table().spec_epoch() == old(graph).spec_table().spec_epoch(),
        r == slot_handle(old(graph).spec_table(), old(graph).spec_table().spec_entries().len() as int),
        final(graph).spec_table().spec_entries().len() == old(graph).spec_table().spec_entries().len() + 1,
        forall|i: int|
            0 <= i < old(graph).spec_table().spec_entries().len() ==> #[trigger] final(graph).spec_table().spec_entries()[i]
                == old(graph).spec_table().spec_entries()[i],
        final(graph).spec_table().meta_of(r).descriptor is BindGroup,
        final(graph).spec_table().meta_of(r).descriptor->BindGroup_layout == layout,
        final(graph).spec_table().meta_of(r).descriptor->BindGroup_members@ == seq![view, sampler],
{
    let ghost t = graph.spec_table();
    let mut members: Vec<ResourceHandle> = Vec::new();
    members.push(view);
    members.push(sampler);
    proof {
        let ms = members@;
        assert(ms.drop_last().drop_last().len() == 0);
        assert(t.members_status(ms.drop_last().drop_last()) is Ok);
        assert(ms.drop_last().last() == view);
        assert(t.member_status(view) is Ok);
        assert(t.members_status(ms.drop_last()) is Ok);
        assert(ms.last() == sampler);
        assert(t.member_status(sampler) is Ok);
        assert(t.members_status(ms) is Ok);
        assert(ms == seq![view, sampler]);
    }
    match graph.new_resource(ResourceDescriptor::BindGroup { layout, members }) {
        Ok(h) => h,
        Err(_) => {
            proof {
                assert(false);
            }
            ResourceHandle { index: 0, epoch: 0 }
        },
    }
}

/// Adds a pass that copies `src_dst.src` into `src_dst.dst` with the
/// fragment shader `shader`, sampling with `sampler` or, when none is given,
/// with a new default sampler. The source and the sampler are bound through
/// a new bind group. The first write of the destination in the frame clears
/// it to `clear_color` if one is given; any later write loads.
pub fn custom<C>(
    graph: &mut Graph<PassCommand<C>>,
    shader: String,
    src_dst: SrcDst,
    sampler: Option<ResourceHandle>,
    blend: Option<BlendMode>,
    clear_color: Option<C>,
) -> (r: Result<usize, RenderGraphError>)
    requires
        old(graph).wf(),
        old(graph).spec_table().spec_entries().len() + 3 < usize::MAX,
        old(graph).spec_next_layout_id() < u64::MAX,
    ensures
        final(graph).wf(),
        r is Ok <==> blit_status(old(graph).spec_table(), src_dst, sampler) is Ok,
        r is Err ==> *final(graph) == *old(graph),
        r is Err ==> r->Err_0 == blit_status(old(graph).spec_table(), src_dst, sampler)->Err_0,
        r is Ok ==> blit_recorded(
            *old(graph),
            *final(graph),
            r->Ok_0,
            shader@,
            src_dst,
            sampler,
            blend,
            clear_color,
        ),
{
    let ghost g0 = *graph;
    let ghost t0 = graph.spec_table();
    match sampler {
        Some(s) => match graph.meta(s) {
            Err(e) => {
                return Err(e);
            },
            Ok(m) => match &m.descriptor {
                ResourceDescriptor::Sampler => {},
                _ => {
                    return Err(RenderGraphError::UnsupportedResource);
                },
            },
        },
        None => {},
    }
    match graph.meta(src_dst.src) {
        Err(e) => {
            return Err(e);
        },
        Ok(m) => match &m.descriptor {
            ResourceDescriptor::TextureView { .. } => {},
            _ => {
                return Err(RenderGraphError::UnsupportedResource);
            },
        },
    }
    let format = match target_format(graph, src_dst.dst) {
        Ok(f) => f,
        Err(e) => {
            return Err(e);
        },
    };
    let fresh = graph.is_fresh(src_dst.dst);
    let ops = load_ops(fresh, clear_color);
    let (sampler, bind_group, pipeline) = blit_resources(
        graph,
        src_dst.src,
        sampler,
        shader,
        format,
        blend,
    );
    let ghost tc = graph.spec_table();
    let mut bgs: Vec<ResourceHandle> = Vec::new();
    bgs.push(bind_group);
    proof {
        let m = tc.meta_of(bind_group).descriptor->BindGroup_members@;
        assert(bgs@.drop_last().len() == 0);
        assert(bind_groups_status(tc, bgs@.drop_last()) is Ok);
        assert(bind_group_status(tc, bind_group) is Ok);
        assert(bind_groups_status(tc, bgs@) is Ok);
        assert(composite_reads(tc, bgs@.drop_last()) == Set::<ResourceHandle>::empty());
        assert(composite_reads(tc, bgs@) =~= set![bind_group].union(m.to_set()));
        assert(m.to_set() =~= set![src_dst.src, sampler]) by {
            assert(m[0] == src_dst.src);
            assert(m[1] == sampler);
        }
    }
    let deps = pass_deps(graph.table(), src_dst.dst, pipeline, bgs.as_slice());
    let ghost dd = deps;
    let r = graph.add_node(
        Some(String::from_str("blit_node")),
        deps,
        PassCommand::Blit { target: src_dst.dst, pipeline, bind_group, ops },
    );
    proof {
        let g1 = *graph;
        assert(g1.spec_nodes().drop_last() =~= g0.spec_nodes());
        assert(dd.writes@.contains(src_dst.dst));
        assert(g1.spec_table().spec_entries()[pipeline.index as int].descriptor
            == tc.spec_entries()[pipeline.index as int].descriptor);
        assert(g1.spec_table().spec_entries()[bind_group.index as int].descriptor
            == tc.spec_entries()[bind_group.index as int].descriptor);
        assert(dd.reads@.to_set() =~= set![bind_group, src_dst.src, sampler, pipeline]);
        assert forall|i: int| 0 <= i < t0.spec_entries().len() implies #[trigger] g1.spec_table().spec_entries()[i]
            == (ResourceMeta {
            fresh: t0.spec_entries()[i].fresh || slot_handle(t0, i) == src_dst.dst,
            ..t0.spec_entries()[i]
        }) by {
            assert(tc.spec_entries()[i] == t0.spec_entries()[i]);
            assert(slot_handle(tc, i) == slot_handle(t0, i));
            if slot_handle(t0, i) == src_dst.dst {
                assert(dd.writes@[0] == src_dst.dst);
            }
        }
        reveal_strlit("blit_node");
        reveal_strlit("blit_pipeline");
        reveal_strlit("blit_frag");
    }
    r
}

/// Adds a copy of `src_dst.src` into `src_dst.dst` with the standard blit
/// shader; see [`custom`].
pub fn one<C>(
    graph: &mut Graph<PassCommand<C>>,
    src_dst: SrcDst,
    sampler: Option<ResourceHandle>,
    blend: Option<BlendMode>,
    clear_color: Option<C>,
) -> (r: Result<usize, RenderGraphError>)
    requires
        old(graph).wf(),
        old(graph).spec_table().spec_entries().len() + 3 < usize::MAX,
        old(graph).spec_next_layout_id() < u64::MAX,
    ensures
        final(graph).wf(),
        r is Ok <==> blit_status(old(graph).spec_table(), src_dst, sampler) is Ok,
        r is Err ==> *final(graph) == *old(graph),
        r is Err ==> r->Err_0 == blit_status(old(graph).spec_table(), src_dst, sampler)->Err_0,
        r is Ok ==> blit_recorded(
            *old(graph),
            *final(graph),
            r->Ok_0,
            BLIT_SHADER@,
            src_dst,
            sampler,
            blend,
            clear_color,
        ),
{
    custom(graph, String::from_str(BLIT_SHADER), src_dst, sampler, blend, clear_color)
}

} // verus!
