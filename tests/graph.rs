use render_graph::bind_group::{
    as_bind_group, finish_bind_group, AsBindGroup, AsBindGroupError, BindGroupLayout, BindGroupLayoutId,
    BindingResource, BindingResources, OwnedBindingResource, TextureViewDimension,
    UnpreparedBindGroup,
};
use render_graph::context::{NodeRunner, RenderContext, Traced};
use render_graph::deps::DependencySet;
use render_graph::error::RenderGraphError;
use render_graph::graph::Graph;
use render_graph::passes::{
    custom, fullscreen_pass, fullscreen_shader_vertex_state, load_ops, one, FullscreenPlugin,
    LoadOp, Operations, PassCommand, SrcDst, StoreOp, BLIT_SHADER, FULLSCREEN_SHADER,
};
use render_graph::resource::{
    BlendMode, ResourceDescriptor, ResourceHandle, ResourceTable, TextureFormat,
};

type Color = [f32; 4];
const BLACK: Color = [0.0, 0.0, 0.0, 1.0];

fn texture(width: u32, height: u32) -> ResourceDescriptor {
    ResourceDescriptor::Texture { width, height, format: TextureFormat::Rgba8Unorm, usage: 1 }
}

fn buffer() -> ResourceDescriptor {
    ResourceDescriptor::Buffer { size: 64, usage: 1 }
}

fn view_of(graph: &mut Graph<PassCommand<Color>>, width: u32, height: u32) -> ResourceHandle {
    let t = graph.new_resource(texture(width, height)).unwrap();
    graph.new_resource(ResourceDescriptor::TextureView { texture: t, format: None }).unwrap()
}

fn deps(
    graph: &Graph<PassCommand<Color>>,
    reads: &[ResourceHandle],
    writes: &[ResourceHandle],
) -> DependencySet {
    let mut d = DependencySet::new();
    for r in reads {
        d.read(graph.table(), *r).unwrap();
    }
    for w in writes {
        d.write(graph.table(), *w).unwrap();
    }
    d
}

fn node(
    graph: &mut Graph<PassCommand<Color>>,
    reads: &[ResourceHandle],
    writes: &[ResourceHandle],
) -> usize {
    let d = deps(graph, reads, writes);
    let target = if writes.is_empty() { reads[0] } else { writes[0] };
    let ops = Operations { load: LoadOp::Load, store: StoreOp::Store };
    graph
        .add_node(None, d, PassCommand::Fullscreen { target, pipeline: target, ops })
        .unwrap()
}

struct Recorder {
    order: Vec<usize>,
    loads: Vec<LoadOp<Color>>,
}

impl Recorder {
    fn new() -> Self {
        Recorder { order: Vec::new(), loads: Vec::new() }
    }
}

impl NodeRunner<PassCommand<Color>> for Recorder {
    fn run(&mut self, ctx: &RenderContext<'_>, work: &PassCommand<Color>) {
        self.order.push(ctx.node());
        match work {
            PassCommand::Fullscreen { target, pipeline, ops } => {
                assert!(ctx.get(*target).is_ok());
                assert!(ctx.get(*pipeline).is_ok());
                self.loads.push(ops.load);
            }
            PassCommand::Blit { target, pipeline, bind_group, ops } => {
                assert!(ctx.get(*target).is_ok());
                assert!(ctx.get(*pipeline).is_ok());
                assert!(matches!(
                    ctx.get(*bind_group),
                    Ok(ResourceDescriptor::BindGroup { .. })
                ));
                self.loads.push(ops.load);
            }
        }
    }
}

#[test]
fn freshness_flips_on_first_recorded_write() {
    let mut g: Graph<PassCommand<Color>> = Graph::new(0);
    let r = g.new_resource(texture(8, 8)).unwrap();
    assert!(!g.is_fresh(r));
    node(&mut g, &[], &[r]);
    assert!(g.is_fresh(r));
    node(&mut g, &[r], &[]);
    assert!(g.is_fresh(r));
    node(&mut g, &[], &[r]);
    assert!(g.is_fresh(r));
    assert!(g.meta(r).unwrap().fresh);
}

#[test]
fn a_read_does_not_claim_first_write() {
    let mut g: Graph<PassCommand<Color>> = Graph::new(0);
    let r = g.new_resource(texture(8, 8)).unwrap();
    node(&mut g, &[r], &[]);
    assert!(!g.is_fresh(r));
}

#[test]
fn writer_runs_before_later_reader_and_writer() {
    let mut g: Graph<PassCommand<Color>> = Graph::new(3);
    let r = g.new_resource(texture(8, 8)).unwrap();
    let other = g.new_resource(texture(8, 8)).unwrap();
    let a = node(&mut g, &[], &[r]);
    let _unrelated = node(&mut g, &[], &[other]);
    let b = node(&mut g, &[r], &[]);
    let c = node(&mut g, &[], &[r]);
    let order = g.schedule().unwrap();
    let pos = |n: usize| order.iter().position(|x| *x == n).unwrap();
    assert!(pos(a) < pos(b));
    assert!(pos(a) < pos(c));
    assert_eq!(order.len(), 4);
}

#[test]
fn reader_declared_first_still_waits_for_writer() {
    let mut g: Graph<PassCommand<Color>> = Graph::new(0);
    let r = g.new_resource(texture(8, 8)).unwrap();
    let reader = node(&mut g, &[r], &[]);
    let writer = node(&mut g, &[], &[r]);
    assert_eq!(g.schedule().unwrap(), vec![writer, reader]);
}

#[test]
fn read_modify_write_nodes_keep_authoring_order() {
    let mut g: Graph<PassCommand<Color>> = Graph::new(0);
    let r = g.new_resource(texture(8, 8)).unwrap();
    node(&mut g, &[r], &[r]);
    node(&mut g, &[r], &[r]);
    assert_eq!(g.schedule().unwrap(), vec![0, 1]);
}

#[test]
fn composite_member_writer_runs_before_composite_reader() {
    let mut g: Graph<PassCommand<Color>> = Graph::new(0);
    let m1 = g.new_resource(buffer()).unwrap();
    let m2 = g.new_resource(buffer()).unwrap();
    let layout = g.new_bind_group_layout();
    let c = g
        .new_resource(ResourceDescriptor::BindGroup { layout, members: vec![m1, m2] })
        .unwrap();
    let out = g.new_resource(texture(4, 4)).unwrap();
    let mut d = DependencySet::new();
    d.add_bind_group(g.table(), c).unwrap();
    d.write(g.table(), out).unwrap();
    assert!(d.reads.contains(&c) && d.reads.contains(&m1) && d.reads.contains(&m2));
    let reader = g.add_node(None, d, PassCommand::Fullscreen {
        target: out,
        pipeline: c,
        ops: Operations { load: LoadOp::Load, store: StoreOp::Store },
    })
    .unwrap();
    let writer = node(&mut g, &[], &[m1]);
    assert_eq!(g.schedule().unwrap(), vec![writer, reader]);
}

#[test]
fn crossed_reads_and_writes_fail_without_running_anything() {
    let mut g: Graph<PassCommand<Color>> = Graph::new(0);
    let r1 = g.new_resource(texture(8, 8)).unwrap();
    let r2 = g.new_resource(texture(8, 8)).unwrap();
    node(&mut g, &[r2], &[r1]);
    node(&mut g, &[r1], &[r2]);
    match g.schedule() {
        Err(RenderGraphError::DependencyCycle { node, resource }) => {
            assert_eq!(node, 0);
            assert_eq!(resource, r2);
        }
        other => panic!("expected a cycle, got {:?}", other),
    }
    let mut rec = Traced::new(Recorder::new());
    let r = g.execute(&mut rec);
    assert!(matches!(r, Err(RenderGraphError::DependencyCycle { .. })));
    assert!(rec.runner().order.is_empty());
}

#[test]
fn resolving_a_handle_of_another_frame_is_invalid() {
    let mut g: Graph<PassCommand<Color>> = Graph::new(7);
    let h = g.new_resource(texture(8, 8)).unwrap();
    assert!(g.table().resolve(h).is_ok());
    let g2 = g.next_frame();
    assert_eq!(g2.table().epoch(), 8);
    assert_eq!(g2.table().resolve(h).err(), Some(RenderGraphError::InvalidHandle));
    assert_eq!(g2.meta(h).err(), Some(RenderGraphError::StaleHandle));
    let newer = ResourceHandle { index: 0, epoch: 9 };
    assert_eq!(g2.table().resolve(newer).err(), Some(RenderGraphError::InvalidHandle));
    assert_eq!(g2.meta(newer).err(), Some(RenderGraphError::InvalidHandle));
}

#[test]
fn out_of_range_handle_is_invalid() {
    let mut t = ResourceTable::new(0);
    let h = t.create(texture(2, 2)).unwrap();
    assert_eq!(h, ResourceHandle { index: 0, epoch: 0 });
    let bad = ResourceHandle { index: 1, epoch: 0 };
    assert_eq!(t.resolve(bad).err(), Some(RenderGraphError::InvalidHandle));
    assert_eq!(t.check_handle(bad), Err(RenderGraphError::InvalidHandle));
}

#[test]
fn stale_handle_is_refused_at_declaration() {
    let mut g: Graph<PassCommand<Color>> = Graph::new(0);
    let h = g.new_resource(texture(8, 8)).unwrap();
    let mut g2 = g.next_frame();
    let mut d = DependencySet::new();
    assert_eq!(d.read(g2.table(), h), Err(RenderGraphError::StaleHandle));
    assert!(d.reads.is_empty());
    let stale = DependencySet { reads: vec![], writes: vec![h] };
    assert_eq!(
        g2.add_node(None, stale, PassCommand::Fullscreen {
            target: h,
            pipeline: h,
            ops: Operations { load: LoadOp::Load, store: StoreOp::Store },
        }),
        Err(RenderGraphError::StaleHandle)
    );
    assert_eq!(g2.node_count(), 0);
}

#[test]
fn clear_then_draw_scenario() {
    let mut g: Graph<PassCommand<Color>> = Graph::new(0);
    let t = view_of(&mut g, 256, 256);
    let o = view_of(&mut g, 256, 256);
    assert!(!g.is_fresh(t));
    let n1 = fullscreen_pass(&mut g, String::from("draw.wgsl"), t, None, Some(BLACK), &[])
        .unwrap();
    assert!(g.is_fresh(t));
    let n2 = one(&mut g, SrcDst { src: t, dst: o }, None, None, None).unwrap();
    match &g.node(n1).work {
        PassCommand::Fullscreen { ops, target, .. } => {
            assert_eq!(ops.load, LoadOp::Clear(BLACK));
            assert_eq!(*target, t);
        }
        _ => panic!("fullscreen pass expected"),
    }
    let order = g.schedule().unwrap();
    assert_eq!(order, vec![n1, n2]);
    let mut rec = Traced::new(Recorder::new());
    g.execute(&mut rec).unwrap();
    assert_eq!(rec.runner().order, vec![n1, n2]);
    assert_eq!(rec.runner().loads, vec![LoadOp::Clear(BLACK), LoadOp::Load]);
}

#[test]
fn second_writer_loads_instead_of_clearing() {
    let mut g: Graph<PassCommand<Color>> = Graph::new(0);
    let t = view_of(&mut g, 16, 16);
    fullscreen_pass(&mut g, String::from("a.wgsl"), t, None, Some(BLACK), &[]).unwrap();
    let second = fullscreen_pass(
        &mut g,
        String::from("b.wgsl"),
        t,
        Some(BlendMode::AlphaBlending),
        Some([1.0, 0.0, 0.0, 1.0]),
        &[],
    )
    .unwrap();
    match &g.node(second).work {
        PassCommand::Fullscreen { ops, .. } => assert_eq!(ops.load, LoadOp::Load),
        _ => panic!("fullscreen pass expected"),
    }
    assert_eq!(g.schedule().unwrap(), vec![0, 1]);
}

#[test]
fn independent_nodes_keep_authoring_order() {
    for _ in 0..3 {
        let mut g: Graph<PassCommand<Color>> = Graph::new(0);
        let r1 = g.new_resource(texture(8, 8)).unwrap();
        let r2 = g.new_resource(texture(8, 8)).unwrap();
        node(&mut g, &[], &[r1]);
        node(&mut g, &[], &[r2]);
        assert_eq!(g.schedule().unwrap(), vec![0, 1]);
    }
}

#[test]
fn empty_graph_runs_nothing() {
    let g: Graph<PassCommand<Color>> = Graph::new(0);
    assert_eq!(g.schedule().unwrap(), Vec::<usize>::new());
    let mut rec = Traced::new(Recorder::new());
    assert_eq!(g.execute(&mut rec), Ok(()));
    assert!(rec.runner().order.is_empty());
}

#[test]
fn node_without_dependencies_keeps_its_place() {
    let mut g: Graph<PassCommand<Color>> = Graph::new(0);
    let r = g.new_resource(texture(8, 8)).unwrap();
    let ops = Operations { load: LoadOp::Load, store: StoreOp::Store };
    g.add_node(Some(String::from("idle")), DependencySet::new(), PassCommand::Fullscreen {
        target: r,
        pipeline: r,
        ops,
    })
    .unwrap();
    node(&mut g, &[r], &[]);
    node(&mut g, &[], &[r]);
    assert_eq!(g.schedule().unwrap(), vec![0, 2, 1]);
}

#[test]
fn declarations_are_idempotent() {
    let mut g: Graph<PassCommand<Color>> = Graph::new(0);
    let r = g.new_resource(texture(8, 8)).unwrap();
    let mut d = DependencySet::new();
    d.read(g.table(), r).unwrap();
    d.read(g.table(), r).unwrap();
    d.write(g.table(), r).unwrap();
    d.write(g.table(), r).unwrap();
    assert_eq!(d.reads, vec![r]);
    assert_eq!(d.writes, vec![r]);
}

#[test]
fn nested_composite_is_refused() {
    let mut g: Graph<PassCommand<Color>> = Graph::new(0);
    let m = g.new_resource(buffer()).unwrap();
    let layout = g.new_bind_group_layout();
    let inner = g
        .new_resource(ResourceDescriptor::BindGroup { layout, members: vec![m] })
        .unwrap();
    let outer = g.new_resource(ResourceDescriptor::BindGroup { layout, members: vec![m, inner] });
    assert_eq!(outer, Err(RenderGraphError::UnsupportedResource));
    let mut d = DependencySet::new();
    assert_eq!(
        d.add_composite(g.table(), &[m, inner]),
        Err(RenderGraphError::UnsupportedResource)
    );
    assert!(d.reads.is_empty());
    d.add_composite(g.table(), &[m]).unwrap();
    assert_eq!(d.reads, vec![m]);
    let not_a_group = d.add_bind_group(g.table(), m);
    assert_eq!(not_a_group, Err(RenderGraphError::UnsupportedResource));
}

#[test]
fn unsupported_descriptors_are_refused() {
    let mut g: Graph<PassCommand<Color>> = Graph::new(0);
    assert_eq!(g.new_resource(texture(0, 4)), Err(RenderGraphError::UnsupportedResource));
    assert_eq!(
        g.new_resource(ResourceDescriptor::Buffer { size: 0, usage: 1 }),
        Err(RenderGraphError::UnsupportedResource)
    );
    let b = g.new_resource(buffer()).unwrap();
    assert_eq!(
        g.new_resource(ResourceDescriptor::TextureView { texture: b, format: None }),
        Err(RenderGraphError::UnsupportedResource)
    );
    assert_eq!(g.table().len(), 1);
    let imported = g.import_resource(texture(4, 4)).unwrap();
    assert!(g.meta(imported).unwrap().imported);
    assert!(!g.is_fresh(imported));
}

#[test]
fn undeclared_access_is_refused() {
    let mut g: Graph<PassCommand<Color>> = Graph::new(0);
    let a = g.new_resource(texture(4, 4)).unwrap();
    let b = g.new_resource(texture(4, 4)).unwrap();
    let d = deps(&g, &[a], &[]);
    let ctx = RenderContext::new(g.table(), &d, 0);
    assert!(matches!(ctx.get(a), Ok(ResourceDescriptor::Texture { width: 4, .. })));
    assert_eq!(ctx.get(b).err(), Some(RenderGraphError::UndeclaredAccess));
}

#[test]
fn fullscreen_pass_refuses_bad_targets() {
    let mut g: Graph<PassCommand<Color>> = Graph::new(0);
    let t = g.new_resource(texture(4, 4)).unwrap();
    let r = fullscreen_pass(&mut g, String::from("x.wgsl"), t, None, None, &[]);
    assert_eq!(r, Err(RenderGraphError::UnsupportedResource));
    let v = view_of(&mut g, 4, 4);
    let r = fullscreen_pass(&mut g, String::from("x.wgsl"), v, None, None, &[t]);
    assert_eq!(r, Err(RenderGraphError::UnsupportedResource));
    assert_eq!(g.node_count(), 0);
    assert_eq!(g.table().len(), 3);
}

#[test]
fn fullscreen_pass_builds_its_pipeline() {
    let mut g: Graph<PassCommand<Color>> = Graph::new(0);
    let tex = g.new_resource(texture(4, 4)).unwrap();
    let v = g
        .new_resource(ResourceDescriptor::TextureView {
            texture: tex,
            format: Some(TextureFormat::Rgba16Float),
        })
        .unwrap();
    let m = g.new_resource(buffer()).unwrap();
    let layout = g.new_bind_group_layout();
    let bg = g
        .new_resource(ResourceDescriptor::BindGroup { layout, members: vec![m] })
        .unwrap();
    let n = fullscreen_pass(&mut g, String::from("f.wgsl"), v, Some(BlendMode::Replace), None, &[bg])
        .unwrap();
    let node = g.node(n);
    assert_eq!(node.label.as_deref(), Some("fullscreen_pass"));
    assert_eq!(node.deps.writes, vec![v]);
    assert!(node.deps.reads.contains(&bg) && node.deps.reads.contains(&m));
    let pipeline = match &node.work {
        PassCommand::Fullscreen { pipeline, ops, .. } => {
            assert_eq!(ops.load, LoadOp::Load);
            *pipeline
        }
        _ => panic!("fullscreen pass expected"),
    };
    assert!(node.deps.reads.contains(&pipeline));
    match g.table().resolve(pipeline).unwrap() {
        ResourceDescriptor::RenderPipeline(p) => {
            assert_eq!(p.label.as_deref(), Some("fullscreen_pass_pipeline"));
            assert_eq!(p.layout, vec![layout]);
            assert_eq!(p.vertex.shader, FULLSCREEN_SHADER);
            let f = p.fragment.as_ref().unwrap();
            assert_eq!(f.shader, "f.wgsl");
            assert_eq!(f.entry_point, "fullscreen_frag");
            assert_eq!(f.targets[0].format, TextureFormat::Rgba16Float);
            assert_eq!(f.targets[0].blend, Some(BlendMode::Replace));
        }
        _ => panic!("pipeline expected"),
    }
}

#[test]
fn blit_makes_sampler_bind_group_and_pipeline() {
    let mut g: Graph<PassCommand<Color>> = Graph::new(0);
    let src = view_of(&mut g, 8, 8);
    let dst = view_of(&mut g, 8, 8);
    let before = g.table().len();
    let n = custom(&mut g, String::from("copy.wgsl"), SrcDst { src, dst }, None, None, Some(BLACK))
        .unwrap();
    assert_eq!(g.table().len(), before + 3);
    let sampler = ResourceHandle { index: before, epoch: 0 };
    assert!(matches!(g.table().resolve(sampler), Ok(ResourceDescriptor::Sampler)));
    let node = g.node(n);
    assert_eq!(node.label.as_deref(), Some("blit_node"));
    match &node.work {
        PassCommand::Blit { target, bind_group, pipeline, ops } => {
            assert_eq!(*target, dst);
            assert_eq!(ops.load, LoadOp::Clear(BLACK));
            match g.table().resolve(*bind_group).unwrap() {
                ResourceDescriptor::BindGroup { layout, members } => {
                    assert_eq!(members, &vec![src, sampler]);
                    assert_eq!(layout.id(), BindGroupLayoutId(0));
                }
                _ => panic!("bind group expected"),
            }
            match g.table().resolve(*pipeline).unwrap() {
                ResourceDescriptor::RenderPipeline(p) => {
                    assert_eq!(p.fragment.as_ref().unwrap().entry_point, "blit_frag");
                    assert_eq!(p.fragment.as_ref().unwrap().shader, "copy.wgsl");
                }
                _ => panic!("pipeline expected"),
            }
        }
        _ => panic!("blit expected"),
    }
    assert!(node.deps.reads.contains(&src));
    assert_eq!(node.deps.writes, vec![dst]);
}

#[test]
fn blit_checks_sampler_source_and_destination() {
    let mut g: Graph<PassCommand<Color>> = Graph::new(0);
    let src = view_of(&mut g, 8, 8);
    let dst = view_of(&mut g, 8, 8);
    let b = g.new_resource(buffer()).unwrap();
    let sd = SrcDst { src, dst };
    assert_eq!(one(&mut g, sd, Some(b), None, None), Err(RenderGraphError::UnsupportedResource));
    let bad_src = SrcDst { src: b, dst };
    assert_eq!(one(&mut g, bad_src, None, None, None), Err(RenderGraphError::UnsupportedResource));
    let stale = ResourceHandle { index: 0, epoch: 0 };
    let mut g2 = g.next_frame();
    assert_eq!(
        one(&mut g2, SrcDst { src: stale, dst: stale }, None, None, None),
        Err(RenderGraphError::StaleHandle)
    );
    assert_eq!(g2.node_count(), 0);
    let s = g2.new_resource(ResourceDescriptor::Sampler).unwrap();
    let v1 = view_of(&mut g2, 2, 2);
    let v2 = view_of(&mut g2, 2, 2);
    let n = one(&mut g2, SrcDst { src: v1, dst: v2 }, Some(s), None, None).unwrap();
    match &g2.node(n).work {
        PassCommand::Blit { pipeline, .. } => match g2.table().resolve(*pipeline).unwrap() {
            ResourceDescriptor::RenderPipeline(p) => {
                assert_eq!(p.fragment.as_ref().unwrap().shader, BLIT_SHADER)
            }
            _ => panic!("pipeline expected"),
        },
        _ => panic!("blit expected"),
    }
}

#[test]
fn load_ops_follow_freshness() {
    assert_eq!(load_ops(false, Some(BLACK)).load, LoadOp::Clear(BLACK));
    assert_eq!(load_ops(false, None::<Color>).load, LoadOp::Load);
    assert_eq!(load_ops(true, Some(BLACK)).load, LoadOp::Load);
    assert_eq!(load_ops(true, Some(BLACK)).store, StoreOp::Store);
}

#[test]
fn shared_vertex_state_and_plugin_shaders() {
    let v = fullscreen_shader_vertex_state();
    assert_eq!(v.shader, FULLSCREEN_SHADER);
    assert_eq!(v.entry_point, "fullscreen_vertex_shader");
    assert_eq!(FullscreenPlugin.build(), vec![FULLSCREEN_SHADER.to_string(), BLIT_SHADER.to_string()]);
}

#[test]
fn bind_group_layout_ids_are_unique_across_frames() {
    let mut g: Graph<PassCommand<Color>> = Graph::new(0);
    let a = g.new_bind_group_layout();
    let b = g.new_bind_group_layout();
    assert_ne!(a, b);
    let mut g2 = g.next_frame();
    let c = g2.new_bind_group_layout();
    assert_eq!(c.id(), BindGroupLayoutId(2));
    assert_eq!(BindGroupLayout::from_id(BindGroupLayoutId(2)), c);
}

struct Material {
    texture: ResourceHandle,
    sampler: ResourceHandle,
    ready: bool,
}

impl AsBindGroup for Material {
    type Data = u32;

    fn unprepared_bind_group(
        &self,
        _layout: &BindGroupLayout,
        _table: &ResourceTable,
    ) -> Result<UnpreparedBindGroup<u32>, AsBindGroupError> {
        if !self.ready {
            return Err(AsBindGroupError::RetryNextUpdate);
        }
        Ok(UnpreparedBindGroup {
            bindings: BindingResources(vec![
                (0, OwnedBindingResource::TextureView(TextureViewDimension::D2, self.texture)),
                (1, OwnedBindingResource::Sampler(self.sampler)),
            ]),
            data: 7,
        })
    }
}

#[test]
fn as_bind_group_makes_a_composite() {
    let mut g: Graph<PassCommand<Color>> = Graph::new(0);
    let texture = view_of(&mut g, 4, 4);
    let sampler = g.new_resource(ResourceDescriptor::Sampler).unwrap();
    let layout = g.new_bind_group_layout();
    let waiting = Material { texture, sampler, ready: false };
    assert_eq!(
        as_bind_group(&waiting, &layout, &mut g).err(),
        Some(AsBindGroupError::RetryNextUpdate)
    );
    let m = Material { texture, sampler, ready: true };
    let prepared = as_bind_group(&m, &layout, &mut g).unwrap();
    assert_eq!(prepared.data, 7);
    match g.table().resolve(prepared.bind_group.id()).unwrap() {
        ResourceDescriptor::BindGroup { members, layout: l } => {
            assert_eq!(members, &vec![texture, sampler]);
            assert_eq!(*l, layout);
        }
        _ => panic!("bind group expected"),
    }
    let stale = Material { texture: ResourceHandle { index: 0, epoch: 5 }, sampler, ready: true };
    assert_eq!(
        as_bind_group(&stale, &layout, &mut g).err(),
        Some(AsBindGroupError::InvalidBinding(RenderGraphError::InvalidHandle))
    );
}

#[test]
fn bindings_expose_their_resource() {
    let h = ResourceHandle { index: 3, epoch: 1 };
    assert_eq!(OwnedBindingResource::Buffer(h).get_binding(), BindingResource::Buffer(h));
    assert_eq!(
        OwnedBindingResource::TextureView(TextureViewDimension::Cube, h).get_binding(),
        BindingResource::TextureView(h)
    );
    assert_eq!(OwnedBindingResource::Sampler(h).get_binding(), BindingResource::Sampler(h));
}

#[test]
fn traced_runner_follows_the_schedule() {
    let mut g: Graph<PassCommand<Color>> = Graph::new(0);
    let r = g.new_resource(texture(8, 8)).unwrap();
    let other = g.new_resource(texture(8, 8)).unwrap();
    node(&mut g, &[r], &[]);
    node(&mut g, &[], &[other]);
    node(&mut g, &[], &[r]);
    let mut log = Traced::new(Recorder::new());
    g.execute(&mut log).unwrap();
    assert_eq!(log.log(), &vec![1, 2, 0]);
    assert_eq!(log.into_runner().order, vec![1, 2, 0]);
}

#[test]
fn crossed_blits_form_a_cycle() {
    let mut g: Graph<PassCommand<Color>> = Graph::new(0);
    let r1 = view_of(&mut g, 8, 8);
    let r2 = view_of(&mut g, 8, 8);
    one(&mut g, SrcDst { src: r2, dst: r1 }, None, None, None).unwrap();
    one(&mut g, SrcDst { src: r1, dst: r2 }, None, None, None).unwrap();
    let mut log = Traced::new(Recorder::new());
    let r = g.execute(&mut log);
    assert!(matches!(r, Err(RenderGraphError::DependencyCycle { .. })));
    assert!(log.log().is_empty());
}

#[test]
fn implementor_refusal_passes_through() {
    let mut g: Graph<PassCommand<Color>> = Graph::new(0);
    let layout = g.new_bind_group_layout();
    let refusal: Result<UnpreparedBindGroup<u8>, AsBindGroupError> = Err(
        AsBindGroupError::InvalidSamplerType(2, String::from("linear"), String::from("comparison")),
    );
    let r = finish_bind_group(refusal, &layout, &mut g);
    assert_eq!(
        r.err(),
        Some(AsBindGroupError::InvalidSamplerType(
            2,
            String::from("linear"),
            String::from("comparison")
        ))
    );
    let direct: Result<UnpreparedBindGroup<u8>, AsBindGroupError> =
        Err(AsBindGroupError::CreateBindGroupDirectly);
    assert_eq!(
        finish_bind_group(direct, &layout, &mut g).err(),
        Some(AsBindGroupError::CreateBindGroupDirectly)
    );
    assert_eq!(g.table().len(), 0);
}
