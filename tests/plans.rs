use render_graph::atmosphere::{AdapterSupport, AtmospherePlugin, AtmosphereSupport};
use render_graph::bind_group::{
    prepare_bind_group, AsBindGroupError, BindingResources, OwnedBindingResource,
    UnpreparedBindGroup,
};
use render_graph::error::RenderGraphError;
use render_graph::graph::Graph;
use render_graph::main_pass::{
    MainOpaquePass3dNode, MainPassStep, MainPassView, SkyboxBindGroup, SkyboxPipeline, Viewport,
};
use render_graph::resource::{ResourceDescriptor, ResourceHandle};

fn view() -> MainPassView {
    MainPassView {
        viewport: None,
        opaque_items: 0,
        alpha_mask_items: 0,
        skybox_pipeline: None,
        skybox_bind_group: None,
        view_uniform_offset: 256,
    }
}

#[test]
fn empty_view_records_nothing() {
    assert_eq!(MainOpaquePass3dNode.run(&view()), vec![]);
}

#[test]
fn full_view_records_every_step_in_order() {
    let vp = Viewport { x: 0, y: 10, width: 640, height: 480 };
    let v = MainPassView {
        viewport: Some(vp),
        opaque_items: 3,
        alpha_mask_items: 1,
        skybox_pipeline: Some(SkyboxPipeline { id: 9, ready: true }),
        skybox_bind_group: Some(SkyboxBindGroup { bind_group: 4, offset: 512 }),
        view_uniform_offset: 256,
    };
    assert_eq!(
        MainOpaquePass3dNode.run(&v),
        vec![
            MainPassStep::SetViewport(vp),
            MainPassStep::RenderOpaque,
            MainPassStep::RenderAlphaMask,
            MainPassStep::DrawSkybox { pipeline: 9, bind_group: 4, view_offset: 256, skybox_offset: 512 },
        ]
    );
}

#[test]
fn skybox_waits_for_its_pipeline() {
    let mut v = view();
    v.alpha_mask_items = 2;
    v.skybox_pipeline = Some(SkyboxPipeline { id: 9, ready: false });
    v.skybox_bind_group = Some(SkyboxBindGroup { bind_group: 4, offset: 0 });
    assert_eq!(MainOpaquePass3dNode.run(&v), vec![MainPassStep::RenderAlphaMask]);
    v.skybox_pipeline = Some(SkyboxPipeline { id: 9, ready: true });
    v.skybox_bind_group = None;
    assert_eq!(MainOpaquePass3dNode.run(&v), vec![MainPassStep::RenderAlphaMask]);
}

#[test]
fn atmosphere_checks_compute_before_storage() {
    let p = AtmospherePlugin;
    assert_eq!(p.finish(None), AtmosphereSupport::NoRenderApp);
    let none = AdapterSupport { compute_shaders: false, rgba16_float_storage: false };
    assert_eq!(p.finish(Some(none)), AtmosphereSupport::NoComputeShaders);
    let no_storage = AdapterSupport { compute_shaders: true, rgba16_float_storage: false };
    assert_eq!(p.finish(Some(no_storage)), AtmosphereSupport::NoRgba16FloatStorage);
    let all = AdapterSupport { compute_shaders: true, rgba16_float_storage: true };
    assert_eq!(p.finish(Some(all)), AtmosphereSupport::Register);
}

#[test]
fn atmosphere_warnings() {
    assert_eq!(AtmosphereSupport::Register.warning(), None);
    assert_eq!(AtmosphereSupport::NoRenderApp.warning(), None);
    assert_eq!(
        AtmosphereSupport::NoComputeShaders.warning().unwrap(),
        "AtmospherePlugin not loaded. GPU lacks support for compute shaders."
    );
    assert_eq!(
        AtmosphereSupport::NoRgba16FloatStorage.warning().unwrap(),
        "AtmospherePlugin not loaded. GPU lacks support: TextureFormat::Rgba16Float does not support TextureUsages::STORAGE_BINDING."
    );
}

#[test]
fn prepared_bindings_become_a_composite() {
    let mut g: Graph<u8> = Graph::new(2);
    let b = g.new_resource(ResourceDescriptor::Buffer { size: 16, usage: 4 }).unwrap();
    let s = g.new_resource(ResourceDescriptor::Sampler).unwrap();
    let layout = g.new_bind_group_layout();
    let u = UnpreparedBindGroup {
        bindings: BindingResources(vec![
            (0, OwnedBindingResource::Buffer(b)),
            (1, OwnedBindingResource::Sampler(s)),
        ]),
        data: "key",
    };
    let p = prepare_bind_group(u, &layout, &mut g).unwrap();
    assert_eq!(p.data, "key");
    assert_eq!(p.bind_group.id(), ResourceHandle { index: 2, epoch: 2 });
    match g.table().resolve(p.bind_group.id()).unwrap() {
        ResourceDescriptor::BindGroup { members, .. } => assert_eq!(members, &vec![b, s]),
        _ => panic!("bind group expected"),
    }
    let nested = UnpreparedBindGroup {
        bindings: BindingResources(vec![(0, OwnedBindingResource::Buffer(p.bind_group.id()))]),
        data: "nested",
    };
    assert_eq!(
        prepare_bind_group(nested, &layout, &mut g).err(),
        Some(AsBindGroupError::InvalidBinding(RenderGraphError::UnsupportedResource))
    );
    assert_eq!(g.table().len(), 3);
}

#[test]
fn atmosphere_loads_its_shaders_in_order() {
    let files = AtmospherePlugin.build();
    assert_eq!(
        files,
        vec![
            "types.wgsl",
            "functions.wgsl",
            "bruneton_functions.wgsl",
            "bindings.wgsl",
            "transmittance_lut.wgsl",
            "multiscattering_lut.wgsl",
            "sky_view_lut.wgsl",
            "aerial_view_lut.wgsl",
            "render_sky.wgsl",
        ]
    );
}
