use vstd::prelude::*;

verus! {

/// The node that draws a 3d view's opaque and alpha-masked phases, then its
/// skybox.
#[derive(Clone, Copy, Debug, Default, PartialEq, Eq, Structural)]
pub struct MainOpaquePass3dNode;

/// A viewport rectangle in physical pixels.
#[derive(Clone, Copy, Debug, PartialEq, Eq, Structural)]
pub struct Viewport {
    pub x: u32,
    pub y: u32,
    pub width: u32,
    pub height: u32,
}

/// The skybox pipeline of a view: its id in the pipeline cache, and whether
/// the cache has finished compiling it.
#[derive(Clone, Copy, Debug, PartialEq, Eq, Structural)]
pub struct SkyboxPipeline {
    pub id: u32,
    pub ready: bool,
}

/// The skybox bind group of a view and its dynamic offset.
#[derive(Clone, Copy, Debug, PartialEq, Eq, Structural)]
pub struct SkyboxBindGroup {
    pub bind_group: u32,
    pub offset: u32,
}

/// What the main opaque pass reads of a view.
#[derive(Clone, Copy, Debug, PartialEq, Eq, Structural)]
pub struct MainPassView {
    pub viewport: Option<Viewport>,
    pub opaque_items: usize,
    pub alpha_mask_items: usize,
    pub skybox_pipeline: Option<SkyboxPipeline>,
    pub skybox_bind_group: Option<SkyboxBindGroup>,
    pub view_uniform_offset: u32,
}

/// One command of the main opaque pass, recorded between the start and the
/// end of the pass.
#[derive(Clone, Copy, Debug, PartialEq, Eq, Structural)]
pub enum MainPassStep {
    SetViewport(Viewport),
    RenderOpaque,
    RenderAlphaMask,
    /// Bind the skybox pipeline and bind group (group 0, with the view's
    /// uniform offset then the skybox's) and draw one full-screen triangle.
    DrawSkybox { pipeline: u32, bind_group: u32, view_offset: u32, skybox_offset: u32 },
}

/// The commands of the main opaque pass for `v`, in order: the viewport if
/// the camera has one, each non-empty phase, and the skybox when the view
/// has both its pipeline and bind group and the pipeline is compiled. A
/// pipeline still compiling is skipped this frame, not an error.
pub open spec fn main_pass_steps(v: MainPassView) -> Seq<MainPassStep> {
    let viewport = if v.viewport is Some {
        seq![MainPassStep::SetViewport(v.viewport->Some_0)]
    } else {
        seq![]
    };
    let opaque = if v.opaque_items > 0 {
        seq![MainPassStep::RenderOpaque]
    } else {
        seq![]
    };
    let alpha = if v.alpha_mask_items > 0 {
        seq![MainPassStep::RenderAlphaMask]
    } else {
        seq![]
    };
    let skybox = if v.skybox_pipeline is Some && v.skybox_bind_group is Some
        && v.skybox_pipeline->Some_0.ready {
        seq![
            MainPassStep::DrawSkybox {
                pipeline: v.skybox_pipeline->Some_0.id,
                bind_group: v.skybox_bind_group->Some_0.bind_group,
                view_offset: v.view_uniform_offset,
                skybox_offset: v.skybox_bind_group->Some_0.offset,
            },
        ]
    } else {
        seq![]
    };
    viewport + opaque + alpha + skybox
}

impl MainOpaquePass3dNode {
    /// The commands to record for view `v`.
    pub fn run(&self, v: &MainPassView) -> (r: Vec<MainPassStep>)
        ensures
            r@ == main_pass_steps(*v),
    {
        let mut steps: Vec<MainPassStep> = Vec::new();
        if let Some(viewport) = v.viewport {
            steps.push(MainPassStep::SetViewport(viewport));
        }
        let ghost s1 = steps@;
        if v.opaque_items > 0 {
            steps.push(MainPassStep::RenderOpaque);
        }
        let ghost s2 = steps@;
        if v.alpha_mask_items > 0 {
            steps.push(MainPassStep::RenderAlphaMask);
        }
        let ghost s3 = steps@;
        if let (Some(pipeline), Some(bind_group)) = (v.skybox_pipeline, v.skybox_bind_group) {
            if pipeline.ready {
                steps.push(
                    MainPassStep::DrawSkybox {
                        pipeline: pipeline.id,
                        bind_group: bind_group.bind_group,
                        view_offset: v.view_uniform_offset,
                        skybox_offset: bind_group.offset,
                    },
                );
            }
        }
        assert(steps@ =~= main_pass_steps(*v));
        steps
    }
}

} // verus!
