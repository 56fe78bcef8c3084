use vstd::prelude::*;
use vstd::string::StringExecFns;

verus! {

/// Registers the atmosphere passes when the device can run them.
#[derive(Clone, Copy, Debug, Default, PartialEq, Eq, Structural)]
pub struct AtmospherePlugin;

/// What the atmosphere needs to know of the device, queried once at start.
#[derive(Clone, Copy, Debug, PartialEq, Eq, Structural)]
pub struct AdapterSupport {
    pub compute_shaders: bool,
    pub rgba16_float_storage: bool,
}

/// Whether the atmosphere passes are registered, and if not, why.
#[derive(Clone, Copy, Debug, PartialEq, Eq, Structural)]
pub enum AtmosphereSupport {
    Register,
    /// There is no render sub-application: nothing to do, nothing to say.
    NoRenderApp,
    NoComputeShaders,
    NoRgba16FloatStorage,
}

/// The decision for a device, or for none when there is no render
/// sub-application. Compute shaders are checked before the storage format.
pub open spec fn support_of(adapter: Option<AdapterSupport>) -> AtmosphereSupport {
    match adapter {
        None => AtmosphereSupport::NoRenderApp,
        Some(a) => if !a.compute_shaders {
            AtmosphereSupport::NoComputeShaders
        } else if !a.rgba16_float_storage {
            AtmosphereSupport::NoRgba16FloatStorage
        } else {
            AtmosphereSupport::Register
        },
    }
}

/// The shader files of the atmosphere, in the order they are loaded.
pub open spec fn atmosphere_shaders() -> Seq<Seq<char>> {
    seq![
        "types.wgsl"@,
        "functions.wgsl"@,
        "bruneton_functions.wgsl"@,
        "bindings.wgsl"@,
        "transmittance_lut.wgsl"@,
        "multiscattering_lut.wgsl"@,
        "sky_view_lut.wgsl"@,
        "aerial_view_lut.wgsl"@,
        "render_sky.wgsl"@,
    ]
}

impl AtmospherePlugin {
    /// The shader files to load when the plugin is added.
    pub fn build(&self) -> (r: Vec<String>)
        ensures
            r@.map_values(|f: String| f@) == atmosphere_shaders(),
    {
        let mut r: Vec<String> = Vec::new();
        r.push(String::from_str("types.wgsl"));
        r.push(String::from_str("functions.wgsl"));
        r.push(String::from_str("bruneton_functions.wgsl"));
        r.push(String::from_str("bindings.wgsl"));
        r.push(String::from_str("transmittance_lut.wgsl"));
        r.push(String::from_str("multiscattering_lut.wgsl"));
        r.push(String::from_str("sky_view_lut.wgsl"));
        r.push(String::from_str("aerial_view_lut.wgsl"));
        r.push(String::from_str("render_sky.wgsl"));
        assert(r@.map_values(|f: String| f@) =~= atmosphere_shaders());
        r
    }

    /// Decides, once at start, whether to register the passes.
    pub fn finish(&self, adapter: Option<AdapterSupport>) -> (r: AtmosphereSupport)
        ensures
            r == support_of(adapter),
    {
        match adapter {
            None => AtmosphereSupport::NoRenderApp,
            Some(a) => if !a.compute_shaders {
                AtmosphereSupport::NoComputeShaders
            } else if !a.rgba16_float_storage {
                AtmosphereSupport::NoRgba16FloatStorage
            } else {
                AtmosphereSupport::Register
            },
        }
    }
}

impl AtmosphereSupport {
    /// The warning to log when the passes are skipped for want of a device
    /// feature.
    pub fn warning(&self) -> (r: Option<String>)
        ensures
            (*self is Register || *self is NoRenderApp) <==> r is None,
            *self is NoComputeShaders ==> r->Some_0@
                == "AtmospherePlugin not loaded. GPU lacks support for compute shaders."@,
            *self is NoRgba16FloatStorage ==> r->Some_0@
                == "AtmospherePlugin not loaded. GPU lacks support: TextureFormat::Rgba16Float does not support TextureUsages::STORAGE_BINDING."@,
    {
        match self {
            AtmosphereSupport::Register => None,
            AtmosphereSupport::NoRenderApp => None,
            AtmosphereSupport::NoComputeShaders => Some(
                String::from_str("AtmospherePlugin not loaded. GPU lacks support for compute shaders."),
            ),
            AtmosphereSupport::NoRgba16FloatStorage => Some(
                String::from_str(
                    "AtmospherePlugin not loaded. GPU lacks support: TextureFormat::Rgba16Float does not support TextureUsages::STORAGE_BINDING.",
                ),
            ),
        }
    }
}

} // verus!
