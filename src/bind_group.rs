use crate::error::RenderGraphError;
use crate::graph::{slot_handle, Graph};
use crate::resource::{ResourceDescriptor, ResourceHandle, ResourceTable};
use vstd::prelude::*;

verus! {

/// The identity of a bind group layout.
#[derive(Clone, Copy, Debug, PartialEq, Eq, Hash, Structural)]
pub struct BindGroupLayoutId(pub u64);

/// The shape of a bind group; two layouts are equal when their ids are.
#[derive(Clone, Copy, Debug, PartialEq, Eq, Hash, Structural)]
pub struct BindGroupLayout {
    id: BindGroupLayoutId,
}

impl BindGroupLayout {
    pub closed spec fn spec_id(&self) -> BindGroupLayoutId {
        self.id
    }

    pub fn from_id(id: BindGroupLayoutId) -> (r: BindGroupLayout)
        ensures
            r.spec_id() == id,
    {
        BindGroupLayout { id }
    }

    pub fn id(&self) -> (r: BindGroupLayoutId)
        ensures
            r == self.spec_id(),
    {
        self.id
    }

    /// A layout is its id: two layouts with equal ids are equal.
    pub proof fn lemma_id_determines(a: BindGroupLayout, b: BindGroupLayout)
        ensures
            (a.spec_id() == b.spec_id()) <==> (a == b),
    {
    }
}

/// A bind group of a frame, known by the handle of its table slot.
#[derive(Clone, Copy, Debug, PartialEq, Eq, Structural)]
pub struct BindGroup {
    id: ResourceHandle,
}

impl BindGroup {
    pub closed spec fn spec_id(&self) -> ResourceHandle {
        self.id
    }

    pub fn from_handle(id: ResourceHandle) -> (r: BindGroup)
        ensures
            r.spec_id() == id,
    {
        BindGroup { id }
    }

    /// The handle of the bind group's slot.
    pub fn id(&self) -> (r: ResourceHandle)
        ensures
            r == self.spec_id(),
    {
        self.id
    }
}

/// Why a value could not be turned into a bind group.
#[derive(Clone, Debug, PartialEq, Eq)]
pub enum AsBindGroupError {
    /// The bind group could not be generated yet; try again next frame.
    RetryNextUpdate,
    /// The value must build its bind group through `as_bind_group` itself.
    CreateBindGroupDirectly,
    /// At a binding index, the image's sampler (second) does not match the
    /// required sampler types (third).
    InvalidSamplerType(u32, String, String),
    /// The frame's table refused the bindings.
    InvalidBinding(RenderGraphError),
}

/// How a texture is viewed by a binding.
#[derive(Clone, Copy, Debug, PartialEq, Eq, Structural)]
pub enum TextureViewDimension {
    D1,
    D2,
    D2Array,
    Cube,
    CubeArray,
    D3,
}

/// What a binding gives the shader: a whole buffer, a texture view or a
/// sampler.
#[derive(Clone, Copy, Debug, PartialEq, Eq, Structural)]
pub enum BindingResource {
    Buffer(ResourceHandle),
    TextureView(ResourceHandle),
    Sampler(ResourceHandle),
}

/// A resource held by a prepared bind group.
#[derive(Clone, Copy, Debug, PartialEq, Eq, Structural)]
pub enum OwnedBindingResource {
    Buffer(ResourceHandle),
    TextureView(TextureViewDimension, ResourceHandle),
    Sampler(ResourceHandle),
}

/// The handle a binding refers to.
pub open spec fn binding_handle(b: OwnedBindingResource) -> ResourceHandle {
    match b {
        OwnedBindingResource::Buffer(h) => h,
        OwnedBindingResource::TextureView(_, h) => h,
        OwnedBindingResource::Sampler(h) => h,
    }
}

impl OwnedBindingResource {
    /// The binding as the shader sees it: a buffer is bound whole.
    pub fn get_binding(&self) -> (r: BindingResource)
        ensures
            r == match *self {
                OwnedBindingResource::Buffer(h) => BindingResource::Buffer(h),
                OwnedBindingResource::TextureView(_, h) => BindingResource::TextureView(h),
                OwnedBindingResource::Sampler(h) => BindingResource::Sampler(h),
            },
    {
        match self {
            OwnedBindingResource::Buffer(h) => BindingResource::Buffer(*h),
            OwnedBindingResource::TextureView(_, h) => BindingResource::TextureView(*h),
            OwnedBindingResource::Sampler(h) => BindingResource::Sampler(*h),
        }
    }
}

/// Binding index and resource pairs.
#[derive(Clone, Debug)]
pub struct BindingResources(pub Vec<(u32, OwnedBindingResource)>);

/// The bindings of a value, before its bind group exists.
pub struct UnpreparedBindGroup<T> {
    pub bindings: BindingResources,
    pub data: T,
}

/// A bind group made from a value, with its bindings and data.
pub struct PreparedBindGroup<T> {
    pub bindings: BindingResources,
    pub bind_group: BindGroup,
    pub data: T,
}

/// The handles of `bindings`, in order.
pub open spec fn binding_handles(bindings: Seq<(u32, OwnedBindingResource)>) -> Seq<ResourceHandle> {
    bindings.map_values(|b: (u32, OwnedBindingResource)| binding_handle(b.1))
}

/// Turns a value into the bindings of a bind group. Implemented by the
/// types that a shader reads through a bind group.
pub trait AsBindGroup {
    /// Data kept beside the prepared bind group.
    type Data;

    /// The bindings of `self` for a bind group of `layout`, or why there
    /// are none yet.
    fn unprepared_bind_group(&self, layout: &BindGroupLayout, table: &ResourceTable) -> Result<
        UnpreparedBindGroup<Self::Data>,
        AsBindGroupError,
    >;
}

/// The handles of the bindings, in order.
pub fn handles_of(bindings: &Vec<(u32, OwnedBindingResource)>) -> (r: Vec<ResourceHandle>)
    ensures
        r@ == binding_handles(bindings@),
{
    let mut r: Vec<ResourceHandle> = Vec::new();
    let mut i: usize = 0;
    while i < bindings.len()
        invariant
            i <= bindings@.len(),
            r@ == binding_handles(bindings@.take(i as int)),
        decreases bindings@.len() - i,
    {
        let (_, b) = &bindings[i];
        let h = match b {
            OwnedBindingResource::Buffer(h) => *h,
            OwnedBindingResource::TextureView(_, h) => *h,
            OwnedBindingResource::Sampler(h) => *h,
        };
        r.push(h);
        assert(r@ =~= binding_handles(bindings@.take(i + 1)));
        i += 1;
    }
    assert(bindings@.take(i as int) == bindings@);
    r
}

/// Makes a bind group of `layout` from prepared bindings: a composite over
/// the handles of the bindings, in order. Bindings that the table refuses
/// give `InvalidBinding` with the table's reason, and nothing is added.
pub fn prepare_bind_group<D, W>(
    unprepared: UnpreparedBindGroup<D>,
    layout: &BindGroupLayout,
    graph: &mut Graph<W>,
) -> (r: Result<PreparedBindGroup<D>, AsBindGroupError>)
    requires
        old(graph).wf(),
        old(graph).spec_table().spec_entries().len() < usize::MAX,
    ensures
        final(graph).wf(),
        final(graph).spec_nodes() == old(graph).spec_nodes(),
        final(graph).spec_next_layout_id() == old(graph).spec_next_layout_id(),
        r is Ok <==> old(graph).spec_table().members_status(
            binding_handles(unprepared.bindings.0@),
        ) is Ok,
        r is Err ==> final(graph).spec_table() == old(graph).spec_table(),
        r is Err ==> r->Err_0 == AsBindGroupError::InvalidBinding(
            old(graph).spec_table().members_status(binding_handles(unprepared.bindings.0@))->Err_0,
        ),
        r is Ok ==> ({
            let p = r->Ok_0;
            let t0 = old(graph).spec_table();
            let h = slot_handle(t0, t0.spec_entries().len() as int);
            &&& p.bind_group.spec_id() == h
            &&& p.bindings == unprepared.bindings
            &&& p.data == unprepared.data
            &&& final(graph).spec_table().spec_epoch() == t0.spec_epoch()
            &&& final(graph).spec_table().spec_entries().len() == t0.spec_entries().len() + 1
            &&& final(graph).spec_table().spec_entries().drop_last() == t0.spec_entries()
            &&& final(graph).spec_table().meta_of(h).descriptor is BindGroup
            &&& final(graph).spec_table().meta_of(h).descriptor->BindGroup_layout == *layout
            &&& final(graph).spec_table().meta_of(h).descriptor->BindGroup_members@
                == binding_handles(p.bindings.0@)
            &&& !final(graph).spec_table().meta_of(h).fresh
            &&& !final(graph).spec_table().meta_of(h).imported
        }),
{
    let UnpreparedBindGroup { bindings, data } = unprepared;
    let members = handles_of(&bindings.0);
    match graph.new_resource(ResourceDescriptor::BindGroup { layout: *layout, members }) {
        Ok(h) => {
            proof {
                assert(graph.spec_table().spec_entries().drop_last() =~= old(graph).spec_table().spec_entries());
            }
            Ok(PreparedBindGroup { bindings, bind_group: BindGroup::from_handle(h), data })
        },
        Err(e) => Err(AsBindGroupError::InvalidBinding(e)),
    }
}

/// What a graph holds after a bind group of `layout` was made from
/// `bindings` in the slot after those of `t0`.
pub open spec fn bind_group_made<W>(
    t0: ResourceTable,
    g1: Graph<W>,
    layout: BindGroupLayout,
    h: ResourceHandle,
    bindings: Seq<(u32, OwnedBindingResource)>,
) -> bool {
    let t1 = g1.spec_table();
    &&& h == slot_handle(t0, t0.spec_entries().len() as int)
    &&& t0.members_status(binding_handles(bindings)) is Ok
    &&& t1.spec_epoch() == t0.spec_epoch()
    &&& t1.spec_entries().len() == t0.spec_entries().len() + 1
    &&& t1.spec_entries().drop_last() == t0.spec_entries()
    &&& t1.meta_of(h).descriptor is BindGroup
    &&& t1.meta_of(h).descriptor->BindGroup_layout == layout
    &&& t1.meta_of(h).descriptor->BindGroup_members@ == binding_handles(bindings)
    &&& !t1.meta_of(h).fresh
    &&& !t1.meta_of(h).imported
}

/// Finishes a bind group from what an implementor of [`AsBindGroup`]
/// returned: its refusal comes back unchanged and nothing is made; its
/// bindings are prepared as [`prepare_bind_group`] does.
pub fn finish_bind_group<D, W>(
    unprepared: Result<UnpreparedBindGroup<D>, AsBindGroupError>,
    layout: &BindGroupLayout,
    graph: &mut Graph<W>,
) -> (r: Result<PreparedBindGroup<D>, AsBindGroupError>)
    requires
        old(graph).wf(),
        old(graph).spec_table().spec_entries().len() < usize::MAX,
    ensures
        final(graph).wf(),
        final(graph).spec_nodes() == old(graph).spec_nodes(),
        final(graph).spec_next_layout_id() == old(graph).spec_next_layout_id(),
        unprepared is Err ==> r == Err::<PreparedBindGroup<D>, AsBindGroupError>(
            unprepared->Err_0,
        ) && final(graph).spec_table() == old(graph).spec_table(),
        unprepared is Ok ==> {
            let u = unprepared->Ok_0;
            let m = old(graph).spec_table().members_status(binding_handles(u.bindings.0@));
            &&& r is Ok <==> m is Ok
            &&& r is Err ==> r->Err_0 == AsBindGroupError::InvalidBinding(m->Err_0)
                && final(graph).spec_table() == old(graph).spec_table()
            &&& r is Ok ==> r->Ok_0.bindings == u.bindings && r->Ok_0.data == u.data
                && bind_group_made(
                old(graph).spec_table(),
                *final(graph),
                *layout,
                r->Ok_0.bind_group.spec_id(),
                u.bindings.0@,
            )
        },
{
    match unprepared {
        Ok(u) => prepare_bind_group(u, layout, graph),
        Err(e) => Err(e),
    }
}

/// Makes the bind group of `value` for `layout` in the frame's table, from
/// the value's bindings; see [`finish_bind_group`].
pub fn as_bind_group<T: AsBindGroup, W>(
    value: &T,
    layout: &BindGroupLayout,
    graph: &mut Graph<W>,
) -> (r: Result<PreparedBindGroup<T::Data>, AsBindGroupError>)
    requires
        old(graph).wf(),
        old(graph).spec_table().spec_entries().len() < usize::MAX,
    ensures
        final(graph).wf(),
        final(graph).spec_nodes() == old(graph).spec_nodes(),
        final(graph).spec_next_layout_id() == old(graph).spec_next_layout_id(),
        r is Err ==> final(graph).spec_table() == old(graph).spec_table(),
        r is Ok ==> bind_group_made(
            old(graph).spec_table(),
            *final(graph),
            *layout,
            r->Ok_0.bind_group.spec_id(),
            r->Ok_0.bindings.0@,
        ),
{
    let unprepared = value.unprepared_bind_group(layout, graph.table());
    finish_bind_group(unprepared, layout, graph)
}

/// Converts a value to the data a shader reads from a uniform of a bind
/// group, looking up what it needs in the frame's table.
pub trait AsBindGroupShaderType<T> {
    fn as_bind_group_shader_type(&self, table: &ResourceTable) -> T;
}

} // verus!
