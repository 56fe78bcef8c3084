use crate::bind_group::BindGroupLayout;
use crate::error::RenderGraphError;
use vstd::prelude::*;

verus! {

/// A non-owning reference to a slot of a frame's resource table.
///
/// `epoch` is the frame in which the slot was made; a handle is live only in
/// the table of that frame.
#[derive(Clone, Copy, Debug, PartialEq, Eq, Structural)]
pub struct ResourceHandle {
    pub index: usize,
    pub epoch: u64,
}

/// Pixel formats of textures and render targets.
#[derive(Clone, Copy, Debug, PartialEq, Eq, Structural)]
pub enum TextureFormat {
    Rgba8Unorm,
    Rgba8UnormSrgb,
    Bgra8UnormSrgb,
    Rgba16Float,
    Rgba32Float,
    Depth32Float,
}

/// How a fragment's colour is combined with the target's.
#[derive(Clone, Copy, Debug, PartialEq, Eq, Structural)]
pub enum BlendMode {
    Replace,
    AlphaBlending,
    PremultipliedAlphaBlending,
}

/// The vertex stage of a pipeline: a shader, named by its asset path, and
/// its entry point.
#[derive(Clone, Debug)]
pub struct VertexState {
    pub shader: String,
    pub entry_point: String,
}

/// One colour target of a fragment stage.
#[derive(Clone, Copy, Debug, PartialEq, Eq, Structural)]
pub struct ColorTargetState {
    pub format: TextureFormat,
    pub blend: Option<BlendMode>,
}

/// The fragment stage of a pipeline.
#[derive(Clone, Debug)]
pub struct FragmentState {
    pub shader: String,
    pub entry_point: String,
    pub targets: Vec<ColorTargetState>,
}

/// What a render pipeline is built from.
#[derive(Clone, Debug)]
pub struct RenderPipelineDescriptor {
    pub label: Option<String>,
    pub layout: Vec<BindGroupLayout>,
    pub vertex: VertexState,
    pub fragment: Option<FragmentState>,
}

/// What the table records of a resource when it is made.
#[allow(inconsistent_fields)]
#[derive(Clone, Debug)]
pub enum ResourceDescriptor {
    Texture { width: u32, height: u32, format: TextureFormat, usage: u32 },
    /// A view of a texture of the same frame; `None` takes the texture's format.
    TextureView { texture: ResourceHandle, format: Option<TextureFormat> },
    Buffer { size: u64, usage: u32 },
    Sampler,
    /// A composite: a bind group over member resources of the same frame.
    BindGroup { layout: BindGroupLayout, members: Vec<ResourceHandle> },
    RenderPipeline(RenderPipelineDescriptor),
}

/// A table slot: the descriptor and the per-frame freshness flag.
///
/// `fresh` is false until some node records a write of the resource in this
/// frame, and true from then on. `imported` marks a resource whose contents
/// existed before the frame.
#[derive(Clone, Debug)]
pub struct ResourceMeta {
    pub descriptor: ResourceDescriptor,
    pub fresh: bool,
    pub imported: bool,
}

/// The resources of one frame, owned by that frame's graph.
pub struct ResourceTable {
    epoch: u64,
    entries: Vec<ResourceMeta>,
}

impl ResourceTable {
    pub closed spec fn spec_epoch(&self) -> u64 {
        self.epoch
    }

    pub closed spec fn spec_entries(&self) -> Seq<ResourceMeta> {
        self.entries@
    }

    /// Whether `h` names a slot of this table.
    pub open spec fn is_live(&self, h: ResourceHandle) -> bool {
        h.epoch == self.spec_epoch() && h.index < self.spec_entries().len()
    }

    /// The meta of a live handle.
    pub open spec fn meta_of(&self, h: ResourceHandle) -> ResourceMeta {
        self.spec_entries()[h.index as int]
    }

    /// What authoring code gets for a handle: an earlier frame's handle is
    /// stale, any other that is not live is invalid.
    pub open spec fn handle_status(&self, h: ResourceHandle) -> Result<(), RenderGraphError> {
        if h.epoch < self.spec_epoch() {
            Err(RenderGraphError::StaleHandle)
        } else if !self.is_live(h) {
            Err(RenderGraphError::InvalidHandle)
        } else {
            Ok(())
        }
    }

    /// A member of a composite must be live and not itself a composite.
    pub open spec fn member_status(&self, h: ResourceHandle) -> Result<(), RenderGraphError> {
        match self.handle_status(h) {
            Err(e) => Err(e),
            Ok(_) => if self.meta_of(h).descriptor is BindGroup {
                Err(RenderGraphError::UnsupportedResource)
            } else {
                Ok(())
            },
        }
    }

    /// The status of the first member of `ms` that fails, or `Ok`.
    pub open spec fn members_status(&self, ms: Seq<ResourceHandle>) -> Result<(), RenderGraphError>
        decreases ms.len(),
    {
        if ms.len() == 0 {
            Ok(())
        } else {
            match self.members_status(ms.drop_last()) {
                Err(e) => Err(e),
                Ok(_) => self.member_status(ms.last()),
            }
        }
    }

    /// The status of the first handle of `hs` that is not live, or `Ok`.
    pub open spec fn handles_status(&self, hs: Seq<ResourceHandle>) -> Result<(), RenderGraphError>
        decreases hs.len(),
    {
        if hs.len() == 0 {
            Ok(())
        } else {
            match self.handles_status(hs.drop_last()) {
                Err(e) => Err(e),
                Ok(_) => self.handle_status(hs.last()),
            }
        }
    }

    /// Whether the table can hold a resource of description `d`.
    pub open spec fn descriptor_status(&self, d: ResourceDescriptor) -> Result<(), RenderGraphError> {
        match d {
            ResourceDescriptor::Texture { width, height, usage, .. } => {
                if width == 0 || height == 0 || usage == 0 {
                    Err(RenderGraphError::UnsupportedResource)
                } else {
                    Ok(())
                }
            },
            ResourceDescriptor::TextureView { texture, .. } => match self.handle_status(texture) {
                Err(e) => Err(e),
                Ok(_) => if self.meta_of(texture).descriptor is Texture {
                    Ok(())
                } else {
                    Err(RenderGraphError::UnsupportedResource)
                },
            },
            ResourceDescriptor::Buffer { size, usage } => {
                if size == 0 || usage == 0 {
                    Err(RenderGraphError::UnsupportedResource)
                } else {
                    Ok(())
                }
            },
            ResourceDescriptor::Sampler => Ok(()),
            ResourceDescriptor::BindGroup { members, .. } => self.members_status(members@),
            ResourceDescriptor::RenderPipeline(_) => Ok(()),
        }
    }

    /// The slots fit in `usize`, and every member of every bind group of the
    /// table is live and no composite.
    pub open spec fn wf(&self) -> bool {
        &&& self.spec_entries().len() <= usize::MAX
        &&& forall|i: int|
            0 <= i < self.spec_entries().len() ==> (#[trigger] self.spec_entries()[i]).descriptor
                is BindGroup ==> self.members_status(
                self.spec_entries()[i].descriptor->BindGroup_members@,
            ) is Ok
    }

    /// An empty table for the frame `epoch`.
    pub fn new(epoch: u64) -> (r: ResourceTable)
        ensures
            r.spec_epoch() == epoch,
            r.spec_entries().len() == 0,
            r.wf(),
    {
        ResourceTable { epoch, entries: Vec::new() }
    }

    pub fn epoch(&self) -> (r: u64)
        ensures
            r == self.spec_epoch(),
    {
        self.epoch
    }

    pub fn len(&self) -> (r: usize)
        ensures
            r == self.spec_entries().len(),
    {
        self.entries.len()
    }

    /// Tells an earlier frame's handle (stale) from any other that is not
    /// live (invalid).
    pub fn check_handle(&self, h: ResourceHandle) -> (r: Result<(), RenderGraphError>)
        ensures
            r == self.handle_status(h),
    {
        if h.epoch < self.epoch {
            Err(RenderGraphError::StaleHandle)
        } else if h.epoch != self.epoch || h.index >= self.entries.len() {
            Err(RenderGraphError::InvalidHandle)
        } else {
            Ok(())
        }
    }

    /// Checks one member of a composite: live, and no composite itself.
    pub fn check_member(&self, h: ResourceHandle) -> (r: Result<(), RenderGraphError>)
        ensures
            r == self.member_status(h),
    {
        match self.check_handle(h) {
            Err(e) => Err(e),
            Ok(_) => match &self.entries[h.index].descriptor {
                ResourceDescriptor::BindGroup { .. } => Err(RenderGraphError::UnsupportedResource),
                _ => Ok(()),
            },
        }
    }

    /// Checks the members of a composite in order; the first failure wins.
    pub fn check_members(&self, ms: &[ResourceHandle]) -> (r: Result<(), RenderGraphError>)
        ensures
            r == self.members_status(ms@),
    {
        let mut i: usize = 0;
        while i < ms.len()
            invariant
                i <= ms@.len(),
                self.members_status(ms@.take(i as int)) is Ok,
            decreases ms@.len() - i,
        {
            assert(ms@.take(i + 1).drop_last() == ms@.take(i as int));
            let c = self.check_member(ms[i]);
            if c.is_err() {
                proof {
                    assert(self.members_status(ms@.take(i + 1)) == c);
                    lemma_members_status_prefix(*self, ms@, i + 1);
                }
                return c;
            }
            i += 1;
        }
        assert(ms@.take(i as int) == ms@);
        Ok(())
    }

    /// Checks a list of handles in order; the first that is not live fails.
    pub fn check_handles(&self, hs: &[ResourceHandle]) -> (r: Result<(), RenderGraphError>)
        ensures
            r == self.handles_status(hs@),
            r is Ok ==> forall|k: int| 0 <= k < hs@.len() ==> self.is_live(#[trigger] hs@[k]),
    {
        let mut i: usize = 0;
        while i < hs.len()
            invariant
                i <= hs@.len(),
                self.handles_status(hs@.take(i as int)) is Ok,
                forall|k: int| 0 <= k < i ==> self.is_live(#[trigger] hs@[k]),
            decreases hs@.len() - i,
        {
            assert(hs@.take(i + 1).drop_last() == hs@.take(i as int));
            let c = self.check_handle(hs[i]);
            if c.is_err() {
                proof {
                    assert(self.handles_status(hs@.take(i + 1)) == c);
                    lemma_handles_status_prefix(*self, hs@, i + 1);
                }
                return c;
            }
            i += 1;
        }
        assert(hs@.take(i as int) == hs@);
        Ok(())
    }

    /// Checks that the table can hold a resource of description `d`.
    pub fn check_descriptor(&self, d: &ResourceDescriptor) -> (r: Result<(), RenderGraphError>)
        ensures
            r == self.descriptor_status(*d),
    {
        match d {
            ResourceDescriptor::Texture { width, height, usage, .. } => {
                if *width == 0 || *height == 0 || *usage == 0 {
                    Err(RenderGraphError::UnsupportedResource)
                } else {
                    Ok(())
                }
            },
            ResourceDescriptor::TextureView { texture, .. } => match self.check_handle(*texture) {
                Err(e) => Err(e),
                Ok(_) => match &self.entries[texture.index].descriptor {
                    ResourceDescriptor::Texture { .. } => Ok(()),
                    _ => Err(RenderGraphError::UnsupportedResource),
                },
            },
            ResourceDescriptor::Buffer { size, usage } => {
                if *size == 0 || *usage == 0 {
                    Err(RenderGraphError::UnsupportedResource)
                } else {
                    Ok(())
                }
            },
            ResourceDescriptor::Sampler => Ok(()),
            ResourceDescriptor::BindGroup { members, .. } => self.check_members(members.as_slice()),
            ResourceDescriptor::RenderPipeline(_) => Ok(()),
        }
    }

    fn push_checked(&mut self, descriptor: ResourceDescriptor, imported: bool) -> (r: Result<
        ResourceHandle,
        RenderGraphError,
    >)
        requires
            old(self).wf(),
            old(self).spec_entries().len() < usize::MAX,
        ensures
            final(self).wf(),
            final(self).spec_epoch() == old(self).spec_epoch(),
            r is Ok <==> old(self).descriptor_status(descriptor) is Ok,
            r is Ok ==> r->Ok_0 == (ResourceHandle {
                index: old(self).spec_entries().len() as usize,
                epoch: old(self).spec_epoch(),
            }) && final(self).spec_entries() == old(self).spec_entries().push(
                ResourceMeta { descriptor, fresh: false, imported },
            ),
            r is Err ==> r->Err_0 == old(self).descriptor_status(descriptor)->Err_0
                && *final(self) == *old(self),
    {
        match self.check_descriptor(&descriptor) {
            Err(e) => Err(e),
            Ok(_) => {
                let index = self.entries.len();
                let ghost before = self.entries@;
                self.entries.push(ResourceMeta { descriptor, fresh: false, imported });
                proof {
                    assert forall|i: int|
                        0 <= i < self.entries@.len() && (#[trigger] self.entries@[i]).descriptor
                            is BindGroup implies self.members_status(
                        self.entries@[i].descriptor->BindGroup_members@,
                    ) is Ok by {
                        let ms = self.entries@[i].descriptor->BindGroup_members@;
                        if i < before.len() {
                            assert(self.entries@[i] == before[i]);
                        }
                        lemma_members_status_kept(*old(self), *self, ms);
                    }
                }
                Ok(ResourceHandle { index, epoch: self.epoch })
            },
        }
    }

    /// Makes a resource of this frame; fresh is false until its first write.
    pub fn create(&mut self, descriptor: ResourceDescriptor) -> (r: Result<
        ResourceHandle,
        RenderGraphError,
    >)
        requires
            old(self).wf(),
            old(self).spec_entries().len() < usize::MAX,
        ensures
            final(self).wf(),
            final(self).spec_epoch() == old(self).spec_epoch(),
            r is Ok <==> old(self).descriptor_status(descriptor) is Ok,
            r is Ok ==> r->Ok_0 == (ResourceHandle {
                index: old(self).spec_entries().len() as usize,
                epoch: old(self).spec_epoch(),
            }) && final(self).spec_entries() == old(self).spec_entries().push(
                ResourceMeta { descriptor, fresh: false, imported: false },
            ),
            r is Err ==> r->Err_0 == old(self).descriptor_status(descriptor)->Err_0
                && *final(self) == *old(self),
    {
        self.push_checked(descriptor, false)
    }

    /// Brings in a resource whose contents existed before this frame; its
    /// first write may load them.
    pub fn import(&mut self, descriptor: ResourceDescriptor) -> (r: Result<
        ResourceHandle,
        RenderGraphError,
    >)
        requires
            old(self).wf(),
            old(self).spec_entries().len() < usize::MAX,
        ensures
            final(self).wf(),
            final(self).spec_epoch() == old(self).spec_epoch(),
            r is Ok <==> old(self).descriptor_status(descriptor) is Ok,
            r is Ok ==> r->Ok_0 == (ResourceHandle {
                index: old(self).spec_entries().len() as usize,
                epoch: old(self).spec_epoch(),
            }) && final(self).spec_entries() == old(self).spec_entries().push(
                ResourceMeta { descriptor, fresh: false, imported: true },
            ),
            r is Err ==> r->Err_0 == old(self).descriptor_status(descriptor)->Err_0
                && *final(self) == *old(self),
    {
        self.push_checked(descriptor, true)
    }

    /// Resolves a handle to its resource. A handle of another epoch, or out
    /// of range, is invalid: no other frame's resource is ever returned.
    pub fn resolve(&self, h: ResourceHandle) -> (r: Result<&ResourceDescriptor, RenderGraphError>)
        ensures
            r is Ok <==> self.is_live(h),
            r is Ok ==> *r->Ok_0 == self.meta_of(h).descriptor,
            r is Err ==> r->Err_0 == RenderGraphError::InvalidHandle,
    {
        if h.epoch != self.epoch || h.index >= self.entries.len() {
            Err(RenderGraphError::InvalidHandle)
        } else {
            Ok(&self.entries[h.index].descriptor)
        }
    }

    /// The meta of a handle, for policy decisions without resolving it.
    pub fn meta(&self, h: ResourceHandle) -> (r: Result<&ResourceMeta, RenderGraphError>)
        ensures
            r is Ok <==> self.handle_status(h) is Ok,
            r is Ok ==> *r->Ok_0 == self.meta_of(h),
            r is Err ==> r->Err_0 == self.handle_status(h)->Err_0,
    {
        match self.check_handle(h) {
            Err(e) => Err(e),
            Ok(_) => Ok(&self.entries[h.index]),
        }
    }

    /// Whether a write of the resource has been recorded in this frame.
    pub fn is_fresh(&self, h: ResourceHandle) -> (r: bool)
        requires
            self.is_live(h),
        ensures
            r == self.meta_of(h).fresh,
    {
        self.entries[h.index].fresh
    }

    /// Records that a write of the resource has claimed first-write rights.
    pub(crate) fn mark_fresh(&mut self, h: ResourceHandle)
        requires
            old(self).wf(),
            old(self).is_live(h),
        ensures
            final(self).wf(),
            final(self).spec_epoch() == old(self).spec_epoch(),
            final(self).spec_entries() == old(self).spec_entries().update(
                h.index as int,
                ResourceMeta { fresh: true, ..old(self).meta_of(h) },
            ),
    {
        let ghost before = self.entries@;
        self.entries[h.index].fresh = true;
        assert(forall|i: int|
            0 <= i < before.len() ==> (#[trigger] self.entries@[i]).descriptor == before[i].descriptor);
        proof {
            assert forall|i: int|
                0 <= i < self.entries@.len() && (#[trigger] self.entries@[i]).descriptor
                    is BindGroup implies self.members_status(
                self.entries@[i].descriptor->BindGroup_members@,
            ) is Ok by {
                let ms = self.entries@[i].descriptor->BindGroup_members@;
                assert(before[i].descriptor == self.entries@[i].descriptor);
                lemma_members_status_kept(*old(self), *self, ms);
            }
        }
    }
}


/// Once the members of a composite check out in a table, they check out in
/// any table of the same epoch that keeps its slots' descriptors and may add
/// slots.
proof fn lemma_members_status_kept(t1: ResourceTable, t2: ResourceTable, ms: Seq<ResourceHandle>)
    requires
        t1.spec_epoch() == t2.spec_epoch(),
        t1.spec_entries().len() <= t2.spec_entries().len(),
        forall|i: int|
            0 <= i < t1.spec_entries().len() ==> (#[trigger] t2.spec_entries()[i]).descriptor
                == t1.spec_entries()[i].descriptor,
        t1.members_status(ms) is Ok,
    ensures
        t2.members_status(ms) is Ok,
    decreases ms.len(),
{
    if ms.len() > 0 {
        lemma_members_status_kept(t1, t2, ms.drop_last());
        let h = ms.last();
        assert(t2.spec_entries()[h.index as int].descriptor == t1.spec_entries()[h.index as int].descriptor);
    }
}

/// A failure among the first `k` handles is the failure of the whole list.
proof fn lemma_handles_status_prefix(t: ResourceTable, hs: Seq<ResourceHandle>, k: int)
    requires
        0 <= k <= hs.len(),
        t.handles_status(hs.take(k)) is Err,
    ensures
        t.handles_status(hs) == t.handles_status(hs.take(k)),
    decreases hs.len() - k,
{
    if k < hs.len() {
        assert(hs.take(k + 1).drop_last() == hs.take(k));
        lemma_handles_status_prefix(t, hs, k + 1);
    } else {
        assert(hs.take(k) == hs);
    }
}

/// A failure among the first `k` members is the failure of the whole list.
proof fn lemma_members_status_prefix(t: ResourceTable, ms: Seq<ResourceHandle>, k: int)
    requires
        0 <= k <= ms.len(),
        t.members_status(ms.take(k)) is Err,
    ensures
        t.members_status(ms) == t.members_status(ms.take(k)),
    decreases ms.len() - k,
{
    if k < ms.len() {
        assert(ms.take(k + 1).drop_last() == ms.take(k));
        lemma_members_status_prefix(t, ms, k + 1);
    } else {
        assert(ms.take(k) == ms);
    }
}

} // verus!
