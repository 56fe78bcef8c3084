use crate::error::RenderGraphError;
use crate::resource::{ResourceDescriptor, ResourceHandle, ResourceTable};
use vstd::prelude::*;

verus! {

/// `s` with `h` added at the end unless it is there already.
pub open spec fn add_unique(s: Seq<ResourceHandle>, h: ResourceHandle) -> Seq<ResourceHandle> {
    if s.contains(h) {
        s
    } else {
        s.push(h)
    }
}

/// The resources a node reads and the ones it writes. A handle may stand in
/// both (read-modify-write). Only the sets matter to scheduling; each list
/// holds a handle at most once.
#[derive(Clone, Debug)]
pub struct DependencySet {
    pub reads: Vec<ResourceHandle>,
    pub writes: Vec<ResourceHandle>,
}

/// Whether `v` holds `h`.
pub fn contains_handle(v: &[ResourceHandle], h: ResourceHandle) -> (r: bool)
    ensures
        r == v@.contains(h),
{
    let mut i: usize = 0;
    while i < v.len()
        invariant
            i <= v@.len(),
            forall|k: int| 0 <= k < i ==> v@[k] != h,
        decreases v@.len() - i,
    {
        if v[i] == h {
            return true;
        }
        i += 1;
    }
    false
}

impl DependencySet {
    pub fn new() -> (r: DependencySet)
        ensures
            r.reads@ == Seq::<ResourceHandle>::empty(),
            r.writes@ == Seq::<ResourceHandle>::empty(),
    {
        DependencySet { reads: Vec::new(), writes: Vec::new() }
    }

    /// Declares a read of `h`; a second declaration changes nothing. A handle
    /// that is not live in `table` is refused here, not at execution.
    pub fn read(&mut self, table: &ResourceTable, h: ResourceHandle) -> (r: Result<
        (),
        RenderGraphError,
    >)
        ensures
            r == table.handle_status(h),
            final(self).writes@ == old(self).writes@,
            r is Ok ==> final(self).reads@ == add_unique(old(self).reads@, h),
            r is Err ==> final(self).reads@ == old(self).reads@,
    {
        let c = table.check_handle(h);
        if c.is_ok() && !contains_handle(self.reads.as_slice(), h) {
            self.reads.push(h);
        }
        c
    }

    /// Declares a write of `h`; a second declaration changes nothing. A
    /// handle that is not live in `table` is refused here.
    pub fn write(&mut self, table: &ResourceTable, h: ResourceHandle) -> (r: Result<
        (),
        RenderGraphError,
    >)
        ensures
            r == table.handle_status(h),
            final(self).reads@ == old(self).reads@,
            r is Ok ==> final(self).writes@ == add_unique(old(self).writes@, h),
            r is Err ==> final(self).writes@ == old(self).writes@,
    {
        let c = table.check_handle(h);
        if c.is_ok() && !contains_handle(self.writes.as_slice(), h) {
            self.writes.push(h);
        }
        c
    }

    /// Folds a composite's members into the read set. A member that is not
    /// live, or is itself a composite, refuses the whole list and nothing is
    /// added.
    pub fn add_composite(&mut self, table: &ResourceTable, members: &[ResourceHandle]) -> (r: Result<
        (),
        RenderGraphError,
    >)
        ensures
            r == table.members_status(members@),
            final(self).writes@ == old(self).writes@,
            r is Ok ==> final(self).reads@.to_set() == old(self).reads@.to_set().union(
                members@.to_set(),
            ),
            r is Err ==> final(self).reads@ == old(self).reads@,
    {
        let c = table.check_members(members);
        if c.is_err() {
            return c;
        }
        let mut i: usize = 0;
        while i < members.len()
            invariant
                i <= members@.len(),
                self.writes@ == old(self).writes@,
                self.reads@.to_set() == old(self).reads@.to_set().union(
                    members@.take(i as int).to_set(),
                ),
            decreases members@.len() - i,
        {
            let h = members[i];
            let ghost before = self.reads@;
            if !contains_handle(self.reads.as_slice(), h) {
                self.reads.push(h);
            }
            proof {
                assert(members@.take(i + 1) == members@.take(i as int).push(h));
                lemma_add_unique_set(before, h);
                assert(members@.take(i + 1).to_set() == members@.take(i as int).to_set().insert(h))
                    by {
                    members@.take(i as int).lemma_push_to_set_commute(h);
                }
            }
            i += 1;
        }
        assert(members@.take(i as int) == members@);
        c
    }

    /// Declares a read of a bind group and of each of its members, so that
    /// the node runs after the last writer of any member.
    pub fn add_bind_group(&mut self, table: &ResourceTable, bind_group: ResourceHandle) -> (r: Result<
        (),
        RenderGraphError,
    >)
        requires
            table.wf(),
        ensures
            r is Ok <==> table.handle_status(bind_group) is Ok && table.meta_of(bind_group).descriptor
                is BindGroup,
            r is Err && table.handle_status(bind_group) is Err ==> r == table.handle_status(
                bind_group,
            ),
            r is Err && table.handle_status(bind_group) is Ok ==> r == Err::<(), RenderGraphError>(
                RenderGraphError::UnsupportedResource,
            ),
            final(self).writes@ == old(self).writes@,
            r is Ok ==> final(self).reads@.to_set() == old(self).reads@.to_set().insert(
                bind_group,
            ).union(table.meta_of(bind_group).descriptor->BindGroup_members@.to_set()),
            r is Err ==> final(self).reads@ == old(self).reads@,
    {
        let c = table.check_handle(bind_group);
        if c.is_err() {
            return c;
        }
        match table.resolve(bind_group) {
            Ok(ResourceDescriptor::BindGroup { members, .. }) => {
                let ghost before = self.reads@;
                if !contains_handle(self.reads.as_slice(), bind_group) {
                    self.reads.push(bind_group);
                }
                proof {
                    lemma_add_unique_set(before, bind_group);
                    assert(table.members_status(
                        table.spec_entries()[bind_group.index as int].descriptor->BindGroup_members@,
                    ) is Ok);
                }
                let r = self.add_composite(table, members.as_slice());
                r
            },
            _ => Err(RenderGraphError::UnsupportedResource),
        }
    }
}

/// As a set, `add_unique` inserts.
pub proof fn lemma_add_unique_set(s: Seq<ResourceHandle>, h: ResourceHandle)
    ensures
        add_unique(s, h).to_set() == s.to_set().insert(h),
{
    if s.contains(h) {
        assert(s.to_set().insert(h) =~= s.to_set());
    } else {
        s.lemma_push_to_set_commute(h);
    }
}

} // verus!
