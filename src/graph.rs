use crate::bind_group::{BindGroupLayout, BindGroupLayoutId};
use crate::deps::DependencySet;
use crate::error::RenderGraphError;
use crate::resource::{ResourceDescriptor, ResourceHandle, ResourceMeta, ResourceTable};
use vstd::prelude::*;
use vstd::seq_lib::lemma_seq_contains_after_push;

verus! {

/// A schedulable pass: an optional label for diagnostics, what it reads and
/// writes, and the deferred work that runs when its turn comes. The work
/// holds handles only, never resolved objects.
pub struct Node<W> {
    pub label: Option<String>,
    pub deps: DependencySet,
    pub work: W,
}

/// A frame's graph: its resource table, its nodes in authoring order, and
/// the next bind group layout id to hand out (ids stay unique across frames).
pub struct Graph<W> {
    table: ResourceTable,
    nodes: Vec<Node<W>>,
    next_layout_id: u64,
}

/// The handles of node `d` that the table must hold: reads first, then writes.
pub open spec fn deps_status(t: ResourceTable, d: DependencySet) -> Result<(), RenderGraphError> {
    match t.handles_status(d.reads@) {
        Err(e) => Err(e),
        Ok(_) => t.handles_status(d.writes@),
    }
}

/// The handle of slot `index` of table `t`.
pub open spec fn slot_handle(t: ResourceTable, index: int) -> ResourceHandle {
    ResourceHandle { index: index as usize, epoch: t.spec_epoch() }
}

impl<W> Graph<W> {
    pub closed spec fn spec_table(&self) -> ResourceTable {
        self.table
    }

    pub closed spec fn spec_nodes(&self) -> Seq<Node<W>> {
        self.nodes@
    }

    pub closed spec fn spec_next_layout_id(&self) -> u64 {
        self.next_layout_id
    }

    /// Whether some recorded node writes `h`.
    pub open spec fn write_recorded(&self, h: ResourceHandle) -> bool {
        exists|i: int|
            0 <= i < self.spec_nodes().len() && (#[trigger] self.spec_nodes()[i]).deps.writes@.contains(
                h,
            )
    }

    /// Every handle a node declares is live, and a resource is fresh exactly
    /// when some recorded node writes it.
    pub open spec fn wf(&self) -> bool {
        &&& self.spec_table().wf()
        &&& forall|i: int, k: int|
            0 <= i < self.spec_nodes().len() && 0 <= k < self.spec_nodes()[i].deps.reads@.len()
                ==> self.spec_table().is_live(#[trigger] self.spec_nodes()[i].deps.reads@[k])
        &&& forall|i: int, k: int|
            0 <= i < self.spec_nodes().len() && 0 <= k < self.spec_nodes()[i].deps.writes@.len()
                ==> self.spec_table().is_live(#[trigger] self.spec_nodes()[i].deps.writes@[k])
        &&& forall|idx: int|
            0 <= idx < self.spec_table().spec_entries().len() ==> (#[trigger] self.spec_table().spec_entries()[idx]).fresh
                == self.write_recorded(slot_handle(self.spec_table(), idx))
    }

    /// An empty graph for frame `epoch`.
    pub fn new(epoch: u64) -> (r: Graph<W>)
        ensures
            r.wf(),
            r.spec_table().spec_epoch() == epoch,
            r.spec_table().spec_entries().len() == 0,
            r.spec_nodes().len() == 0,
            r.spec_next_layout_id() == 0,
    {
        Graph { table: ResourceTable::new(epoch), nodes: Vec::new(), next_layout_id: 0 }
    }

    /// Closes this frame and opens the next one, whose handles carry the next
    /// epoch; every handle of this frame becomes stale.
    pub fn next_frame(self) -> (r: Graph<W>)
        requires
            self.spec_table().spec_epoch() < u64::MAX,
        ensures
            r.wf(),
            r.spec_table().spec_epoch() == self.spec_table().spec_epoch() + 1,
            r.spec_table().spec_entries().len() == 0,
            r.spec_nodes().len() == 0,
            r.spec_next_layout_id() == self.spec_next_layout_id(),
    {
        Graph {
            table: ResourceTable::new(self.table.epoch() + 1),
            nodes: Vec::new(),
            next_layout_id: self.next_layout_id,
        }
    }

    /// Hands out a bind group layout with an id not handed out before.
    pub fn new_bind_group_layout(&mut self) -> (r: BindGroupLayout)
        requires
            old(self).spec_next_layout_id() < u64::MAX,
        ensures
            r.spec_id() == BindGroupLayoutId(old(self).spec_next_layout_id()),
            final(self).spec_next_layout_id() == old(self).spec_next_layout_id() + 1,
            final(self).spec_table() == old(self).spec_table(),
            final(self).spec_nodes() == old(self).spec_nodes(),
            final(self).wf() == old(self).wf(),
    {
        let id = self.next_layout_id;
        self.next_layout_id = id + 1;
        BindGroupLayout::from_id(BindGroupLayoutId(id))
    }

    pub fn table(&self) -> (r: &ResourceTable)
        ensures
            *r == self.spec_table(),
    {
        &self.table
    }

    pub fn node_count(&self) -> (r: usize)
        ensures
            r == self.spec_nodes().len(),
    {
        self.nodes.len()
    }

    pub fn node(&self, i: usize) -> (r: &Node<W>)
        requires
            i < self.spec_nodes().len(),
        ensures
            *r == self.spec_nodes()[i as int],
    {
        &self.nodes[i]
    }

    /// Makes a resource of this frame. Its freshness flag starts false.
    pub fn new_resource(&mut self, descriptor: ResourceDescriptor) -> (r: Result<
        ResourceHandle,
        RenderGraphError,
    >)
        requires
            old(self).wf(),
            old(self).spec_table().spec_entries().len() < usize::MAX,
        ensures
            final(self).wf(),
            final(self).spec_nodes() == old(self).spec_nodes(),
            final(self).spec_next_layout_id() == old(self).spec_next_layout_id(),
            final(self).spec_table().spec_epoch() == old(self).spec_table().spec_epoch(),
            r is Ok <==> old(self).spec_table().descriptor_status(descriptor) is Ok,
            r is Ok ==> r->Ok_0 == slot_handle(
                old(self).spec_table(),
                old(self).spec_table().spec_entries().len() as int,
            ) && final(self).spec_table().spec_entries() == old(
                self,
            ).spec_table().spec_entries().push(
                ResourceMeta { descriptor, fresh: false, imported: false },
            ),
            r is Err ==> r->Err_0 == old(self).spec_table().descriptor_status(descriptor)->Err_0
                && final(self).spec_table() == old(self).spec_table(),
    {
        let r = self.table.create(descriptor);
        proof {
            if r is Ok {
                assert(self.table.spec_entries().drop_last() =~= old(self).table.spec_entries());
            }
            self.lemma_wf_after_push(*old(self));
        }
        r
    }

    /// Brings in a resource whose contents existed before this frame.
    pub fn import_resource(&mut self, descriptor: ResourceDescriptor) -> (r: Result<
        ResourceHandle,
        RenderGraphError,
    >)
        requires
            old(self).wf(),
            old(self).spec_table().spec_entries().len() < usize::MAX,
        ensures
            final(self).wf(),
            final(self).spec_nodes() == old(self).spec_nodes(),
            final(self).spec_next_layout_id() == old(self).spec_next_layout_id(),
            final(self).spec_table().spec_epoch() == old(self).spec_table().spec_epoch(),
            r is Ok <==> old(self).spec_table().descriptor_status(descriptor) is Ok,
            r is Ok ==> r->Ok_0 == slot_handle(
                old(self).spec_table(),
                old(self).spec_table().spec_entries().len() as int,
            ) && final(self).spec_table().spec_entries() == old(
                self,
            ).spec_table().spec_entries().push(
                ResourceMeta { descriptor, fresh: false, imported: true },
            ),
            r is Err ==> r->Err_0 == old(self).spec_table().descriptor_status(descriptor)->Err_0
                && final(self).spec_table() == old(self).spec_table(),
    {
        let r = self.table.import(descriptor);
        proof {
            if r is Ok {
                assert(self.table.spec_entries().drop_last() =~= old(self).table.spec_entries());
            }
            self.lemma_wf_after_push(*old(self));
        }
        r
    }

    /// After the table gained a slot (or not), with the nodes as they were,
    /// the graph is still well formed.
    proof fn lemma_wf_after_push(&self, before: Graph<W>)
        requires
            before.wf(),
            self.spec_nodes() == before.spec_nodes(),
            self.spec_table().wf(),
            self.spec_table().spec_epoch() == before.spec_table().spec_epoch(),
            self.spec_table() == before.spec_table() || (
            self.spec_table().spec_entries().len() == before.spec_table().spec_entries().len() + 1
                && self.spec_table().spec_entries().drop_last()
                == before.spec_table().spec_entries()
                && !self.spec_table().spec_entries().last().fresh),
        ensures
            self.wf(),
    {
        if self.spec_table() != before.spec_table() {
            let t = self.spec_table();
            let n = before.spec_table().spec_entries().len();
            assert forall|idx: int|
                0 <= idx < t.spec_entries().len() implies (#[trigger] t.spec_entries()[idx]).fresh
                    == self.write_recorded(slot_handle(t, idx)) by {
                if idx < n {
                    assert(t.spec_entries()[idx] == before.spec_table().spec_entries()[idx]);
                    assert(before.spec_table().spec_entries()[idx].fresh == before.write_recorded(
                        slot_handle(t, idx),
                    ));
                } else {
                    if self.write_recorded(slot_handle(t, idx)) {
                        let i = choose|i: int|
                            0 <= i < self.spec_nodes().len()
                                && (#[trigger] self.spec_nodes()[i]).deps.writes@.contains(
                                slot_handle(t, idx),
                            );
                        let ws = self.spec_nodes()[i].deps.writes@;
                        let k = choose|k: int| 0 <= k < ws.len() && ws[k] == slot_handle(t, idx);
                        assert(before.spec_table().is_live(before.spec_nodes()[i].deps.writes@[k]));
                    }
                }
            }
        }
    }

    /// The meta of a handle, for policy decisions by authoring code.
    pub fn meta(&self, h: ResourceHandle) -> (r: Result<&ResourceMeta, RenderGraphError>)
        ensures
            r is Ok <==> self.spec_table().handle_status(h) is Ok,
            r is Ok ==> *r->Ok_0 == self.spec_table().meta_of(h),
            r is Err ==> r->Err_0 == self.spec_table().handle_status(h)->Err_0,
    {
        self.table.meta(h)
    }

    /// Whether a write of the resource has already been recorded this frame.
    pub fn is_fresh(&self, h: ResourceHandle) -> (r: bool)
        requires
            self.wf(),
            self.spec_table().is_live(h),
        ensures
            r == self.spec_table().meta_of(h).fresh,
            r == self.write_recorded(h),
    {
        proof {
            assert(h == slot_handle(self.spec_table(), h.index as int));
        }
        self.table.is_fresh(h)
    }

    /// In a well-formed graph a resource is fresh exactly when a recorded
    /// node writes it: the flag is false from creation until the first
    /// recorded write and true from then on.
    pub proof fn lemma_fresh_iff_written(&self, h: ResourceHandle)
        requires
            self.wf(),
            self.spec_table().is_live(h),
        ensures
            self.spec_table().meta_of(h).fresh == self.write_recorded(h),
    {
        assert(h == slot_handle(self.spec_table(), h.index as int));
    }

    /// Records a node. Every handle it declares must be live in this frame's
    /// table (reads are checked first, then writes); otherwise nothing
    /// changes. Each resource it writes is marked fresh, whatever the node's
    /// work will do with it.
    #[verifier::rlimit(40)]
    pub fn add_node(&mut self, label: Option<String>, deps: DependencySet, work: W) -> (r: Result<
        usize,
        RenderGraphError,
    >)
        requires
            old(self).wf(),
        ensures
            final(self).wf(),
            final(self).spec_next_layout_id() == old(self).spec_next_layout_id(),
            r is Ok <==> deps_status(old(self).spec_table(), deps) is Ok,
            r is Err ==> r->Err_0 == deps_status(old(self).spec_table(), deps)->Err_0
                && final(self).spec_table() == old(self).spec_table()
                && final(self).spec_nodes() == old(self).spec_nodes(),
            r is Ok ==> r->Ok_0 == old(self).spec_nodes().len(),
            r is Ok ==> final(self).spec_nodes() == old(self).spec_nodes().push(
                Node { label, deps, work },
            ),
            r is Ok ==> final(self).spec_table().spec_epoch() == old(self).spec_table().spec_epoch(),
            r is Ok ==> final(self).spec_table().spec_entries().len() == old(self).spec_table().spec_entries().len(),
            r is Ok ==> forall|idx: int|
                0 <= idx < old(self).spec_table().spec_entries().len()
                    ==> #[trigger] final(self).spec_table().spec_entries()[idx] == (ResourceMeta {
                    fresh: old(self).spec_table().spec_entries()[idx].fresh
                        || deps.writes@.contains(slot_handle(old(self).spec_table(), idx)),
                    ..old(self).spec_table().spec_entries()[idx]
                }),
    {
        match self.table.check_handles(deps.reads.as_slice()) {
            Err(e) => {
                return Err(e);
            },
            Ok(_) => {},
        }
        match self.table.check_handles(deps.writes.as_slice()) {
            Err(e) => {
                return Err(e);
            },
            Ok(_) => {},
        }
        let mut k: usize = 0;
        while k < deps.writes.len()
            invariant
                k <= deps.writes@.len(),
                self.nodes@ == old(self).nodes@,
                self.next_layout_id == old(self).next_layout_id,
                self.table.wf(),
                self.table.spec_epoch() == old(self).table.spec_epoch(),
                self.table.spec_entries().len() == old(self).table.spec_entries().len(),
                forall|j: int|
                    0 <= j < deps.writes@.len() ==> self.table.is_live(#[trigger] deps.writes@[j]),
                forall|idx: int|
                    0 <= idx < old(self).table.spec_entries().len() ==> (#[trigger] self.table.spec_entries()[idx])
                        == (ResourceMeta {
                        fresh: old(self).table.spec_entries()[idx].fresh || deps.writes@.take(
                            k as int,
                        ).contains(slot_handle(old(self).table, idx)),
                        ..old(self).table.spec_entries()[idx]
                    }),
            decreases deps.writes@.len() - k,
        {
            let h = deps.writes[k];
            let ghost before = self.table.spec_entries();
            self.table.mark_fresh(h);
            proof {
                let ws = deps.writes@;
                assert(ws.take(k + 1) == ws.take(k as int).push(h));
                assert forall|idx: int|
                    0 <= idx < old(self).table.spec_entries().len() implies (#[trigger] self.table.spec_entries()[idx])
                        == (ResourceMeta {
                        fresh: old(self).table.spec_entries()[idx].fresh || ws.take(k + 1).contains(
                            slot_handle(old(self).table, idx),
                        ),
                        ..old(self).table.spec_entries()[idx]
                    }) by {
                    let sh = slot_handle(old(self).table, idx);
                    lemma_seq_contains_after_push(ws.take(k as int), h, sh);
                    assert(ws.take(k + 1).contains(sh) == (ws.take(k as int).contains(sh) || h
                        == sh));
                    if idx == h.index as int {
                        assert(h == sh);
                    }
                }
            }
            k += 1;
        }
        proof {
            assert(deps.writes@.take(k as int) == deps.writes@);
        }
        let index = self.nodes.len();
        let ghost d = deps;
        self.nodes.push(Node { label, deps, work });
        proof {
            let t = self.table;
            let ns = self.nodes@;
            assert(ns.last().deps == d);
            assert forall|i: int, k2: int|
                0 <= i < ns.len() && 0 <= k2 < ns[i].deps.reads@.len() implies t.is_live(
                #[trigger] ns[i].deps.reads@[k2],
            ) by {
                if i < index {
                    assert(ns[i] == old(self).nodes@[i]);
                    assert(old(self).table.is_live(old(self).nodes@[i].deps.reads@[k2]));
                }
            }
            assert forall|i: int, k2: int|
                0 <= i < ns.len() && 0 <= k2 < ns[i].deps.writes@.len() implies t.is_live(
                #[trigger] ns[i].deps.writes@[k2],
            ) by {
                if i < index {
                    assert(ns[i] == old(self).nodes@[i]);
                    assert(old(self).table.is_live(old(self).nodes@[i].deps.writes@[k2]));
                }
            }
            assert forall|idx: int|
                0 <= idx < t.spec_entries().len() implies (#[trigger] t.spec_entries()[idx]).fresh
                    == self.write_recorded(slot_handle(t, idx)) by {
                let sh = slot_handle(t, idx);
                assert(sh == slot_handle(old(self).table, idx));
                assert(old(self).table.spec_entries()[idx].fresh == old(self).write_recorded(sh));
                if old(self).write_recorded(sh) {
                    let i = choose|i: int|
                        0 <= i < old(self).nodes@.len()
                            && (#[trigger] old(self).nodes@[i]).deps.writes@.contains(sh);
                    assert(ns[i] == old(self).nodes@[i]);
                }
                if d.writes@.contains(sh) {
                    assert(ns[index as int] == ns.last());
                }
                if self.write_recorded(sh) {
                    let i = choose|i: int|
                        0 <= i < ns.len() && (#[trigger] ns[i]).deps.writes@.contains(sh);
                    if i < index {
                        assert(ns[i] == old(self).nodes@[i]);
                    }
                }
            }
        }
        Ok(index)
    }
}

} // verus!
