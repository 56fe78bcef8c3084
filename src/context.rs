use crate::deps::DependencySet;
use crate::error::RenderGraphError;
use crate::graph::Graph;
use crate::resource::{ResourceDescriptor, ResourceHandle, ResourceTable};
use crate::schedule::{acyclic, greedy, implicates, is_order, respects};
use vstd::prelude::*;

verus! {

/// What a running node sees: the frame's table and the node's own declared
/// dependencies. It is made for one node's turn and outlives none.
pub struct RenderContext<'a> {
    table: &'a ResourceTable,
    deps: &'a DependencySet,
    node: usize,
}

/// The work a node records when its turn comes. The commands themselves
/// (render passes, draws, dispatches) belong to the implementation.
pub trait NodeRunner<W> {
    fn run(&mut self, ctx: &RenderContext, work: &W);
}

/// A runner together with the list of nodes whose work it has been handed,
/// in order.
pub struct Traced<R> {
    runner: R,
    log: Vec<usize>,
}

impl<R> Traced<R> {
    pub closed spec fn spec_log(&self) -> Seq<usize> {
        self.log@
    }

    pub closed spec fn spec_runner(&self) -> R {
        self.runner
    }

    /// The runner.
    pub fn runner(&self) -> (r: &R)
        ensures
            *r == self.spec_runner(),
    {
        &self.runner
    }

    /// The runner, giving up the log.
    pub fn into_runner(self) -> (r: R)
        ensures
            r == self.spec_runner(),
    {
        self.runner
    }

    pub fn new(runner: R) -> (r: Traced<R>)
        ensures
            r.spec_runner() == runner,
            r.spec_log() == Seq::<usize>::empty(),
    {
        Traced { runner, log: Vec::new() }
    }

    /// The nodes handed to the runner so far, in order.
    pub fn log(&self) -> (r: &Vec<usize>)
        ensures
            r@ == self.spec_log(),
    {
        &self.log
    }

    /// Hands a node's work to the runner and logs the node.
    pub fn run<W>(&mut self, ctx: &RenderContext, work: &W)
        where
            R: NodeRunner<W>,
        ensures
            final(self).spec_log() == old(self).spec_log().push(ctx.spec_node()),
    {
        self.runner.run(ctx, work);
        self.log.push(ctx.node());
    }
}

impl<'a> RenderContext<'a> {
    pub closed spec fn spec_table(&self) -> ResourceTable {
        *self.table
    }

    pub closed spec fn spec_deps(&self) -> DependencySet {
        *self.deps
    }

    pub closed spec fn spec_node(&self) -> usize {
        self.node
    }

    /// Whether the running node declared `h`, as a read or as a write.
    pub open spec fn declares(&self, h: ResourceHandle) -> bool {
        self.spec_deps().reads@.contains(h) || self.spec_deps().writes@.contains(h)
    }

    pub fn new(table: &'a ResourceTable, deps: &'a DependencySet, node: usize) -> (r: RenderContext<'a>)
        ensures
            r.spec_table() == *table,
            r.spec_deps() == *deps,
            r.spec_node() == node,
    {
        RenderContext { table, deps, node }
    }

    /// The index of the running node.
    pub fn node(&self) -> (r: usize)
        ensures
            r == self.spec_node(),
    {
        self.node
    }

    /// Resolves a handle for the running node. A handle the node did not
    /// declare is refused whatever it names; a declared one resolves as the
    /// table resolves it.
    pub fn get(&self, h: ResourceHandle) -> (r: Result<&'a ResourceDescriptor, RenderGraphError>)
        ensures
            !self.declares(h) ==> r == Err::<&ResourceDescriptor, RenderGraphError>(
                RenderGraphError::UndeclaredAccess,
            ),
            self.declares(h) && self.spec_table().is_live(h) ==> r is Ok && *r->Ok_0
                == self.spec_table().meta_of(h).descriptor,
            self.declares(h) && !self.spec_table().is_live(h) ==> r
                == Err::<&ResourceDescriptor, RenderGraphError>(RenderGraphError::InvalidHandle),
    {
        if crate::deps::contains_handle(self.deps.reads.as_slice(), h)
            || crate::deps::contains_handle(self.deps.writes.as_slice(), h) {
            self.table.resolve(h)
        } else {
            Err(RenderGraphError::UndeclaredAccess)
        }
    }
}

impl<W> Graph<W> {
    /// Runs the frame: orders the nodes, then hands each node's work, in
    /// that order, to `runner` with a context for that node, logging each. The order is
    /// the one `schedule` computes. On a dependency cycle nothing runs,
    /// `runner` is left as it was, and the error names a stuck node and a
    /// resource through which it waits.
    pub fn execute<R: NodeRunner<W>>(self, runner: &mut Traced<R>) -> (r: Result<(), RenderGraphError>)
        ensures
            r is Ok <==> acyclic(self.spec_nodes()),
            r is Ok ==> exists|ord: Seq<usize>|
                {
                    &&& is_order(self.spec_nodes().len(), ord)
                    &&& greedy(self.spec_nodes(), ord)
                    &&& respects(self.spec_nodes(), ord)
                    &&& #[trigger] final(runner).spec_log() == old(runner).spec_log() + ord
                },
            r is Err ==> r->Err_0 is DependencyCycle && *final(runner) == *old(runner),
            r is Err ==> exists|s: Set<int>|
                #[trigger] implicates(
                    self.spec_nodes(),
                    s,
                    r->Err_0->DependencyCycle_node as int,
                    r->Err_0->DependencyCycle_resource,
                ),
    {
        let order = match self.schedule() {
            Ok(order) => order,
            Err(e) => {
                return Err(e);
            },
        };
        let mut k: usize = 0;
        while k < order.len()
            invariant
                k <= order@.len(),
                forall|t: int| 0 <= t < order@.len() ==> #[trigger] order@[t] < self.spec_nodes().len(),
                runner.spec_log() == old(runner).spec_log() + order@.take(k as int),
            decreases order@.len() - k,
        {
            let i = order[k];
            let node = self.node(i);
            let ctx = RenderContext::new(self.table(), &node.deps, i);
            runner.run(&ctx, &node.work);
            assert(order@.take(k + 1) == order@.take(k as int).push(i));
            assert(old(runner).spec_log() + order@.take(k + 1) =~= (old(runner).spec_log() + order@.take(
                k as int,
            )).push(i));
            k += 1;
        }
        assert(order@.take(k as int) == order@);
        Ok(())
    }
}

} // verus!
