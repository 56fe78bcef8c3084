use crate::deps::contains_handle;
use crate::error::RenderGraphError;
use crate::graph::{Graph, Node};
use crate::order::{conflict_on, lemma_conflict_precedes, lemma_precedes_conflict, must_precede};
use crate::resource::{ResourceHandle, ResourceTable};
use vstd::prelude::*;
use vstd::seq_lib::lemma_seq_contains_after_push;

verus! {

/// Every node that must precede `j` is among `done`.
pub open spec fn ready<W>(ns: Seq<Node<W>>, done: Seq<usize>, j: int) -> bool {
    forall|i: int| 0 <= i < ns.len() && #[trigger] must_precede(ns, i, j) ==> done.contains(i as usize)
}

/// `ord` lists each of the nodes `0..n` exactly once.
pub open spec fn is_order(n: nat, ord: Seq<usize>) -> bool {
    &&& ord.len() == n
    &&& ord.no_duplicates()
    &&& forall|k: int| 0 <= k < ord.len() ==> #[trigger] ord[k] < n
    &&& forall|i: usize| i < n ==> #[trigger] ord.contains(i)
}

/// No node of `ord` must precede one listed before it.
pub open spec fn respects<W>(ns: Seq<Node<W>>, ord: Seq<usize>) -> bool {
    forall|p: int, q: int|
        0 <= p < q < ord.len() ==> !must_precede(ns, #[trigger] ord[q] as int, #[trigger] ord[p] as int)
}

/// Some order of the nodes satisfies every dependency.
pub open spec fn acyclic<W>(ns: Seq<Node<W>>) -> bool {
    exists|ord: Seq<usize>| is_order(ns.len(), ord) && respects(ns, ord)
}

/// `ord` is built by taking, at each step, the lowest-indexed node whose
/// predecessors have all been taken: the authoring order wherever the
/// dependencies leave the order open.
#[verifier::opaque]
pub open spec fn greedy<W>(ns: Seq<Node<W>>, ord: Seq<usize>) -> bool {
    forall|k: int|
        0 <= k < ord.len() ==> {
            &&& ready(ns, ord.take(k), #[trigger] ord[k] as int)
            &&& forall|j: int|
                0 <= j < ord[k] && !ord.take(k).contains(j as usize) ==> !ready(ns, ord.take(k), j)
        }
}

/// A non-empty set of nodes each of which must wait for another node of the
/// set: none of them can ever run.
pub open spec fn stuck_set<W>(ns: Seq<Node<W>>, s: Set<int>) -> bool {
    &&& exists|j: int| s.contains(j)
    &&& forall|j: int| s.contains(j) ==> 0 <= j < ns.len() && #[trigger] waits_within(ns, s, j)
}

/// Some node of `s` must precede `j`.
pub open spec fn waits_within<W>(ns: Seq<Node<W>>, s: Set<int>, j: int) -> bool {
    exists|i: int| s.contains(i) && must_precede(ns, i, j)
}

/// `s` is a stuck set holding `node`, and another node of `s` must precede
/// `node` on account of `res`.
pub open spec fn implicates<W>(ns: Seq<Node<W>>, s: Set<int>, node: int, res: ResourceHandle) -> bool {
    &&& stuck_set(ns, s)
    &&& s.contains(node)
    &&& exists|i: int| s.contains(i) && conflict_on(ns[i].deps, i, ns[node].deps, node, res)
}

/// Every node that must precede `j` is marked in `flags`.
pub open spec fn ready_flags<W>(ns: Seq<Node<W>>, flags: Seq<bool>, j: int) -> bool {
    forall|i: int| 0 <= i < ns.len() && #[trigger] must_precede(ns, i, j) ==> flags[i]
}

/// `flags` marks exactly the nodes listed in `ord`.
pub open spec fn flags_match(n: nat, flags: Seq<bool>, ord: Seq<usize>) -> bool {
    &&& flags.len() == n
    &&& forall|i: int| 0 <= i < n ==> #[trigger] flags[i] == ord.contains(i as usize)
}

proof fn lemma_ready_flags<W>(ns: Seq<Node<W>>, flags: Seq<bool>, ord: Seq<usize>, j: int)
    requires
        ns.len() <= usize::MAX,
        flags_match(ns.len(), flags, ord),
    ensures
        ready_flags(ns, flags, j) == ready(ns, ord, j),
{
}

/// Taking next the lowest-indexed ready node keeps an order greedy, and the
/// flags in step with it.
proof fn lemma_greedy_push<W>(ns: Seq<Node<W>>, ord: Seq<usize>, flags: Seq<bool>, j: int)
    requires
        ns.len() <= usize::MAX,
        0 <= j < ns.len(),
        greedy(ns, ord),
        flags_match(ns.len(), flags, ord),
        !flags[j],
        ready_flags(ns, flags, j),
        forall|j2: int| 0 <= j2 < j && !flags[j2] ==> !ready_flags(ns, flags, j2),
    ensures
        greedy(ns, ord.push(j as usize)),
        flags_match(ns.len(), flags.update(j, true), ord.push(j as usize)),
{
    reveal(greedy);
    let o = ord.push(j as usize);
    assert(o.take(ord.len() as int) == ord);
    lemma_ready_flags(ns, flags, ord, j);
    assert forall|i: int| 0 <= i < ns.len() implies #[trigger] flags.update(j, true)[i] == o.contains(
        i as usize,
    ) by {
        lemma_seq_contains_after_push(ord, j as usize, i as usize);
    }
    assert forall|k: int| 0 <= k < o.len() implies {
        &&& ready(ns, o.take(k), #[trigger] o[k] as int)
        &&& forall|j2: int|
            0 <= j2 < o[k] && !o.take(k).contains(j2 as usize) ==> !ready(ns, o.take(k), j2)
    } by {
        if k < ord.len() {
            assert(o.take(k) == ord.take(k));
            assert(o[k] == ord[k]);
        } else {
            assert forall|j2: int|
                0 <= j2 < o[k] && !o.take(k).contains(j2 as usize) implies !ready(
                ns,
                o.take(k),
                j2,
            ) by {
                assert(!flags[j2]);
                lemma_ready_flags(ns, flags, ord, j2);
            }
        }
    }
}

/// Once every node is taken, a greedy order is an order of all the nodes
/// that satisfies every dependency.
proof fn lemma_all_taken<W>(ns: Seq<Node<W>>, ord: Seq<usize>, flags: Seq<bool>)
    requires
        ns.len() <= usize::MAX,
        greedy(ns, ord),
        flags_match(ns.len(), flags, ord),
        forall|i: int| 0 <= i < flags.len() ==> flags[i],
        ord.len() == ns.len(),
        ord.no_duplicates(),
        forall|k: int| 0 <= k < ord.len() ==> #[trigger] ord[k] < ns.len(),
    ensures
        is_order(ns.len(), ord),
        respects(ns, ord),
        acyclic(ns),
{
    lemma_greedy_respects(ns, ord);
    assert forall|i: usize| i < ns.len() implies #[trigger] ord.contains(i) by {
        assert(flags[i as int]);
    }
}

/// When no waiting node is ready, the waiting nodes form a stuck set.
proof fn lemma_waiting_stuck<W>(ns: Seq<Node<W>>, flags: Seq<bool>, w: int) -> (s: Set<int>)
    requires
        flags.len() == ns.len(),
        0 <= w < ns.len(),
        !flags[w],
        forall|j: int| 0 <= j < ns.len() && !flags[j] ==> !ready_flags(ns, flags, j),
    ensures
        stuck_set(ns, s),
        s == Set::new(|i: int| 0 <= i < ns.len() && !flags[i]),
{
    let s = Set::new(|i: int| 0 <= i < ns.len() && !flags[i]);
    assert forall|j: int| s.contains(j) implies 0 <= j < ns.len() && #[trigger] waits_within(
        ns,
        s,
        j,
    ) by {
        let i = lemma_not_ready(ns, flags, j);
        assert(s.contains(i));
    }
    assert(s.contains(w));
    s
}

/// A node that is not ready waits for a node that has not run.
proof fn lemma_not_ready<W>(ns: Seq<Node<W>>, flags: Seq<bool>, j: int) -> (i: int)
    requires
        !ready_flags(ns, flags, j),
    ensures
        0 <= i < ns.len(),
        must_precede(ns, i, j),
        !flags[i],
{
    choose|i: int| 0 <= i < ns.len() && must_precede(ns, i, j) && !flags[i]
}

/// How many entries of `s` are false.
pub open spec fn count_false(s: Seq<bool>) -> nat
    decreases s.len(),
{
    if s.len() == 0 {
        0
    } else {
        count_false(s.drop_last()) + if s.last() {
            0nat
        } else {
            1nat
        }
    }
}

proof fn lemma_count_false_set(s: Seq<bool>, j: int)
    requires
        0 <= j < s.len(),
        !s[j],
    ensures
        count_false(s.update(j, true)) + 1 == count_false(s),
    decreases s.len(),
{
    let u = s.update(j, true);
    if j == s.len() - 1 {
        assert(u.drop_last() == s.drop_last());
    } else {
        assert(u.drop_last() == s.drop_last().update(j, true));
        lemma_count_false_set(s.drop_last(), j);
    }
}

proof fn lemma_count_false_all_true(s: Seq<bool>)
    requires
        forall|i: int| 0 <= i < s.len() ==> s[i],
    ensures
        count_false(s) == 0,
    decreases s.len(),
{
    if s.len() > 0 {
        lemma_count_false_all_true(s.drop_last());
    }
}

/// Among positions `0..=k` of `ord`, there is a first whose node is in `s`.
proof fn lemma_first_in(ord: Seq<usize>, s: Set<int>, k: int) -> (k0: int)
    requires
        0 <= k < ord.len(),
        s.contains(ord[k] as int),
    ensures
        0 <= k0 <= k,
        s.contains(ord[k0] as int),
        forall|t: int| 0 <= t < k0 ==> !s.contains(#[trigger] ord[t] as int),
    decreases k,
{
    if exists|t: int| 0 <= t < k && s.contains(#[trigger] ord[t] as int) {
        let t = choose|t: int| 0 <= t < k && s.contains(#[trigger] ord[t] as int);
        lemma_first_in(ord, s, t)
    } else {
        k
    }
}

/// No order satisfies the dependencies of a graph that has a stuck set.
pub proof fn lemma_stuck_not_acyclic<W>(ns: Seq<Node<W>>, s: Set<int>)
    requires
        ns.len() <= usize::MAX,
        stuck_set(ns, s),
    ensures
        !acyclic(ns),
{
    if acyclic(ns) {
        let ord = choose|ord: Seq<usize>| is_order(ns.len(), ord) && respects(ns, ord);
        lemma_stuck_not_respected(ns, s, ord);
    }
}

/// In any order of the nodes, the first node of a stuck set comes after a
/// node that must precede it.
proof fn lemma_stuck_not_respected<W>(ns: Seq<Node<W>>, s: Set<int>, ord: Seq<usize>)
    requires
        ns.len() <= usize::MAX,
        stuck_set(ns, s),
        is_order(ns.len(), ord),
    ensures
        !respects(ns, ord),
{
    let j0 = choose|j: int| s.contains(j);
    assert(waits_within(ns, s, j0));
    assert(0 <= j0 < ns.len());
    assert(ord.contains(j0 as usize));
    let k = choose|k: int| 0 <= k < ord.len() && ord[k] == j0 as usize;
    assert(s.contains(ord[k] as int));
    let k0 = lemma_first_in(ord, s, k);
    let j = ord[k0] as int;
    assert(s.contains(j));
    assert(waits_within(ns, s, j));
    let i = choose|i: int| s.contains(i) && must_precede(ns, i, j);
    assert(waits_within(ns, s, i));
    assert(0 <= i < ns.len());
    assert(ord.contains(i as usize));
    let q = choose|q: int| 0 <= q < ord.len() && ord[q] == i as usize;
    assert(ord[q] as int == i);
    lemma_precedes_conflict(ns, i, j);
    assert(q != k0);
    if q < k0 {
        assert(!s.contains(ord[q] as int));
    }
    assert(k0 < q);
    assert(must_precede(ns, ord[q] as int, ord[k0] as int));
}

/// An order built greedily satisfies every dependency.
pub proof fn lemma_greedy_respects<W>(ns: Seq<Node<W>>, ord: Seq<usize>)
    requires
        greedy(ns, ord),
        ord.no_duplicates(),
        forall|k: int| 0 <= k < ord.len() ==> #[trigger] ord[k] < ns.len(),
    ensures
        respects(ns, ord),
{
    reveal(greedy);
    assert forall|p: int, q: int| 0 <= p < q < ord.len() implies !must_precede(
        ns,
        #[trigger] ord[q] as int,
        #[trigger] ord[p] as int,
    ) by {
        if must_precede(ns, ord[q] as int, ord[p] as int) {
            assert(ready(ns, ord.take(p), ord[p] as int));
            assert(ord.take(p).contains(ord[q]));
            let t = choose|t: int| 0 <= t < p && ord.take(p)[t] == ord[q];
            assert(ord[t] == ord[q]);
        }
    }
}

impl<W> Graph<W> {
    /// The resource through which node `i` must precede node `j`, if any.
    fn conflict(&self, i: usize, j: usize) -> (r: Option<ResourceHandle>)
        requires
            i < self.spec_nodes().len(),
            j < self.spec_nodes().len(),
        ensures
            r is None <==> !must_precede(self.spec_nodes(), i as int, j as int),
            r is Some ==> conflict_on(
                self.spec_nodes()[i as int].deps,
                i as int,
                self.spec_nodes()[j as int].deps,
                j as int,
                r->Some_0,
            ),
    {
        if i == j {
            proof {
                if must_precede(self.spec_nodes(), i as int, j as int) {
                    lemma_precedes_conflict(self.spec_nodes(), i as int, j as int);
                }
            }
            return None;
        }
        let a = &self.node(i).deps;
        let b = &self.node(j).deps;
        let mut k: usize = 0;
        while k < a.writes.len()
            invariant
                k <= a.writes@.len(),
                i != j,
                *a == self.spec_nodes()[i as int].deps,
                *b == self.spec_nodes()[j as int].deps,
                forall|t: int|
                    0 <= t < k ==> !conflict_on(*a, i as int, *b, j as int, #[trigger] a.writes@[t]),
            decreases a.writes@.len() - k,
        {
            let r = a.writes[k];
            let in_writes = contains_handle(b.writes.as_slice(), r);
            if (in_writes && i < j) || (!in_writes && contains_handle(b.reads.as_slice(), r)) {
                proof {
                    assert(a.writes@[k as int] == r);
                    assert(a.writes@.contains(r));
                    lemma_conflict_precedes(self.spec_nodes(), i as int, j as int, r);
                }
                return Some(r);
            }
            k += 1;
        }
        proof {
            if must_precede(self.spec_nodes(), i as int, j as int) {
                let r = lemma_precedes_conflict(self.spec_nodes(), i as int, j as int);
                let t = choose|t: int| 0 <= t < a.writes@.len() && a.writes@[t] == r;
            }
        }
        None
    }

    /// A node that has not run and must precede `j`, with the resource
    /// through which it must, if there is one.
    fn blocker(&self, done: &Vec<bool>, j: usize) -> (r: Option<(usize, ResourceHandle)>)
        requires
            j < self.spec_nodes().len(),
            done@.len() == self.spec_nodes().len(),
        ensures
            r is None ==> forall|i: int|
                0 <= i < self.spec_nodes().len() && #[trigger] must_precede(
                    self.spec_nodes(),
                    i,
                    j as int,
                ) ==> done@[i],
            r is Some ==> {
                let (i, res) = r->Some_0;
                &&& i < self.spec_nodes().len()
                &&& !done@[i as int]
                &&& conflict_on(
                    self.spec_nodes()[i as int].deps,
                    i as int,
                    self.spec_nodes()[j as int].deps,
                    j as int,
                    res,
                )
            },
    {
        let n = self.node_count();
        let mut i: usize = 0;
        while i < n
            invariant
                i <= n,
                n == self.spec_nodes().len(),
                done@.len() == n,
                j < n,
                forall|t: int|
                    0 <= t < i && #[trigger] must_precede(self.spec_nodes(), t, j as int)
                        ==> done@[t],
            decreases n - i,
        {
            if !done[i] {
                match self.conflict(i, j) {
                    Some(res) => {
                        return Some((i, res));
                    },
                    None => {},
                }
            }
            i += 1;
        }
        None
    }

    /// The lowest-indexed node that has not run and whose predecessors all
    /// have, if any.
    fn pick_ready(&self, done: &Vec<bool>) -> (r: Option<usize>)
        requires
            done@.len() == self.spec_nodes().len(),
        ensures
            r is Some ==> r->Some_0 < self.spec_nodes().len() && !done@[r->Some_0 as int]
                && ready_flags(self.spec_nodes(), done@, r->Some_0 as int),
            forall|j: int|
                0 <= j < (if r is Some {
                    r->Some_0 as int
                } else {
                    self.spec_nodes().len() as int
                }) && !done@[j] ==> !ready_flags(self.spec_nodes(), done@, j),
    {
        let n = self.node_count();
        let mut j: usize = 0;
        while j < n
            invariant
                j <= n,
                n == self.spec_nodes().len(),
                done@.len() == n,
                forall|t: int| 0 <= t < j && !done@[t] ==> !ready_flags(self.spec_nodes(), done@, t),
            decreases n - j,
        {
            if !done[j] {
                match self.blocker(done, j) {
                    None => {
                        return Some(j);
                    },
                    Some(b) => {
                        proof {
                            let (i, res) = b;
                            lemma_conflict_precedes(self.spec_nodes(), i as int, j as int, res);
                        }
                    },
                }
            }
            j += 1;
        }
        None
    }

    /// The lowest-indexed node that has not run, if any.
    fn first_waiting(done: &Vec<bool>) -> (r: Option<usize>)
        ensures
            r is Some ==> r->Some_0 < done@.len() && !done@[r->Some_0 as int],
            r is None ==> forall|i: int| 0 <= i < done@.len() ==> done@[i],
    {
        let mut i: usize = 0;
        while i < done.len()
            invariant
                i <= done@.len(),
                forall|t: int| 0 <= t < i ==> done@[t],
            decreases done@.len() - i,
        {
            if !done[i] {
                return Some(i);
            }
            i += 1;
        }
        None
    }

    /// The error for a graph in which node `w` waits and no waiting node is
    /// ready: `w` and one of the nodes it waits for, with their resource.
    fn report_cycle(&self, done: &Vec<bool>, w: usize) -> (e: RenderGraphError)
        requires
            self.spec_nodes().len() <= usize::MAX,
            done@.len() == self.spec_nodes().len(),
            w < done@.len(),
            !done@[w as int],
            forall|j: int|
                0 <= j < self.spec_nodes().len() && !done@[j] ==> !ready_flags(
                    self.spec_nodes(),
                    done@,
                    j,
                ),
        ensures
            e is DependencyCycle,
            !acyclic(self.spec_nodes()),
            exists|s: Set<int>|
                #[trigger] implicates(
                    self.spec_nodes(),
                    s,
                    e->DependencyCycle_node as int,
                    e->DependencyCycle_resource,
                ),
    {
        let ghost ns = self.spec_nodes();
        let ghost s = lemma_waiting_stuck(ns, done@, w as int);
        proof {
            lemma_stuck_not_acyclic(ns, s);
        }
        match self.blocker(done, w) {
            Some((i, res)) => {
                let e = RenderGraphError::DependencyCycle { node: w, resource: res };
                proof {
                    assert(s.contains(i as int));
                    assert(implicates(
                        self.spec_nodes(),
                        s,
                        e->DependencyCycle_node as int,
                        e->DependencyCycle_resource,
                    ));
                }
                e
            },
            None => {
                proof {
                    assert(!ready_flags(ns, done@, w as int));
                    assert(ready_flags(ns, done@, w as int));
                }
                RenderGraphError::DependencyCycle {
                    node: w,
                    resource: ResourceHandle { index: 0, epoch: 0 },
                }
            },
        }
    }

    /// Orders the nodes for execution. Each step takes the lowest-indexed
    /// node whose predecessors have all been taken, so nodes that the
    /// dependencies leave unordered keep their authoring order. Fails with
    /// `DependencyCycle` exactly when no order satisfies the dependencies,
    /// naming a node of a stuck set and a resource through which another
    /// node of that set must precede it.
    pub fn schedule(&self) -> (r: Result<Vec<usize>, RenderGraphError>)
        ensures
            r is Ok <==> acyclic(self.spec_nodes()),
            r is Ok ==> is_order(self.spec_nodes().len(), r->Ok_0@),
            r is Ok ==> greedy(self.spec_nodes(), r->Ok_0@),
            r is Ok ==> respects(self.spec_nodes(), r->Ok_0@),
            r is Err ==> r->Err_0 is DependencyCycle,
            r is Err ==> exists|s: Set<int>|
                #[trigger] implicates(
                    self.spec_nodes(),
                    s,
                    r->Err_0->DependencyCycle_node as int,
                    r->Err_0->DependencyCycle_resource,
                ),
    {
        let ghost ns = self.spec_nodes();
        let n = self.node_count();
        let mut done: Vec<bool> = Vec::new();
        let mut t: usize = 0;
        while t < n
            invariant
                t <= n,
                done@.len() == t,
                forall|i: int| 0 <= i < t ==> !done@[i],
                count_false(done@) == t,
            decreases n - t,
        {
            let ghost before = done@;
            done.push(false);
            assert(done@.drop_last() == before);
            t += 1;
        }
        let mut ord: Vec<usize> = Vec::new();
        proof {
            reveal(greedy);
        }
        loop
            invariant
                ns == self.spec_nodes(),
                n == ns.len(),
                flags_match(n as nat, done@, ord@),
                forall|k: int| 0 <= k < ord@.len() ==> #[trigger] ord@[k] < n,
                ord@.no_duplicates(),
                greedy(ns, ord@),
                ord@.len() + count_false(done@) == n,
            decreases count_false(done@),
        {
            match self.pick_ready(&done) {
                Some(j) => {
                    let ghost old_ord = ord@;
                    let ghost old_done = done@;
                    proof {
                        lemma_count_false_set(done@, j as int);
                        lemma_ready_flags(ns, done@, ord@, j as int);
                    }
                    done[j] = true;
                    ord.push(j);
                    proof {
                        lemma_greedy_push(ns, old_ord, old_done, j as int);
                        assert(ord@ == old_ord.push(j));
                        assert(done@ == old_done.update(j as int, true));
                    }
                },
                None => {
                    match Self::first_waiting(&done) {
                        None => {
                            proof {
                                lemma_count_false_all_true(done@);
                                lemma_all_taken(ns, ord@, done@);
                            }
                            return Ok(ord);
                        },
                        Some(w) => {
                            return Err(self.report_cycle(&done, w));
                        },
                    }
                },
            }
        }
    }
}

/// Position of node `i` in an order that holds it.
proof fn lemma_position(ord: Seq<usize>, i: int) -> (p: int)
    requires
        0 <= i <= usize::MAX,
        ord.contains(i as usize),
    ensures
        0 <= p < ord.len(),
        ord[p] as int == i,
{
    choose|p: int| 0 <= p < ord.len() && ord[p] == i as usize
}

/// In an order that satisfies the dependencies, a node that must precede
/// another comes first.
pub proof fn lemma_precedence_kept<W>(ns: Seq<Node<W>>, ord: Seq<usize>, a: int, b: int)
    requires
        ns.len() <= usize::MAX,
        is_order(ns.len(), ord),
        respects(ns, ord),
        0 <= a < ns.len(),
        0 <= b < ns.len(),
        must_precede(ns, a, b),
    ensures
        exists|p: int, q: int| 0 <= p < q < ord.len() && ord[p] as int == a && ord[q] as int == b,
{
    lemma_precedes_conflict(ns, a, b);
    let p = lemma_position(ord, a);
    let q = lemma_position(ord, b);
    if q < p {
        assert(!must_precede(ns, ord[p] as int, ord[q] as int));
    }
    assert(p != q);
}

/// A node that writes a resource runs before every node declared after it
/// that reads or writes that resource.
pub proof fn lemma_writer_runs_first<W>(
    ns: Seq<Node<W>>,
    ord: Seq<usize>,
    a: int,
    b: int,
    r: ResourceHandle,
)
    requires
        ns.len() <= usize::MAX,
        is_order(ns.len(), ord),
        respects(ns, ord),
        0 <= a < b < ns.len(),
        ns[a].deps.writes@.contains(r),
        ns[b].deps.reads@.contains(r) || ns[b].deps.writes@.contains(r),
    ensures
        exists|p: int, q: int| 0 <= p < q < ord.len() && ord[p] as int == a && ord[q] as int == b,
{
    lemma_conflict_precedes(ns, a, b, r);
    lemma_precedence_kept(ns, ord, a, b);
}

/// A node that reads a composite, with its members folded into its reads,
/// runs after every node that writes one of those members, whichever was
/// declared first, unless it writes that member itself.
pub proof fn lemma_member_writer_runs_first<W>(
    ns: Seq<Node<W>>,
    ord: Seq<usize>,
    t: ResourceTable,
    composite: ResourceHandle,
    writer: int,
    reader: int,
    member: ResourceHandle,
)
    requires
        ns.len() <= usize::MAX,
        is_order(ns.len(), ord),
        respects(ns, ord),
        0 <= writer < ns.len(),
        0 <= reader < ns.len(),
        writer != reader,
        t.meta_of(composite).descriptor is BindGroup,
        t.meta_of(composite).descriptor->BindGroup_members@.contains(member),
        ns[reader].deps.reads@.to_set() == ns[reader].deps.reads@.to_set().insert(composite).union(
            t.meta_of(composite).descriptor->BindGroup_members@.to_set(),
        ),
        ns[writer].deps.writes@.contains(member),
        !ns[reader].deps.writes@.contains(member),
    ensures
        exists|p: int, q: int|
            0 <= p < q < ord.len() && ord[p] as int == writer && ord[q] as int == reader,
{
    let ms = t.meta_of(composite).descriptor->BindGroup_members@;
    assert(ms.to_set().contains(member));
    assert(ns[reader].deps.reads@.to_set().contains(member));
    lemma_conflict_precedes(ns, writer, reader, member);
    lemma_precedence_kept(ns, ord, writer, reader);
}

/// Two nodes that each write what the other only reads can run in no order.
pub proof fn lemma_crossed_writes_cycle<W>(
    ns: Seq<Node<W>>,
    x: int,
    y: int,
    r1: ResourceHandle,
    r2: ResourceHandle,
)
    requires
        ns.len() <= usize::MAX,
        0 <= x < ns.len(),
        0 <= y < ns.len(),
        x != y,
        ns[x].deps.writes@.contains(r1),
        ns[x].deps.reads@.contains(r2),
        !ns[x].deps.writes@.contains(r2),
        ns[y].deps.writes@.contains(r2),
        ns[y].deps.reads@.contains(r1),
        !ns[y].deps.writes@.contains(r1),
    ensures
        !acyclic(ns),
{
    lemma_conflict_precedes(ns, x, y, r1);
    lemma_conflict_precedes(ns, y, x, r2);
    let s = set![x, y];
    assert(s.contains(x));
    assert forall|j: int| s.contains(j) implies 0 <= j < ns.len() && #[trigger] waits_within(
        ns,
        s,
        j,
    ) by {
        if j == x {
            assert(s.contains(y) && must_precede(ns, y, j));
        } else {
            assert(s.contains(x) && must_precede(ns, x, j));
        }
    }
    lemma_stuck_not_acyclic(ns, s);
}

/// Where no node must precede another, the greedy order is the authoring
/// order.
pub proof fn lemma_unconstrained_keeps_authoring_order<W>(ns: Seq<Node<W>>, ord: Seq<usize>)
    requires
        ns.len() <= usize::MAX,
        is_order(ns.len(), ord),
        greedy(ns, ord),
        forall|i: int, j: int| 0 <= i < ns.len() && 0 <= j < ns.len() ==> !must_precede(ns, i, j),
    ensures
        forall|k: int| 0 <= k < ord.len() ==> ord[k] as int == k,
{
    reveal(greedy);
    assert forall|k: int| 0 <= k < ord.len() implies ord[k] as int == k by {
        lemma_authoring_prefix(ns, ord, k);
    }
}

proof fn lemma_authoring_prefix<W>(ns: Seq<Node<W>>, ord: Seq<usize>, k: int)
    requires
        ns.len() <= usize::MAX,
        is_order(ns.len(), ord),
        greedy(ns, ord),
        forall|i: int, j: int| 0 <= i < ns.len() && 0 <= j < ns.len() ==> !must_precede(ns, i, j),
        0 <= k < ord.len(),
    ensures
        forall|t: int| 0 <= t <= k ==> ord[t] as int == t,
    decreases k,
{
    reveal(greedy);
    if k > 0 {
        lemma_authoring_prefix(ns, ord, k - 1);
    }
    let pre = ord.take(k);
    assert forall|t: int| 0 <= t < k implies pre[t] as int == t by {}
    if ord[k] as int != k {
        if (ord[k] as int) < k {
            assert(ord[ord[k] as int] == ord[k]);
        } else {
            assert(ready(ns, pre, k)) by {
                assert forall|i: int| 0 <= i < ns.len() && #[trigger] must_precede(ns, i, k) implies pre.contains(
                    i as usize,
                ) by {}
            }
            if pre.contains(k as usize) {
                let t = choose|t: int| 0 <= t < pre.len() && pre[t] == k as usize;
            }
        }
    }
}

/// The greedy order of a graph is unique: the same nodes, declared in the
/// same order, are always run in the same order.
pub proof fn lemma_greedy_unique<W>(ns: Seq<Node<W>>, o1: Seq<usize>, o2: Seq<usize>)
    requires
        ns.len() <= usize::MAX,
        is_order(ns.len(), o1),
        is_order(ns.len(), o2),
        greedy(ns, o1),
        greedy(ns, o2),
    ensures
        o1 == o2,
{
    if o1.len() > 0 {
        lemma_greedy_agree(ns, o1, o2, o1.len() - 1);
    }
    assert(o1 =~= o2);
}

proof fn lemma_greedy_agree<W>(ns: Seq<Node<W>>, o1: Seq<usize>, o2: Seq<usize>, k: int)
    requires
        ns.len() <= usize::MAX,
        is_order(ns.len(), o1),
        is_order(ns.len(), o2),
        greedy(ns, o1),
        greedy(ns, o2),
        0 <= k < o1.len(),
    ensures
        forall|t: int| 0 <= t <= k ==> o1[t] == o2[t],
    decreases k,
{
    reveal(greedy);
    if k > 0 {
        lemma_greedy_agree(ns, o1, o2, k - 1);
    }
    let pre = o1.take(k);
    assert(o2.take(k) =~= pre);
    let a = o1[k];
    let b = o2[k];
    if a != b {
        assert(!pre.contains(a)) by {
            if pre.contains(a) {
                let t = choose|t: int| 0 <= t < pre.len() && pre[t] == a;
                assert(o1[t] == o1[k]);
            }
        }
        assert(!pre.contains(b)) by {
            if pre.contains(b) {
                let t = choose|t: int| 0 <= t < pre.len() && pre[t] == b;
                assert(o2[t] == o2[k]);
            }
        }
        assert(ready(ns, o1.take(k), a as int));
        assert(ready(ns, o2.take(k), b as int));
    }
}

} // verus!
