//! Stages: systems with their data access, ordered into a graph whose edges
//! follow data dependencies, and the stepping of a dispatcher through the
//! stages.
use vstd::prelude::*;
use crate::dispatch::access::{Access, ListenerAccess};
use crate::dispatch::bits::{bit_ones, bits_within, bits_difference_with, bits_ones};
use fixedbitset::FixedBitSet;
use crate::dispatch::depend::{write_depend, depend_rw, depend_w, depend_conflicts, lemma_conflicts_bounded};
use crate::archetype::ArchetypeComponentInfo;

verus! {

/// Something that runs.
pub trait Dispatcher {
    /// Runs.
    fn run(&self);
}

/// An operation of a stage: it runs, buffering what it produces, and applies
/// the buffers to the world once every operation of the stage has run.
pub trait Operate {
    /// What a run returns.
    type R;

    /// Runs the operation.
    fn run(&self) -> Self::R;

    /// Applies what the runs buffered.
    fn apply(&self);
}

/// A synchronous operation, shared.
pub struct Run<O: Operate<R = ()>>(pub std::sync::Arc<O>);

/// `Arc::clone`: another pointer to the same shared value.
#[verifier::external_body]
fn arc_clone<O>(a: &std::sync::Arc<O>) -> (r: std::sync::Arc<O>)
    ensures
        r == *a,
{
    a.clone()
}

/// Hands out runs of one shared synchronous operation.
pub struct RunFactory<O: Operate<R = ()>>(pub std::sync::Arc<O>);

impl<O: Operate<R = ()>> RunFactory<O> {
    /// A run of the operation.
    pub fn create(&self) -> (r: Run<O>)
        ensures
            r.0 == self.0,
    {
        Run(arc_clone(&self.0))
    }
}

/// What a node of a stage graph does.
pub enum ExecNode<S, A> {
    /// Nothing: the node stands for data.
    Empty,
    /// A synchronous operation.
    Sync(S),
    /// An asynchronous operation.
    Async(A),
}

impl<S, A> ExecNode<S, A> {
    /// `None` for a data node, `Some(true)` for a synchronous operation,
    /// `Some(false)` for an asynchronous one.
    pub fn is_sync(&self) -> (r: Option<bool>)
        ensures
            r == match self {
                ExecNode::Empty => None::<bool>,
                ExecNode::Sync(_) => Some(true),
                ExecNode::Async(_) => Some(false),
            },
    {
        match self {
            ExecNode::Empty => None,
            ExecNode::Sync(_) => Some(true),
            ExecNode::Async(_) => Some(false),
        }
    }
}

/// A system to place in a stage: its id, its data access, what it runs and
/// a label for messages.
pub struct GraphNode<N> {
    pub id: usize,
    pub access: Access,
    pub node: N,
    pub label: String,
}

/// An error building a stage.
pub enum BuildErr {
    /// The nodes form a cycle.
    Circly(Vec<usize>),
    /// A listener that a system runs writes data that the system, or a
    /// listener before it, reads or writes: the system's label and the names
    /// of that data.
    WriteConflict(String, Vec<String>),
}

/// The graph of a stage: data nodes, system nodes, and edges from the data a
/// system reads to the system and from the system to the data it writes.
pub struct StagePlan<N> {
    pub components: Vec<usize>,
    pub systems: Vec<GraphNode<N>>,
    pub edges: Vec<(usize, usize)>,
}

/// The edge between data id `k` and system `id`: into the system when
/// `incoming`, else out of it.
pub open spec fn edge_of(k: usize, id: usize, incoming: bool) -> (usize, usize) {
    if incoming { (k, id) } else { (id, k) }
}

/// Appends the edge of each of `keys`, in order (see `edge_of`), and records
/// each key as a data node once.
fn push_edges(edges: &mut Vec<(usize, usize)>, components: &mut Vec<usize>, keys: &Vec<usize>, id: usize, incoming: bool)
    requires
        old(components)@.no_duplicates(),
    ensures
        final(edges)@ == old(edges)@ + keys@.map_values(|k: usize| edge_of(k, id, incoming)),
        final(components)@.no_duplicates(),
        forall|k: usize| final(components)@.contains(k) <==> (old(components)@.contains(k) || keys@.contains(k)),
{
    let ghost e0 = edges@;
    let mut j: usize = 0;
    while j < keys.len()
        invariant
            0 <= j <= keys@.len(),
            edges@ == e0 + keys@.subrange(0, j as int).map_values(|k: usize| edge_of(k, id, incoming)),
            components@.no_duplicates(),
            forall|k: usize| components@.contains(k) <==> (old(components)@.contains(k) || keys@.subrange(0, j as int).contains(k)),
        decreases keys@.len() - j,
    {
        let k = keys[j];
        if incoming {
            edges.push((k, id));
        } else {
            edges.push((id, k));
        }
        proof {
            assert(keys@.subrange(0, j as int + 1).map_values(|k: usize| edge_of(k, id, incoming))
                =~= keys@.subrange(0, j as int).map_values(|k: usize| edge_of(k, id, incoming)).push(edge_of(k, id, incoming)));
        }
        let mut found = false;
        let mut c: usize = 0;
        while c < components.len()
            invariant
                0 <= c <= components@.len(),
                found == exists|q: int| 0 <= q < c && components@[q] == k,
            decreases components@.len() - c,
        {
            if components[c] == k {
                found = true;
            }
            c = c + 1;
        }
        let ghost before = components@;
        if !found {
            components.push(k);
            proof {
                assert forall|p: int, q: int| 0 <= p < components@.len() && 0 <= q < components@.len() && p != q
                    implies components@[p] != components@[q] by {
                    if p == before.len() as int {
                        assert(components@[q] == before[q]);
                    } else if q == before.len() as int {
                        assert(components@[p] == before[p]);
                    }
                }
            }
        }
        proof {
            assert(keys@.subrange(0, j as int + 1) =~= keys@.subrange(0, j as int).push(k));
            assert forall|kk: usize| components@.contains(kk) <==> (old(components)@.contains(kk) || keys@.subrange(0, j as int + 1).contains(kk)) by {
                if components@.contains(kk) && !before.contains(kk) {
                    let q = choose|q: int| 0 <= q < components@.len() && components@[q] == kk;
                    assert(q == before.len());
                    assert(keys@.subrange(0, j as int + 1)[j as int] == k);
                }
                let sub1 = keys@.subrange(0, j as int + 1);
                let sub0 = keys@.subrange(0, j as int);
                if sub1.contains(kk) && !sub0.contains(kk) {
                    let q = choose|q: int| 0 <= q < sub1.len() && #[trigger] sub1[q] == kk;
                    if q < j as int {
                        assert(sub0.contains(kk)) by {
                            assert(sub0[q] == kk);
                        }
                    }
                    if found {
                        let q2 = choose|q2: int| 0 <= q2 < before.len() && before[q2] == k;
                        assert(components@[q2] == kk);
                    } else {
                        assert(components@[before.len() as int] == kk);
                    }
                }
                if before.contains(kk) {
                    let q = choose|q: int| 0 <= q < before.len() && before[q] == kk;
                    assert(components@[q] == kk);
                }
            }
        }
        j = j + 1;
    }
    proof {
        assert(keys@.subrange(0, keys@.len() as int) =~= keys@);
    }
}

/// A strictly increasing sequence.
pub open spec fn increasing(q: Seq<usize>) -> bool {
    forall|i: int, j: int| 0 <= i < j < q.len() ==> q[i] < q[j]
}

/// The elements of `s` in increasing order, when `s` is finite.
pub open spec fn ascending(s: Set<usize>) -> Seq<usize> {
    choose|q: Seq<usize>| increasing(q) && forall|x: usize| #[trigger] s.contains(x) <==> q.contains(x)
}

/// Two increasing sequences with the same elements are equal.
pub proof fn lemma_increasing_unique(q1: Seq<usize>, q2: Seq<usize>)
    requires
        increasing(q1),
        increasing(q2),
        forall|x: usize| #[trigger] q1.contains(x) <==> q2.contains(x),
    ensures
        q1 == q2,
    decreases q1.len(),
{
    if q1.len() == 0 {
        if q2.len() > 0 {
            assert(q2.contains(q2[0]));
            assert(q1.contains(q2[0]));
        }
        assert(q1 =~= q2);
    } else {
        assert(q1.contains(q1[0]));
        assert(q2.contains(q1[0]));
        assert(q2.len() > 0);
        assert(q2.contains(q2[0]));
        assert(q1.contains(q2[0]));
        let i1 = choose|i: int| 0 <= i < q2.len() && q2[i] == q1[0];
        let i2 = choose|i: int| 0 <= i < q1.len() && q1[i] == q2[0];
        assert(q1[0] == q2[0]) by {
            if i1 > 0 {
                assert(q2[0] < q2[i1]);
                if i2 > 0 {
                    assert(q1[0] < q1[i2]);
                }
            }
        }
        let r1 = q1.drop_first();
        let r2 = q2.drop_first();
        assert forall|x: usize| #[trigger] r1.contains(x) <==> r2.contains(x) by {
            if r1.contains(x) {
                let i = choose|i: int| 0 <= i < r1.len() && r1[i] == x;
                assert(q1[i + 1] == x);
                assert(q1.contains(x));
                assert(q2.contains(x));
                assert(q1[0] < q1[i + 1]);
                let k = choose|k: int| 0 <= k < q2.len() && q2[k] == x;
                assert(x != q1[0]);
                assert(k != 0);
                assert(r2[k - 1] == x);
            }
            if r2.contains(x) {
                let i = choose|i: int| 0 <= i < r2.len() && r2[i] == x;
                assert(q2[i + 1] == x);
                assert(q2.contains(x));
                assert(q1.contains(x));
                assert(q2[0] < q2[i + 1]);
                let k = choose|k: int| 0 <= k < q1.len() && q1[k] == x;
                assert(x != q2[0]);
                assert(k != 0);
                assert(r1[k - 1] == x);
            }
        }
        lemma_increasing_unique(r1, r2);
        assert(q1 =~= q2) by {
            assert forall|i: int| 0 <= i < q1.len() implies q1[i] == q2[i] by {
                if i > 0 {
                    assert(q1[i] == r1[i - 1]);
                    assert(q2[i] == r2[i - 1]);
                }
            }
        }
    }
}

/// An increasing sequence with the elements of `s` is `ascending(s)`.
pub proof fn lemma_ascending(q: Seq<usize>, s: Set<usize>)
    requires
        increasing(q),
        forall|x: usize| #[trigger] s.contains(x) <==> q.contains(x),
    ensures
        ascending(s) == q,
{
    let a = ascending(s);
    assert(increasing(a) && forall|x: usize| #[trigger] s.contains(x) <==> a.contains(x));
    assert forall|x: usize| #[trigger] a.contains(x) <==> q.contains(x) by {
        assert(s.contains(x) <==> a.contains(x));
        assert(s.contains(x) <==> q.contains(x));
    }
    lemma_increasing_unique(a, q);
}

/// Builds a stage.
pub struct StageBuilder<N> {
    components: Vec<usize>,
    systems: Vec<GraphNode<N>>,
    edges: Vec<(usize, usize)>,
}

/// The edges of system `id` with access `a` once the listeners it runs are
/// accounted for: from each id it only reads, then to each id it writes,
/// each in increasing order.
pub open spec fn system_edges(t: Map<usize, Seq<Access>>, id: usize, a: Access) -> Seq<(usize, usize)> {
    let rw = depend_rw(t, a.rw_set(), a.m_set());
    let w = depend_w(t, a.rw_set(), a.w_set(), a.m_set());
    ascending(rw.difference(w)).map_values(|k: usize| edge_of(k, id, true))
        + ascending(w).map_values(|k: usize| edge_of(k, id, false))
}

/// The edges of the systems `nodes`, in order.
pub open spec fn all_system_edges<N>(t: Map<usize, Seq<Access>>, nodes: Seq<GraphNode<N>>) -> Seq<(usize, usize)>
    decreases nodes.len(),
{
    if nodes.len() == 0 {
        Seq::empty()
    } else {
        all_system_edges(t, nodes.drop_last()) + system_edges(t, nodes.last().id, nodes.last().access)
    }
}

/// The data ids that system `id` with access `a` has edges with.
pub open spec fn system_data(t: Map<usize, Seq<Access>>, a: Access) -> Set<usize> {
    depend_rw(t, a.rw_set(), a.m_set()).difference(depend_w(t, a.rw_set(), a.w_set(), a.m_set()))
        .union(depend_w(t, a.rw_set(), a.w_set(), a.m_set()))
}

/// The write conflicts of a system with access `a`.
pub open spec fn system_conflicts(t: Map<usize, Seq<Access>>, a: Access) -> Set<usize> {
    depend_conflicts(t, a.rw_set(), a.m_set())
}

/// The names of the data ids `c`, in increasing order of id.
pub open spec fn conflict_names(infos: Seq<ArchetypeComponentInfo>, c: Set<usize>) -> Seq<Seq<char>> {
    ascending(c).map_values(|k: usize| infos[k as int].name@)
}

/// The error of building a stage whose first system with a write conflict is
/// `node`.
pub open spec fn conflict_error<N>(e: BuildErr, t: Map<usize, Seq<Access>>, infos: Seq<ArchetypeComponentInfo>, node: GraphNode<N>) -> bool {
    e matches BuildErr::WriteConflict(label, names) && label@ == node.label@
        && names@.map_values(|n: String| n@) == conflict_names(infos, system_conflicts(t, node.access))
}

/// The error for system `node`, whose listeners have the write conflicts
/// `c`.
fn conflict_error_of<N>(listeners: &ListenerAccess, node: &GraphNode<N>, c: &FixedBitSet, infos: &Vec<ArchetypeComponentInfo>) -> (e: BuildErr)
    requires
        listeners.wf(),
        listeners.bound() <= infos@.len(),
        bit_ones(*c) == system_conflicts(listeners.table(), node.access),
    ensures
        conflict_error(e, listeners.table(), infos@, *node),
{
    let ids = bits_ones(c);
    let ghost cs = system_conflicts(listeners.table(), node.access);
    proof {
        lemma_conflicts_bounded(listeners, node.access.rw_set(), node.access.m_set());
        assert forall|x: usize| #[trigger] ids@.contains(x) implies x < infos@.len() by {
            assert(cs.contains(x));
        }
    }
    let mut names: Vec<String> = Vec::new();
    let mut j: usize = 0;
    while j < ids.len()
        invariant
            0 <= j <= ids@.len(),
            names@.len() == j,
            forall|x: usize| #[trigger] ids@.contains(x) ==> x < infos@.len(),
            forall|k: int| 0 <= k < j ==> #[trigger] names@[k]@ == infos@[ids@[k] as int].name@,
        decreases ids@.len() - j,
    {
        let id = ids[j];
        proof {
            assert(ids@.contains(id));
        }
        names.push(infos[id].name.to_owned());
        j = j + 1;
    }
    let label = node.label.clone();
    proof {
        lemma_ascending(ids@, cs);
        assert(names@.map_values(|n: String| n@) =~= conflict_names(infos@, cs));
    }
    BuildErr::WriteConflict(label, names)
}

impl<N> StageBuilder<N> {
    /// The systems added, in order.
    pub closed spec fn nodes(&self) -> Seq<GraphNode<N>> {
        self.systems@
    }

    /// The edges given explicitly, in order.
    pub closed spec fn explicit_edges(&self) -> Seq<(usize, usize)> {
        self.edges@
    }

    pub closed spec fn wf(&self) -> bool {
        &&& self.components@.len() == 0
        &&& forall|i: int| 0 <= i < self.systems@.len() ==> (#[trigger] self.systems@[i]).access.wf()
    }

    /// An empty stage.
    pub fn new() -> (r: Self)
        ensures
            r.wf(),
            r.nodes() == Seq::<GraphNode<N>>::empty(),
            r.explicit_edges() == Seq::<(usize, usize)>::empty(),
    {
        StageBuilder { components: Vec::new(), systems: Vec::new(), edges: Vec::new() }
    }

    /// Adds a system.
    pub fn add_node(&mut self, node: GraphNode<N>)
        requires
            old(self).wf(),
            node.access.wf(),
        ensures
            final(self).wf(),
            final(self).nodes() == old(self).nodes().push(node),
            final(self).explicit_edges() == old(self).explicit_edges(),
    {
        self.systems.push(node);
        proof {
            assert forall|i: int| 0 <= i < self.systems@.len() implies (#[trigger] self.systems@[i]).access.wf() by {
                if i < old(self).systems@.len() {
                    assert(self.systems@[i] == old(self).systems@[i]);
                }
            }
        }
    }

    /// Orders node `before` before node `after`.
    pub fn order(self, before: usize, after: usize) -> (r: Self)
        requires
            self.wf(),
        ensures
            r.wf(),
            r.nodes() == self.nodes(),
            r.explicit_edges() == self.explicit_edges().push((before, after)),
    {
        let mut s = self;
        s.edges.push((before, after));
        s
    }

    /// The graph of the stage: the explicit edges, then for each system, in
    /// order, edges from every data id it (or a listener it runs) reads
    /// without writing and to every data id it (or a listener it runs)
    /// writes; the data nodes are the ids with such edges.
    ///
    /// A system whose listeners have a write conflict fails the build: the
    /// error names the first such system and the data in conflict, as
    /// `infos` names them.
    #[verifier::spinoff_prover]
    #[verifier::rlimit(40)]
    pub fn build(self, listeners: &ListenerAccess, infos: &Vec<ArchetypeComponentInfo>) -> (r: Result<StagePlan<N>, BuildErr>)
        requires
            self.wf(),
            listeners.wf(),
            listeners.bound() <= infos@.len(),
        ensures
            r is Ok <==> forall|i: int| 0 <= i < self.nodes().len()
                ==> #[trigger] system_conflicts(listeners.table(), self.nodes()[i].access) == Set::<usize>::empty(),
            r matches Ok(plan) ==> {
                &&& plan.systems@ == self.nodes()
                &&& plan.edges@ == self.explicit_edges() + all_system_edges(listeners.table(), self.nodes())
                &&& forall|k: usize| plan.components@.contains(k) <==> exists|i: int| 0 <= i < self.nodes().len()
                    && #[trigger] system_data(listeners.table(), self.nodes()[i].access).contains(k)
                &&& plan.components@.no_duplicates()
            },
            r matches Err(e) ==> exists|i: int| 0 <= i < self.nodes().len()
                && system_conflicts(listeners.table(), self.nodes()[i].access) != Set::<usize>::empty()
                && (forall|j: int| 0 <= j < i ==> #[trigger] system_conflicts(listeners.table(), self.nodes()[j].access) == Set::<usize>::empty())
                && #[trigger] conflict_error(e, listeners.table(), infos@, self.nodes()[i]),
    {
        let ghost t = listeners.table();
        let ghost nodes0 = self.systems@;
        let ghost explicit = self.edges@;
        let StageBuilder { mut components, systems, mut edges } = self;
        let mut i: usize = 0;
        proof {
            assert(nodes0.subrange(0, 0) =~= Seq::<GraphNode<N>>::empty());
            assert(explicit + all_system_edges(t, nodes0.subrange(0, 0)) =~= explicit);
        }
        while i < systems.len()
            invariant
                listeners.wf(),
                t == listeners.table(),
                systems@ == nodes0,
                forall|q: int| 0 <= q < nodes0.len() ==> (#[trigger] nodes0[q]).access.wf(),
                0 <= i <= systems@.len(),
                edges@ == explicit + all_system_edges(t, nodes0.subrange(0, i as int)),
                components@.no_duplicates(),
                forall|k: usize| components@.contains(k) <==> exists|q: int| 0 <= q < i
                    && #[trigger] system_data(t, nodes0[q].access).contains(k),
                forall|q: int| 0 <= q < i ==> #[trigger] system_conflicts(t, nodes0[q].access) == Set::<usize>::empty(),
                listeners.bound() <= infos@.len(),
                nodes0 == self.nodes(),
            decreases systems@.len() - i,
        {
            let s = &systems[i];
            proof {
                assert(s.access.wf());
            }
            let res = write_depend(listeners, s.access.get_reads_and_writes(), s.access.get_writes(), s.access.get_modify());
            let ghost e_before = edges@;
            let ghost c_before = components@;
            match res {
                Ok((mut r, w)) => {
                    bits_difference_with(&mut r, &w);
                    let rs = bits_ones(&r);
                    let wsv = bits_ones(&w);
                    push_edges(&mut edges, &mut components, &rs, s.id, true);
                    push_edges(&mut edges, &mut components, &wsv, s.id, false);
                    proof {
                        let rwd = depend_rw(t, s.access.rw_set(), s.access.m_set());
                        let wd = depend_w(t, s.access.rw_set(), s.access.w_set(), s.access.m_set());
                        lemma_ascending(rs@, rwd.difference(wd));
                        lemma_ascending(wsv@, wd);
                        let sub = nodes0.subrange(0, i as int + 1);
                        assert(sub.drop_last() =~= nodes0.subrange(0, i as int));
                        assert(sub.last() == nodes0[i as int]);
                        assert(edges@ =~= explicit + all_system_edges(t, sub));
                        assert forall|k: usize| components@.contains(k) <==> exists|q: int| 0 <= q < i + 1
                            && #[trigger] system_data(t, nodes0[q].access).contains(k) by {
                            if exists|q: int| 0 <= q < i + 1 && #[trigger] system_data(t, nodes0[q].access).contains(k) {
                                let q = choose|q: int| 0 <= q < i + 1 && #[trigger] system_data(t, nodes0[q].access).contains(k);
                                if q == i as int {
                                    if wd.contains(k) {
                                        assert(wsv@.contains(k));
                                    } else {
                                        assert(rs@.contains(k));
                                    }
                                }
                            }
                            if components@.contains(k) && !c_before.contains(k) {
                                if rs@.contains(k) {
                                    assert(system_data(t, nodes0[i as int].access).contains(k));
                                } else {
                                    assert(wsv@.contains(k));
                                    assert(system_data(t, nodes0[i as int].access).contains(k));
                                }
                            }
                        }
                    }
                },
                Err(c) => {
                    let e = conflict_error_of(listeners, s, &c, infos);
                    proof {
                        assert(system_conflicts(t, nodes0[i as int].access) != Set::<usize>::empty());
                        assert(conflict_error(e, t, infos@, nodes0[i as int]));
                        assert(!(forall|q: int| 0 <= q < nodes0.len()
                            ==> #[trigger] system_conflicts(t, nodes0[q].access) == Set::<usize>::empty()));
                    }
                    return Err(e);
                },
            }
            proof {
                assert(system_conflicts(t, nodes0[i as int].access) == Set::<usize>::empty());
            }
            i = i + 1;
        }
        proof {
            assert(nodes0.subrange(0, nodes0.len() as int) =~= nodes0);
            assert(i == nodes0.len());
            assert forall|k: usize| components@.contains(k) <==> exists|q: int| 0 <= q < nodes0.len()
                && #[trigger] system_data(t, nodes0[q].access).contains(k) by {
            }
        }
        Ok(StagePlan { components, systems, edges })
    }
}

} // verus!
