//! What a system may end up reading and writing through the listeners that
//! its modifications run, directly or in turn.
use vstd::prelude::*;
use fixedbitset::FixedBitSet;
use crate::dispatch::access::{Access, ListenerAccess};
use crate::dispatch::bits::{bit_ones, bit_len, bits_within, bits_new, bits_clone, bits_intersect_with,
    bits_union_with, bits_count_ones, bits_ones, bits_len, lemma_bounded_set};

verus! {

/// A listener: an archetype component id and a position in its list.
pub type Hop = (usize, int);

/// The access of listener `h`.
pub open spec fn hop(t: Map<usize, Seq<Access>>, h: Hop) -> Access {
    t[h.0][h.1]
}

/// What a chain of listeners `p` has read or written after its first `n`
/// steps, starting from `rw0`.
pub open spec fn rw_upto(t: Map<usize, Seq<Access>>, rw0: Set<usize>, p: Seq<Hop>, n: nat) -> Set<usize>
    decreases n,
{
    if n == 0 {
        rw0
    } else {
        rw_upto(t, rw0, p, (n - 1) as nat).union(hop(t, p[n - 1]).rw_set())
    }
}

/// What a chain of listeners `p` has written after its first `n` steps,
/// starting from `w0`.
pub open spec fn w_upto(t: Map<usize, Seq<Access>>, w0: Set<usize>, p: Seq<Hop>, n: nat) -> Set<usize>
    decreases n,
{
    if n == 0 {
        w0
    } else {
        w_upto(t, w0, p, (n - 1) as nat).union(hop(t, p[n - 1]).w_set())
    }
}

/// Listener `h` listens on one of the ids `m`.
pub open spec fn listens(t: Map<usize, Seq<Access>>, m: Set<usize>, h: Hop) -> bool {
    &&& m.contains(h.0)
    &&& t.contains_key(h.0)
    &&& 0 <= h.1 < t[h.0].len()
}

/// Listener `h` runs first after an access that reads or writes `rw0` and
/// modifies `m0`, without conflict: it listens on a modified id and writes
/// nothing read or written so far.
pub open spec fn first_hop_ok(t: Map<usize, Seq<Access>>, rw0: Set<usize>, m0: Set<usize>, h: Hop) -> bool {
    &&& listens(t, m0, h)
    &&& rw0.disjoint(hop(t, h).w_set())
}

/// `p` is a chain of listeners that run one after the other, from an access
/// that reads or writes `rw0` and modifies `m0`: each listens on an id that
/// the previous one modifies, and writes nothing read or written so far in
/// the chain.
pub open spec fn path_ok(t: Map<usize, Seq<Access>>, rw0: Set<usize>, m0: Set<usize>, p: Seq<Hop>) -> bool {
    forall|i: int| 0 <= i < p.len() ==> #[trigger] step_ok(t, rw0, m0, p, i)
}

/// The ids the `i`-th listener of chain `p` can listen on.
pub open spec fn listened(t: Map<usize, Seq<Access>>, m0: Set<usize>, p: Seq<Hop>, i: int) -> Set<usize> {
    if i == 0 { m0 } else { hop(t, p[i - 1]).m_set() }
}

/// The `i`-th listener of chain `p` runs after the ones before it.
pub open spec fn step_ok(t: Map<usize, Seq<Access>>, rw0: Set<usize>, m0: Set<usize>, p: Seq<Hop>, i: int) -> bool {
    first_hop_ok(t, rw_upto(t, rw0, p, i as nat), listened(t, m0, p, i), p[i])
}

/// Everything read or written by an access (`rw0`, modifying `m0`) together
/// with the chains of listeners it runs.
pub open spec fn depend_rw(t: Map<usize, Seq<Access>>, rw0: Set<usize>, m0: Set<usize>) -> Set<usize> {
    Set::new(|x: usize| exists|p: Seq<Hop>| #[trigger] path_ok(t, rw0, m0, p) && rw_upto(t, rw0, p, p.len()).contains(x))
}

/// Everything written by an access (`w0`, reading or writing `rw0`,
/// modifying `m0`) together with the chains of listeners it runs.
pub open spec fn depend_w(t: Map<usize, Seq<Access>>, rw0: Set<usize>, w0: Set<usize>, m0: Set<usize>) -> Set<usize> {
    Set::new(|x: usize| exists|p: Seq<Hop>| #[trigger] path_ok(t, rw0, m0, p) && w_upto(t, w0, p, p.len()).contains(x))
}

proof fn lemma_upto_cons(t: Map<usize, Seq<Access>>, rw0: Set<usize>, w0: Set<usize>, h: Hop, q: Seq<Hop>, n: nat)
    requires
        n <= q.len(),
    ensures
        rw_upto(t, rw0, seq![h] + q, n + 1) == rw_upto(t, rw0.union(hop(t, h).rw_set()), q, n),
        w_upto(t, w0, seq![h] + q, n + 1) == w_upto(t, w0.union(hop(t, h).w_set()), q, n),
    decreases n,
{
    let p = seq![h] + q;
    if n == 0 {
        assert(p[0] == h);
        assert(rw_upto(t, rw0, p, 0) == rw0);
        assert(w_upto(t, w0, p, 0) == w0);
    } else {
        lemma_upto_cons(t, rw0, w0, h, q, (n - 1) as nat);
        assert(p[n as int] == q[n - 1]);
    }
}

proof fn lemma_path_cons(t: Map<usize, Seq<Access>>, rw0: Set<usize>, m0: Set<usize>, h: Hop, q: Seq<Hop>)
    ensures
        path_ok(t, rw0, m0, seq![h] + q) <==> (first_hop_ok(t, rw0, m0, h)
            && path_ok(t, rw0.union(hop(t, h).rw_set()), hop(t, h).m_set(), q)),
{
    let p = seq![h] + q;
    let rw1 = rw0.union(hop(t, h).rw_set());
    let m1 = hop(t, h).m_set();
    assert forall|i: int| 1 <= i < p.len() implies #[trigger] step_ok(t, rw0, m0, p, i) == step_ok(t, rw1, m1, q, i - 1) by {
        lemma_upto_cons(t, rw0, Set::empty(), h, q, (i - 1) as nat);
        assert(p[i] == q[i - 1]);
        if i >= 2 {
            assert(p[i - 1] == q[i - 2]);
        } else {
            assert(p[0] == h);
        }
    }
    assert(rw_upto(t, rw0, p, 0) == rw0);
    assert(p[0] == h);
    assert(step_ok(t, rw0, m0, p, 0) == first_hop_ok(t, rw0, m0, h));
    if path_ok(t, rw0, m0, p) {
        assert(step_ok(t, rw0, m0, p, 0));
        assert forall|i: int| 0 <= i < q.len() implies #[trigger] step_ok(t, rw1, m1, q, i) by {
            assert(step_ok(t, rw0, m0, p, i + 1));
        }
    }
    if first_hop_ok(t, rw0, m0, h) && path_ok(t, rw1, m1, q) {
        assert forall|i: int| 0 <= i < p.len() implies #[trigger] step_ok(t, rw0, m0, p, i) by {
            if i >= 1 {
                assert(step_ok(t, rw1, m1, q, i - 1));
            }
        }
    }
}

/// The union of the dependencies through the listeners `h` that run first.
pub open spec fn first_hops_rw(t: Map<usize, Seq<Access>>, rw0: Set<usize>, m0: Set<usize>) -> Set<usize> {
    Set::new(|x: usize| exists|h: Hop| #[trigger] first_hop_ok(t, rw0, m0, h)
        && depend_rw(t, rw0.union(hop(t, h).rw_set()), hop(t, h).m_set()).contains(x))
}

/// The union of the written dependencies through the listeners `h` that run
/// first.
pub open spec fn first_hops_w(t: Map<usize, Seq<Access>>, rw0: Set<usize>, w0: Set<usize>, m0: Set<usize>) -> Set<usize> {
    Set::new(|x: usize| exists|h: Hop| #[trigger] first_hop_ok(t, rw0, m0, h)
        && depend_w(t, rw0.union(hop(t, h).rw_set()), w0.union(hop(t, h).w_set()), hop(t, h).m_set()).contains(x))
}

/// The dependencies of an access are its own access and the dependencies
/// through each listener that runs first.
pub proof fn lemma_depend_unfold(t: Map<usize, Seq<Access>>, rw0: Set<usize>, w0: Set<usize>, m0: Set<usize>)
    ensures
        depend_rw(t, rw0, m0) == rw0.union(first_hops_rw(t, rw0, m0)),
        depend_w(t, rw0, w0, m0) == w0.union(first_hops_w(t, rw0, w0, m0)),
{
    let e = Seq::<Hop>::empty();
    assert(path_ok(t, rw0, m0, e));
    assert forall|x: usize| depend_rw(t, rw0, m0).contains(x) <==> rw0.union(first_hops_rw(t, rw0, m0)).contains(x) by {
        if depend_rw(t, rw0, m0).contains(x) {
            let p = choose|p: Seq<Hop>| #[trigger] path_ok(t, rw0, m0, p) && rw_upto(t, rw0, p, p.len()).contains(x);
            if p.len() > 0 {
                let h = p[0];
                let q = p.drop_first();
                assert(p == seq![h] + q);
                lemma_path_cons(t, rw0, m0, h, q);
                lemma_upto_cons(t, rw0, w0, h, q, q.len());
                assert(path_ok(t, rw0.union(hop(t, h).rw_set()), hop(t, h).m_set(), q));
                assert(depend_rw(t, rw0.union(hop(t, h).rw_set()), hop(t, h).m_set()).contains(x));
                assert(first_hop_ok(t, rw0, m0, h));
            }
        }
        if rw0.contains(x) {
            assert(rw_upto(t, rw0, e, 0) == rw0);
        }
        if first_hops_rw(t, rw0, m0).contains(x) {
            let h = choose|h: Hop| #[trigger] first_hop_ok(t, rw0, m0, h)
                && depend_rw(t, rw0.union(hop(t, h).rw_set()), hop(t, h).m_set()).contains(x);
            let rw1 = rw0.union(hop(t, h).rw_set());
            let q = choose|q: Seq<Hop>| #[trigger] path_ok(t, rw1, hop(t, h).m_set(), q) && rw_upto(t, rw1, q, q.len()).contains(x);
            lemma_path_cons(t, rw0, m0, h, q);
            lemma_upto_cons(t, rw0, w0, h, q, q.len());
            assert(path_ok(t, rw0, m0, seq![h] + q));
            assert((seq![h] + q).len() == q.len() + 1);
        }
    }
    assert(depend_rw(t, rw0, m0) =~= rw0.union(first_hops_rw(t, rw0, m0)));
    assert forall|x: usize| depend_w(t, rw0, w0, m0).contains(x) <==> w0.union(first_hops_w(t, rw0, w0, m0)).contains(x) by {
        if depend_w(t, rw0, w0, m0).contains(x) {
            let p = choose|p: Seq<Hop>| #[trigger] path_ok(t, rw0, m0, p) && w_upto(t, w0, p, p.len()).contains(x);
            if p.len() > 0 {
                let h = p[0];
                let q = p.drop_first();
                assert(p == seq![h] + q);
                lemma_path_cons(t, rw0, m0, h, q);
                lemma_upto_cons(t, rw0, w0, h, q, q.len());
                assert(path_ok(t, rw0.union(hop(t, h).rw_set()), hop(t, h).m_set(), q));
                assert(depend_w(t, rw0.union(hop(t, h).rw_set()), w0.union(hop(t, h).w_set()), hop(t, h).m_set()).contains(x));
                assert(first_hop_ok(t, rw0, m0, h));
            }
        }
        if w0.contains(x) {
            assert(w_upto(t, w0, e, 0) == w0);
        }
        if first_hops_w(t, rw0, w0, m0).contains(x) {
            let h = choose|h: Hop| #[trigger] first_hop_ok(t, rw0, m0, h)
                && depend_w(t, rw0.union(hop(t, h).rw_set()), w0.union(hop(t, h).w_set()), hop(t, h).m_set()).contains(x);
            let rw1 = rw0.union(hop(t, h).rw_set());
            let w1 = w0.union(hop(t, h).w_set());
            let q = choose|q: Seq<Hop>| #[trigger] path_ok(t, rw1, hop(t, h).m_set(), q) && w_upto(t, w1, q, q.len()).contains(x);
            lemma_path_cons(t, rw0, m0, h, q);
            lemma_upto_cons(t, rw0, w0, h, q, q.len());
            assert(path_ok(t, rw0, m0, seq![h] + q));
            assert((seq![h] + q).len() == q.len() + 1);
        }
    }
    assert(depend_w(t, rw0, w0, m0) =~= w0.union(first_hops_w(t, rw0, w0, m0)));
}


/// `x` is a write conflict of an access (`rw0`, modifying `m0`): after the
/// chain of listeners `p`, which runs without conflict, listener `h` listens
/// on an id the chain's last step modifies and writes `x`, which the access
/// or the chain has read or written.
pub open spec fn conflict_at(t: Map<usize, Seq<Access>>, rw0: Set<usize>, m0: Set<usize>, p: Seq<Hop>, h: Hop, x: usize) -> bool {
    &&& path_ok(t, rw0, m0, p)
    &&& listens(t, listened(t, m0, p, p.len() as int), h)
    &&& rw_upto(t, rw0, p, p.len()).contains(x)
    &&& hop(t, h).w_set().contains(x)
}

/// The write conflicts of an access (`rw0`, modifying `m0`) through the
/// listeners it runs, directly or in turn.
pub open spec fn depend_conflicts(t: Map<usize, Seq<Access>>, rw0: Set<usize>, m0: Set<usize>) -> Set<usize> {
    Set::new(|x: usize| exists|p: Seq<Hop>, h: Hop| #[trigger] conflict_at(t, rw0, m0, p, h, x))
}

/// The conflicts through listener `h`, run first: what it writes of `rw0`,
/// or, when that is nothing, the conflicts of the chains it starts.
pub open spec fn hop_conflicts(t: Map<usize, Seq<Access>>, rw0: Set<usize>, h: Hop) -> Set<usize> {
    if rw0.disjoint(hop(t, h).w_set()) {
        depend_conflicts(t, rw0.union(hop(t, h).rw_set()), hop(t, h).m_set())
    } else {
        rw0.intersect(hop(t, h).w_set())
    }
}

/// The union of the conflicts through the listeners that run first.
pub open spec fn first_hops_conflicts(t: Map<usize, Seq<Access>>, rw0: Set<usize>, m0: Set<usize>) -> Set<usize> {
    Set::new(|x: usize| exists|h: Hop| #[trigger] listens(t, m0, h) && hop_conflicts(t, rw0, h).contains(x))
}

proof fn lemma_listened_cons(t: Map<usize, Seq<Access>>, m0: Set<usize>, h: Hop, q: Seq<Hop>)
    ensures
        listened(t, m0, seq![h] + q, q.len() as int + 1) == listened(t, hop(t, h).m_set(), q, q.len() as int),
{
    let p = seq![h] + q;
    if q.len() == 0 {
        assert(p[0] == h);
    } else {
        assert(p[q.len() as int] == q[q.len() - 1]);
    }
}

/// The conflicts of an access are those through each listener that runs
/// first.
pub proof fn lemma_conflicts_unfold(t: Map<usize, Seq<Access>>, rw0: Set<usize>, m0: Set<usize>)
    ensures
        depend_conflicts(t, rw0, m0) == first_hops_conflicts(t, rw0, m0),
{
    let e = Seq::<Hop>::empty();
    assert forall|x: usize| depend_conflicts(t, rw0, m0).contains(x) <==> first_hops_conflicts(t, rw0, m0).contains(x) by {
        if depend_conflicts(t, rw0, m0).contains(x) {
            let (p, h) = choose|p: Seq<Hop>, h: Hop| #[trigger] conflict_at(t, rw0, m0, p, h, x);
            if p.len() == 0 {
                assert(rw_upto(t, rw0, p, 0) == rw0);
                assert(!rw0.disjoint(hop(t, h).w_set()));
                assert(hop_conflicts(t, rw0, h).contains(x));
                assert(listens(t, m0, h) && hop_conflicts(t, rw0, h).contains(x));
            } else {
                let h0 = p[0];
                let q = p.drop_first();
                assert(p == seq![h0] + q);
                lemma_path_cons(t, rw0, m0, h0, q);
                lemma_upto_cons(t, rw0, Set::empty(), h0, q, q.len());
                lemma_listened_cons(t, m0, h0, q);
                let rw1 = rw0.union(hop(t, h0).rw_set());
                assert(conflict_at(t, rw1, hop(t, h0).m_set(), q, h, x));
                assert(depend_conflicts(t, rw1, hop(t, h0).m_set()).contains(x));
                assert(hop_conflicts(t, rw0, h0).contains(x));
                assert(listens(t, m0, h0) && hop_conflicts(t, rw0, h0).contains(x));
            }
        }
        if first_hops_conflicts(t, rw0, m0).contains(x) {
            let h = choose|h: Hop| #[trigger] listens(t, m0, h) && hop_conflicts(t, rw0, h).contains(x);
            if rw0.disjoint(hop(t, h).w_set()) {
                let rw1 = rw0.union(hop(t, h).rw_set());
                let m1 = hop(t, h).m_set();
                let (q, h2) = choose|q: Seq<Hop>, h2: Hop| #[trigger] conflict_at(t, rw1, m1, q, h2, x);
                lemma_path_cons(t, rw0, m0, h, q);
                lemma_upto_cons(t, rw0, Set::empty(), h, q, q.len());
                lemma_listened_cons(t, m0, h, q);
                assert((seq![h] + q).len() == q.len() + 1);
                assert(conflict_at(t, rw0, m0, seq![h] + q, h2, x));
            } else {
                assert(path_ok(t, rw0, m0, e));
                assert(rw_upto(t, rw0, e, 0) == rw0);
                assert(conflict_at(t, rw0, m0, e, h, x));
            }
        }
    }
    assert(depend_conflicts(t, rw0, m0) =~= first_hops_conflicts(t, rw0, m0));
}

/// Every conflict is an id some listener writes, so it lies below the
/// bound of the listener table.
pub proof fn lemma_conflicts_bounded(listeners: &ListenerAccess, rw0: Set<usize>, m0: Set<usize>)
    requires
        listeners.wf(),
    ensures
        forall|x: usize| #[trigger] depend_conflicts(listeners.table(), rw0, m0).contains(x) ==> x < listeners.bound(),
{
    let t = listeners.table();
    assert forall|x: usize| #[trigger] depend_conflicts(t, rw0, m0).contains(x) implies x < listeners.bound() by {
        let (p, h) = choose|p: Seq<Hop>, h: Hop| #[trigger] conflict_at(t, rw0, m0, p, h, x);
        listeners.lemma_entry(h.0, h.1);
        hop(t, h).lemma_below_extent();
    }
}

/// With no listener on what it modifies, an access has no conflict.
pub proof fn lemma_no_listener_no_conflict(t: Map<usize, Seq<Access>>, rw0: Set<usize>, m0: Set<usize>)
    requires
        forall|k: usize| #[trigger] m0.contains(k) ==> !t.contains_key(k),
    ensures
        depend_conflicts(t, rw0, m0) == Set::<usize>::empty(),
{
    lemma_conflicts_unfold(t, rw0, m0);
    assert(first_hops_conflicts(t, rw0, m0) =~= Set::<usize>::empty());
}

/// Listener `h` is among those handled before position `ai` of the list of
/// `ws[wi]`, or it listens on one of `ws[0..wi]`.
pub open spec fn hop_done(ws: Seq<usize>, wi: int, ai: int, h: Hop) -> bool {
    (exists|i: int| 0 <= i < wi && #[trigger] ws[i] == h.0) || (0 <= wi < ws.len() && h.0 == ws[wi] && h.1 < ai)
}

/// The dependencies through the first listeners handled so far.
pub open spec fn done_rw(t: Map<usize, Seq<Access>>, rw0: Set<usize>, m0: Set<usize>, ws: Seq<usize>, wi: int, ai: int) -> Set<usize> {
    Set::new(|x: usize| exists|h: Hop| #[trigger] first_hop_ok(t, rw0, m0, h) && hop_done(ws, wi, ai, h)
        && depend_rw(t, rw0.union(hop(t, h).rw_set()), hop(t, h).m_set()).contains(x))
}

/// The written dependencies through the first listeners handled so far.
pub open spec fn done_w(t: Map<usize, Seq<Access>>, rw0: Set<usize>, w0: Set<usize>, m0: Set<usize>, ws: Seq<usize>, wi: int, ai: int) -> Set<usize> {
    Set::new(|x: usize| exists|h: Hop| #[trigger] first_hop_ok(t, rw0, m0, h) && hop_done(ws, wi, ai, h)
        && depend_w(t, rw0.union(hop(t, h).rw_set()), w0.union(hop(t, h).w_set()), hop(t, h).m_set()).contains(x))
}

/// The conflicts through the first listeners handled so far.
pub open spec fn done_conflicts(t: Map<usize, Seq<Access>>, rw0: Set<usize>, m0: Set<usize>, ws: Seq<usize>, wi: int, ai: int) -> Set<usize> {
    Set::new(|x: usize| exists|h: Hop| #[trigger] listens(t, m0, h) && hop_done(ws, wi, ai, h)
        && hop_conflicts(t, rw0, h).contains(x))
}

proof fn lemma_done_same(t: Map<usize, Seq<Access>>, rw0: Set<usize>, w0: Set<usize>, m0: Set<usize>, ws: Seq<usize>,
    wi1: int, ai1: int, wi2: int, ai2: int)
    requires
        forall|h: Hop| listens(t, m0, h) ==> (hop_done(ws, wi1, ai1, h) <==> hop_done(ws, wi2, ai2, h)),
    ensures
        done_rw(t, rw0, m0, ws, wi1, ai1) == done_rw(t, rw0, m0, ws, wi2, ai2),
        done_w(t, rw0, w0, m0, ws, wi1, ai1) == done_w(t, rw0, w0, m0, ws, wi2, ai2),
        done_conflicts(t, rw0, m0, ws, wi1, ai1) == done_conflicts(t, rw0, m0, ws, wi2, ai2),
{
    assert(done_rw(t, rw0, m0, ws, wi1, ai1) =~= done_rw(t, rw0, m0, ws, wi2, ai2));
    assert(done_w(t, rw0, w0, m0, ws, wi1, ai1) =~= done_w(t, rw0, w0, m0, ws, wi2, ai2));
    assert(done_conflicts(t, rw0, m0, ws, wi1, ai1) =~= done_conflicts(t, rw0, m0, ws, wi2, ai2));
}

proof fn lemma_done_step(t: Map<usize, Seq<Access>>, rw0: Set<usize>, w0: Set<usize>, m0: Set<usize>, ws: Seq<usize>,
    wi: int, ai: int)
    requires
        0 <= wi < ws.len(),
        forall|i: int, j: int| 0 <= i < j < ws.len() ==> ws[i] < ws[j],
    ensures
        first_hop_ok(t, rw0, m0, (ws[wi], ai)) ==> {
            &&& done_rw(t, rw0, m0, ws, wi, ai + 1) == done_rw(t, rw0, m0, ws, wi, ai).union(
                depend_rw(t, rw0.union(hop(t, (ws[wi], ai)).rw_set()), hop(t, (ws[wi], ai)).m_set()))
            &&& done_w(t, rw0, w0, m0, ws, wi, ai + 1) == done_w(t, rw0, w0, m0, ws, wi, ai).union(
                depend_w(t, rw0.union(hop(t, (ws[wi], ai)).rw_set()), w0.union(hop(t, (ws[wi], ai)).w_set()), hop(t, (ws[wi], ai)).m_set()))
        },
        !first_hop_ok(t, rw0, m0, (ws[wi], ai)) ==> {
            &&& done_rw(t, rw0, m0, ws, wi, ai + 1) == done_rw(t, rw0, m0, ws, wi, ai)
            &&& done_w(t, rw0, w0, m0, ws, wi, ai + 1) == done_w(t, rw0, w0, m0, ws, wi, ai)
        },
        listens(t, m0, (ws[wi], ai)) ==> done_conflicts(t, rw0, m0, ws, wi, ai + 1)
            == done_conflicts(t, rw0, m0, ws, wi, ai).union(hop_conflicts(t, rw0, (ws[wi], ai))),
        !listens(t, m0, (ws[wi], ai)) ==> done_conflicts(t, rw0, m0, ws, wi, ai + 1)
            == done_conflicts(t, rw0, m0, ws, wi, ai),
{
    let h0: Hop = (ws[wi], ai);
    assert forall|h: Hop| hop_done(ws, wi, ai + 1, h) <==> (hop_done(ws, wi, ai, h) || h == h0) by {
        if hop_done(ws, wi, ai + 1, h) && !hop_done(ws, wi, ai, h) {
            assert(h.0 == ws[wi] && h.1 == ai);
        }
        if h == h0 {
            assert(hop_done(ws, wi, ai + 1, h));
        }
    }
    if first_hop_ok(t, rw0, m0, h0) {
        assert forall|x: usize| done_rw(t, rw0, m0, ws, wi, ai + 1).contains(x) <==> done_rw(t, rw0, m0, ws, wi, ai).union(
            depend_rw(t, rw0.union(hop(t, h0).rw_set()), hop(t, h0).m_set())).contains(x) by {
            if done_rw(t, rw0, m0, ws, wi, ai + 1).contains(x) {
                let h = choose|h: Hop| #[trigger] first_hop_ok(t, rw0, m0, h) && hop_done(ws, wi, ai + 1, h)
                    && depend_rw(t, rw0.union(hop(t, h).rw_set()), hop(t, h).m_set()).contains(x);
                if h != h0 {
                    assert(hop_done(ws, wi, ai, h));
                }
            }
            if depend_rw(t, rw0.union(hop(t, h0).rw_set()), hop(t, h0).m_set()).contains(x) {
                assert(hop_done(ws, wi, ai + 1, h0));
            }
            if done_rw(t, rw0, m0, ws, wi, ai).contains(x) {
                let h = choose|h: Hop| #[trigger] first_hop_ok(t, rw0, m0, h) && hop_done(ws, wi, ai, h)
                    && depend_rw(t, rw0.union(hop(t, h).rw_set()), hop(t, h).m_set()).contains(x);
                assert(hop_done(ws, wi, ai + 1, h));
            }
        }
        assert(done_rw(t, rw0, m0, ws, wi, ai + 1) =~= done_rw(t, rw0, m0, ws, wi, ai).union(
            depend_rw(t, rw0.union(hop(t, h0).rw_set()), hop(t, h0).m_set())));
        assert forall|x: usize| done_w(t, rw0, w0, m0, ws, wi, ai + 1).contains(x) <==> done_w(t, rw0, w0, m0, ws, wi, ai).union(
            depend_w(t, rw0.union(hop(t, h0).rw_set()), w0.union(hop(t, h0).w_set()), hop(t, h0).m_set())).contains(x) by {
            if done_w(t, rw0, w0, m0, ws, wi, ai + 1).contains(x) {
                let h = choose|h: Hop| #[trigger] first_hop_ok(t, rw0, m0, h) && hop_done(ws, wi, ai + 1, h)
                    && depend_w(t, rw0.union(hop(t, h).rw_set()), w0.union(hop(t, h).w_set()), hop(t, h).m_set()).contains(x);
                if h != h0 {
                    assert(hop_done(ws, wi, ai, h));
                }
            }
            if depend_w(t, rw0.union(hop(t, h0).rw_set()), w0.union(hop(t, h0).w_set()), hop(t, h0).m_set()).contains(x) {
                assert(hop_done(ws, wi, ai + 1, h0));
            }
            if done_w(t, rw0, w0, m0, ws, wi, ai).contains(x) {
                let h = choose|h: Hop| #[trigger] first_hop_ok(t, rw0, m0, h) && hop_done(ws, wi, ai, h)
                    && depend_w(t, rw0.union(hop(t, h).rw_set()), w0.union(hop(t, h).w_set()), hop(t, h).m_set()).contains(x);
                assert(hop_done(ws, wi, ai + 1, h));
            }
        }
        assert(done_w(t, rw0, w0, m0, ws, wi, ai + 1) =~= done_w(t, rw0, w0, m0, ws, wi, ai).union(
            depend_w(t, rw0.union(hop(t, h0).rw_set()), w0.union(hop(t, h0).w_set()), hop(t, h0).m_set())));
    } else {
        assert(done_rw(t, rw0, m0, ws, wi, ai + 1) =~= done_rw(t, rw0, m0, ws, wi, ai));
        assert(done_w(t, rw0, w0, m0, ws, wi, ai + 1) =~= done_w(t, rw0, w0, m0, ws, wi, ai));
    }
    if listens(t, m0, h0) {
        assert forall|x: usize| done_conflicts(t, rw0, m0, ws, wi, ai + 1).contains(x) <==> done_conflicts(t, rw0, m0, ws, wi, ai).union(
            hop_conflicts(t, rw0, h0)).contains(x) by {
            if done_conflicts(t, rw0, m0, ws, wi, ai + 1).contains(x) {
                let h = choose|h: Hop| #[trigger] listens(t, m0, h) && hop_done(ws, wi, ai + 1, h)
                    && hop_conflicts(t, rw0, h).contains(x);
                if h != h0 {
                    assert(hop_done(ws, wi, ai, h));
                }
            }
            if hop_conflicts(t, rw0, h0).contains(x) {
                assert(hop_done(ws, wi, ai + 1, h0));
            }
            if done_conflicts(t, rw0, m0, ws, wi, ai).contains(x) {
                let h = choose|h: Hop| #[trigger] listens(t, m0, h) && hop_done(ws, wi, ai, h)
                    && hop_conflicts(t, rw0, h).contains(x);
                assert(hop_done(ws, wi, ai + 1, h));
            }
        }
        assert(done_conflicts(t, rw0, m0, ws, wi, ai + 1) =~= done_conflicts(t, rw0, m0, ws, wi, ai).union(hop_conflicts(t, rw0, h0)));
    } else {
        assert(done_conflicts(t, rw0, m0, ws, wi, ai + 1) =~= done_conflicts(t, rw0, m0, ws, wi, ai));
    }
}

/// What an access reading or writing `read_writes`, writing `writes` and
/// modifying `modifys` ends up reading-or-writing and writing, once the
/// listeners its modifications run are accounted for, in turn: each listener
/// on a modified id contributes its own access and modifications. A listener
/// that writes something read or written so far in its chain is a write
/// conflict: then the result is `Err` with every conflicting id.
pub fn write_depend(listeners: &ListenerAccess, read_writes: &FixedBitSet, writes: &FixedBitSet, modifys: &FixedBitSet)
    -> (r: Result<(FixedBitSet, FixedBitSet), FixedBitSet>)
    requires
        listeners.wf(),
        bits_within(*read_writes),
        bits_within(*writes),
        bits_within(*modifys),
    ensures
        r is Err <==> depend_conflicts(listeners.table(), bit_ones(*read_writes), bit_ones(*modifys)) != Set::<usize>::empty(),
        r matches Err(c) ==> {
            &&& bit_ones(c) == depend_conflicts(listeners.table(), bit_ones(*read_writes), bit_ones(*modifys))
            &&& bits_within(c)
        },
        r matches Ok((rw, w)) ==> {
            &&& bit_ones(rw) == depend_rw(listeners.table(), bit_ones(*read_writes), bit_ones(*modifys))
            &&& bit_ones(w) == depend_w(listeners.table(), bit_ones(*read_writes), bit_ones(*writes), bit_ones(*modifys))
            &&& bits_within(rw)
            &&& bits_within(w)
        },
        (forall|k: usize| #[trigger] bit_ones(*modifys).contains(k) ==> !listeners.table().contains_key(k)) ==> {
            &&& r matches Ok((rw, w))
            &&& bit_len(rw) == bit_len(*read_writes)
            &&& bit_len(w) == bit_len(*writes)
        },
{
    let a = bits_len(read_writes);
    let b = bits_len(writes);
    let ghost bound: usize = if a >= b && a >= listeners.bound() { a } else if b >= listeners.bound() { b } else { listeners.bound() };
    write_depend_rec(listeners, read_writes, writes, modifys, Ghost(bound))
}

fn write_depend_rec(listeners: &ListenerAccess, read_writes: &FixedBitSet, writes: &FixedBitSet, modifys: &FixedBitSet,
    Ghost(bound): Ghost<usize>)
    -> (r: Result<(FixedBitSet, FixedBitSet), FixedBitSet>)
    requires
        listeners.wf(),
        listeners.bound() <= bound,
        bits_within(*read_writes),
        bits_within(*writes),
        bits_within(*modifys),
        bit_len(*read_writes) <= bound,
        bit_len(*writes) <= bound,
    ensures
        r is Err <==> depend_conflicts(listeners.table(), bit_ones(*read_writes), bit_ones(*modifys)) != Set::<usize>::empty(),
        r matches Err(c) ==> {
            &&& bit_ones(c) == depend_conflicts(listeners.table(), bit_ones(*read_writes), bit_ones(*modifys))
            &&& bits_within(c)
            &&& bit_len(c) <= bound
        },
        r matches Ok((rw, w)) ==> {
            &&& bit_ones(rw) == depend_rw(listeners.table(), bit_ones(*read_writes), bit_ones(*modifys))
            &&& bit_ones(w) == depend_w(listeners.table(), bit_ones(*read_writes), bit_ones(*writes), bit_ones(*modifys))
            &&& bits_within(rw)
            &&& bits_within(w)
            &&& bit_len(rw) <= bound
            &&& bit_len(w) <= bound
        },
        (forall|k: usize| #[trigger] bit_ones(*modifys).contains(k) ==> !listeners.table().contains_key(k)) ==> {
            &&& r matches Ok((rw, w))
            &&& bit_len(rw) == bit_len(*read_writes)
            &&& bit_len(w) == bit_len(*writes)
        },
    decreases
        bound - bit_ones(*read_writes).len(),
        if bit_ones(*modifys) == Set::<usize>::empty() { 0int } else { 1int },
{
    let ghost t = listeners.table();
    let ghost rw0 = bit_ones(*read_writes);
    let ghost w0 = bit_ones(*writes);
    let ghost m0 = bit_ones(*modifys);
    proof {
        lemma_bounded_set(rw0, bound);
    }
    let mut read_writes_new = bits_clone(read_writes);
    let mut write_new = bits_clone(writes);
    let mut conflict = bits_new();
    let ws = bits_ones(modifys);
    let mut wi: usize = 0;
    proof {
        lemma_done_same(t, rw0, w0, m0, ws@, 0, 0, 0, 0);
        assert(done_rw(t, rw0, m0, ws@, 0, 0) =~= Set::<usize>::empty());
        assert(done_w(t, rw0, w0, m0, ws@, 0, 0) =~= Set::<usize>::empty());
        assert(bit_ones(read_writes_new) =~= rw0.union(done_rw(t, rw0, m0, ws@, 0, 0)));
        assert(bit_ones(write_new) =~= w0.union(done_w(t, rw0, w0, m0, ws@, 0, 0)));
        assert(done_conflicts(t, rw0, m0, ws@, 0, 0) =~= Set::<usize>::empty());
    }
    while wi < ws.len()
        invariant
            listeners.wf(),
            listeners.bound() <= bound,
            t == listeners.table(),
            rw0 == bit_ones(*read_writes),
            w0 == bit_ones(*writes),
            m0 == bit_ones(*modifys),
            bits_within(*read_writes),
            bits_within(*writes),
            bit_len(*read_writes) <= bound,
            bit_len(*writes) <= bound,
            rw0.finite(),
            rw0.len() <= bound,
            bit_ones(conflict) == done_conflicts(t, rw0, m0, ws@, wi as int, 0),
            bits_within(conflict),
            bit_len(conflict) <= bound,
            forall|i: int, j: int| 0 <= i < j < ws@.len() ==> ws@[i] < ws@[j],
            forall|x: usize| m0.contains(x) <==> ws@.contains(x),
            0 <= wi <= ws@.len(),
            bit_ones(conflict) == Set::<usize>::empty() ==> {
                &&& bit_ones(read_writes_new) == rw0.union(done_rw(t, rw0, m0, ws@, wi as int, 0))
                &&& bit_ones(write_new) == w0.union(done_w(t, rw0, w0, m0, ws@, wi as int, 0))
            },
            (forall|k: usize| #[trigger] m0.contains(k) ==> !t.contains_key(k)) ==> {
                &&& bit_len(read_writes_new) == bit_len(*read_writes)
                &&& bit_len(write_new) == bit_len(*writes)
            },
            bits_within(read_writes_new),
            bits_within(write_new),
            bit_len(read_writes_new) <= bound,
            bit_len(write_new) <= bound,
        decreases ws@.len() - wi,
    {
        let write = ws[wi];
        proof {
            assert(ws@.contains(write));
            lemma_done_same(t, rw0, w0, m0, ws@, wi as int, 0, wi as int, 0);
        }
        match listeners.get(write) {
            Some(list) => {
                let mut ai: usize = 0;
                while ai < list.len()
                    invariant
                        listeners.wf(),
                        listeners.bound() <= bound,
                        t == listeners.table(),
                        t.contains_key(write),
                        list@ == t[write],
                        write == ws@[wi as int],
                        m0.contains(write),
                        0 <= wi < ws@.len(),
                        rw0 == bit_ones(*read_writes),
                        w0 == bit_ones(*writes),
                        m0 == bit_ones(*modifys),
                        bits_within(*read_writes),
                        bits_within(*writes),
                        bit_len(*read_writes) <= bound,
                        bit_len(*writes) <= bound,
                        rw0.finite(),
                        rw0.len() <= bound,
                        forall|i: int, j: int| 0 <= i < j < ws@.len() ==> ws@[i] < ws@[j],
                        0 <= ai <= list@.len(),
                        bit_ones(conflict) == done_conflicts(t, rw0, m0, ws@, wi as int, ai as int),
                        bits_within(conflict),
                        bit_len(conflict) <= bound,
                        bit_ones(conflict) == Set::<usize>::empty() ==> {
                            &&& bit_ones(read_writes_new) == rw0.union(done_rw(t, rw0, m0, ws@, wi as int, ai as int))
                            &&& bit_ones(write_new) == w0.union(done_w(t, rw0, w0, m0, ws@, wi as int, ai as int))
                        },
                        bits_within(read_writes_new),
                        bits_within(write_new),
                        bit_len(read_writes_new) <= bound,
                        bit_len(write_new) <= bound,
                    decreases list@.len() - ai,
                {
                    let access = &list[ai];
                    let ghost h: Hop = (write, ai as int);
                    proof {
                        listeners.lemma_entry(write, ai as int);
                        access.lemma_nested();
                        assert(hop(t, h) == *access);
                        lemma_done_step(t, rw0, w0, m0, ws@, wi as int, ai as int);
                    }
                    let mut c = bits_clone(read_writes);
                    bits_intersect_with(&mut c, access.get_writes());
                    let n_conflicts = bits_count_ones(&c);
                    proof {
                        lemma_bounded_set(bit_ones(c), bit_len(c));
                        vstd::set_lib::lemma_set_empty_equivalency_len(bit_ones(c));
                        assert((n_conflicts == 0) == rw0.disjoint(access.w_set())) by {
                            if rw0.disjoint(access.w_set()) {
                                assert(bit_ones(c) =~= Set::<usize>::empty());
                            } else {
                                let x = choose|x: usize| rw0.contains(x) && access.w_set().contains(x);
                                assert(bit_ones(c).contains(x));
                            }
                        }
                        assert(first_hop_ok(t, rw0, m0, h) == (n_conflicts == 0));
                        assert(listens(t, m0, h));
                    }
                    let ghost conflict_before = bit_ones(conflict);
                    if n_conflicts == 0 {
                        let mut r1 = bits_clone(read_writes);
                        let mut w1 = bits_clone(writes);
                        bits_union_with(&mut r1, access.get_reads_and_writes());
                        bits_union_with(&mut w1, access.get_writes());
                        proof {
                            lemma_bounded_set(bit_ones(r1), bound);
                            vstd::set_lib::lemma_len_subset(rw0, bit_ones(r1));
                            if access.w_set() != Set::<usize>::empty() {
                                assert(exists|x: usize| access.w_set().contains(x)) by {
                                    if !(exists|x: usize| access.w_set().contains(x)) {
                                        assert(access.w_set() =~= Set::<usize>::empty());
                                    }
                                }
                                let x = choose|x: usize| access.w_set().contains(x);
                                assert(rw0.disjoint(access.w_set()));
                                assert(!rw0.contains(x));
                                assert(rw0.insert(x).subset_of(bit_ones(r1)));
                                vstd::set_lib::lemma_len_subset(rw0.insert(x), bit_ones(r1));
                            } else {
                                assert(access.m_set() =~= Set::<usize>::empty());
                            }
                        }
                        match write_depend_rec(listeners, &r1, &w1, access.get_modify(), Ghost(bound)) {
                            Ok((r, w2)) => {
                                bits_union_with(&mut read_writes_new, &r);
                                bits_union_with(&mut write_new, &w2);
                                proof {
                                    assert(hop_conflicts(t, rw0, h) =~= Set::<usize>::empty());
                                    assert(bit_ones(conflict) =~= done_conflicts(t, rw0, m0, ws@, wi as int, ai as int + 1));
                                    if bit_ones(conflict) == Set::<usize>::empty() {
                                        assert(bit_ones(read_writes_new) =~= rw0.union(done_rw(t, rw0, m0, ws@, wi as int, ai as int + 1)));
                                        assert(bit_ones(write_new) =~= w0.union(done_w(t, rw0, w0, m0, ws@, wi as int, ai as int + 1)));
                                    }
                                }
                            },
                            Err(c2) => {
                                bits_union_with(&mut conflict, &c2);
                                proof {
                                    assert(bit_ones(conflict) =~= done_conflicts(t, rw0, m0, ws@, wi as int, ai as int + 1));
                                    if bit_ones(conflict) == Set::<usize>::empty() {
                                        assert(bit_ones(c2) =~= Set::<usize>::empty());
                                    }
                                }
                            },
                        }
                    } else {
                        bits_union_with(&mut conflict, &c);
                        proof {
                            assert(!rw0.disjoint(access.w_set()));
                            assert(hop_conflicts(t, rw0, h) == bit_ones(c));
                            assert(bit_ones(conflict) =~= done_conflicts(t, rw0, m0, ws@, wi as int, ai as int + 1));
                            let x = choose|x: usize| rw0.contains(x) && access.w_set().contains(x);
                            assert(bit_ones(conflict).contains(x));
                        }
                    }
                    ai = ai + 1;
                }
                proof {
                    assert forall|h: Hop| first_hop_ok(t, rw0, m0, h) implies
                        (hop_done(ws@, wi as int, list@.len() as int, h) <==> hop_done(ws@, wi as int + 1, 0, h)) by {
                        if hop_done(ws@, wi as int + 1, 0, h) {
                            let i = choose|i: int| 0 <= i < wi as int + 1 && #[trigger] ws@[i] == h.0;
                            if i < wi as int {
                                assert(hop_done(ws@, wi as int, list@.len() as int, h));
                            }
                        }
                        if hop_done(ws@, wi as int, list@.len() as int, h) {
                            if h.0 == ws@[wi as int] && h.1 < list@.len() {
                                assert(ws@[wi as int] == h.0);
                            }
                        }
                    }
                    lemma_done_same(t, rw0, w0, m0, ws@, wi as int, list@.len() as int, wi as int + 1, 0);
                }
            },
            None => {
                proof {
                    assert forall|h: Hop| first_hop_ok(t, rw0, m0, h) implies
                        (hop_done(ws@, wi as int, 0, h) <==> hop_done(ws@, wi as int + 1, 0, h)) by {
                        if hop_done(ws@, wi as int + 1, 0, h) {
                            let i = choose|i: int| 0 <= i < wi as int + 1 && #[trigger] ws@[i] == h.0;
                            assert(i != wi as int);
                        }
                    }
                    lemma_done_same(t, rw0, w0, m0, ws@, wi as int, 0, wi as int + 1, 0);
                }
            },
        }
        wi = wi + 1;
    }
    proof {
        lemma_depend_unfold(t, rw0, w0, m0);
        assert forall|h: Hop| #[trigger] first_hop_ok(t, rw0, m0, h) implies hop_done(ws@, ws@.len() as int, 0, h) by {
            assert(ws@.contains(h.0));
            let i = choose|i: int| 0 <= i < ws@.len() && ws@[i] == h.0;
            assert(ws@[i] == h.0);
        }
        assert(done_rw(t, rw0, m0, ws@, ws@.len() as int, 0) =~= first_hops_rw(t, rw0, m0));
        assert(done_w(t, rw0, w0, m0, ws@, ws@.len() as int, 0) =~= first_hops_w(t, rw0, w0, m0));
        assert forall|h: Hop| #[trigger] listens(t, m0, h) implies hop_done(ws@, ws@.len() as int, 0, h) by {
            assert(ws@.contains(h.0));
            let i = choose|i: int| 0 <= i < ws@.len() && ws@[i] == h.0;
            assert(ws@[i] == h.0);
        }
        assert(done_conflicts(t, rw0, m0, ws@, ws@.len() as int, 0) =~= first_hops_conflicts(t, rw0, m0));
        lemma_conflicts_unfold(t, rw0, m0);
        lemma_bounded_set(bit_ones(conflict), bit_len(conflict));
        vstd::set_lib::lemma_set_empty_equivalency_len(bit_ones(conflict));
        if forall|k: usize| #[trigger] m0.contains(k) ==> !t.contains_key(k) {
            lemma_no_listener_no_conflict(t, rw0, m0);
        }
    }
    if bits_count_ones(&conflict) > 0 {
        Err(conflict)
    } else {
        Ok((read_writes_new, write_new))
    }
}
/// What a system reaches through the listeners it runs includes its own
/// access; and when no listener listens to what it modifies, it reaches its
/// own access and nothing more.
pub proof fn law_depend_includes_own(t: Map<usize, Seq<Access>>, rw0: Set<usize>, w0: Set<usize>, m0: Set<usize>)
    ensures
        rw0.subset_of(depend_rw(t, rw0, m0)),
        w0.subset_of(depend_w(t, rw0, w0, m0)),
        (forall|k: usize| #[trigger] m0.contains(k) ==> !t.contains_key(k)) ==> {
            &&& depend_rw(t, rw0, m0) == rw0
            &&& depend_w(t, rw0, w0, m0) == w0
        },
{
    lemma_depend_unfold(t, rw0, w0, m0);
    if forall|k: usize| #[trigger] m0.contains(k) ==> !t.contains_key(k) {
        assert(first_hops_rw(t, rw0, m0) =~= Set::<usize>::empty());
        assert(first_hops_w(t, rw0, w0, m0) =~= Set::<usize>::empty());
        assert(depend_rw(t, rw0, m0) =~= rw0);
        assert(depend_w(t, rw0, w0, m0) =~= w0);
    }
}

} // verus!
