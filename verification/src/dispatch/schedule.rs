//! The decisions of the dispatchers. A stage is given by the kinds of its
//! nodes in topological order: `None` for a data node, `Some(true)` for a
//! synchronous operation, `Some(false)` for an asynchronous one. A dispatcher
//! stands at a cursor; each step says what to do next and where to stand
//! after it. The runtime that performs the actions loops over the steps.
use vstd::prelude::*;

verus! {

/// Where a dispatcher stands: a stage, and the position in that stage's
/// topological order from which to look for the next operation.
#[derive(Clone, Copy, Debug, PartialEq, Eq, Structural)]
pub struct Cursor {
    pub stage: usize,
    pub node: usize,
}

/// What a dispatcher does next.
#[derive(Clone, Copy, Debug, PartialEq, Eq, Structural)]
pub enum Action {
    /// Every stage has run.
    Finished,
    /// Every operation of the stage has run: apply the buffers of its nodes,
    /// in topological order, then step again.
    Apply(usize),
    /// Run the synchronous node (stage, position) here, then step again.
    RunSync(usize, usize),
    /// Hand the synchronous node (stage, position) to the single-thread
    /// runtime, and step again once it has run.
    SpawnSync(usize, usize),
    /// Spawn the asynchronous node (stage, position), and step again once it
    /// has completed.
    SpawnAsync(usize, usize),
    /// Run the whole graph of the stage on the multi-thread runtime; when it
    /// succeeds, apply the stage and step again, else stop.
    RunGraph(usize),
}

/// The first position at or after `n` that holds an operation, or the length
/// of the stage if there is none.
pub open spec fn first_op(ks: Seq<Option<bool>>, n: int) -> int
    decreases ks.len() - n,
{
    if n >= ks.len() {
        ks.len() as int
    } else if ks[n] is Some {
        n
    } else {
        first_op(ks, n + 1)
    }
}

/// Strictly before, in the order of stages and then positions.
pub open spec fn cursor_before(a: Cursor, b: Cursor) -> bool {
    a.stage < b.stage || (a.stage == b.stage && a.node < b.node)
}

/// The step of the dispatcher that runs every stage on one thread and spawns
/// asynchronous operations on one runtime.
pub open spec fn single_next(kinds: Seq<Vec<Option<bool>>>, c: Cursor) -> (Action, Cursor) {
    if c.stage >= kinds.len() {
        (Action::Finished, c)
    } else {
        let ks = kinds[c.stage as int]@;
        let j = first_op(ks, c.node as int);
        if j >= ks.len() {
            (Action::Apply(c.stage), Cursor { stage: (c.stage + 1) as usize, node: 0 })
        } else if ks[j] == Some(true) {
            (Action::RunSync(c.stage, j as usize), Cursor { stage: c.stage, node: (j + 1) as usize })
        } else {
            (Action::SpawnAsync(c.stage, j as usize), Cursor { stage: c.stage, node: (j + 1) as usize })
        }
    }
}

/// The step of the dispatcher whose stages run either on one thread
/// (`single[s]`) or as a whole graph on the multi-thread runtime. On a
/// single-thread stage after the first, a synchronous operation at the head
/// of the order is handed to the single-thread runtime.
pub open spec fn multi_next(kinds: Seq<Vec<Option<bool>>>, single: Seq<bool>, c: Cursor) -> (Action, Cursor) {
    if c.stage >= kinds.len() {
        (Action::Finished, c)
    } else if !single[c.stage as int] {
        (Action::RunGraph(c.stage), Cursor { stage: (c.stage + 1) as usize, node: 0 })
    } else {
        let ks = kinds[c.stage as int]@;
        let j = first_op(ks, c.node as int);
        if j >= ks.len() {
            (Action::Apply(c.stage), Cursor { stage: (c.stage + 1) as usize, node: 0 })
        } else if ks[j] == Some(true) {
            if c.stage > 0 && j == 0 {
                (Action::SpawnSync(c.stage, 0), Cursor { stage: c.stage, node: 1 })
            } else {
                (Action::RunSync(c.stage, j as usize), Cursor { stage: c.stage, node: (j + 1) as usize })
            }
        } else {
            (Action::SpawnAsync(c.stage, j as usize), Cursor { stage: c.stage, node: (j + 1) as usize })
        }
    }
}

/// `first_op` finds the next operation: it skips data nodes only.
pub proof fn lemma_first_op(ks: Seq<Option<bool>>, n: int)
    requires
        0 <= n <= ks.len(),
    ensures
        n <= first_op(ks, n) <= ks.len(),
        forall|q: int| n <= q < first_op(ks, n) ==> ks[q] is None,
        first_op(ks, n) < ks.len() ==> ks[first_op(ks, n)] is Some,
    decreases ks.len() - n,
{
    if n < ks.len() && ks[n] is None {
        lemma_first_op(ks, n + 1);
    }
}

/// The first position at or after `n` in `ks` holding an operation.
fn find_op(ks: &Vec<Option<bool>>, n: usize) -> (r: usize)
    requires
        n <= ks@.len(),
    ensures
        r == first_op(ks@, n as int),
{
    let mut j = n;
    while j < ks.len() && ks[j].is_none()
        invariant
            n <= j <= ks@.len(),
            first_op(ks@, j as int) == first_op(ks@, n as int),
        decreases ks@.len() - j,
    {
        j = j + 1;
    }
    j
}

/// One step of the single-thread dispatcher from `c`.
pub fn single_step(kinds: &Vec<Vec<Option<bool>>>, c: Cursor) -> (r: (Action, Cursor))
    requires
        c.stage < kinds@.len() ==> c.node <= kinds@[c.stage as int]@.len(),
        kinds@.len() < usize::MAX,
    ensures
        r == single_next(kinds@, c),
{
    if c.stage >= kinds.len() {
        return (Action::Finished, c);
    }
    let ks = &kinds[c.stage];
    let j = find_op(ks, c.node);
    if j >= ks.len() {
        (Action::Apply(c.stage), Cursor { stage: c.stage + 1, node: 0 })
    } else {
        proof {
            lemma_first_op(ks@, c.node as int);
        }
        match ks[j] {
            Some(true) => (Action::RunSync(c.stage, j), Cursor { stage: c.stage, node: j + 1 }),
            _ => (Action::SpawnAsync(c.stage, j), Cursor { stage: c.stage, node: j + 1 }),
        }
    }
}

/// One step of the dispatcher with single-thread and multi-thread stages
/// from `c`.
pub fn multi_step(kinds: &Vec<Vec<Option<bool>>>, single: &Vec<bool>, c: Cursor) -> (r: (Action, Cursor))
    requires
        single@.len() == kinds@.len(),
        c.stage < kinds@.len() ==> c.node <= kinds@[c.stage as int]@.len(),
        kinds@.len() < usize::MAX,
    ensures
        r == multi_next(kinds@, single@, c),
{
    if c.stage >= kinds.len() {
        return (Action::Finished, c);
    }
    if !single[c.stage] {
        return (Action::RunGraph(c.stage), Cursor { stage: c.stage + 1, node: 0 });
    }
    let ks = &kinds[c.stage];
    let j = find_op(ks, c.node);
    if j >= ks.len() {
        (Action::Apply(c.stage), Cursor { stage: c.stage + 1, node: 0 })
    } else {
        proof {
            lemma_first_op(ks@, c.node as int);
        }
        match ks[j] {
            Some(true) => {
                if c.stage > 0 && j == 0 {
                    (Action::SpawnSync(c.stage, 0), Cursor { stage: c.stage, node: 1 })
                } else {
                    (Action::RunSync(c.stage, j), Cursor { stage: c.stage, node: j + 1 })
                }
            },
            _ => (Action::SpawnAsync(c.stage, j), Cursor { stage: c.stage, node: j + 1 }),
        }
    }
}

/// Every step of either dispatcher but the last moves the cursor strictly
/// forward and keeps it in range, and a dispatcher finishes exactly when it
/// has passed the last stage: so a run ends after finitely many steps.
pub proof fn lemma_steps_advance(kinds: Seq<Vec<Option<bool>>>, single: Seq<bool>, c: Cursor)
    requires
        c.stage < kinds.len() ==> c.node <= kinds[c.stage as int]@.len(),
        kinds.len() < usize::MAX,
    ensures
        (single_next(kinds, c).0 == Action::Finished) <==> c.stage >= kinds.len(),
        (multi_next(kinds, single, c).0 == Action::Finished) <==> c.stage >= kinds.len(),
        c.stage < kinds.len() ==> {
            let n1 = single_next(kinds, c).1;
            let n2 = multi_next(kinds, single, c).1;
            &&& cursor_before(c, n1)
            &&& cursor_before(c, n2)
            &&& (n1.stage < kinds.len() ==> n1.node <= kinds[n1.stage as int]@.len())
            &&& (n2.stage < kinds.len() ==> n2.node <= kinds[n2.stage as int]@.len())
        },
{
    if c.stage < kinds.len() {
        assert(kinds[c.stage as int].len() == kinds[c.stage as int]@.len());
        lemma_first_op(kinds[c.stage as int]@, c.node as int);
    }
}

/// Within a stage, the operations are run in topological order, each once,
/// and data nodes are never run: the position a step runs is the first
/// operation at or after the cursor, and it is run as its kind asks, a
/// synchronous operation as one and an asynchronous one by spawning it. This
/// holds of both dispatchers; a stage of the multi-thread dispatcher that is
/// not single-threaded is run as a whole graph.
pub proof fn lemma_step_runs_next_operation(kinds: Seq<Vec<Option<bool>>>, single: Seq<bool>, c: Cursor)
    requires
        c.stage < kinds.len(),
        c.node <= kinds[c.stage as int]@.len(),
    ensures
        ({
            let ks = kinds[c.stage as int]@;
            match single_next(kinds, c).0 {
                Action::RunSync(s, j) => s == c.stage && c.node <= j < ks.len() && ks[j as int] == Some(true)
                    && forall|q: int| c.node <= q < j ==> ks[q] is None,
                Action::SpawnAsync(s, j) => s == c.stage && c.node <= j < ks.len() && ks[j as int] == Some(false)
                    && forall|q: int| c.node <= q < j ==> ks[q] is None,
                Action::Apply(s) => s == c.stage && forall|q: int| c.node <= q < ks.len() ==> ks[q] is None,
                _ => false,
            }
        }),
        single[c.stage as int] ==> ({
            let ks = kinds[c.stage as int]@;
            match multi_next(kinds, single, c).0 {
                Action::RunSync(s, j) => s == c.stage && c.node <= j < ks.len() && ks[j as int] == Some(true)
                    && forall|q: int| c.node <= q < j ==> ks[q] is None,
                Action::SpawnSync(s, j) => s == c.stage && c.node <= j < ks.len() && ks[j as int] == Some(true)
                    && forall|q: int| c.node <= q < j ==> ks[q] is None,
                Action::SpawnAsync(s, j) => s == c.stage && c.node <= j < ks.len() && ks[j as int] == Some(false)
                    && forall|q: int| c.node <= q < j ==> ks[q] is None,
                Action::Apply(s) => s == c.stage && forall|q: int| c.node <= q < ks.len() ==> ks[q] is None,
                _ => false,
            }
        }),
        !single[c.stage as int] ==> multi_next(kinds, single, c).0 == Action::RunGraph(c.stage),
{
    assert(kinds[c.stage as int].len() == kinds[c.stage as int]@.len());
    lemma_first_op(kinds[c.stage as int]@, c.node as int);
}

} // verus!
