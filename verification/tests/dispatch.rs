use fixedbitset::FixedBitSet;
use pi_ecs::dispatch::access::{Access, ListenerAccess};
use pi_ecs::dispatch::depend::write_depend;
use pi_ecs::archetype::ArchetypeComponentInfo;
use pi_ecs::dispatch::interface::{BuildErr, ExecNode, GraphNode, StageBuilder};
use pi_ecs::dispatch::schedule::{multi_step, single_step, Action, Cursor};

fn ones(b: &FixedBitSet) -> Vec<usize> {
    b.ones().collect()
}

fn access(reads: &[usize], writes: &[usize], modifies: &[usize]) -> Access {
    let mut a = Access::new();
    for &r in reads {
        a.add_read(r);
    }
    for &w in writes {
        a.add_write(w);
    }
    for &m in modifies {
        a.add_modify(m);
    }
    a
}

#[test]
fn access_sets() {
    let a = access(&[1], &[2], &[3]);
    assert!(a.has_read(1) && a.has_read(2) && a.has_read(3));
    assert!(!a.has_write(1) && a.has_write(2) && a.has_write(3));
    assert_eq!(ones(a.get_modify()), vec![3]);
    let mut b = access(&[4], &[], &[]);
    b.extend(&a);
    assert_eq!(ones(b.get_reads_and_writes()), vec![1, 2, 3, 4]);
    assert_eq!(ones(b.get_writes()), vec![2, 3]);
    let c = b.clone_access();
    assert_eq!(ones(c.get_reads_and_writes()), vec![1, 2, 3, 4]);
}

#[test]
fn write_depend_follows_listeners() {
    let mut l = ListenerAccess::new();
    l.add_access(5, access(&[8], &[7], &[]));
    assert_eq!(l.get(5).unwrap().len(), 1);
    assert!(l.get(6).is_none());
    let sys = access(&[1], &[], &[5]);
    let r = write_depend(&l, sys.get_reads_and_writes(), sys.get_writes(), sys.get_modify());
    let (rw, w) = match r {
        Ok(x) => x,
        Err(_) => panic!("write_depend reports no conflict"),
    };
    assert_eq!(ones(&rw), vec![1, 5, 7, 8]);
    assert_eq!(ones(&w), vec![5, 7]);
}

#[test]
fn write_depend_reports_conflicting_listeners() {
    let mut l = ListenerAccess::new();
    l.add_access(5, access(&[9], &[1, 3], &[]));
    let sys = access(&[1, 3], &[], &[5]);
    match write_depend(&l, sys.get_reads_and_writes(), sys.get_writes(), sys.get_modify()) {
        Ok(_) => panic!("the listener writes what the system reads"),
        Err(c) => assert_eq!(ones(&c), vec![1, 3]),
    }
}

#[test]
fn write_depend_reports_conflicts_down_a_chain() {
    let mut l = ListenerAccess::new();
    l.add_access(5, access(&[4], &[], &[6]));
    l.add_access(6, access(&[], &[4], &[]));
    let sys = access(&[], &[], &[5]);
    match write_depend(&l, sys.get_reads_and_writes(), sys.get_writes(), sys.get_modify()) {
        Ok(_) => panic!("the second listener writes what the first reads"),
        Err(c) => assert_eq!(ones(&c), vec![4]),
    }
}

#[test]
fn write_depend_without_listeners_keeps_the_sets() {
    let l = ListenerAccess::new();
    let sys = access(&[2], &[7], &[7]);
    match write_depend(&l, sys.get_reads_and_writes(), sys.get_writes(), sys.get_modify()) {
        Ok((rw, w)) => {
            assert_eq!(&rw, sys.get_reads_and_writes());
            assert_eq!(&w, sys.get_writes());
        }
        Err(_) => panic!("no listener, no conflict"),
    }
}

#[test]
fn stage_build_reports_write_conflict() {
    let mut l = ListenerAccess::new();
    l.add_access(1, access(&[], &[0], &[]));
    let infos: Vec<ArchetypeComponentInfo> = vec![
        ArchetypeComponentInfo { name: "Position", is_delete: false },
        ArchetypeComponentInfo { name: "Velocity", is_delete: false },
    ];
    let mut s: StageBuilder<&str> = StageBuilder::new();
    s.add_node(GraphNode { id: 100, access: access(&[0], &[], &[]), node: "ok", label: "reader".to_string() });
    s.add_node(GraphNode { id: 101, access: access(&[0], &[], &[1]), node: "bad", label: "mover".to_string() });
    match s.build(&l, &infos) {
        Ok(_) => panic!("the listener of Velocity writes the Position that mover reads"),
        Err(BuildErr::WriteConflict(label, names)) => {
            assert_eq!(label, "mover");
            assert_eq!(names, vec!["Position".to_string()]);
        }
        Err(BuildErr::Circly(_)) => panic!("no cycle here"),
    }
}

#[test]
fn write_depend_follows_chains() {
    let mut l = ListenerAccess::new();
    l.add_access(5, access(&[], &[], &[6]));
    l.add_access(6, access(&[], &[7], &[]));
    let sys = access(&[], &[], &[5]);
    let (rw, w) = match write_depend(&l, sys.get_reads_and_writes(), sys.get_writes(), sys.get_modify()) {
        Ok(x) => x,
        Err(_) => panic!("write_depend reports no conflict"),
    };
    assert_eq!(ones(&rw), vec![5, 6, 7]);
    assert_eq!(ones(&w), vec![5, 6, 7]);
}

#[test]
fn stage_edges_follow_access() {
    let l = ListenerAccess::new();
    let mut s: StageBuilder<&str> = StageBuilder::new();
    s.add_node(GraphNode { id: 100, access: access(&[1], &[2], &[]), node: "a", label: "a".to_string() });
    s.add_node(GraphNode { id: 101, access: access(&[2], &[], &[]), node: "b", label: "b".to_string() });
    let s = s.order(100, 101);
    let plan = match s.build(&l, &Vec::new()) {
        Ok(p) => p,
        Err(_) => panic!("no listener, no conflict"),
    };
    assert_eq!(plan.edges, vec![(100, 101), (1, 100), (100, 2), (2, 101)]);
    let mut comps = plan.components.clone();
    comps.sort();
    assert_eq!(comps, vec![1, 2]);
    assert_eq!(plan.systems.len(), 2);
    assert_eq!(plan.systems[1].id, 101);
}

#[test]
fn exec_node_kinds() {
    let e: ExecNode<u8, u8> = ExecNode::Empty;
    assert_eq!(e.is_sync(), None);
    assert_eq!(ExecNode::<u8, u8>::Sync(1).is_sync(), Some(true));
    assert_eq!(ExecNode::<u8, u8>::Async(1).is_sync(), Some(false));
}

fn kinds() -> Vec<Vec<Option<bool>>> {
    vec![vec![None, Some(true), Some(false)], vec![Some(true)]]
}

#[test]
fn single_dispatcher_steps() {
    let k = kinds();
    let mut c = Cursor { stage: 0, node: 0 };
    let mut actions = Vec::new();
    loop {
        let (a, next) = single_step(&k, c);
        actions.push(a);
        if a == Action::Finished {
            break;
        }
        c = next;
    }
    assert_eq!(actions, vec![
        Action::RunSync(0, 1),
        Action::SpawnAsync(0, 2),
        Action::Apply(0),
        Action::RunSync(1, 0),
        Action::Apply(1),
        Action::Finished,
    ]);
}

#[test]
fn multi_dispatcher_steps() {
    let k = kinds();
    let (a, c) = multi_step(&k, &vec![true, true], Cursor { stage: 1, node: 0 });
    assert_eq!(a, Action::SpawnSync(1, 0));
    assert_eq!(c, Cursor { stage: 1, node: 1 });
    let (a, c) = multi_step(&k, &vec![true, false], Cursor { stage: 1, node: 0 });
    assert_eq!(a, Action::RunGraph(1));
    assert_eq!(c, Cursor { stage: 2, node: 0 });
    // The first stage runs its head synchronously.
    let (a, _) = multi_step(&k, &vec![true, true], Cursor { stage: 0, node: 0 });
    assert_eq!(a, Action::RunSync(0, 1));
    let (a, _) = multi_step(&k, &vec![true, true], Cursor { stage: 2, node: 0 });
    assert_eq!(a, Action::Finished);
}
