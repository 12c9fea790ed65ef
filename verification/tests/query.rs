use pi_ecs::archetype::Archetype;
use pi_ecs::component::ComponentTicks;
use pi_ecs::entity::Entity;
use pi_ecs::monitor::EventType;
use pi_ecs::query::fetch::{
    ChangeTrackersFetch, EntityState, Fetch, IdState, MutFetch, OptionFetch, OrDefaultFetch, ReadFetch, WriteFetch,
};
use pi_ecs::query::filter::{FilterFetch, Or, OrFetch, WithFetch, WithOutFetch};
use pi_ecs::query::iter::{EntityIter, QueryIter};
use pi_ecs::query::state::{QueryEntityError, QueryState};
use pi_ecs::storage::{Local, LocalVersion};
use pi_ecs::world::WorldId;
use std::marker::PhantomData;

const A: Local = Local(0);
const B: Local = Local(1);
const C: Local = Local(2);

/// An archetype with component types A and B registered, and three
/// entities: the first has A, the second A and B, the third none.
fn sample() -> (Archetype<i32>, Vec<LocalVersion>) {
    let mut a: Archetype<i32> = Archetype::new(Local::new(0), Local::new(1), Local::new(2));
    a.register_component_type(A, Local::new(3));
    a.register_component_type(B, Local::new(4));
    let e1 = a.create_entity().local();
    let e2 = a.create_entity().local();
    let e3 = a.create_entity().local();
    a.insert_component(e1, 10, A, 5);
    a.insert_component(e2, 20, A, 5);
    a.insert_component(e2, 21, B, 6);
    (a, vec![e1, e2, e3])
}

#[test]
fn entity_iter_walks_lists() {
    let k = |i: u32| LocalVersion::new(i, 1);
    let mut it = EntityIter::new(vec![vec![k(5)], vec![k(3), k(4)]], vec![k(1), k(2)]);
    let mut got = Vec::new();
    while let Some(x) = it.next() {
        got.push(x);
    }
    assert_eq!(got, vec![k(1), k(2), k(3), k(4), k(5)]);
    assert_eq!(it.next(), None);
}

#[test]
fn entity_iter_stops_at_an_empty_list() {
    let k = |i: u32| LocalVersion::new(i, 1);
    let mut it = EntityIter::new(vec![vec![k(9)], vec![]], vec![k(1)]);
    assert_eq!(it.next(), Some(k(1)));
    assert_eq!(it.next(), None);
    // The next list is still there to be walked.
    assert_eq!(it.next(), Some(k(9)));
}

#[test]
fn read_fetch_skips_entities_without_the_component() {
    let (a, es) = sample();
    let f: ReadFetch<()> = ReadFetch::new(A);
    assert!(f.matches_archetype(&a));
    assert_eq!(f.archetype_fetch(&a, es[0]), Some(&10));
    assert_eq!(f.archetype_fetch(&a, es[2]), None);
    let g: ReadFetch<()> = ReadFetch::new(C);
    assert!(!g.matches_archetype(&a));
    assert_eq!(g.archetype_fetch(&a, es[0]), None);
}

#[test]
fn option_and_default_fetches() {
    let (a, es) = sample();
    let mut o = OptionFetch::new(ReadFetch::<()>::new(B));
    assert_eq!(o.archetype_fetch(&a, es[1]), None);
    o.set_archetype(&a);
    assert_eq!(o.archetype_fetch(&a, es[1]), Some(Some(&21)));
    assert_eq!(o.archetype_fetch(&a, es[0]), Some(None));
    let d = 99;
    let mut od: OrDefaultFetch<(), i32> = OrDefaultFetch::new(B, Some(&d));
    od.set_archetype(&a);
    assert_eq!(od.archetype_fetch(&a, es[1]), Some(&21));
    assert_eq!(od.archetype_fetch(&a, es[0]), Some(&99));
}

#[test]
fn change_trackers_fetch_reads_ticks() {
    let (a, es) = sample();
    let mut f: ChangeTrackersFetch<()> = ChangeTrackersFetch::new(B);
    Fetch::<i32>::setting(&mut f, 5, 7);
    let t = f.archetype_fetch(&a, es[1]).unwrap();
    assert_eq!((t.component_ticks.added, t.component_ticks.changed), (6, 6));
    assert!(t.is_added());
    assert!(t.is_changed());
    let t0 = f.archetype_fetch(&a, es[0]).unwrap();
    let zero: ComponentTicks = t0.component_ticks;
    assert_eq!((zero.added, zero.changed), (0, 0));
    assert!(!t0.is_added());
}

#[test]
fn entity_and_id_fetches() {
    let (a, es) = sample();
    assert_eq!(EntityState.archetype_fetch(&a, es[2]), Some(Entity::new(Local::new(0), es[2])));
    let id = IdState::<u8>(PhantomData).archetype_fetch(&a, es[2]).unwrap();
    assert_eq!(id.local(), es[2]);
}

#[test]
fn write_and_mut_fetches_write_through() {
    let (mut a, es) = sample();
    let mut w: WriteFetch<()> = WriteFetch::new(B);
    Fetch::<i32>::setting(&mut w, 3, 9);
    assert!(w.archetype_fetch(&a, es[0]).is_none());
    w.set_archetype(&a);
    let item = w.archetype_fetch(&a, es[0]).unwrap();
    assert_eq!(item.get(&a), None);
    assert_eq!(item.write(&mut a, 7), None);
    assert_eq!(item.get(&a), Some(&7));
    let t = *a.get_component(B).tick(es[0]).unwrap();
    assert_eq!(t.changed, 9);
    let m: MutFetch<()> = MutFetch::new(A, 11);
    assert!(m.archetype_fetch(&a, es[2]).is_none());
    let item = m.archetype_fetch(&a, es[1]).unwrap();
    assert_eq!(item.write(&mut a, 22), Some(20));
    assert_eq!(a.get_component(A).get(es[1]), Some(&22));
}

#[test]
fn write_item_remove_and_default() {
    let (mut a, es) = sample();
    let m: MutFetch<()> = MutFetch::new(A, 11);
    let item = m.archetype_fetch(&a, es[1]).unwrap();
    assert_eq!(*item.get_or_default(&a, &-1), 20);
    let _ = a.take_component_events(A);
    assert_eq!(item.remove(&mut a), Some(20));
    let kinds: Vec<EventType> = a.take_component_events(A).iter().map(|ev| ev.ty).collect();
    assert_eq!(kinds, vec![EventType::Delete]);
    assert_eq!(*item.get_or_default(&a, &-1), -1);
    assert_eq!(item.remove(&mut a), None);
    assert!(a.take_component_events(A).is_empty());
    assert_eq!(a.get_component(A).get(es[1]), None);
}

#[test]
fn filters() {
    let (a, es) = sample();
    let with_b: WithFetch<()> = WithFetch::new(B);
    assert!(with_b.matches_archetype(&a));
    assert!(with_b.archetype_filter_fetch(&a, es[1]));
    assert!(!with_b.archetype_filter_fetch(&a, es[0]));
    let mut without_b: WithOutFetch<()> = WithOutFetch::new(B);
    without_b.set_archetype(&a);
    assert!(!without_b.archetype_filter_fetch(&a, es[1]));
    assert!(without_b.archetype_filter_fetch(&a, es[2]));
    let mut without_c: WithOutFetch<()> = WithOutFetch::new(C);
    without_c.set_archetype(&a);
    assert!(without_c.archetype_filter_fetch(&a, es[1]));
    let both = (WithFetch::<()>::new(A), WithFetch::<()>::new(B));
    assert!(both.archetype_filter_fetch(&a, es[1]));
    assert!(!both.archetype_filter_fetch(&a, es[0]));
    let mut x = OrFetch::new(WithFetch::<()>::new(B));
    let mut y = OrFetch::new(WithFetch::<()>::new(C));
    x.set_archetype(&a);
    y.set_archetype(&a);
    let or = Or((x, y));
    assert!(or.matches_archetype(&a));
    assert!(or.archetype_filter_fetch(&a, es[1]));
    assert!(!or.archetype_filter_fetch(&a, es[0]));
    assert!(().archetype_filter_fetch(&a, es[0]));
}

#[test]
fn query_iterates_taken_entities_in_order() {
    let (a, es) = sample();
    let mut q = QueryState::new(WorldId(0), &a, ReadFetch::<()>::new(A), WithOutFetch::<()>::new(B));
    assert!(q.matchs);
    let mut it = q.iter(WorldId(0), &a, 0, 1);
    // The filter has not been set for the archetype: it lets every entity through.
    assert_eq!(it.next(&a), Some(&10));
    assert_eq!(it.next(&a), Some(&20));
    assert_eq!(it.next(&a), None);
    let mut f = WithOutFetch::<()>::new(B);
    f.set_archetype(&a);
    let mut q = QueryState::new(WorldId(0), &a, ReadFetch::<()>::new(A), f);
    let mut it = q.iter(WorldId(0), &a, 0, 1);
    assert_eq!(it.next(&a), Some(&10));
    assert_eq!(it.next(&a), None);
    assert_eq!(q.get(&a, es[0]), Some(&10));
    assert_eq!(q.get(&a, es[1]), None);
    assert_eq!(q.archetype_id(), Local::new(0));
}

#[test]
fn query_not_matching_the_archetype_yields_nothing() {
    let (a, es) = sample();
    let mut q = QueryState::new(WorldId(0), &a, ReadFetch::<()>::new(C), ());
    assert!(!q.matchs);
    let mut it = q.iter(WorldId(0), &a, 0, 1);
    assert_eq!(it.next(&a), None);
    assert_eq!(q.get(&a, es[0]), None);
}

#[test]
fn query_over_named_lists() {
    let (a, es) = sample();
    let fetch = ReadFetch::<()>::new(A);
    let filter = ();
    let mut it = QueryIter::new(&a, true, &fetch, &filter, Some((vec![es[1]], vec![vec![es[2], es[0]]])));
    assert_eq!(it.next(&a), Some(&20));
    assert_eq!(it.next(&a), Some(&10));
    assert_eq!(it.next(&a), None);
}

#[test]
fn query_entity_errors_are_distinct() {
    assert_ne!(QueryEntityError::QueryDoesNotMatch, QueryEntityError::NoSuchEntity);
}

#[test]
fn changed_filter_uses_ticks() {
    let (a, es) = sample();
    let mut f: pi_ecs::query::filter::ChangedFetch<()> = pi_ecs::query::filter::ChangedFetch::new(B);
    FilterFetch::<i32>::setting(&mut f, 5, 7);
    assert!(f.matches_archetype(&a));
    // B of the second entity was set at tick 6, after the system last ran at 5.
    assert!(f.archetype_filter_fetch(&a, es[1]));
    assert!(!f.archetype_filter_fetch(&a, es[0]));
    FilterFetch::<i32>::setting(&mut f, 6, 7);
    assert!(!f.archetype_filter_fetch(&a, es[1]));
}

#[test]
fn query_records_its_access() {
    let (a, _) = sample();
    let mut q = QueryState::new(WorldId(0), &a, (ReadFetch::<()>::new(A), WriteFetch::<()>::new(B)), WithFetch::<()>::new(A));
    let mut access = pi_ecs::dispatch::access::Access::new();
    q.validate_world_and_update_archetypes(WorldId(0), &a, &mut access);
    assert!(q.matchs);
    // The entity list (1) and A (3) are read; B (4) is modified.
    assert!(access.has_read(1) && !access.has_write(1));
    assert!(access.has_read(3) && !access.has_write(3));
    assert!(access.has_write(4));
    let m: Vec<usize> = access.get_modify().ones().collect();
    assert_eq!(m, vec![4]);
}

#[test]
fn join_follows_a_key() {
    // The target archetype: one entity with A = 7.
    let mut t: Archetype<LocalVersion> = Archetype::new(Local::new(1), Local::new(5), Local::new(6));
    t.register_component_type(A, Local::new(7));
    let target_entity = t.create_entity().local();
    t.insert_component(target_entity, LocalVersion::from_ffi(7), A, 1);
    // The source archetype: one entity whose B names the target entity.
    let mut s: Archetype<LocalVersion> = Archetype::new(Local::new(0), Local::new(1), Local::new(2));
    s.register_component_type(B, Local::new(3));
    let e = s.create_entity().local();
    let lone = s.create_entity().local();
    s.insert_component(e, target_entity, B, 1);
    let j = pi_ecs::query::fetch::JoinFetch::new(B, &t, ReadFetch::<()>::new(A), ());
    assert!(j.matches_archetype(&s));
    assert_eq!(j.archetype_fetch(&s, e), Some(&LocalVersion::from_ffi(7)));
    assert_eq!(j.archetype_fetch(&s, lone), None);
    let mut access = pi_ecs::dispatch::access::Access::new();
    j.update_archetype_component_access(&s, &mut access);
    let rw: Vec<usize> = access.get_reads_and_writes().ones().collect();
    assert_eq!(rw, vec![3, 5, 7]);
}

#[test]
fn change_marks_decide_what_to_visit() {
    let mut d = pi_ecs::query::filter::Dirty::new();
    let f: pi_ecs::query::filter::ChangedFetch<()> = pi_ecs::query::filter::ChangedFetch::new(B);
    // Nothing seen: nothing to visit.
    let r = f.main_fetch(&d, 3);
    assert!(matches!(r, Some((ref a, ref b)) if a.is_empty() && b.is_empty()));
    assert!(!d.install(B));
    assert!(d.install(B));
    d.mark(B, 5);
    assert_eq!(d.get(B), Some(5));
    assert_eq!(d.get(A), None);
    // A change after the last run: visit every entity.
    assert!(f.main_fetch(&d, 4).is_none());
    assert!(f.main_fetch(&d, 5).is_some());
}

#[test]
fn entity_iter_yields_every_key_once_then_nothing() {
    let k = |i: u32| LocalVersion::new(i, 1);
    let mut it = EntityIter::new(vec![vec![k(5)], vec![k(3), k(4)]], vec![k(1), k(2)]);
    let mut got = Vec::new();
    let mut calls = 0;
    loop {
        calls += 1;
        match it.next() {
            Some(x) => got.push(x),
            None => break,
        }
    }
    assert_eq!(got, vec![k(1), k(2), k(3), k(4), k(5)]);
    assert!(calls <= 5 + 2 + 1);
    assert_eq!(it.next(), None);
}

#[test]
fn query_iter_tells_the_filter_the_ticks() {
    let (a, es) = sample();
    let f: pi_ecs::query::filter::ChangedFetch<()> = pi_ecs::query::filter::ChangedFetch::new(B);
    let mut q = QueryState::new(WorldId(0), &a, ReadFetch::<()>::new(A), f);
    // B of the second entity was set at tick 6: seen by a system that last ran at 5.
    let mut it = q.iter(WorldId(0), &a, 5, 7);
    assert_eq!(it.next(&a), Some(&20));
    assert_eq!(it.next(&a), None);
    assert_eq!(q.filter_fetch.last_change_tick, 5);
    let mut it = q.iter(WorldId(0), &a, 6, 7);
    assert_eq!(it.next(&a), None);
    let _ = es;
}

#[test]
fn query_iter_main_walks_the_named_lists() {
    let (a, es) = sample();
    let mut q = QueryState::new(WorldId(0), &a, ReadFetch::<()>::new(A), ());
    let mut it = q.iter_main(WorldId(0), &a, 0, 1, Some((vec![es[1]], vec![vec![es[0]]])));
    assert_eq!(it.next(&a), Some(&20));
    assert_eq!(it.next(&a), Some(&10));
    assert_eq!(it.next(&a), None);
    // A change filter with nothing marked since the last run names no entity.
    let changed: pi_ecs::query::filter::ChangedFetch<()> = pi_ecs::query::filter::ChangedFetch::new(B);
    let mut dirty = pi_ecs::query::filter::Dirty::new();
    let main = changed.main_fetch(&dirty, 5);
    let mut it = q.iter_main(WorldId(0), &a, 5, 7, main);
    assert_eq!(it.next(&a), None);
    // A mark after the last run makes the query visit every entity.
    dirty.mark(B, 6);
    let main = changed.main_fetch(&dirty, 5);
    assert!(main.is_none());
    let mut it = q.iter_main(WorldId(0), &a, 5, 7, main);
    assert_eq!(it.next(&a), Some(&10));
    assert_eq!(it.next(&a), Some(&20));
    assert_eq!(it.next(&a), None);
}
