# pi_ecs

A verified core of an entity-component-system.

- `storage`, `entity`: entity keys (an index and a version packed in a `u64`)
  and the per-archetype entity store, with reservation of keys that become
  live at the next flush.
- `component`, `archetype`, `resource`, `monitor`: the registry of component
  and resource types, the per-archetype component stores with their change
  ticks, the resources, and the events every store records for listeners;
  the world hands those events out, oldest first, for the application to
  deliver.
- `world`: the world that holds all of them and the change ticks.
- `query`: fetches, filters, the iteration of a query over the entities of
  an archetype, and the data access a query needs.
- `sys`: system parameters: command queues, entity insertion and deletion,
  resources, ticks, parameter sets.
- `dispatch`: data access as bit sets, the closure of an access under the
  listeners it runs, the graph of a stage, and the step function of the
  dispatchers.

Every function in `src/` carries a contract proved by Verus, except the
wrappers of `fixedbitset` in `src/dispatch/bits.rs` and the wrapper of
`Arc::clone` in `src/dispatch/interface.rs`: their contracts restate what those
functions do and are assumed, not proved. `app/` holds the runtime that Verus
does not see: error types with their messages, graph building, the delivery of
recorded events to listeners and the dispatcher loops.
