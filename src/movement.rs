use crate::entity::{EntityId, EntityManager};
use crate::snake::{moved_body, step, Snake};
use crate::types::GridPos;
use vstd::prelude::*;

verus! {

broadcast use vstd::std_specs::hash::group_hash_axioms;

/// What the movement stage reports for one entity.
#[derive(Debug, Clone, Copy, PartialEq, Eq, Structural)]
pub enum MovementEvent {
    /// The entity moved one cell: `new_head` was added, `removed_tail` dropped.
    EntityMoved { entity_id: EntityId, new_head: GridPos, removed_tail: GridPos },
}

impl MovementEvent {
    /// The entity the event is about.
    pub open spec fn id(self) -> EntityId {
        match self {
            MovementEvent::EntityMoved { entity_id, .. } => entity_id,
        }
    }
}

/// The stage that moves every snake one cell per tick.
pub struct MovementSystem;

/// Entity `id` is live in `m` and has a body to move.
pub open spec fn has_body(m: Map<EntityId, Snake>, id: EntityId) -> bool {
    m.contains_key(id) && m[id].body@.len() > 0
}

/// The event that moving entity `id` of `m` produces.
pub open spec fn movement_of(m: Map<EntityId, Snake>, id: EntityId) -> MovementEvent {
    MovementEvent::EntityMoved {
        entity_id: id,
        new_head: step(m[id].body@[0], m[id].direction),
        removed_tail: m[id].body@.last(),
    }
}

/// `after` is `before` with every snake that has a body moved one cell, the others untouched.
pub open spec fn all_moved(before: Map<EntityId, Snake>, after: Map<EntityId, Snake>) -> bool {
    &&& after.dom() == before.dom()
    &&& forall|k: EntityId| #[trigger]
        before.contains_key(k) ==> if before[k].body@.len() > 0 {
            &&& after[k].direction == before[k].direction
            &&& after[k].body@ == moved_body(before[k].body@, before[k].direction)
        } else {
            after[k] == before[k]
        }
}

/// `evs` holds exactly one movement event for each snake of `before` that has a body, in
/// some order.
pub open spec fn movement_events(before: Map<EntityId, Snake>, evs: Seq<MovementEvent>) -> bool {
    &&& forall|i: int| 0 <= i < evs.len() ==> has_body(before, #[trigger] evs[i].id()) && evs[i]
        == movement_of(before, evs[i].id())
    &&& forall|k: EntityId| has_body(before, k) ==> exists|i: int| 0 <= i < evs.len() && #[trigger] evs[i].id() == k
    &&& forall|i: int, j: int| 0 <= i < j < evs.len() ==> evs[i].id() != evs[j].id()
}

impl MovementSystem {
    /// Moves every snake with a body one cell in the way it faces, and appends one
    /// `EntityMoved` event per moved snake to `events_bus`.
    pub fn tick(entities: &mut EntityManager, events_bus: &mut Vec<MovementEvent>)
        ensures
            all_moved(old(entities).entities@, final(entities).entities@),
            final(events_bus)@.take(old(events_bus)@.len() as int) == old(events_bus)@,
            final(events_bus)@.len() >= old(events_bus)@.len(),
            movement_events(
                old(entities).entities@,
                final(events_bus)@.skip(old(events_bus)@.len() as int),
            ),
    {
        let ghost before = entities.entities@;
        let ghost start = events_bus@;
        let ids = entities.ids();
        let mut i: usize = 0;
        while i < ids.len()
            invariant
                i <= ids@.len(),
                ids@.to_set() == before.dom(),
                ids@.no_duplicates(),
                entities.entities@.dom() == before.dom(),
                events_bus@.len() >= start.len(),
                events_bus@.take(start.len() as int) == start,
                forall|k: EntityId| #[trigger]
                    before.contains_key(k) ==> if ids@.take(i as int).contains(k)
                        && before[k].body@.len() > 0 {
                        &&& entities.entities@[k].direction == before[k].direction
                        &&& entities.entities@[k].body@ == moved_body(
                            before[k].body@,
                            before[k].direction,
                        )
                    } else {
                        entities.entities@[k] == before[k]
                    },
                forall|j: int|
                    start.len() <= j < events_bus@.len() ==> has_body(
                        before,
                        #[trigger] events_bus@[j].id(),
                    ) && ids@.take(i as int).contains(events_bus@[j].id()) && events_bus@[j]
                        == movement_of(before, events_bus@[j].id()),
                forall|k: EntityId|
                    has_body(before, k) && ids@.take(i as int).contains(k) ==> exists|j: int|
                        start.len() <= j < events_bus@.len() && #[trigger] events_bus@[j].id()
                            == k,
                forall|j1: int, j2: int|
                    start.len() <= j1 < j2 < events_bus@.len() ==> events_bus@[j1].id()
                        != events_bus@[j2].id(),
            decreases ids@.len() - i,
        {
            let id = ids[i];
            assert(before.dom().contains(id)) by {
                assert(ids@.contains(id));
            }
            assert(!ids@.take(i as int).contains(id)) by {
                if ids@.take(i as int).contains(id) {
                    let j = choose|j: int| 0 <= j < i && ids@.take(i as int)[j] == id;
                    assert(ids@[j] == ids@[i as int]);
                }
            }
            assert(ids@.take(i as int + 1) =~= ids@.take(i as int).push(id));
            let ghost current = entities.entities@;
            let ghost len0 = events_bus@.len();
            let ghost evs0 = events_bus@;
            match entities.entities.remove(&id) {
                Some(mut snake) => {
                    let n = snake.body.len();
                    if n > 0 {
                        let tail = snake.body[n - 1];
                        snake.move_forward();
                        let head = snake.body[0];
                        events_bus.push(
                            MovementEvent::EntityMoved {
                                entity_id: id,
                                new_head: head,
                                removed_tail: tail,
                            },
                        );
                        assert(events_bus@[len0 as int].id() == id);
                    }
                    entities.entities.insert(id, snake);
                },
                None => {},
            }
            assert(events_bus@.take(start.len() as int) =~= start);
            proof {
                let prev = ids@.take(i as int);
                let next = ids@.take(i as int + 1);
                assert forall|k: EntityId| prev.contains(k) implies next.contains(k) by {
                    let j = choose|j: int| 0 <= j < prev.len() && prev[j] == k;
                    assert(next[j] == k);
                }
                assert forall|k: EntityId| next.contains(k) implies prev.contains(k) || k == id by {
                    let j = choose|j: int| 0 <= j < next.len() && next[j] == k;
                    if j < i {
                        assert(prev[j] == k);
                    }
                }
                assert(next.contains(id)) by {
                    assert(next[i as int] == id);
                }
                assert forall|k: EntityId| has_body(before, k) && next.contains(k) implies exists|j: int|
                    start.len() <= j < events_bus@.len() && #[trigger] events_bus@[j].id() == k by {
                    if k == id {
                        assert(events_bus@[len0 as int].id() == id);
                    } else {
                        let j = choose|j: int|
                            start.len() <= j < evs0.len() && #[trigger] evs0[j].id() == k;
                        assert(events_bus@[j] == evs0[j]);
                    }
                }
            }
            i = i + 1;
        }
        assert(ids@.take(i as int) =~= ids@);
        let ghost fresh = events_bus@.skip(start.len() as int);
        assert forall|k: EntityId| has_body(before, k) implies exists|j: int|
            0 <= j < fresh.len() && #[trigger] fresh[j].id() == k by {
            assert(ids@.to_set().contains(k));
            let j = choose|j: int| start.len() <= j < events_bus@.len() && #[trigger] events_bus@[j].id() == k;
            assert(fresh[j - start.len()].id() == k);
        }
    }
}

} // verus!
