use crate::entity::{EntityId, EntityManager};
use crate::movement::{all_moved, has_body, movement_events, MovementEvent, MovementSystem};
use crate::physics::{deaths, died, lemma_presence_purge, purged, PhysicsEvent, PhysicsSystem};
use crate::presence::{
    apply_moves, consistent, events_of_moves, lemma_presence_death, lemma_presence_spawn,
    lemma_presence_tick, simple_move, without_entity, PresenceEvent, PresenceSystem,
};
use crate::types::GridPos;
use crate::world::{chunk_count, lemma_numberable, numberable, World as CommonWorld};
use vstd::prelude::*;

verus! {

broadcast use vstd::std_specs::hash::group_hash_axioms;

/// The simulated world: the grid and the entities on it.
pub struct World {
    pub world: CommonWorld,
    pub entity_manager: EntityManager,
}

impl World {
    /// A grid of `width × height` cells with no entities. Both sizes must be multiples of 16.
    pub fn new(width: u32, height: u32) -> (w: World)
        requires
            width % 16 == 0,
            height % 16 == 0,
            numberable(width, height),
        ensures
            w.world.width == width,
            w.world.height == height,
            w.world.chunks@.dom() == Set::new(
                |i: u32| (i as int) < chunk_count(width, height),
            ),
            w.entity_manager.entities@ == Map::<EntityId, crate::snake::Snake>::empty(),
    {
        let world = match CommonWorld::new(width, height) {
            Ok(world) => world,
            Err(_) => vstd::pervasive::unreached(),
        };
        World { world, entity_manager: EntityManager::new() }
    }
}

/// Everything one tick reported, stage by stage.
pub struct TickEvents {
    pub movement: Vec<MovementEvent>,
    pub presence: Vec<PresenceEvent>,
    pub physics: Vec<PhysicsEvent>,
}

/// The game: the world and the presence map over it, ticked stage by stage.
pub struct Game {
    pub world: World,
    pub presence: PresenceSystem,
}

impl Game {
    /// The presence map is well formed.
    pub open spec fn inv(&self) -> bool {
        self.presence.wf()
    }

    /// The presence map lists, in every chunk, exactly the live entities with a segment there.
    pub open spec fn exact(&self) -> bool {
        consistent(self.presence@, self.world.entity_manager.entities@, self.world.world.width)
    }

    /// A game on a `width × height` grid with no entities; every chunk is known to the
    /// presence map. Both sizes must be multiples of 16.
    pub fn new(width: u32, height: u32) -> (g: Game)
        requires
            width % 16 == 0,
            height % 16 == 0,
            numberable(width, height),
        ensures
            g.inv(),
            g.exact(),
            g.world.world.width == width,
            g.world.world.height == height,
            g.presence@.dom() == Set::new(|i: u32| (i as int) < chunk_count(width, height)),
            g.world.entity_manager.entities@ == Map::<EntityId, crate::snake::Snake>::empty(),
    {
        let world = World::new(width, height);
        proof {
            lemma_numberable(width, height);
        }
        let mut presence = PresenceSystem::new();
        let total: u32 = (width / 16) * (height / 16);
        presence.add_chunks(total);
        let g = Game { world, presence };
        assert(g.presence@.dom() =~= Set::new(|i: u32| (i as int) < chunk_count(width, height)));
        assert forall|c: u32| g.presence@.contains_key(c) implies g.presence@[c]
            == Set::<EntityId>::empty() by {}
        g
    }

    /// Spawns a snake with one segment at `head` and registers it in the presence map;
    /// returns its identity, or none when the identity drawn was already live (then nothing
    /// changes). An exact presence map stays exact.
    pub fn spawn(&mut self, head: GridPos) -> (r: Option<EntityId>)
        requires
            old(self).inv(),
        ensures
            final(self).inv(),
            final(self).world.world == old(self).world.world,
            old(self).exact() ==> final(self).exact(),
            match r {
                Some(id) => {
                    &&& !old(self).world.entity_manager.entities@.contains_key(id)
                    &&& final(self).world.entity_manager.entities@.contains_key(id)
                    &&& final(self).world.entity_manager.entities@[id].body@ == seq![head]
                },
                None => final(self).world.entity_manager.entities@
                    == old(self).world.entity_manager.entities@,
            },
    {
        let ghost before = self.world.entity_manager.entities@;
        match self.world.entity_manager.add(head) {
            Some(id) => {
                match self.world.entity_manager.get(&id) {
                    Some(snake) => {
                        self.presence.register_new_entity(id, snake, &self.world.world);
                        proof {
                            let after = self.world.entity_manager.entities@;
                            assert(after =~= before.insert(id, after[id]));
                            if consistent(old(self).presence@, before, self.world.world.width) {
                                lemma_presence_spawn(
                                    old(self).presence@,
                                    before,
                                    self.world.world.width,
                                    id,
                                    after[id],
                                );
                            }
                        }
                    },
                    None => {},
                }
                Some(id)
            },
            None => None,
        }
    }

    /// Runs one tick: moves every snake, updates the presence map from the moves, finds the
    /// collisions, and removes the dead from the store. An exact presence map stays exact when
    /// every move is simple (see `simple_move`).
    pub fn tick(&mut self) -> (r: TickEvents)
        requires
            old(self).inv(),
        ensures
            final(self).inv(),
            final(self).world.world == old(self).world.world,
            movement_events(old(self).world.entity_manager.entities@, r.movement@),
            old(self).exact() && (forall|k: EntityId|
                has_body(old(self).world.entity_manager.entities@, k) ==> #[trigger] simple_move(
                    old(self).world.entity_manager.entities@,
                    old(self).world.world.width,
                    k,
                )) ==> final(self).exact(),
            r.presence@ == events_of_moves(old(self).world.world.width, r.movement@),
            exists|moved: Map<EntityId, crate::snake::Snake>|
                #[trigger] all_moved(old(self).world.entity_manager.entities@, moved) && {
                    let after_moves = apply_moves(
                        old(self).presence@,
                        old(self).world.world.width,
                        r.movement@,
                    );
                    &&& exists|pick: spec_fn(EntityId, EntityId) -> bool|
                        died(r.physics@) == deaths(after_moves, moved, old(self).world.world.width, pick)
                    &&& final(self).presence@ == purged(
                        after_moves,
                        moved,
                        old(self).world.world.width,
                        died(r.physics@),
                    )
                    &&& final(self).world.entity_manager.entities@ == moved.remove_keys(
                        died(r.physics@),
                    )
                },
    {
        let ghost e0 = self.world.entity_manager.entities@;
        let ghost before_moves = self.presence@;
        let ghost width = self.world.world.width;
        let mut movement: Vec<MovementEvent> = Vec::new();
        MovementSystem::tick(&mut self.world.entity_manager, &mut movement);
        assert(movement@.skip(0) =~= movement@);
        let ghost e1 = self.world.entity_manager.entities@;
        let mut presence: Vec<PresenceEvent> = Vec::new();
        self.presence.tick(&self.world.world, movement.as_slice(), &mut presence);
        let ghost after_moves = self.presence@;
        let mut physics: Vec<PhysicsEvent> = Vec::new();
        PhysicsSystem::tick(&mut self.presence, &self.world.entity_manager, &self.world.world, &mut physics);
        assert(physics@.skip(0) =~= physics@);
        let ghost dead = died(physics@);
        let ghost after_purge = self.presence@;
        let mut i: usize = 0;
        while i < physics.len()
            invariant
                i <= physics@.len(),
                dead == died(physics@),
                self.presence.wf(),
                self.presence@ == after_purge,
                self.world.world == old(self).world.world,
                self.world.entity_manager.entities@ == e1.remove_keys(
                    Set::new(|x: EntityId| exists|j: int| 0 <= j < i && #[trigger] physics@[j].id() == x),
                ),
            decreases physics@.len() - i,
        {
            let ghost prev = Set::new(
                |x: EntityId| exists|j: int| 0 <= j < i && #[trigger] physics@[j].id() == x,
            );
            let id = match physics[i] {
                PhysicsEvent::EntityDied(id) => id,
            };
            self.world.entity_manager.remove(id);
            i = i + 1;
            proof {
                let next = Set::new(
                    |x: EntityId| exists|j: int| 0 <= j < i && #[trigger] physics@[j].id() == x,
                );
                assert forall|x: EntityId| next.contains(x) == (prev.contains(x) || x == id) by {
                    if x == id {
                        assert(physics@[i - 1].id() == id);
                    }
                    if next.contains(x) {
                        let j = choose|j: int| 0 <= j < i && #[trigger] physics@[j].id() == x;
                        if j < i - 1 {
                            assert(prev.contains(x));
                        }
                    }
                }
                assert(next =~= prev.insert(id));
            }
            assert(self.world.entity_manager.entities@ =~= e1.remove_keys(
                Set::new(|x: EntityId| exists|j: int| 0 <= j < i && #[trigger] physics@[j].id() == x),
            ));
        }
        assert(Set::new(|x: EntityId| exists|j: int| 0 <= j < i && #[trigger] physics@[j].id() == x)
            =~= dead);
        proof {
            if consistent(before_moves, e0, width) && (forall|k: EntityId|
                has_body(e0, k) ==> #[trigger] simple_move(e0, width, k)) {
                lemma_presence_tick(before_moves, e0, e1, width, movement@);
                lemma_presence_purge(after_moves, e1, width, dead);
            }
        }
        assert(presence@ =~= events_of_moves(width, movement@));
        assert(self.world.entity_manager.entities@ == e1.remove_keys(died(physics@)));
        TickEvents { movement, presence, physics }
    }

    /// Removes entity `id` (its connection dropped): takes it out of the presence map and the
    /// store. Returns false, and changes nothing, when it is not live. An exact presence map
    /// stays exact.
    pub fn despawn(&mut self, id: EntityId) -> (r: bool)
        requires
            old(self).inv(),
        ensures
            final(self).inv(),
            final(self).world.world == old(self).world.world,
            r == old(self).world.entity_manager.entities@.contains_key(id),
            final(self).world.entity_manager.entities@
                == old(self).world.entity_manager.entities@.remove(id),
            r ==> final(self).presence@ == without_entity(
                old(self).presence@,
                old(self).world.world.width,
                id,
                old(self).world.entity_manager.entities@[id].body@,
            ),
            !r ==> final(self).presence@ == old(self).presence@,
            old(self).exact() ==> final(self).exact(),
    {
        match self.world.entity_manager.get(&id) {
            Some(snake) => {
                self.presence.handle_entity_death(id, snake, &self.world.world);
                proof {
                    if old(self).exact() {
                        lemma_presence_death(
                            old(self).presence@,
                            old(self).world.entity_manager.entities@,
                            self.world.world.width,
                            id,
                        );
                    }
                }
                self.world.entity_manager.remove(id);
                true
            },
            None => {
                self.world.entity_manager.remove(id);
                false
            },
        }
    }
}

} // verus!
