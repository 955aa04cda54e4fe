use crate::snake::Snake;
use crate::types::{Direction, GridPos};
use std::collections::HashMap;
use u64_id::U64Id;
use vstd::prelude::*;
use vstd::std_specs::hash::spec_keys_iter;
use vstd::std_specs::iter::IteratorSpec;

verus! {

broadcast use vstd::std_specs::hash::group_hash_axioms;

/// Identity of a live entity.
pub type EntityId = u64;

/// Relies on `u64_id::U64Id::new`: a random id drawn from `U64Id::VALID_RANGE`, that is
/// below `u64::MAX - 128`.
#[verifier::external_body]
fn random_id() -> (r: EntityId)
    ensures
        r < u64::MAX - 128,
{
    U64Id::new().0
}

/// A freshly spawned snake: facing north, one segment at `head`.
pub open spec fn seeded(s: Snake, head: GridPos) -> bool {
    s.direction == Direction::North && s.body@ == seq![head]
}

/// All live entities, by identity.
pub struct EntityManager {
    pub entities: HashMap<EntityId, Snake>,
}

impl EntityManager {
    /// No entities.
    pub fn new() -> (m: EntityManager)
        ensures
            m.entities@ == Map::<EntityId, Snake>::empty(),
    {
        EntityManager { entities: HashMap::new() }
    }

    /// Spawns a snake with a random identity and one segment at `head`, facing north, and
    /// returns its identity. Returns none, and changes nothing, in the unlikely case that the
    /// identity drawn is already live.
    pub fn add(&mut self, head: GridPos) -> (r: Option<EntityId>)
        ensures
            match r {
                Some(id) => {
                    &&& !old(self).entities@.contains_key(id)
                    &&& final(self).entities@.dom() == old(self).entities@.dom().insert(id)
                    &&& seeded(final(self).entities@[id], head)
                    &&& forall|k: EntityId| #[trigger]
                        old(self).entities@.contains_key(k) ==> final(self).entities@[k]
                            == old(self).entities@[k]
                },
                None => final(self).entities@ == old(self).entities@,
            },
    {
        let id = random_id();
        if self.spawn_with_id(id, head) {
            Some(id)
        } else {
            None
        }
    }

    /// Spawns a snake under identity `id` with one segment at `head`, facing north; returns
    /// false, and changes nothing, when `id` is already live.
    pub fn spawn_with_id(&mut self, id: EntityId, head: GridPos) -> (r: bool)
        ensures
            r == !old(self).entities@.contains_key(id),
            r ==> {
                &&& final(self).entities@.dom() == old(self).entities@.dom().insert(id)
                &&& seeded(final(self).entities@[id], head)
                &&& forall|k: EntityId| #[trigger]
                    old(self).entities@.contains_key(k) ==> final(self).entities@[k]
                        == old(self).entities@[k]
            },
            !r ==> final(self).entities@ == old(self).entities@,
    {
        if self.entities.contains_key(&id) {
            return false;
        }
        let mut snake = Snake::new();
        snake.body.push_back(head);
        assert(snake.body@ =~= seq![head]);
        self.entities.insert(id, snake);
        true
    }

    /// Removes entity `id`; nothing happens when it is not live.
    pub fn remove(&mut self, id: EntityId)
        ensures
            final(self).entities@ == old(self).entities@.remove(id),
    {
        self.entities.remove(&id);
    }

    /// Entity `id`, when it is live.
    pub fn get(&self, id: &EntityId) -> (r: Option<&Snake>)
        ensures
            match r {
                Some(s) => self.entities@.contains_key(*id) && *s == self.entities@[*id],
                None => !self.entities@.contains_key(*id),
            },
    {
        self.entities.get(id)
    }

    /// Turns entity `id` to face `direction`; returns false when it is not live.
    pub fn turn(&mut self, id: EntityId, direction: Direction) -> (r: bool)
        ensures
            r == old(self).entities@.contains_key(id),
            r ==> {
                let before = old(self).entities@;
                let after = final(self).entities@;
                &&& after.dom() == before.dom()
                &&& after[id].direction == direction
                &&& after[id].body@ == before[id].body@
                &&& forall|k: EntityId| #[trigger]
                    before.contains_key(k) && k != id ==> after[k] == before[k]
            },
            !r ==> final(self).entities@ == old(self).entities@,
    {
        match self.entities.remove(&id) {
            Some(mut snake) => {
                snake.direction = direction;
                self.entities.insert(id, snake);
                true
            },
            None => false,
        }
    }

    /// The identities of all live entities, each once, in no particular order.
    pub fn ids(&self) -> (r: Vec<EntityId>)
        ensures
            r@.to_set() == self.entities@.dom(),
            r@.no_duplicates(),
    {
        let ghost keys = spec_keys_iter(&self.entities).remaining();
        let mut out: Vec<EntityId> = Vec::new();
        for k in it: self.entities.keys()
            invariant
                it.seq() == keys,
                out@ == keys.take(it.index()).unref(),
        {
            out.push(*k);
            assert(keys.take(it.index() + 1).unref() =~= out@);
        }
        assert(out@ =~= keys.unref());
        assert forall|i: int, j: int|
            0 <= i < out@.len() && 0 <= j < out@.len() && i != j implies out@[i] != out@[j] by {
            assert(keys[i] != keys[j]);
        }
        out
    }
}

} // verus!
