use crate::entity::EntityId;
use crate::movement::{all_moved, has_body, movement_events, movement_of, MovementEvent};
use crate::snake::{moved_body, step, Snake};
use crate::types::GridPos;
use crate::world::{chunk_index, ChunkId, World};
use std::collections::HashMap;
use vstd::prelude::*;
use vstd::std_specs::hash::spec_keys_iter;
use vstd::std_specs::iter::IteratorSpec;

verus! {

broadcast use vstd::std_specs::hash::group_hash_axioms;

/// A change in which chunks an entity occupies.
#[derive(Debug, Clone, Copy, PartialEq, Eq, Structural)]
pub enum PresenceEvent {
    /// The entity now occupies the chunk.
    EntityEnteredChunk { entity_id: EntityId, chunk_id: ChunkId },
    /// The entity no longer occupies the chunk.
    EntityLeftChunk { entity_id: EntityId, chunk_id: ChunkId },
}

/// For each chunk, the entities that occupy it.
pub type PresenceMap = HashMap<ChunkId, Vec<EntityId>>;

/// Interest management: which entities occupy which chunks.
pub struct PresenceSystem {
    /// The entities of each known chunk, each listed once.
    pub presence_map: PresenceMap,
}

/// The chunks of the model, as sets of entities.
pub type Presence = Map<ChunkId, Set<EntityId>>;

impl View for PresenceSystem {
    type V = Presence;

    open spec fn view(&self) -> Presence {
        self.presence_map@.map_values(|v: Vec<EntityId>| v@.to_set())
    }
}

/// Some segment of `body` lies in chunk `c` of a world `width` cells wide.
pub open spec fn covers(width: u32, body: Seq<GridPos>, c: ChunkId) -> bool {
    exists|i: int| 0 <= i < body.len() && chunk_index(width, #[trigger] body[i]) == c
}

/// `id` added to chunk `c`, when the chunk is known.
pub open spec fn add_member(m: Presence, c: ChunkId, id: EntityId) -> Presence {
    if m.contains_key(c) {
        m.insert(c, m[c].insert(id))
    } else {
        m
    }
}

/// `id` taken out of chunk `c`, when the chunk is known.
pub open spec fn remove_member(m: Presence, c: ChunkId, id: EntityId) -> Presence {
    if m.contains_key(c) {
        m.insert(c, m[c].remove(id))
    } else {
        m
    }
}

/// `id` added to every known chunk that `body` covers.
pub open spec fn with_entity(m: Presence, width: u32, id: EntityId, body: Seq<GridPos>) -> Presence {
    Map::new(
        |c: ChunkId| m.contains_key(c),
        |c: ChunkId|
            if covers(width, body, c) {
                m[c].insert(id)
            } else {
                m[c]
            },
    )
}

/// `id` taken out of every known chunk that `body` covers.
pub open spec fn without_entity(m: Presence, width: u32, id: EntityId, body: Seq<GridPos>) -> Presence {
    Map::new(
        |c: ChunkId| m.contains_key(c),
        |c: ChunkId|
            if covers(width, body, c) {
                m[c].remove(id)
            } else {
                m[c]
            },
    )
}

/// The head/tail update for one move: when the new head and the dropped tail lie in different
/// chunks, the entity joins the head's chunk and leaves the tail's.
pub open spec fn apply_move(m: Presence, width: u32, e: MovementEvent) -> Presence {
    match e {
        MovementEvent::EntityMoved { entity_id, new_head, removed_tail } => {
            let new_chunk = chunk_index(width, new_head);
            let old_chunk = chunk_index(width, removed_tail);
            if new_chunk != old_chunk {
                remove_member(add_member(m, new_chunk, entity_id), old_chunk, entity_id)
            } else {
                m
            }
        },
    }
}

/// The moves of `evs` applied in order.
pub open spec fn apply_moves(m: Presence, width: u32, evs: Seq<MovementEvent>) -> Presence
    decreases evs.len(),
{
    if evs.len() == 0 {
        m
    } else {
        apply_move(apply_moves(m, width, evs.drop_last()), width, evs.last())
    }
}

/// The events one move reports.
pub open spec fn events_of_move(width: u32, e: MovementEvent) -> Seq<PresenceEvent> {
    match e {
        MovementEvent::EntityMoved { entity_id, new_head, removed_tail } => {
            let new_chunk = chunk_index(width, new_head);
            let old_chunk = chunk_index(width, removed_tail);
            if new_chunk != old_chunk {
                seq![
                    PresenceEvent::EntityEnteredChunk { entity_id, chunk_id: new_chunk },
                    PresenceEvent::EntityLeftChunk { entity_id, chunk_id: old_chunk },
                ]
            } else {
                Seq::empty()
            }
        },
    }
}

/// The events the moves of `evs` report, in order.
pub open spec fn events_of_moves(width: u32, evs: Seq<MovementEvent>) -> Seq<PresenceEvent>
    decreases evs.len(),
{
    if evs.len() == 0 {
        Seq::empty()
    } else {
        events_of_moves(width, evs.drop_last()) + events_of_move(width, evs.last())
    }
}

/// Every known chunk lists exactly the live entities that have a segment in it.
pub open spec fn consistent(m: Presence, entities: Map<EntityId, Snake>, width: u32) -> bool {
    forall|c: ChunkId, id: EntityId|
        #![trigger m[c].contains(id)]
        m.contains_key(c) ==> (m[c].contains(id) <==> entities.contains_key(id) && covers(
            width,
            entities[id].body@,
            c,
        ))
}

proof fn lemma_push_to_set(s: Seq<EntityId>, x: EntityId)
    ensures
        s.push(x).to_set() == s.to_set().insert(x),
{
    assert forall|y: EntityId| s.push(x).to_set().contains(y) == s.to_set().insert(x).contains(y) by {
        if s.push(x).contains(y) && y != x {
            let j = choose|j: int| 0 <= j < s.push(x).len() && s.push(x)[j] == y;
            assert(s[j] == y);
        }
        if s.contains(y) {
            let j = choose|j: int| 0 <= j < s.len() && s[j] == y;
            assert(s.push(x)[j] == y);
        }
        if y == x {
            assert(s.push(x)[s.len() as int] == x);
        }
    }
    assert(s.push(x).to_set() =~= s.to_set().insert(x));
}

proof fn lemma_swap_remove_to_set(s: Seq<EntityId>, i: int)
    requires
        0 <= i < s.len(),
        s.no_duplicates(),
    ensures
        s.update(i, s.last()).drop_last().to_set() == s.to_set().remove(s[i]),
        s.update(i, s.last()).drop_last().no_duplicates(),
{
    let t = s.update(i, s.last()).drop_last();
    let x = s[i];
    assert forall|y: EntityId| t.to_set().contains(y) == s.to_set().remove(x).contains(y) by {
        if t.contains(y) {
            let j = choose|j: int| 0 <= j < t.len() && t[j] == y;
            if j == i {
                assert(s[s.len() - 1] == y);
            } else {
                assert(s[j] == y);
            }
        }
        if s.contains(y) && y != x {
            let j = choose|j: int| 0 <= j < s.len() && s[j] == y;
            if j == s.len() - 1 {
                assert(t[i] == y);
            } else {
                assert(t[j] == y);
            }
        }
    }
    assert(t.to_set() =~= s.to_set().remove(x));
    assert forall|a: int, b: int| 0 <= a < t.len() && 0 <= b < t.len() && a != b implies t[a]
        != t[b] by {
        let sa = if a == i { s.len() - 1 } else { a };
        let sb = if b == i { s.len() - 1 } else { b };
        assert(t[a] == s[sa] && t[b] == s[sb]);
    }
}

proof fn lemma_covers_push(width: u32, body: Seq<GridPos>, i: int, c: ChunkId)
    requires
        0 <= i < body.len(),
    ensures
        covers(width, body.take(i + 1), c) == (covers(width, body.take(i), c) || chunk_index(
            width,
            body[i],
        ) == c),
{
    if covers(width, body.take(i), c) {
        let prev = body.take(i);
        let j = choose|j: int| 0 <= j < prev.len() && chunk_index(width, #[trigger] prev[j]) == c;
        assert(body.take(i + 1)[j] == body[j]);
    }
    if chunk_index(width, body[i]) == c {
        assert(body.take(i + 1)[i] == body[i]);
    }
    if covers(width, body.take(i + 1), c) {
        let next = body.take(i + 1);
        let j = choose|j: int| 0 <= j < next.len() && chunk_index(width, #[trigger] next[j]) == c;
        if j < i {
            assert(body.take(i)[j] == body[j]);
        }
    }
}


/// Entity `x` is listed in known chunk `c`.
pub open spec fn member(m: Presence, c: ChunkId, x: EntityId) -> bool {
    m.contains_key(c) && m[c].contains(x)
}

/// The head/tail update is exact for this move of entity `id`: the tail's chunk is the new
/// head's chunk, or no other segment stays in it.
pub open spec fn simple_move(entities: Map<EntityId, Snake>, width: u32, id: EntityId) -> bool {
    let body = entities[id].body@;
    let new_chunk = chunk_index(width, step(body[0], entities[id].direction));
    let old_chunk = chunk_index(width, body.last());
    new_chunk == old_chunk || !covers(width, body.drop_last(), old_chunk)
}

proof fn lemma_covers_split(width: u32, body: Seq<GridPos>, c: ChunkId)
    requires
        body.len() > 0,
    ensures
        covers(width, body, c) == (covers(width, body.drop_last(), c) || chunk_index(
            width,
            body.last(),
        ) == c),
{
    lemma_covers_push(width, body, body.len() - 1, c);
    assert(body.take(body.len() - 1) =~= body.drop_last());
    assert(body.take(body.len() as int) =~= body);
}

proof fn lemma_covers_moved(width: u32, body: Seq<GridPos>, d: crate::types::Direction, c: ChunkId)
    requires
        body.len() > 0,
    ensures
        covers(width, moved_body(body, d), c) == (chunk_index(width, step(body[0], d)) == c
            || covers(width, body.drop_last(), c)),
{
    let mb = moved_body(body, d);
    let mid = body.drop_last();
    if covers(width, mb, c) {
        let j = choose|j: int| 0 <= j < mb.len() && chunk_index(width, #[trigger] mb[j]) == c;
        if j > 0 {
            assert(mid[j - 1] == mb[j]);
        }
    }
    if covers(width, mid, c) {
        let j = choose|j: int| 0 <= j < mid.len() && chunk_index(width, #[trigger] mid[j]) == c;
        assert(mb[j + 1] == mid[j]);
    }
    assert(mb[0] == step(body[0], d));
}

proof fn lemma_move_member(m1: Presence, m2: Presence, width: u32, e: MovementEvent, c: ChunkId, x: EntityId)
    requires
        m1.dom() == m2.dom(),
        member(m1, c, x) == member(m2, c, x),
    ensures
        apply_move(m1, width, e).dom() == m1.dom(),
        member(apply_move(m1, width, e), c, x) == member(apply_move(m2, width, e), c, x),
        e.id() != x ==> member(apply_move(m1, width, e), c, x) == member(m1, c, x),
{
}

proof fn lemma_moves_member(m: Presence, width: u32, evs: Seq<MovementEvent>, c: ChunkId, x: EntityId)
    requires
        forall|i: int, j: int| 0 <= i < j < evs.len() ==> evs[i].id() != evs[j].id(),
    ensures
        apply_moves(m, width, evs).dom() == m.dom(),
        (forall|k: int| 0 <= k < evs.len() ==> #[trigger] evs[k].id() != x) ==> member(
            apply_moves(m, width, evs),
            c,
            x,
        ) == member(m, c, x),
        forall|k: int|
            0 <= k < evs.len() && #[trigger] evs[k].id() == x ==> member(
                apply_moves(m, width, evs),
                c,
                x,
            ) == member(apply_move(m, width, evs[k]), c, x),
    decreases evs.len(),
{
    if evs.len() > 0 {
        let init = evs.drop_last();
        let e = evs.last();
        lemma_moves_member(m, width, init, c, x);
        let prev = apply_moves(m, width, init);
        if e.id() == x {
            assert forall|k: int| 0 <= k < init.len() implies #[trigger] init[k].id() != x by {
                assert(evs[k].id() != evs[evs.len() - 1].id());
            }
            lemma_move_member(prev, m, width, e, c, x);
        } else {
            lemma_move_member(prev, prev, width, e, c, x);
            assert forall|k: int| 0 <= k < evs.len() && #[trigger] evs[k].id() == x implies member(
                apply_moves(m, width, evs),
                c,
                x,
            ) == member(apply_move(m, width, evs[k]), c, x) by {
                assert(init[k] == evs[k]);
            }
            if forall|k: int| 0 <= k < evs.len() ==> #[trigger] evs[k].id() != x {
                assert forall|k: int| 0 <= k < init.len() implies #[trigger] init[k].id() != x by {
                    assert(init[k] == evs[k]);
                }
            }
        }
    }
}

/// Spawning keeps the presence map exact: adding a new entity to every chunk its body covers
/// makes the map agree with the store that now holds it.
pub proof fn lemma_presence_spawn(
    m: Presence,
    entities: Map<EntityId, Snake>,
    width: u32,
    id: EntityId,
    snake: Snake,
)
    requires
        consistent(m, entities, width),
        !entities.contains_key(id),
    ensures
        consistent(with_entity(m, width, id, snake.body@), entities.insert(id, snake), width),
{
    let m2 = with_entity(m, width, id, snake.body@);
    let e2 = entities.insert(id, snake);
    assert forall|c: ChunkId, x: EntityId| #![trigger m2[c].contains(x)] m2.contains_key(c) implies (m2[c].contains(x) <==> e2.contains_key(x) && covers(width, e2[x].body@, c)) by {
        assert(m[c].contains(x) <==> entities.contains_key(x) && covers(width, entities[x].body@, c));
    }
}

/// Death keeps the presence map exact: taking a live entity out of every chunk its body covers
/// makes the map agree with the store it was removed from.
pub proof fn lemma_presence_death(m: Presence, entities: Map<EntityId, Snake>, width: u32, id: EntityId)
    requires
        consistent(m, entities, width),
        entities.contains_key(id),
    ensures
        consistent(
            without_entity(m, width, id, entities[id].body@),
            entities.remove(id),
            width,
        ),
{
    let m2 = without_entity(m, width, id, entities[id].body@);
    let e2 = entities.remove(id);
    assert forall|c: ChunkId, x: EntityId| #![trigger m2[c].contains(x)] m2.contains_key(c) implies (m2[c].contains(x) <==> e2.contains_key(x) && covers(width, e2[x].body@, c)) by {
        assert(m[c].contains(x) <==> entities.contains_key(x) && covers(width, entities[x].body@, c));
    }
}

/// A tick of movement keeps the presence map exact when every move is simple (see
/// `simple_move`): applying the movement events in order to an exact map gives the exact map
/// of the moved store.
pub proof fn lemma_presence_tick(
    m: Presence,
    before: Map<EntityId, Snake>,
    after: Map<EntityId, Snake>,
    width: u32,
    evs: Seq<MovementEvent>,
)
    requires
        consistent(m, before, width),
        all_moved(before, after),
        movement_events(before, evs),
        forall|k: EntityId| has_body(before, k) ==> #[trigger] simple_move(before, width, k),
    ensures
        consistent(apply_moves(m, width, evs), after, width),
{
    let m2 = apply_moves(m, width, evs);
    assert forall|c: ChunkId, x: EntityId| #![trigger m2[c].contains(x)] m2.contains_key(c) implies (m2[c].contains(x) <==> after.contains_key(x) && covers(width, after[x].body@, c)) by {
        lemma_moves_member(m, width, evs, c, x);
        assert(m[c].contains(x) <==> before.contains_key(x) && covers(width, before[x].body@, c));
        if has_body(before, x) {
            let k = choose|k: int| 0 <= k < evs.len() && #[trigger] evs[k].id() == x;
            assert(evs[k] == movement_of(before, x));
            let body = before[x].body@;
            assert(simple_move(before, width, x));
            lemma_covers_split(width, body, c);
            lemma_covers_moved(width, body, before[x].direction, c);
            let oc = chunk_index(width, body.last());
            lemma_covers_split(width, body, oc);
        } else {
            assert forall|k: int| 0 <= k < evs.len() implies #[trigger] evs[k].id() != x by {
                if evs[k].id() == x {
                    assert(has_body(before, evs[k].id()));
                }
            }
            if before.contains_key(x) {
                assert(after[x] == before[x]);
            }
        }
    }
}

impl PresenceSystem {
    /// Each chunk lists an entity at most once.
    pub open spec fn wf(&self) -> bool {
        forall|c: ChunkId| #[trigger]
            self.presence_map@.contains_key(c) ==> self.presence_map@[c]@.no_duplicates()
    }

    /// The numbers of all known chunks, each once, in no particular order.
    pub fn chunk_ids(&self) -> (r: Vec<ChunkId>)
        ensures
            r@.to_set() == self@.dom(),
            r@.no_duplicates(),
    {
        let ghost keys = spec_keys_iter(&self.presence_map).remaining();
        let mut out: Vec<ChunkId> = Vec::new();
        for k in it: self.presence_map.keys()
            invariant
                it.seq() == keys,
                out@ == keys.take(it.index()).unref(),
        {
            out.push(*k);
            assert(keys.take(it.index() + 1).unref() =~= out@);
        }
        assert(out@ =~= keys.unref());
        assert forall|i: int, j: int|
            0 <= i < out@.len() && 0 <= j < out@.len() && i != j implies out@[i] != out@[j] by {
            assert(keys[i] != keys[j]);
        }
        out
    }

    /// No chunks known yet.
    pub fn new() -> (p: PresenceSystem)
        ensures
            p.wf(),
            p@ == Presence::empty(),
    {
        let p = PresenceSystem { presence_map: HashMap::new() };
        assert(p@ =~= Presence::empty());
        p
    }

    /// Makes chunks `0 .. total_chunks` known, each with no entities.
    pub fn add_chunks(&mut self, total_chunks: u32)
        requires
            old(self).wf(),
        ensures
            final(self).wf(),
            final(self)@ == Map::new(
                |c: ChunkId| old(self)@.contains_key(c) || c < total_chunks,
                |c: ChunkId|
                    if c < total_chunks {
                        Set::<EntityId>::empty()
                    } else {
                        old(self)@[c]
                    },
            ),
    {
        let ghost start = self@;
        let mut chunk_id: u32 = 0;
        while chunk_id < total_chunks
            invariant
                chunk_id <= total_chunks,
                self.wf(),
                self@ == Map::new(
                    |c: ChunkId| start.contains_key(c) || c < chunk_id,
                    |c: ChunkId|
                        if c < chunk_id {
                            Set::<EntityId>::empty()
                        } else {
                            start[c]
                        },
                ),
            decreases total_chunks - chunk_id,
        {
            let ghost prev = self@;
            let fresh: Vec<EntityId> = Vec::new();
            assert(fresh@.to_set() =~= Set::<EntityId>::empty());
            self.presence_map.insert(chunk_id, fresh);
            assert(self@ =~= prev.insert(chunk_id, Set::<EntityId>::empty()));
            chunk_id = chunk_id + 1;
            assert(self@ =~= Map::new(
                |c: ChunkId| start.contains_key(c) || c < chunk_id,
                |c: ChunkId|
                    if c < chunk_id {
                        Set::<EntityId>::empty()
                    } else {
                        start[c]
                    },
            ));
        }
    }

    /// Adds `entity_id` to the chunk `chunk_id`, once; nothing happens for an unknown chunk.
    pub fn add_entity_to_chunk(&mut self, chunk_id: ChunkId, entity_id: EntityId)
        requires
            old(self).wf(),
        ensures
            final(self).wf(),
            final(self)@ == add_member(old(self)@, chunk_id, entity_id),
    {
        let ghost start = self@;
        match self.presence_map.remove(&chunk_id) {
            Some(mut entities_in_chunk) => {
                let mut found = false;
                let mut i: usize = 0;
                while i < entities_in_chunk.len()
                    invariant
                        i <= entities_in_chunk@.len(),
                        found == entities_in_chunk@.take(i as int).contains(entity_id),
                    decreases entities_in_chunk@.len() - i,
                {
                    assert(entities_in_chunk@.take(i as int + 1) =~= entities_in_chunk@.take(
                        i as int,
                    ).push(entities_in_chunk@[i as int]));
                    if entities_in_chunk[i] == entity_id {
                        found = true;
                    }
                    i = i + 1;
                    proof {
                        let prev = entities_in_chunk@.take(i - 1);
                        let next = entities_in_chunk@.take(i as int);
                        if prev.contains(entity_id) {
                            let j = choose|j: int| 0 <= j < prev.len() && prev[j] == entity_id;
                            assert(next[j] == entity_id);
                        }
                        if next.contains(entity_id) && next[i - 1] != entity_id {
                            let j = choose|j: int| 0 <= j < next.len() && next[j] == entity_id;
                            assert(prev[j] == entity_id);
                        }
                        if next[i - 1] == entity_id {
                            assert(next.contains(entity_id));
                        }
                    }
                }
                assert(entities_in_chunk@.take(i as int) =~= entities_in_chunk@);
                let ghost list0 = entities_in_chunk@;
                if !found {
                    entities_in_chunk.push(entity_id);
                    proof {
                        lemma_push_to_set(list0, entity_id);
                    }
                } else {
                    assert(list0.to_set().insert(entity_id) =~= list0.to_set());
                }
                self.presence_map.insert(chunk_id, entities_in_chunk);
                assert(self@ =~= add_member(start, chunk_id, entity_id));
            },
            None => {},
        }
    }

    /// Takes `entity_id` out of the chunk `chunk_id`; nothing happens for an unknown chunk.
    pub fn remove_entity_from_chunk(&mut self, chunk_id: ChunkId, entity_id: &EntityId)
        requires
            old(self).wf(),
        ensures
            final(self).wf(),
            final(self)@ == remove_member(old(self)@, chunk_id, *entity_id),
    {
        let ghost start = self@;
        match self.presence_map.remove(&chunk_id) {
            Some(mut entities_in_chunk) => {
                let ghost list0 = entities_in_chunk@;
                let mut i: usize = 0;
                let mut index: Option<usize> = None;
                while i < entities_in_chunk.len()
                    invariant
                        i <= entities_in_chunk@.len(),
                        match index {
                            Some(k) => k < entities_in_chunk@.len() && entities_in_chunk@[k as int]
                                == *entity_id,
                            None => forall|j: int|
                                0 <= j < i ==> entities_in_chunk@[j] != *entity_id,
                        },
                    decreases entities_in_chunk@.len() - i,
                {
                    if index.is_none() && entities_in_chunk[i] == *entity_id {
                        index = Some(i);
                    }
                    i = i + 1;
                }
                match index {
                    Some(k) => {
                        entities_in_chunk.swap_remove(k);
                        proof {
                            lemma_swap_remove_to_set(list0, k as int);
                        }
                    },
                    None => {
                        assert(!list0.contains(*entity_id));
                        assert(list0.to_set().remove(*entity_id) =~= list0.to_set());
                    },
                }
                self.presence_map.insert(chunk_id, entities_in_chunk);
                assert(self@ =~= remove_member(start, chunk_id, *entity_id));
            },
            None => {},
        }
    }

    /// Adds a newly spawned entity to every known chunk its body covers.
    pub fn register_new_entity(&mut self, entity_id: EntityId, snake: &Snake, world: &World)
        requires
            old(self).wf(),
        ensures
            final(self).wf(),
            final(self)@ == with_entity(old(self)@, world.width, entity_id, snake.body@),
    {
        let ghost start = self@;
        let ghost body = snake.body@;
        let mut i: usize = 0;
        assert(with_entity(start, world.width, entity_id, body.take(0)) =~= start);
        while i < snake.body.len()
            invariant
                i <= body.len(),
                body == snake.body@,
                self.wf(),
                self@ == with_entity(start, world.width, entity_id, body.take(i as int)),
            decreases body.len() - i,
        {
            let chunk = world.chunk_at(&snake.body[i]);
            self.add_entity_to_chunk(chunk, entity_id);
            proof {
                assert forall|c: ChunkId| true implies covers(world.width, body.take(i + 1), c) == (
                covers(world.width, body.take(i as int), c) || chunk == c) by {
                    lemma_covers_push(world.width, body, i as int, c);
                }
            }
            i = i + 1;
            proof {
                let target = with_entity(start, world.width, entity_id, body.take(i as int));
                assert forall|c: ChunkId| #[trigger] target.contains_key(c) implies self@[c]
                    == target[c] by {
                    assert(self@[c] =~= target[c]);
                }
                assert(self@ =~= target);
            }
        }
        assert(body.take(i as int) =~= body);
    }

    /// Takes a dead entity out of every known chunk its body covers.
    pub fn handle_entity_death(&mut self, entity_id: EntityId, snake: &Snake, world: &World)
        requires
            old(self).wf(),
        ensures
            final(self).wf(),
            final(self)@ == without_entity(old(self)@, world.width, entity_id, snake.body@),
    {
        let ghost start = self@;
        let ghost body = snake.body@;
        let mut i: usize = 0;
        assert(without_entity(start, world.width, entity_id, body.take(0)) =~= start);
        while i < snake.body.len()
            invariant
                i <= body.len(),
                body == snake.body@,
                self.wf(),
                self@ == without_entity(start, world.width, entity_id, body.take(i as int)),
            decreases body.len() - i,
        {
            let chunk = world.chunk_at(&snake.body[i]);
            self.remove_entity_from_chunk(chunk, &entity_id);
            proof {
                assert forall|c: ChunkId| true implies covers(world.width, body.take(i + 1), c) == (
                covers(world.width, body.take(i as int), c) || chunk == c) by {
                    lemma_covers_push(world.width, body, i as int, c);
                }
            }
            i = i + 1;
            proof {
                let target = without_entity(start, world.width, entity_id, body.take(i as int));
                assert forall|c: ChunkId| #[trigger] target.contains_key(c) implies self@[c]
                    == target[c] by {
                    assert(self@[c] =~= target[c]);
                }
                assert(self@ =~= target);
            }
        }
        assert(body.take(i as int) =~= body);
    }

    /// Applies one tick's movement events in order: for each move whose new head and dropped
    /// tail lie in different chunks, adds the entity to the head's chunk and takes it out of
    /// the tail's, and reports both as events.
    pub fn tick(
        &mut self,
        world: &World,
        movement_events: &[MovementEvent],
        events_bus: &mut Vec<PresenceEvent>,
    )
        requires
            old(self).wf(),
        ensures
            final(self).wf(),
            final(self)@ == apply_moves(old(self)@, world.width, movement_events@),
            final(events_bus)@ == old(events_bus)@ + events_of_moves(world.width, movement_events@),
    {
        let ghost start = self@;
        let ghost bus0 = events_bus@;
        let mut i: usize = 0;
        assert(movement_events@.take(0) =~= Seq::<MovementEvent>::empty());
        assert(bus0 + Seq::<PresenceEvent>::empty() =~= bus0);
        while i < movement_events.len()
            invariant
                i <= movement_events@.len(),
                self.wf(),
                self@ == apply_moves(start, world.width, movement_events@.take(i as int)),
                events_bus@ == bus0 + events_of_moves(world.width, movement_events@.take(i as int)),
            decreases movement_events@.len() - i,
        {
            let event = movement_events[i];
            assert(movement_events@.take(i as int + 1).drop_last() =~= movement_events@.take(
                i as int,
            ));
            match event {
                MovementEvent::EntityMoved { entity_id, new_head, removed_tail } => {
                    let new_chunk = world.chunk_at(&new_head);
                    let old_chunk = world.chunk_at(&removed_tail);
                    if new_chunk != old_chunk {
                        self.add_entity_to_chunk(new_chunk, entity_id);
                        events_bus.push(
                            PresenceEvent::EntityEnteredChunk { entity_id, chunk_id: new_chunk },
                        );
                        self.remove_entity_from_chunk(old_chunk, &entity_id);
                        events_bus.push(
                            PresenceEvent::EntityLeftChunk { entity_id, chunk_id: old_chunk },
                        );
                    }
                },
            }
            i = i + 1;
            assert(events_bus@ =~= bus0 + events_of_moves(
                world.width,
                movement_events@.take(i as int),
            ));
        }
        assert(movement_events@.take(i as int) =~= movement_events@);
    }
}

} // verus!
