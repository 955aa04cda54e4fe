use crate::entity::{EntityId, EntityManager};
use crate::movement::has_body;
use crate::presence::{consistent, covers, member, Presence, PresenceSystem};
use crate::snake::Snake;
use crate::types::GridPos;
use crate::world::{chunk_index, ChunkId, World};
use vstd::prelude::*;

verus! {

broadcast use vstd::std_specs::hash::group_hash_axioms;

/// What the physics stage reports.
#[derive(Debug, PartialEq, Eq, Hash, Clone, Copy, Structural)]
pub enum PhysicsEvent {
    /// The entity died this tick.
    EntityDied(EntityId),
}

impl PhysicsEvent {
    /// The entity the event is about.
    pub open spec fn id(self) -> EntityId {
        match self {
            PhysicsEvent::EntityDied(id) => id,
        }
    }
}

/// Two entities whose heads met in the same cell; `first < second`. One of them dies.
#[derive(Debug, Clone, Copy, PartialEq, Eq, Structural)]
pub struct Duel {
    pub first: EntityId,
    pub second: EntityId,
}

/// The stage that finds collisions and reports deaths.
pub struct PhysicsSystem;

/// Relies on `rand::random::<bool>`: a coin toss; nothing is promised of the outcome.
#[verifier::external_body]
fn coin_toss() -> bool {
    rand::random::<bool>()
}

/// The head of entity `a`.
pub open spec fn head_of(entities: Map<EntityId, Snake>, a: EntityId) -> GridPos {
    entities[a].body@[0]
}

/// The head of `body` lies on one of its other segments.
pub open spec fn self_collides(body: Seq<GridPos>) -> bool {
    body.len() > 0 && exists|i: int| 1 <= i < body.len() && #[trigger] body[i] == body[0]
}

/// The head of `a` lies on a segment of `b` other than `b`'s head.
pub open spec fn hits_body(entities: Map<EntityId, Snake>, a: EntityId, b: EntityId) -> bool {
    &&& has_body(entities, a)
    &&& has_body(entities, b)
    &&& head_of(entities, a) != head_of(entities, b)
    &&& entities[b].body@.contains(head_of(entities, a))
}

/// Within the entities listed in `list`, entity `a` dies by the deterministic rules: it runs
/// into itself, or its head runs into the body of another listed entity.
pub open spec fn fatal_among(list: Set<EntityId>, entities: Map<EntityId, Snake>, a: EntityId) -> bool {
    &&& has_body(entities, a)
    &&& (self_collides(entities[a].body@) || exists|b: EntityId|
        list.contains(b) && #[trigger] hits_body(entities, a, b))
}

/// Entity `a` dies by the deterministic rules in some chunk where it is listed.
pub open spec fn doomed(p: Presence, entities: Map<EntityId, Snake>, a: EntityId) -> bool {
    exists|c: ChunkId| #[trigger] member(p, c, a) && fatal_among(p[c], entities, a)
}

/// Within chunk `c` and the entities listed in `list`, `a` and `b` met head to head, and `c`
/// is the chunk of the cell where they met.
pub open spec fn duel_among(
    list: Set<EntityId>,
    entities: Map<EntityId, Snake>,
    width: u32,
    c: ChunkId,
    a: EntityId,
    b: EntityId,
) -> bool {
    &&& a < b
    &&& list.contains(a)
    &&& list.contains(b)
    &&& has_body(entities, a)
    &&& has_body(entities, b)
    &&& head_of(entities, a) == head_of(entities, b)
    &&& chunk_index(width, head_of(entities, a)) == c
}

/// `a < b` met head to head in the chunk of that cell, where both are listed.
pub open spec fn duel(p: Presence, entities: Map<EntityId, Snake>, width: u32, a: EntityId, b: EntityId) -> bool {
    let c = chunk_index(width, head_of(entities, a));
    p.contains_key(c) && duel_among(p[c], entities, width, c, a, b)
}

/// Who dies: everyone doomed by the deterministic rules, and of each head-to-head pair
/// `a < b` the one that `pick` names (`a` when `pick(a, b)`).
pub open spec fn deaths(
    p: Presence,
    entities: Map<EntityId, Snake>,
    width: u32,
    pick: spec_fn(EntityId, EntityId) -> bool,
) -> Set<EntityId> {
    Set::new(
        |x: EntityId|
            doomed(p, entities, x) || exists|a: EntityId, b: EntityId| #[trigger]
                duel(p, entities, width, a, b) && x == (if pick(a, b) {
                    a
                } else {
                    b
                }),
    )
}

/// The presence map with every entity of `dead` taken out of the chunks its body covers.
pub open spec fn purged(p: Presence, entities: Map<EntityId, Snake>, width: u32, dead: Set<EntityId>) -> Presence {
    Map::new(
        |c: ChunkId| p.contains_key(c),
        |c: ChunkId|
            p[c].filter(
                |x: EntityId|
                    !(dead.contains(x) && entities.contains_key(x) && covers(
                        width,
                        entities[x].body@,
                        c,
                    )),
            ),
    )
}

/// The losers that `coins` pick among `duels`: the first of duel `k` when coin `k` shows
/// true, else the second.
pub open spec fn losers(duels: Seq<Duel>, coins: Seq<bool>) -> Set<EntityId> {
    Set::new(
        |x: EntityId|
            exists|k: int|
                #![trigger duels[k]]
                0 <= k < duels.len() && x == (if coins[k] {
                    duels[k].first
                } else {
                    duels[k].second
                }),
    )
}

/// The identities that the events `evs` name.
pub open spec fn died(evs: Seq<PhysicsEvent>) -> Set<EntityId> {
    Set::new(|x: EntityId| exists|i: int| 0 <= i < evs.len() && #[trigger] evs[i].id() == x)
}

/// Appends `x` to `v` unless it is there already.
fn add_once(v: &mut Vec<EntityId>, x: EntityId)
    requires
        old(v)@.no_duplicates(),
    ensures
        final(v)@.no_duplicates(),
        final(v)@.to_set() == old(v)@.to_set().insert(x),
{
    let mut i: usize = 0;
    while i < v.len()
        invariant
            i <= v@.len(),
            v@.no_duplicates(),
            forall|j: int| 0 <= j < i ==> v@[j] != x,
        decreases v@.len() - i,
    {
        if v[i] == x {
            assert(v@.to_set().insert(x) =~= v@.to_set());
            return ;
        }
        i = i + 1;
    }
    let ghost before = v@;
    v.push(x);
    assert(v@.to_set() =~= before.to_set().insert(x)) by {
        assert forall|y: EntityId| v@.contains(y) implies before.contains(y) || y == x by {
            let j = choose|j: int| 0 <= j < v@.len() && v@[j] == y;
            if j < before.len() {
                assert(before[j] == y);
            }
        }
        assert forall|y: EntityId| before.contains(y) implies v@.contains(y) by {
            let j = choose|j: int| 0 <= j < before.len() && before[j] == y;
            assert(v@[j] == y);
        }
        assert(v@[before.len() as int] == x);
    }
}

/// Appends duel `d` to `v` unless it is there already.
fn add_duel_once(v: &mut Vec<Duel>, d: Duel)
    requires
        old(v)@.no_duplicates(),
    ensures
        final(v)@.no_duplicates(),
        final(v)@.to_set() == old(v)@.to_set().insert(d),
{
    let mut i: usize = 0;
    while i < v.len()
        invariant
            i <= v@.len(),
            v@.no_duplicates(),
            forall|j: int| 0 <= j < i ==> v@[j] != d,
        decreases v@.len() - i,
    {
        if v[i] == d {
            assert(v@.to_set().insert(d) =~= v@.to_set());
            return ;
        }
        i = i + 1;
    }
    let ghost before = v@;
    v.push(d);
    assert(v@.to_set() =~= before.to_set().insert(d)) by {
        assert forall|y: Duel| v@.contains(y) implies before.contains(y) || y == d by {
            let j = choose|j: int| 0 <= j < v@.len() && v@[j] == y;
            if j < before.len() {
                assert(before[j] == y);
            }
        }
        assert forall|y: Duel| before.contains(y) implies v@.contains(y) by {
            let j = choose|j: int| 0 <= j < before.len() && before[j] == y;
            assert(v@[j] == y);
        }
        assert(v@[before.len() as int] == d);
    }
}

/// Whether `pos` is one of the cells of `snake`.
fn body_contains(snake: &Snake, pos: GridPos) -> (r: bool)
    ensures
        r == snake.body@.contains(pos),
{
    let mut i: usize = 0;
    while i < snake.body.len()
        invariant
            i <= snake.body@.len(),
            forall|j: int| 0 <= j < i ==> snake.body@[j] != pos,
        decreases snake.body@.len() - i,
    {
        if snake.body[i] == pos {
            return true;
        }
        i = i + 1;
    }
    false
}

impl PhysicsSystem {
    /// Whether the snake's head lies on one of its other segments.
    pub fn check_self_collision(snake: &Snake) -> (r: bool)
        ensures
            r == self_collides(snake.body@),
    {
        if snake.body.len() == 0 {
            return false;
        }
        let head = snake.body[0];
        let mut i: usize = 1;
        while i < snake.body.len()
            invariant
                1 <= i <= snake.body@.len(),
                head == snake.body@[0],
                forall|j: int| 1 <= j < i ==> snake.body@[j] != head,
            decreases snake.body@.len() - i,
        {
            if snake.body[i] == head {
                return true;
            }
            i = i + 1;
        }
        false
    }

    /// Adds to `dead` each entity of `list` that dies by the deterministic rules among the
    /// entities of `list`, and to `duels` each head-to-head pair of `list` that met in chunk
    /// `c`.
    fn scan_chunk(
        c: ChunkId,
        list: &Vec<EntityId>,
        entities: &EntityManager,
        world: &World,
        dead: &mut Vec<EntityId>,
        duels: &mut Vec<Duel>,
    )
        requires
            old(dead)@.no_duplicates(),
            old(duels)@.no_duplicates(),
        ensures
            final(dead)@.no_duplicates(),
            final(duels)@.no_duplicates(),
            final(dead)@.to_set() == old(dead)@.to_set() + Set::new(
                |a: EntityId| list@.contains(a) && fatal_among(list@.to_set(), entities.entities@, a),
            ),
            final(duels)@.to_set() == old(duels)@.to_set() + Set::new(
                |d: Duel|
                    duel_among(
                        list@.to_set(),
                        entities.entities@,
                        world.width,
                        c,
                        d.first,
                        d.second,
                    ),
            ),
    {
        let ghost ents = entities.entities@;
        let ghost w = world.width;
        let ghost l = list@;
        let ghost dead0 = dead@.to_set();
        let ghost duels0 = duels@.to_set();
        let mut i: usize = 0;
        while i < list.len()
            invariant
                i <= l.len(),
                l == list@,
                ents == entities.entities@,
                w == world.width,
                dead@.no_duplicates(),
                duels@.no_duplicates(),
                dead@.to_set() == dead0 + Set::new(
                    |a: EntityId| l.take(i as int).contains(a) && fatal_among(l.to_set(), ents, a),
                ),
                duels@.to_set() == duels0 + Set::new(
                    |d: Duel|
                        l.take(i as int).contains(d.first) && duel_among(
                            l.to_set(),
                            ents,
                            w,
                            c,
                            d.first,
                            d.second,
                        ),
                ),
            decreases l.len() - i,
        {
            let a = list[i];
            let ghost dead_i = dead@.to_set();
            let ghost duels_i = duels@.to_set();
            let ghost prev = l.take(i as int);
            let ghost next = l.take(i as int + 1);
            proof {
                assert(next =~= prev.push(a));
                assert forall|x: EntityId| next.contains(x) == (prev.contains(x) || x == a) by {
                    if next.contains(x) {
                        let j = choose|j: int| 0 <= j < next.len() && next[j] == x;
                        if j < i {
                            assert(prev[j] == x);
                        }
                    }
                    if prev.contains(x) {
                        let j = choose|j: int| 0 <= j < prev.len() && prev[j] == x;
                        assert(next[j] == x);
                    }
                    assert(next[i as int] == a);
                }
                assert(l.contains(a)) by {
                    assert(l[i as int] == a);
                }
            }
            match entities.get(&a) {
                Some(snake_a) => {
                    if snake_a.body.len() > 0 {
                        let head_a = snake_a.body[0];
                        let mut hit = Self::check_self_collision(snake_a);
                        let ghost self_hit = hit;
                        let ghost duels_before_j = duels@.to_set();
                        let mut j: usize = 0;
                        while j < list.len()
                            invariant
                                j <= l.len(),
                                l == list@,
                                ents == entities.entities@,
                                w == world.width,
                                ents.contains_key(a),
                                l.contains(a),
                                *snake_a == ents[a],
                                ents[a].body@.len() > 0,
                                head_a == head_of(ents, a),
                                self_hit == self_collides(ents[a].body@),
                                duels@.no_duplicates(),
                                hit == (self_hit || exists|b: EntityId|
                                    l.take(j as int).contains(b) && #[trigger] hits_body(ents, a, b)),
                                duels@.to_set() == duels_before_j + Set::new(
                                    |d: Duel|
                                        d.first == a && l.take(j as int).contains(d.second)
                                            && duel_among(l.to_set(), ents, w, c, d.first, d.second),
                                ),
                            decreases l.len() - j,
                        {
                            let b = list[j];
                            let ghost duels_j = duels@.to_set();
                            let ghost pj = l.take(j as int);
                            let ghost nj = l.take(j as int + 1);
                            proof {
                                assert(nj =~= pj.push(b));
                                assert forall|x: EntityId| nj.contains(x) == (pj.contains(x) || x == b) by {
                                    if nj.contains(x) {
                                        let k = choose|k: int| 0 <= k < nj.len() && nj[k] == x;
                                        if k < j {
                                            assert(pj[k] == x);
                                        }
                                    }
                                    if pj.contains(x) {
                                        let k = choose|k: int| 0 <= k < pj.len() && pj[k] == x;
                                        assert(nj[k] == x);
                                    }
                                    assert(nj[j as int] == b);
                                }
                                assert(l.contains(b)) by {
                                    assert(l[j as int] == b);
                                }
                            }
                            match entities.get(&b) {
                                Some(snake_b) => {
                                    if snake_b.body.len() > 0 {
                                        let head_b = snake_b.body[0];
                                        if head_a != head_b {
                                            if body_contains(snake_b, head_a) {
                                                hit = true;
                                                assert(hits_body(ents, a, b));
                                            }
                                        } else if a < b && world.chunk_at(&head_a) == c {
                                            assert(duel_among(l.to_set(), ents, w, c, a, b));
                                            add_duel_once(duels, Duel { first: a, second: b });
                                        }
                                    }
                                },
                                None => {},
                            }
                            assert(duels@.to_set() == duels_j || (duels@.to_set() == duels_j.insert(
                                Duel { first: a, second: b },
                            ) && duel_among(l.to_set(), ents, w, c, a, b)));
                            assert(duel_among(l.to_set(), ents, w, c, a, b) ==> duels@.to_set().contains(
                                Duel { first: a, second: b },
                            ));
                            j = j + 1;
                            proof {
                                let target = duels_before_j + Set::new(
                                    |d: Duel|
                                        d.first == a && nj.contains(d.second) && duel_among(
                                            l.to_set(),
                                            ents,
                                            w,
                                            c,
                                            d.first,
                                            d.second,
                                        ),
                                );
                                assert forall|d: Duel| #[trigger]
                                    duels@.to_set().contains(d) == target.contains(d) by {
                                    if d == (Duel { first: a, second: b }) {
                                    } else if d.first == a {
                                        assert(nj.contains(d.second) == pj.contains(d.second));
                                    }
                                }
                                assert(duels@.to_set() =~= target);
                                if hit && !self_hit {
                                    if !(exists|x: EntityId| pj.contains(x) && #[trigger] hits_body(ents, a, x)) {
                                        assert(hits_body(ents, a, b));
                                    }
                                }
                                if exists|x: EntityId| nj.contains(x) && #[trigger] hits_body(ents, a, x) {
                                    let x = choose|x: EntityId| nj.contains(x) && #[trigger] hits_body(ents, a, x);
                                    if x != b {
                                        assert(pj.contains(x));
                                    }
                                }
                            }
                        }
                        assert(l.take(j as int) =~= l);
                        if hit {
                            add_once(dead, a);
                        }
                        proof {
                            assert(hit == fatal_among(l.to_set(), ents, a));
                        }
                    }
                },
                None => {},
            }
            i = i + 1;
            proof {
                assert(dead@.to_set() =~= dead0 + Set::new(
                    |x: EntityId| l.take(i as int).contains(x) && fatal_among(l.to_set(), ents, x),
                ));
                assert(duels@.to_set() =~= duels0 + Set::new(
                    |d: Duel|
                        l.take(i as int).contains(d.first) && duel_among(
                            l.to_set(),
                            ents,
                            w,
                            c,
                            d.first,
                            d.second,
                        ),
                ));
            }
        }
        assert(l.take(i as int) =~= l);
    }
}



/// Removing the dead from an exact presence map and from the store keeps the map exact.
pub proof fn lemma_presence_purge(
    p: Presence,
    entities: Map<EntityId, Snake>,
    width: u32,
    dead: Set<EntityId>,
)
    requires
        consistent(p, entities, width),
    ensures
        consistent(purged(p, entities, width, dead), entities.remove_keys(dead), width),
{
    let kept = purged(p, entities, width, dead);
    let survivors = entities.remove_keys(dead);
    assert forall|c: ChunkId, x: EntityId| #![trigger kept[c].contains(x)] kept.contains_key(c) implies (
    kept[c].contains(x) <==> survivors.contains_key(x) && covers(width, survivors[x].body@, c)) by {
        assert(p[c].contains(x) <==> entities.contains_key(x) && covers(
            width,
            entities[x].body@,
            c,
        ));
    }
}

/// Two entities whose heads meet, that no other rule kills and that meet no one else head to
/// head, lose exactly one of the two, whatever the coin shows.
pub proof fn lemma_head_to_head_one_dies(
    p: Presence,
    entities: Map<EntityId, Snake>,
    width: u32,
    pick: spec_fn(EntityId, EntityId) -> bool,
    a: EntityId,
    b: EntityId,
)
    requires
        duel(p, entities, width, a, b),
        !doomed(p, entities, a),
        !doomed(p, entities, b),
        forall|x: EntityId, y: EntityId| #[trigger]
            duel(p, entities, width, x, y) && (x == a || x == b || y == a || y == b) ==> x == a
                && y == b,
    ensures
        deaths(p, entities, width, pick).contains(a) != deaths(p, entities, width, pick).contains(b),
{
    let d = deaths(p, entities, width, pick);
    if pick(a, b) {
        assert(d.contains(a));
        if d.contains(b) {
            let (x, y) = choose|x: EntityId, y: EntityId| #[trigger]
                duel(p, entities, width, x, y) && b == (if pick(x, y) {
                    x
                } else {
                    y
                });
        }
    } else {
        assert(d.contains(b));
        if d.contains(a) {
            let (x, y) = choose|x: EntityId, y: EntityId| #[trigger]
                duel(p, entities, width, x, y) && a == (if pick(x, y) {
                    x
                } else {
                    y
                });
        }
    }
}

impl PhysicsSystem {
    /// Settles the head-to-head collisions: adds to `dead` the loser of each duel, the first
    /// entity of duel `k` when `coins[k]` is true and the second otherwise.
    pub fn settle(dead: &mut Vec<EntityId>, duels: &Vec<Duel>, coins: &Vec<bool>)
        requires
            old(dead)@.no_duplicates(),
            coins@.len() == duels@.len(),
        ensures
            final(dead)@.no_duplicates(),
            final(dead)@.to_set() == old(dead)@.to_set() + losers(duels@, coins@),
    {
        let ghost dead0 = dead@.to_set();
        let mut k: usize = 0;
        while k < duels.len()
            invariant
                k <= duels@.len(),
                coins@.len() == duels@.len(),
                dead@.no_duplicates(),
                dead@.to_set() == dead0 + losers(duels@.take(k as int), coins@.take(k as int)),
            decreases duels@.len() - k,
        {
            let d = duels[k];
            let loser = if coins[k] {
                d.first
            } else {
                d.second
            };
            add_once(dead, loser);
            proof {
                let ds = duels@.take(k + 1);
                let cs = coins@.take(k + 1);
                let pd = duels@.take(k as int);
                let pc = coins@.take(k as int);
                assert forall|x: EntityId| #[trigger] losers(ds, cs).contains(x) == (losers(
                    pd,
                    pc,
                ).contains(x) || x == loser) by {
                    if losers(ds, cs).contains(x) {
                        let q = choose|q: int|
                            #![trigger ds[q]]
                            0 <= q < ds.len() && x == (if cs[q] {
                                ds[q].first
                            } else {
                                ds[q].second
                            });
                        if q < k {
                            assert(pd[q] == ds[q]);
                        }
                    }
                    if losers(pd, pc).contains(x) {
                        let q = choose|q: int|
                            #![trigger pd[q]]
                            0 <= q < pd.len() && x == (if pc[q] {
                                pd[q].first
                            } else {
                                pd[q].second
                            });
                        assert(ds[q] == pd[q]);
                    }
                    if x == loser {
                        assert(ds[k as int] == d);
                    }
                }
                assert(losers(ds, cs) =~= losers(pd, pc).insert(loser));
            }
            k = k + 1;
            assert(dead@.to_set() =~= dead0 + losers(duels@.take(k as int), coins@.take(k as int)));
        }
        assert(duels@.take(k as int) =~= duels@);
        assert(coins@.take(k as int) =~= coins@);
    }

    /// Finds this tick's collisions among the entities that share a chunk, appends one
    /// `EntityDied` event per dead entity to `events_bus`, and takes the dead out of the
    /// presence map. An entity dies when its head lies on another of its own segments, or on a
    /// non-head segment of an entity listed in a chunk with it; of two entities whose heads
    /// meet (checked in the chunk of that cell), one chosen at random dies.
    pub fn tick(
        presence_system: &mut PresenceSystem,
        entities: &EntityManager,
        world: &World,
        events_bus: &mut Vec<PhysicsEvent>,
    )
        requires
            old(presence_system).wf(),
        ensures
            final(presence_system).wf(),
            final(events_bus)@.take(old(events_bus)@.len() as int) == old(events_bus)@,
            final(events_bus)@.len() >= old(events_bus)@.len(),
            ({
                let fresh = final(events_bus)@.skip(old(events_bus)@.len() as int);
                &&& forall|i: int, j: int|
                    0 <= i < j < fresh.len() ==> fresh[i].id() != fresh[j].id()
                &&& exists|pick: spec_fn(EntityId, EntityId) -> bool|
                    died(fresh) == deaths(
                        old(presence_system)@,
                        entities.entities@,
                        world.width,
                        pick,
                    )
                &&& final(presence_system)@ == purged(
                    old(presence_system)@,
                    entities.entities@,
                    world.width,
                    died(fresh),
                )
            }),
    {
        let ghost p = presence_system@;
        let ghost ents = entities.entities@;
        let ghost w = world.width;
        let ghost bus0 = events_bus@;
        let chunk_ids = presence_system.chunk_ids();
        let mut dead: Vec<EntityId> = Vec::new();
        let mut duels: Vec<Duel> = Vec::new();
        let mut k: usize = 0;
        while k < chunk_ids.len()
            invariant
                k <= chunk_ids@.len(),
                chunk_ids@.to_set() == p.dom(),
                p == presence_system@,
                ents == entities.entities@,
                w == world.width,
                dead@.no_duplicates(),
                duels@.no_duplicates(),
                dead@.to_set() == Set::new(
                    |a: EntityId|
                        exists|q: int|
                            #![trigger chunk_ids@[q]]
                            0 <= q < k && member(p, chunk_ids@[q], a) && fatal_among(
                                p[chunk_ids@[q]],
                                ents,
                                a,
                            ),
                ),
                duels@.to_set() == Set::new(
                    |d: Duel|
                        exists|q: int|
                            #![trigger chunk_ids@[q]]
                            0 <= q < k && p.contains_key(chunk_ids@[q]) && duel_among(
                                p[chunk_ids@[q]],
                                ents,
                                w,
                                chunk_ids@[q],
                                d.first,
                                d.second,
                            ),
                ),
            decreases chunk_ids@.len() - k,
        {
            let c = chunk_ids[k];
            let ghost dead_k = dead@.to_set();
            let ghost duels_k = duels@.to_set();
            assert(p.contains_key(c)) by {
                assert(chunk_ids@.contains(c));
            }
            match presence_system.presence_map.get(&c) {
                Some(list) => {
                    assert(list@.to_set() == p[c]);
                    Self::scan_chunk(c, list, entities, world, &mut dead, &mut duels);
                },
                None => {},
            }
            k = k + 1;
            proof {
                assert forall|a: EntityId| #[trigger] dead@.to_set().contains(a) == (exists|q: int|
                    #![trigger chunk_ids@[q]]
                    0 <= q < k && member(p, chunk_ids@[q], a) && fatal_among(
                        p[chunk_ids@[q]],
                        ents,
                        a,
                    )) by {
                    if member(p, c, a) && fatal_among(p[c], ents, a) {
                        assert(chunk_ids@[k - 1] == c);
                    }
                }
                assert(dead@.to_set() =~= Set::new(
                    |a: EntityId|
                        exists|q: int|
                            #![trigger chunk_ids@[q]]
                            0 <= q < k && member(p, chunk_ids@[q], a) && fatal_among(
                                p[chunk_ids@[q]],
                                ents,
                                a,
                            ),
                ));
                assert forall|d: Duel| #[trigger] duels@.to_set().contains(d) == (exists|q: int|
                    #![trigger chunk_ids@[q]]
                    0 <= q < k && p.contains_key(chunk_ids@[q]) && duel_among(
                        p[chunk_ids@[q]],
                        ents,
                        w,
                        chunk_ids@[q],
                        d.first,
                        d.second,
                    )) by {
                    if duel_among(p[c], ents, w, c, d.first, d.second) {
                        assert(chunk_ids@[k - 1] == c);
                    }
                }
                assert(duels@.to_set() =~= Set::new(
                    |d: Duel|
                        exists|q: int|
                            #![trigger chunk_ids@[q]]
                            0 <= q < k && p.contains_key(chunk_ids@[q]) && duel_among(
                                p[chunk_ids@[q]],
                                ents,
                                w,
                                chunk_ids@[q],
                                d.first,
                                d.second,
                            ),
                ));
            }
        }
        proof {
            assert forall|a: EntityId| #[trigger] dead@.to_set().contains(a) == doomed(p, ents, a) by {
                if doomed(p, ents, a) {
                    let c = choose|c: ChunkId| #[trigger] member(p, c, a) && fatal_among(p[c], ents, a);
                    assert(chunk_ids@.to_set().contains(c));
                    let q = choose|q: int| 0 <= q < chunk_ids@.len() && chunk_ids@[q] == c;
                    assert(member(p, chunk_ids@[q], a));
                }
            }
            assert forall|d: Duel| #[trigger] duels@.to_set().contains(d) == duel(p, ents, w, d.first, d.second) by {
                if duel(p, ents, w, d.first, d.second) {
                    let c = chunk_index(w, head_of(ents, d.first));
                    assert(chunk_ids@.to_set().contains(c));
                    let q = choose|q: int| 0 <= q < chunk_ids@.len() && chunk_ids@[q] == c;
                    assert(p.contains_key(chunk_ids@[q]));
                }
            }
        }
        let ghost doomed_set = dead@.to_set();
        let mut coins: Vec<bool> = Vec::new();
        let mut n: usize = 0;
        while n < duels.len()
            invariant
                n <= duels@.len(),
                coins@.len() == n,
            decreases duels@.len() - n,
        {
            coins.push(coin_toss());
            n = n + 1;
        }
        Self::settle(&mut dead, &duels, &coins);
        let ghost pick = |a: EntityId, b: EntityId|
            exists|q: int|
                #![trigger duels@[q]]
                0 <= q < duels@.len() && duels@[q] == (Duel { first: a, second: b }) && coins@[q];
        proof {
            let target = deaths(p, ents, w, pick);
            assert forall|x: EntityId| #[trigger] dead@.to_set().contains(x) == target.contains(x) by {
                if losers(duels@, coins@).contains(x) {
                    let q = choose|q: int|
                        #![trigger duels@[q]]
                        0 <= q < duels@.len() && x == (if coins@[q] {
                            duels@[q].first
                        } else {
                            duels@[q].second
                        });
                    let d = duels@[q];
                    assert(duels@.to_set().contains(d));
                    assert(duel(p, ents, w, d.first, d.second));
                    if !coins@[q] {
                        if pick(d.first, d.second) {
                            let r = choose|r: int|
                                #![trigger duels@[r]]
                                0 <= r < duels@.len() && duels@[r] == (Duel {
                                    first: d.first,
                                    second: d.second,
                                }) && coins@[r];
                            assert(duels@[r] == duels@[q]);
                        }
                    }
                }
                if target.contains(x) && !doomed(p, ents, x) {
                    let (a, b) = choose|a: EntityId, b: EntityId| #[trigger]
                        duel(p, ents, w, a, b) && x == (if pick(a, b) {
                            a
                        } else {
                            b
                        });
                    let d = Duel { first: a, second: b };
                    assert(duels@.to_set().contains(d));
                    let q = choose|q: int| 0 <= q < duels@.len() && duels@[q] == d;
                    if pick(a, b) {
                        let r = choose|r: int|
                            #![trigger duels@[r]]
                            0 <= r < duels@.len() && duels@[r] == d && coins@[r];
                        assert(losers(duels@, coins@).contains(x));
                    } else {
                        assert(!coins@[q]);
                        assert(losers(duels@, coins@).contains(x));
                    }
                }
            }
            assert(dead@.to_set() =~= target);
        }
        let mut i: usize = 0;
        proof {
            let target = purged(p, ents, w, dead@.take(0).to_set());
            assert forall|c: ChunkId| #[trigger] target.contains_key(c) implies p[c] == target[c] by {
                assert(p[c] =~= target[c]);
            }
            assert(target.dom() =~= p.dom());
            assert(p =~= target);
        }
        while i < dead.len()
            invariant
                i <= dead@.len(),
                dead@.no_duplicates(),
                ents == entities.entities@,
                w == world.width,
                presence_system.wf(),
                events_bus@.len() == bus0.len() + i,
                events_bus@.take(bus0.len() as int) == bus0,
                forall|j: int|
                    0 <= j < i ==> #[trigger] events_bus@[bus0.len() + j] == PhysicsEvent::EntityDied(
                        dead@[j],
                    ),
                presence_system@ == purged(p, ents, w, dead@.take(i as int).to_set()),
            decreases dead@.len() - i,
        {
            let x = dead[i];
            events_bus.push(PhysicsEvent::EntityDied(x));
            let ghost before = presence_system@;
            match entities.get(&x) {
                Some(snake) => {
                    presence_system.handle_entity_death(x, snake, world);
                },
                None => {},
            }
            i = i + 1;
            proof {
                let prev = dead@.take(i - 1).to_set();
                let next = dead@.take(i as int).to_set();
                assert forall|y: EntityId| #[trigger] next.contains(y) == (prev.contains(y) || y == x) by {
                    let pv = dead@.take(i - 1);
                    let nx = dead@.take(i as int);
                    if nx.contains(y) {
                        let j = choose|j: int| 0 <= j < nx.len() && nx[j] == y;
                        if j < i - 1 {
                            assert(pv[j] == y);
                        }
                    }
                    if pv.contains(y) {
                        let j = choose|j: int| 0 <= j < pv.len() && pv[j] == y;
                        assert(nx[j] == y);
                    }
                    assert(nx[i - 1] == x);
                }
                let target = purged(p, ents, w, next);
                assert forall|c: ChunkId| #[trigger] presence_system@.contains_key(c) == target.contains_key(c) by {
                    assert(before.contains_key(c) == p.contains_key(c));
                }
                assert forall|c: ChunkId| #[trigger] target.contains_key(c) implies presence_system@[c]
                    == target[c] by {
                    assert(presence_system@[c] =~= target[c]);
                }
                assert(presence_system@ =~= target);
                assert(events_bus@.take(bus0.len() as int) =~= bus0);
            }
        }
        proof {
            let fresh = events_bus@.skip(bus0.len() as int);
            assert(dead@.take(i as int) =~= dead@);
            assert forall|j: int| 0 <= j < fresh.len() implies fresh[j] == PhysicsEvent::EntityDied(
                dead@[j],
            ) by {
                assert(events_bus@[bus0.len() + j] == PhysicsEvent::EntityDied(dead@[j]));
            }
            assert forall|y: EntityId| #[trigger] died(fresh).contains(y) == dead@.to_set().contains(y) by {
                if dead@.contains(y) {
                    let j = choose|j: int| 0 <= j < dead@.len() && dead@[j] == y;
                    assert(fresh[j].id() == y);
                }
                if died(fresh).contains(y) {
                    let j = choose|j: int| 0 <= j < fresh.len() && #[trigger] fresh[j].id() == y;
                    assert(dead@[j] == y);
                }
            }
            assert(died(fresh) =~= dead@.to_set());
            assert forall|a: int, b: int| 0 <= a < b < fresh.len() implies fresh[a].id() != fresh[b].id() by {
                assert(fresh[a].id() == dead@[a]);
                assert(fresh[b].id() == dead@[b]);
            }
        }
    }
}

} // verus!
