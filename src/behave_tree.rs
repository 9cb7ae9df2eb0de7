//! The per-agent decision loop: foraging with reservations, idling, and
//! weighted-random exploration.

use vstd::prelude::*;
use crate::hex::{CubeVec, HexMapPosition, direction, distance, hex_distance, is_neighbour_at};
use crate::partition::{Entity, EntityType, EntityWithCoord, SpatialPartition};
use crate::pathing::shortest_path;
use crate::rng::{random_inclusive, random_ratio};

verus! {

/// Satiety at or below which an agent starts foraging (hundredths of a unit).
pub const HUNGRY_SATIETY: i32 = 5000;

/// Satiety at or above which a foraging agent stops (hundredths of a unit).
pub const FULL_SATIETY: i32 = 8000;

/// Satiety gained by eating one food entity (hundredths of a unit).
pub const FOOD_SATIETY: i32 = 5000;

/// A food entity's reservation record.
#[derive(Clone, Copy, Debug, PartialEq, Eq, Structural)]
pub struct EdibleEntity {
    pub entity: Entity,
    /// The agent that has committed to eating it, if any.
    pub reserved_by: Option<Entity>,
}

/// Behaviour state of an agent.
#[derive(Clone, Copy, Debug, PartialEq, Eq, Structural)]
pub enum ActorState {
    Idle,
    RandomMove,
    Foraging,
    Flee,
}

/// A repeating per-move cooldown, counted in milliseconds.
#[derive(Clone, Copy, Debug, PartialEq, Eq, Structural)]
pub struct MoveCooldown {
    pub duration_ms: u64,
    pub elapsed_ms: u64,
}

impl MoveCooldown {
    /// A cooldown of `duration_ms` with `elapsed_ms` already run.
    pub fn new(duration_ms: u64, elapsed_ms: u64) -> (r: MoveCooldown)
        ensures
            r.duration_ms == duration_ms,
            r.elapsed_ms == elapsed_ms,
    {
        MoveCooldown { duration_ms, elapsed_ms }
    }

    /// Whether the cooldown runs out after `delta_ms` more; it is not advanced.
    pub fn would_finish(&self, delta_ms: u64) -> (r: bool)
        ensures
            r == (self.elapsed_ms + delta_ms >= self.duration_ms),
    {
        self.elapsed_ms.saturating_add(delta_ms) >= self.duration_ms
    }

    /// Advances the cooldown by `delta_ms`. When it has run its duration it
    /// restarts from zero and `true` is returned: the agent may act.
    pub fn tick(&mut self, delta_ms: u64) -> (ready: bool)
        ensures
            ready == (old(self).elapsed_ms + delta_ms >= old(self).duration_ms),
            final(self).duration_ms == old(self).duration_ms,
            final(self).elapsed_ms == if ready {
                0
            } else {
                old(self).elapsed_ms + delta_ms
            },
    {
        let total = self.elapsed_ms.saturating_add(delta_ms);
        if total >= self.duration_ms {
            self.elapsed_ms = 0;
            true
        } else {
            self.elapsed_ms = total;
            false
        }
    }
}

/// The record of one simulated animal.
#[derive(Debug)]
pub struct AnimalActorBoard {
    /// Current cell.
    pub current_pos: HexMapPosition,
    /// The food entity the agent is heading for.
    pub forage_target: Option<Entity>,
    /// The cell of `forage_target`.
    pub move_target: Option<HexMapPosition>,
    /// Cells of the last path computed toward the target.
    pub path_buffer: Vec<HexMapPosition>,
    pub state: ActorState,
    /// Consecutive idle ticks.
    pub idle_counter: u32,
    pub move_cd_timer: MoveCooldown,
    /// Satiety in hundredths of a unit.
    pub satiety: i32,
    /// Satiety lost per second, in hundredths of a unit.
    pub decay_faction: u32,
    pub entity_type: EntityType,
}

/// Satiety of a newly spawned animal (hundredths of a unit).
pub const SPAWN_SATIETY: i32 = 5500;

/// Satiety a newly spawned animal loses per second (hundredths of a unit).
pub const SPAWN_DECAY: u32 = 110;

/// Length of the move cooldown, in milliseconds.
pub const MOVE_COOLDOWN_MS: u64 = 1000;

impl AnimalActorBoard {
    /// A newly spawned animal of type `entity_type` on `pos`: idle, with no
    /// target, spawn satiety and decay, and a one-second move cooldown that has
    /// already run half a second.
    pub fn new(pos: HexMapPosition, entity_type: EntityType) -> (r: AnimalActorBoard)
        ensures
            r.current_pos == pos,
            r.forage_target == None::<Entity>,
            r.move_target == None::<HexMapPosition>,
            r.path_buffer@.len() == 0,
            r.state == ActorState::Idle,
            r.idle_counter == 0,
            r.move_cd_timer == (MoveCooldown { duration_ms: MOVE_COOLDOWN_MS, elapsed_ms: 500 }),
            r.satiety == SPAWN_SATIETY,
            r.decay_faction == SPAWN_DECAY,
            r.entity_type == entity_type,
    {
        AnimalActorBoard {
            current_pos: pos,
            forage_target: None,
            move_target: None,
            path_buffer: Vec::new(),
            state: ActorState::Idle,
            idle_counter: 0,
            move_cd_timer: MoveCooldown::new(MOVE_COOLDOWN_MS, 500),
            satiety: SPAWN_SATIETY,
            decay_faction: SPAWN_DECAY,
            entity_type,
        }
    }
}

/// Whether the entity ids of `s` are pairwise distinct.
pub open spec fn edibles_wf(s: Seq<EdibleEntity>) -> bool {
    forall|a: int, b: int|
        0 <= a < s.len() && 0 <= b < s.len() && #[trigger] s[a].entity == #[trigger] s[b].entity
            ==> a == b
}

/// Whether `s` has a record for `e`.
pub open spec fn has_edible(s: Seq<EdibleEntity>, e: Entity) -> bool {
    exists|k: int| 0 <= k < s.len() && #[trigger] s[k].entity == e
}

/// The reservation of `e` in `s`: `None` when `s` has no record for `e`.
pub open spec fn reservation_of(s: Seq<EdibleEntity>, e: Entity) -> Option<Option<Entity>> {
    if has_edible(s, e) {
        let k = choose|k: int| 0 <= k < s.len() && #[trigger] s[k].entity == e;
        Some(s[k].reserved_by)
    } else {
        None
    }
}

/// One step of agent `me` changed reservations only by reserving a free
/// record for itself or by clearing its own; records were only removed.
pub open spec fn reservation_step(before: Seq<EdibleEntity>, after: Seq<EdibleEntity>, me: Entity) -> bool {
    forall|e: Entity| #[trigger] reservation_of(after, e) != None::<Option<Entity>> ==> {
        let b = reservation_of(before, e);
        let a = reservation_of(after, e);
        &&& b != None::<Option<Entity>>
        &&& a == b || (b == Some(None::<Entity>) && a == Some(Some(me))) || (b == Some(Some(me))
            && a == Some(None::<Entity>))
    }
}

/// With distinct ids, the reservation of a record's entity is that record's.
pub proof fn lemma_reservation_at(s: Seq<EdibleEntity>, k: int)
    requires
        edibles_wf(s),
        0 <= k < s.len(),
    ensures
        has_edible(s, s[k].entity),
        reservation_of(s, s[k].entity) == Some(s[k].reserved_by),
{
    let e = s[k].entity;
    assert(has_edible(s, e));
    let kk = choose|kk: int| 0 <= kk < s.len() && #[trigger] s[kk].entity == e;
    assert(s[kk].entity == s[k].entity);
    assert(kk == k);
}

/// Position of the record for `e` in `s`, if any.
pub fn find_edible(s: &Vec<EdibleEntity>, e: Entity) -> (r: Option<usize>)
    requires
        edibles_wf(s@),
    ensures
        match r {
            Some(k) => k < s@.len() && s@[k as int].entity == e && reservation_of(s@, e) == Some(
                s@[k as int].reserved_by,
            ),
            None => !has_edible(s@, e) && reservation_of(s@, e) == None::<Option<Entity>>,
        },
{
    let mut k: usize = 0;
    while k < s.len()
        invariant
            k <= s@.len(),
            edibles_wf(s@),
            forall|j: int| 0 <= j < k ==> s@[j].entity != e,
        decreases s@.len() - k,
    {
        if s[k].entity == e {
            proof {
                lemma_reservation_at(s@, k as int);
            }
            return Some(k);
        }
        k = k + 1;
    }
    None
}

/// Whether `board` holds a target whose reservation names `me`.
pub open spec fn holds_target(board: &AnimalActorBoard, me: Entity, edibles: Seq<EdibleEntity>) -> bool {
    match board.forage_target {
        Some(t) => reservation_of(edibles, t) == Some(Some(me)),
        None => false,
    }
}

/// `after` is `before` with the reservation of `e` cleared, if it named `me`.
pub open spec fn released(before: Seq<EdibleEntity>, after: Seq<EdibleEntity>, e: Entity, me: Entity) -> bool {
    &&& after.len() == before.len()
    &&& forall|k: int|
        0 <= k < before.len() ==> #[trigger] after[k] == if before[k].entity == e && before[k].reserved_by
            == Some(me) {
            EdibleEntity { entity: e, reserved_by: None }
        } else {
            before[k]
        }
}

impl AnimalActorBoard {
    /// Everything of the board but its target fields and satiety is the same
    /// in `other`.
    pub open spec fn same_but_target(&self, other: &AnimalActorBoard) -> bool {
        &&& other.current_pos == self.current_pos
        &&& other.path_buffer@ == self.path_buffer@
        &&& other.state == self.state
        &&& other.idle_counter == self.idle_counter
        &&& other.move_cd_timer == self.move_cd_timer
        &&& other.decay_faction == self.decay_faction
        &&& other.entity_type == self.entity_type
    }

    /// Takes `target` as the forage target.
    pub fn set_forage_target(&mut self, target: EntityWithCoord)
        ensures
            final(self).forage_target == Some(target.entity),
            final(self).move_target == Some(target.pos),
            final(self).satiety == old(self).satiety,
            old(self).same_but_target(final(self)),
    {
        self.forage_target = Some(target.entity);
        self.move_target = Some(target.pos);
    }

    /// Drops the forage target.
    pub fn clear_forage_target(&mut self)
        ensures
            final(self).forage_target == None::<Entity>,
            final(self).move_target == None::<HexMapPosition>,
            final(self).satiety == old(self).satiety,
            old(self).same_but_target(final(self)),
    {
        self.forage_target = None;
        self.move_target = None;
    }

    /// Eats the target: satiety rises by the food value, the target is
    /// dropped, and the eaten entity with its cell is returned.
    pub fn do_eat(&mut self) -> (r: EntityWithCoord)
        requires
            old(self).forage_target is Some,
            old(self).move_target is Some,
            old(self).satiety <= i32::MAX - FOOD_SATIETY,
        ensures
            r.entity == old(self).forage_target->0,
            r.pos == old(self).move_target->0,
            final(self).satiety == old(self).satiety + FOOD_SATIETY,
            final(self).forage_target == None::<Entity>,
            final(self).move_target == None::<HexMapPosition>,
            old(self).same_but_target(final(self)),
    {
        let result = EntityWithCoord {
            entity: self.forage_target.unwrap(),
            pos: self.move_target.unwrap(),
        };
        self.satiety = self.satiety + FOOD_SATIETY;
        self.clear_forage_target();
        result
    }
}

/// Clears the reservation of `e` if it names `me`.
fn release_reservation(edibles: &mut Vec<EdibleEntity>, e: Entity, me: Entity)
    requires
        edibles_wf(old(edibles)@),
    ensures
        edibles_wf(final(edibles)@),
        released(old(edibles)@, final(edibles)@, e, me),
        reservation_step(old(edibles)@, final(edibles)@, me),
        reservation_of(final(edibles)@, e) != Some(Some(me)),
{
    let ghost before = edibles@;
    match find_edible(edibles, e) {
        Some(k) => {
            if edibles[k].reserved_by == Some(me) {
                edibles.set(k, EdibleEntity { entity: e, reserved_by: None });
            }
        },
        None => {},
    }
    proof {
        assert forall|a: int, b: int|
            0 <= a < edibles@.len() && 0 <= b < edibles@.len() && #[trigger] edibles@[a].entity
                == #[trigger] edibles@[b].entity implies a == b by {
            assert(edibles@[a].entity == before[a].entity);
            assert(edibles@[b].entity == before[b].entity);
        }
        lemma_released_step(before, edibles@, e, me);
    }
}

proof fn lemma_released_step(before: Seq<EdibleEntity>, after: Seq<EdibleEntity>, e: Entity, me: Entity)
    requires
        edibles_wf(before),
        edibles_wf(after),
        released(before, after, e, me),
    ensures
        reservation_step(before, after, me),
        reservation_of(after, e) != Some(Some(me)),
{
    assert forall|x: Entity| #[trigger] reservation_of(after, x) != None::<Option<Entity>> implies {
        let b = reservation_of(before, x);
        let a = reservation_of(after, x);
        &&& b != None::<Option<Entity>>
        &&& a == b || (b == Some(None::<Entity>) && a == Some(Some(me))) || (b == Some(Some(me))
            && a == Some(None::<Entity>))
    } by {
        let k = choose|k: int| 0 <= k < after.len() && #[trigger] after[k].entity == x;
        assert(after[k].entity == before[k].entity);
        lemma_reservation_at(after, k);
        lemma_reservation_at(before, k);
    }
    if has_edible(after, e) {
        let k = choose|k: int| 0 <= k < after.len() && #[trigger] after[k].entity == e;
        lemma_reservation_at(after, k);
    }
}

/// Drops the agent's target and clears the target's reservation first, if it
/// names the agent.
pub fn release_forage_target(board: &mut AnimalActorBoard, me: Entity, edibles: &mut Vec<EdibleEntity>)
    requires
        edibles_wf(old(edibles)@),
    ensures
        edibles_wf(final(edibles)@),
        final(board).forage_target == None::<Entity>,
        final(board).move_target == None::<HexMapPosition>,
        final(board).satiety == old(board).satiety,
        old(board).same_but_target(final(board)),
        reservation_step(old(edibles)@, final(edibles)@, me),
        match old(board).forage_target {
            Some(t) => released(old(edibles)@, final(edibles)@, t, me),
            None => final(edibles)@ == old(edibles)@,
        },
{
    match board.forage_target {
        Some(t) => release_reservation(edibles, t, me),
        None => {
            proof {
                lemma_step_refl(edibles@, me);
            }
        },
    }
    board.clear_forage_target();
}

/// Leaving reservations untouched is a valid step for anyone.
pub proof fn lemma_step_refl(s: Seq<EdibleEntity>, me: Entity)
    ensures
        reservation_step(s, s, me),
{
}

/// Drops a held target whose record is gone or whose reservation does not
/// name `me`; a valid target is kept.
pub fn drop_stale_target(board: &mut AnimalActorBoard, me: Entity, edibles: &Vec<EdibleEntity>)
    requires
        edibles_wf(edibles@),
    ensures
        final(board).satiety == old(board).satiety,
        old(board).same_but_target(final(board)),
        holds_target(old(board), me, edibles@) ==> final(board).forage_target == old(board).forage_target
            && final(board).move_target == old(board).move_target,
        !holds_target(old(board), me, edibles@) ==> final(board).forage_target == None::<Entity>
            && final(board).move_target == None::<HexMapPosition>,
{
    match board.forage_target {
        Some(t) => {
            let keep = match find_edible(edibles, t) {
                Some(k) => edibles[k].reserved_by == Some(me),
                None => false,
            };
            if !keep {
                board.clear_forage_target();
            }
        },
        None => {
            board.clear_forage_target();
        },
    }
}

/// Whether `c` names a food record that nobody has reserved.
pub open spec fn eligible(edibles: Seq<EdibleEntity>, c: EntityWithCoord) -> bool {
    reservation_of(edibles, c.entity) == Some(None::<Entity>)
}

/// `cands[j]` is the first of the unreserved candidates nearest to `from`.
pub open spec fn first_nearest(
    cands: Seq<EntityWithCoord>,
    edibles: Seq<EdibleEntity>,
    from: HexMapPosition,
    j: int,
) -> bool {
    &&& 0 <= j < cands.len()
    &&& eligible(edibles, cands[j])
    &&& forall|k: int|
        0 <= k < cands.len() && eligible(edibles, #[trigger] cands[k]) ==> distance(cands[j].pos, from)
            <= distance(cands[k].pos, from)
    &&& forall|k: int|
        0 <= k < j && eligible(edibles, #[trigger] cands[k]) ==> distance(cands[j].pos, from) < distance(
            cands[k].pos,
            from,
        )
}

/// `after` is `before` with the record of `e` reserved for `me`.
pub open spec fn reserved(before: Seq<EdibleEntity>, after: Seq<EdibleEntity>, e: Entity, me: Entity) -> bool {
    &&& after.len() == before.len()
    &&& forall|k: int|
        0 <= k < before.len() ==> #[trigger] after[k] == if before[k].entity == e {
            EdibleEntity { entity: e, reserved_by: Some(me) }
        } else {
            before[k]
        }
}

/// Picks, among the food entities of type `food` in the partition, the
/// nearest one that nobody has reserved (the first such in the partition's
/// order on a tie), reserves it for `me` and makes it the agent's target.
/// Returns whether one was found; when none is, nothing changes.
pub fn select_forage_target(
    board: &mut AnimalActorBoard,
    me: Entity,
    food: EntityType,
    edibles: &mut Vec<EdibleEntity>,
    partition: &SpatialPartition,
) -> (found: bool)
    requires
        edibles_wf(old(edibles)@),
        partition.wf(),
        old(board).current_pos.wf(),
    ensures
        edibles_wf(final(edibles)@),
        final(board).satiety == old(board).satiety,
        old(board).same_but_target(final(board)),
        reservation_step(old(edibles)@, final(edibles)@, me),
        found == exists|j: int|
            0 <= j < partition.bucket(food).len() && eligible(old(edibles)@, #[trigger] partition.bucket(
                food,
            )[j]),
        found ==> exists|j: int|
            #![trigger partition.bucket(food)[j]]
            first_nearest(partition.bucket(food), old(edibles)@, old(board).current_pos, j)
                && final(board).forage_target == Some(partition.bucket(food)[j].entity)
                && final(board).move_target == Some(partition.bucket(food)[j].pos) && reserved(
                old(edibles)@,
                final(edibles)@,
                partition.bucket(food)[j].entity,
                me,
            ),
        !found ==> final(edibles)@ == old(edibles)@ && final(board).forage_target
            == old(board).forage_target && final(board).move_target == old(board).move_target,
{
    let cands = partition.entities_by_type(&food);
    let ghost b = partition.bucket(food);
    let ghost from = board.current_pos;
    let mut best: Option<(usize, i32, usize)> = None;
    let mut j: usize = 0;
    while j < cands.len()
        invariant
            j <= cands@.len(),
            cands@ == b,
            partition.wf(),
            from == board.current_pos,
            from.wf(),
            edibles_wf(edibles@),
            b == partition.bucket(food),
            best matches None ==> forall|k: int| 0 <= k < j ==> !eligible(edibles@, #[trigger] b[k]),
            best matches Some(t) ==> {
                let (bj, bd, bk) = t;
                &&& bj < j
                &&& bd == distance(b[bj as int].pos, from)
                &&& bk < edibles@.len()
                &&& edibles@[bk as int].entity == b[bj as int].entity
                &&& edibles@[bk as int].reserved_by == None::<Entity>
                &&& eligible(edibles@, b[bj as int])
                &&& forall|k: int|
                    0 <= k < j && eligible(edibles@, #[trigger] b[k]) ==> bd <= distance(b[k].pos, from)
                &&& forall|k: int|
                    0 <= k < bj && eligible(edibles@, #[trigger] b[k]) ==> bd < distance(b[k].pos, from)
            },
        decreases cands@.len() - j,
    {
        let c = cands[j];
        proof {
            assert(1 <= crate::partition::slot(food) < 4 || crate::partition::slot(food) == 0);
        }
        let d = hex_distance(&c.pos, &board.current_pos);
        match find_edible(edibles, c.entity) {
            Some(k) => {
                if edibles[k].reserved_by.is_none() {
                    let better = match best {
                        None => true,
                        Some(t) => d < t.1,
                    };
                    if better {
                        best = Some((j, d, k));
                    }
                }
            },
            None => {},
        }
        j = j + 1;
    }
    match best {
        None => false,
        Some(t) => {
            let (bj, _, bk) = t;
            let chosen = cands[bj];
            let ghost before = edibles@;
            edibles.set(bk, EdibleEntity { entity: chosen.entity, reserved_by: Some(me) });
            board.set_forage_target(chosen);
            proof {
                assert forall|k: int| 0 <= k < before.len() implies #[trigger] edibles@[k] == if before[k].entity
                    == chosen.entity {
                    EdibleEntity { entity: chosen.entity, reserved_by: Some(me) }
                } else {
                    before[k]
                } by {
                    if k != bk && before[k].entity == chosen.entity {
                        assert(before[k].entity == before[bk as int].entity);
                    }
                }
                assert forall|a: int, c: int|
                    0 <= a < edibles@.len() && 0 <= c < edibles@.len() && #[trigger] edibles@[a].entity
                        == #[trigger] edibles@[c].entity implies a == c by {
                    assert(edibles@[a].entity == before[a].entity);
                    assert(edibles@[c].entity == before[c].entity);
                }
                lemma_reserved_step(before, edibles@, chosen.entity, me);
                assert(first_nearest(b, before, from, bj as int));
                assert(eligible(before, b[bj as int]));
            }
            true
        },
    }
}

proof fn lemma_reserved_step(before: Seq<EdibleEntity>, after: Seq<EdibleEntity>, e: Entity, me: Entity)
    requires
        edibles_wf(before),
        edibles_wf(after),
        reserved(before, after, e, me),
        reservation_of(before, e) == Some(None::<Entity>),
    ensures
        reservation_step(before, after, me),
        reservation_of(after, e) == Some(Some(me)),
{
    assert forall|x: Entity| #[trigger] reservation_of(after, x) != None::<Option<Entity>> implies {
        let b = reservation_of(before, x);
        let a = reservation_of(after, x);
        &&& b != None::<Option<Entity>>
        &&& a == b || (b == Some(None::<Entity>) && a == Some(Some(me))) || (b == Some(Some(me))
            && a == Some(None::<Entity>))
    } by {
        let k = choose|k: int| 0 <= k < after.len() && #[trigger] after[k].entity == x;
        assert(after[k].entity == before[k].entity);
        lemma_reservation_at(after, k);
        lemma_reservation_at(before, k);
    }
    let k = choose|k: int| 0 <= k < before.len() && #[trigger] before[k].entity == e;
    lemma_reservation_at(before, k);
    lemma_reservation_at(after, k);
}

/// `after` is `before` without the record of `e`, if there was one.
pub open spec fn despawned(before: Seq<EdibleEntity>, after: Seq<EdibleEntity>, e: Entity) -> bool {
    if has_edible(before, e) {
        exists|k: int| 0 <= k < before.len() && #[trigger] before[k].entity == e && after == before.remove(k)
    } else {
        after == before
    }
}

/// Eats the agent's target: satiety rises by the food value, the target is
/// dropped, and the food entity leaves the partition and the food records.
pub fn do_eat_and_despawn_food_entity(
    board: &mut AnimalActorBoard,
    food_type: EntityType,
    edibles: &mut Vec<EdibleEntity>,
    partition: &mut SpatialPartition,
) -> (eaten: EntityWithCoord)
    requires
        edibles_wf(old(edibles)@),
        old(partition).wf(),
        old(board).forage_target is Some,
        old(board).move_target matches Some(p) && p.wf() && old(partition).valid(p),
        old(board).satiety <= i32::MAX - FOOD_SATIETY,
    ensures
        eaten.entity == old(board).forage_target->0,
        eaten.pos == old(board).move_target->0,
        final(board).satiety == old(board).satiety + FOOD_SATIETY,
        final(board).forage_target == None::<Entity>,
        final(board).move_target == None::<HexMapPosition>,
        old(board).same_but_target(final(board)),
        final(partition).wf(),
        old(partition).removed(*final(partition), eaten.entity, eaten.pos, food_type),
        !final(partition).bucket(food_type).contains(eaten),
        edibles_wf(final(edibles)@),
        despawned(old(edibles)@, final(edibles)@, eaten.entity),
        !has_edible(final(edibles)@, eaten.entity),
        forall|me: Entity| reservation_step(old(edibles)@, final(edibles)@, me),
{
    let food = board.do_eat();
    partition.remove_entity(food.entity, &food.pos, food_type);
    proof {
        if old(partition).bucket(food_type).contains(food) && food_type != EntityType::Cell {
            if partition.bucket(food_type).contains(food) {
                let j = partition.bucket(food_type).index_of(food);
                assert(1 <= crate::partition::slot(food_type) < 4);
                assert(partition.bucket_at(crate::partition::slot(food_type))[j].entity == food.entity);
                assert(partition.tracks(food.entity));
            }
        }
        if food_type == EntityType::Cell {
            assert(partition.bucket(food_type).len() == 0);
        }
    }
    let ghost before = edibles@;
    match find_edible(edibles, food.entity) {
        Some(k) => {
            edibles.remove(k);
            proof {
                assert(before[k as int].entity == food.entity);
                assert forall|a: int, c: int|
                    0 <= a < edibles@.len() && 0 <= c < edibles@.len() && #[trigger] edibles@[a].entity
                        == #[trigger] edibles@[c].entity implies a == c by {
                    let oa = if a < k { a } else { a + 1 };
                    let oc = if c < k { c } else { c + 1 };
                    assert(edibles@[a] == before[oa] && edibles@[c] == before[oc]);
                }
                if has_edible(edibles@, food.entity) {
                    let m = choose|m: int| 0 <= m < edibles@.len() && #[trigger] edibles@[m].entity == food.entity;
                    let om = if m < k { m } else { m + 1 };
                    assert(edibles@[m] == before[om]);
                }
                lemma_removal_step(before, k as int);
            }
        },
        None => {},
    }
    food
}

/// Removing a record is a valid reservation step for anyone.
proof fn lemma_removal_step(before: Seq<EdibleEntity>, k: int)
    requires
        edibles_wf(before),
        edibles_wf(before.remove(k)),
        0 <= k < before.len(),
    ensures
        forall|me: Entity| reservation_step(before, before.remove(k), me),
{
    let after = before.remove(k);
    assert forall|x: Entity| #[trigger] reservation_of(after, x) != None::<Option<Entity>> implies {
        let b = reservation_of(before, x);
        let a = reservation_of(after, x);
        &&& b != None::<Option<Entity>>
        &&& a == b
    } by {
        let m = choose|m: int| 0 <= m < after.len() && #[trigger] after[m].entity == x;
        let om = if m < k { m } else { m + 1 };
        assert(after[m] == before[om]);
        lemma_reservation_at(after, m);
        lemma_reservation_at(before, om);
    }
    assert forall|me: Entity| #[trigger] reservation_step(before, after, me) by {}
}

/// What one foraging tick did.
#[derive(Clone, Copy, Debug, PartialEq, Eq, Structural)]
pub enum ForageOutcome {
    /// The agent is fleeing; foraging is suppressed.
    Fleeing,
    /// The agent is full: it released its target and went idle.
    Satisfied,
    /// The move cooldown has not run out.
    CoolingDown,
    /// No unreserved food of the wanted type exists.
    NoFood,
    /// The agent ate this food entity.
    Ate(EntityWithCoord),
    /// The agent stepped to this cell toward its target.
    Moved(HexMapPosition),
    /// No path leads to the target; the agent stayed.
    NoPath,
}

/// Which kind of food an agent looks for.
#[derive(Clone, Copy, Debug, PartialEq, Eq, Structural)]
pub struct ForageAction {
    pub food_entity_type: EntityType,
}

/// The food an animal of type `entity_type` forages for: rabbits and foxes
/// look for grass; other entities do not forage and only idle.
pub fn get_ai_behave_tree(entity_type: EntityType) -> (r: Option<ForageAction>)
    ensures
        r == match entity_type {
            EntityType::Rabbit | EntityType::Fox => Some(ForageAction { food_entity_type: EntityType::Grass }),
            _ => None::<ForageAction>,
        },
{
    match entity_type {
        EntityType::Rabbit | EntityType::Fox => Some(ForageAction { food_entity_type: EntityType::Grass }),
        _ => None,
    }
}

/// The board's position and target lie on the map.
pub open spec fn board_wf(board: &AnimalActorBoard, partition: &SpatialPartition) -> bool {
    &&& board.current_pos.wf()
    &&& partition.valid(board.current_pos)
    &&& board.forage_target is Some <==> board.move_target is Some
    &&& board.move_target matches Some(p) ==> p.wf() && partition.valid(p)
}

/// Moves the agent to `next`.
pub fn move_actor_to_next_pos(board: &mut AnimalActorBoard, next: &HexMapPosition)
    ensures
        final(board).current_pos == *next,
        final(board).forage_target == old(board).forage_target,
        final(board).move_target == old(board).move_target,
        final(board).satiety == old(board).satiety,
        final(board).path_buffer@ == old(board).path_buffer@,
        final(board).state == old(board).state,
        final(board).idle_counter == old(board).idle_counter,
        final(board).move_cd_timer == old(board).move_cd_timer,
        final(board).decay_faction == old(board).decay_faction,
        final(board).entity_type == old(board).entity_type,
{
    board.current_pos = *next;
}

/// Takes one step along `path`, the path found from the agent's cell to its
/// target's cell, and eats the target when the step reaches it. Without a
/// path of two cells or more the agent stays.
pub fn advance_toward_target(
    board: &mut AnimalActorBoard,
    food_type: EntityType,
    edibles: &mut Vec<EdibleEntity>,
    partition: &mut SpatialPartition,
    path: Option<Vec<HexMapPosition>>,
) -> (r: ForageOutcome)
    requires
        edibles_wf(old(edibles)@),
        old(partition).wf(),
        board_wf(old(board), old(partition)),
        old(board).forage_target is Some,
        old(board).satiety <= i32::MAX - FOOD_SATIETY,
        old(board).current_pos != old(board).move_target->0,
        path matches Some(w) ==> old(partition).is_walk(w@, old(board).current_pos, old(board).move_target->0),
    ensures
        r == ForageOutcome::NoPath ==> path is None,
        final(board).path_buffer@ == old(board).path_buffer@,
        edibles_wf(final(edibles)@),
        final(partition).wf(),
        board_wf(final(board), final(partition)),
        final(partition).config == old(partition).config,
        forall|me: Entity| reservation_step(old(edibles)@, final(edibles)@, me),
        final(board).state == old(board).state,
        final(board).move_cd_timer == old(board).move_cd_timer,
        final(board).idle_counter == old(board).idle_counter,
        final(board).decay_faction == old(board).decay_faction,
        final(board).entity_type == old(board).entity_type,
        r == ForageOutcome::NoPath ==> final(board).current_pos == old(board).current_pos,
        match path {
            Some(w) if w@.len() > 1 => if w@[1] == old(board).move_target->0 {
                &&& r == ForageOutcome::Ate(EntityWithCoord { entity: old(board).forage_target->0, pos: w@[1] })
                &&& final(board).current_pos == w@[1]
            } else {
                &&& r == ForageOutcome::Moved(w@[1])
                &&& final(board).current_pos == w@[1]
            },
            _ => r == ForageOutcome::NoPath,
        },
        r matches ForageOutcome::Ate(e) ==> {
            &&& final(board).satiety == old(board).satiety + FOOD_SATIETY
            &&& final(board).forage_target == None::<Entity>
            &&& old(partition).removed(*final(partition), e.entity, e.pos, food_type)
            &&& !final(partition).bucket(food_type).contains(e)
            &&& despawned(old(edibles)@, final(edibles)@, e.entity)
            &&& !has_edible(final(edibles)@, e.entity)
        },
        !(r is Ate) ==> {
            &&& final(board).satiety == old(board).satiety
            &&& final(board).forage_target == old(board).forage_target
            &&& final(board).move_target == old(board).move_target
            &&& *final(partition) == *old(partition)
            &&& final(edibles)@ == old(edibles)@
        },
{
    let target = board.move_target.unwrap();
    match path {
        Some(w) => {
            if w.len() > 1 {
                let next = w[1];
                proof {
                    assert(partition.valid_neighbours(w@[0]).contains(w@[1]));
                    partition.lemma_valid_neighbours(w@[0], w@[1]);
                }
                move_actor_to_next_pos(board, &next);
                if next == target {
                    let eaten = do_eat_and_despawn_food_entity(board, food_type, edibles, partition);
                    ForageOutcome::Ate(eaten)
                } else {
                    proof {
                        assert forall|me: Entity| #[trigger] reservation_step(edibles@, edibles@, me) by {
                            lemma_step_refl(edibles@, me);
                        }
                    }
                    ForageOutcome::Moved(next)
                }
            } else {
                ForageOutcome::NoPath
            }
        },
        None => ForageOutcome::NoPath,
    }
}

/// Whether the cooldown of `board` runs out after `delta_ms` more.
pub open spec fn cooldown_done(board: &AnimalActorBoard, delta_ms: u64) -> bool {
    board.move_cd_timer.elapsed_ms + delta_ms >= board.move_cd_timer.duration_ms
}

/// The cooldown of `b1` is that of `b0` advanced by `delta_ms`.
pub open spec fn cooldown_ticked(b0: &AnimalActorBoard, b1: &AnimalActorBoard, delta_ms: u64) -> bool {
    &&& b1.move_cd_timer.duration_ms == b0.move_cd_timer.duration_ms
    &&& b1.move_cd_timer.elapsed_ms == if cooldown_done(b0, delta_ms) {
        0
    } else {
        b0.move_cd_timer.elapsed_ms + delta_ms
    }
}

/// `s` with the record of `t` reserved for `me`.
pub open spec fn reserve_in(s: Seq<EdibleEntity>, t: Entity, me: Entity) -> Seq<EdibleEntity> {
    Seq::new(
        s.len(),
        |k: int|
            if s[k].entity == t {
                EdibleEntity { entity: t, reserved_by: Some(me) }
            } else {
                s[k]
            },
    )
}

/// The target fields, position and satiety of `b1` are those of `b0`.
pub open spec fn same_place(b0: &AnimalActorBoard, b1: &AnimalActorBoard) -> bool {
    &&& b1.current_pos == b0.current_pos
    &&& b1.forage_target == b0.forage_target
    &&& b1.move_target == b0.move_target
    &&& b1.satiety == b0.satiety
}

/// What a foraging tick does once the agent pursues food `t` on cell `tp`,
/// with the food records at `em` after any new reservation: it eats `t` when
/// standing on `tp`; otherwise it steps along a shortest walk toward `tp` and
/// eats `t` if the step lands there, or stays when no walk leads there. Only
/// the eaten record leaves the records and the partition.
pub open spec fn pursued(
    b0: &AnimalActorBoard,
    b1: &AnimalActorBoard,
    e0: Seq<EdibleEntity>,
    em: Seq<EdibleEntity>,
    e1: Seq<EdibleEntity>,
    p0: SpatialPartition,
    p1: SpatialPartition,
    food: EntityType,
    t: Entity,
    tp: HexMapPosition,
    r: ForageOutcome,
) -> bool {
    &&& tp == b0.current_pos ==> r == ForageOutcome::Ate(EntityWithCoord { entity: t, pos: tp })
    &&& (r is Ate || r is Moved || r is NoPath)
    &&& r matches ForageOutcome::Ate(e) ==> {
        &&& e == EntityWithCoord { entity: t, pos: tp }
        &&& b1.satiety == b0.satiety + FOOD_SATIETY
        &&& b1.forage_target == None::<Entity>
        &&& b1.move_target == None::<HexMapPosition>
        &&& b1.current_pos == tp
        &&& p0.removed(p1, t, tp, food)
        &&& !p1.bucket(food).contains(e)
        &&& despawned(e0, e1, t)
        &&& !has_edible(e1, t)
    }
    &&& r matches ForageOutcome::Moved(n) ==> {
        &&& b1.current_pos == n
        &&& n != tp
        &&& b1.forage_target == Some(t)
        &&& b1.move_target == Some(tp)
        &&& b1.satiety == b0.satiety
        &&& p1 == p0
        &&& e1 == em
        &&& exists|w: Seq<HexMapPosition>|
            #[trigger] p0.is_shortest_walk(w, b0.current_pos, tp) && w.len() > 1 && w[1] == n
    }
    &&& r == ForageOutcome::NoPath ==> {
        &&& b1.current_pos == b0.current_pos
        &&& b1.forage_target == Some(t)
        &&& b1.move_target == Some(tp)
        &&& b1.satiety == b0.satiety
        &&& p1 == p0
        &&& e1 == em
        &&& forall|w: Seq<HexMapPosition>| !#[trigger] p0.is_walk(w, b0.current_pos, tp)
    }
}

/// Everything one foraging tick of agent `me`, looking for food of type
/// `food`, does: from board `b0`, food records `e0` and partition `p0` to
/// `b1`, `e1` and `p1`, with outcome `r`.
pub open spec fn forage_tick_post(
    b0: &AnimalActorBoard,
    b1: &AnimalActorBoard,
    me: Entity,
    food: EntityType,
    e0: Seq<EdibleEntity>,
    e1: Seq<EdibleEntity>,
    p0: SpatialPartition,
    p1: SpatialPartition,
    delta_ms: u64,
    r: ForageOutcome,
) -> bool {
    let ready = cooldown_done(b0, delta_ms);
    let flee = b0.state == ActorState::Flee;
    let full = b0.satiety >= FULL_SATIETY;
    let held = holds_target(b0, me, e0);
    let cands = p0.bucket(food);
    let any_food = exists|j: int| 0 <= j < cands.len() && eligible(e0, #[trigger] cands[j]);
    &&& cooldown_ticked(b0, b1, delta_ms)
    &&& b1.path_buffer@ == b0.path_buffer@
    &&& b1.idle_counter == b0.idle_counter
    &&& b1.decay_faction == b0.decay_faction
    &&& b1.entity_type == b0.entity_type
    &&& (r == ForageOutcome::CoolingDown) == !ready
    &&& (r == ForageOutcome::Fleeing) == (ready && flee)
    &&& (r == ForageOutcome::Satisfied) == (ready && !flee && full)
    &&& (r == ForageOutcome::NoFood) == (ready && !flee && !full && !held && !any_food)
    &&& (r == ForageOutcome::CoolingDown || r == ForageOutcome::Fleeing) ==> {
        &&& b1.state == b0.state
        &&& same_place(b0, b1)
        &&& e1 == e0
        &&& p1 == p0
    }
    &&& r == ForageOutcome::Satisfied ==> {
        &&& b1.state == ActorState::Idle
        &&& b1.forage_target == None::<Entity>
        &&& b1.move_target == None::<HexMapPosition>
        &&& b1.current_pos == b0.current_pos
        &&& b1.satiety == b0.satiety
        &&& p1 == p0
        &&& match b0.forage_target {
            Some(t) => released(e0, e1, t, me),
            None => e1 == e0,
        }
    }
    &&& (ready && !flee && !full) ==> b1.state == ActorState::Foraging
    &&& r == ForageOutcome::NoFood ==> {
        &&& b1.forage_target == None::<Entity>
        &&& b1.move_target == None::<HexMapPosition>
        &&& b1.current_pos == b0.current_pos
        &&& b1.satiety == b0.satiety
        &&& e1 == e0
        &&& p1 == p0
    }
    &&& (ready && !flee && !full && held) ==> pursued(
        b0,
        b1,
        e0,
        e0,
        e1,
        p0,
        p1,
        food,
        b0.forage_target->0,
        b0.move_target->0,
        r,
    )
    &&& (ready && !flee && !full && !held && any_food) ==> exists|j: int|
        #![trigger cands[j]]
        first_nearest(cands, e0, b0.current_pos, j) && pursued(
            b0,
            b1,
            e0,
            reserve_in(e0, cands[j].entity, me),
            e1,
            p0,
            p1,
            food,
            cands[j].entity,
            cands[j].pos,
            r,
        )
}

/// One foraging tick of agent `me`, which looks for food of the action's
/// type.
///
/// Nothing happens until the cooldown runs out. Then a fleeing agent does
/// nothing, and a full agent releases its target and goes idle. Otherwise the
/// agent forages: it drops a target whose reservation no longer names it,
/// reserves the nearest unreserved food if it holds none, then eats the
/// target if it stands on it, or steps along a shortest path toward it and
/// eats it if the step reaches it.
pub fn forage_action_system(
    board: &mut AnimalActorBoard,
    me: Entity,
    action: &ForageAction,
    edibles: &mut Vec<EdibleEntity>,
    partition: &mut SpatialPartition,
    delta_ms: u64,
) -> (r: ForageOutcome)
    requires
        edibles_wf(old(edibles)@),
        old(partition).wf(),
        board_wf(old(board), old(partition)),
    ensures
        edibles_wf(final(edibles)@),
        final(partition).wf(),
        final(partition).config == old(partition).config,
        board_wf(final(board), final(partition)),
        reservation_step(old(edibles)@, final(edibles)@, me),
        forage_tick_post(
            old(board),
            final(board),
            me,
            action.food_entity_type,
            old(edibles)@,
            final(edibles)@,
            *old(partition),
            *final(partition),
            delta_ms,
            r,
        ),
{
    let food = action.food_entity_type;
    let ready = board.move_cd_timer.tick(delta_ms);
    if !ready {
        proof {
            lemma_step_refl(edibles@, me);
        }
        return ForageOutcome::CoolingDown;
    }
    if board.state == ActorState::Flee {
        proof {
            lemma_step_refl(edibles@, me);
        }
        return ForageOutcome::Fleeing;
    }
    if board.satiety >= FULL_SATIETY {
        board.state = ActorState::Idle;
        release_forage_target(board, me, edibles);
        return ForageOutcome::Satisfied;
    }
    board.state = ActorState::Foraging;
    let ghost start_edibles = edibles@;
    let ghost start_board = *board;
    let ghost held = holds_target(&*board, me, start_edibles);
    drop_stale_target(board, me, edibles);
    let ghost mut chosen: int = 0;
    if board.forage_target.is_none() {
        let found = select_forage_target(board, me, food, edibles, partition);
        if !found {
            return ForageOutcome::NoFood;
        }
        proof {
            let j = choose|j: int|
                #![trigger partition.bucket(food)[j]]
                first_nearest(partition.bucket(food), start_edibles, board.current_pos, j)
                    && board.forage_target == Some(partition.bucket(food)[j].entity)
                    && board.move_target == Some(partition.bucket(food)[j].pos) && reserved(
                    start_edibles,
                    edibles@,
                    partition.bucket(food)[j].entity,
                    me,
                );
            chosen = j;
            assert(1 <= crate::partition::slot(food) < 4);
            assert(partition.bucket_at(crate::partition::slot(food))[j].pos.wf());
            lemma_reserved_step(start_edibles, edibles@, partition.bucket(food)[j].entity, me);
            assert(edibles@ =~= reserve_in(start_edibles, partition.bucket(food)[j].entity, me));
        }
    } else {
        proof {
            lemma_step_refl(edibles@, me);
        }
    }
    let ghost mid_edibles = edibles@;
    let target = board.move_target.unwrap();
    let ghost t = board.forage_target->0;
    if board.current_pos.same_cell(&target) {
        proof {
            lemma_same_cell(board.current_pos, target);
        }
        let eaten = do_eat_and_despawn_food_entity(board, food, edibles, partition);
        proof {
            lemma_step_trans(start_edibles, mid_edibles, edibles@, me);
            lemma_despawn_after_reserve(start_edibles, mid_edibles, edibles@, t, me, held);
        }
        return ForageOutcome::Ate(eaten);
    }
    let path = shortest_path(partition, &board.current_pos, &target);
    let r = advance_toward_target(board, food, edibles, partition, path);
    proof {
        lemma_step_trans(start_edibles, mid_edibles, edibles@, me);
        if r is Ate {
            lemma_despawn_after_reserve(start_edibles, mid_edibles, edibles@, t, me, held);
        }
    }
    r
}

/// Two well-formed cells with the same offset pair are the same cell.
proof fn lemma_same_cell(a: HexMapPosition, b: HexMapPosition)
    requires
        a.wf(),
        b.wf(),
        a.x == b.x && a.y == b.y,
    ensures
        a == b,
{
}

/// Reserving a record and then removing it is the same as removing it.
proof fn lemma_despawn_after_reserve(
    e0: Seq<EdibleEntity>,
    em: Seq<EdibleEntity>,
    e1: Seq<EdibleEntity>,
    t: Entity,
    me: Entity,
    unchanged: bool,
)
    requires
        edibles_wf(e0),
        unchanged ==> em == e0,
        !unchanged ==> em == reserve_in(e0, t, me),
        despawned(em, e1, t),
    ensures
        despawned(e0, e1, t),
{
    if !unchanged {
        assert(em.len() == e0.len());
        assert forall|k: int| 0 <= k < e0.len() implies #[trigger] em[k].entity == e0[k].entity by {}
        if has_edible(em, t) {
            let k = choose|k: int| 0 <= k < em.len() && #[trigger] em[k].entity == t && e1 == em.remove(k);
            assert(e0[k].entity == t);
            assert(has_edible(e0, t));
            assert forall|a: int| 0 <= a < e0.len() - 1 implies #[trigger] e0.remove(k)[a] == em.remove(k)[a] by {
                let o = if a < k { a } else { a + 1 };
                if e0[o].entity == t {
                    assert(e0[o].entity == e0[k].entity);
                }
            }
            assert(e0.remove(k) =~= em.remove(k));
        } else {
            if has_edible(e0, t) {
                let k = choose|k: int| 0 <= k < e0.len() && #[trigger] e0[k].entity == t;
                assert(em[k].entity == t);
            }
            assert(e1 == em);
            assert(em =~= e0);
        }
    }
}

/// Two steps of the same agent compose into one.
pub proof fn lemma_step_trans(s0: Seq<EdibleEntity>, s1: Seq<EdibleEntity>, s2: Seq<EdibleEntity>, me: Entity)
    requires
        reservation_step(s0, s1, me),
        reservation_step(s1, s2, me),
    ensures
        reservation_step(s0, s2, me),
{
    assert forall|e: Entity| #[trigger] reservation_of(s2, e) != None::<Option<Entity>> implies {
        let b = reservation_of(s0, e);
        let a = reservation_of(s2, e);
        &&& b != None::<Option<Entity>>
        &&& a == b || (b == Some(None::<Entity>) && a == Some(Some(me))) || (b == Some(Some(me))
            && a == Some(None::<Entity>))
    } by {
        assert(reservation_of(s1, e) != None::<Option<Entity>>);
    }
}

/// Chance, in percent, that an idle agent starts exploring after `streak`
/// idle ticks: ten points more per tick from fifty, capped at ninety-nine.
pub open spec fn move_chance(streak: int) -> int {
    if 50 + 10 * streak < 99 {
        50 + 10 * streak
    } else {
        99
    }
}

/// The chance of starting to explore never falls as the idle streak grows,
/// and never exceeds ninety-nine percent.
pub proof fn lemma_move_chance_monotone(a: int, b: int)
    requires
        0 <= a <= b,
    ensures
        move_chance(a) <= move_chance(b),
        50 <= move_chance(a) <= 99,
        b >= 5 ==> move_chance(b) == 99,
{
}

/// Chance, in percent, that an idle agent starts exploring after `streak`
/// idle ticks.
pub fn move_chance_percent(streak: u32) -> (r: u32)
    ensures
        r as int == move_chance(streak as int),
{
    if streak >= 5 {
        99
    } else {
        50 + 10 * streak
    }
}

/// Number of entries of `s` other than `ex`.
pub open spec fn count_others(s: Seq<Entity>, ex: Entity) -> nat
    decreases s.len(),
{
    if s.len() == 0 {
        0
    } else {
        count_others(s.drop_last(), ex) + if s.last() != ex {
            1nat
        } else {
            0nat
        }
    }
}

/// The larger of two integers.
pub open spec fn max_int(a: int, b: int) -> int {
    if a < b {
        b
    } else {
        a
    }
}

/// Number of entities other than `ex` standing on the cells `ns`, summed.
pub open spec fn crowd_count(partition: SpatialPartition, ns: Seq<HexMapPosition>, ex: Entity) -> int
    decreases ns.len(),
{
    if ns.len() == 0 {
        0
    } else {
        crowd_count(partition, ns.drop_last(), ex) + count_others(partition.entities_at_view(ns.last()), ex)
    }
}

/// Collision risk of stepping onto `target`, in tenths: ten when an entity
/// other than `ex` stands there, else three per such entity over the valid
/// neighbours of `target`, whichever is larger.
pub open spec fn obstacle_risk(partition: SpatialPartition, target: HexMapPosition, ex: Entity) -> int {
    max_int(
        if count_others(partition.entities_at_view(target), ex) > 0 {
            10
        } else {
            0
        },
        3 * crowd_count(partition, partition.valid_neighbours(target), ex),
    )
}

/// Number of entries of `s` other than `ex`.
fn count_other_entities(s: &Vec<Entity>, ex: Entity) -> (r: u64)
    ensures
        r as int == count_others(s@, ex),
{
    let mut n: u64 = 0;
    let mut k: usize = 0;
    while k < s.len()
        invariant
            k <= s@.len(),
            n as int == count_others(s@.take(k as int), ex),
            n <= k,
        decreases s@.len() - k,
    {
        assert(s@.take(k + 1).drop_last() =~= s@.take(k as int));
        if s[k] != ex {
            n = n + 1;
        }
        k = k + 1;
    }
    assert(s@.take(k as int) =~= s@);
    n
}

/// Collision risk of stepping onto `target`, in tenths (see `obstacle_risk`),
/// capped at the largest `u64`.
pub fn dynamic_obstacle_risk(target: &HexMapPosition, partition: &SpatialPartition, exclude_entity: Entity) -> (r: u64)
    requires
        partition.wf(),
        target.wf(),
        partition.valid(*target),
    ensures
        r as int == min_u64(obstacle_risk(*partition, *target, exclude_entity)),
{
    let here = partition.entities_at(target);
    let occupied: u128 = if count_other_entities(&here, exclude_entity) > 0 {
        10
    } else {
        0
    };
    let ns = partition.get_valid_neighbours(target);
    proof {
        crate::hex::lemma_neighbours_adjacent(*target);
        assert(ns@.len() <= 6) by {
            broadcast use vstd::seq_lib::group_filter_ensures;
        }
    }
    let mut crowd: u128 = 0;
    let mut k: usize = 0;
    while k < ns.len()
        invariant
            k <= ns@.len(),
            ns@.len() <= 6,
            partition.wf(),
            ns@ == partition.valid_neighbours(*target),
            forall|j: int| 0 <= j < ns@.len() ==> (#[trigger] ns@[j]).wf() && partition.valid(ns@[j]),
            crowd as int == crowd_count(*partition, ns@.take(k as int), exclude_entity),
            crowd <= k * 0xFFFF_FFFF_FFFF_FFFFu128,
        decreases ns@.len() - k,
    {
        let n = ns[k];
        let around = partition.entities_at(&n);
        let c = count_other_entities(&around, exclude_entity);
        assert(ns@.take(k + 1).drop_last() =~= ns@.take(k as int));
        assert(ns@.take(k + 1).last() == n);
        crowd = crowd + c as u128;
        k = k + 1;
    }
    assert(ns@.take(k as int) =~= ns@);
    let spread = 3 * crowd;
    let risk = if spread > occupied {
        spread
    } else {
        occupied
    };
    if risk > 0xFFFF_FFFF_FFFF_FFFFu128 {
        0xFFFF_FFFF_FFFF_FFFFu64
    } else {
        risk as u64
    }
}

/// Weight of a move, in two-hundredths: one unit, plus the normalised
/// alignment with the preferred direction (`dir_dot / 2`) times the
/// preference strength (`strength` percent), less ten times the collision
/// risk (`risk` tenths); never below one hundredth of a unit.
pub open spec fn weight_of(dir_dot: int, strength: int, risk: int) -> int {
    max_int(2, 200 + dir_dot * strength - 200 * risk)
}

/// Weight of a move, in two-hundredths (see `weight_of`).
pub fn neighbour_weight(dir_dot: i64, strength: u32, risk: u64) -> (r: u64)
    requires
        -2 <= dir_dot <= 2,
    ensures
        r as int == weight_of(dir_dot as int, strength as int, risk as int),
        2 <= r <= 200 + 2 * strength,
{
    let d = dir_dot as i128;
    let st = strength as i128;
    let rk = risk as i128;
    proof {
        assert(-2 * st <= d * st <= 2 * st) by (nonlinear_arith)
            requires
                -2 <= d <= 2,
                0 <= st,
        ;
    }
    let raw: i128 = 200 + d * st - 200 * rk;
    if raw < 2 {
        2
    } else {
        raw as u64
    }
}

/// Sum of the weights of the first `n` candidates.
pub open spec fn prefix_weight(s: Seq<(HexMapPosition, u64)>, n: int) -> int
    decreases n,
{
    if n <= 0 {
        0
    } else {
        prefix_weight(s, n - 1) + s[n - 1].1
    }
}

/// Index picked by a cumulative-weight draw of `draw`, scanning from `i`:
/// the first candidate whose running total reaches `draw`, else the last one.
pub open spec fn pick_from(s: Seq<(HexMapPosition, u64)>, draw: int, i: int) -> int
    decreases s.len() - i,
{
    if i >= s.len() - 1 {
        s.len() - 1
    } else if prefix_weight(s, i + 1) >= draw {
        i
    } else {
        pick_from(s, draw, i + 1)
    }
}

proof fn lemma_prefix_monotone(s: Seq<(HexMapPosition, u64)>, a: int, b: int)
    requires
        0 <= a <= b <= s.len(),
    ensures
        0 <= prefix_weight(s, a) <= prefix_weight(s, b),
    decreases b,
{
    if a < b {
        lemma_prefix_monotone(s, a, b - 1);
    }
    if b > 0 && a == b {
        lemma_prefix_monotone(s, 0, b - 1);
    }
}

/// Total weight of the candidates.
pub fn total_weight(candidates: &Vec<(HexMapPosition, u64)>) -> (r: u64)
    requires
        prefix_weight(candidates@, candidates@.len() as int) <= u64::MAX,
    ensures
        r as int == prefix_weight(candidates@, candidates@.len() as int),
{
    let mut total: u64 = 0;
    let mut k: usize = 0;
    while k < candidates.len()
        invariant
            k <= candidates@.len(),
            total as int == prefix_weight(candidates@, k as int),
            prefix_weight(candidates@, candidates@.len() as int) <= u64::MAX,
        decreases candidates@.len() - k,
    {
        proof {
            lemma_prefix_monotone(candidates@, k + 1, candidates@.len() as int);
        }
        total = total + candidates[k].1;
        k = k + 1;
    }
    total
}

/// Picks a candidate by a cumulative-weight draw: walking the candidates in
/// order, the first whose running total of weights reaches `draw`; the last
/// one if none does. `None` only when there is no candidate.
pub fn weighted_random_choice(candidates: &Vec<(HexMapPosition, u64)>, draw: u64) -> (r: Option<
    HexMapPosition,
>)
    requires
        prefix_weight(candidates@, candidates@.len() as int) <= u64::MAX,
    ensures
        candidates@.len() == 0 ==> r == None::<HexMapPosition>,
        candidates@.len() > 0 ==> r == Some(candidates@[pick_from(candidates@, draw as int, 0)].0),
{
    if candidates.len() == 0 {
        return None;
    }
    let mut acc: u64 = 0;
    let mut k: usize = 0;
    while k < candidates.len() - 1
        invariant
            k < candidates@.len(),
            acc as int == prefix_weight(candidates@, k as int),
            prefix_weight(candidates@, candidates@.len() as int) <= u64::MAX,
            pick_from(candidates@, draw as int, 0) == pick_from(candidates@, draw as int, k as int),
        decreases candidates@.len() - k,
    {
        proof {
            lemma_prefix_monotone(candidates@, k + 1, candidates@.len() as int);
        }
        acc = acc + candidates[k].1;
        if acc >= draw {
            return Some(candidates[k].0);
        }
        k = k + 1;
    }
    Some(candidates[candidates.len() - 1].0)
}

/// How strongly, and how steadily, an exploring agent keeps its heading.
#[derive(Clone, Copy, Debug, PartialEq, Eq, Structural)]
pub struct MovementPreference {
    /// Preferred heading: a unit cube direction, or zero while unset.
    pub direction: CubeVec,
    /// Weight of the heading, in percent.
    pub strength: u32,
    /// Resistance to changing heading, in percent.
    pub stability: u32,
}

impl Default for MovementPreference {
    fn default() -> (r: MovementPreference)
        ensures
            r.direction == (CubeVec { q: 0, r: 0, s: 0 }),
            r.strength == 70,
            r.stability == 80,
    {
        MovementPreference { direction: CubeVec { q: 0, r: 0, s: 0 }, strength: 70, stability: 80 }
    }
}

/// One exploration run.
#[derive(Clone, Copy, Debug, PartialEq, Eq, Structural)]
pub struct Exploration {
    pub direction: CubeVec,
    pub steps_remaining: i8,
    /// Cell the run started from.
    pub base_position: HexMapPosition,
}

/// State of an agent's idling and exploring.
#[derive(Clone, Copy, Debug, PartialEq, Eq, Structural)]
pub struct IdleAction {
    pub preference: MovementPreference,
    pub exploration: Exploration,
}

impl IdleAction {
    /// No heading yet, default strength and stability, no run under way.
    pub fn new() -> (r: IdleAction)
        ensures
            r.preference.direction == (CubeVec { q: 0, r: 0, s: 0 }),
            r.preference.strength == 70,
            r.preference.stability == 80,
            r.exploration.steps_remaining == 0,
            r == fresh_idle(),
            idle_wf(&r),
    {
        let zero = CubeVec { q: 0, r: 0, s: 0 };
        IdleAction {
            preference: MovementPreference::default(),
            exploration: Exploration {
                direction: zero,
                steps_remaining: 0,
                base_position: HexMapPosition { x: 0, y: 0, q: 0, r: 0, s: 0 },
            },
        }
    }
}

/// The idle state of a newly added agent: no heading, strength 70 and
/// stability 80 percent, no run under way.
pub open spec fn fresh_idle() -> IdleAction {
    IdleAction {
        preference: MovementPreference { direction: CubeVec { q: 0, r: 0, s: 0 }, strength: 70, stability: 80 },
        exploration: Exploration {
            direction: CubeVec { q: 0, r: 0, s: 0 },
            steps_remaining: 0,
            base_position: HexMapPosition { x: 0, y: 0, q: 0, r: 0, s: 0 },
        },
    }
}

/// Whether `c` is one of the six unit cube directions.
pub open spec fn is_direction(c: CubeVec) -> bool {
    exists|i: int| 0 <= i < 6 && c == direction(i)
}

/// Whether `c` is the zero vector.
pub open spec fn is_zero(c: CubeVec) -> bool {
    c.q == 0 && c.r == 0 && c.s == 0
}

/// The preferred heading is unset or a unit direction.
pub open spec fn idle_wf(idle: &IdleAction) -> bool {
    is_zero(idle.preference.direction) || is_direction(idle.preference.direction)
}

/// Dot product of two cube vectors.
pub open spec fn dot(a: CubeVec, b: CubeVec) -> int {
    a.q * b.q + a.r * b.r + a.s * b.s
}

/// The cube step from `from` to `to`.
pub open spec fn step_between(from: HexMapPosition, to: HexMapPosition) -> CubeVec {
    CubeVec { q: (to.q - from.q) as i32, r: (to.r - from.r) as i32, s: (to.s - from.s) as i32 }
}

/// Dot product of two unit cube directions: twice the cosine of their angle.
pub fn direction_dot(a: &CubeVec, b: &CubeVec) -> (r: i64)
    requires
        is_direction(*a),
        is_direction(*b),
    ensures
        r as int == dot(*a, *b),
        -2 <= r <= 2,
{
    proof {
        let i = choose|i: int| 0 <= i < 6 && *a == direction(i);
        let j = choose|j: int| 0 <= j < 6 && *b == direction(j);
        lemma_direction_dot(i, j);
    }
    unit_mul(a.q, b.q) + unit_mul(a.r, b.r) + unit_mul(a.s, b.s)
}

/// What one idle tick did.
#[derive(Clone, Copy, Debug, PartialEq, Eq, Structural)]
pub enum IdleOutcome {
    /// The agent became hungry and switched to foraging.
    Hungry,
    /// The move cooldown has not run out.
    CoolingDown,
    /// The agent is neither idle nor exploring.
    NotIdle,
    /// The agent stayed idle this tick.
    StayedIdle,
    /// No valid neighbour to move to.
    Blocked,
    /// The exploration run ended; the agent is idle again.
    ExplorationDone,
    /// The agent moved to this cell.
    Moved(HexMapPosition),
}

/// Starts an exploration run toward the neighbour `target`: the heading and
/// the run's direction become the step to `target`, the run lasts `steps`
/// more moves from the current cell, and the agent moves to `target`.
pub fn start_exploration(board: &mut AnimalActorBoard, idle: &mut IdleAction, target: &HexMapPosition, steps: i8)
    requires
        is_direction(step_between(old(board).current_pos, *target)),
        old(board).current_pos.wf(),
        target.wf(),
    ensures
        final(idle).preference.direction == step_between(old(board).current_pos, *target),
        final(idle).preference.strength == old(idle).preference.strength,
        final(idle).preference.stability == old(idle).preference.stability,
        final(idle).exploration == (Exploration {
            direction: step_between(old(board).current_pos, *target),
            steps_remaining: steps,
            base_position: old(board).current_pos,
        }),
        final(board).current_pos == *target,
        final(board).forage_target == old(board).forage_target,
        final(board).move_target == old(board).move_target,
        final(board).satiety == old(board).satiety,
        final(board).state == old(board).state,
        final(board).idle_counter == old(board).idle_counter,
        final(board).move_cd_timer == old(board).move_cd_timer,
        final(board).decay_faction == old(board).decay_faction,
        final(board).path_buffer@ == old(board).path_buffer@,
        final(board).entity_type == old(board).entity_type,
        idle_wf(final(idle)),
{
    let from = board.current_pos;
    let step = CubeVec { q: target.q - from.q, r: target.r - from.r, s: target.s - from.s };
    idle.preference.direction = step;
    idle.exploration = Exploration { direction: step, steps_remaining: steps, base_position: from };
    move_actor_to_next_pos(board, target);
}

/// The valid neighbours of `from`, each with its move weight for heading
/// `pref` and agent `me` (see `score_neighbours`).
pub open spec fn scored(
    from: HexMapPosition,
    pref: MovementPreference,
    me: Entity,
    partition: SpatialPartition,
) -> Seq<(HexMapPosition, u64)> {
    let ns = partition.valid_neighbours(from);
    Seq::new(
        ns.len(),
        |k: int|
            (
                ns[k],
                weight_of(
                    dot(step_between(from, ns[k]), pref.direction),
                    pref.strength as int,
                    min_u64(obstacle_risk(partition, ns[k], me)),
                ) as u64,
            ),
    )
}

/// Everything one idle tick of agent `me` does: from board `b0` and idle
/// state `i0` to `b1` and `i1`, with outcome `r`.
pub open spec fn idle_tick_post(
    b0: &AnimalActorBoard,
    b1: &AnimalActorBoard,
    i0: IdleAction,
    i1: IdleAction,
    me: Entity,
    partition: SpatialPartition,
    delta_ms: u64,
    r: IdleOutcome,
) -> bool {
    let ready = cooldown_done(b0, delta_ms);
    let hungry = b0.satiety <= HUNGRY_SATIETY;
    let vn = partition.valid_neighbours(b0.current_pos);
    let idle = b0.state == ActorState::Idle;
    let exploring = b0.state == ActorState::RandomMove;
    let fresh = ready && !hungry && ((idle && r != IdleOutcome::StayedIdle) || (exploring && is_zero(
        i0.preference.direction,
    )));
    let running = ready && !hungry && exploring && !is_zero(i0.preference.direction);
    let steps = i0.exploration.steps_remaining;
    let sc = scored(b0.current_pos, i0.preference, me, partition);
    &&& cooldown_ticked(b0, b1, delta_ms)
    &&& b1.forage_target == b0.forage_target
    &&& b1.move_target == b0.move_target
    &&& b1.satiety == b0.satiety
    &&& b1.path_buffer@ == b0.path_buffer@
    &&& b1.decay_faction == b0.decay_faction
    &&& b1.entity_type == b0.entity_type
    &&& i1.preference.strength == i0.preference.strength
    &&& i1.preference.stability == i0.preference.stability
    &&& (r == IdleOutcome::CoolingDown) == !ready
    &&& (r == IdleOutcome::Hungry) == (ready && hungry)
    &&& (r == IdleOutcome::NotIdle) == (ready && !hungry && !idle && !exploring)
    &&& r matches IdleOutcome::Moved(n) ==> b1.current_pos == n && vn.contains(n)
    &&& !(r is Moved) ==> b1.current_pos == b0.current_pos
    &&& (r == IdleOutcome::CoolingDown || r == IdleOutcome::NotIdle) ==> b1.state == b0.state
        && b1.idle_counter == b0.idle_counter && i1 == i0
    &&& r == IdleOutcome::Hungry ==> b1.state == ActorState::Foraging && b1.idle_counter
        == b0.idle_counter && i1 == i0
    &&& r == IdleOutcome::StayedIdle ==> ready && !hungry && idle && b1.state == ActorState::Idle
        && b1.idle_counter == sat_inc(b0.idle_counter) && i1 == i0
    &&& (fresh || running) ==> ((r == IdleOutcome::Blocked) == (vn.len() == 0))
    &&& r == IdleOutcome::Blocked ==> b1.state == ActorState::RandomMove
    &&& fresh && vn.len() > 0 ==> {
        &&& r is Moved
        &&& b1.state == ActorState::RandomMove
        &&& b1.idle_counter == if idle {
            0
        } else {
            b0.idle_counter
        }
        &&& i1.preference.direction == step_between(b0.current_pos, b1.current_pos)
        &&& i1.exploration.direction == step_between(b0.current_pos, b1.current_pos)
        &&& 3 <= i1.exploration.steps_remaining <= 5
        &&& i1.exploration.base_position == b0.current_pos
    }
    &&& running && vn.len() > 0 ==> ((r == IdleOutcome::ExplorationDone) == (steps <= 0))
    &&& r == IdleOutcome::ExplorationDone ==> {
        &&& running
        &&& b1.state == ActorState::Idle
        &&& b1.idle_counter == 0
        &&& i1.preference == i0.preference
        &&& i1.exploration.steps_remaining == if steps > i8::MIN {
            steps - 1
        } else {
            steps as int
        }
    }
    &&& running && vn.len() > 0 && steps > 0 ==> {
        &&& r is Moved
        &&& b1.state == ActorState::RandomMove
        &&& b1.idle_counter == b0.idle_counter
        &&& i1.preference == i0.preference
        &&& i1.exploration.direction == i0.exploration.direction
        &&& i1.exploration.base_position == i0.exploration.base_position
        &&& i1.exploration.steps_remaining == steps - 1
        &&& exists|draw: int|
            0 <= draw <= prefix_weight(sc, sc.len() as int) && b1.current_pos == (#[trigger] sc[pick_from(
                sc,
                draw,
                0,
            )]).0
    }
}

/// One idle tick of agent `me`.
///
/// Nothing happens until the cooldown runs out. Then a hungry agent switches
/// to foraging; an idle agent extends its idle streak and starts exploring
/// with chance `move_chance` of the new streak, clearing its heading; an
/// exploring agent with no heading picks a random valid neighbour, takes the
/// step to it as heading and starts a run of three to five more moves there;
/// one with a heading ends its run when no moves remain, and otherwise moves
/// to a valid neighbour drawn with the weights of `score_neighbours`.
pub fn idle_action_system(
    board: &mut AnimalActorBoard,
    idle: &mut IdleAction,
    me: Entity,
    partition: &SpatialPartition,
    delta_ms: u64,
) -> (r: IdleOutcome)
    requires
        partition.wf(),
        board_wf(old(board), partition),
        idle_wf(old(idle)),
    ensures
        board_wf(final(board), partition),
        idle_wf(final(idle)),
        idle_tick_post(old(board), final(board), *old(idle), *final(idle), me, *partition, delta_ms, r),
{
    let ready = board.move_cd_timer.tick(delta_ms);
    if !ready {
        return IdleOutcome::CoolingDown;
    }
    if board.satiety <= HUNGRY_SATIETY {
        board.state = ActorState::Foraging;
        return IdleOutcome::Hungry;
    }
    match board.state {
        ActorState::Idle => {
            if board.idle_counter < u32::MAX {
                board.idle_counter = board.idle_counter + 1;
            }
            let chance = move_chance_percent(board.idle_counter);
            let explore = random_ratio(chance, 100);
            settle_idle_roll(board, idle, explore);
            if !explore {
                return IdleOutcome::StayedIdle;
            }
        },
        ActorState::RandomMove => {},
        _ => {
            return IdleOutcome::NotIdle;
        },
    }
    let from = board.current_pos;
    let neighbours = partition.get_valid_neighbours(&from);
    if neighbours.len() == 0 {
        return IdleOutcome::Blocked;
    }
    let pref = idle.preference.direction;
    if pref.q == 0 && pref.r == 0 && pref.s == 0 {
        let pick = random_inclusive(0, (neighbours.len() - 1) as u64) as usize;
        let steps = random_inclusive(3, 5) as i8;
        let target = neighbours[pick];
        proof {
            assert(neighbours@.contains(target));
            lemma_step_is_direction(*partition, from, target);
        }
        start_exploration(board, idle, &target, steps);
        IdleOutcome::Moved(target)
    } else {
        if idle.exploration.steps_remaining <= 0 {
            if idle.exploration.steps_remaining > i8::MIN {
                idle.exploration.steps_remaining = idle.exploration.steps_remaining - 1;
            }
            board.state = ActorState::Idle;
            board.idle_counter = 0;
            return IdleOutcome::ExplorationDone;
        }
        idle.exploration.steps_remaining = idle.exploration.steps_remaining - 1;
        let candidates = score_neighbours(&from, idle, me, partition, &neighbours);
        let total = total_weight(&candidates);
        let draw = random_inclusive(0, total);
        let chosen = weighted_random_choice(&candidates, draw);
        let target = chosen.unwrap();
        proof {
            let k = pick_from(candidates@, draw as int, 0);
            lemma_pick_in_range(candidates@, draw as int, 0);
            assert(candidates@[k].0 == neighbours@[k]);
            assert(neighbours@.contains(target));
            partition.lemma_valid_neighbours(from, target);
            assert(candidates@[pick_from(candidates@, draw as int, 0)].0 == target);
        }
        move_actor_to_next_pos(board, &target);
        IdleOutcome::Moved(target)
    }
}

/// Applies the outcome of an idle agent's roll: on `explore` the agent
/// starts exploring, its idle streak ends and its heading is cleared, so that
/// the run picks a fresh one; otherwise nothing changes.
pub fn settle_idle_roll(board: &mut AnimalActorBoard, idle: &mut IdleAction, explore: bool)
    ensures
        explore ==> final(board).state == ActorState::RandomMove && final(board).idle_counter == 0
            && is_zero(final(idle).preference.direction),
        !explore ==> final(board).state == old(board).state && final(board).idle_counter == old(board).idle_counter && *final(idle) == *old(idle),
        final(idle).preference.stability == old(idle).preference.stability,
        final(idle).preference.strength == old(idle).preference.strength,
        final(idle).exploration == old(idle).exploration,
        final(board).current_pos == old(board).current_pos,
        final(board).forage_target == old(board).forage_target,
        final(board).move_target == old(board).move_target,
        final(board).satiety == old(board).satiety,
        final(board).move_cd_timer == old(board).move_cd_timer,
        final(board).decay_faction == old(board).decay_faction,
        final(board).path_buffer@ == old(board).path_buffer@,
        final(board).entity_type == old(board).entity_type,
        idle_wf(old(idle)) ==> idle_wf(final(idle)),
{
    if explore {
        board.state = ActorState::RandomMove;
        board.idle_counter = 0;
        idle.preference.direction = CubeVec { q: 0, r: 0, s: 0 };
    }
}

/// Increment that stops at the largest `u32`.
pub open spec fn sat_inc(v: u32) -> u32 {
    if v < u32::MAX {
        (v + 1) as u32
    } else {
        v
    }
}

proof fn lemma_pick_in_range(s: Seq<(HexMapPosition, u64)>, draw: int, i: int)
    requires
        0 <= i < s.len(),
    ensures
        i <= pick_from(s, draw, i) < s.len(),
    decreases s.len() - i,
{
    if i < s.len() - 1 && prefix_weight(s, i + 1) < draw {
        lemma_pick_in_range(s, draw, i + 1);
    }
}

/// What one tick of an agent did.
#[derive(Clone, Copy, Debug, PartialEq, Eq, Structural)]
pub enum TickOutcome {
    Forage(ForageOutcome),
    Idle(IdleOutcome),
}

/// `b` switched to foraging.
pub open spec fn switched_board(b: AnimalActorBoard) -> AnimalActorBoard {
    AnimalActorBoard { state: ActorState::Foraging, ..b }
}

/// `i` with its heading cleared.
pub open spec fn cleared_heading(i: IdleAction) -> IdleAction {
    IdleAction {
        preference: MovementPreference { direction: CubeVec { q: 0, r: 0, s: 0 }, ..i.preference },
        ..i
    }
}

/// Whether an agent with board `b` and food plan `forage` takes a foraging
/// tick: it forages and is hungry, foraging or fleeing.
pub open spec fn takes_forage_tick(b: &AnimalActorBoard, forage: Option<ForageAction>) -> bool {
    forage is Some && (b.satiety <= HUNGRY_SATIETY || b.state == ActorState::Foraging || b.state
        == ActorState::Flee)
}

/// Whether a hungry agent switches to foraging before its foraging tick: it
/// is not foraging yet and its cooldown runs out this tick.
pub open spec fn hunger_switch(b: &AnimalActorBoard, forage: Option<ForageAction>, delta_ms: u64) -> bool {
    takes_forage_tick(b, forage) && b.satiety <= HUNGRY_SATIETY && b.state != ActorState::Foraging
        && cooldown_done(b, delta_ms)
}

/// Everything one decision-loop tick of agent `me` (see `actor_tick`) does.
pub open spec fn actor_tick_post(
    b0: &AnimalActorBoard,
    b1: &AnimalActorBoard,
    i0: IdleAction,
    i1: IdleAction,
    me: Entity,
    forage: Option<ForageAction>,
    e0: Seq<EdibleEntity>,
    e1: Seq<EdibleEntity>,
    p0: SpatialPartition,
    p1: SpatialPartition,
    delta_ms: u64,
    r: TickOutcome,
) -> bool {
    let switch = hunger_switch(b0, forage, delta_ms);
    let b_mid = if switch {
        switched_board(*b0)
    } else {
        *b0
    };
    &&& (r is Forage) == takes_forage_tick(b0, forage)
    &&& r matches TickOutcome::Forage(f) ==> {
        &&& forage_tick_post(&b_mid, b1, me, forage->0.food_entity_type, e0, e1, p0, p1, delta_ms, f)
        &&& i1 == if switch {
            cleared_heading(i0)
        } else {
            i0
        }
    }
    &&& r matches TickOutcome::Idle(i) ==> {
        &&& idle_tick_post(b0, b1, i0, i1, me, p0, delta_ms, i)
        &&& e1 == e0
        &&& p1 == p0
    }
}

/// One decision-loop tick of agent `me`; `forage` is the food it looks for,
/// if it forages at all.
///
/// A foraging agent that is hungry, foraging or fleeing takes a foraging
/// tick; when it is hungry and its cooldown runs out, it first switches to
/// foraging from any state and forgets its exploration heading. Any other
/// agent takes an idle tick.
pub fn actor_tick(
    board: &mut AnimalActorBoard,
    idle: &mut IdleAction,
    me: Entity,
    forage: Option<ForageAction>,
    edibles: &mut Vec<EdibleEntity>,
    partition: &mut SpatialPartition,
    delta_ms: u64,
) -> (r: TickOutcome)
    requires
        edibles_wf(old(edibles)@),
        old(partition).wf(),
        board_wf(old(board), old(partition)),
        idle_wf(old(idle)),
    ensures
        edibles_wf(final(edibles)@),
        final(partition).wf(),
        final(partition).config == old(partition).config,
        board_wf(final(board), final(partition)),
        idle_wf(final(idle)),
        reservation_step(old(edibles)@, final(edibles)@, me),
        actor_tick_post(
            old(board),
            final(board),
            *old(idle),
            *final(idle),
            me,
            forage,
            old(edibles)@,
            final(edibles)@,
            *old(partition),
            *final(partition),
            delta_ms,
            r,
        ),
{
    match forage {
        Some(action) => {
            if board.satiety <= HUNGRY_SATIETY || board.state == ActorState::Foraging || board.state
                == ActorState::Flee {
                if board.satiety <= HUNGRY_SATIETY && board.state != ActorState::Foraging
                    && board.move_cd_timer.would_finish(delta_ms) {
                    board.state = ActorState::Foraging;
                    idle.preference.direction = CubeVec { q: 0, r: 0, s: 0 };
                    proof {
                        assert(*board == switched_board(*old(board)));
                        assert(*idle == cleared_heading(*old(idle)));
                    }
                }
                let f = forage_action_system(board, me, &action, edibles, partition, delta_ms);
                return TickOutcome::Forage(f);
            }
        },
        None => {},
    }
    proof {
        lemma_step_refl(edibles@, me);
    }
    TickOutcome::Idle(idle_action_system(board, idle, me, partition, delta_ms))
}

/// `hist` is a run of food-record snapshots in which each snapshot follows
/// the one before by a tick of agent `who[i]`.
pub open spec fn valid_history(hist: Seq<Seq<EdibleEntity>>, who: Seq<Entity>) -> bool {
    &&& hist.len() == who.len() + 1
    &&& forall|i: int| 0 <= i < who.len() ==> reservation_step(#[trigger] hist[i], hist[i + 1], who[i])
}

/// At most one agent holds a reservation at a time: when food `e` is reserved
/// by `a` in one snapshot and by another agent `b` in a later one, some
/// snapshot strictly between shows `e` unreserved, so `a`'s reservation was
/// cleared before `b` took it.
pub proof fn lemma_reservation_exclusive(
    hist: Seq<Seq<EdibleEntity>>,
    who: Seq<Entity>,
    e: Entity,
    a: Entity,
    b: Entity,
    i: int,
    j: int,
)
    requires
        valid_history(hist, who),
        0 <= i < j < hist.len(),
        reservation_of(hist[i], e) == Some(Some(a)),
        reservation_of(hist[j], e) == Some(Some(b)),
        a != b,
    ensures
        exists|k: int| i < k < j && reservation_of(#[trigger] hist[k], e) == Some(None::<Entity>),
    decreases j - i,
{
    let p = j - 1;
    assert(reservation_step(hist[p], hist[p + 1], who[p]));
    assert(hist[p + 1] == hist[j]);
    let before = reservation_of(hist[p], e);
    if before == Some(None::<Entity>) {
        assert(reservation_of(hist[p], e) == Some(None::<Entity>));
    } else {
        assert(before == Some(Some(b)));
        lemma_reservation_exclusive(hist, who, e, a, b, i, p);
    }
}

/// Two unit directions have a dot product between -2 and 2.
proof fn lemma_direction_dot(i: int, j: int)
    requires
        0 <= i < 6,
        0 <= j < 6,
    ensures
        -2 <= dot(direction(i), direction(j)) <= 2,
{
    if i == 0 {
        if j == 0 {
            assert(direction(0) == (CubeVec { q: 1i32, r: -1i32, s: 0i32 }));
            assert(direction(0) == (CubeVec { q: 1i32, r: -1i32, s: 0i32 }));
            assert(dot(direction(0), direction(0)) == 1 * 1 + -1 * -1 + 0 * 0);
        } else if j == 1 {
            assert(direction(0) == (CubeVec { q: 1i32, r: -1i32, s: 0i32 }));
            assert(direction(1) == (CubeVec { q: 1i32, r: 0i32, s: -1i32 }));
            assert(dot(direction(0), direction(1)) == 1 * 1 + -1 * 0 + 0 * -1);
        } else if j == 2 {
            assert(direction(0) == (CubeVec { q: 1i32, r: -1i32, s: 0i32 }));
            assert(direction(2) == (CubeVec { q: 0i32, r: 1i32, s: -1i32 }));
            assert(dot(direction(0), direction(2)) == 1 * 0 + -1 * 1 + 0 * -1);
        } else if j == 3 {
            assert(direction(0) == (CubeVec { q: 1i32, r: -1i32, s: 0i32 }));
            assert(direction(3) == (CubeVec { q: -1i32, r: 1i32, s: 0i32 }));
            assert(dot(direction(0), direction(3)) == 1 * -1 + -1 * 1 + 0 * 0);
        } else if j == 4 {
            assert(direction(0) == (CubeVec { q: 1i32, r: -1i32, s: 0i32 }));
            assert(direction(4) == (CubeVec { q: -1i32, r: 0i32, s: 1i32 }));
            assert(dot(direction(0), direction(4)) == 1 * -1 + -1 * 0 + 0 * 1);
        } else if j == 5 {
            assert(direction(0) == (CubeVec { q: 1i32, r: -1i32, s: 0i32 }));
            assert(direction(5) == (CubeVec { q: 0i32, r: -1i32, s: 1i32 }));
            assert(dot(direction(0), direction(5)) == 1 * 0 + -1 * -1 + 0 * 1);
        }
    } else if i == 1 {
        if j == 0 {
            assert(direction(1) == (CubeVec { q: 1i32, r: 0i32, s: -1i32 }));
            assert(direction(0) == (CubeVec { q: 1i32, r: -1i32, s: 0i32 }));
            assert(dot(direction(1), direction(0)) == 1 * 1 + 0 * -1 + -1 * 0);
        } else if j == 1 {
            assert(direction(1) == (CubeVec { q: 1i32, r: 0i32, s: -1i32 }));
            assert(direction(1) == (CubeVec { q: 1i32, r: 0i32, s: -1i32 }));
            assert(dot(direction(1), direction(1)) == 1 * 1 + 0 * 0 + -1 * -1);
        } else if j == 2 {
            assert(direction(1) == (CubeVec { q: 1i32, r: 0i32, s: -1i32 }));
            assert(direction(2) == (CubeVec { q: 0i32, r: 1i32, s: -1i32 }));
            assert(dot(direction(1), direction(2)) == 1 * 0 + 0 * 1 + -1 * -1);
        } else if j == 3 {
            assert(direction(1) == (CubeVec { q: 1i32, r: 0i32, s: -1i32 }));
            assert(direction(3) == (CubeVec { q: -1i32, r: 1i32, s: 0i32 }));
            assert(dot(direction(1), direction(3)) == 1 * -1 + 0 * 1 + -1 * 0);
        } else if j == 4 {
            assert(direction(1) == (CubeVec { q: 1i32, r: 0i32, s: -1i32 }));
            assert(direction(4) == (CubeVec { q: -1i32, r: 0i32, s: 1i32 }));
            assert(dot(direction(1), direction(4)) == 1 * -1 + 0 * 0 + -1 * 1);
        } else if j == 5 {
            assert(direction(1) == (CubeVec { q: 1i32, r: 0i32, s: -1i32 }));
            assert(direction(5) == (CubeVec { q: 0i32, r: -1i32, s: 1i32 }));
            assert(dot(direction(1), direction(5)) == 1 * 0 + 0 * -1 + -1 * 1);
        }
    } else if i == 2 {
        if j == 0 {
            assert(direction(2) == (CubeVec { q: 0i32, r: 1i32, s: -1i32 }));
            assert(direction(0) == (CubeVec { q: 1i32, r: -1i32, s: 0i32 }));
            assert(dot(direction(2), direction(0)) == 0 * 1 + 1 * -1 + -1 * 0);
        } else if j == 1 {
            assert(direction(2) == (CubeVec { q: 0i32, r: 1i32, s: -1i32 }));
            assert(direction(1) == (CubeVec { q: 1i32, r: 0i32, s: -1i32 }));
            assert(dot(direction(2), direction(1)) == 0 * 1 + 1 * 0 + -1 * -1);
        } else if j == 2 {
            assert(direction(2) == (CubeVec { q: 0i32, r: 1i32, s: -1i32 }));
            assert(direction(2) == (CubeVec { q: 0i32, r: 1i32, s: -1i32 }));
            assert(dot(direction(2), direction(2)) == 0 * 0 + 1 * 1 + -1 * -1);
        } else if j == 3 {
            assert(direction(2) == (CubeVec { q: 0i32, r: 1i32, s: -1i32 }));
            assert(direction(3) == (CubeVec { q: -1i32, r: 1i32, s: 0i32 }));
            assert(dot(direction(2), direction(3)) == 0 * -1 + 1 * 1 + -1 * 0);
        } else if j == 4 {
            assert(direction(2) == (CubeVec { q: 0i32, r: 1i32, s: -1i32 }));
            assert(direction(4) == (CubeVec { q: -1i32, r: 0i32, s: 1i32 }));
            assert(dot(direction(2), direction(4)) == 0 * -1 + 1 * 0 + -1 * 1);
        } else if j == 5 {
            assert(direction(2) == (CubeVec { q: 0i32, r: 1i32, s: -1i32 }));
            assert(direction(5) == (CubeVec { q: 0i32, r: -1i32, s: 1i32 }));
            assert(dot(direction(2), direction(5)) == 0 * 0 + 1 * -1 + -1 * 1);
        }
    } else if i == 3 {
        if j == 0 {
            assert(direction(3) == (CubeVec { q: -1i32, r: 1i32, s: 0i32 }));
            assert(direction(0) == (CubeVec { q: 1i32, r: -1i32, s: 0i32 }));
            assert(dot(direction(3), direction(0)) == -1 * 1 + 1 * -1 + 0 * 0);
        } else if j == 1 {
            assert(direction(3) == (CubeVec { q: -1i32, r: 1i32, s: 0i32 }));
            assert(direction(1) == (CubeVec { q: 1i32, r: 0i32, s: -1i32 }));
            assert(dot(direction(3), direction(1)) == -1 * 1 + 1 * 0 + 0 * -1);
        } else if j == 2 {
            assert(direction(3) == (CubeVec { q: -1i32, r: 1i32, s: 0i32 }));
            assert(direction(2) == (CubeVec { q: 0i32, r: 1i32, s: -1i32 }));
            assert(dot(direction(3), direction(2)) == -1 * 0 + 1 * 1 + 0 * -1);
        } else if j == 3 {
            assert(direction(3) == (CubeVec { q: -1i32, r: 1i32, s: 0i32 }));
            assert(direction(3) == (CubeVec { q: -1i32, r: 1i32, s: 0i32 }));
            assert(dot(direction(3), direction(3)) == -1 * -1 + 1 * 1 + 0 * 0);
        } else if j == 4 {
            assert(direction(3) == (CubeVec { q: -1i32, r: 1i32, s: 0i32 }));
            assert(direction(4) == (CubeVec { q: -1i32, r: 0i32, s: 1i32 }));
            assert(dot(direction(3), direction(4)) == -1 * -1 + 1 * 0 + 0 * 1);
        } else if j == 5 {
            assert(direction(3) == (CubeVec { q: -1i32, r: 1i32, s: 0i32 }));
            assert(direction(5) == (CubeVec { q: 0i32, r: -1i32, s: 1i32 }));
            assert(dot(direction(3), direction(5)) == -1 * 0 + 1 * -1 + 0 * 1);
        }
    } else if i == 4 {
        if j == 0 {
            assert(direction(4) == (CubeVec { q: -1i32, r: 0i32, s: 1i32 }));
            assert(direction(0) == (CubeVec { q: 1i32, r: -1i32, s: 0i32 }));
            assert(dot(direction(4), direction(0)) == -1 * 1 + 0 * -1 + 1 * 0);
        } else if j == 1 {
            assert(direction(4) == (CubeVec { q: -1i32, r: 0i32, s: 1i32 }));
            assert(direction(1) == (CubeVec { q: 1i32, r: 0i32, s: -1i32 }));
            assert(dot(direction(4), direction(1)) == -1 * 1 + 0 * 0 + 1 * -1);
        } else if j == 2 {
            assert(direction(4) == (CubeVec { q: -1i32, r: 0i32, s: 1i32 }));
            assert(direction(2) == (CubeVec { q: 0i32, r: 1i32, s: -1i32 }));
            assert(dot(direction(4), direction(2)) == -1 * 0 + 0 * 1 + 1 * -1);
        } else if j == 3 {
            assert(direction(4) == (CubeVec { q: -1i32, r: 0i32, s: 1i32 }));
            assert(direction(3) == (CubeVec { q: -1i32, r: 1i32, s: 0i32 }));
            assert(dot(direction(4), direction(3)) == -1 * -1 + 0 * 1 + 1 * 0);
        } else if j == 4 {
            assert(direction(4) == (CubeVec { q: -1i32, r: 0i32, s: 1i32 }));
            assert(direction(4) == (CubeVec { q: -1i32, r: 0i32, s: 1i32 }));
            assert(dot(direction(4), direction(4)) == -1 * -1 + 0 * 0 + 1 * 1);
        } else if j == 5 {
            assert(direction(4) == (CubeVec { q: -1i32, r: 0i32, s: 1i32 }));
            assert(direction(5) == (CubeVec { q: 0i32, r: -1i32, s: 1i32 }));
            assert(dot(direction(4), direction(5)) == -1 * 0 + 0 * -1 + 1 * 1);
        }
    } else if i == 5 {
        if j == 0 {
            assert(direction(5) == (CubeVec { q: 0i32, r: -1i32, s: 1i32 }));
            assert(direction(0) == (CubeVec { q: 1i32, r: -1i32, s: 0i32 }));
            assert(dot(direction(5), direction(0)) == 0 * 1 + -1 * -1 + 1 * 0);
        } else if j == 1 {
            assert(direction(5) == (CubeVec { q: 0i32, r: -1i32, s: 1i32 }));
            assert(direction(1) == (CubeVec { q: 1i32, r: 0i32, s: -1i32 }));
            assert(dot(direction(5), direction(1)) == 0 * 1 + -1 * 0 + 1 * -1);
        } else if j == 2 {
            assert(direction(5) == (CubeVec { q: 0i32, r: -1i32, s: 1i32 }));
            assert(direction(2) == (CubeVec { q: 0i32, r: 1i32, s: -1i32 }));
            assert(dot(direction(5), direction(2)) == 0 * 0 + -1 * 1 + 1 * -1);
        } else if j == 3 {
            assert(direction(5) == (CubeVec { q: 0i32, r: -1i32, s: 1i32 }));
            assert(direction(3) == (CubeVec { q: -1i32, r: 1i32, s: 0i32 }));
            assert(dot(direction(5), direction(3)) == 0 * -1 + -1 * 1 + 1 * 0);
        } else if j == 4 {
            assert(direction(5) == (CubeVec { q: 0i32, r: -1i32, s: 1i32 }));
            assert(direction(4) == (CubeVec { q: -1i32, r: 0i32, s: 1i32 }));
            assert(dot(direction(5), direction(4)) == 0 * -1 + -1 * 0 + 1 * 1);
        } else if j == 5 {
            assert(direction(5) == (CubeVec { q: 0i32, r: -1i32, s: 1i32 }));
            assert(direction(5) == (CubeVec { q: 0i32, r: -1i32, s: 1i32 }));
            assert(dot(direction(5), direction(5)) == 0 * 0 + -1 * -1 + 1 * 1);
        }
    }
}

/// Product of two values among -1, 0 and 1.
fn unit_mul(x: i32, y: i32) -> (r: i64)
    requires
        -1 <= x <= 1,
        -1 <= y <= 1,
    ensures
        r as int == x * y,
        -1 <= r <= 1,
{
    if x == 0 || y == 0 {
        assert(x * y == 0) by (nonlinear_arith)
            requires
                x == 0 || y == 0,
        ;
        0
    } else if x == y {
        assert(x * y == 1) by (nonlinear_arith)
            requires
                x == y,
                x == 1 || x == -1,
        ;
        1
    } else {
        assert(x * y == -1) by (nonlinear_arith)
            requires
                x == -y,
                x == 1 || x == -1,
        ;
        -1
    }
}

/// The cube step from a cell to one of its valid neighbours is a unit direction.
proof fn lemma_step_is_direction(partition: SpatialPartition, p: HexMapPosition, n: HexMapPosition)
    requires
        partition.config.wf(),
        p.wf(),
        p.interior(),
        partition.valid_neighbours(p).contains(n),
    ensures
        is_direction(step_between(p, n)),
        n.wf(),
        partition.valid(n),
{
    partition.lemma_valid_neighbours(p, n);
    let i = choose|i: int| 0 <= i < 6 && is_neighbour_at(p, n, i);
    assert(step_between(p, n) == direction(i));
}

/// Every valid neighbour of `from`, each with its move weight: alignment with
/// the agent's heading and collision risk, as `weight_of` says.
pub fn score_neighbours(
    from: &HexMapPosition,
    idle: &IdleAction,
    me: Entity,
    partition: &SpatialPartition,
    neighbours: &Vec<HexMapPosition>,
) -> (r: Vec<(HexMapPosition, u64)>)
    requires
        partition.wf(),
        from.wf(),
        partition.valid(*from),
        neighbours@ == partition.valid_neighbours(*from),
        is_direction(idle.preference.direction),
    ensures
        r@ == scored(*from, idle.preference, me, *partition),
        r@.len() == neighbours@.len(),
        prefix_weight(r@, r@.len() as int) <= u64::MAX,
        forall|k: int|
            0 <= k < r@.len() ==> (#[trigger] r@[k]).0 == neighbours@[k] && r@[k].1 as int
                == weight_of(
                dot(step_between(*from, neighbours@[k]), idle.preference.direction),
                idle.preference.strength as int,
                min_u64(obstacle_risk(*partition, neighbours@[k], me)),
            ),
{
    let mut r: Vec<(HexMapPosition, u64)> = Vec::new();
    let mut k: usize = 0;
    proof {
        crate::hex::lemma_neighbours_adjacent(*from);
        assert(partition.valid_neighbours(*from).len() <= 6) by {
            broadcast use vstd::seq_lib::group_filter_ensures;
        }
    }
    while k < neighbours.len()
        invariant
            k <= neighbours@.len(),
            neighbours@.len() <= 6,
            partition.wf(),
            from.wf(),
            partition.valid(*from),
            neighbours@ == partition.valid_neighbours(*from),
            is_direction(idle.preference.direction),
            r@.len() == k,
            prefix_weight(r@, k as int) <= k * (200 + 2 * idle.preference.strength),
            forall|j: int|
                0 <= j < k ==> (#[trigger] r@[j]).0 == neighbours@[j] && r@[j].1 as int == weight_of(
                    dot(step_between(*from, neighbours@[j]), idle.preference.direction),
                    idle.preference.strength as int,
                    min_u64(obstacle_risk(*partition, neighbours@[j], me)),
                ),
        decreases neighbours@.len() - k,
    {
        let n = neighbours[k];
        proof {
            assert(neighbours@.contains(n));
            lemma_step_is_direction(*partition, *from, n);
        }
        let step = CubeVec { q: n.q - from.q, r: n.r - from.r, s: n.s - from.s };
        let dd = direction_dot(&step, &idle.preference.direction);
        let risk = dynamic_obstacle_risk(&n, partition, me);
        let w = neighbour_weight(dd, idle.preference.strength, risk);
        let ghost before = r@;
        r.push((n, w));
        proof {
            assert forall|j: int| 0 <= j < k implies prefix_weight(r@, j) == prefix_weight(before, j) by {
                lemma_prefix_push(before, (n, w), j);
            }
            lemma_prefix_push(before, (n, w), k as int);
            assert(prefix_weight(r@, k + 1) == prefix_weight(before, k as int) + w);
            assert((k + 1) * (200 + 2 * idle.preference.strength) == k * (200 + 2
                * idle.preference.strength) + (200 + 2 * idle.preference.strength)) by (nonlinear_arith);
        }
        k = k + 1;
    }
    proof {
        assert(k * (200 + 2 * idle.preference.strength) <= 6 * (200 + 2 * 0xFFFF_FFFFu64)) by (nonlinear_arith)
            requires
                k <= 6,
                idle.preference.strength <= 0xFFFF_FFFFu64,
        ;
        assert(r@ =~= scored(*from, idle.preference, me, *partition));
    }
    r
}

/// A risk value capped at the largest `u64`.
pub open spec fn min_u64(v: int) -> int {
    if v < u64::MAX {
        v
    } else {
        u64::MAX as int
    }
}

proof fn lemma_prefix_push(s: Seq<(HexMapPosition, u64)>, x: (HexMapPosition, u64), j: int)
    requires
        0 <= j <= s.len(),
    ensures
        prefix_weight(s.push(x), j) == prefix_weight(s, j),
        prefix_weight(s.push(x), s.len() as int + 1) == prefix_weight(s, s.len() as int) + x.1,
    decreases j,
{
    if j > 0 {
        lemma_prefix_push(s, x, j - 1);
    }
    assert(prefix_weight(s.push(x), s.len() as int + 1) == prefix_weight(s.push(x), s.len() as int) + x.1);
    lemma_prefix_push_all(s, x, s.len() as int);
}

proof fn lemma_prefix_push_all(s: Seq<(HexMapPosition, u64)>, x: (HexMapPosition, u64), j: int)
    requires
        0 <= j <= s.len(),
    ensures
        prefix_weight(s.push(x), j) == prefix_weight(s, j),
    decreases j,
{
    if j > 0 {
        lemma_prefix_push_all(s, x, j - 1);
    }
}

} // verus!
