//! An arena of agents and food on one map, advanced a tick at a time.

use vstd::prelude::*;
use crate::behave_tree::{
    AnimalActorBoard, EdibleEntity, ForageAction, IdleAction, TickOutcome, actor_tick, actor_tick_post,
    board_wf, edibles_wf, find_edible, fresh_idle, has_edible, idle_wf, lemma_reservation_at,
};
use crate::board_state::{DECAY_PERIOD, FrameCounter, decay_post, next_count, udpate_board_state_system};
use crate::hex::HexMapPosition;
use crate::partition::{Entity, EntityType, HexGridConfig, SpatialPartition};

verus! {

/// The map, its food records, its agents and the decay clock.
///
/// Agent `i` is `actors[i]`, with board `boards[i]`, idle state
/// `idle_actions[i]` and, if it forages, the food of `forage_actions[i]`.
pub struct Simulation {
    pub partition: SpatialPartition,
    pub edibles: Vec<EdibleEntity>,
    pub actors: Vec<Entity>,
    pub boards: Vec<AnimalActorBoard>,
    pub idle_actions: Vec<IdleAction>,
    pub forage_actions: Vec<Option<ForageAction>>,
    pub frame_counter: FrameCounter,
}

impl Simulation {
    /// The arena's invariant.
    pub open spec fn wf(&self) -> bool {
        &&& self.partition.wf()
        &&& edibles_wf(self.edibles@)
        &&& self.boards@.len() == self.actors@.len()
        &&& self.idle_actions@.len() == self.actors@.len()
        &&& self.forage_actions@.len() == self.actors@.len()
        &&& forall|i: int| 0 <= i < self.boards@.len() ==> board_wf(&#[trigger] self.boards@[i], &self.partition)
        &&& forall|i: int| 0 <= i < self.idle_actions@.len() ==> idle_wf(&#[trigger] self.idle_actions@[i])
    }

    /// An empty arena on a map of the given size.
    pub fn new(config: HexGridConfig) -> (r: Simulation)
        requires
            config.wf(),
        ensures
            r.wf(),
            r.partition.config == config,
            r.actors@.len() == 0,
            r.edibles@.len() == 0,
    {
        Simulation {
            partition: SpatialPartition::new(config),
            edibles: Vec::new(),
            actors: Vec::new(),
            boards: Vec::new(),
            idle_actions: Vec::new(),
            forage_actions: Vec::new(),
            frame_counter: FrameCounter::new(),
        }
    }

    /// Places food `entity` of type `food_type` on `pos`, unreserved. Refused,
    /// with nothing changed, when the entity is already placed or has a food
    /// record.
    pub fn add_food(&mut self, entity: Entity, pos: &HexMapPosition, food_type: EntityType) -> (added: bool)
        requires
            old(self).wf(),
            pos.wf(),
            old(self).partition.valid(*pos),
            food_type != EntityType::Cell,
        ensures
            final(self).wf(),
            added == (!old(self).partition.tracks(entity) && !has_edible(old(self).edibles@, entity)),
            added ==> old(self).partition.inserted(final(self).partition, entity, *pos, food_type)
                && final(self).edibles@ == old(self).edibles@.push(
                EdibleEntity { entity, reserved_by: None },
            ),
            !added ==> final(self).partition == old(self).partition && final(self).edibles@ == old(
                self,
            ).edibles@,
            final(self).actors@ == old(self).actors@,
    {
        if self.partition.contains_entity(entity) {
            return false;
        }
        if find_edible(&self.edibles, entity).is_some() {
            return false;
        }
        let ghost before = self.edibles@;
        self.partition.insert_cache_entity(entity, pos, food_type);
        self.edibles.push(EdibleEntity { entity, reserved_by: None });
        proof {
            assert forall|a: int, c: int|
                0 <= a < self.edibles@.len() && 0 <= c < self.edibles@.len() && #[trigger] self.edibles@[a].entity
                    == #[trigger] self.edibles@[c].entity implies a == c by {
                if a < before.len() && c == before.len() {
                    assert(before[a].entity == entity);
                }
                if c < before.len() && a == before.len() {
                    assert(before[c].entity == entity);
                }
                if a < before.len() && c < before.len() {
                    assert(before[a] == self.edibles@[a] && before[c] == self.edibles@[c]);
                }
            }
            assert forall|i: int| 0 <= i < self.boards@.len() implies board_wf(&#[trigger] self.boards@[i], &self.partition) by {
                assert(board_wf(&self.boards@[i], &old(self).partition));
            }
        }
        true
    }

    /// Adds agent `entity`, registered in the partition at its board's cell
    /// under its board's type. Refused, with nothing changed, when the entity
    /// is already placed.
    pub fn add_agent(&mut self, entity: Entity, board: AnimalActorBoard, forage: Option<ForageAction>) -> (added: bool)
        requires
            old(self).wf(),
            board_wf(&board, &old(self).partition),
            board.entity_type != EntityType::Cell,
        ensures
            final(self).wf(),
            added == !old(self).partition.tracks(entity),
            added ==> final(self).forage_actions@ == old(self).forage_actions@.push(forage)
                && final(self).boards@ == old(self).boards@.push(board)
                && final(self).idle_actions@ == old(self).idle_actions@.push(fresh_idle()),
            !added ==> final(self).boards@ == old(self).boards@ && final(self).idle_actions@ == old(
                self,
            ).idle_actions@ && final(self).forage_actions@ == old(self).forage_actions@,
            added ==> final(self).actors@ == old(self).actors@.push(entity) && old(self).partition.inserted(
                final(self).partition,
                entity,
                board.current_pos,
                board.entity_type,
            ),
            !added ==> final(self).actors@ == old(self).actors@ && final(self).partition == old(
                self,
            ).partition,
            final(self).edibles@ == old(self).edibles@,
    {
        if self.partition.contains_entity(entity) {
            return false;
        }
        self.partition.insert_cache_entity(entity, &board.current_pos, board.entity_type);
        self.actors.push(entity);
        self.boards.push(board);
        self.idle_actions.push(IdleAction::new());
        self.forage_actions.push(forage);
        proof {
            assert forall|i: int| 0 <= i < self.boards@.len() implies board_wf(&#[trigger] self.boards@[i], &self.partition) by {
                if i < old(self).boards@.len() {
                    assert(board_wf(&old(self).boards@[i], &old(self).partition));
                    assert(self.boards@[i] == old(self).boards@[i]);
                }
            }
            assert forall|i: int| 0 <= i < self.idle_actions@.len() implies idle_wf(&#[trigger] self.idle_actions@[i]) by {
                if i < old(self).idle_actions@.len() {
                    assert(self.idle_actions@[i] == old(self).idle_actions@[i]);
                }
            }
        }
        true
    }

    /// One simulation tick of `delta_ms`: every agent takes its decision-loop
    /// tick in order, each from the state the agents before it left, then the
    /// decay clock counts the frame. Returns each agent's outcome, in agent
    /// order.
    pub fn tick(&mut self, delta_ms: u64) -> (r: Vec<TickOutcome>)
        requires
            old(self).wf(),
        ensures
            final(self).wf(),
            r@.len() == old(self).actors@.len(),
            exists|hist: Seq<Simulation>|
                #![trigger hist.len()]
                hist.len() == old(self).actors@.len() + 1 && hist[0] == *old(self) && (forall|k: int|
                    0 <= k < old(self).actors@.len() ==> #[trigger] agent_step(
                        hist[k],
                        hist[k + 1],
                        k,
                        delta_ms,
                        r@[k],
                    )) && frame_step(hist.last(), *final(self), delta_ms),
    {
        let mut outcomes: Vec<TickOutcome> = Vec::new();
        let ghost mut hist: Seq<Simulation> = seq![*self];
        let mut i: usize = 0;
        while i < self.actors.len()
            invariant
                self.wf(),
                i <= self.actors@.len(),
                outcomes@.len() == i,
                self.actors@ == old(self).actors@,
                hist.len() == i + 1,
                hist[0] == *old(self),
                hist.last() == *self,
                forall|k: int| 0 <= k < i ==> #[trigger] agent_step(hist[k], hist[k + 1], k, delta_ms, outcomes@[k]),
            decreases self.actors@.len() - i,
        {
            let me = self.actors[i];
            let forage = self.forage_actions[i];
            let ghost before = *self;
            proof {
                assert(board_wf(&self.boards@[i as int], &self.partition));
                assert(idle_wf(&self.idle_actions@[i as int]));
            }
            let outcome = actor_tick(
                &mut self.boards[i],
                &mut self.idle_actions[i],
                me,
                forage,
                &mut self.edibles,
                &mut self.partition,
                delta_ms,
            );
            outcomes.push(outcome);
            proof {
                assert forall|j: int| 0 <= j < self.boards@.len() implies board_wf(&#[trigger] self.boards@[j], &self.partition) by {
                    if j != i {
                        assert(self.boards@[j] == before.boards@[j]);
                        assert(board_wf(&before.boards@[j], &before.partition));
                    }
                }
                assert forall|j: int| 0 <= j < self.idle_actions@.len() implies idle_wf(&#[trigger] self.idle_actions@[j]) by {
                    if j != i {
                        assert(self.idle_actions@[j] == before.idle_actions@[j]);
                    }
                }
                let old_hist = hist;
                hist = hist.push(*self);
                assert(agent_step(before, *self, i as int, delta_ms, outcome));
                assert forall|k: int| 0 <= k < i + 1 implies #[trigger] agent_step(hist[k], hist[k + 1], k, delta_ms, outcomes@[k]) by {
                    if k < i {
                        assert(hist[k] == old_hist[k] && hist[k + 1] == old_hist[k + 1]);
                    }
                }
            }
            i = i + 1;
        }
        let ghost last = *self;
        let decayed = udpate_board_state_system(&mut self.frame_counter, &mut self.boards, delta_ms);
        proof {
            assert forall|j: int| 0 <= j < self.boards@.len() implies board_wf(&#[trigger] self.boards@[j], &self.partition) by {
                assert(board_wf(&last.boards@[j], &last.partition));
            }
            assert(frame_step(last, *self, delta_ms));
        }
        outcomes
    }
}

/// `s1` is `s0` after agent `i` took its decision-loop tick with outcome
/// `r`; no other agent's board or idle state, and no agent list, changed.
pub open spec fn agent_step(s0: Simulation, s1: Simulation, i: int, delta_ms: u64, r: TickOutcome) -> bool {
    &&& 0 <= i < s0.actors@.len()
    &&& s1.actors@ == s0.actors@
    &&& s1.forage_actions@ == s0.forage_actions@
    &&& s1.frame_counter == s0.frame_counter
    &&& s1.boards@.len() == s0.boards@.len()
    &&& s1.idle_actions@.len() == s0.idle_actions@.len()
    &&& forall|j: int| 0 <= j < s0.boards@.len() && j != i ==> #[trigger] s1.boards@[j] == s0.boards@[j]
    &&& forall|j: int|
        0 <= j < s0.idle_actions@.len() && j != i ==> #[trigger] s1.idle_actions@[j] == s0.idle_actions@[j]
    &&& actor_tick_post(
        &s0.boards@[i],
        &s1.boards@[i],
        s0.idle_actions@[i],
        s1.idle_actions@[i],
        s0.actors@[i],
        s0.forage_actions@[i],
        s0.edibles@,
        s1.edibles@,
        s0.partition,
        s1.partition,
        delta_ms,
        r,
    )
}

/// `s1` is `s0` after the decay clock counted a frame of `delta_ms`.
pub open spec fn frame_step(s0: Simulation, s1: Simulation, delta_ms: u64) -> bool {
    &&& s1.actors@ == s0.actors@
    &&& s1.forage_actions@ == s0.forage_actions@
    &&& s1.idle_actions@ == s0.idle_actions@
    &&& s1.edibles@ == s0.edibles@
    &&& s1.partition == s0.partition
    &&& decay_post(
        s0.frame_counter,
        s1.frame_counter,
        s0.boards@,
        s1.boards@,
        delta_ms,
        next_count(s0.frame_counter.counter) % DECAY_PERIOD as int == 0,
    )
}

} // verus!
