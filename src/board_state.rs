//! The satiety decay clock: every tenth frame, each agent loses satiety in
//! proportion to the time elapsed since the last decay.

use vstd::prelude::*;
use crate::behave_tree::AnimalActorBoard;

verus! {

/// Frames between two decays.
pub const DECAY_PERIOD: u32 = 10;

/// Frames and milliseconds counted since the last decay.
#[derive(Clone, Copy, Debug, PartialEq, Eq, Structural)]
pub struct FrameCounter {
    pub counter: u32,
    pub elpased: u64,
}

/// Satiety lost, in hundredths, over `elapsed_ms` at `rate` hundredths per
/// second, rounded down.
pub open spec fn decay_of(elapsed_ms: int, rate: int) -> int {
    elapsed_ms * rate / 1000
}

/// `v - d`, stopping at the smallest `i32`.
pub open spec fn drained(v: int, d: int) -> int {
    if v - d < i32::MIN {
        i32::MIN as int
    } else {
        v - d
    }
}

impl FrameCounter {
    /// A clock with nothing counted.
    pub fn new() -> (r: FrameCounter)
        ensures
            r.counter == 0,
            r.elpased == 0,
    {
        FrameCounter { counter: 0, elpased: 0 }
    }

    /// Forgets what was counted.
    pub fn reset(&mut self)
        ensures
            final(self).counter == 0,
            final(self).elpased == 0,
    {
        self.counter = 0;
        self.elpased = 0;
    }

    /// Counts a frame of `delta_ms`. On every frame whose count is a
    /// multiple of ten it returns the time accumulated since the last decay
    /// and starts counting anew.
    pub fn advance(&mut self, delta_ms: u64) -> (r: Option<u64>)
        ensures
            clock_post(*old(self), *final(self), delta_ms, r is Some),
            r matches Some(t) ==> t == min_elapsed(old(self).elpased + delta_ms),
    {
        self.elpased = self.elpased.saturating_add(delta_ms);
        self.counter = if self.counter == u32::MAX {
            0
        } else {
            self.counter + 1
        };
        if self.counter % DECAY_PERIOD == 0 {
            let elapsed = self.elpased;
            self.reset();
            Some(elapsed)
        } else {
            None
        }
    }
}

/// The frame count after `c`, wrapping at the largest `u32`.
pub open spec fn next_count(c: u32) -> int {
    if c == u32::MAX {
        0
    } else {
        c + 1
    }
}

/// The clock `f1` is `f0` after a frame of `delta_ms`: the frame decays when
/// its count is a multiple of ten, and the clock then starts anew; otherwise
/// it holds the new count and the time accumulated.
pub open spec fn clock_post(f0: FrameCounter, f1: FrameCounter, delta_ms: u64, decayed: bool) -> bool {
    &&& decayed == (next_count(f0.counter) % DECAY_PERIOD as int == 0)
    &&& decayed ==> f1.counter == 0 && f1.elpased == 0
    &&& !decayed ==> f1.counter == next_count(f0.counter) && f1.elpased == min_elapsed(
        f0.elpased + delta_ms,
    )
}

/// Satiety lost over `elapsed_ms` at `rate` hundredths per second.
pub fn decay_amount(elapsed_ms: u64, rate: u32) -> (r: u128)
    ensures
        r as int == decay_of(elapsed_ms as int, rate as int),
{
    proof {
        assert(elapsed_ms as int * rate as int <= 0xFFFF_FFFF_FFFF_FFFFu64 as int * 0xFFFF_FFFFu32 as int) by (nonlinear_arith)
            requires
                elapsed_ms <= 0xFFFF_FFFF_FFFF_FFFFu64,
                rate <= 0xFFFF_FFFFu32,
        ;
    }
    let product: u128 = elapsed_ms as u128 * rate as u128;
    product / 1000
}

/// Drains `board` for `elapsed_ms` at its own decay rate.
pub fn apply_decay(board: &mut AnimalActorBoard, elapsed_ms: u64)
    ensures
        final(board).satiety as int == drained(
            old(board).satiety as int,
            decay_of(elapsed_ms as int, old(board).decay_faction as int),
        ),
        final(board).current_pos == old(board).current_pos,
        final(board).forage_target == old(board).forage_target,
        final(board).move_target == old(board).move_target,
        final(board).state == old(board).state,
        final(board).idle_counter == old(board).idle_counter,
        final(board).move_cd_timer == old(board).move_cd_timer,
        final(board).decay_faction == old(board).decay_faction,
        final(board).path_buffer@ == old(board).path_buffer@,
        final(board).entity_type == old(board).entity_type,
{
    let amount = decay_amount(elapsed_ms, board.decay_faction);
    let lowered: i64 = if amount > 0x1_0000_0000u128 {
        i32::MIN as i64
    } else {
        board.satiety as i64 - amount as i64
    };
    board.satiety = if lowered < i32::MIN as i64 {
        i32::MIN
    } else {
        lowered as i32
    };
}

/// Counts a frame and, on every tenth, drains every board for the time
/// accumulated since the last decay. Returns whether this frame decayed.
pub fn udpate_board_state_system(
    f_counter: &mut FrameCounter,
    boards: &mut Vec<AnimalActorBoard>,
    delta_ms: u64,
) -> (decayed: bool)
    ensures
        decay_post(*old(f_counter), *final(f_counter), old(boards)@, final(boards)@, delta_ms, decayed),
{
    match f_counter.advance(delta_ms) {
        None => false,
        Some(elapsed) => {
            let ghost before = boards@;
            let mut i: usize = 0;
            while i < boards.len()
                invariant
                    i <= boards@.len(),
                    boards@.len() == before.len(),
                    elapsed as int == min_elapsed(old(f_counter).elpased + delta_ms),
                    forall|j: int| i <= j < boards@.len() ==> #[trigger] boards@[j] == before[j],
                    forall|j: int|
                        0 <= j < i ==> {
                            let b = #[trigger] before[j];
                            let a = boards@[j];
                            &&& a.satiety as int == drained(
                                b.satiety as int,
                                decay_of(elapsed as int, b.decay_faction as int),
                            )
                            &&& a.current_pos == b.current_pos
                            &&& a.forage_target == b.forage_target
                            &&& a.move_target == b.move_target
                            &&& a.path_buffer@ == b.path_buffer@
                            &&& a.state == b.state
                            &&& a.idle_counter == b.idle_counter
                            &&& a.move_cd_timer == b.move_cd_timer
                            &&& a.decay_faction == b.decay_faction
                            &&& a.entity_type == b.entity_type
                        },
                decreases boards@.len() - i,
            {
                apply_decay(&mut boards[i], elapsed);
                i = i + 1;
            }
            true
        },
    }
}

/// Everything one frame of the decay clock does: the clock goes from `f0`
/// to `f1` as `clock_post` says, and on a decay frame every board is drained
/// for the time accumulated; boards change in nothing else.
pub open spec fn decay_post(
    f0: FrameCounter,
    f1: FrameCounter,
    boards0: Seq<AnimalActorBoard>,
    boards1: Seq<AnimalActorBoard>,
    delta_ms: u64,
    decayed: bool,
) -> bool {
    &&& clock_post(f0, f1, delta_ms, decayed)
    &&& boards1.len() == boards0.len()
    &&& forall|i: int|
        0 <= i < boards0.len() ==> {
            let b = #[trigger] boards0[i];
            let a = boards1[i];
            &&& a.satiety as int == if decayed {
                drained(
                    b.satiety as int,
                    decay_of(min_elapsed(f0.elpased + delta_ms), b.decay_faction as int),
                )
            } else {
                b.satiety as int
            }
            &&& a.current_pos == b.current_pos
            &&& a.forage_target == b.forage_target
            &&& a.move_target == b.move_target
            &&& a.path_buffer@ == b.path_buffer@
            &&& a.state == b.state
            &&& a.idle_counter == b.idle_counter
            &&& a.move_cd_timer == b.move_cd_timer
            &&& a.decay_faction == b.decay_faction
            &&& a.entity_type == b.entity_type
        }
}

/// A time in milliseconds, capped at the largest `u64`.
pub open spec fn min_elapsed(v: int) -> int {
    if v <= u64::MAX {
        v
    } else {
        u64::MAX as int
    }
}

} // verus!
