//! The movement scheduler.
//!
//! Each in-flight card movement is a task: a card entity, a target position,
//! a speed, and an optional continuation payload.  A tick advances every task
//! by straight-line motion scaled by elapsed real time; a task whose
//! remaining distance is within this tick's travel snaps its card exactly to
//! the target, is removed, and has its continuation queued.  Continuations
//! are returned to the caller rather than run inline, so nothing mutates turn
//! state while the task list is being walked.

use vstd::prelude::*;

use crate::effect::Effect;
use crate::geom::{COORD_LIMIT, Vec2i, dist2, in_box, l1_dist, step_toward};
use crate::registry::{CardEntry, CardRegistry, seq_has_id};

verus! {

/// Upper bound on task speed, in thousandths of a pixel per millisecond.
pub const MAX_SPEED: u32 = 1000000;

/// Upper bound on one tick's elapsed time, in milliseconds.
pub const MAX_TICK_MS: u32 = 60000;

/// One in-flight card movement.
#[derive(Clone, Copy, Debug, PartialEq, Eq, Structural)]
pub struct MovementTask {
    /// Identity of the card entity being moved.
    pub card_id: u64,
    /// Where the card is heading.
    pub target: Vec2i,
    /// Speed in thousandths of a pixel per millisecond.
    pub speed: u32,
    /// Continuation payload handed back when the card arrives.
    pub effect: Option<Effect>,
}

/// Distance a task covers in `dt` milliseconds, clamped to the coordinate
/// range.
pub open spec fn travel_amount(speed: u32, dt: u32) -> int {
    if speed * dt > COORD_LIMIT {
        COORD_LIMIT as int
    } else {
        speed * dt
    }
}

/// Whether a task starting this tick at `pos` reaches its target.
pub open spec fn task_arrives(t: MovementTask, pos: Vec2i, dt: u32) -> bool {
    dist2(pos, t.target) <= travel_amount(t.speed, dt) * travel_amount(t.speed, dt)
}

/// Some task in `ts` drives the given card.
pub open spec fn has_task(ts: Seq<MovementTask>, id: u64) -> bool {
    exists|k: int| 0 <= k < ts.len() && (#[trigger] ts[k]).card_id == id
}

/// The index of the task driving the given card.
pub open spec fn task_index(ts: Seq<MovementTask>, id: u64) -> int {
    choose|k: int| 0 <= k < ts.len() && (#[trigger] ts[k]).card_id == id
}

/// The index of the registry entry with the given identity.
pub open spec fn entry_index(s: Seq<CardEntry>, id: u64) -> int {
    choose|i: int| 0 <= i < s.len() && (#[trigger] s[i]).id == id
}

/// The tasks of `ts` that do not arrive this tick, in order, judged against
/// the card positions in `s`.
pub open spec fn remaining_tasks(ts: Seq<MovementTask>, s: Seq<CardEntry>, dt: u32) -> Seq<
    MovementTask,
>
    decreases ts.len(),
{
    if ts.len() == 0 {
        Seq::empty()
    } else {
        remaining_tasks(ts.drop_last(), s, dt) + if !task_arrives(
            ts.last(),
            s[entry_index(s, ts.last().card_id)].pos,
            dt,
        ) {
            seq![ts.last()]
        } else {
            Seq::empty()
        }
    }
}

/// The continuation payloads of the tasks of `ts` that arrive this tick, in
/// order.
pub open spec fn fired_effects(ts: Seq<MovementTask>, s: Seq<CardEntry>, dt: u32) -> Seq<Effect>
    decreases ts.len(),
{
    if ts.len() == 0 {
        Seq::empty()
    } else {
        fired_effects(ts.drop_last(), s, dt) + if task_arrives(
            ts.last(),
            s[entry_index(s, ts.last().card_id)].pos,
            dt,
        ) && ts.last().effect is Some {
            seq![ts.last().effect->0]
        } else {
            Seq::empty()
        }
    }
}

/// The movement scheduler: the set of in-flight tasks.
pub struct Scheduler {
    /// In-flight tasks, in start order.
    pub tasks: Vec<MovementTask>,
}

impl Scheduler {
    /// Well-formedness: at most one task per card, targets in range, speeds
    /// bounded, and well-formed continuation payloads.
    pub open spec fn wf(self) -> bool {
        &&& forall|i: int, j: int|
            0 <= i < j < self.tasks@.len() ==> (#[trigger] self.tasks@[i]).card_id != (
            #[trigger] self.tasks@[j]).card_id
        &&& forall|i: int| 0 <= i < self.tasks@.len() ==> (#[trigger] self.tasks@[i]).target.in_range()
        &&& forall|i: int| 0 <= i < self.tasks@.len() ==> (#[trigger] self.tasks@[i]).speed <= MAX_SPEED
        &&& forall|i: int|
            0 <= i < self.tasks@.len() ==> ((#[trigger] self.tasks@[i]).effect matches Some(e)
                ==> e.wf())
    }

    /// An idle scheduler.
    pub fn new() -> (r: Scheduler)
        ensures
            r.wf(),
            r.tasks@.len() == 0,
    {
        Scheduler { tasks: Vec::new() }
    }

    /// Number of in-flight tasks.
    pub fn task_count(&self) -> (r: usize)
        ensures
            r == self.tasks@.len(),
    {
        self.tasks.len()
    }

    /// Whether some task already drives the given card.
    pub fn is_moving(&self, id: u64) -> (r: bool)
        ensures
            r == has_task(self.tasks@, id),
    {
        let n = self.tasks.len();
        let mut i: usize = 0;
        while i < n
            invariant
                n == self.tasks@.len(),
                i <= n,
                forall|k: int| 0 <= k < i ==> (#[trigger] self.tasks@[k]).card_id != id,
            decreases n - i,
        {
            if self.tasks[i].card_id == id {
                return true;
            }
            i += 1;
        }
        false
    }

    /// Starts a task, unless its card already has one in flight.
    ///
    /// A second task for a card that already has one outstanding is a caller
    /// error; it is rejected and nothing changes.
    pub fn start(&mut self, t: MovementTask) -> (ok: bool)
        requires
            old(self).wf(),
            t.target.in_range(),
            t.speed <= MAX_SPEED,
            t.effect matches Some(e) ==> e.wf(),
        ensures
            final(self).wf(),
            ok == !has_task(old(self).tasks@, t.card_id),
            ok ==> final(self).tasks@ == old(self).tasks@.push(t),
            !ok ==> final(self).tasks@ == old(self).tasks@,
    {
        if self.is_moving(t.card_id) {
            false
        } else {
            self.tasks.push(t);
            true
        }
    }

    /// Advances every task by `dt` milliseconds of straight-line motion.
    ///
    /// A task whose remaining distance is within this tick's travel snaps
    /// its card's position exactly onto the target and is removed; its
    /// continuation payload, if any, is queued and returned in task order,
    /// never invoked during the walk.  Cards without a task do not move, and
    /// nothing but positions changes.
    pub fn tick(&mut self, reg: &mut CardRegistry, dt: u32) -> (fired: Vec<Effect>)
        requires
            old(self).wf(),
            old(reg).wf(),
            dt <= MAX_TICK_MS,
            forall|k: int|
                0 <= k < old(self).tasks@.len() ==> old(reg).has_id(
                    (#[trigger] old(self).tasks@[k]).card_id,
                ),
            forall|k: int, i: int|
                0 <= k < old(self).tasks@.len() && 0 <= i < old(reg).entries@.len() && old(
                    reg,
                ).entries@[i].id == (#[trigger] old(self).tasks@[k]).card_id ==> !(
                #[trigger] old(reg).entries@[i]).selected,
        ensures
            final(self).wf(),
            final(reg).wf(),
            final(reg).next_id == old(reg).next_id,
            final(reg).entries@.len() == old(reg).entries@.len(),
            final(self).tasks@ == remaining_tasks(old(self).tasks@, old(reg).entries@, dt),
            fired@ == fired_effects(old(self).tasks@, old(reg).entries@, dt),
            forall|i: int|
                0 <= i < old(reg).entries@.len() ==> {
                    let eo = old(reg).entries@[i];
                    let en = #[trigger] final(reg).entries@[i];
                    &&& en.id == eo.id
                    &&& en.value == eo.value
                    &&& en.zone == eo.zone
                    &&& en.face_up == eo.face_up
                    &&& en.selected == eo.selected
                    &&& en.marked == eo.marked
                    &&& if has_task(old(self).tasks@, eo.id) {
                        let t = old(self).tasks@[task_index(old(self).tasks@, eo.id)];
                        if task_arrives(t, eo.pos, dt) {
                            en.pos == t.target
                        } else {
                            in_box(eo.pos, t.target, en.pos) && en.pos.in_range() && l1_dist(
                                en.pos,
                                t.target,
                            ) + travel_amount(t.speed, dt) <= l1_dist(eo.pos, t.target) + 1
                        }
                    } else {
                        en.pos == eo.pos
                    }
                },
    {
        let ghost ts0 = old(self).tasks@;
        let ghost s0 = old(reg).entries@;
        let ghost nid0 = old(reg).next_id;
        let n = self.tasks.len();
        let mut kept: Vec<MovementTask> = Vec::new();
        let mut fired: Vec<Effect> = Vec::new();
        let mut k: usize = 0;
        while k < n
            invariant
                self.tasks@ == ts0,
                n == ts0.len(),
                k <= n,
                dt <= MAX_TICK_MS,
                reg.wf(),
                reg.next_id == nid0,
                reg.entries@.len() == s0.len(),
                forall|a: int, b: int|
                    0 <= a < b < ts0.len() ==> (#[trigger] ts0[a]).card_id != (
                    #[trigger] ts0[b]).card_id,
                forall|a: int, b: int|
                    0 <= a < b < s0.len() ==> (#[trigger] s0[a]).id != (#[trigger] s0[b]).id,
                forall|j: int| 0 <= j < ts0.len() ==> (#[trigger] ts0[j]).target.in_range(),
                forall|j: int| 0 <= j < ts0.len() ==> (#[trigger] ts0[j]).speed <= MAX_SPEED,
                forall|j: int|
                    0 <= j < ts0.len() ==> ((#[trigger] ts0[j]).effect matches Some(e) ==> e.wf()),
                forall|j: int| 0 <= j < ts0.len() ==> seq_has_id(s0, (#[trigger] ts0[j]).card_id),
                forall|j: int, i: int|
                    0 <= j < ts0.len() && 0 <= i < s0.len() && s0[i].id == (
                    #[trigger] ts0[j]).card_id ==> !(#[trigger] s0[i]).selected,
                kept@ == remaining_tasks(ts0.take(k as int), s0, dt),
                fired@ == fired_effects(ts0.take(k as int), s0, dt),
                forall|a: int|
                    0 <= a < kept@.len() ==> exists|j: int|
                        0 <= j < k && ts0[j] == #[trigger] kept@[a],
                forall|a: int, b: int|
                    0 <= a < b < kept@.len() ==> (#[trigger] kept@[a]).card_id != (
                    #[trigger] kept@[b]).card_id,
                forall|i: int|
                    0 <= i < s0.len() ==> {
                        let eo = s0[i];
                        let en = #[trigger] reg.entries@[i];
                        &&& en.id == eo.id
                        &&& en.value == eo.value
                        &&& en.zone == eo.zone
                        &&& en.face_up == eo.face_up
                        &&& en.selected == eo.selected
                        &&& en.marked == eo.marked
                        &&& if exists|j: int| 0 <= j < k && (#[trigger] ts0[j]).card_id == eo.id {
                            let t = ts0[task_index(ts0, eo.id)];
                            if task_arrives(t, eo.pos, dt) {
                                en.pos == t.target
                            } else {
                                in_box(eo.pos, t.target, en.pos) && en.pos.in_range() && l1_dist(
                                    en.pos,
                                    t.target,
                                ) + travel_amount(t.speed, dt) <= l1_dist(eo.pos, t.target) + 1
                            }
                        } else {
                            en.pos == eo.pos
                        }
                    },
            decreases n - k,
        {
            let t = self.tasks[k];
            proof {
                assert(t == ts0[k as int]);
                assert(seq_has_id(s0, t.card_id));
            }
            let idx_opt = reg.index_of(t.card_id);
            let idx: usize = match idx_opt {
                Some(i) => i,
                None => {
                    proof {
                        let wi = choose|i: int|
                            0 <= i < s0.len() && (#[trigger] s0[i]).id == t.card_id;
                        assert(reg.entries@[wi].id == s0[wi].id);
                        assert(seq_has_id(reg.entries@, t.card_id));
                        assert(false);
                    }
                    0
                },
            };
            let e = reg.entry_at(idx);
            proof {
                assert(s0[idx as int].id == t.card_id);
                // no earlier task drives this card, so its position is untouched
                assert(forall|j: int| 0 <= j < k ==> (#[trigger] ts0[j]).card_id != t.card_id);
                assert(e.pos == s0[idx as int].pos);
                assert(!e.selected);
            }
            proof {
                assert(ts0[k as int].speed <= MAX_SPEED);
                assert(0 <= (t.speed as int) * (dt as int) <= 60000000000) by (nonlinear_arith)
                    requires
                        0 <= t.speed <= 1000000,
                        0 <= dt <= 60000,
                ;
            }
            let travel_wide: i64 = (t.speed as i64) * (dt as i64);
            let travel: i64 = if travel_wide > COORD_LIMIT {
                COORD_LIMIT
            } else {
                travel_wide
            };
            proof {
                assert(travel == travel_amount(t.speed, dt));
            }
            let (np, arrived) = step_toward(e.pos, t.target, travel);
            reg.set_pos(idx, np);
            if arrived {
                if let Some(eff) = t.effect {
                    fired.push(eff);
                }
            } else {
                kept.push(t);
            }
            proof {
                assert(ts0.take(k + 1).drop_last() =~= ts0.take(k as int));
                assert(ts0.take(k + 1).last() == ts0[k as int]);
                assert(task_index(ts0, t.card_id) == k as int) by {
                    let j = task_index(ts0, t.card_id);
                    assert(0 <= j < ts0.len() && ts0[j].card_id == t.card_id);
                }
                assert(entry_index(s0, t.card_id) == idx as int) by {
                    let wi = entry_index(s0, t.card_id);
                    assert(0 <= wi < s0.len() && s0[wi].id == t.card_id);
                }
                assert(task_arrives(t, s0[idx as int].pos, dt) == arrived);
            }
            k += 1;
        }
        proof {
            assert(ts0.take(n as int) =~= ts0);
        }
        self.tasks = kept;
        fired
    }
}

} // verus!
