//! The turn orchestrator.
//!
//! One state machine drives the whole game loop: dealing, accepting clicks
//! from the point-of-view seat, playing the other seats automatically,
//! animating each play, resolving the engine's reported effect, collecting
//! finished tricks, and restarting after game over.  Input is refused
//! whenever a movement is outstanding or it is not logically that player's
//! turn, so logical turns are serialized even though animation is not.

use vstd::prelude::*;

use crate::card::{
    Card, cards_of_codes, lemma_card_of_code_inverse, lemma_code_roundtrip, sort_for_display,
    sorted_for_display,
};
use crate::effect::{Effect, Score};
use crate::engine::{
    engine_current, engine_current_player, engine_hand, engine_hand_cards, engine_is_ongoing,
    engine_legal, engine_legal_cards, engine_moves, engine_moves_count, engine_new, engine_ongoing,
    engine_play, engine_score, engine_score_of, engine_trick, engine_trick_cards,
    engine_leader, engine_trick_leader, engine_trick_ready, hand_codes_ok, hands_distinct,
    lemma_n_played_pos,
    lemma_n_played_zero, n_played, to_engine_card,
};
use crate::geom::{Vec2i, l1_dist};
use crate::layout::{hand_slot, trick_slot};
use crate::registry::{
    CardEntry, CardRegistry, SELECT_RAISE, Zone, hand_cards_of, lemma_count_bounds,
    lemma_hand_cards_member, lemma_hand_cards_pair,
    lemma_count_pointwise, lemma_count_pos, lemma_count_push, lemma_count_update, lemma_count_zero,
    lemma_hand_cards_push, lemma_hand_of_push, lemma_zone_partition, n_gone, n_in_hand_of,
    n_in_hands, n_in_trick, n_marked, n_selected, seq_has_id,
};
use crate::sched::{
    MovementTask, Scheduler, fired_effects, has_task, remaining_tasks, task_arrives, task_index,
    travel_amount,
};
use crate::text::{final_score_line, final_score_text, running_score_line, score_text};
use shuftlib::tressette::Game;

verus! {

/// Speed of a played card moving to the trick zone, in thousandths of a
/// pixel per millisecond (600 pixels per second).
pub const PLAY_SPEED: u32 = 600;

/// The orchestrator's phase.
#[derive(Clone, Copy, Debug, PartialEq, Eq, Structural)]
pub enum GameState {
    /// The engine holds freshly dealt hands that are not on the table yet.
    Setup,
    /// It is the point-of-view seat's turn; waiting for a click.
    AwaitingPovInput,
    /// It is an automated seat's turn.
    AwaitingAiMove,
    /// A played card is on its way to the trick zone.
    AnimatingPlay,
    /// A movement just finished; its effect is being interpreted.
    ResolvingEffect,
    /// Trick cards are marked and wait for the despawn sweep.
    CollectingTrick,
    /// The game is over; only the restart control responds.
    GameOver,
}

/// What to do once the marked trick cards have been swept.
#[derive(Clone, Copy, Debug, PartialEq, Eq, Structural)]
pub enum AfterCollect {
    /// Hand the turn to the trick's winner.
    NextTurn { winner: u8 },
    /// The hand ended: clear the table and return to `Setup` for the fresh
    /// deal the engine already holds.
    Redeal,
    /// The game ended: freeze in `GameOver`.
    Freeze,
}

/// What a click on a card did.
#[derive(Clone, Copy, Debug, PartialEq, Eq, Structural)]
pub enum ClickOutcome {
    /// Wrong phase, unknown entity, or not an owned hand card: no change.
    Ignored,
    /// The card was raised as selected (any other selection was dropped).
    Selected,
    /// The engine rejected the play; nothing changed.
    Rejected,
    /// The card was played and is now animating to the trick zone.
    Played,
}

/// A supplied engine was not a fresh deal: it is not adopted.
#[derive(Clone, Copy, Debug, PartialEq, Eq, Structural)]
pub struct EngineNotFresh;

/// The visual state and the engine disagree: fatal, per the error design.
#[derive(Clone, Copy, Debug, PartialEq, Eq, Structural)]
pub enum Desync {
    /// The engine offered no legal card although a move was expected.
    NoLegalCard,
    /// The engine's chosen card has no matching entity on the table.
    MissingEntity,
}

/// How an automated seat picks among the engine's legal cards.
///
/// The surrounding state machine is fixed; only the choice is swappable.
pub trait MoveStrategy {
    /// Picks the index of the card to play from a non-empty legal list.
    fn pick(&mut self, legal: &Vec<Card>) -> (i: usize)
        requires
            legal@.len() > 0,
        ensures
            i < legal@.len(),
    ;
}

/// The default strategy: always the first legal card, with no search.
pub struct FirstLegal;

impl MoveStrategy for FirstLegal {
    fn pick(&mut self, legal: &Vec<Card>) -> (i: usize)
        ensures
            i == 0,
    {
        0
    }
}

/// Facts that hold of the engine while `e` is the pending continuation of an
/// in-flight play, from the move that produced `e` until it is resolved.
pub open spec fn pending_ok(g: Game, e: Effect) -> bool {
    match e {
        Effect::CardPlayed => engine_ongoing(g) && 0 <= engine_current(g) < 4 && engine_trick(
            g,
        ).len() == 4,
        Effect::TrickCompleted { winner } => {
            &&& engine_ongoing(g)
            &&& winner < 4
            &&& engine_current(g) == winner as int
            &&& n_played(engine_trick(g)) == 0
            &&& engine_trick(g).len() == 4
        },
        Effect::HandComplete { winner, score } => {
            &&& engine_ongoing(g)
            &&& winner < 4
            &&& 0 <= engine_current(g) < 4
            &&& score.team02 as int == engine_score(g).0
            &&& score.team13 as int == engine_score(g).1
            &&& forall|s: int| 0 <= s < 4 ==> (#[trigger] engine_hand(g, s)).len() == 10
            &&& forall|s: int| 0 <= s < 4 ==> hand_codes_ok(g, s)
            &&& n_played(engine_trick(g)) == 0
            &&& engine_trick(g).len() == 4
        },
        Effect::GameOver { winner, final_score } => {
            &&& !engine_ongoing(g)
            &&& winner < 4
            &&& final_score.team02 as int == engine_score(g).0
            &&& final_score.team13 as int == engine_score(g).1
            &&& n_played(engine_trick(g)) == 0
            &&& engine_trick(g).len() == 4
        },
    }
}

/// An entity with this identity sits in the point-of-view hand.
pub open spec fn pov_hand_entry(s: Seq<CardEntry>, id: u64) -> bool {
    exists|i: int|
        0 <= i < s.len() && (#[trigger] s[i]).id == id && s[i].zone == (Zone::InHand {
            seat: crate::POV_SEAT,
        })
}

/// An entity with this identity sits unselected in the point-of-view hand.
pub open spec fn pov_unselected_entry(s: Seq<CardEntry>, id: u64) -> bool {
    exists|i: int|
        0 <= i < s.len() && (#[trigger] s[i]).id == id && s[i].zone == (Zone::InHand {
            seat: crate::POV_SEAT,
        }) && !s[i].selected
}

/// An entity with this identity sits selected in the point-of-view hand.
pub open spec fn pov_selected_entry(s: Seq<CardEntry>, id: u64) -> bool {
    exists|i: int|
        0 <= i < s.len() && (#[trigger] s[i]).id == id && s[i].zone == (Zone::InHand {
            seat: crate::POV_SEAT,
        }) && s[i].selected
}

/// A click on this entity is an accepted play: the card is selected in the
/// point-of-view hand and the engine holds it legal.
pub open spec fn pov_playable_click(o: Orchestrator, id: u64) -> bool {
    exists|i: int|
        0 <= i < o.registry.entries@.len() && (#[trigger] o.registry.entries@[i]).id == id
            && o.registry.entries@[i].zone == (Zone::InHand { seat: crate::POV_SEAT })
            && o.registry.entries@[i].selected && engine_ongoing(o.engine) && engine_legal(
            o.engine,
        ).contains(o.registry.entries@[i].value.code())
}

/// Some entity of this seat's hand shows the card with this code.
pub open spec fn hand_entity_with_code(s: Seq<CardEntry>, seat: int, code: int) -> bool {
    exists|i: int|
        0 <= i < s.len() && ((#[trigger] s[i]).zone matches Zone::InHand { seat: sv } && sv as int
            == seat) && s[i].value.code() == code
}

/// A sequence with no selected entry counts zero selected entries.
proof fn lemma_selected_zero_pointwise(s: Seq<CardEntry>)
    requires
        n_selected(s) == 0,
    ensures
        forall|i: int| 0 <= i < s.len() ==> !(#[trigger] s[i]).selected,
    decreases s.len(),
{
    if s.len() > 0 {
        assert(n_selected(s.drop_last()) >= 0) by {
            lemma_count_bounds(s.drop_last(), |x: CardEntry| x.selected);
        }
        lemma_selected_zero_pointwise(s.drop_last());
        assert(forall|i: int| 0 <= i < s.len() - 1 ==> s[i] == s.drop_last()[i]);
    }
}

/// The turn orchestrator: the engine, the table, the in-flight movement,
/// and the phase.
pub struct Orchestrator {
    /// The external rules engine, the single authority on the rules.
    pub engine: Game,
    /// The visual card entities.
    pub registry: CardRegistry,
    /// The movement scheduler.
    pub sched: Scheduler,
    /// The current phase.
    pub state: GameState,
    /// The cumulative score currently displayed.
    pub score_board: Score,
    /// Whether the restart control is spawned (exactly in `GameOver`).
    pub restart_control: bool,
    /// What follows the sweep; meaningful in `CollectingTrick`.
    pub after_collect: AfterCollect,
}

impl Orchestrator {
    /// The score display matches the engine's authoritative score.
    pub open spec fn board_synced(self) -> bool {
        self.score_board.team02 as int == engine_score(self.engine).0
            && self.score_board.team13 as int == engine_score(self.engine).1
    }

    /// The engine holds full, freshly dealt ten-card hands.
    pub open spec fn engine_dealt(self) -> bool {
        &&& engine_ongoing(self.engine)
        &&& 0 <= engine_current(self.engine) < 4
        &&& forall|s: int| 0 <= s < 4 ==> (#[trigger] engine_hand(self.engine, s)).len() == 10
        &&& forall|s: int| 0 <= s < 4 ==> hand_codes_ok(self.engine, s)
        &&& n_played(engine_trick(self.engine)) == 0
        &&& engine_trick(self.engine).len() == 4
    }

    /// The well-formedness invariant of every reachable orchestrator.
    pub open spec fn wf(self) -> bool {
        let entries = self.registry.entries@;
        let tasks = self.sched.tasks@;
        &&& self.registry.wf()
        &&& self.sched.wf()
        &&& engine_trick_ready(self.engine)
        &&& self.registry.next_id <= 40
        &&& (self.state is AnimatingPlay ==> tasks.len() == 1)
        &&& (!(self.state is AnimatingPlay) ==> tasks.len() == 0)
        &&& forall|k: int| 0 <= k < tasks.len() ==> seq_has_id(entries, (#[trigger] tasks[k]).card_id)
        &&& forall|k: int, i: int|
            0 <= k < tasks.len() && 0 <= i < entries.len() && entries[i].id == (
            #[trigger] tasks[k]).card_id ==> (#[trigger] entries[i]).zone is InTrick
                && !entries[i].selected
        &&& (self.state is AnimatingPlay ==> (tasks[0].effect matches Some(e) && pending_ok(
            self.engine,
            e,
        ) && (if e is CardPlayed {
            n_in_trick(entries) == n_played(engine_trick(self.engine))
        } else {
            n_in_trick(entries) == 4
        })))
        &&& (self.state is AwaitingPovInput ==> engine_ongoing(self.engine) && engine_current(
            self.engine,
        ) == 0 && n_in_trick(entries) == n_played(engine_trick(self.engine)) && engine_trick(
            self.engine,
        ).len() == 4)
        &&& (self.state is AwaitingAiMove ==> engine_ongoing(self.engine) && 1 <= engine_current(
            self.engine,
        ) < 4 && n_in_trick(entries) == n_played(engine_trick(self.engine)) && engine_trick(
            self.engine,
        ).len() == 4)
        &&& (self.state is Setup ==> self.registry.entries@.len() == 0 && self.registry.next_id
            == 0 && self.engine_dealt())
        &&& (!(self.state is Setup) ==> self.registry.entries@.len() == 40)
        &&& (self.state is CollectingTrick ==> forall|i: int|
            0 <= i < entries.len() ==> ((#[trigger] entries[i]).zone is InTrick
                ==> entries[i].marked))
        &&& (self.state is CollectingTrick ==> n_in_trick(entries) == 4 && n_played(
            engine_trick(self.engine),
        ) == 0 && engine_trick(self.engine).len() == 4)
        &&& (!(self.state is CollectingTrick) ==> n_marked(entries) == 0)
        &&& (self.state is CollectingTrick ==> match self.after_collect {
            AfterCollect::NextTurn { winner } => engine_ongoing(self.engine) && winner < 4
                && engine_current(self.engine) == winner as int,
            AfterCollect::Redeal => self.engine_dealt(),
            AfterCollect::Freeze => !engine_ongoing(self.engine),
        })
        &&& (self.state is GameOver ==> !engine_ongoing(self.engine))
        &&& (self.restart_control <==> self.state is GameOver)
        &&& n_selected(entries) <= 1
        &&& forall|i: int|
            0 <= i < entries.len() ==> ((#[trigger] entries[i]).zone == (Zone::InHand {
                seat: crate::POV_SEAT,
            }) ==> entries[i].pos.y == if entries[i].selected {
                SELECT_RAISE as int
            } else {
                0
            })
        &&& ((self.state is AnimatingPlay && (tasks[0].effect matches Some(e) && (e is HandComplete
            || e is GameOver))) || self.state is ResolvingEffect || self.board_synced())
    }

    /// Starts a new orchestrated game on a fresh engine deal.
    pub fn new() -> (r: Orchestrator)
        ensures
            r.wf(),
            r.state is Setup,
            r.score_board == (Score { team02: 0, team13: 0 }),
            engine_moves(r.engine) == 0,
            hands_distinct(r.engine),
    {
        let engine = engine_new();
        proof {
            lemma_n_played_zero(engine_trick(engine));
        }
        Orchestrator {
            engine,
            registry: CardRegistry::new(),
            sched: Scheduler::new(),
            state: GameState::Setup,
            score_board: Score { team02: 0, team13: 0 },
            restart_control: false,
            after_collect: AfterCollect::Freeze,
        }
    }

    /// Adopts an engine supplied by the caller, provided it is ongoing and
    /// holds full ten-card hands, as a fresh deal does.  The engine must
    /// have its current trick initialized, as every engine that has dealt
    /// does.
    pub fn with_engine(g: Game) -> (r: Result<Orchestrator, EngineNotFresh>)
        requires
            engine_trick_ready(g),
        ensures
            r matches Ok(o) ==> o.wf() && o.state is Setup && o.engine == g,
            r is Ok <==> engine_ongoing(g) && (forall|s: int|
                0 <= s < 4 ==> (#[trigger] engine_hand(g, s)).len() == 10) && n_played(
                engine_trick(g),
            ) == 0,
    {
        if !engine_is_ongoing(&g) {
            return Err(EngineNotFresh);
        }
        let mut seat: u8 = 0;
        while seat < 4
            invariant
                seat <= 4,
                forall|s: int| 0 <= s < seat ==> (#[trigger] engine_hand(g, s)).len() == 10,
                forall|s: int| 0 <= s < seat ==> hand_codes_ok(g, s),
            decreases 4 - seat,
        {
            let h = engine_hand_cards(&g, seat);
            if h.len() != 10 {
                return Err(EngineNotFresh);
            }
            proof {
                assert forall|i: int|
                    0 <= i < engine_hand(g, seat as int).len() implies 0 <= #[trigger] engine_hand(
                    g,
                    seat as int,
                )[i] < 40 by {
                    assert(h@[i].valid() && h@[i].code() == engine_hand(g, seat as int)[i]);
                }
            }
            seat += 1;
        }
        let trick = engine_trick_cards(&g);
        let mut ti: usize = 0;
        while ti < 4
            invariant
                trick@.len() == 4,
                engine_trick(g).len() == 4,
                ti <= 4,
                forall|j: int|
                    0 <= j < 4 ==> (match #[trigger] trick@[j] {
                        Some(c) => c.valid() && engine_trick(g)[j] == Some(c.code()),
                        None => engine_trick(g)[j] is None,
                    }),
                forall|j: int| 0 <= j < ti ==> (#[trigger] engine_trick(g)[j]) is None,
            decreases 4 - ti,
        {
            if trick[ti].is_some() {
                proof {
                    lemma_n_played_pos(engine_trick(g), ti as int);
                }
                return Err(EngineNotFresh);
            }
            ti += 1;
        }
        proof {
            lemma_n_played_zero(engine_trick(g));
        }
        let score = engine_score_of(&g);
        let cur = engine_current_player(&g);
        Ok(
            Orchestrator {
                engine: g,
                registry: CardRegistry::new(),
                sched: Scheduler::new(),
                state: GameState::Setup,
                score_board: score,
                restart_control: false,
                after_collect: AfterCollect::Freeze,
            },
        )
    }

    /// Deals the engine's hands onto the table: one entity per card, the
    /// point-of-view hand sorted by suit then rank and face up, the other
    /// hands in engine order and face down.  Then hands the turn to whoever
    /// the engine says moves first.
    pub fn deal(&mut self)
        requires
            old(self).wf(),
            old(self).state is Setup,
        ensures
            final(self).wf(),
            final(self).registry.entries@.len() == 40,
            forall|s: u8| s < 4 ==> n_in_hand_of(final(self).registry.entries@, s) == 10,
            n_in_trick(final(self).registry.entries@) == 0,
            n_gone(final(self).registry.entries@) == 0,
            n_selected(final(self).registry.entries@) == 0,
            sorted_for_display(hand_cards_of(final(self).registry.entries@, 0)),
            forall|s: u8|
                s < 4 ==> hand_cards_of(final(self).registry.entries@, s).to_multiset()
                    == cards_of_codes(engine_hand(old(self).engine, s as int)).to_multiset(),
            forall|i: int|
                0 <= i < 40 ==> {
                    let e = #[trigger] final(self).registry.entries@[i];
                    &&& e.id == i
                    &&& e.zone == (Zone::InHand { seat: (i / 10) as u8 })
                    &&& e.pos == crate::layout::hand_slot_spec(i % 10)
                    &&& e.face_up == (i < 10)
                    &&& !e.selected
                    &&& !e.marked
                },
            hands_distinct(old(self).engine) ==> forall|i: int, j: int|
                0 <= i < j < 40 ==> (#[trigger] final(self).registry.entries@[i]).value != (
                #[trigger] final(self).registry.entries@[j]).value,
            final(self).engine == old(self).engine,
            final(self).score_board == old(self).score_board,
            final(self).state is AwaitingPovInput || final(self).state is AwaitingAiMove,
            final(self).state is AwaitingPovInput <==> engine_current(old(self).engine) == 0,
    {
        let ghost g0 = self.engine;
        let ghost sb0 = self.score_board;
        let mut seat: u8 = 0;
        while seat < 4
            invariant
                seat <= 4,
                self.engine == g0,
                self.score_board == sb0,
                self.state == GameState::Setup,
                self.restart_control == false,
                self.sched.wf(),
                self.sched.tasks@.len() == 0,
                self.registry.wf(),
                engine_ongoing(g0),
                0 <= engine_current(g0) < 4,
                forall|s: int| 0 <= s < 4 ==> (#[trigger] engine_hand(g0, s)).len() == 10,
                forall|s: int| 0 <= s < 4 ==> hand_codes_ok(g0, s),
                self.registry.entries@.len() == 10 * seat,
                self.registry.next_id == 10 * seat,
                forall|s: u8| s < seat ==> n_in_hand_of(self.registry.entries@, s) == 10,
                forall|s: u8|
                    seat <= s < 4 ==> n_in_hand_of(self.registry.entries@, s) == 0,
                n_in_trick(self.registry.entries@) == 0,
                n_gone(self.registry.entries@) == 0,
                n_selected(self.registry.entries@) == 0,
                n_marked(self.registry.entries@) == 0,
                sorted_for_display(hand_cards_of(self.registry.entries@, 0)),
                forall|s: u8|
                    s < seat ==> hand_cards_of(self.registry.entries@, s).to_multiset()
                        == cards_of_codes(engine_hand(g0, s as int)).to_multiset(),
                forall|s: u8|
                    seat <= s < 4 ==> hand_cards_of(self.registry.entries@, s) == Seq::<
                        Card,
                    >::empty(),
                forall|i: int|
                    0 <= i < self.registry.entries@.len() ==> ((#[trigger] self.registry.entries@[i]).zone
                        == (Zone::InHand { seat: 0u8 }) ==> self.registry.entries@[i].pos.y == 0),
                forall|i: int|
                    0 <= i < self.registry.entries@.len() ==> !(
                    #[trigger] self.registry.entries@[i]).selected,
                forall|j: int|
                    0 <= j < self.registry.entries@.len() ==> {
                        let e = #[trigger] self.registry.entries@[j];
                        &&& e.id == j
                        &&& e.zone == (Zone::InHand { seat: (j / 10) as u8 })
                        &&& e.pos == crate::layout::hand_slot_spec(j % 10)
                        &&& e.face_up == (j < 10)
                        &&& !e.marked
                    },
            decreases 4 - seat,
        {
            let raw = engine_hand_cards(&self.engine, seat);
            let ghost raw0 = raw@;
            let cards = if seat == 0 {
                sort_for_display(&raw)
            } else {
                raw
            };
            proof {
                assert(cards@.len() == 10);
                assert(forall|i: int| 0 <= i < cards@.len() ==> (#[trigger] cards@[i]).valid());
                assert(raw0 =~= cards_of_codes(engine_hand(g0, seat as int))) by {
                    assert forall|ii: int| 0 <= ii < raw0.len() implies raw0[ii] == cards_of_codes(
                        engine_hand(g0, seat as int),
                    )[ii] by {
                        lemma_code_roundtrip(raw0[ii]);
                    }
                }
                assert(cards@.to_multiset() == raw0.to_multiset());
            }
            let mut i: usize = 0;
            while i < 10
                invariant
                    i <= 10,
                    cards@.len() == 10,
                    seat < 4,
                    self.engine == g0,
                    self.score_board == sb0,
                    self.state == GameState::Setup,
                    self.restart_control == false,
                    self.sched.wf(),
                    self.sched.tasks@.len() == 0,
                    self.registry.wf(),
                    forall|j: int| 0 <= j < cards@.len() ==> (#[trigger] cards@[j]).valid(),
                    seat == 0 ==> sorted_for_display(cards@),
                    self.registry.entries@.len() == 10 * seat + i,
                    self.registry.next_id == 10 * seat + i,
                    forall|s: u8| s < seat ==> n_in_hand_of(self.registry.entries@, s) == 10,
                    forall|s: u8|
                        seat < s < 4 ==> n_in_hand_of(self.registry.entries@, s) == 0,
                    n_in_hand_of(self.registry.entries@, seat) == i,
                    n_in_trick(self.registry.entries@) == 0,
                    n_gone(self.registry.entries@) == 0,
                    n_selected(self.registry.entries@) == 0,
                    n_marked(self.registry.entries@) == 0,
                    hand_cards_of(self.registry.entries@, seat) == cards@.take(i as int),
                    forall|s: u8|
                        s < seat ==> hand_cards_of(self.registry.entries@, s).to_multiset()
                            == cards_of_codes(engine_hand(g0, s as int)).to_multiset(),
                    forall|s: u8|
                        seat < s < 4 ==> hand_cards_of(self.registry.entries@, s) == Seq::<
                            Card,
                        >::empty(),
                    cards@.to_multiset() == cards_of_codes(engine_hand(g0, seat as int)).to_multiset(),
                    sorted_for_display(hand_cards_of(self.registry.entries@, 0)),
                    forall|ii: int|
                        0 <= ii < self.registry.entries@.len() ==> ((
                        #[trigger] self.registry.entries@[ii]).zone == (Zone::InHand { seat: 0u8 })
                            ==> self.registry.entries@[ii].pos.y == 0),
                    forall|ii: int|
                        0 <= ii < self.registry.entries@.len() ==> !(
                        #[trigger] self.registry.entries@[ii]).selected,
                    forall|j: int|
                        0 <= j < self.registry.entries@.len() ==> {
                            let e = #[trigger] self.registry.entries@[j];
                            &&& e.id == j
                            &&& e.zone == (Zone::InHand { seat: (j / 10) as u8 })
                            &&& e.pos == crate::layout::hand_slot_spec(j % 10)
                            &&& e.face_up == (j < 10)
                            &&& !e.marked
                        },
                decreases 10 - i,
            {
                let ghost before = self.registry.entries@;
                let pos = hand_slot(i);
                let c = cards[i];
                self.registry.spawn_in_hand(c, seat, pos, seat == 0);
                proof {
                    let e = self.registry.entries@.last();
                    lemma_hand_of_push(before, seat, e);
                    lemma_count_push(before, |x: CardEntry| x.zone is InTrick, e);
                    lemma_count_push(before, |x: CardEntry| x.zone is Gone, e);
                    lemma_count_push(before, |x: CardEntry| x.selected, e);
                    lemma_count_push(before, |x: CardEntry| x.marked, e);
                    lemma_hand_cards_push(before, seat, e);
                    assert forall|s: u8| s < 4 && s != seat implies #[trigger] n_in_hand_of(
                        self.registry.entries@,
                        s,
                    ) == n_in_hand_of(before, s) by {
                        lemma_hand_of_push(before, s, e);
                    }
                    assert forall|s: u8| s < 4 && s != seat implies #[trigger] hand_cards_of(
                        self.registry.entries@,
                        s,
                    ) == hand_cards_of(before, s) by {
                        lemma_hand_cards_push(before, s, e);
                    }
                    assert(hand_cards_of(self.registry.entries@, seat) =~= cards@.take(i + 1));
                    vstd::arithmetic::div_mod::lemma_fundamental_div_mod_converse(
                        10 * (seat as int) + i,
                        10,
                        seat as int,
                        i as int,
                    );
                }
                i += 1;
            }
            proof {
                assert(cards@.take(10) =~= cards@);
            }
            seat += 1;
        }
        let cur = engine_current_player(&self.engine);
        if cur == 0 {
            self.state = GameState::AwaitingPovInput;
        } else {
            self.state = GameState::AwaitingAiMove;
        }
        proof {
            if hands_distinct(g0) {
                assert forall|i: int, j: int| 0 <= i < j < 40 implies (
                #[trigger] self.registry.entries@[i]).value != (
                #[trigger] self.registry.entries@[j]).value by {
                    lemma_seat_index_bounds(i);
                    lemma_seat_index_bounds(j);
                    let si = (i / 10) as u8;
                    let sj = (j / 10) as u8;
                    let v = self.registry.entries@[i].value;
                    if v == self.registry.entries@[j].value {
                        if si == sj {
                            lemma_hand_cards_pair(self.registry.entries@, si, i, j);
                            lemma_decoded_hand_unique(g0, si as int);
                            assert(cards_of_codes(engine_hand(g0, si as int)).to_multiset().count(
                                v,
                            ) >= 2);
                        } else {
                            lemma_hand_cards_member(self.registry.entries@, si, i);
                            lemma_hand_cards_member(self.registry.entries@, sj, j);
                            lemma_shared_card_breaks_distinctness(g0, si as int, sj as int, v);
                        }
                    }
                }
            }
        }
    }

    /// Reacts to a click on the card entity `id`.
    ///
    /// Clicks are honored only while awaiting the point-of-view seat's
    /// input, and only on a card of that seat's hand: anything else is
    /// silently ignored, with no engine call and no state change.  A first
    /// click on an unselected card only raises it (dropping any other
    /// selection); a second click on the selected card attempts the play.
    /// A play the engine rejects changes nothing; an accepted play moves
    /// the card to the trick zone and starts its animation, whose
    /// continuation carries the engine's reported effect.
    pub fn handle_click(&mut self, id: u64) -> (r: ClickOutcome)
        requires
            old(self).wf(),
        ensures
            final(self).wf(),
            r is Ignored ==> *final(self) == *old(self),
            r is Rejected ==> *final(self) == *old(self),
            r is Ignored <==> !(old(self).state is AwaitingPovInput) || !pov_hand_entry(
                old(self).registry.entries@,
                id,
            ),
            r is Selected <==> old(self).state is AwaitingPovInput && pov_unselected_entry(
                old(self).registry.entries@,
                id,
            ),
            r is Played || r is Rejected <==> old(self).state is AwaitingPovInput
                && pov_selected_entry(old(self).registry.entries@, id),
            r is Played <==> old(self).state is AwaitingPovInput && pov_playable_click(
                *old(self),
                id,
            ),
            r is Selected ==> {
                &&& final(self).engine == old(self).engine
                &&& final(self).state == old(self).state
                &&& final(self).sched == old(self).sched
                &&& final(self).score_board == old(self).score_board
                &&& n_selected(final(self).registry.entries@) == 1
                &&& final(self).registry.entries@.len() == old(self).registry.entries@.len()
                &&& forall|i: int|
                    0 <= i < old(self).registry.entries@.len() ==> {
                        let eo = old(self).registry.entries@[i];
                        #[trigger] final(self).registry.entries@[i] == if eo.id == id {
                            CardEntry {
                                selected: true,
                                pos: Vec2i { x: eo.pos.x, y: (eo.pos.y + SELECT_RAISE) as i64 },
                                ..eo
                            }
                        } else if eo.selected {
                            CardEntry {
                                selected: false,
                                pos: Vec2i { x: eo.pos.x, y: (eo.pos.y - SELECT_RAISE) as i64 },
                                ..eo
                            }
                        } else {
                            eo
                        }
                    }
            },
            r is Played ==> {
                &&& final(self).state is AnimatingPlay
                &&& engine_moves(final(self).engine) == engine_moves(old(self).engine) + 1
                &&& final(self).sched.tasks@.len() == 1
                &&& final(self).sched.tasks@[0].card_id == id
                &&& final(self).sched.tasks@[0].effect is Some
                &&& final(self).sched.tasks@[0].target == crate::layout::trick_slot_spec(
                    crate::POV_SEAT,
                )
                &&& final(self).registry.entries@.len() == old(self).registry.entries@.len()
                &&& forall|i: int|
                    0 <= i < old(self).registry.entries@.len() ==> {
                        let eo = old(self).registry.entries@[i];
                        #[trigger] final(self).registry.entries@[i] == if eo.id == id {
                            CardEntry { zone: Zone::InTrick, selected: false, face_up: true, ..eo }
                        } else {
                            eo
                        }
                    }
                &&& n_in_hands(final(self).registry.entries@) == n_in_hands(
                    old(self).registry.entries@,
                ) - 1
                &&& n_in_trick(final(self).registry.entries@) == n_in_trick(
                    old(self).registry.entries@,
                ) + 1
            },
    {
        if !matches!(self.state, GameState::AwaitingPovInput) {
            return ClickOutcome::Ignored;
        }
        let idx_opt = self.registry.index_of(id);
        let idx: usize = match idx_opt {
            Some(i) => i,
            None => {
                proof {
                    assert(!pov_hand_entry(self.registry.entries@, id));
                }
                return ClickOutcome::Ignored;
            },
        };
        let e = self.registry.entry_at(idx);
        if !(matches!(e.zone, Zone::InHand { seat: 0 })) {
            proof {
                assert forall|i: int|
                    0 <= i < self.registry.entries@.len() && (
                    #[trigger] self.registry.entries@[i]).id == id implies !(
                self.registry.entries@[i].zone == (Zone::InHand { seat: 0u8 })) by {
                    assert(i == idx as int);
                }
                assert(!pov_hand_entry(self.registry.entries@, id));
            }
            return ClickOutcome::Ignored;
        }
        proof {
            assert(pov_hand_entry(self.registry.entries@, id));
            assert forall|i: int|
                0 <= i < self.registry.entries@.len() && (
                #[trigger] self.registry.entries@[i]).id == id implies i == idx as int by {}
        }
        if !e.selected {
            let ghost pre = self.registry.entries@;
            match self.registry.find_selected() {
                Some(j) => {
                    proof {
                        assert(j != idx);
                        lemma_count_pos(self.registry.entries@, |x: CardEntry| x.selected, j as int);
                        lemma_count_update(
                            self.registry.entries@,
                            |x: CardEntry| x.selected,
                            j as int,
                            CardEntry {
                                selected: false,
                                pos: Vec2i {
                                    x: self.registry.entries@[j as int].pos.x,
                                    y: (self.registry.entries@[j as int].pos.y - SELECT_RAISE)
                                        as i64,
                                },
                                ..self.registry.entries@[j as int]
                            },
                        );
                        lemma_count_bounds(self.registry.entries@, |x: CardEntry| x.selected);
                    }
                    self.registry.deselect_at(j);
                    proof {
                        lemma_selected_zero_pointwise(self.registry.entries@);
                    }
                },
                None => {},
            }
            proof {
                lemma_count_update(
                    self.registry.entries@,
                    |x: CardEntry| x.selected,
                    idx as int,
                    CardEntry {
                        selected: true,
                        pos: Vec2i {
                            x: self.registry.entries@[idx as int].pos.x,
                            y: (self.registry.entries@[idx as int].pos.y + SELECT_RAISE) as i64,
                        },
                        ..self.registry.entries@[idx as int]
                    },
                );
                lemma_count_zero(self.registry.entries@, |x: CardEntry| x.selected);
            }
            self.registry.select_at(idx);
            proof {
                lemma_count_pointwise(
                    self.registry.entries@,
                    old(self).registry.entries@,
                    |x: CardEntry| x.marked,
                    |x: CardEntry| x.marked,
                );
                lemma_count_pointwise(
                    self.registry.entries@,
                    old(self).registry.entries@,
                    |x: CardEntry| x.zone is InTrick,
                    |x: CardEntry| x.zone is InTrick,
                );
            }
            return ClickOutcome::Selected;
        }
        let t = to_engine_card(e.value);
        let res = engine_play(&mut self.engine, t);
        match res {
            Err(_) => {
                proof {
                    assert(*self == *old(self));
                }
                ClickOutcome::Rejected
            },
            Ok(eff) => {
                proof {
                    lemma_count_update(
                        self.registry.entries@,
                        |x: CardEntry| x.selected,
                        idx as int,
                        CardEntry {
                            zone: Zone::InTrick,
                            selected: false,
                            face_up: true,
                            ..self.registry.entries@[idx as int]
                        },
                    );
                    lemma_count_update(
                        self.registry.entries@,
                        |x: CardEntry| x.marked,
                        idx as int,
                        CardEntry {
                            zone: Zone::InTrick,
                            selected: false,
                            face_up: true,
                            ..self.registry.entries@[idx as int]
                        },
                    );
                    lemma_count_update(
                        self.registry.entries@,
                        |x: CardEntry| x.zone is InHand,
                        idx as int,
                        CardEntry {
                            zone: Zone::InTrick,
                            selected: false,
                            face_up: true,
                            ..self.registry.entries@[idx as int]
                        },
                    );
                    lemma_count_update(
                        self.registry.entries@,
                        |x: CardEntry| x.zone is InTrick,
                        idx as int,
                        CardEntry {
                            zone: Zone::InTrick,
                            selected: false,
                            face_up: true,
                            ..self.registry.entries@[idx as int]
                        },
                    );
                }
                self.registry.play_to_trick(idx);
                let target = trick_slot(0);
                let started = self.sched.start(
                    MovementTask { card_id: id, target, speed: PLAY_SPEED, effect: Some(eff) },
                );
                proof {
                    assert(started);
                }
                self.state = GameState::AnimatingPlay;
                proof {
                    assert(self.registry.entries@[idx as int].id == id);
                    assert(seq_has_id(self.registry.entries@, id));
                }
                ClickOutcome::Played
            },
        }
    }

    /// Plays the automated move for the current non-point-of-view seat:
    /// deterministically the first of the engine's legal cards, with no
    /// search.  The play is animated exactly as a clicked play is.
    ///
    /// An engine with no legal card, or a chosen card with no matching
    /// entity on the table, is a desynchronization between visual and
    /// logical state: fatal, reported as an error, nothing changed.
    pub fn ai_step(&mut self) -> (r: Result<(), Desync>)
        requires
            old(self).wf(),
            old(self).state is AwaitingAiMove,
        ensures
            final(self).wf(),
            r is Err ==> *final(self) == *old(self),
            r is Ok <==> engine_legal(old(self).engine).len() > 0 && hand_entity_with_code(
                old(self).registry.entries@,
                engine_current(old(self).engine),
                engine_legal(old(self).engine)[0],
            ),
            r is Ok ==> {
                &&& final(self).state is AnimatingPlay
                &&& engine_moves(final(self).engine) == engine_moves(old(self).engine) + 1
                &&& final(self).sched.tasks@.len() == 1
                &&& final(self).sched.tasks@[0].effect is Some
                &&& forall|i: int|
                    0 <= i < final(self).registry.entries@.len() && (
                    #[trigger] final(self).registry.entries@[i]).id == final(self).sched.tasks@[0].card_id ==> final(self).registry.entries@[i].zone is InTrick
                        && final(self).registry.entries@[i].value.code() == engine_legal(
                        old(self).engine,
                    )[0]
            },
    {
        let legal = engine_legal_cards(&self.engine);
        if legal.len() == 0 {
            return Err(Desync::NoLegalCard);
        }
        self.ai_play_nth(0)
    }

    /// Plays the automated move choosing the card by a caller-supplied
    /// strategy, without altering the surrounding state machine.
    pub fn ai_step_with<S: MoveStrategy>(&mut self, strategy: &mut S) -> (r: Result<(), Desync>)
        requires
            old(self).wf(),
            old(self).state is AwaitingAiMove,
        ensures
            final(self).wf(),
            r is Err ==> final(self).engine == old(self).engine && final(self).state == old(self).state
                && final(self).registry.entries@ == old(self).registry.entries@,
            r is Ok ==> {
                &&& final(self).state is AnimatingPlay
                &&& engine_moves(final(self).engine) == engine_moves(old(self).engine) + 1
                &&& forall|i: int|
                    0 <= i < final(self).registry.entries@.len() && (
                    #[trigger] final(self).registry.entries@[i]).id == final(self).sched.tasks@[0].card_id ==> final(self).registry.entries@[i].zone is InTrick
                        && engine_legal(old(self).engine).contains(
                        final(self).registry.entries@[i].value.code(),
                    )
            },
    {
        let legal = engine_legal_cards(&self.engine);
        if legal.len() == 0 {
            return Err(Desync::NoLegalCard);
        }
        let k = strategy.pick(&legal);
        proof {
            assert(engine_legal(self.engine).contains(engine_legal(self.engine)[k as int]));
        }
        self.ai_play_nth(k)
    }

    /// Plays the `k`-th of the engine's legal cards for the current
    /// automated seat.
    pub fn ai_play_nth(&mut self, k: usize) -> (r: Result<(), Desync>)
        requires
            old(self).wf(),
            old(self).state is AwaitingAiMove,
            k < engine_legal(old(self).engine).len(),
        ensures
            final(self).wf(),
            r is Err ==> *final(self) == *old(self),
            r is Ok <==> hand_entity_with_code(
                old(self).registry.entries@,
                engine_current(old(self).engine),
                engine_legal(old(self).engine)[k as int],
            ),
            r is Ok ==> {
                &&& final(self).state is AnimatingPlay
                &&& engine_moves(final(self).engine) == engine_moves(old(self).engine) + 1
                &&& final(self).sched.tasks@.len() == 1
                &&& final(self).sched.tasks@[0].effect is Some
                &&& final(self).sched.tasks@[0].target == crate::layout::trick_slot_spec(
                    engine_current(old(self).engine) as u8,
                )
                &&& final(self).registry.entries@.len() == old(self).registry.entries@.len()
                &&& forall|i: int|
                    0 <= i < old(self).registry.entries@.len() ==> {
                        let eo = old(self).registry.entries@[i];
                        #[trigger] final(self).registry.entries@[i] == if eo.id == final(self).sched.tasks@[0].card_id {
                            CardEntry { zone: Zone::InTrick, selected: false, face_up: true, ..eo }
                        } else {
                            eo
                        }
                    }
                &&& n_in_hands(final(self).registry.entries@) == n_in_hands(
                    old(self).registry.entries@,
                ) - 1
                &&& n_in_trick(final(self).registry.entries@) == n_in_trick(
                    old(self).registry.entries@,
                ) + 1
                &&& forall|i: int|
                    0 <= i < final(self).registry.entries@.len() && (
                    #[trigger] final(self).registry.entries@[i]).id == final(self).sched.tasks@[0].card_id ==> final(self).registry.entries@[i].zone is InTrick
                        && final(self).registry.entries@[i].value.code() == engine_legal(
                        old(self).engine,
                    )[k as int]
            },
    {
        let legal = engine_legal_cards(&self.engine);
        let c = legal[k];
        let cur = engine_current_player(&self.engine);
        let idx_opt = self.registry.find_in_hand(cur, c);
        let idx: usize = match idx_opt {
            Some(i) => i,
            None => {
                proof {
                    assert forall|i: int|
                        0 <= i < self.registry.entries@.len() && ((
                        #[trigger] self.registry.entries@[i]).zone matches Zone::InHand {
                            seat: sv,
                        } && sv as int == engine_current(self.engine)) implies !(
                    self.registry.entries@[i].value.code() == engine_legal(self.engine)[k as int]) by {
                        if self.registry.entries@[i].value.code() == engine_legal(self.engine)[k as int] {
                            crate::card::lemma_code_injective(
                                self.registry.entries@[i].value,
                                c,
                            );
                        }
                    }
                    assert(!hand_entity_with_code(
                        self.registry.entries@,
                        engine_current(self.engine),
                        engine_legal(self.engine)[k as int],
                    ));
                }
                return Err(Desync::MissingEntity);
            },
        };
        let ent = self.registry.entry_at(idx);
        let id = ent.id;
        proof {
            assert(hand_entity_with_code(
                self.registry.entries@,
                engine_current(self.engine),
                engine_legal(self.engine)[k as int],
            ));
            assert(engine_legal(self.engine).contains(engine_legal(self.engine)[k as int]));
            assert forall|i: int|
                0 <= i < self.registry.entries@.len() && (
                #[trigger] self.registry.entries@[i]).id == id implies i == idx as int by {}
        }
        let t = to_engine_card(c);
        let res = engine_play(&mut self.engine, t);
        let eff = match res {
            Ok(e) => e,
            Err(_) => {
                proof {
                    assert(false);
                }
                return Err(Desync::NoLegalCard);
            },
        };
        proof {
            lemma_count_update(
                self.registry.entries@,
                |x: CardEntry| x.selected,
                idx as int,
                CardEntry {
                    zone: Zone::InTrick,
                    selected: false,
                    face_up: true,
                    ..self.registry.entries@[idx as int]
                },
            );
            lemma_count_update(
                self.registry.entries@,
                |x: CardEntry| x.marked,
                idx as int,
                CardEntry {
                    zone: Zone::InTrick,
                    selected: false,
                    face_up: true,
                    ..self.registry.entries@[idx as int]
                },
            );
            lemma_count_update(
                self.registry.entries@,
                |x: CardEntry| x.zone is InHand,
                idx as int,
                CardEntry {
                    zone: Zone::InTrick,
                    selected: false,
                    face_up: true,
                    ..self.registry.entries@[idx as int]
                },
            );
            lemma_count_update(
                self.registry.entries@,
                |x: CardEntry| x.zone is InTrick,
                idx as int,
                CardEntry {
                    zone: Zone::InTrick,
                    selected: false,
                    face_up: true,
                    ..self.registry.entries@[idx as int]
                },
            );
            lemma_count_bounds(self.registry.entries@, |x: CardEntry| x.selected);
        }
        self.registry.play_to_trick(idx);
        let target = trick_slot(cur);
        let started = self.sched.start(
            MovementTask { card_id: id, target, speed: PLAY_SPEED, effect: Some(eff) },
        );
        proof {
            assert(started);
        }
        self.state = GameState::AnimatingPlay;
        proof {
            assert(self.registry.entries@[idx as int].id == id);
            assert(seq_has_id(self.registry.entries@, id));
        }
        Ok(())
    }

    /// Interprets the effect of the play whose animation just completed,
    /// scheduling its consequences: the next turn, the trick collection,
    /// the score update, or the end of the game.
    fn resolve(&mut self, e: Effect)
        requires
            old(self).wf(),
            old(self).state is ResolvingEffect,
            e.wf(),
            pending_ok(old(self).engine, e),
            !(e is HandComplete || e is GameOver) ==> old(self).board_synced(),
            e is CardPlayed ==> n_in_trick(old(self).registry.entries@) == n_played(
                engine_trick(old(self).engine),
            ),
            !(e is CardPlayed) ==> n_in_trick(old(self).registry.entries@) == 4,
        ensures
            final(self).wf(),
            final(self).engine == old(self).engine,
            final(self).registry.entries@.len() == old(self).registry.entries@.len(),
            final(self).sched.tasks@.len() == 0,
            forall|i: int|
                0 <= i < final(self).registry.entries@.len() ==> {
                    let en = #[trigger] final(self).registry.entries@[i];
                    let eo = old(self).registry.entries@[i];
                    en.id == eo.id && en.value == eo.value && en.zone == eo.zone && en.pos
                        == eo.pos && en.selected == eo.selected && en.face_up == eo.face_up
                },
            e is CardPlayed ==> (final(self).state is AwaitingPovInput <==> engine_current(
                old(self).engine,
            ) == 0) && (final(self).state is AwaitingPovInput
                || final(self).state is AwaitingAiMove) && final(self).score_board == old(self).score_board,
            e matches Effect::TrickCompleted { winner } ==> final(self).state is CollectingTrick
                && final(self).after_collect == (AfterCollect::NextTurn { winner }) && n_marked(
                final(self).registry.entries@,
            ) == 4 && final(self).score_board == old(self).score_board,
            e matches Effect::HandComplete { winner, score } ==> final(self).state is CollectingTrick && final(self).after_collect == AfterCollect::Redeal
                && final(self).score_board == score && n_marked(final(self).registry.entries@)
                == 4,
            e matches Effect::GameOver { winner, final_score } ==> final(self).state is CollectingTrick && final(self).after_collect == AfterCollect::Freeze
                && final(self).score_board == final_score && n_marked(
                final(self).registry.entries@,
            ) == 4,
    {
        match e {
            Effect::CardPlayed => {
                let cur = engine_current_player(&self.engine);
                if cur == 0 {
                    self.state = GameState::AwaitingPovInput;
                } else {
                    self.state = GameState::AwaitingAiMove;
                }
            },
            Effect::TrickCompleted { winner } => {
                self.registry.mark_trick();
                self.after_collect = AfterCollect::NextTurn { winner };
                self.state = GameState::CollectingTrick;
                proof {
                    lemma_count_pointwise(
                        self.registry.entries@,
                        old(self).registry.entries@,
                        |x: CardEntry| x.selected,
                        |x: CardEntry| x.selected,
                    );
                    lemma_count_pointwise(
                        self.registry.entries@,
                        old(self).registry.entries@,
                        |x: CardEntry| x.zone is InTrick,
                        |x: CardEntry| x.zone is InTrick,
                    );
                }
            },
            Effect::HandComplete { winner, score } => {
                self.score_board = score;
                self.registry.mark_trick();
                self.after_collect = AfterCollect::Redeal;
                self.state = GameState::CollectingTrick;
                proof {
                    lemma_count_pointwise(
                        self.registry.entries@,
                        old(self).registry.entries@,
                        |x: CardEntry| x.selected,
                        |x: CardEntry| x.selected,
                    );
                    lemma_count_pointwise(
                        self.registry.entries@,
                        old(self).registry.entries@,
                        |x: CardEntry| x.zone is InTrick,
                        |x: CardEntry| x.zone is InTrick,
                    );
                }
            },
            Effect::GameOver { winner, final_score } => {
                self.score_board = final_score;
                self.registry.mark_trick();
                self.after_collect = AfterCollect::Freeze;
                self.state = GameState::CollectingTrick;
                proof {
                    lemma_count_pointwise(
                        self.registry.entries@,
                        old(self).registry.entries@,
                        |x: CardEntry| x.selected,
                        |x: CardEntry| x.selected,
                    );
                    lemma_count_pointwise(
                        self.registry.entries@,
                        old(self).registry.entries@,
                        |x: CardEntry| x.zone is InTrick,
                        |x: CardEntry| x.zone is InTrick,
                    );
                }
            },
        }
    }

    /// Advances every in-flight movement by `dt` milliseconds of real time.
    ///
    /// If the play's movement reaches its target, the card's position is
    /// snapped exactly onto it, the task is removed, and its deferred
    /// continuation — the engine's effect — is resolved within this tick.
    pub fn tick(&mut self, dt: u32)
        requires
            old(self).wf(),
            dt <= crate::sched::MAX_TICK_MS,
        ensures
            final(self).wf(),
            final(self).sched.tasks@ == remaining_tasks(
                old(self).sched.tasks@,
                old(self).registry.entries@,
                dt,
            ),
            final(self).registry.entries@.len() == old(self).registry.entries@.len(),
            forall|i: int|
                0 <= i < old(self).registry.entries@.len() ==> {
                    let eo = old(self).registry.entries@[i];
                    let en = #[trigger] final(self).registry.entries@[i];
                    &&& en.id == eo.id
                    &&& en.value == eo.value
                    &&& en.zone == eo.zone
                    &&& en.face_up == eo.face_up
                    &&& en.selected == eo.selected
                    &&& if has_task(old(self).sched.tasks@, eo.id) {
                        let t = old(self).sched.tasks@[task_index(old(self).sched.tasks@, eo.id)];
                        if task_arrives(t, eo.pos, dt) {
                            en.pos == t.target
                        } else {
                            crate::geom::in_box(eo.pos, t.target, en.pos) && l1_dist(
                                en.pos,
                                t.target,
                            ) + travel_amount(t.speed, dt) <= l1_dist(eo.pos, t.target) + 1
                        }
                    } else {
                        en.pos == eo.pos
                    }
                },
            !(old(self).state is AnimatingPlay) ==> {
                &&& final(self).registry.entries@ == old(self).registry.entries@
                &&& final(self).state == old(self).state
                &&& final(self).engine == old(self).engine
                &&& final(self).score_board == old(self).score_board
                &&& final(self).sched.tasks@ == old(self).sched.tasks@
            },
            old(self).state is AnimatingPlay && final(self).sched.tasks@.len() == 1 ==> {
                &&& final(self).state == old(self).state
                &&& final(self).engine == old(self).engine
                &&& final(self).sched.tasks@ == old(self).sched.tasks@
                &&& final(self).score_board == old(self).score_board
            },
            old(self).state is AnimatingPlay && final(self).sched.tasks@.len() == 0 ==> {
                &&& final(self).engine == old(self).engine
                &&& (forall|i: int|
                    0 <= i < final(self).registry.entries@.len() && (
                    #[trigger] final(self).registry.entries@[i]).id == old(self).sched.tasks@[0].card_id ==> final(self).registry.entries@[i].pos == old(self).sched.tasks@[0].target)
                &&& (old(self).sched.tasks@[0].effect matches Some(e) && match e {
                    Effect::CardPlayed => (final(self).state is AwaitingPovInput
                        <==> engine_current(old(self).engine) == 0) && (final(self).state is AwaitingPovInput || final(self).state is AwaitingAiMove) && final(self).score_board == old(self).score_board,
                    Effect::TrickCompleted { winner } => final(self).state is CollectingTrick
                        && final(self).after_collect == (AfterCollect::NextTurn { winner }),
                    Effect::HandComplete { winner, score } => final(self).state is CollectingTrick && final(self).after_collect
                        == AfterCollect::Redeal && final(self).score_board == score,
                    Effect::GameOver { winner, final_score } => final(self).state is CollectingTrick && final(self).after_collect
                        == AfterCollect::Freeze && final(self).score_board == final_score,
                })
            },
    {
        let ghost pre = *self;
        let fired = self.sched.tick(&mut self.registry, dt);
        proof {
            if pre.state is AnimatingPlay {
                let ts0 = pre.sched.tasks@;
                let s0 = pre.registry.entries@;
                assert(ts0.len() == 1);
                let tdl = ts0.drop_last();
                assert(tdl.len() == 0);
                assert(fired_effects(tdl, s0, dt) == Seq::<Effect>::empty());
                assert(remaining_tasks(tdl, s0, dt) == Seq::<MovementTask>::empty());
                assert(ts0.last() == ts0[0]);
                lemma_count_pointwise(
                    self.registry.entries@,
                    s0,
                    |x: CardEntry| x.marked,
                    |x: CardEntry| x.marked,
                );
                lemma_count_pointwise(
                    self.registry.entries@,
                    s0,
                    |x: CardEntry| x.selected,
                    |x: CardEntry| x.selected,
                );
                lemma_count_pointwise(
                    self.registry.entries@,
                    s0,
                    |x: CardEntry| x.zone is InTrick,
                    |x: CardEntry| x.zone is InTrick,
                );
                assert forall|idc: u64| seq_has_id(s0, idc) implies seq_has_id(
                    self.registry.entries@,
                    idc,
                ) by {
                    let wi = choose|i: int| 0 <= i < s0.len() && (#[trigger] s0[i]).id == idc;
                    assert(self.registry.entries@[wi].id == s0[wi].id);
                }
            } else {
                assert(pre.sched.tasks@.len() == 0);
                assert(self.registry.entries@ =~= pre.registry.entries@) by {
                    assert(forall|i: int|
                        0 <= i < self.registry.entries@.len() ==> #[trigger] self.registry.entries@[i]
                            == pre.registry.entries@[i]);
                }
            }
        }
        if fired.len() > 0 {
            let eff = fired[0];
            proof {
                assert(pre.state is AnimatingPlay);
                lemma_count_pointwise(
                    self.registry.entries@,
                    pre.registry.entries@,
                    |x: CardEntry| x.marked,
                    |x: CardEntry| x.marked,
                );
                lemma_count_pointwise(
                    self.registry.entries@,
                    pre.registry.entries@,
                    |x: CardEntry| x.selected,
                    |x: CardEntry| x.selected,
                );
                lemma_count_pointwise(
                    self.registry.entries@,
                    pre.registry.entries@,
                    |x: CardEntry| x.zone is InTrick,
                    |x: CardEntry| x.zone is InTrick,
                );
                assert(pre.sched.tasks@[0].effect == Some(eff));
                assert(self.sched.tasks@.len() == 0);
                assert(pending_ok(self.engine, eff));
            }
            self.state = GameState::ResolvingEffect;
            self.resolve(eff);
        }
    }

    /// Sweeps the marked trick cards off the table — the end-of-cycle phase
    /// of the two-phase despawn — and then either hands the turn to the
    /// trick's winner, returns to `Setup` for the fresh deal the engine
    /// already holds, or freezes in `GameOver` with the restart control
    /// spawned.
    pub fn collect(&mut self)
        requires
            old(self).wf(),
            old(self).state is CollectingTrick,
        ensures
            final(self).wf(),
            final(self).engine == old(self).engine,
            n_in_trick(final(self).registry.entries@) == 0,
            old(self).after_collect matches AfterCollect::NextTurn { winner } ==> {
                &&& (final(self).state is AwaitingPovInput <==> winner == 0)
                &&& (final(self).state is AwaitingPovInput || final(self).state is AwaitingAiMove)
                &&& final(self).registry.entries@.len() == 40
                &&& n_gone(final(self).registry.entries@) == n_gone(old(self).registry.entries@)
                    + 4
            },
            old(self).after_collect is Redeal ==> final(self).state is Setup && final(self).registry.entries@.len() == 0,
            old(self).after_collect is Freeze ==> final(self).state is GameOver && final(self).restart_control && n_gone(final(self).registry.entries@) == n_gone(
                old(self).registry.entries@,
            ) + 4,
            final(self).score_board == old(self).score_board,
    {
        proof {
            lemma_count_pointwise(
                self.registry.entries@,
                self.registry.entries@,
                |x: CardEntry| x.marked,
                |x: CardEntry| x.zone is InTrick,
            );
        }
        self.registry.sweep();
        proof {
            assert forall|i: int|
                0 <= i < self.registry.entries@.len() implies !((
            #[trigger] self.registry.entries@[i]).zone is InTrick) by {
                assert(old(self).registry.entries@[i].zone is InTrick ==> old(self).registry.entries@[i].marked);
            }
            lemma_count_zero(self.registry.entries@, |x: CardEntry| x.zone is InTrick);
            lemma_count_pointwise(
                self.registry.entries@,
                old(self).registry.entries@,
                |x: CardEntry| x.selected,
                |x: CardEntry| x.selected,
            );
        }
        match self.after_collect {
            AfterCollect::NextTurn { winner } => {
                if winner == 0 {
                    self.state = GameState::AwaitingPovInput;
                } else {
                    self.state = GameState::AwaitingAiMove;
                }
            },
            AfterCollect::Redeal => {
                self.registry.clear();
                self.state = GameState::Setup;
            },
            AfterCollect::Freeze => {
                self.state = GameState::GameOver;
                self.restart_control = true;
            },
        }
    }

    /// Reacts to the restart control: clears every card entity, starts a
    /// fresh engine, resets the score display to zero, and returns to
    /// `Setup`.
    pub fn activate_restart(&mut self)
        requires
            old(self).wf(),
            old(self).state is GameOver,
        ensures
            final(self).wf(),
            final(self).state is Setup,
            final(self).registry.entries@.len() == 0,
            final(self).score_board == (Score { team02: 0, team13: 0 }),
            !final(self).restart_control,
            engine_moves(final(self).engine) == 0,
    {
        self.registry.clear();
        self.engine = engine_new();
        proof {
            lemma_n_played_zero(engine_trick(self.engine));
        }
        self.score_board = Score { team02: 0, team13: 0 };
        self.restart_control = false;
        self.state = GameState::Setup;
    }
}

/// A table index in `0..40` belongs to the seat of its ten-card block.
proof fn lemma_seat_index_bounds(i: int)
    requires
        0 <= i < 40,
    ensures
        0 <= i / 10 < 4,
{
    vstd::arithmetic::div_mod::lemma_div_pos_is_pos(i, 10);
    vstd::arithmetic::div_mod::lemma_div_is_ordered(i, 39, 10);
    assert(39int == 10 * 3 + 9);
    vstd::arithmetic::div_mod::lemma_fundamental_div_mod_converse(39, 10, 3, 9);
}

/// A hand dealt without replacement decodes to a sequence without
/// duplicates, so its card multiset counts nothing twice.
proof fn lemma_decoded_hand_unique(g: Game, s: int)
    requires
        0 <= s < 4,
        hand_codes_ok(g, s),
        hands_distinct(g),
    ensures
        forall|v: Card| #[trigger] cards_of_codes(engine_hand(g, s)).to_multiset().count(v) <= 1,
{
    broadcast use vstd::seq_lib::group_to_multiset_ensures;

    let d = cards_of_codes(engine_hand(g, s));
    assert forall|a: int, b: int|
        0 <= a < d.len() && 0 <= b < d.len() && a != b implies d[a] != d[b] by {
        lemma_card_of_code_inverse(engine_hand(g, s)[a]);
        lemma_card_of_code_inverse(engine_hand(g, s)[b]);
        assert(engine_hand(g, s)[a] != engine_hand(g, s)[b]);
        if d[a] == d[b] {
            assert(d[a].code() == d[b].code());
        }
    }
    assert(d.no_duplicates());
    d.lemma_multiset_has_no_duplicates();
    assert forall|v: Card| #[trigger] d.to_multiset().count(v) <= 1 by {
        if d.to_multiset().count(v) > 1 {
            assert(d.to_multiset().contains(v));
        }
    }
}

/// A card decoded from two different seats' hands witnesses a code dealt
/// twice: such a deal was not drawn without replacement.
proof fn lemma_shared_card_breaks_distinctness(g: Game, s1: int, s2: int, v: Card)
    requires
        0 <= s1 < 4,
        0 <= s2 < 4,
        s1 != s2,
        hand_codes_ok(g, s1),
        hand_codes_ok(g, s2),
        cards_of_codes(engine_hand(g, s1)).to_multiset().count(v) >= 1,
        cards_of_codes(engine_hand(g, s2)).to_multiset().count(v) >= 1,
    ensures
        !hands_distinct(g),
{
    broadcast use vstd::seq_lib::group_to_multiset_ensures;

    let d1 = cards_of_codes(engine_hand(g, s1));
    let d2 = cards_of_codes(engine_hand(g, s2));
    assert(d1.contains(v));
    assert(d2.contains(v));
    let a1 = choose|i: int| 0 <= i < d1.len() && d1[i] == v;
    let a2 = choose|i: int| 0 <= i < d2.len() && d2[i] == v;
    lemma_card_of_code_inverse(engine_hand(g, s1)[a1]);
    lemma_card_of_code_inverse(engine_hand(g, s2)[a2]);
    assert(engine_hand(g, s1)[a1] == v.code());
    assert(engine_hand(g, s2)[a2] == v.code());
    if hands_distinct(g) {
        assert(engine_hand(g, s1)[a1] != engine_hand(g, s2)[a2]);
    }
}

/// Conservation: once dealt, the cards in hands, in the trick zone, and
/// despawned always add up to the deck size.
pub proof fn lemma_card_conservation(o: Orchestrator)
    requires
        o.wf(),
        !(o.state is Setup),
    ensures
        n_in_hands(o.registry.entries@) + n_in_trick(o.registry.entries@) + n_gone(
            o.registry.entries@,
        ) == crate::DECK_SIZE,
{
    lemma_zone_partition(o.registry.entries@);
}

/// The states that accept input never coincide with an outstanding
/// movement task.
pub proof fn lemma_input_states_quiescent(o: Orchestrator)
    requires
        o.wf(),
        o.state is AwaitingPovInput || o.state is AwaitingAiMove,
    ensures
        o.sched.tasks@.len() == 0,
{
}

/// At most one movement task exists per card entity at any time; the
/// scheduler's `start` contract shows that attempting a second one is
/// rejected.
pub proof fn lemma_one_task_per_card(o: Orchestrator)
    requires
        o.wf(),
    ensures
        forall|a: int, b: int|
            0 <= a < b < o.sched.tasks@.len() ==> (#[trigger] o.sched.tasks@[a]).card_id != (
            #[trigger] o.sched.tasks@[b]).card_id,
{
}

impl Orchestrator {
    /// The open trick as the engine reports it: one optional card per seat.
    pub fn trick_cards(&self) -> (r: Vec<Option<Card>>)
        ensures
            r@.len() == 4,
            forall|i: int|
                0 <= i < 4 ==> ((#[trigger] r@[i]) matches Some(c) ==> c.valid() && engine_trick(
                    self.engine,
                )[i] == Some(c.code())),
            forall|i: int| 0 <= i < 4 ==> ((#[trigger] r@[i]) is None ==> engine_trick(self.engine)[i] is None),
    {
        engine_trick_cards(&self.engine)
    }

    /// The seat that led the open trick.
    pub fn trick_leader(&self) -> (r: u8)
        requires
            self.wf(),
        ensures
            r < 4,
            r as int == engine_leader(self.engine),
    {
        engine_trick_leader(&self.engine)
    }

    /// How many moves the engine has resolved so far.
    pub fn moves_made(&self) -> (r: usize)
        ensures
            r as nat == engine_moves(self.engine),
    {
        engine_moves_count(&self.engine)
    }

    /// The score label currently shown: the running score, or the final
    /// score once the game is over.
    pub fn score_line(&self) -> (r: String)
        ensures
            self.state is GameOver ==> r@ == final_score_text(self.score_board),
            !(self.state is GameOver) ==> r@ == score_text(self.score_board),
    {
        if matches!(self.state, GameState::GameOver) {
            final_score_line(self.score_board)
        } else {
            running_score_line(self.score_board)
        }
    }
}

} // verus!
