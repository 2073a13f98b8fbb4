//! Scenario tests on a deterministically constructed engine, so that every
//! expected value is exact.

use shuftle_client_core::effect::Score;
use shuftle_client_core::orchestrator::{ClickOutcome, Desync, GameState, Orchestrator};
use shuftle_client_core::registry::Zone;
use shuftle_client_core::text::running_score_line;
use shuftlib::tressette::{Game, TressetteCard, TressetteRules};
use shuftlib::trick_taking::{OngoingHand, OngoingTrick, Player, PlayerId};

/// A game dealt round-robin from the fixed suit/rank enumeration, with no
/// shuffle: seat `k` holds the cards at positions `k, k+4, k+8, ...`.
fn fixed_game(dealing: PlayerId) -> Game {
    let mut players = [
        Player::<TressetteRules>::new(PlayerId::PLAYER_0),
        Player::new(PlayerId::PLAYER_1),
        Player::new(PlayerId::PLAYER_2),
        Player::new(PlayerId::PLAYER_3),
    ];
    let suits = [
        shuftlib::core::Suit::Hearts,
        shuftlib::core::Suit::Diamonds,
        shuftlib::core::Suit::Clubs,
        shuftlib::core::Suit::Spades,
    ];
    let mut i = 0usize;
    for suit in suits {
        for r in 1u8..=10 {
            let rank = shuftlib::core::italian::ItalianRank::from_repr(r).unwrap();
            players[i % 4].give(TressetteCard::new(rank, suit));
            i += 1;
        }
    }
    let mut current_hand = OngoingHand::new();
    current_hand.set_current_trick(Some(OngoingTrick::new(dealing + 1usize)));
    Game::builder()
        .deck(shuftlib::core::deck::Deck::<TressetteCard>::new())
        .players(players)
        .current_hand(current_hand)
        .dealing_player(dealing)
        .score((0, 0))
        .completed_hands(Vec::new())
        .history(Vec::new())
        .build()
}

/// An orchestrator on the fixed deal, with the point-of-view seat leading.
fn pov_leads() -> Orchestrator {
    let mut o = Orchestrator::with_engine(fixed_game(PlayerId::PLAYER_3)).expect("fresh deal");
    o.deal();
    assert_eq!(o.state, GameState::AwaitingPovInput);
    o
}

fn entity_id_of(o: &Orchestrator, suit: u8, rank: u8) -> u64 {
    o.registry
        .entries
        .iter()
        .find(|e| e.value.suit == suit && e.value.rank == rank && e.zone == Zone::InHand { seat: 0 })
        .expect("card not in point-of-view hand")
        .id
}

fn run_until_input_or_over(o: &mut Orchestrator) {
    loop {
        match o.state {
            GameState::Setup => o.deal(),
            GameState::AwaitingAiMove => o.ai_step().expect("ai move failed"),
            GameState::AnimatingPlay => o.tick(60000),
            GameState::CollectingTrick => o.collect(),
            _ => return,
        }
    }
}

fn click_pov_first_legal(o: &mut Orchestrator) {
    let legal = shuftle_client_core::engine::engine_legal_cards(&o.engine);
    let c = legal[0];
    let id = entity_id_of(o, c.suit, c.rank);
    assert_eq!(o.handle_click(id), ClickOutcome::Selected);
    assert_eq!(o.handle_click(id), ClickOutcome::Played);
}

fn run_to_game_over(o: &mut Orchestrator) {
    let mut steps = 0u32;
    while o.state != GameState::GameOver {
        match o.state {
            GameState::AwaitingPovInput => click_pov_first_legal(o),
            _ => run_until_input_or_over(o),
        }
        steps += 1;
        assert!(steps < 100000, "game did not terminate");
    }
}

#[test]
fn pov_hand_is_sorted_by_suit_then_rank() {
    let o = pov_leads();
    let hand: Vec<(u8, u8)> = o
        .registry
        .entries
        .iter()
        .filter(|e| e.zone == Zone::InHand { seat: 0 })
        .map(|e| (e.value.suit, e.value.rank))
        .collect();
    // Seat 0 holds positions 0, 4, 8, ... of the fixed enumeration, sorted
    // for display by suit, then rank.
    assert_eq!(
        hand,
        vec![(0, 1), (0, 5), (0, 9), (1, 3), (1, 7), (2, 1), (2, 5), (2, 9), (3, 3), (3, 7)]
    );
    for (i, e) in o
        .registry
        .entries
        .iter()
        .filter(|e| e.zone == Zone::InHand { seat: 0 })
        .enumerate()
    {
        assert_eq!(e.pos.x, 50000 * i as i64);
        assert_eq!(e.pos.y, 0);
        assert!(e.face_up);
    }
    // The other hands stay in engine order, face down.
    let seat1: Vec<(u8, u8)> = o
        .registry
        .entries
        .iter()
        .filter(|e| e.zone == Zone::InHand { seat: 1 })
        .map(|e| {
            assert!(!e.face_up);
            (e.value.suit, e.value.rank)
        })
        .collect();
    assert_eq!(
        seat1,
        vec![(0, 2), (0, 6), (0, 10), (1, 4), (1, 8), (2, 2), (2, 6), (2, 10), (3, 4), (3, 8)]
    );
    // The forty dealt cards are pairwise distinct.
    for a in 0..o.registry.entries.len() {
        for b in a + 1..o.registry.entries.len() {
            assert_ne!(o.registry.entries[a].value, o.registry.entries[b].value);
        }
    }
}

#[test]
fn first_click_selects_without_engine_call_second_click_plays() {
    let mut o = pov_leads();
    let id = entity_id_of(&o, 0, 1);
    let moves_before = o.moves_made();
    assert_eq!(o.handle_click(id), ClickOutcome::Selected);
    assert_eq!(o.moves_made(), moves_before, "selection must not call the engine");
    let e = o.registry.entries.iter().find(|e| e.id == id).unwrap();
    assert!(e.selected);
    assert_eq!(e.pos.y, 50000, "selection offset");
    assert_eq!(o.state, GameState::AwaitingPovInput);

    assert_eq!(o.handle_click(id), ClickOutcome::Played);
    assert_eq!(o.moves_made(), moves_before + 1);
    assert_eq!(o.state, GameState::AnimatingPlay);
    let e = o.registry.entries.iter().find(|e| e.id == id).unwrap();
    assert_eq!(e.zone, Zone::InTrick);
    assert!(!e.selected);

    // One short tick: still animating, position strictly between start and
    // target.
    o.tick(1);
    assert_eq!(o.state, GameState::AnimatingPlay);
    // A generous tick arrives: the position equals the target exactly and
    // the effect advances the turn to the first automated seat.
    o.tick(60000);
    let e = o.registry.entries.iter().find(|e| e.id == id).unwrap();
    assert_eq!((e.pos.x, e.pos.y), (0, -60000), "snapped exactly onto the trick slot");
    assert_eq!(o.state, GameState::AwaitingAiMove);
}

#[test]
fn clicking_another_card_moves_the_selection() {
    let mut o = pov_leads();
    let first = entity_id_of(&o, 0, 1);
    let second = entity_id_of(&o, 1, 3);
    let moves_before = o.moves_made();
    assert_eq!(o.handle_click(first), ClickOutcome::Selected);
    assert_eq!(o.handle_click(second), ClickOutcome::Selected);
    let e1 = o.registry.entries.iter().find(|e| e.id == first).unwrap();
    let e2 = o.registry.entries.iter().find(|e| e.id == second).unwrap();
    assert!(!e1.selected, "first selection dropped");
    assert_eq!(e1.pos.y, 0, "selection offset reversed");
    assert!(e2.selected);
    assert_eq!(e2.pos.y, 50000);
    assert_eq!(o.moves_made(), moves_before, "no engine call either time");
}

#[test]
fn clicks_are_ignored_in_the_wrong_phase_or_on_foreign_cards() {
    let mut o = pov_leads();
    // A card of another seat's hand.
    let foreign = o
        .registry
        .entries
        .iter()
        .find(|e| e.zone == Zone::InHand { seat: 1 })
        .unwrap()
        .id;
    assert_eq!(o.handle_click(foreign), ClickOutcome::Ignored);
    // An unknown entity.
    assert_eq!(o.handle_click(999999), ClickOutcome::Ignored);
    // The right card, but while its own play is animating.
    click_pov_first_legal(&mut o);
    assert_eq!(o.state, GameState::AnimatingPlay);
    let any = o.registry.entries.iter().find(|e| e.zone == Zone::InHand { seat: 0 }).unwrap().id;
    assert_eq!(o.handle_click(any), ClickOutcome::Ignored);
}

#[test]
fn play_that_breaks_suit_is_rejected_and_changes_nothing() {
    // Seat 0 deals, so seat 1 leads with Two of Hearts; the point-of-view
    // seat holds Hearts and must follow suit.
    let mut o = Orchestrator::with_engine(fixed_game(PlayerId::PLAYER_0)).expect("fresh deal");
    o.deal();
    assert_eq!(o.state, GameState::AwaitingAiMove);
    run_until_input_or_over(&mut o);
    assert_eq!(o.state, GameState::AwaitingPovInput);
    let moves_before = o.moves_made();
    // Three of Spades: owned, but hearts are required.
    let spade = entity_id_of(&o, 3, 3);
    assert_eq!(o.handle_click(spade), ClickOutcome::Selected);
    assert_eq!(o.handle_click(spade), ClickOutcome::Rejected);
    assert_eq!(o.moves_made(), moves_before, "a rejected move mutates nothing");
    assert_eq!(o.state, GameState::AwaitingPovInput);
    let e = o.registry.entries.iter().find(|e| e.id == spade).unwrap();
    assert!(e.selected, "the rejected card stays selected");
    // Following suit works.
    let heart = entity_id_of(&o, 0, 1);
    assert_eq!(o.handle_click(heart), ClickOutcome::Selected);
    assert_eq!(o.handle_click(heart), ClickOutcome::Played);
}

#[test]
fn trick_completion_marks_four_cards_and_the_sweep_empties_the_trick_zone() {
    let mut o = pov_leads();
    click_pov_first_legal(&mut o);
    for _ in 0..3 {
        o.tick(60000);
        if o.state == GameState::AwaitingAiMove {
            o.ai_step().expect("ai move");
        }
    }
    o.tick(60000);
    assert_eq!(o.state, GameState::CollectingTrick);
    let marked = o.registry.entries.iter().filter(|e| e.marked).count();
    assert_eq!(marked, 4, "exactly the four trick cards are marked");
    o.collect();
    let in_trick = o.registry.entries.iter().filter(|e| e.zone == Zone::InTrick).count();
    assert_eq!(in_trick, 0, "the trick zone is empty after the sweep");
    let gone = o.registry.entries.iter().filter(|e| e.zone == Zone::Gone).count();
    assert_eq!(gone, 4);
}

#[test]
fn conservation_holds_at_every_step_of_a_full_game() {
    let mut o = pov_leads();
    let mut steps = 0u32;
    while o.state != GameState::GameOver {
        if o.state != GameState::Setup {
            let hands = o
                .registry
                .entries
                .iter()
                .filter(|e| matches!(e.zone, Zone::InHand { .. }))
                .count();
            let trick = o.registry.entries.iter().filter(|e| e.zone == Zone::InTrick).count();
            let gone = o.registry.entries.iter().filter(|e| e.zone == Zone::Gone).count();
            assert_eq!(hands + trick + gone, 40, "conservation");
        }
        if o.state == GameState::AwaitingPovInput || o.state == GameState::AwaitingAiMove {
            assert_eq!(o.sched.tasks.len(), 0, "input states never coincide with a task");
        }
        match o.state {
            GameState::AwaitingPovInput => click_pov_first_legal(&mut o),
            _ => run_until_input_or_over(&mut o),
        }
        steps += 1;
        assert!(steps < 100000);
    }
}

#[test]
fn replaying_the_same_deal_gives_an_identical_game() {
    let mut a = Orchestrator::with_engine(fixed_game(PlayerId::PLAYER_3)).expect("fresh deal");
    a.deal();
    let mut b = Orchestrator::with_engine(fixed_game(PlayerId::PLAYER_3)).expect("fresh deal");
    b.deal();
    run_to_game_over(&mut a);
    run_to_game_over(&mut b);
    assert_eq!(a.engine.history(), b.engine.history(), "identical trick sequence");
    assert_eq!(a.engine.score(), b.engine.score());
    assert_eq!(a.score_line(), b.score_line());
}

#[test]
fn game_over_shows_the_final_score_and_restart_resets_everything() {
    let mut o = pov_leads();
    run_to_game_over(&mut o);
    assert!(o.restart_control, "exactly one restart control is spawned");
    let (s02, s13) = o.engine.score();
    assert_eq!(o.score_line(), format!("Final Score: {} - {}", s02, s13));
    o.activate_restart();
    assert_eq!(o.registry.entries.len(), 0, "all card entities cleared");
    assert_eq!(o.score_line(), "Score: 0 - 0");
    assert_eq!(o.state, GameState::Setup);
    assert!(!o.restart_control);
    o.deal();
    assert_eq!(o.registry.entries.len(), 40);
}

#[test]
fn adopting_a_mid_game_engine_is_refused() {
    let mut g = fixed_game(PlayerId::PLAYER_3);
    let legal = g.legal_cards();
    g.play_card(legal[0]).unwrap();
    assert!(Orchestrator::with_engine(g).is_err(), "hands are no longer full");
}

#[test]
fn desync_between_table_and_engine_is_fatal() {
    let mut o = Orchestrator::with_engine(fixed_game(PlayerId::PLAYER_0)).expect("fresh deal");
    o.deal();
    assert_eq!(o.state, GameState::AwaitingAiMove);
    // Simulate a desynchronization: the card the engine will choose has no
    // entity on the table.
    o.registry.entries.retain(|e| e.zone != Zone::InHand { seat: 1 });
    assert_eq!(o.ai_step(), Err(Desync::MissingEntity));
    // And one where the engine has no legal card at all.
    let mut o2 = Orchestrator::with_engine(fixed_game(PlayerId::PLAYER_0)).expect("fresh deal");
    o2.deal();
    o2.engine = Game::builder()
        .deck(shuftlib::core::deck::Deck::<TressetteCard>::new())
        .players([
            Player::<TressetteRules>::new(PlayerId::PLAYER_0),
            Player::new(PlayerId::PLAYER_1),
            Player::new(PlayerId::PLAYER_2),
            Player::new(PlayerId::PLAYER_3),
        ])
        .current_hand({
            let mut h = OngoingHand::new();
            h.set_current_trick(Some(OngoingTrick::new(PlayerId::PLAYER_1)));
            h
        })
        .dealing_player(PlayerId::PLAYER_0)
        .score((31, 0))
        .completed_hands(Vec::new())
        .history(Vec::new())
        .build();
    assert_eq!(o2.ai_step(), Err(Desync::NoLegalCard));
}

#[test]
fn the_trick_adapter_reports_the_led_card() {
    let mut o = Orchestrator::with_engine(fixed_game(PlayerId::PLAYER_0)).expect("fresh deal");
    o.deal();
    run_until_input_or_over(&mut o);
    // Seat 1 led its first card, the Two of Hearts.
    let trick = o.trick_cards();
    assert_eq!(trick.len(), 4);
    assert!(trick[0].is_none());
    let led = trick[1].expect("seat 1 has played");
    assert_eq!((led.suit, led.rank), (0, 2));
    assert!(trick[2].is_some() && trick[3].is_some(), "seats 2 and 3 have followed");
    assert_eq!(o.trick_leader(), 1);
    assert_eq!(o.moves_made(), 3);
}

struct LastLegal;

impl shuftle_client_core::orchestrator::MoveStrategy for LastLegal {
    fn pick(&mut self, legal: &Vec<shuftle_client_core::card::Card>) -> usize {
        legal.len() - 1
    }
}

#[test]
fn the_ai_choice_is_swappable_without_touching_the_state_machine() {
    let mut o = Orchestrator::with_engine(fixed_game(PlayerId::PLAYER_0)).expect("fresh deal");
    o.deal();
    assert_eq!(o.state, GameState::AwaitingAiMove);
    let legal = shuftle_client_core::engine::engine_legal_cards(&o.engine);
    assert!(legal.len() > 1);
    let expect = legal[legal.len() - 1];
    o.ai_step_with(&mut LastLegal).expect("ai move");
    assert_eq!(o.state, GameState::AnimatingPlay);
    let played = o
        .registry
        .entries
        .iter()
        .find(|e| e.zone == Zone::InTrick)
        .expect("a card is on its way to the trick zone");
    assert_eq!(played.value, expect);
    assert_ne!(played.value, legal[0]);
}

#[test]
fn score_labels_render_exact_digits() {
    assert_eq!(running_score_line(Score { team02: 0, team13: 0 }), "Score: 0 - 0");
    assert_eq!(running_score_line(Score { team02: 7, team13: 21 }), "Score: 7 - 21");
    assert_eq!(
        shuftle_client_core::text::final_score_line(Score { team02: 103, team13: 9 }),
        "Final Score: 103 - 9"
    );
}
