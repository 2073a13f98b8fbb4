//! End-to-end exercises of the orchestration core against the real rules
//! engine.

use shuftle_client_core::engine::engine_legal_cards;
use shuftle_client_core::orchestrator::{ClickOutcome, GameState, Orchestrator};
use shuftle_client_core::registry::Zone;

/// Clicks the point-of-view card matching the engine's first legal card,
/// twice: once to select, once to play.
fn click_first_legal(o: &mut Orchestrator) {
    let legal = engine_legal_cards(&o.engine);
    assert!(!legal.is_empty());
    let c = legal[0];
    let id = o
        .registry
        .entries
        .iter()
        .find(|e| {
            e.value == c && matches!(e.zone, Zone::InHand { seat: 0 })
        })
        .expect("legal card not on table")
        .id;
    assert_eq!(o.handle_click(id), ClickOutcome::Selected);
    assert_eq!(o.handle_click(id), ClickOutcome::Played);
}

/// Drives the orchestrator one step, whatever phase it is in.
fn step(o: &mut Orchestrator) {
    match o.state {
        GameState::Setup => o.deal(),
        GameState::AwaitingPovInput => click_first_legal(o),
        GameState::AwaitingAiMove => o.ai_step().expect("ai move failed"),
        GameState::AnimatingPlay => o.tick(60000),
        GameState::CollectingTrick => o.collect(),
        GameState::ResolvingEffect => unreachable!("transient state escaped"),
        GameState::GameOver => {}
    }
}

#[test]
fn deal_puts_forty_cards_on_the_table() {
    let mut o = Orchestrator::new();
    assert_eq!(o.state, GameState::Setup);
    o.deal();
    assert_eq!(o.registry.entries.len(), 40);
    for seat in 0..4u8 {
        let n = o
            .registry
            .entries
            .iter()
            .filter(|e| e.zone == Zone::InHand { seat })
            .count();
        assert_eq!(n, 10);
    }
}

#[test]
fn a_full_game_reaches_game_over() {
    let mut o = Orchestrator::new();
    let mut steps = 0u32;
    while o.state != GameState::GameOver {
        step(&mut o);
        steps += 1;
        assert!(steps < 100000, "game did not terminate");
    }
    let line = o.score_line();
    assert!(line.starts_with("Final Score: "), "bad label: {line}");
}
