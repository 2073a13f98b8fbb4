//! Unit tests for the geometry, layout, card, and scheduler building
//! blocks.

use shuftle_client_core::card::{Card, sort_for_display};
use shuftle_client_core::geom::{Vec2i, isqrt64, step_toward};
use shuftle_client_core::layout::{hand_slot, seat_anchor, trick_slot};
use shuftle_client_core::registry::{CardRegistry, Zone};
use shuftle_client_core::sched::{MovementTask, Scheduler};

#[test]
fn integer_square_roots_are_exact() {
    assert_eq!(isqrt64(0), 0);
    assert_eq!(isqrt64(1), 1);
    assert_eq!(isqrt64(2), 1);
    assert_eq!(isqrt64(3), 1);
    assert_eq!(isqrt64(4), 2);
    assert_eq!(isqrt64(144), 12);
    assert_eq!(isqrt64(145), 12);
    assert_eq!(isqrt64(u64::MAX), 4294967295);
}

#[test]
fn a_step_within_reach_snaps_exactly() {
    let pos = Vec2i { x: 0, y: 0 };
    let target = Vec2i { x: 3000, y: 4000 };
    let (p, arrived) = step_toward(pos, target, 5000);
    assert!(arrived);
    assert_eq!(p, target);
    // One unit short of the 3-4-5 distance: no arrival, but progress stays
    // inside the box spanned by start and target.
    let (p, arrived) = step_toward(pos, target, 4999);
    assert!(!arrived);
    assert!(p.x >= 0 && p.x <= 3000 && p.y >= 0 && p.y <= 4000);
}

#[test]
fn repeated_steps_terminate_with_zero_residual() {
    let mut pos = Vec2i { x: -123456, y: 789012 };
    let target = Vec2i { x: 250000, y: -60000 };
    let mut ticks = 0;
    loop {
        let (p, arrived) = step_toward(pos, target, 6000);
        pos = p;
        ticks += 1;
        assert!(ticks < 10000, "no convergence");
        if arrived {
            break;
        }
    }
    assert_eq!(pos, target, "zero residual error on arrival");
}

#[test]
fn layout_formulas_give_exact_positions() {
    // A 1920 x 1080 window, in thousandths of a pixel.
    let (w, h) = (1920000, 1080000);
    assert_eq!(seat_anchor(0, w, h), Vec2i { x: -345600, y: -378000 });
    assert_eq!(seat_anchor(1, w, h), Vec2i { x: -844800, y: 324000 });
    assert_eq!(seat_anchor(2, w, h), Vec2i { x: 345600, y: 378000 });
    assert_eq!(seat_anchor(3, w, h), Vec2i { x: 844800, y: -324000 });
    assert_eq!(hand_slot(0), Vec2i { x: 0, y: 0 });
    assert_eq!(hand_slot(3), Vec2i { x: 150000, y: 0 });
    assert_eq!(trick_slot(0), Vec2i { x: 0, y: -60000 });
    assert_eq!(trick_slot(2), Vec2i { x: 0, y: 60000 });
}

#[test]
fn card_construction_rejects_values_outside_the_deck() {
    assert!(Card::checked(0, 1).is_some());
    assert!(Card::checked(3, 10).is_some());
    assert!(Card::checked(4, 1).is_none());
    assert!(Card::checked(0, 0).is_none());
    assert!(Card::checked(0, 11).is_none());
}

#[test]
fn sorting_a_hand_orders_by_suit_then_rank() {
    let hand = vec![
        Card { suit: 2, rank: 7 },
        Card { suit: 0, rank: 10 },
        Card { suit: 2, rank: 1 },
        Card { suit: 0, rank: 2 },
        Card { suit: 3, rank: 5 },
    ];
    let sorted = sort_for_display(&hand);
    let key: Vec<(u8, u8)> = sorted.iter().map(|c| (c.suit, c.rank)).collect();
    assert_eq!(key, vec![(0, 2), (0, 10), (2, 1), (2, 7), (3, 5)]);
}

#[test]
fn a_second_task_for_the_same_card_is_rejected() {
    let mut s = Scheduler::new();
    let t = MovementTask {
        card_id: 7,
        target: Vec2i { x: 1000, y: 1000 },
        speed: 600,
        effect: None,
    };
    assert!(s.start(t));
    assert!(!s.start(MovementTask { target: Vec2i { x: 0, y: 0 }, ..t }), "second task rejected");
    assert_eq!(s.tasks.len(), 1);
    assert_eq!(s.tasks[0].target, Vec2i { x: 1000, y: 1000 }, "first task untouched");
    // A different card may move concurrently.
    assert!(s.start(MovementTask { card_id: 8, ..t }));
    assert_eq!(s.tasks.len(), 2);
}

#[test]
fn a_tick_moves_only_cards_with_tasks_and_fires_on_arrival() {
    let mut reg = CardRegistry::new();
    let moving = reg.spawn_in_hand(Card { suit: 0, rank: 1 }, 0, Vec2i { x: 0, y: 0 }, true);
    let still = reg.spawn_in_hand(Card { suit: 0, rank: 2 }, 0, Vec2i { x: 777, y: 888 }, true);
    let i = reg.index_of(moving).unwrap();
    reg.play_to_trick(i);
    let mut s = Scheduler::new();
    assert!(s.start(MovementTask {
        card_id: moving,
        target: Vec2i { x: 0, y: -60000 },
        speed: 600,
        effect: None,
    }));
    let fired = s.tick(&mut reg, 10);
    assert!(fired.is_empty());
    assert_eq!(s.tasks.len(), 1, "not yet arrived");
    let fired = s.tick(&mut reg, 60000);
    assert!(fired.is_empty(), "the movement carried no continuation payload");
    assert_eq!(s.tasks.len(), 0, "task removed on arrival");
    let e = reg.entry_at(reg.index_of(moving).unwrap());
    assert_eq!((e.pos.x, e.pos.y), (0, -60000), "exactly on target");
    let u = reg.entry_at(reg.index_of(still).unwrap());
    assert_eq!((u.pos.x, u.pos.y), (777, 888), "cards without a task do not move");
}
