//! Adapter to the external rules engine.
//!
//! The engine owns the rules of the game: which card may be played, who wins
//! a trick, how hands are scored.  This crate treats it as a black box: the
//! engine's game value is opaque, its observable state is named by
//! uninterpreted functions over that value, and a small set of trusted
//! wrappers states, over those names, what the engine's own source shows.
//! Everything else in the crate is verified against these contracts alone.
//!
//! Cards cross the boundary as plain values (`Card`), and appear in the
//! names as their dense codes (`Card::code`, in `0..40`).

use vstd::prelude::*;

use crate::card::Card;
use crate::effect::{Effect, Score};
use shuftlib::tressette::{Game, MoveEffect, TressetteCard};

verus! {

/// The engine rejected a move; nothing changed.
#[derive(Clone, Copy, Debug, PartialEq, Eq, Structural)]
pub struct IllegalMove;

#[verifier::external_type_specification]
#[verifier::external_body]
pub struct ExGame(Game);

#[verifier::external_type_specification]
#[verifier::external_body]
pub struct ExTressetteCard(TressetteCard);

/// The dense code (`Card::code`) of the card an engine card value shows.
pub uninterp spec fn engine_card_code(t: TressetteCard) -> int;

/// Whether the game value is one the engine itself produced or evolved,
/// with its current trick initialized.
///
/// Only this adapter's own constructors establish it — `engine_new`, and
/// `engine_play` preserves it — so verified code can never apply these
/// contracts to a hand-built game value, whose malformed state could panic
/// the engine's turn accessors or falsify the bookkeeping the contracts
/// state.
pub uninterp spec fn engine_trick_ready(g: Game) -> bool;

/// Relies on `TressetteCard::new` and the engine's rank and suit enums:
/// builds the engine's value for a valid library card, showing the same
/// suit and rank.
#[verifier::external_body]
pub fn to_engine_card(c: Card) -> (r: TressetteCard)
    requires
        c.valid(),
    ensures
        engine_card_code(r) == c.code(),
{
    let rank = shuftlib::core::italian::ItalianRank::from_repr(c.rank).unwrap();
    let s4 = [shuftlib::core::Suit::Hearts, shuftlib::core::Suit::Diamonds, shuftlib::core::Suit::Clubs, shuftlib::core::Suit::Spades];
    TressetteCard::new(rank, s4[(c.suit % 4) as usize])
}

/// The codes of the cards in `seat`'s hand, in the engine's hand order.
pub uninterp spec fn engine_hand(g: Game, seat: int) -> Seq<int>;

/// The seat whose turn it is to move.
pub uninterp spec fn engine_current(g: Game) -> int;

/// The codes of the cards the current player may legally play, in the
/// engine's order; empty once the game is over.
pub uninterp spec fn engine_legal(g: Game) -> Seq<int>;

/// The card code each seat has put into the open trick, if any.
pub uninterp spec fn engine_trick(g: Game) -> Seq<Option<int>>;

/// The cumulative score: team of seats 0 and 2, then team of seats 1 and 3.
pub uninterp spec fn engine_score(g: Game) -> (int, int);

/// Whether the game is still ongoing (nobody has won yet).
pub uninterp spec fn engine_ongoing(g: Game) -> bool;

/// How many moves the engine has recorded.
pub uninterp spec fn engine_moves(g: Game) -> nat;

/// The seat that led the open trick.
pub uninterp spec fn engine_leader(g: Game) -> int;

/// `seat`'s hand holds well-formed card codes.
pub open spec fn hand_codes_ok(g: Game, seat: int) -> bool {
    forall|i: int|
        0 <= i < engine_hand(g, seat).len() ==> 0 <= #[trigger] engine_hand(g, seat)[i] < 40
}

/// How many seats have put a card into the trick.
pub open spec fn n_played(t: Seq<Option<int>>) -> int
    decreases t.len(),
{
    if t.len() == 0 {
        0
    } else {
        n_played(t.drop_last()) + if t.last() is Some {
            1int
        } else {
            0int
        }
    }
}

/// A trick with no card in it counts zero.
pub proof fn lemma_n_played_zero(t: Seq<Option<int>>)
    requires
        forall|i: int| 0 <= i < t.len() ==> (#[trigger] t[i]) is None,
    ensures
        n_played(t) == 0,
    decreases t.len(),
{
    if t.len() > 0 {
        lemma_n_played_zero(t.drop_last());
    }
}

/// A trick with a card in some slot counts at least one.
pub proof fn lemma_n_played_pos(t: Seq<Option<int>>, j: int)
    requires
        0 <= j < t.len(),
        t[j] is Some,
    ensures
        n_played(t) >= 1,
    decreases t.len(),
{
    if j == t.len() - 1 {
        lemma_n_played_nonneg(t.drop_last());
    } else {
        lemma_n_played_pos(t.drop_last(), j);
    }
}

/// A trick never counts negatively.
pub proof fn lemma_n_played_nonneg(t: Seq<Option<int>>)
    ensures
        n_played(t) >= 0,
    decreases t.len(),
{
    if t.len() > 0 {
        lemma_n_played_nonneg(t.drop_last());
    }
}

/// The four dealt hands hold pairwise distinct card codes: the deck is
/// drawn without replacement.
pub open spec fn hands_distinct(g: Game) -> bool {
    forall|s1: int, i1: int, s2: int, i2: int|
        0 <= s1 < 4 && 0 <= s2 < 4 && 0 <= i1 < engine_hand(g, s1).len() && 0 <= i2 < engine_hand(
            g,
            s2,
        ).len() && (s1 != s2 || i1 != i2) ==> #[trigger] engine_hand(g, s1)[i1]
            != #[trigger] engine_hand(g, s2)[i2]
}

/// `after` is `before` with its first occurrence of `v` removed.
pub open spec fn drops_first_occurrence(before: Seq<int>, after: Seq<int>, v: int) -> bool {
    exists|k: int|
        0 <= k < before.len() && before[k] == v && (forall|j: int| 0 <= j < k ==> before[j] != v)
            && after == #[trigger] before.remove(k)
}

/// Relies on `Game::new`: deals a fresh game with ten
/// cards per hand, drawn from the forty-card deck without replacement (so
/// the dealt codes are pairwise distinct), an empty trick, score 0 - 0, no
/// history, and every legal card simply a card of the current player's full
/// hand.  Which cards each player holds depends on the engine's shuffle, so
/// nothing more is said of them.
#[verifier::external_body]
pub fn engine_new() -> (r: Game)
    ensures
        engine_ongoing(r),
        engine_score(r) == (0int, 0int),
        0 <= engine_current(r) < 4,
        forall|s: int| 0 <= s < 4 ==> (#[trigger] engine_hand(r, s)).len() == 10,
        forall|s: int| 0 <= s < 4 ==> hand_codes_ok(r, s),
        engine_trick(r).len() == 4,
        forall|i: int| 0 <= i < 4 ==> (#[trigger] engine_trick(r)[i]) is None,
        engine_legal(r) == engine_hand(r, engine_current(r)),
        engine_moves(r) == 0,
        engine_trick_ready(r),
        hands_distinct(r),
{
    Game::new()
}

/// Relies on `Game::current_player`: a `PlayerId` is always in `0..4`.
#[verifier::external_body]
pub fn engine_current_player(g: &Game) -> (r: u8)
    requires
        engine_trick_ready(*g),
    ensures
        r < 4,
        r as int == engine_current(*g),
{
    g.current_player().as_usize() as u8
}

/// Relies on `Game::status`: reports whether the game is still ongoing.
#[verifier::external_body]
pub fn engine_is_ongoing(g: &Game) -> (r: bool)
    ensures
        r == engine_ongoing(*g),
{
    matches!(g.status(), shuftlib::tressette::Status::Ongoing)
}

/// Relies on `Game::score`: the pair of cumulative team scores.
#[verifier::external_body]
pub fn engine_score_of(g: &Game) -> (r: Score)
    ensures
        r.team02 as int == engine_score(*g).0,
        r.team13 as int == engine_score(*g).1,
{
    let (a, b) = g.score();
    Score { team02: a, team13: b }
}

/// Relies on `Game::history`: one entry is recorded per resolved move.
#[verifier::external_body]
pub fn engine_moves_count(g: &Game) -> (r: usize)
    ensures
        r as nat == engine_moves(*g),
{
    g.history().len()
}

/// Relies on `Game::hand`: the cards currently held by a seat.
#[verifier::external_body]
pub fn engine_hand_cards(g: &Game, seat: u8) -> (r: Vec<Card>)
    requires
        seat < 4,
    ensures
        r@.len() == engine_hand(*g, seat as int).len(),
        forall|i: int|
            0 <= i < r@.len() ==> (#[trigger] r@[i]).valid() && r@[i].code() == engine_hand(
                *g,
                seat as int,
            )[i],
{
    let pid = shuftlib::trick_taking::PlayerId::try_from(seat as usize).unwrap();
    let mut out: Vec<Card> = Vec::new();
    for c in g.hand(pid).iter() {
        let suit: u8 = match c.suit() {
            shuftlib::core::Suit::Hearts => 0,
            shuftlib::core::Suit::Diamonds => 1,
            shuftlib::core::Suit::Clubs => 2,
            shuftlib::core::Suit::Spades => 3,
        };
        out.push(Card { suit, rank: c.rank() as u8 });
    }
    out
}

/// Relies on `Game::legal_cards`: every legal card is drawn from the current
/// player's hand, and a non-empty answer means the game is ongoing.
#[verifier::external_body]
pub fn engine_legal_cards(g: &Game) -> (r: Vec<Card>)
    requires
        engine_trick_ready(*g),
    ensures
        r@.len() == engine_legal(*g).len(),
        forall|i: int|
            0 <= i < r@.len() ==> (#[trigger] r@[i]).valid() && r@[i].code() == engine_legal(*g)[i],
        forall|i: int|
            0 <= i < r@.len() ==> engine_hand(*g, engine_current(*g)).contains(
                (#[trigger] r@[i]).code(),
            ),
        r@.len() > 0 ==> engine_ongoing(*g),
{
    let mut out: Vec<Card> = Vec::new();
    for c in g.legal_cards().iter() {
        let suit: u8 = match c.suit() {
            shuftlib::core::Suit::Hearts => 0,
            shuftlib::core::Suit::Diamonds => 1,
            shuftlib::core::Suit::Clubs => 2,
            shuftlib::core::Suit::Spades => 3,
        };
        out.push(Card { suit, rank: c.rank() as u8 });
    }
    out
}

/// Relies on `Game::current_trick`: the four optional cards of the open
/// trick, indexed by seat.
#[verifier::external_body]
pub fn engine_trick_cards(g: &Game) -> (r: Vec<Option<Card>>)
    ensures
        r@.len() == 4,
        r@.len() == engine_trick(*g).len(),
        forall|i: int|
            0 <= i < 4 ==> (match #[trigger] r@[i] {
                Some(c) => c.valid() && engine_trick(*g)[i] == Some(c.code()),
                None => engine_trick(*g)[i] is None,
            }),
{
    let mut out: Vec<Option<Card>> = Vec::new();
    for oc in g.current_trick().iter() {
        match oc {
            Some(c) => {
                let suit: u8 = match c.suit() { shuftlib::core::Suit::Hearts => 0, shuftlib::core::Suit::Diamonds => 1, shuftlib::core::Suit::Clubs => 2, shuftlib::core::Suit::Spades => 3 };
                out.push(Some(Card { suit, rank: c.rank() as u8 }));
            },
            None => out.push(None),
        }
    }
    out
}

/// Relies on `Game::trick_leader`: the seat that led the open trick; a
/// `PlayerId` is always in `0..4`.
#[verifier::external_body]
pub fn engine_trick_leader(g: &Game) -> (r: u8)
    requires
        engine_trick_ready(*g),
    ensures
        r < 4,
        r as int == engine_leader(*g),
{
    g.trick_leader().as_usize() as u8
}

/// Relies on `Game::play_card`, the engine's single state transition.
///
/// What the engine's source shows, stated over the names:
/// - the move succeeds exactly when the game is ongoing and the card is
///   legal; a rejected move changes nothing;
/// - a successful move removes the card's first occurrence from the mover's
///   hand and appends one history entry;
/// - `CardPlayed` and `TrickCompleted` keep every other hand and the score
///   as they were; `TrickCompleted` hands the turn to the winner;
/// - `HandComplete` reports the new cumulative score and leaves a freshly
///   dealt ten-card hand everywhere;
/// - `GameOver` reports the final score and leaves every hand empty.
/// - the move fills the mover's empty trick slot: `CardPlayed` leaves the
///   trick one card fuller, and the other three outcomes close a trick that
///   held three cards and leave a fresh, empty one behind.
///
/// The engine's internal-error guards cannot fire on a game whose trick is
/// initialized, so every rejection happens before any mutation.
#[verifier::external_body]
pub fn engine_play(g: &mut Game, t: TressetteCard) -> (r: Result<Effect, IllegalMove>)
    requires
        engine_trick_ready(*old(g)),
    ensures
        engine_trick_ready(*final(g)),
        r is Ok <==> engine_ongoing(*old(g)) && engine_legal(*old(g)).contains(
            engine_card_code(t),
        ),
        r is Err ==> *final(g) == *old(g),
        r is Ok ==> engine_moves(*final(g)) == engine_moves(*old(g)) + 1,
        r is Ok ==> 0 <= engine_current(*final(g)) < 4,
        r matches Ok(e) ==> e.wf(),
        r matches Ok(e) ==> (e is CardPlayed || e is TrickCompleted ==> drops_first_occurrence(
            engine_hand(*old(g), engine_current(*old(g))),
            engine_hand(*final(g), engine_current(*old(g))),
            engine_card_code(t),
        ) && (forall|s: int|
            0 <= s < 4 && s != engine_current(*old(g)) ==> #[trigger] engine_hand(*final(g), s)
                == engine_hand(*old(g), s)) && engine_score(*final(g)) == engine_score(*old(g))
            && engine_ongoing(*final(g))),
        r matches Ok(e) ==> (e is CardPlayed ==> engine_trick(*final(g)).len() == engine_trick(
            *old(g),
        ).len() && n_played(engine_trick(*final(g))) == n_played(engine_trick(*old(g))) + 1),
        r matches Ok(e) ==> (!(e is CardPlayed) ==> n_played(engine_trick(*old(g))) == 3
            && n_played(engine_trick(*final(g))) == 0 && engine_trick(*final(g)).len() == 4),
        r matches Ok(e) ==> (e matches Effect::TrickCompleted { winner } ==> engine_current(
            *final(g),
        ) == winner as int),
        r matches Ok(e) ==> (e matches Effect::HandComplete { winner, score }
            ==> engine_ongoing(*final(g)) && score.team02 as int == engine_score(*final(g)).0
            && score.team13 as int == engine_score(*final(g)).1 && (forall|s: int|
            0 <= s < 4 ==> (#[trigger] engine_hand(*final(g), s)).len() == 10 && hand_codes_ok(
                *final(g),
                s,
            ))),
        r matches Ok(e) ==> (e matches Effect::GameOver { winner, final_score } ==> !engine_ongoing(
            *final(g),
        ) && final_score.team02 as int == engine_score(*final(g)).0 && final_score.team13 as int
            == engine_score(*final(g)).1 && (forall|s: int|
            0 <= s < 4 ==> (#[trigger] engine_hand(*final(g), s)).len() == 0)),
{
    match g.play_card(t) {
        Err(_) => Err(IllegalMove),
        Ok(MoveEffect::CardPlayed) => Ok(Effect::CardPlayed),
        Ok(MoveEffect::TrickCompleted { winner: w }) => Ok(Effect::TrickCompleted { winner: w.as_usize() as u8 }),
        Ok(MoveEffect::HandComplete { trick_winner: w, score: s }) => Ok(Effect::HandComplete { winner: w.as_usize() as u8, score: s.into() }),
        Ok(MoveEffect::GameOver { trick_winner: w, final_score: s }) => Ok(Effect::GameOver { winner: w.as_usize() as u8, final_score: s.into() }),
    }
}

} // verus!
