//! Logical card values.
//!
//! The engine's own card type is opaque to the verifier, so the library keeps
//! each card's logical value as a plain pair of small integers and converts at
//! the adapter boundary.

use vstd::prelude::*;

verus! {

use vstd::multiset::Multiset;

broadcast use vstd::seq_lib::group_to_multiset_ensures, vstd::multiset::lemma_multiset_empty_len;

/// A card's logical value: a suit in `0..4` and a rank in `1..=10`.
///
/// Suits are numbered as the engine orders them (hearts, diamonds, clubs,
/// spades); ranks carry the engine's own numbering (ace = 1 up to king = 10).
#[derive(Clone, Copy, Debug, PartialEq, Eq, Structural)]
pub struct Card {
    pub suit: u8,
    pub rank: u8,
}

impl Card {
    /// A card value the rest of the crate is allowed to hold.
    pub open spec fn valid(self) -> bool {
        self.suit < 4 && 1 <= self.rank <= 10
    }

    /// A dense code in `0..40`, unique per valid card.
    pub open spec fn code(self) -> int {
        self.suit * 10 + self.rank - 1
    }

    /// Sort key for the point-of-view hand display: suit first, then rank.
    pub open spec fn display_key(self) -> int {
        self.suit * 10 + self.rank
    }

    /// Builds a card, rejecting values outside the deck.
    pub fn checked(suit: u8, rank: u8) -> (r: Option<Card>)
        ensures
            r matches Some(c) ==> c.valid() && c.suit == suit && c.rank == rank,
            r is Some <==> suit < 4 && 1 <= rank <= 10,
    {
        if suit < 4 && 1 <= rank && rank <= 10 {
            Some(Card { suit, rank })
        } else {
            None
        }
    }
}

/// The card a dense code stands for.
pub open spec fn card_of_code(code: int) -> Card {
    Card { suit: (code / 10) as u8, rank: (code % 10 + 1) as u8 }
}

/// The cards a sequence of dense codes stands for.
pub open spec fn cards_of_codes(codes: Seq<int>) -> Seq<Card> {
    codes.map_values(|code: int| card_of_code(code))
}

/// Decoding a valid card's code gives the card back.
pub proof fn lemma_code_roundtrip(c: Card)
    requires
        c.valid(),
    ensures
        card_of_code(c.code()) == c,
{
    assert(c.code() / 10 == c.suit && c.code() % 10 == c.rank - 1) by (nonlinear_arith)
        requires
            c.suit < 4 && 1 <= c.rank <= 10,
    ;
}

/// Every code in the deck's range decodes to a valid card with that code.
pub proof fn lemma_card_of_code_inverse(code: int)
    requires
        0 <= code < 40,
    ensures
        card_of_code(code).valid(),
        card_of_code(code).code() == code,
{
    vstd::arithmetic::div_mod::lemma_fundamental_div_mod(code, 10);
    vstd::arithmetic::div_mod::lemma_mod_bound(code, 10);
    vstd::arithmetic::div_mod::lemma_div_pos_is_pos(code, 10);
    vstd::arithmetic::div_mod::lemma_div_is_ordered(code, 39, 10);
    assert(39int == 10 * 3 + 9);
    vstd::arithmetic::div_mod::lemma_fundamental_div_mod_converse(39, 10, 3, 9);
}

/// Two distinct valid cards never share a code.
pub proof fn lemma_code_injective(a: Card, b: Card)
    requires
        a.valid(),
        b.valid(),
        a.code() == b.code(),
    ensures
        a == b,
{
}

/// The point-of-view hand ordering: non-decreasing display key.
pub open spec fn sorted_for_display(s: Seq<Card>) -> bool {
    forall|i: int, j: int| 0 <= i < j < s.len() ==> s[i].display_key() <= s[j].display_key()
}

/// Index of a minimal display key in `v[from..]`.
fn min_key_index(v: &Vec<Card>, from: usize) -> (r: usize)
    requires
        from < v@.len(),
    ensures
        from <= r < v@.len(),
        forall|j: int| from <= j < v@.len() ==> v@[r as int].display_key() <= v@[j].display_key(),
{
    let n = v.len();
    let mut best: usize = from;
    let mut i: usize = from + 1;
    while i < n
        invariant
            n == v@.len(),
            from <= best < i <= n,
            forall|j: int| from <= j < i ==> v@[best as int].display_key() <= v@[j].display_key(),
        decreases n - i,
    {
        if key_of(&v[i]) < key_of(&v[best]) {
            best = i;
        }
        i += 1;
    }
    best
}

/// The display key, computed without overflow for any field values.
fn key_of(c: &Card) -> (k: u32)
    ensures
        k == c.display_key(),
{
    (c.suit as u32) * 10 + (c.rank as u32)
}

/// Sorts a hand for the point-of-view display: by suit, then by rank.
///
/// The result holds exactly the cards given, reordered.
pub fn sort_for_display(v: &Vec<Card>) -> (r: Vec<Card>)
    ensures
        r@.len() == v@.len(),
        r@.to_multiset() == v@.to_multiset(),
        sorted_for_display(r@),
        forall|i: int| 0 <= i < r@.len() ==> v@.contains(#[trigger] r@[i]),
{
    let mut rest: Vec<Card> = Vec::new();
    let mut i: usize = 0;
    while i < v.len()
        invariant
            i <= v@.len(),
            rest@ == v@.take(i as int),
        decreases v@.len() - i,
    {
        rest.push(v[i]);
        i += 1;
    }
    assert(rest@ == v@);

    let ghost orig = v@;
    let mut out: Vec<Card> = Vec::new();
    proof {
        assert(out@.to_multiset() =~= Multiset::empty());
        assert(out@.to_multiset().add(rest@.to_multiset()) =~= rest@.to_multiset());
    }
    while rest.len() > 0
        invariant
            out@.to_multiset().add(rest@.to_multiset()) == orig.to_multiset(),
            sorted_for_display(out@),
            forall|i: int, j: int|
                0 <= i < out@.len() && 0 <= j < rest@.len()
                    ==> out@[i].display_key() <= rest@[j].display_key(),
            out@.len() + rest@.len() == orig.len(),
            forall|i: int| 0 <= i < out@.len() ==> orig.contains(#[trigger] out@[i]),
            forall|i: int| 0 <= i < rest@.len() ==> orig.contains(#[trigger] rest@[i]),
        decreases rest@.len(),
    {
        let ghost before = rest@;
        let ghost out_before = out@;
        let k = min_key_index(&rest, 0);
        let c = rest.remove(k);
        out.push(c);
        proof {
            before.to_multiset_ensures();
            out_before.to_multiset_ensures();
            assert(before.contains(c));
            assert(before.to_multiset().count(c) > 0);
            assert(out@.to_multiset().add(rest@.to_multiset()) =~= out_before.to_multiset().add(
                before.to_multiset(),
            ));
        }
    }
    proof {
        assert(rest@.to_multiset() =~= Multiset::empty());
        assert(out@.to_multiset().add(Multiset::<Card>::empty()) =~= out@.to_multiset());
    }
    out
}

} // verus!
