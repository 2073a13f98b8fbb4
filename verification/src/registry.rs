//! Registry of visual card entities.
//!
//! Each dealt card gets one entry holding its logical value, the zone it is
//! in, its display position, and its selection state.  A card is in exactly
//! one zone at a time: a seat's hand, the shared trick zone, or despawned.
//! Despawn is two-phase: entries are first marked, then a sweep moves every
//! marked entry to the despawned zone, so nothing is destroyed while it may
//! still be referenced in the same pass.

use vstd::prelude::*;

use crate::card::Card;
use crate::geom::{COORD_LIMIT, Vec2i};

verus! {

/// How far a selected card is raised, in thousandths of a pixel.
pub const SELECT_RAISE: i64 = 50000;

/// The zone a card entity currently belongs to.
#[derive(Clone, Copy, Debug, PartialEq, Eq, Structural)]
pub enum Zone {
    /// Held in the hand of the given seat.
    InHand { seat: u8 },
    /// Played into the shared trick zone.
    InTrick,
    /// Despawned by a sweep; kept for accounting only.
    Gone,
}

/// One visual card entity.
#[derive(Clone, Copy, Debug, PartialEq, Eq, Structural)]
pub struct CardEntry {
    /// Identity, unique within the registry.
    pub id: u64,
    /// The card's logical value.
    pub value: Card,
    /// The zone the entity is in.
    pub zone: Zone,
    /// Display position.
    pub pos: Vec2i,
    /// Whether the entity shows its face (true) or its back.
    pub face_up: bool,
    /// Whether the point-of-view player has this card raised.
    pub selected: bool,
    /// Whether the entity is marked for the next despawn sweep.
    pub marked: bool,
}

/// Number of entries of `s` satisfying `f`.
pub open spec fn count_matching(s: Seq<CardEntry>, f: spec_fn(CardEntry) -> bool) -> int
    decreases s.len(),
{
    if s.len() == 0 {
        0
    } else {
        count_matching(s.drop_last(), f) + if f(s.last()) {
            1int
        } else {
            0int
        }
    }
}

/// Cards held in some hand.
pub open spec fn n_in_hands(s: Seq<CardEntry>) -> int {
    count_matching(s, |e: CardEntry| e.zone is InHand)
}

/// Cards held by one seat.
pub open spec fn n_in_hand_of(s: Seq<CardEntry>, seat: u8) -> int
    decreases s.len(),
{
    if s.len() == 0 {
        0
    } else {
        n_in_hand_of(s.drop_last(), seat) + if s.last().zone == (Zone::InHand { seat }) {
            1int
        } else {
            0int
        }
    }
}

/// Appending an entry adds to its own seat's hand count and to no other.
pub proof fn lemma_hand_of_push(s: Seq<CardEntry>, seat: u8, e: CardEntry)
    ensures
        n_in_hand_of(s.push(e), seat) == n_in_hand_of(s, seat) + if e.zone == (Zone::InHand {
            seat,
        }) {
            1int
        } else {
            0int
        },
{
    assert(s.push(e).drop_last() =~= s);
    assert(s.push(e).last() == e);
}

/// Cards in the trick zone.
pub open spec fn n_in_trick(s: Seq<CardEntry>) -> int {
    count_matching(s, |e: CardEntry| e.zone is InTrick)
}

/// Despawned cards.
pub open spec fn n_gone(s: Seq<CardEntry>) -> int {
    count_matching(s, |e: CardEntry| e.zone is Gone)
}

/// Entries marked for the next sweep.
pub open spec fn n_marked(s: Seq<CardEntry>) -> int {
    count_matching(s, |e: CardEntry| e.marked)
}

/// Entries the point-of-view player has raised.
pub open spec fn n_selected(s: Seq<CardEntry>) -> int {
    count_matching(s, |e: CardEntry| e.selected)
}

/// Counts lie between 0 and the number of entries.
pub proof fn lemma_count_bounds(s: Seq<CardEntry>, f: spec_fn(CardEntry) -> bool)
    ensures
        0 <= count_matching(s, f) <= s.len(),
    decreases s.len(),
{
    if s.len() > 0 {
        lemma_count_bounds(s.drop_last(), f);
    }
}

/// If `f1` holds of `s1` pointwise exactly where `f2` holds of `s2`, the two
/// counts agree.
pub proof fn lemma_count_pointwise(
    s1: Seq<CardEntry>,
    s2: Seq<CardEntry>,
    f1: spec_fn(CardEntry) -> bool,
    f2: spec_fn(CardEntry) -> bool,
)
    requires
        s1.len() == s2.len(),
        forall|i: int| 0 <= i < s1.len() ==> f1(s1[i]) == f2(s2[i]),
    ensures
        count_matching(s1, f1) == count_matching(s2, f2),
    decreases s1.len(),
{
    if s1.len() > 0 {
        assert(forall|i: int|
            0 <= i < s1.drop_last().len() ==> f1(s1.drop_last()[i]) == f2(s2.drop_last()[i]));
        lemma_count_pointwise(s1.drop_last(), s2.drop_last(), f1, f2);
    }
}

/// Appending an entry adds its contribution to a count.
pub proof fn lemma_count_push(s: Seq<CardEntry>, f: spec_fn(CardEntry) -> bool, e: CardEntry)
    ensures
        count_matching(s.push(e), f) == count_matching(s, f) + if f(e) {
            1int
        } else {
            0int
        },
{
    assert(s.push(e).drop_last() =~= s);
    assert(s.push(e).last() == e);
}

/// Updating one entry adjusts a count by the difference of the two
/// contributions.
pub proof fn lemma_count_update(s: Seq<CardEntry>, f: spec_fn(CardEntry) -> bool, i: int, e: CardEntry)
    requires
        0 <= i < s.len(),
    ensures
        count_matching(s.update(i, e), f) == count_matching(s, f) - (if f(s[i]) {
            1int
        } else {
            0int
        }) + if f(e) {
            1int
        } else {
            0int
        },
    decreases s.len(),
{
    let t = s.update(i, e);
    if i == s.len() - 1 {
        assert(t.drop_last() =~= s.drop_last());
        assert(t.last() == e);
        assert(s.last() == s[i]);
    } else {
        assert(t.drop_last() =~= s.drop_last().update(i, e));
        assert(t.last() == s.last());
        lemma_count_update(s.drop_last(), f, i, e);
    }
}

/// The card values a seat holds, in entry order.
pub open spec fn hand_cards_of(s: Seq<CardEntry>, seat: u8) -> Seq<crate::card::Card>
    decreases s.len(),
{
    if s.len() == 0 {
        Seq::empty()
    } else {
        hand_cards_of(s.drop_last(), seat) + if s.last().zone == (Zone::InHand { seat }) {
            seq![s.last().value]
        } else {
            Seq::empty()
        }
    }
}

/// Appending an entry appends its card to its own seat's hand view and to no
/// other.
pub proof fn lemma_hand_cards_push(s: Seq<CardEntry>, seat: u8, e: CardEntry)
    ensures
        hand_cards_of(s.push(e), seat) == hand_cards_of(s, seat) + if e.zone == (Zone::InHand {
            seat,
        }) {
            seq![e.value]
        } else {
            Seq::empty()
        },
{
    assert(s.push(e).drop_last() =~= s);
    assert(s.push(e).last() == e);
}

/// A count is at least one where some entry satisfies the predicate.
pub proof fn lemma_count_pos(s: Seq<CardEntry>, f: spec_fn(CardEntry) -> bool, i: int)
    requires
        0 <= i < s.len(),
        f(s[i]),
    ensures
        count_matching(s, f) >= 1,
    decreases s.len(),
{
    if i == s.len() - 1 {
        lemma_count_bounds(s.drop_last(), f);
    } else {
        lemma_count_pos(s.drop_last(), f, i);
    }
}

/// A hand's card view counts an entry's card at least once.
pub proof fn lemma_hand_cards_member(s: Seq<CardEntry>, seat: u8, i: int)
    requires
        0 <= i < s.len(),
        s[i].zone == (Zone::InHand { seat }),
    ensures
        hand_cards_of(s, seat).to_multiset().count(s[i].value) >= 1,
    decreases s.len(),
{
    broadcast use vstd::seq_lib::group_to_multiset_ensures;

    if i == s.len() - 1 {
        assert(hand_cards_of(s, seat) == hand_cards_of(s.drop_last(), seat).push(s[i].value));
        vstd::multiset::lemma_multiset_empty_len(
            hand_cards_of(s.drop_last(), seat).to_multiset(),
        );
    } else {
        lemma_hand_cards_member(s.drop_last(), seat, i);
        let tail = hand_cards_of(s.drop_last(), seat);
        if s.last().zone == (Zone::InHand { seat }) {
            assert(hand_cards_of(s, seat) == tail.push(s.last().value));
        } else {
            assert(hand_cards_of(s, seat) =~= tail + Seq::<crate::card::Card>::empty());
            assert(hand_cards_of(s, seat) =~= tail);
        }
    }
}

/// A hand's card view counts a card held by two entries at least twice.
pub proof fn lemma_hand_cards_pair(s: Seq<CardEntry>, seat: u8, i: int, j: int)
    requires
        0 <= i < j < s.len(),
        s[i].zone == (Zone::InHand { seat }),
        s[j].zone == (Zone::InHand { seat }),
        s[i].value == s[j].value,
    ensures
        hand_cards_of(s, seat).to_multiset().count(s[i].value) >= 2,
    decreases s.len(),
{
    broadcast use vstd::seq_lib::group_to_multiset_ensures;

    if j == s.len() - 1 {
        lemma_hand_cards_member(s.drop_last(), seat, i);
        assert(hand_cards_of(s, seat) == hand_cards_of(s.drop_last(), seat).push(s[j].value));
    } else {
        lemma_hand_cards_pair(s.drop_last(), seat, i, j);
        let tail = hand_cards_of(s.drop_last(), seat);
        if s.last().zone == (Zone::InHand { seat }) {
            assert(hand_cards_of(s, seat) == tail.push(s.last().value));
        } else {
            assert(hand_cards_of(s, seat) =~= tail + Seq::<crate::card::Card>::empty());
            assert(hand_cards_of(s, seat) =~= tail);
        }
    }
}

/// A predicate holding nowhere counts zero.
pub proof fn lemma_count_zero(s: Seq<CardEntry>, f: spec_fn(CardEntry) -> bool)
    requires
        forall|i: int| 0 <= i < s.len() ==> !f(s[i]),
    ensures
        count_matching(s, f) == 0,
    decreases s.len(),
{
    if s.len() > 0 {
        lemma_count_zero(s.drop_last(), f);
    }
}

/// Conservation: every entry is in exactly one zone, so the three zone counts
/// always partition the entry count.
pub proof fn lemma_zone_partition(s: Seq<CardEntry>)
    ensures
        n_in_hands(s) + n_in_trick(s) + n_gone(s) == s.len(),
    decreases s.len(),
{
    if s.len() > 0 {
        lemma_zone_partition(s.drop_last());
    }
}

/// Some entry of `s` has the given identity.
pub open spec fn seq_has_id(s: Seq<CardEntry>, id: u64) -> bool {
    exists|i: int| 0 <= i < s.len() && (#[trigger] s[i]).id == id
}

/// The registry of card entities.
pub struct CardRegistry {
    /// The entries, in spawn order.
    pub entries: Vec<CardEntry>,
    /// Next fresh identity.
    pub next_id: u64,
}

impl CardRegistry {
    /// Well-formedness: valid values, positions in range, seats in range,
    /// marks only in the trick zone, selection only in the point-of-view
    /// hand and with room to lower the card back, and distinct identities
    /// below the id counter.
    pub open spec fn wf(self) -> bool {
        &&& forall|i: int|
            0 <= i < self.entries@.len() ==> (#[trigger] self.entries@[i]).value.valid()
        &&& forall|i: int| 0 <= i < self.entries@.len() ==> (#[trigger] self.entries@[i]).pos.in_range()
        &&& forall|i: int|
            0 <= i < self.entries@.len() ==> ((#[trigger] self.entries@[i]).zone matches Zone::InHand
                { seat } ==> seat < 4)
        &&& forall|i: int|
            0 <= i < self.entries@.len() ==> ((#[trigger] self.entries@[i]).marked
                ==> self.entries@[i].zone is InTrick)
        &&& forall|i: int|
            0 <= i < self.entries@.len() ==> ((#[trigger] self.entries@[i]).selected
                ==> self.entries@[i].zone == (Zone::InHand { seat: crate::POV_SEAT })
                    && self.entries@[i].pos.y >= -COORD_LIMIT + SELECT_RAISE)
        &&& forall|i: int| 0 <= i < self.entries@.len() ==> (#[trigger] self.entries@[i]).id < self.next_id
        &&& forall|i: int, j: int|
            0 <= i < j < self.entries@.len() ==> (#[trigger] self.entries@[i]).id != (#[trigger] self.entries@[j]).id
    }

    /// There is an entry with this identity.
    pub open spec fn has_id(self, id: u64) -> bool {
        seq_has_id(self.entries@, id)
    }

    /// An empty registry.
    pub fn new() -> (r: CardRegistry)
        ensures
            r.wf(),
            r.entries@.len() == 0,
            r.next_id == 0,
    {
        CardRegistry { entries: Vec::new(), next_id: 0 }
    }

    /// Number of entries.
    pub fn entry_count(&self) -> (r: usize)
        ensures
            r == self.entries@.len(),
    {
        self.entries.len()
    }

    /// A copy of the entry at `i`.
    pub fn entry_at(&self, i: usize) -> (r: CardEntry)
        requires
            i < self.entries@.len(),
        ensures
            r == self.entries@[i as int],
    {
        self.entries[i]
    }

    /// Spawns a new entity in the given seat's hand.
    pub fn spawn_in_hand(&mut self, value: Card, seat: u8, pos: Vec2i, face_up: bool) -> (id: u64)
        requires
            old(self).wf(),
            value.valid(),
            seat < 4,
            pos.in_range(),
            old(self).next_id < 0xffff_ffff_ffff_ffff,
            old(self).entries@.len() < 0xffff_ffff,
        ensures
            final(self).wf(),
            id == old(self).next_id,
            final(self).next_id == old(self).next_id + 1,
            final(self).entries@ == old(self).entries@.push(
                CardEntry {
                    id,
                    value,
                    zone: Zone::InHand { seat },
                    pos,
                    face_up,
                    selected: false,
                    marked: false,
                },
            ),
    {
        let id = self.next_id;
        let e = CardEntry {
            id,
            value,
            zone: Zone::InHand { seat },
            pos,
            face_up,
            selected: false,
            marked: false,
        };
        self.entries.push(e);
        self.next_id = id + 1;
        id
    }

    /// Finds the entry with the given identity.
    pub fn index_of(&self, id: u64) -> (r: Option<usize>)
        ensures
            r matches Some(i) ==> i < self.entries@.len() && self.entries@[i as int].id == id,
            r is None ==> !self.has_id(id),
    {
        let n = self.entries.len();
        let mut i: usize = 0;
        while i < n
            invariant
                n == self.entries@.len(),
                i <= n,
                forall|j: int| 0 <= j < i ==> (#[trigger] self.entries@[j]).id != id,
            decreases n - i,
        {
            if self.entries[i].id == id {
                return Some(i);
            }
            i += 1;
        }
        None
    }

    /// Finds the first card of the given value in the given seat's hand.
    pub fn find_in_hand(&self, seat: u8, value: Card) -> (r: Option<usize>)
        ensures
            r matches Some(i) ==> i < self.entries@.len() && self.entries@[i as int].value == value
                && self.entries@[i as int].zone == (Zone::InHand { seat }),
            r is None ==> forall|j: int|
                0 <= j < self.entries@.len() ==> !((#[trigger] self.entries@[j]).value == value
                    && self.entries@[j].zone == (Zone::InHand { seat })),
    {
        let n = self.entries.len();
        let mut i: usize = 0;
        while i < n
            invariant
                n == self.entries@.len(),
                i <= n,
                forall|j: int|
                    0 <= j < i ==> !((#[trigger] self.entries@[j]).value == value
                        && self.entries@[j].zone == (Zone::InHand { seat })),
            decreases n - i,
        {
            let e = &self.entries[i];
            if e.value.suit == value.suit && e.value.rank == value.rank && matches!(e.zone, Zone::InHand { seat: s } if s == seat) {
                return Some(i);
            }
            i += 1;
        }
        None
    }

    /// Moves the entry at `i` to a new position.
    pub fn set_pos(&mut self, i: usize, p: Vec2i)
        requires
            old(self).wf(),
            i < old(self).entries@.len(),
            p.in_range(),
            old(self).entries@[i as int].selected ==> p.y >= -COORD_LIMIT + SELECT_RAISE,
        ensures
            final(self).wf(),
            final(self).next_id == old(self).next_id,
            final(self).entries@ == old(self).entries@.update(
                i as int,
                CardEntry { pos: p, ..old(self).entries@[i as int] },
            ),
    {
        let e = self.entries[i];
        self.entries.set(i, CardEntry { pos: p, ..e });
    }

    /// Reparents the entry at `i` from a hand into the trick zone, dropping
    /// any selection.
    pub fn play_to_trick(&mut self, i: usize)
        requires
            old(self).wf(),
            i < old(self).entries@.len(),
            old(self).entries@[i as int].zone is InHand,
        ensures
            final(self).wf(),
            final(self).next_id == old(self).next_id,
            final(self).entries@ == old(self).entries@.update(
                i as int,
                CardEntry {
                    zone: Zone::InTrick,
                    selected: false,
                    face_up: true,
                    ..old(self).entries@[i as int]
                },
            ),
    {
        let e = self.entries[i];
        self.entries.set(
            i,
            CardEntry { zone: Zone::InTrick, selected: false, face_up: true, ..e },
        );
    }

    /// Raises the entry at `i` as selected.
    pub fn select_at(&mut self, i: usize)
        requires
            old(self).wf(),
            i < old(self).entries@.len(),
            old(self).entries@[i as int].zone == (Zone::InHand { seat: crate::POV_SEAT }),
            !old(self).entries@[i as int].selected,
            old(self).entries@[i as int].pos.y + SELECT_RAISE <= COORD_LIMIT,
        ensures
            final(self).wf(),
            final(self).next_id == old(self).next_id,
            final(self).entries@ == old(self).entries@.update(
                i as int,
                CardEntry {
                    selected: true,
                    pos: Vec2i {
                        x: old(self).entries@[i as int].pos.x,
                        y: (old(self).entries@[i as int].pos.y + SELECT_RAISE) as i64,
                    },
                    ..old(self).entries@[i as int]
                },
            ),
    {
        let e = self.entries[i];
        self.entries.set(
            i,
            CardEntry {
                selected: true,
                pos: Vec2i { x: e.pos.x, y: e.pos.y + SELECT_RAISE },
                ..e
            },
        );
    }

    /// Lowers the selected entry at `i` back to its resting position.
    pub fn deselect_at(&mut self, i: usize)
        requires
            old(self).wf(),
            i < old(self).entries@.len(),
            old(self).entries@[i as int].selected,
        ensures
            final(self).wf(),
            final(self).next_id == old(self).next_id,
            final(self).entries@ == old(self).entries@.update(
                i as int,
                CardEntry {
                    selected: false,
                    pos: Vec2i {
                        x: old(self).entries@[i as int].pos.x,
                        y: (old(self).entries@[i as int].pos.y - SELECT_RAISE) as i64,
                    },
                    ..old(self).entries@[i as int]
                },
            ),
    {
        let e = self.entries[i];
        self.entries.set(
            i,
            CardEntry {
                selected: false,
                pos: Vec2i { x: e.pos.x, y: e.pos.y - SELECT_RAISE },
                ..e
            },
        );
    }

    /// Marks every card in the trick zone for the next despawn sweep.
    pub fn mark_trick(&mut self)
        requires
            old(self).wf(),
        ensures
            final(self).wf(),
            final(self).next_id == old(self).next_id,
            final(self).entries@.len() == old(self).entries@.len(),
            forall|i: int|
                0 <= i < final(self).entries@.len() ==> #[trigger] final(self).entries@[i] == if old(
                    self,
                ).entries@[i].zone is InTrick {
                    CardEntry { marked: true, ..old(self).entries@[i] }
                } else {
                    old(self).entries@[i]
                },
            n_marked(final(self).entries@) == n_in_trick(old(self).entries@),
            n_in_trick(final(self).entries@) == n_in_trick(old(self).entries@),
    {
        let n = self.entries.len();
        let mut i: usize = 0;
        while i < n
            invariant
                old(self).wf(),
                n == self.entries@.len() == old(self).entries@.len(),
                i <= n,
                self.next_id == old(self).next_id,
                forall|j: int|
                    0 <= j < i ==> #[trigger] self.entries@[j] == if old(
                        self,
                    ).entries@[j].zone is InTrick {
                        CardEntry { marked: true, ..old(self).entries@[j] }
                    } else {
                        old(self).entries@[j]
                    },
                forall|j: int| i <= j < n ==> self.entries@[j] == old(self).entries@[j],
            decreases n - i,
        {
            let e = self.entries[i];
            if matches!(e.zone, Zone::InTrick) {
                self.entries.set(i, CardEntry { marked: true, ..e });
            }
            i += 1;
        }
        proof {
            lemma_count_pointwise(
                self.entries@,
                old(self).entries@,
                |e: CardEntry| e.marked,
                |e: CardEntry| e.zone is InTrick,
            );
            lemma_count_pointwise(
                self.entries@,
                old(self).entries@,
                |e: CardEntry| e.zone is InTrick,
                |e: CardEntry| e.zone is InTrick,
            );
        }
    }

    /// Despawns every marked entry: the sweep of the two-phase removal.
    pub fn sweep(&mut self)
        requires
            old(self).wf(),
        ensures
            final(self).wf(),
            final(self).next_id == old(self).next_id,
            final(self).entries@.len() == old(self).entries@.len(),
            forall|i: int|
                0 <= i < final(self).entries@.len() ==> #[trigger] final(self).entries@[i] == if old(
                    self,
                ).entries@[i].marked {
                    CardEntry { zone: Zone::Gone, marked: false, ..old(self).entries@[i] }
                } else {
                    old(self).entries@[i]
                },
            n_marked(final(self).entries@) == 0,
            n_gone(final(self).entries@) == n_gone(old(self).entries@) + n_marked(old(self).entries@),
    {
        let n = self.entries.len();
        let mut i: usize = 0;
        while i < n
            invariant
                old(self).wf(),
                n == self.entries@.len() == old(self).entries@.len(),
                i <= n,
                self.next_id == old(self).next_id,
                forall|j: int|
                    0 <= j < i ==> #[trigger] self.entries@[j] == if old(self).entries@[j].marked {
                        CardEntry { zone: Zone::Gone, marked: false, ..old(self).entries@[j] }
                    } else {
                        old(self).entries@[j]
                    },
                forall|j: int| i <= j < n ==> self.entries@[j] == old(self).entries@[j],
            decreases n - i,
        {
            let e = self.entries[i];
            if e.marked {
                self.entries.set(i, CardEntry { zone: Zone::Gone, marked: false, ..e });
            }
            i += 1;
        }
        proof {
            lemma_count_zero(self.entries@, |e: CardEntry| e.marked);
            lemma_count_gone_after_sweep(self.entries@, old(self).entries@);
        }
    }

    /// Finds the lowest-indexed selected entry.
    pub fn find_selected(&self) -> (r: Option<usize>)
        ensures
            r matches Some(i) ==> i < self.entries@.len() && self.entries@[i as int].selected,
            r is None ==> forall|j: int|
                0 <= j < self.entries@.len() ==> !(#[trigger] self.entries@[j]).selected,
    {
        let n = self.entries.len();
        let mut i: usize = 0;
        while i < n
            invariant
                n == self.entries@.len(),
                i <= n,
                forall|j: int| 0 <= j < i ==> !(#[trigger] self.entries@[j]).selected,
            decreases n - i,
        {
            if self.entries[i].selected {
                return Some(i);
            }
            i += 1;
        }
        None
    }

    /// Removes every entry and starts identities afresh.
    pub fn clear(&mut self)
        requires
            old(self).wf(),
        ensures
            final(self).wf(),
            final(self).entries@.len() == 0,
            final(self).next_id == 0,
    {
        self.entries = Vec::new();
        self.next_id = 0;
    }
}

/// After a sweep, the despawned count has grown by exactly the number of
/// entries that were marked.
proof fn lemma_count_gone_after_sweep(s_new: Seq<CardEntry>, s_old: Seq<CardEntry>)
    requires
        s_new.len() == s_old.len(),
        forall|i: int|
            0 <= i < s_new.len() ==> #[trigger] s_new[i] == if s_old[i].marked {
                CardEntry { zone: Zone::Gone, marked: false, ..s_old[i] }
            } else {
                s_old[i]
            },
        forall|i: int| 0 <= i < s_old.len() ==> ((#[trigger] s_old[i]).marked ==> s_old[i].zone is InTrick),
    ensures
        n_gone(s_new) == n_gone(s_old) + n_marked(s_old),
    decreases s_new.len(),
{
    if s_new.len() > 0 {
        lemma_count_gone_after_sweep(s_new.drop_last(), s_old.drop_last());
    }
}

} // verus!
