use vstd::prelude::*;
use vstd::multiset::Multiset;
use rltk::RandomNumberGenerator;
use crate::move_type::AttackType;
use crate::rng::{roll, shuffle_cards};

verus! {

/// Most cards a hand can hold.
pub const HAND_LIMIT: usize = 7;

/// A draw pile, a discard pile and a hand of cards.
pub struct Deck {
    pub cards: Vec<AttackType>,
    pub discard: Vec<AttackType>,
    pub hand: Vec<AttackType>,
    /// Index of the selected card in the hand, or -1.
    pub selected: i32,
}

/// The card that a roll of `0..8` on the card table gives.
pub open spec fn attack_type_of_roll(roll: int) -> AttackType {
    if roll == 0 {
        AttackType::Sweep
    } else if roll == 1 {
        AttackType::Super
    } else if roll == 2 {
        AttackType::Stun
    } else if roll == 3 {
        AttackType::Quick
    } else if roll == 4 {
        AttackType::Push
    } else if roll == 5 || roll == 6 {
        AttackType::Dodge
    } else if roll == 7 {
        AttackType::Ponder
    } else {
        AttackType::Punch
    }
}

/// Reads a roll on the card table.
pub fn attack_type_for_roll(roll: i32) -> (r: AttackType)
    ensures
        r == attack_type_of_roll(roll as int),
{
    match roll {
        0 => AttackType::Sweep,
        1 => AttackType::Super,
        2 => AttackType::Stun,
        3 => AttackType::Quick,
        4 => AttackType::Push,
        5 => AttackType::Dodge,
        6 => AttackType::Dodge,
        7 => AttackType::Ponder,
        _ => AttackType::Punch,
    }
}

/// Draws a random card from the card table.
pub fn attack_type_table(rng: &mut RandomNumberGenerator) -> (r: AttackType)
    ensures
        exists|k: int| 0 <= k < 8 && r == attack_type_of_roll(k),
{
    let k = roll(rng, 0, 8);
    attack_type_for_roll(k)
}

/// Every card the deck holds, wherever it is.
pub open spec fn all_cards(d: Deck) -> Multiset<AttackType> {
    d.cards@.to_multiset().add(d.discard@.to_multiset()).add(d.hand@.to_multiset())
}

/// Cards left to draw: the draw pile and the discard pile.
pub open spec fn pool_size(d: Deck) -> int {
    (d.cards@.len() + d.discard@.len()) as int
}

/// Hand size after `n` draws from a hand of `h` with `p` cards left to draw:
/// a full hand draws nothing, and draws stop at the limit or when no card is left.
pub open spec fn hand_after(h: int, p: int, n: int) -> int {
    if h >= HAND_LIMIT || n <= 0 {
        h
    } else {
        let a = if h + n < HAND_LIMIT { h + n } else { HAND_LIMIT as int };
        if a < h + p { a } else { h + p }
    }
}

/// `d1` is `d0` after `n` draws: no card is lost or made, the old hand is kept
/// in order, and the hand grew as `hand_after` says.
pub open spec fn drew(d0: Deck, d1: Deck, n: int) -> bool {
    &&& d1.selected == d0.selected
    &&& all_cards(d1) == all_cards(d0)
    &&& d1.hand@.len() == hand_after(d0.hand@.len() as int, pool_size(d0), n)
    &&& d1.hand@.subrange(0, d0.hand@.len() as int) == d0.hand@
}

proof fn lemma_all_cards_len(d: Deck)
    ensures
        all_cards(d).len() == pool_size(d) + d.hand@.len(),
{
    d.cards@.to_multiset_ensures();
    d.discard@.to_multiset_ensures();
    d.hand@.to_multiset_ensures();
}

/// Draws compose: `n` draws then `m` more are `n + m` draws.
pub proof fn lemma_drew_compose(a: Deck, b: Deck, c: Deck, n: int, m: int)
    requires
        drew(a, b, n),
        drew(b, c, m),
        n >= 0,
        m >= 0,
    ensures
        drew(a, c, n + m),
{
    lemma_all_cards_len(a);
    lemma_all_cards_len(b);
    lemma_all_cards_len(c);
    assert(c.hand@.subrange(0, a.hand@.len() as int) =~= c.hand@.subrange(0, b.hand@.len() as int).subrange(
        0,
        a.hand@.len() as int,
    ));
}

pub proof fn lemma_drew_none(d: Deck)
    ensures
        drew(d, d, 0),
{
    assert(d.hand@.subrange(0, d.hand@.len() as int) =~= d.hand@);
}

impl Deck {
    pub fn new(cards: Vec<AttackType>) -> (r: Deck)
        ensures
            r.cards == cards,
            r.discard@.len() == 0,
            r.hand@.len() == 0,
            r.selected == -1,
    {
        Deck { cards, discard: Vec::new(), hand: Vec::new(), selected: -1 }
    }

    /// Two punches and a dodge, plus two cards from the card table.
    pub fn new_starting_hand(rng: &mut RandomNumberGenerator) -> (r: Deck)
        ensures
            r.cards@.len() == 5,
            r.cards@.subrange(0, 3) == seq![AttackType::Punch, AttackType::Punch, AttackType::Dodge],
            forall|i: int| 3 <= i < 5 ==> exists|k: int| 0 <= k < 8 && #[trigger] r.cards@[i] == attack_type_of_roll(k),
            r.discard@.len() == 0,
            r.hand@.len() == 0,
            r.selected == -1,
    {
        let mut cards = vec![AttackType::Punch, AttackType::Punch, AttackType::Dodge];
        let a = attack_type_table(rng);
        cards.push(a);
        let b = attack_type_table(rng);
        cards.push(b);
        assert(cards@.subrange(0, 3) =~= seq![AttackType::Punch, AttackType::Punch, AttackType::Dodge]);
        assert(cards@[3] == a && cards@[4] == b);
        Self::new(cards)
    }

    pub fn add(&mut self, card: AttackType)
        ensures
            final(self).cards@ == old(self).cards@.push(card),
            final(self).discard == old(self).discard,
            final(self).hand == old(self).hand,
            final(self).selected == old(self).selected,
    {
        self.cards.push(card);
    }

    /// Moves a card from the draw pile to the hand, unless the hand is full.
    /// An empty draw pile is first refilled from the shuffled discard pile.
    pub fn draw(&mut self)
        ensures
            drew(*old(self), *final(self), 1),
            final(self).selected == old(self).selected,
            old(self).hand@.len() >= HAND_LIMIT ==> *final(self) == *old(self),
            old(self).hand@.len() < HAND_LIMIT && old(self).cards@.len() > 0 ==> {
                &&& final(self).cards@ == old(self).cards@.drop_last()
                &&& final(self).hand@ == old(self).hand@.push(old(self).cards@.last())
                &&& final(self).discard == old(self).discard
            },
            old(self).hand@.len() < HAND_LIMIT && old(self).cards@.len() == 0 ==> {
                &&& final(self).discard@.len() == 0
                &&& old(self).discard@.len() == 0 ==> final(self).cards@.len() == 0
                    && final(self).hand@ == old(self).hand@
                &&& old(self).discard@.len() > 0 ==> final(self).hand@.len() == old(self).hand@.len() + 1
                    && final(self).hand@.drop_last() == old(self).hand@
                    && final(self).cards@.to_multiset().insert(final(self).hand@.last())
                        == old(self).discard@.to_multiset()
            },
    {
        proof {
            old(self).cards@.to_multiset_ensures();
            old(self).discard@.to_multiset_ensures();
            old(self).hand@.to_multiset_ensures();
        }
        if self.hand.len() >= HAND_LIMIT {
            proof {
                lemma_drew_none(*old(self));
            }
            return;
        }
        if self.cards.len() == 0 {
            self.shuffle();
            proof {
                old(self).cards@.to_multiset_ensures();
                old(self).discard@.to_multiset_ensures();
                self.cards@.to_multiset_ensures();
                assert(old(self).cards@.to_multiset().add(old(self).discard@.to_multiset())
                    =~= old(self).discard@.to_multiset());
            }
        }
        let ghost before = self.cards@;
        let drawn = self.cards.pop();
        match drawn {
            Some(card) => {
                proof {
                    self.cards@.to_multiset_ensures();
                    assert(before =~= self.cards@.push(card));
                    assert(before.to_multiset() == self.cards@.to_multiset().insert(card));
                }
                self.hand.push(card);
                assert(self.hand@.drop_last() =~= old(self).hand@);
                proof {
                    self.hand@.to_multiset_ensures();
                    old(self).hand@.to_multiset_ensures();
                    self.discard@.to_multiset_ensures();
                    assert(self.hand@ =~= old(self).hand@.push(card));
                    assert(self.hand@.to_multiset() == old(self).hand@.to_multiset().insert(card));
                    assert(all_cards(*self) =~= all_cards(*old(self)));
                    assert(self.hand@.subrange(0, old(self).hand@.len() as int) =~= old(self).hand@);
                }
            },
            None => {
                proof {
                    self.discard@.to_multiset_ensures();
                    self.cards@.to_multiset_ensures();
                    assert(all_cards(*self) =~= all_cards(*old(self)));
                    assert(self.hand@.subrange(0, old(self).hand@.len() as int) =~= old(self).hand@);
                }
            },
        }
    }

    /// Discards the selected card from the hand, if the selection is a card.
    pub fn discard_selected(&mut self)
        ensures
            0 <= old(self).selected < old(self).hand@.len() ==> {
                &&& final(self).hand@ == old(self).hand@.remove(old(self).selected as int)
                &&& final(self).discard@ == old(self).discard@.push(old(self).hand@[old(self).selected as int])
                &&& final(self).cards == old(self).cards
                &&& final(self).selected == -1
            },
            !(0 <= old(self).selected < old(self).hand@.len()) ==> *final(self) == *old(self),
    {
        if self.selected < 0 || (self.selected as usize) >= self.hand.len() {
            return;
        }
        let card = self.hand.remove(self.selected as usize);
        self.discard.push(card);
        self.selected = -1;
    }

    pub fn cards_remaining(&self) -> (r: i32)
        requires
            self.cards@.len() <= i32::MAX,
        ensures
            r == self.cards@.len(),
    {
        self.cards.len() as i32
    }

    pub fn cards_discarded(&self) -> (r: i32)
        requires
            self.discard@.len() <= i32::MAX,
        ensures
            r == self.discard@.len(),
    {
        self.discard.len() as i32
    }

    /// Puts the discard pile back into the draw pile and shuffles it.
    fn shuffle(&mut self)
        ensures
            final(self).cards@.to_multiset() == old(self).cards@.to_multiset().add(
                old(self).discard@.to_multiset(),
            ),
            final(self).discard@.len() == 0,
            final(self).hand == old(self).hand,
            final(self).selected == old(self).selected,
    {
        let ghost c0 = self.cards@;
        let ghost d0 = self.discard@;
        self.cards.append(&mut self.discard);
        proof {
            vstd::seq_lib::lemma_multiset_commutative(c0, d0);
        }
        shuffle_cards(&mut self.cards);
    }
}

} // verus!
