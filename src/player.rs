use vstd::prelude::*;

use crate::card::{
    not_this_color, not_this_number, this_color, this_number, Card, CardKnowledge, CardView, Color,
    Number,
};
use crate::errors::HanabiError;
use crate::moves::Hint;
use crate::random::generate_uid;
use crate::rules::{MAX_PLAYERS, MIN_PLAYERS};

verus! {

/// A player's private capability token: whoever presents it acts as that
/// player.
pub type UID = u64;

/// A player's public seat number, dense from 0.
pub type PubID = u8;

/// Whether a card's true color or number is the one that `hint` names.
pub open spec fn hint_matches(card: Card, hint: Hint) -> bool {
    match hint {
        Hint::ColorHint(c) => card.color() == c,
        Hint::NumberHint(n) => card.number() == n,
    }
}

/// Whether `hint` can be recorded on a card with knowledge `k` without a
/// contradiction: a matching attribute must not have been ruled out, and a
/// non-matching one must not be the last possibility left.
pub open spec fn hint_consistent(k: CardKnowledge, card: Card, hint: Hint) -> bool {
    match hint {
        Hint::ColorHint(c) => if card.color() == c {
            !k.not_these_colors@.contains(c)
        } else {
            k.not_these_colors@.insert(c) != Set::<Color>::full()
        },
        Hint::NumberHint(n) => if card.number() == n {
            !k.not_these_numbers@.contains(n)
        } else {
            k.not_these_numbers@.insert(n) != Set::<Number>::full()
        },
    }
}

/// Whether `r` is what knowledge `k` of `card` becomes when `hint` is given:
/// for a matching card every other value of the hinted attribute is ruled
/// out, for any other card the hinted value is.
pub open spec fn hinted(k: CardKnowledge, card: Card, hint: Hint, r: CardKnowledge) -> bool {
    match hint {
        Hint::ColorHint(c) => {
            &&& r.not_these_numbers == k.not_these_numbers
            &&& r.not_these_colors@ == if card.color() == c {
                Set::<Color>::full().remove(c)
            } else {
                k.not_these_colors@.insert(c)
            }
        },
        Hint::NumberHint(n) => {
            &&& r.not_these_colors == k.not_these_colors
            &&& r.not_these_numbers@ == if card.number() == n {
                Set::<Number>::full().remove(n)
            } else {
                k.not_these_numbers@.insert(n)
            }
        },
    }
}

/// Knowledge of a card that no hint has touched yet.
pub open spec fn is_blank(k: CardKnowledge) -> bool {
    &&& k.not_these_colors@ == Set::<Color>::empty()
    &&& k.not_these_numbers@ == Set::<Number>::empty()
}

/// `r` is the knowledge of `entry`'s card after `hint`, and the hint did
/// not contradict what was known.
#[verifier::opaque]
spec fn hint_step(entry: (Card, CardKnowledge), hint: Hint, r: CardKnowledge) -> bool {
    hint_consistent(entry.1, entry.0, hint) && hinted(entry.1, entry.0, hint, r)
}

/// A consistent hint only adds to what is ruled out, never rules out every
/// value of the hinted attribute, and keeps well-formed knowledge so.
proof fn lemma_hinted_grows(k: CardKnowledge, card: Card, hint: Hint, r: CardKnowledge)
    requires
        hint_consistent(k, card, hint),
        hinted(k, card, hint, r),
    ensures
        k.not_these_colors@.subset_of(r.not_these_colors@),
        k.not_these_numbers@.subset_of(r.not_these_numbers@),
        match hint {
            Hint::ColorHint(_) => r.not_these_colors@ != Set::<Color>::full(),
            Hint::NumberHint(_) => r.not_these_numbers@ != Set::<Number>::full(),
        },
        k.wf() ==> r.wf(),
{
    match hint {
        Hint::ColorHint(c) => {
            assert(Set::<Color>::full().contains(c));
            if card.color() == c {
                assert(!r.not_these_colors@.contains(c));
            }
        },
        Hint::NumberHint(n) => {
            assert(Set::<Number>::full().contains(n));
            if card.number() == n {
                assert(!r.not_these_numbers@.contains(n));
            }
        },
    }
}

/// Records `hint` on one card.
fn apply_hint(k: CardKnowledge, card: &Card, hint: Hint) -> (r: Result<CardKnowledge, HanabiError>)
    ensures
        match r {
            Ok(k2) => hint_consistent(k, *card, hint) && hinted(k, *card, hint, k2),
            Err(e) => !hint_consistent(k, *card, hint) && e is LogicError,
        },
{
    match hint {
        Hint::ColorHint(color) => if card.color() == color {
            this_color(k, color)
        } else {
            not_this_color(k, color)
        },
        Hint::NumberHint(number) => if card.number() == number {
            this_number(k, number)
        } else {
            not_this_number(k, number)
        },
    }
}

/// A seated player: a public seat number, a private UID, and a hand whose
/// order is how moves address the cards.
#[derive(PartialEq, Eq)]
pub struct Player {
    pub public_id: PubID,
    pub uid: UID,
    hand: Vec<(Card, CardKnowledge)>,
}

impl Player {
    /// The hand in order, each card with what hints have told its owner.
    pub closed spec fn cards(&self) -> Seq<(Card, CardKnowledge)> {
        self.hand@
    }

    /// The player's public seat number.
    pub closed spec fn seat(&self) -> PubID {
        self.public_id
    }

    /// The player's private UID.
    pub closed spec fn token(&self) -> UID {
        self.uid
    }

    /// Every card in the hand keeps at least one possible color and one
    /// possible number.
    pub open spec fn hand_wf(&self) -> bool {
        forall|j: int| 0 <= j < self.cards().len() ==> (#[trigger] self.cards()[j]).1.wf()
    }

    pub fn new(public_id: u8, uid: u64) -> (p: Player)
        ensures
            p.seat() == public_id,
            p.token() == uid,
            p.cards() == Seq::<(Card, CardKnowledge)>::empty(),
            p.hand_wf(),
    {
        Player { public_id, uid, hand: Vec::new() }
    }

    /// Adds `card` at the end of the hand, with nothing known of it.
    pub fn push_card(&mut self, card: Card)
        ensures
            final(self).seat() == old(self).seat(),
            final(self).token() == old(self).token(),
            final(self).cards().len() == old(self).cards().len() + 1,
            final(self).cards().drop_last() == old(self).cards(),
            final(self).cards().last().0 == card,
            is_blank(final(self).cards().last().1),
            old(self).hand_wf() ==> final(self).hand_wf(),
    {
        let ghost before = self.hand@;
        self.hand.push((card, CardKnowledge::new()));
        assert(self.hand@.drop_last() =~= before);
        assert forall|j: int| 0 <= j < before.len() implies self.hand@[j] == before[j] by {
            assert(self.hand@[j] == self.hand@.drop_last()[j]);
        }
    }

    pub fn hand_at(&self, idx: usize) -> (r: &(Card, CardKnowledge))
        requires
            idx < self.cards().len(),
        ensures
            *r == self.cards()[idx as int],
    {
        &self.hand[idx]
    }

    /// Takes out the card at `idx`; the cards after it move down by one.
    pub fn remove_card(&mut self, idx: usize) -> (r: (Card, CardKnowledge))
        requires
            idx < old(self).cards().len(),
        ensures
            r == old(self).cards()[idx as int],
            final(self).cards() == old(self).cards().remove(idx as int),
            final(self).seat() == old(self).seat(),
            final(self).token() == old(self).token(),
            old(self).hand_wf() ==> final(self).hand_wf(),
    {
        let ghost before = self.hand@;
        let r = self.hand.remove(idx);
        assert forall|j: int| 0 <= j < self.hand@.len() implies self.hand@[j] == if j < idx {
            before[j]
        } else {
            before[j + 1]
        } by {}
        r
    }

    /// The true color and number of each card, in hand order, without the
    /// knowledge.
    pub fn hand_view(&self) -> (r: Vec<CardView>)
        ensures
            r@.len() == self.cards().len(),
            forall|i: int|
                0 <= i < r@.len() ==> {
                    &&& (#[trigger] r@[i]).color() == self.cards()[i].0.color()
                    &&& r@[i].number() == self.cards()[i].0.number()
                },
    {
        let mut r: Vec<CardView> = Vec::new();
        let mut i: usize = 0;
        while i < self.hand.len()
            invariant
                i <= self.hand@.len(),
                r@.len() == i,
                forall|j: int|
                    0 <= j < i ==> {
                        &&& (#[trigger] r@[j]).color() == self.hand@[j].0.color()
                        &&& r@[j].number() == self.hand@[j].0.number()
                    },
            decreases self.hand@.len() - i,
        {
            r.push(self.hand[i].0.view());
            i = i + 1;
        }
        r
    }

    pub fn hand_len(&self) -> (r: usize)
        ensures
            r == self.cards().len(),
    {
        self.hand.len()
    }

    /// Whether some card in the hand is truly `color`.
    pub fn any_of_color(&self, color: Color) -> (r: bool)
        ensures
            r == exists|i: int|
                0 <= i < self.cards().len() && (#[trigger] self.cards()[i]).0.color() == color,
    {
        let mut i: usize = 0;
        while i < self.hand.len()
            invariant
                i <= self.hand@.len(),
                forall|j: int| 0 <= j < i ==> (#[trigger] self.hand@[j]).0.color() != color,
            decreases self.hand@.len() - i,
        {
            if self.hand[i].0.color() == color {
                return true;
            }
            i = i + 1;
        }
        false
    }

    /// Whether some card in the hand is truly `number`.
    pub fn any_of_number(&self, number: Number) -> (r: bool)
        ensures
            r == exists|i: int|
                0 <= i < self.cards().len() && (#[trigger] self.cards()[i]).0.number() == number,
    {
        let mut i: usize = 0;
        while i < self.hand.len()
            invariant
                i <= self.hand@.len(),
                forall|j: int| 0 <= j < i ==> (#[trigger] self.hand@[j]).0.number() != number,
            decreases self.hand@.len() - i,
        {
            if self.hand[i].0.number() == number {
                return true;
            }
            i = i + 1;
        }
        false
    }

    /// What hints have told about each card, in hand order.
    pub fn get_knowledge(&self) -> (r: Vec<CardKnowledge>)
        ensures
            r@.len() == self.cards().len(),
            forall|i: int| 0 <= i < r@.len() ==> #[trigger] r@[i] == self.cards()[i].1,
    {
        let mut r: Vec<CardKnowledge> = Vec::new();
        let mut i: usize = 0;
        while i < self.hand.len()
            invariant
                i <= self.hand@.len(),
                r@.len() == i,
                forall|j: int| 0 <= j < i ==> #[trigger] r@[j] == self.hand@[j].1,
            decreases self.hand@.len() - i,
        {
            r.push(self.hand[i].1);
            i = i + 1;
        }
        r
    }

    /// Records `hint` on every card of the hand: a card that matches learns
    /// that it is the hinted value, every other card that it is not. If that
    /// contradicts what some card already records, nothing changes and a
    /// logic error is returned.
    pub fn give_hint(&mut self, hint: Hint) -> (r: Result<(), HanabiError>)
        ensures
            final(self).seat() == old(self).seat(),
            final(self).token() == old(self).token(),
            final(self).cards().len() == old(self).cards().len(),
            old(self).hand_wf() ==> final(self).hand_wf(),
            r is Ok && old(self).hand_wf() ==> forall|i: int|
                0 <= i < final(self).cards().len() ==> {
                    &&& (#[trigger] final(self).cards()[i]).1.not_these_colors@
                        != Set::<Color>::full()
                    &&& final(self).cards()[i].1.not_these_numbers@ != Set::<Number>::full()
                },
            match r {
                Ok(()) => forall|i: int|
                    0 <= i < old(self).cards().len() ==> {
                        &&& hint_consistent(
                            (#[trigger] old(self).cards()[i]).1,
                            old(self).cards()[i].0,
                            hint,
                        )
                        &&& final(self).cards()[i].0 == old(self).cards()[i].0
                        &&& hinted(
                            old(self).cards()[i].1,
                            old(self).cards()[i].0,
                            hint,
                            final(self).cards()[i].1,
                        )
                        &&& old(self).cards()[i].1.not_these_colors@.subset_of(
                            final(self).cards()[i].1.not_these_colors@,
                        )
                        &&& old(self).cards()[i].1.not_these_numbers@.subset_of(
                            final(self).cards()[i].1.not_these_numbers@,
                        )
                        &&& match hint {
                            Hint::ColorHint(_) => final(self).cards()[i].1.not_these_colors@
                                != Set::<Color>::full(),
                            Hint::NumberHint(_) => final(self).cards()[i].1.not_these_numbers@
                                != Set::<Number>::full(),
                        }
                        &&& (old(self).cards()[i].1.wf() ==> final(self).cards()[i].1.wf())
                    },
                Err(e) => {
                    &&& e is LogicError
                    &&& exists|i: int|
                        0 <= i < old(self).cards().len() && !hint_consistent(
                            (#[trigger] old(self).cards()[i]).1,
                            old(self).cards()[i].0,
                            hint,
                        )
                    &&& final(self).cards() == old(self).cards()
                },
            },
    {
        let n = self.hand.len();
        let mut updated: Vec<CardKnowledge> = Vec::new();
        let mut i: usize = 0;
        while i < n
            invariant
                n == self.hand@.len(),
                self.hand@ == old(self).hand@,
                self.public_id == old(self).public_id,
                self.uid == old(self).uid,
                i <= n,
                updated@.len() == i,
                forall|j: int| 0 <= j < i ==> hint_step(self.hand@[j], hint, #[trigger] updated@[j]),
            decreases n - i,
        {
            let res = apply_hint(self.hand[i].1, &self.hand[i].0, hint);
            match res {
                Ok(k) => {
                    let ghost prev = updated@;
                    updated.push(k);
                    proof {
                        reveal(hint_step);
                        assert(hint_step(self.hand@[i as int], hint, k));
                        assert forall|j: int| 0 <= j < i + 1 implies hint_step(
                            self.hand@[j],
                            hint,
                            #[trigger] updated@[j],
                        ) by {
                            if j < i {
                                assert(updated@[j] == prev[j]);
                            }
                        }
                    }
                },
                Err(e) => {
                    assert(!hint_consistent(self.cards()[i as int].1, self.cards()[i as int].0, hint));
                    return Err(e);
                },
            }
            i = i + 1;
        }
        let ghost before = self.hand@;
        let mut i: usize = 0;
        while i < n
            invariant
                n == self.hand@.len(),
                n == before.len(),
                before == old(self).hand@,
                self.public_id == old(self).public_id,
                self.uid == old(self).uid,
                i <= n,
                forall|j: int| 0 <= j < n ==> hint_step(before[j], hint, #[trigger] updated@[j]),
                updated@.len() == n,
                forall|j: int| 0 <= j < n ==> (#[trigger] self.hand@[j]).0 == before[j].0,
                forall|j: int| 0 <= j < i ==> (#[trigger] self.hand@[j]).1 == updated@[j],
                forall|j: int| i <= j < n ==> (#[trigger] self.hand@[j]).1 == before[j].1,
            decreases n - i,
        {
            let (card, _) = self.hand.remove(i);
            self.hand.insert(i, (card, updated[i]));
            i = i + 1;
        }
        proof {
            reveal(hint_step);
            assert forall|j: int| 0 <= j < old(self).cards().len() implies {
                &&& hint_consistent((#[trigger] old(self).cards()[j]).1, old(self).cards()[j].0, hint)
                &&& self.cards()[j].0 == old(self).cards()[j].0
                &&& hinted(old(self).cards()[j].1, old(self).cards()[j].0, hint, self.cards()[j].1)
                &&& old(self).cards()[j].1.not_these_colors@.subset_of(
                    self.cards()[j].1.not_these_colors@,
                )
                &&& old(self).cards()[j].1.not_these_numbers@.subset_of(
                    self.cards()[j].1.not_these_numbers@,
                )
                &&& match hint {
                    Hint::ColorHint(_) => self.cards()[j].1.not_these_colors@ != Set::<Color>::full(),
                    Hint::NumberHint(_) => self.cards()[j].1.not_these_numbers@
                        != Set::<Number>::full(),
                }
                &&& (old(self).cards()[j].1.wf() ==> self.cards()[j].1.wf())
            } by {
                assert(self.hand@[j].1 == updated@[j]);
                assert(hint_step(before[j], hint, updated@[j]));
                lemma_hinted_grows(before[j].1, before[j].0, hint, updated@[j]);
            }
        }
        Ok(())
    }
}

/// The seat of the first player whose UID is `uid`; an invalid move if no
/// player has it.
pub fn get_public_id(players: &[Player], uid: UID) -> (r: Result<PubID, HanabiError>)
    ensures
        match r {
            Ok(p) => exists|i: int|
                0 <= i < players@.len() && (#[trigger] players@[i]).token() == uid && p
                    == players@[i].seat() && forall|j: int|
                    0 <= j < i ==> (#[trigger] players@[j]).token() != uid,
            Err(e) => e is InvalidMove && forall|i: int|
                0 <= i < players@.len() ==> (#[trigger] players@[i]).token() != uid,
        },
{
    let mut i: usize = 0;
    while i < players.len()
        invariant
            i <= players@.len(),
            forall|j: int| 0 <= j < i ==> (#[trigger] players@[j]).token() != uid,
        decreases players@.len() - i,
    {
        if players[i].uid == uid {
            return Ok(players[i].public_id);
        }
        i = i + 1;
    }
    Err(HanabiError::InvalidMove("That uid doesn't exist".to_string()))
}

/// The UID of the first player seated at `pub_id`; an invalid move if no
/// player sits there.
pub fn get_id(players: &[Player], pub_id: PubID) -> (r: Result<UID, HanabiError>)
    ensures
        match r {
            Ok(u) => exists|i: int|
                0 <= i < players@.len() && (#[trigger] players@[i]).seat() == pub_id && u
                    == players@[i].token() && forall|j: int|
                    0 <= j < i ==> (#[trigger] players@[j]).seat() != pub_id,
            Err(e) => e is InvalidMove && forall|i: int|
                0 <= i < players@.len() ==> (#[trigger] players@[i]).seat() != pub_id,
        },
{
    let mut i: usize = 0;
    while i < players.len()
        invariant
            i <= players@.len(),
            forall|j: int| 0 <= j < i ==> (#[trigger] players@[j]).seat() != pub_id,
        decreases players@.len() - i,
    {
        if players[i].public_id == pub_id {
            return Ok(players[i].uid);
        }
        i = i + 1;
    }
    Err(HanabiError::InvalidMove("That PubID doesn't exist".to_string()))
}

/// Whether some player in `players` holds `uid`.
fn uid_taken(players: &Vec<Player>, uid: UID) -> (r: bool)
    ensures
        r == exists|i: int| 0 <= i < players@.len() && (#[trigger] players@[i]).token() == uid,
{
    let mut i: usize = 0;
    while i < players.len()
        invariant
            i <= players@.len(),
            forall|j: int| 0 <= j < i ==> (#[trigger] players@[j]).token() != uid,
        decreases players@.len() - i,
    {
        if players[i].uid == uid {
            return true;
        }
        i = i + 1;
    }
    false
}

proof fn lemma_set_bit_keeps_others(v: u64, i: u64, j: u64)
    requires
        i < 64,
        j < 64,
        i != j,
    ensures
        (v | (1u64 << j)) & (1u64 << i) == v & (1u64 << i),
{
    assert((v | (1u64 << j)) & (1u64 << i) == v & (1u64 << i)) by (bit_vector)
        requires
            i < 64,
            j < 64,
            i != j,
    ;
}

proof fn lemma_set_bit_own(v: u64, j: u64)
    requires
        j < 64,
        v & (1u64 << j) == 0,
    ensures
        (v | (1u64 << j)) & (1u64 << j) == (1u64 << j),
        (1u64 << j) != 0,
{
    assert((v | (1u64 << j)) & (1u64 << j) == (1u64 << j) && (1u64 << j) != 0) by (bit_vector)
        requires
            j < 64,
    ;
}

/// A UID that no player in `players` holds: bit `j` of it is the opposite
/// of bit `j` of the `j`-th player's UID.
fn uid_unlike(players: &Vec<Player>) -> (r: UID)
    requires
        players@.len() < 64,
    ensures
        forall|i: int| 0 <= i < players@.len() ==> (#[trigger] players@[i]).token() != r,
{
    let mut v: u64 = 0;
    assert forall|k: u64| 0 <= k < 64 implies #[trigger] (v & (1u64 << k)) == 0 by {
        assert(0u64 & (1u64 << k) == 0) by (bit_vector);
    }
    let mut j: usize = 0;
    while j < players.len()
        invariant
            j <= players@.len() < 64,
            forall|i: u64|
                i < j ==> #[trigger] (v & (1u64 << i)) != players@[i as int].token() & (1u64 << i),
            forall|k: u64| j <= k < 64 ==> #[trigger] (v & (1u64 << k)) == 0,
        decreases players@.len() - j,
    {
        let bit: u64 = 1u64 << (j as u64);
        if players[j].uid & bit == 0 {
            let ghost before = v;
            proof {
                lemma_set_bit_own(before, j as u64);
            }
            v = v | bit;
            proof {
                assert forall|i: u64| i < j + 1 implies #[trigger] (v & (1u64 << i))
                    != players@[i as int].token() & (1u64 << i) by {
                    if i != j as u64 {
                        lemma_set_bit_keeps_others(before, i, j as u64);
                    }
                }
                assert forall|k: u64| j + 1 <= k < 64 implies #[trigger] (v & (1u64 << k)) == 0 by {
                    lemma_set_bit_keeps_others(before, k, j as u64);
                }
            }
        } else {
            assert(v & (1u64 << (j as u64)) == 0);
        }
        j = j + 1;
    }
    assert forall|i: int| 0 <= i < players@.len() implies (#[trigger] players@[i]).token() != v by {
        assert((v & (1u64 << (i as u64))) != players@[i].token() & (1u64 << (i as u64)));
    }
    v
}

/// Seats `num_players` players at seats 0, 1, ..., each with a fresh random
/// UID, no two alike, and an empty hand. A drawn UID that another player
/// already holds is drawn again, and after a few such draws replaced by one
/// built to differ from every UID already handed out.
pub fn generate_players(num_players: usize) -> (players: Vec<Player>)
    requires
        MIN_PLAYERS <= num_players <= MAX_PLAYERS,
    ensures
        players@.len() == num_players,
        forall|i: int|
            0 <= i < players@.len() ==> {
                &&& (#[trigger] players@[i]).seat() == i
                &&& players@[i].cards().len() == 0
            },
        forall|i: int, j: int|
            0 <= i < j < players@.len() ==> (#[trigger] players@[i]).token() != (
            #[trigger] players@[j]).token(),
{
    let mut players: Vec<Player> = Vec::new();
    let mut public_id: usize = 0;
    while public_id < num_players
        invariant
            num_players <= MAX_PLAYERS,
            public_id <= num_players,
            players@.len() == public_id,
            forall|i: int|
                0 <= i < players@.len() ==> {
                    &&& (#[trigger] players@[i]).seat() == i
                    &&& players@[i].cards().len() == 0
                },
            forall|i: int, j: int|
                0 <= i < j < players@.len() ==> (#[trigger] players@[i]).token() != (
                #[trigger] players@[j]).token(),
        decreases num_players - public_id,
    {
        let mut uid = generate_uid();
        let mut tries: usize = 0;
        while tries < 3 && uid_taken(&players, uid)
            decreases 3 - tries,
        {
            uid = generate_uid();
            tries = tries + 1;
        }
        if uid_taken(&players, uid) {
            uid = uid_unlike(&players);
        }
        let ghost before = players@;
        players.push(Player::new(public_id as u8, uid));
        proof {
            assert forall|i: int, j: int|
                0 <= i < j < players@.len() implies (#[trigger] players@[i]).token() != (
                #[trigger] players@[j]).token() by {
                if j == public_id {
                    assert(players@[i] == before[i]);
                } else {
                    assert(players@[i] == before[i]);
                    assert(players@[j] == before[j]);
                }
            }
        }
        public_id = public_id + 1;
    }
    players
}

} // verus!
