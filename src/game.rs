use vstd::multiset::Multiset;
use vstd::prelude::*;

use crate::card::{rank, Card, CardKnowledge, CardView, Color, Number};
use crate::errors::HanabiError;
use crate::moves::{HanabiMove, Hint, HintForPlayer};
use crate::player::{
    generate_players, get_id, get_public_id, hint_consistent, hint_matches, hinted, is_blank,
    Player, PubID, UID,
};
use crate::random::shuffle_cards;
use crate::rules::{
    below, hand_size, number_below, GameResultState, MAX_HINTS, MAX_PLAYERS, MIN_PLAYERS,
    NUM_BOMBS,
};
use std::collections::VecDeque;

verus! {

/// The numbers played so far in color `col`, in the order they were played.
pub open spec fn stack(board: Seq<Card>, col: Color) -> Seq<Number>
    decreases board.len(),
{
    if board.len() == 0 {
        Seq::<Number>::empty()
    } else {
        let rest = stack(board.drop_last(), col);
        if board.last().color() == col {
            rest.push(board.last().number())
        } else {
            rest
        }
    }
}

/// `One, Two, ...` with no gap: a prefix of `One` to `Five`.
pub open spec fn in_sequence(s: Seq<Number>) -> bool {
    forall|i: int| 0 <= i < s.len() ==> rank(#[trigger] s[i]) == i + 1
}

/// Every color's stack on the board is a run from `One` with no gap.
pub open spec fn stacks_in_sequence(board: Seq<Card>) -> bool {
    forall|col: Color| #[trigger] in_sequence(stack(board, col))
}

/// The highest number of color `col` on the board, none if that color has
/// not been played.
pub open spec fn top(board: Seq<Card>, col: Color) -> Option<Number>
    decreases board.len(),
{
    if board.len() == 0 {
        None
    } else {
        let t = top(board.drop_last(), col);
        let c = board.last();
        if c.color() == col && match t {
            None => true,
            Some(n) => rank(n) < rank(c.number()),
        } {
            Some(c.number())
        } else {
            t
        }
    }
}

/// A card can be played when the top of its color's stack is the number
/// directly below it; on an empty stack only a `One` can be played.
pub open spec fn playable(board: Seq<Card>, card: Card) -> bool {
    below(card.number()) == top(board, card.color())
}

/// The knowledge recorded for a card rules out neither its true color nor
/// its true number.
pub open spec fn truthful(entry: (Card, CardKnowledge)) -> bool {
    &&& !entry.1.not_these_colors@.contains(entry.0.color())
    &&& !entry.1.not_these_numbers@.contains(entry.0.number())
}

pub open spec fn hand_truthful(p: Player) -> bool {
    forall|j: int| 0 <= j < p.cards().len() ==> truthful(#[trigger] p.cards()[j])
}

/// The number of cards held by all the players together.
pub open spec fn hand_total(players: Seq<Player>) -> nat
    decreases players.len(),
{
    if players.len() == 0 {
        0
    } else {
        hand_total(players.drop_last()) + players.last().cards().len()
    }
}

/// Seat `i` is the first one whose player holds `uid`.
pub open spec fn is_first_with_uid(players: Seq<Player>, uid: UID, i: int) -> bool {
    &&& 0 <= i < players.len()
    &&& players[i].token() == uid
    &&& forall|j: int| 0 <= j < i ==> (#[trigger] players[j]).token() != uid
}

/// The end-game countdown after a turn: unset while cards remain to draw,
/// zero after the turn that drew the last card, and one more after each
/// turn once the pile is empty.
pub open spec fn next_countdown(c: Option<usize>, pile_empty: bool, drew: bool) -> Option<usize> {
    if !pile_empty {
        None
    } else if drew {
        Some(0)
    } else {
        match c {
            Some(k) => Some((k + 1) as usize),
            None => Some(1),
        }
    }
}

/// `new_hand` and `new_pile` are `hand` and `pile` after one card was drawn
/// into the hand, or unchanged if the pile was empty.
pub open spec fn drawn(
    hand: Seq<(Card, CardKnowledge)>,
    pile: Seq<Card>,
    new_hand: Seq<(Card, CardKnowledge)>,
    new_pile: Seq<Card>,
) -> bool {
    if pile.len() > 0 {
        &&& new_pile == pile.drop_first()
        &&& new_hand.len() == hand.len() + 1
        &&& new_hand.drop_last() == hand
        &&& new_hand.last().0 == pile[0]
        &&& is_blank(new_hand.last().1)
    } else {
        &&& new_pile == pile
        &&& new_hand == hand
    }
}

/// The cards in a player's hand, as a multiset.
pub open spec fn hand_cards(p: Player) -> Multiset<Card> {
    p.cards().map_values(|e: (Card, CardKnowledge)| e.0).to_multiset()
}

/// The cards held by all the players together, as a multiset.
pub open spec fn held_cards(players: Seq<Player>) -> Multiset<Card>
    decreases players.len(),
{
    if players.len() == 0 {
        Multiset::empty()
    } else {
        held_cards(players.drop_last()).add(hand_cards(players.last()))
    }
}

proof fn lemma_held_cards_update(s: Seq<Player>, i: int, p: Player)
    requires
        0 <= i < s.len(),
    ensures
        held_cards(s.update(i, p)).add(hand_cards(s[i])) =~= held_cards(s).add(hand_cards(p)),
    decreases s.len(),
{
    broadcast use vstd::multiset::group_multiset_axioms;

    let t = s.update(i, p);
    let lhs = held_cards(t).add(hand_cards(s[i]));
    let rhs = held_cards(s).add(hand_cards(p));
    if i == s.len() - 1 {
        assert(t.drop_last() =~= s.drop_last());
        let h = held_cards(s.drop_last());
        assert(held_cards(t) == h.add(hand_cards(p)));
        assert(held_cards(s) == h.add(hand_cards(s[i])));
        assert forall|x: Card| #[trigger] lhs.count(x) == rhs.count(x) by {
            assert(lhs.count(x) == h.count(x) + hand_cards(p).count(x) + hand_cards(s[i]).count(x));
            assert(rhs.count(x) == h.count(x) + hand_cards(s[i]).count(x) + hand_cards(p).count(x));
        }
    } else {
        let d = s.drop_last();
        lemma_held_cards_update(d, i, p);
        assert(t.drop_last() =~= d.update(i, p));
        assert(t.last() == s.last());
        assert(d[i] == s[i]);
        let last = hand_cards(s.last());
        assert(held_cards(t) == held_cards(d.update(i, p)).add(last));
        assert(held_cards(s) == held_cards(d).add(last));
        assert forall|x: Card| #[trigger] lhs.count(x) == rhs.count(x) by {
            assert(held_cards(d.update(i, p)).add(hand_cards(s[i])).count(x) == held_cards(d).add(
                hand_cards(p),
            ).count(x));
        }
    }
}

/// Taking the card at `idx` out of a hand takes one copy of it out of the
/// hand's multiset.
proof fn lemma_hand_cards_remove(p: Player, q: Player, idx: int)
    requires
        0 <= idx < p.cards().len(),
        q.cards() == p.cards().remove(idx),
    ensures
        hand_cards(q).insert(p.cards()[idx].0) =~= hand_cards(p),
{
    broadcast use vstd::multiset::group_multiset_axioms, vstd::seq_lib::group_to_multiset_ensures;

    let f = |e: (Card, CardKnowledge)| e.0;
    let m = p.cards().map_values(f);
    assert(q.cards().map_values(f) =~= m.remove(idx));
    assert(m[idx] == p.cards()[idx].0);
    assert(m.remove(idx).insert(idx, m[idx]) =~= m);
    vstd::seq_lib::to_multiset_insert(m.remove(idx), idx, m[idx]);
}

/// Adding an entry at the end of a hand adds its card to the multiset.
proof fn lemma_hand_cards_push(p: Player, q: Player)
    requires
        q.cards().len() == p.cards().len() + 1,
        q.cards().drop_last() == p.cards(),
    ensures
        hand_cards(q) =~= hand_cards(p).insert(q.cards().last().0),
{
    broadcast use vstd::multiset::group_multiset_axioms, vstd::seq_lib::group_to_multiset_ensures;

    let f = |e: (Card, CardKnowledge)| e.0;
    assert(q.cards() =~= p.cards().push(q.cards().last()));
    assert(q.cards().map_values(f) =~= p.cards().map_values(f).push(q.cards().last().0));
}

/// Hands holding the same cards in the same places hold the same multiset.
proof fn lemma_hand_cards_same(p: Player, q: Player)
    requires
        q.cards().len() == p.cards().len(),
        forall|j: int| 0 <= j < p.cards().len() ==> (#[trigger] q.cards()[j]).0 == p.cards()[j].0,
    ensures
        hand_cards(q) == hand_cards(p),
{
    let f = |e: (Card, CardKnowledge)| e.0;
    assert(q.cards().map_values(f) =~= p.cards().map_values(f));
}

/// The first card of a pile and the rest make up the whole pile.
proof fn lemma_pile_split(pile: Seq<Card>)
    requires
        pile.len() > 0,
    ensures
        pile.to_multiset() =~= pile.drop_first().to_multiset().insert(pile[0]),
{
    assert(pile =~= pile.drop_first().insert(0, pile[0]));
    vstd::seq_lib::to_multiset_insert(pile.drop_first(), 0, pile[0]);
}

proof fn lemma_hand_total_update(s: Seq<Player>, i: int, p: Player)
    requires
        0 <= i < s.len(),
    ensures
        hand_total(s.update(i, p)) == hand_total(s) - s[i].cards().len() + p.cards().len(),
    decreases s.len(),
{
    if i == s.len() - 1 {
        assert(s.update(i, p).drop_last() =~= s.drop_last());
    } else {
        lemma_hand_total_update(s.drop_last(), i, p);
        assert(s.update(i, p).drop_last() =~= s.drop_last().update(i, p));
    }
}

proof fn lemma_held_cards_zero(s: Seq<Player>)
    requires
        forall|i: int| 0 <= i < s.len() ==> (#[trigger] s[i]).cards().len() == 0,
    ensures
        held_cards(s) =~= Multiset::<Card>::empty(),
    decreases s.len(),
{
    broadcast use vstd::multiset::group_multiset_axioms, vstd::seq_lib::group_to_multiset_ensures;

    if s.len() > 0 {
        assert forall|i: int| 0 <= i < s.drop_last().len() implies (
        #[trigger] s.drop_last()[i]).cards().len() == 0 by {
            assert(s.drop_last()[i] == s[i]);
        }
        lemma_held_cards_zero(s.drop_last());
        let f = |e: (Card, CardKnowledge)| e.0;
        assert(s.last().cards().map_values(f) =~= Seq::<Card>::empty());
        assert(hand_cards(s.last()) =~= Multiset::<Card>::empty());
    }
}

proof fn lemma_hand_total_zero(s: Seq<Player>)
    requires
        forall|i: int| 0 <= i < s.len() ==> (#[trigger] s[i]).cards().len() == 0,
    ensures
        hand_total(s) == 0,
    decreases s.len(),
{
    if s.len() > 0 {
        assert forall|i: int| 0 <= i < s.drop_last().len() implies (
        #[trigger] s.drop_last()[i]).cards().len() == 0 by {
            assert(s.drop_last()[i] == s[i]);
        }
        lemma_hand_total_zero(s.drop_last());
    }
}

proof fn lemma_stack_push(board: Seq<Card>, card: Card, col: Color)
    ensures
        stack(board.push(card), col) == if card.color() == col {
            stack(board, col).push(card.number())
        } else {
            stack(board, col)
        },
{
    assert(board.push(card).drop_last() =~= board);
}

/// On a board whose stacks are runs, the top of a color is the last number
/// of its stack, whose rank is the stack's length.
proof fn lemma_top_of_run(board: Seq<Card>, col: Color)
    requires
        in_sequence(stack(board, col)),
    ensures
        top(board, col) == if stack(board, col).len() == 0 {
            None::<Number>
        } else {
            Some(stack(board, col).last())
        },
    decreases board.len(),
{
    if board.len() > 0 {
        let rest = board.drop_last();
        let c = board.last();
        assert(board =~= rest.push(c));
        lemma_stack_push(rest, c, col);
        if c.color() == col {
            assert(in_sequence(stack(rest, col))) by {
                assert forall|i: int| 0 <= i < stack(rest, col).len() implies rank(
                    #[trigger] stack(rest, col)[i],
                ) == i + 1 by {
                    assert(stack(board, col)[i] == stack(rest, col)[i]);
                }
            }
        }
        lemma_top_of_run(rest, col);
        if c.color() == col {
            let s = stack(rest, col);
            assert(stack(board, col)[s.len() as int] == c.number());
            if s.len() > 0 {
                assert(stack(board, col)[s.len() - 1] == s.last());
            }
        }
    }
}

/// Playing a playable card keeps every stack a run.
proof fn lemma_play_keeps_sequence(board: Seq<Card>, card: Card)
    requires
        stacks_in_sequence(board),
        playable(board, card),
    ensures
        stacks_in_sequence(board.push(card)),
{
    assert forall|col: Color| #[trigger] in_sequence(stack(board.push(card), col)) by {
        lemma_stack_push(board, card, col);
        assert(in_sequence(stack(board, col)));
        if card.color() == col {
            lemma_top_of_run(board, col);
            let s = stack(board, col);
            if s.len() > 0 {
                assert(rank(s[s.len() - 1]) == s.len());
            }
            assert(rank(card.number()) == s.len() + 1);
            assert forall|i: int| 0 <= i < s.push(card.number()).len() implies rank(
                #[trigger] s.push(card.number())[i],
            ) == i + 1 by {
                if i < s.len() {
                    assert(s.push(card.number())[i] == s[i]);
                }
            }
        }
    }
}

/// A hint given truthfully never contradicts truthful knowledge, and the
/// knowledge stays truthful.
proof fn lemma_hint_truthful(k: CardKnowledge, card: Card, hint: Hint, r: CardKnowledge)
    requires
        truthful((card, k)),
    ensures
        hint_consistent(k, card, hint),
        hinted(k, card, hint, r) ==> truthful((card, r)),
{
    match hint {
        Hint::ColorHint(c) => {
            assert(Set::<Color>::full().contains(card.color()));
            if card.color() != c {
                assert(!k.not_these_colors@.insert(c).contains(card.color()));
            }
        },
        Hint::NumberHint(n) => {
            assert(Set::<Number>::full().contains(card.number()));
            if card.number() != n {
                assert(!k.not_these_numbers@.insert(n).contains(card.number()));
            }
        },
    }
}

/// Shuffles a deck: the result holds the same cards, each as many times as
/// before, in an order left to chance.
pub fn shuffle_deck(deck: VecDeque<Card>) -> (r: VecDeque<Card>)
    ensures
        r@.len() == deck@.len(),
        r@.to_multiset() == deck@.to_multiset(),
{
    let ghost given = deck@;
    let r = shuffle_cards(deck);
    proof {
        broadcast use vstd::seq_lib::group_to_multiset_ensures;

        assert(r@.len() == r@.to_multiset().len());
        assert(given.len() == given.to_multiset().len());
    }
    r
}

fn rank_of(n: Number) -> (r: u8)
    ensures
        r == rank(n),
{
    match n {
        Number::One => 1,
        Number::Two => 2,
        Number::Three => 3,
        Number::Four => 4,
        Number::Five => 5,
    }
}

/// One match of Hanabi: the draw pile, the discard pile, the cards played so
/// far, the players, whose turn it is, and the hint and life counters.
pub struct Game {
    deck: VecDeque<Card>,
    pub discard: Vec<Card>,
    pub board: Vec<Card>,
    players: Vec<Player>,
    active_player: PubID,
    pub hints: u8,
    /// Lives left: each misplay takes one, and none left ends the game.
    pub bombs: u8,
    /// Turns taken since the draw pile ran out; unset while cards remain.
    pub turns_since_last_pickup: Option<usize>,
}

impl Game {
    pub closed spec fn draw_pile(&self) -> Seq<Card> {
        self.deck@
    }

    pub closed spec fn discarded(&self) -> Seq<Card> {
        self.discard@
    }

    /// Every card played so far, in order; the stack of a color is the
    /// cards of that color.
    pub closed spec fn played(&self) -> Seq<Card> {
        self.board@
    }

    pub closed spec fn roster(&self) -> Seq<Player> {
        self.players@
    }

    /// The seat of the player whose turn it is.
    pub closed spec fn active(&self) -> int {
        self.active_player as int
    }

    pub closed spec fn hint_tokens(&self) -> u8 {
        self.hints
    }

    pub closed spec fn lives(&self) -> u8 {
        self.bombs
    }

    pub closed spec fn countdown(&self) -> Option<usize> {
        self.turns_since_last_pickup
    }

    /// All the cards of the game, wherever they lie.
    pub open spec fn card_count(&self) -> nat {
        self.draw_pile().len() + self.discarded().len() + self.played().len() + hand_total(
            self.roster(),
        )
    }

    /// All the cards of the game as a multiset, wherever they lie.
    pub open spec fn all_cards(&self) -> Multiset<Card> {
        self.draw_pile().to_multiset().add(self.discarded().to_multiset()).add(
            self.played().to_multiset(),
        ).add(held_cards(self.roster()))
    }

    /// The game is over: every stack is complete, no life is left, or every
    /// player has had a turn since the draw pile ran out.
    pub open spec fn is_over(&self) -> bool {
        ||| self.played().len() == 25
        ||| self.lives() == 0
        ||| self.countdown() == Some(self.roster().len() as usize)
    }

    pub open spec fn has_uid(&self, uid: UID) -> bool {
        exists|i: int| 0 <= i < self.roster().len() && (#[trigger] self.roster()[i]).token() == uid
    }

    /// Whether the player at `seat` may make move `mv` now.
    pub open spec fn legal(&self, mv: HanabiMove, seat: int) -> bool {
        match mv {
            HanabiMove::Hint((target, hint)) => {
                &&& self.hint_tokens() > 0
                &&& target < self.roster().len()
                &&& exists|j: int|
                    0 <= j < self.roster()[target as int].cards().len() && hint_matches(
                        (#[trigger] self.roster()[target as int].cards()[j]).0,
                        hint,
                    )
            },
            HanabiMove::Discard(idx) => {
                &&& self.hint_tokens() < MAX_HINTS
                &&& idx < self.roster()[seat].cards().len()
            },
            HanabiMove::Play(idx) => idx < self.roster()[seat].cards().len(),
        }
    }

    pub open spec fn wf(&self) -> bool {
        &&& MIN_PLAYERS <= self.roster().len() <= MAX_PLAYERS
        &&& forall|i: int| 0 <= i < self.roster().len() ==> (#[trigger] self.roster()[i]).seat() == i
        &&& forall|i: int, j: int|
            0 <= i < j < self.roster().len() ==> (#[trigger] self.roster()[i]).token() != (
            #[trigger] self.roster()[j]).token()
        &&& 0 <= self.active() < self.roster().len()
        &&& self.hint_tokens() <= MAX_HINTS
        &&& self.lives() <= NUM_BOMBS
        &&& stacks_in_sequence(self.played())
        &&& forall|i: int| 0 <= i < self.roster().len() ==> hand_truthful(#[trigger] self.roster()[i])
        &&& match self.countdown() {
            Some(k) => k <= self.roster().len(),
            None => true,
        }
    }

    /// Whether a move with this UID and payload is accepted: the UID is a
    /// player's, the game is not over, that player is the active one, and
    /// the move is legal.
    pub open spec fn accepts(&self, mv: HanabiMove, uid: UID) -> bool {
        &&& self.has_uid(uid)
        &&& !self.is_over()
        &&& is_first_with_uid(self.roster(), uid, self.active())
        &&& self.legal(mv, self.active())
    }

    /// The active player's card at `idx` left the hand, a replacement was
    /// drawn if the pile had one, the other hands are unchanged and the
    /// end-game countdown moved on.
    pub open spec fn hand_moved(&self, new: Game, idx: usize) -> bool {
        let seat = self.active();
        &&& forall|i: int|
            0 <= i < self.roster().len() && i != seat ==> #[trigger] new.roster()[i]
                == self.roster()[i]
        &&& drawn(
            self.roster()[seat].cards().remove(idx as int),
            self.draw_pile(),
            new.roster()[seat].cards(),
            new.draw_pile(),
        )
        &&& new.countdown() == next_countdown(
            self.countdown(),
            new.draw_pile().len() == 0,
            self.draw_pile().len() > 0,
        )
    }

    /// `new` is this game after the active player's accepted move `mv`, at
    /// the end of which the turn passed to the next seat.
    pub open spec fn applied(&self, mv: HanabiMove, new: Game) -> bool {
        let seat = self.active();
        let n = self.roster().len();
        &&& new.roster().len() == n
        &&& new.active() == (seat + 1) % (n as int)
        &&& forall|i: int|
            0 <= i < n ==> {
                &&& (#[trigger] new.roster()[i]).token() == self.roster()[i].token()
                &&& new.roster()[i].seat() == self.roster()[i].seat()
            }
        &&& match mv {
            HanabiMove::Hint((target, hint)) => {
                let before = self.roster()[target as int].cards();
                let after = new.roster()[target as int].cards();
                &&& new.hint_tokens() == self.hint_tokens() - 1
                &&& new.lives() == self.lives()
                &&& new.played() == self.played()
                &&& new.discarded() == self.discarded()
                &&& new.draw_pile() == self.draw_pile()
                &&& forall|i: int|
                    0 <= i < n && i != target ==> #[trigger] new.roster()[i] == self.roster()[i]
                &&& after.len() == before.len()
                &&& forall|j: int|
                    0 <= j < before.len() ==> {
                        &&& (#[trigger] after[j]).0 == before[j].0
                        &&& hinted(before[j].1, before[j].0, hint, after[j].1)
                    }
                &&& new.countdown() == next_countdown(
                    self.countdown(),
                    self.draw_pile().len() == 0,
                    false,
                )
            },
            HanabiMove::Discard(idx) => {
                let card = self.roster()[seat].cards()[idx as int].0;
                &&& new.discarded() == self.discarded().push(card)
                &&& new.hint_tokens() == if self.hint_tokens() < MAX_HINTS {
                    (self.hint_tokens() + 1) as u8
                } else {
                    self.hint_tokens()
                }
                &&& new.lives() == self.lives()
                &&& new.played() == self.played()
                &&& self.hand_moved(new, idx)
            },
            HanabiMove::Play(idx) => {
                let card = self.roster()[seat].cards()[idx as int].0;
                &&& if playable(self.played(), card) {
                    &&& new.played() == self.played().push(card)
                    &&& new.discarded() == self.discarded()
                    &&& new.lives() == self.lives()
                } else {
                    &&& new.played() == self.played()
                    &&& new.discarded() == self.discarded().push(card)
                    &&& new.lives() == self.lives() - 1
                }
                &&& new.hint_tokens() == self.hint_tokens()
                &&& self.hand_moved(new, idx)
            },
        }
    }

    /// Whether it is the turn of the player at `player_id`.
    pub fn is_players_turn(&self, player_id: PubID) -> (r: bool)
        ensures
            r == (player_id == self.active()),
    {
        player_id == self.active_player
    }

    /// The score: the number of cards played.
    fn score(&self) -> (r: usize)
        ensures
            r == self.played().len(),
    {
        self.board.len()
    }

    /// Whether `card` can be played on the board now.
    fn card_playable(&self, card: &Card) -> (r: bool)
        ensures
            r == playable(self.played(), *card),
    {
        let move_color = card.color();
        let mut highest: Option<Number> = None;
        let mut i: usize = 0;
        while i < self.board.len()
            invariant
                i <= self.board@.len(),
                move_color == card.color(),
                highest == top(self.board@.subrange(0, i as int), move_color),
            decreases self.board@.len() - i,
        {
            let c = &self.board[i];
            proof {
                assert(self.board@.subrange(0, i + 1).drop_last() =~= self.board@.subrange(
                    0,
                    i as int,
                ));
            }
            if c.color() == move_color {
                let higher = match highest {
                    None => true,
                    Some(n) => rank_of(n) < rank_of(c.number()),
                };
                if higher {
                    highest = Some(c.number());
                }
            }
            i = i + 1;
        }
        assert(self.board@.subrange(0, self.board@.len() as int) =~= self.board@);
        let needed = number_below(&card.number());
        match (needed, highest) {
            (None, None) => true,
            (Some(a), Some(b)) => a == b,
            _ => false,
        }
    }

    /// Whether the game is over, and with which score.
    pub fn finished(&self) -> (r: GameResultState)
        ensures
            r == if self.is_over() {
                GameResultState::Finished(self.played().len() as usize)
            } else {
                GameResultState::InProgress
            },
    {
        if self.board.len() == 25 {
            return GameResultState::Finished(25);
        }
        if self.bombs == 0 {
            return GameResultState::Finished(self.score());
        }
        match self.turns_since_last_pickup {
            Some(k) => if k == self.players.len() {
                return GameResultState::Finished(self.score());
            },
            None => {},
        }
        GameResultState::InProgress
    }

    /// Moves the top card of the draw pile to the end of the hand at
    /// `seat`, with nothing known of it; does nothing if the pile is empty.
    fn draw_into(&mut self, seat: usize) -> (drew: bool)
        requires
            seat < old(self).players@.len(),
        ensures
            drew == (old(self).deck@.len() > 0),
            final(self).players@.len() == old(self).players@.len(),
            forall|i: int|
                0 <= i < old(self).players@.len() && i != seat ==> #[trigger] final(self).players@[i]
                    == old(self).players@[i],
            final(self).players@[seat as int].seat() == old(self).players@[seat as int].seat(),
            final(self).players@[seat as int].token() == old(self).players@[seat as int].token(),
            drawn(
                old(self).players@[seat as int].cards(),
                old(self).deck@,
                final(self).players@[seat as int].cards(),
                final(self).deck@,
            ),
            final(self).discard@ == old(self).discard@,
            final(self).board@ == old(self).board@,
            final(self).active_player == old(self).active_player,
            final(self).hints == old(self).hints,
            final(self).bombs == old(self).bombs,
            final(self).turns_since_last_pickup == old(self).turns_since_last_pickup,
            hand_total(final(self).players@) + final(self).deck@.len() == hand_total(
                old(self).players@,
            ) + old(self).deck@.len(),
            hand_truthful(old(self).players@[seat as int]) ==> hand_truthful(
                final(self).players@[seat as int],
            ),
            held_cards(final(self).players@).add(final(self).deck@.to_multiset()) =~= held_cards(
                old(self).players@,
            ).add(old(self).deck@.to_multiset()),
    {
        if self.deck.len() == 0 {
            return false;
        }
        let ghost players0 = self.players@;
        let ghost deck0 = self.deck@;
        let card = match self.deck.pop_front() {
            Some(c) => c,
            None => { return false; },
        };
        assert(self.deck@ == deck0.drop_first());
        let mut p = self.players.remove(seat);
        p.push_card(card);
        self.players.insert(seat, p);
        proof {
            assert(self.players@ =~= players0.update(seat as int, p));
            lemma_hand_total_update(players0, seat as int, p);
            let old_p = players0[seat as int];
            broadcast use vstd::multiset::group_multiset_axioms;

            lemma_held_cards_update(players0, seat as int, p);
            lemma_hand_cards_push(old_p, p);
            lemma_pile_split(deck0);
            let lhs = held_cards(self.players@).add(self.deck@.to_multiset());
            let rhs = held_cards(players0).add(deck0.to_multiset());
            assert forall|x: Card| #[trigger] lhs.count(x) == rhs.count(x) by {
                assert(held_cards(self.players@).add(hand_cards(old_p)).count(x) == held_cards(
                    players0,
                ).add(hand_cards(p)).count(x));
            }
            if hand_truthful(old_p) {
                assert forall|j: int| 0 <= j < p.cards().len() implies truthful(
                    #[trigger] p.cards()[j],
                ) by {
                    if j < old_p.cards().len() {
                        assert(p.cards()[j] == p.cards().drop_last()[j]);
                    }
                }
            }
        }
        true
    }

    /// Deals `per_hand` cards to each player, one at a time round the table.
    fn deal_cards(&mut self, per_hand: usize)
        requires
            old(self).players@.len() <= MAX_PLAYERS,
            per_hand <= 5,
            old(self).deck@.len() >= per_hand * old(self).players@.len(),
            forall|i: int|
                0 <= i < old(self).players@.len() ==> (#[trigger] old(self).players@[i]).cards().len()
                    == 0,
        ensures
            final(self).players@.len() == old(self).players@.len(),
            forall|i: int|
                0 <= i < old(self).players@.len() ==> {
                    &&& (#[trigger] final(self).players@[i]).cards().len() == per_hand
                    &&& forall|r: int|
                        0 <= r < per_hand ==> {
                            &&& (#[trigger] final(self).players@[i].cards()[r]).0 == old(self).deck@[r * old(self).players@.len() + i]
                            &&& is_blank(final(self).players@[i].cards()[r].1)
                        }
                    &&& final(self).players@[i].seat() == old(self).players@[i].seat()
                    &&& final(self).players@[i].token() == old(self).players@[i].token()
                    &&& (hand_truthful(old(self).players@[i]) ==> hand_truthful(
                        final(self).players@[i],
                    ))
                },
            final(self).deck@ == old(self).deck@.subrange(
                (per_hand * old(self).players@.len()) as int,
                old(self).deck@.len() as int,
            ),
            final(self).discard@ == old(self).discard@,
            final(self).board@ == old(self).board@,
            final(self).active_player == old(self).active_player,
            final(self).hints == old(self).hints,
            final(self).bombs == old(self).bombs,
            final(self).turns_since_last_pickup == old(self).turns_since_last_pickup,
            hand_total(final(self).players@) + final(self).deck@.len() == hand_total(
                old(self).players@,
            ) + old(self).deck@.len(),
            held_cards(final(self).players@).add(final(self).deck@.to_multiset()) == held_cards(
                old(self).players@,
            ).add(old(self).deck@.to_multiset()),
    {
        let n = self.players.len();
        let ghost deck0 = self.deck@;
        let ghost start = *self;
        let mut round: usize = 0;
        while round < per_hand
            invariant
                n == self.players@.len(),
                n == start.players@.len(),
                n <= MAX_PLAYERS,
                per_hand <= 5,
                round <= per_hand,
                deck0 == start.deck@,
                deck0.len() >= per_hand * n,
                self.deck@ == deck0.subrange((round * n) as int, deck0.len() as int),
                forall|i: int|
                    0 <= i < n ==> {
                        &&& (#[trigger] self.players@[i]).cards().len() == round
                        &&& forall|r: int|
                            0 <= r < round ==> {
                                &&& (#[trigger] self.players@[i].cards()[r]).0 == deck0[r * n + i]
                                &&& is_blank(self.players@[i].cards()[r].1)
                            }
                        &&& self.players@[i].seat() == start.players@[i].seat()
                        &&& self.players@[i].token() == start.players@[i].token()
                        &&& (hand_truthful(start.players@[i]) ==> hand_truthful(self.players@[i]))
                    },
                self.discard@ == start.discard@,
                self.board@ == start.board@,
                self.active_player == start.active_player,
                self.hints == start.hints,
                self.bombs == start.bombs,
                self.turns_since_last_pickup == start.turns_since_last_pickup,
                hand_total(self.players@) + self.deck@.len() == hand_total(start.players@)
                    + start.deck@.len(),
                held_cards(self.players@).add(self.deck@.to_multiset()) == held_cards(
                    start.players@,
                ).add(start.deck@.to_multiset()),
            decreases per_hand - round,
        {
            let mut seat: usize = 0;
            while seat < n
                invariant
                    n == self.players@.len(),
                    n == start.players@.len(),
                    n <= MAX_PLAYERS,
                    per_hand <= 5,
                    round < per_hand,
                    seat <= n,
                    deck0 == start.deck@,
                    deck0.len() >= per_hand * n,
                    self.deck@ == deck0.subrange((round * n + seat) as int, deck0.len() as int),
                    forall|i: int|
                        0 <= i < n ==> {
                            &&& (#[trigger] self.players@[i]).cards().len() == if i < seat {
                                round + 1
                            } else {
                                round as int
                            }
                            &&& forall|r: int|
                                0 <= r < self.players@[i].cards().len() ==> {
                                    &&& (#[trigger] self.players@[i].cards()[r]).0 == deck0[r * n
                                        + i]
                                    &&& is_blank(self.players@[i].cards()[r].1)
                                }
                            &&& self.players@[i].seat() == start.players@[i].seat()
                            &&& self.players@[i].token() == start.players@[i].token()
                            &&& (hand_truthful(start.players@[i]) ==> hand_truthful(
                                self.players@[i],
                            ))
                        },
                    self.discard@ == start.discard@,
                    self.board@ == start.board@,
                    self.active_player == start.active_player,
                    self.hints == start.hints,
                    self.bombs == start.bombs,
                    self.turns_since_last_pickup == start.turns_since_last_pickup,
                    hand_total(self.players@) + self.deck@.len() == hand_total(start.players@)
                        + start.deck@.len(),
                    held_cards(self.players@).add(self.deck@.to_multiset()) == held_cards(
                        start.players@,
                    ).add(start.deck@.to_multiset()),
                decreases n - seat,
            {
                proof {
                    assert((round + 1) * n <= per_hand * n) by (nonlinear_arith)
                        requires
                            round + 1 <= per_hand,
                    ;
                    assert((round + 1) * n == round * n + n) by (nonlinear_arith);
                }
                let ghost deck_before = self.deck@;
                let ghost players_before = self.players@;
                let drew = self.draw_into(seat);
                assert(drew);
                proof {
                    let p = self.players@[seat as int];
                    let q = players_before[seat as int];
                    assert forall|r: int| 0 <= r < p.cards().len() implies {
                        &&& (#[trigger] p.cards()[r]).0 == deck0[r * n + seat]
                        &&& is_blank(p.cards()[r].1)
                    } by {
                        if r < q.cards().len() {
                            assert(p.cards()[r] == p.cards().drop_last()[r]);
                        } else {
                            assert(r == round);
                            assert(deck_before[0] == deck0[round * n + seat]);
                        }
                    }
                }
                assert(self.deck@ =~= deck0.subrange((round * n + seat + 1) as int, deck0.len() as int));
                seat = seat + 1;
            }
            proof {
                assert((round + 1) * n == round * n + n) by (nonlinear_arith);
            }
            round = round + 1;
        }
    }

    /// A game between `players`, seated in order with empty hands, drawing
    /// from `deck` as it is: each is dealt five cards with two or three
    /// players and four with four or five, one card at a time round the
    /// table. The first seat plays first; there are eight hint tokens and
    /// three lives.
    pub fn with_players(players: Vec<Player>, deck: VecDeque<Card>) -> (g: Game)
        requires
            MIN_PLAYERS <= players@.len() <= MAX_PLAYERS,
            forall|i: int|
                0 <= i < players@.len() ==> {
                    &&& (#[trigger] players@[i]).seat() == i
                    &&& players@[i].cards().len() == 0
                },
            forall|i: int, j: int|
                0 <= i < j < players@.len() ==> (#[trigger] players@[i]).token() != (
                #[trigger] players@[j]).token(),
            deck@.len() >= hand_size(players@.len()) * players@.len(),
        ensures
            g.wf(),
            !g.is_over(),
            g.roster().len() == players@.len(),
            forall|i: int|
                0 <= i < players@.len() ==> {
                    &&& (#[trigger] g.roster()[i]).token() == players@[i].token()
                    &&& g.roster()[i].cards().len() == hand_size(players@.len())
                    &&& forall|r: int|
                        0 <= r < hand_size(players@.len()) ==> {
                            &&& (#[trigger] g.roster()[i].cards()[r]).0 == deck@[r * players@.len()
                                + i]
                            &&& is_blank(g.roster()[i].cards()[r].1)
                        }
                },
            g.draw_pile() == deck@.subrange(
                (hand_size(players@.len()) * players@.len()) as int,
                deck@.len() as int,
            ),
            g.card_count() == deck@.len(),
            g.all_cards() == deck@.to_multiset(),
            g.discarded().len() == 0,
            g.played().len() == 0,
            g.active() == 0,
            g.hint_tokens() == MAX_HINTS,
            g.lives() == NUM_BOMBS,
            g.countdown() == None::<usize>,
    {
        let per_hand: usize = if players.len() <= 3 {
            5
        } else {
            4
        };
        let ghost players0 = players@;
        let mut game = Game {
            deck,
            discard: Vec::new(),
            board: Vec::new(),
            players,
            active_player: 0,
            hints: MAX_HINTS,
            bombs: NUM_BOMBS,
            turns_since_last_pickup: None,
        };
        proof {
            assert forall|i: int| 0 <= i < players0.len() implies hand_truthful(
                #[trigger] players0[i],
            ) by {}
            lemma_hand_total_zero(players0);
            lemma_held_cards_zero(players0);
            assert forall|col: Color| #[trigger] in_sequence(stack(game.board@, col)) by {}
        }
        let ghost dealt_from = game.deck@;
        assert(game.players@ == players0);
        game.deal_cards(per_hand);
        proof {
            broadcast use vstd::multiset::group_multiset_axioms, vstd::seq_lib::group_to_multiset_ensures;

            assert(game.discard@.to_multiset() =~= Multiset::empty());
            assert(game.board@.to_multiset() =~= Multiset::empty());
            assert forall|x: Card| #[trigger] game.all_cards().count(x) == dealt_from.to_multiset().count(
                x,
            ) by {
                assert(held_cards(game.players@).add(game.deck@.to_multiset()).count(x)
                    == held_cards(players0).add(dealt_from.to_multiset()).count(x));
                assert(held_cards(players0).count(x) == 0);
            }
            assert(game.all_cards() =~= dealt_from.to_multiset());
        }
        game
    }

    /// A new game between `num_players` players, each seated with a fresh
    /// random UID, playing the given deck after it is shuffled. See
    /// `with_players` for the deal.
    pub fn new(num_players: usize, deck: VecDeque<Card>) -> (g: Game)
        requires
            MIN_PLAYERS <= num_players <= MAX_PLAYERS,
            deck@.len() >= hand_size(num_players as nat) * num_players,
        ensures
            g.wf(),
            !g.is_over(),
            g.roster().len() == num_players,
            forall|i: int|
                0 <= i < num_players ==> (#[trigger] g.roster()[i]).cards().len() == hand_size(
                    num_players as nat,
                ),
            g.draw_pile().len() == deck@.len() - hand_size(num_players as nat) * num_players,
            exists|s: Seq<Card>|
                #![trigger s.to_multiset()]
                {
                    &&& s.to_multiset() == deck@.to_multiset()
                    &&& g.draw_pile() == s.subrange(
                        (hand_size(num_players as nat) * num_players) as int,
                        s.len() as int,
                    )
                    &&& forall|i: int, r: int|
                        0 <= i < num_players && 0 <= r < hand_size(num_players as nat) ==> (
                        #[trigger] g.roster()[i].cards()[r]).0 == s[r * num_players + i]
                },
            forall|i: int, r: int|
                0 <= i < num_players && 0 <= r < hand_size(num_players as nat) ==> is_blank(
                    #[trigger] g.roster()[i].cards()[r].1,
                ),
            g.card_count() == deck@.len(),
            g.all_cards() == deck@.to_multiset(),
            g.discarded().len() == 0,
            g.played().len() == 0,
            g.active() == 0,
            g.hint_tokens() == MAX_HINTS,
            g.lives() == NUM_BOMBS,
            g.countdown() == None::<usize>,
    {
        let ghost given = deck@;
        let deck = shuffle_deck(deck);
        let ghost dealt = deck@;
        let players = generate_players(num_players);
        let g = Game::with_players(players, deck);
        assert(dealt.to_multiset() == given.to_multiset());
        g
    }

    /// The number of cards left in the draw pile.
    pub fn draw_pile_len(&self) -> (r: usize)
        ensures
            r == self.draw_pile().len(),
    {
        self.deck.len()
    }

    /// The UID of the player at `pub_id`, for handing to that player; an
    /// invalid move if no player sits there.
    pub fn uid_of(&self, pub_id: PubID) -> (r: Result<UID, HanabiError>)
        requires
            self.wf(),
        ensures
            match r {
                Ok(u) => pub_id < self.roster().len() && u == self.roster()[pub_id as int].token(),
                Err(e) => pub_id >= self.roster().len() && e is InvalidMove,
            },
    {
        let r = get_id(self.players.as_slice(), pub_id);
        proof {
            if pub_id < self.roster().len() {
                assert(self.roster()[pub_id as int].seat() == pub_id);
            }
        }
        r
    }

    /// What hints have told the player at `target_player_pubid` about each
    /// of their cards; anyone may ask. An invalid move if no player sits
    /// there.
    pub fn get_player_knowledge(&self, target_player_pubid: PubID) -> (r: Result<
        Vec<CardKnowledge>,
        HanabiError,
    >)
        requires
            self.wf(),
        ensures
            match r {
                Ok(v) => {
                    let hand = self.roster()[target_player_pubid as int].cards();
                    &&& target_player_pubid < self.roster().len()
                    &&& v@.len() == hand.len()
                    &&& forall|i: int| 0 <= i < v@.len() ==> #[trigger] v@[i] == hand[i].1
                },
                Err(e) => target_player_pubid >= self.roster().len() && e is InvalidMove,
            },
    {
        let t = target_player_pubid as usize;
        if t < self.players.len() {
            Ok(self.players[t].get_knowledge())
        } else {
            Err(HanabiError::InvalidMove("Unknown cohort player ID".to_string()))
        }
    }

    /// The cards of the player at `target_player_pubid`, as seen by the
    /// player holding `requesting_player_uid`. A player may look at anyone's
    /// hand but their own. An invalid move if the UID is no player's, no
    /// player sits at the target seat, or the two are the same player.
    pub fn get_player_cards(
        &self,
        requesting_player_uid: UID,
        target_player_pubid: PubID,
    ) -> (r: Result<Vec<CardView>, HanabiError>)
        requires
            self.wf(),
        ensures
            match r {
                Ok(v) => {
                    let hand = self.roster()[target_player_pubid as int].cards();
                    &&& self.has_uid(requesting_player_uid)
                    &&& target_player_pubid < self.roster().len()
                    &&& !is_first_with_uid(
                        self.roster(),
                        requesting_player_uid,
                        target_player_pubid as int,
                    )
                    &&& v@.len() == hand.len()
                    &&& forall|i: int|
                        0 <= i < v@.len() ==> {
                            &&& (#[trigger] v@[i]).color() == hand[i].0.color()
                            &&& v@[i].number() == hand[i].0.number()
                        }
                },
                Err(e) => {
                    &&& e is InvalidMove
                    &&& {
                        ||| !self.has_uid(requesting_player_uid)
                        ||| target_player_pubid >= self.roster().len()
                        ||| is_first_with_uid(
                            self.roster(),
                            requesting_player_uid,
                            target_player_pubid as int,
                        )
                    }
                },
            },
    {
        let requester = match get_public_id(self.players.as_slice(), requesting_player_uid) {
            Ok(p) => p,
            Err(_) => {
                return Err(
                    HanabiError::InvalidMove(
                        "You must provide a valid UID in order to request player cards".to_string(),
                    ),
                );
            },
        };
        let t = target_player_pubid as usize;
        if t >= self.players.len() {
            return Err(
                HanabiError::InvalidMove(
                    "The public ID given does not correspond to any player".to_string(),
                ),
            );
        }
        if requester == target_player_pubid {
            return Err(HanabiError::InvalidMove("You can't request to see your own cards".to_string()));
        }
        proof {
            if is_first_with_uid(self.roster(), requesting_player_uid, t as int) {
                let i = choose|i: int|
                    0 <= i < self.players@.len() && (#[trigger] self.players@[i]).token()
                        == requesting_player_uid && requester == self.players@[i].seat() && forall|
                        j: int,
                    |
                        0 <= j < i ==> (#[trigger] self.players@[j]).token()
                            != requesting_player_uid;
                assert(self.players@[i].seat() == i);
                assert(i == t);
            }
        }
        Ok(self.players[t].hand_view())
    }

    /// Whether a hint may be given: the target's hand must hold a card of the
    /// hinted color or number. An invalid move if no player sits at the
    /// target seat.
    fn legal_hint(&self, hint: &HintForPlayer) -> (r: Result<bool, HanabiError>)
        requires
            self.wf(),
        ensures
            match r {
                Ok(b) => {
                    &&& hint.0 < self.roster().len()
                    &&& b == exists|j: int|
                        0 <= j < self.roster()[hint.0 as int].cards().len() && hint_matches(
                            (#[trigger] self.roster()[hint.0 as int].cards()[j]).0,
                            hint.1,
                        )
                },
                Err(e) => hint.0 >= self.roster().len() && e is InvalidMove,
            },
    {
        let (target_player_id, hint_type) = *hint;
        if target_player_id as usize >= self.players.len() {
            return Err(HanabiError::InvalidMove("PubID is out of range for num players".to_string()));
        }
        let target_player = &self.players[target_player_id as usize];
        Ok(
            match hint_type {
                Hint::ColorHint(color) => target_player.any_of_color(color),
                Hint::NumberHint(number) => target_player.any_of_number(number),
            },
        )
    }

    /// Whether the player at `pub_id` may make move `mv` now. An invalid move
    /// if `pub_id`, or the seat a hint is meant for, is out of range.
    fn legal_move(&self, mv: &HanabiMove, pub_id: PubID) -> (r: Result<bool, HanabiError>)
        requires
            self.wf(),
        ensures
            match r {
                Ok(b) => {
                    &&& pub_id < self.roster().len()
                    &&& !(mv matches HanabiMove::Hint((target, _)) && self.hint_tokens() > 0
                        && target >= self.roster().len())
                    &&& b == self.legal(*mv, pub_id as int)
                },
                Err(e) => {
                    &&& e is InvalidMove
                    &&& {
                        ||| pub_id >= self.roster().len()
                        ||| (mv matches HanabiMove::Hint((target, _)) && self.hint_tokens() > 0
                            && target >= self.roster().len())
                    }
                },
            },
    {
        if pub_id as usize >= self.players.len() {
            return Err(HanabiError::InvalidMove("PubID is out of range for num players".to_string()));
        }
        Ok(
            match mv {
                HanabiMove::Hint(hint) => {
                    if self.hints == 0 {
                        false
                    } else {
                        match self.legal_hint(hint) {
                            Ok(b) => b,
                            Err(e) => {
                                return Err(e);
                            },
                        }
                    }
                },
                HanabiMove::Discard(idx) => {
                    self.hints != MAX_HINTS && *idx < self.players[pub_id as usize].hand_len()
                },
                HanabiMove::Play(idx) => *idx < self.players[pub_id as usize].hand_len(),
            },
        )
    }

    /// Takes the card at `idx` out of the active player's hand.
    fn take_from_active(&mut self, idx: usize) -> (card: Card)
        requires
            old(self).wf(),
            idx < old(self).roster()[old(self).active()].cards().len(),
        ensures
            card == old(self).roster()[old(self).active()].cards()[idx as int].0,
            final(self).players@ == old(self).players@.update(
                old(self).active(),
                final(self).players@[old(self).active()],
            ),
            final(self).players@[old(self).active()].cards() == old(self).roster()[old(self).active()].cards().remove(idx as int),
            final(self).players@[old(self).active()].seat() == old(self).roster()[old(self).active()].seat(),
            final(self).players@[old(self).active()].token() == old(self).roster()[old(self).active()].token(),
            hand_truthful(final(self).players@[old(self).active()]),
            hand_total(final(self).players@) + 1 == hand_total(old(self).players@),
            held_cards(final(self).players@).insert(card) =~= held_cards(old(self).players@),
            final(self).deck@ == old(self).deck@,
            final(self).discard@ == old(self).discard@,
            final(self).board@ == old(self).board@,
            final(self).active_player == old(self).active_player,
            final(self).hints == old(self).hints,
            final(self).bombs == old(self).bombs,
            final(self).turns_since_last_pickup == old(self).turns_since_last_pickup,
    {
        let seat = self.active_player as usize;
        let ghost players0 = self.players@;
        let mut p = self.players.remove(seat);
        let ghost p_before = p;
        let (card, _) = p.remove_card(idx);
        self.players.insert(seat, p);
        proof {
            assert(self.players@ =~= players0.update(seat as int, p));
            lemma_hand_total_update(players0, seat as int, p);
            broadcast use vstd::multiset::group_multiset_axioms;

            lemma_held_cards_update(players0, seat as int, p);
            lemma_hand_cards_remove(p_before, p, idx as int);
            let lhs = held_cards(self.players@).insert(card);
            let rhs = held_cards(players0);
            assert forall|x: Card| #[trigger] lhs.count(x) == rhs.count(x) by {
                assert(held_cards(self.players@).add(hand_cards(p_before)).count(x) == held_cards(
                    players0,
                ).add(hand_cards(p)).count(x));
            }
            assert(hand_truthful(p_before));
            assert forall|j: int| 0 <= j < p.cards().len() implies truthful(
                #[trigger] p.cards()[j],
            ) by {
                if j < idx {
                    assert(p.cards()[j] == p_before.cards()[j]);
                } else {
                    assert(p.cards()[j] == p_before.cards()[j + 1]);
                }
            }
        }
        card
    }

    /// Gives `hint` to the player at `target` and spends a hint token.
    fn hint_move(&mut self, target: PubID, hint: Hint)
        requires
            old(self).wf(),
            old(self).hint_tokens() > 0,
            target < old(self).roster().len(),
        ensures
            final(self).wf(),
            final(self).card_count() == old(self).card_count(),
            final(self).roster().len() == old(self).roster().len(),
            forall|i: int|
                0 <= i < old(self).roster().len() && i != target ==> #[trigger] final(self).roster()[i] == old(self).roster()[i],
            final(self).roster()[target as int].seat() == old(self).roster()[target as int].seat(),
            final(self).roster()[target as int].token() == old(self).roster()[target as int].token(),
            final(self).roster()[target as int].cards().len() == old(self).roster()[target as int].cards().len(),
            forall|j: int|
                0 <= j < old(self).roster()[target as int].cards().len() ==> {
                    &&& (#[trigger] final(self).roster()[target as int].cards()[j]).0 == old(self).roster()[target as int].cards()[j].0
                    &&& hinted(
                        old(self).roster()[target as int].cards()[j].1,
                        old(self).roster()[target as int].cards()[j].0,
                        hint,
                        final(self).roster()[target as int].cards()[j].1,
                    )
                },
            final(self).hint_tokens() == old(self).hint_tokens() - 1,
            held_cards(final(self).players@) == held_cards(old(self).players@),
            final(self).deck@ == old(self).deck@,
            final(self).discard@ == old(self).discard@,
            final(self).board@ == old(self).board@,
            final(self).active_player == old(self).active_player,
            final(self).bombs == old(self).bombs,
            final(self).turns_since_last_pickup == old(self).turns_since_last_pickup,
    {
        let t = target as usize;
        let ghost players0 = self.players@;
        let mut p = self.players.remove(t);
        let ghost p_before = p;
        proof {
            assert(p_before == players0[t as int]);
            assert(hand_truthful(p_before));
            assert forall|j: int| 0 <= j < p_before.cards().len() implies hint_consistent(
                (#[trigger] p_before.cards()[j]).1,
                p_before.cards()[j].0,
                hint,
            ) by {
                lemma_hint_truthful(p_before.cards()[j].1, p_before.cards()[j].0, hint, p_before.cards()[j].1);
            }
        }
        let res = p.give_hint(hint);
        proof {
            assert(res is Ok);
            assert forall|j: int| 0 <= j < p.cards().len() implies truthful(
                #[trigger] p.cards()[j],
            ) by {
                lemma_hint_truthful(p_before.cards()[j].1, p_before.cards()[j].0, hint, p.cards()[j].1);
            }
        }
        self.players.insert(t, p);
        self.hints = self.hints - 1;
        proof {
            assert(self.players@ =~= players0.update(t as int, p));
            lemma_hand_total_update(players0, t as int, p);
            broadcast use vstd::multiset::group_multiset_axioms;

            lemma_held_cards_update(players0, t as int, p);
            lemma_hand_cards_same(p_before, p);
            assert(held_cards(self.players@) =~= held_cards(players0)) by {
                assert forall|x: Card| #[trigger] held_cards(self.players@).count(x) == held_cards(
                    players0,
                ).count(x) by {
                    assert(held_cards(self.players@).add(hand_cards(p_before)).count(x)
                        == held_cards(players0).add(hand_cards(p)).count(x));
                }
            }
        }
    }

    /// Discards the active player's card at `idx`, regains a hint token and
    /// draws a replacement if one is left. Returns whether a card was drawn.
    fn discard_move(&mut self, idx: usize) -> (drew: bool)
        requires
            old(self).wf(),
            old(self).hint_tokens() < MAX_HINTS,
            idx < old(self).roster()[old(self).active()].cards().len(),
        ensures
            final(self).wf(),
            final(self).card_count() == old(self).card_count(),
            final(self).all_cards() =~= old(self).all_cards(),
            drew == (old(self).draw_pile().len() > 0),
            final(self).roster().len() == old(self).roster().len(),
            final(self).roster()[old(self).active()].seat() == old(self).roster()[old(self).active()].seat(),
            final(self).roster()[old(self).active()].token() == old(self).roster()[old(self).active()].token(),
            forall|i: int|
                0 <= i < old(self).roster().len() && i != old(self).active() ==> #[trigger] final(self).roster()[i] == old(self).roster()[i],
            drawn(
                old(self).roster()[old(self).active()].cards().remove(idx as int),
                old(self).draw_pile(),
                final(self).roster()[old(self).active()].cards(),
                final(self).draw_pile(),
            ),
            final(self).discarded() == old(self).discarded().push(
                old(self).roster()[old(self).active()].cards()[idx as int].0,
            ),
            final(self).hint_tokens() == old(self).hint_tokens() + 1,
            final(self).board@ == old(self).board@,
            final(self).active_player == old(self).active_player,
            final(self).bombs == old(self).bombs,
            final(self).turns_since_last_pickup == old(self).turns_since_last_pickup,
    {
        let seat = self.active_player as usize;
        let ghost start = *self;
        let card = self.take_from_active(idx);
        self.discard.push(card);
        if self.hints < MAX_HINTS {
            self.hints = self.hints + 1;
        }
        let ghost mid = self.players@;
        let drew = self.draw_into(seat);
        proof {
            assert forall|i: int| 0 <= i < self.players@.len() implies (#[trigger] self.players@[i]).seat() == i
                && hand_truthful(self.players@[i]) by {
                if i != seat {
                    assert(self.players@[i] == mid[i]);
                }
            }
        }
        proof {
            broadcast use vstd::multiset::group_multiset_axioms, vstd::seq_lib::group_to_multiset_ensures;

            let lhs = self.all_cards();
            let rhs = start.all_cards();
            assert forall|x: Card| #[trigger] lhs.count(x) == rhs.count(x) by {
                assert(held_cards(self.players@).add(self.deck@.to_multiset()).count(x)
                    == held_cards(mid).add(start.deck@.to_multiset()).count(x));
                assert(held_cards(mid).insert(card).count(x) == held_cards(start.players@).count(x));
            }
        }
        drew
    }

    /// Plays the active player's card at `idx`: onto the board if it is
    /// playable, else to the discard pile at the cost of a life. Then draws
    /// a replacement if one is left. Returns whether a card was drawn.
    fn play_card_move(&mut self, idx: usize) -> (drew: bool)
        requires
            old(self).wf(),
            old(self).lives() > 0,
            idx < old(self).roster()[old(self).active()].cards().len(),
        ensures
            final(self).wf(),
            final(self).card_count() == old(self).card_count(),
            final(self).all_cards() =~= old(self).all_cards(),
            drew == (old(self).draw_pile().len() > 0),
            final(self).roster().len() == old(self).roster().len(),
            final(self).roster()[old(self).active()].seat() == old(self).roster()[old(self).active()].seat(),
            final(self).roster()[old(self).active()].token() == old(self).roster()[old(self).active()].token(),
            forall|i: int|
                0 <= i < old(self).roster().len() && i != old(self).active() ==> #[trigger] final(self).roster()[i] == old(self).roster()[i],
            drawn(
                old(self).roster()[old(self).active()].cards().remove(idx as int),
                old(self).draw_pile(),
                final(self).roster()[old(self).active()].cards(),
                final(self).draw_pile(),
            ),
            ({
                let card = old(self).roster()[old(self).active()].cards()[idx as int].0;
                if playable(old(self).played(), card) {
                    &&& final(self).played() == old(self).played().push(card)
                    &&& final(self).discarded() == old(self).discarded()
                    &&& final(self).lives() == old(self).lives()
                } else {
                    &&& final(self).played() == old(self).played()
                    &&& final(self).discarded() == old(self).discarded().push(card)
                    &&& final(self).lives() == old(self).lives() - 1
                }
            }),
            final(self).hints == old(self).hints,
            final(self).active_player == old(self).active_player,
            final(self).turns_since_last_pickup == old(self).turns_since_last_pickup,
    {
        let seat = self.active_player as usize;
        let ghost start = *self;
        let card = self.take_from_active(idx);
        if self.card_playable(&card) {
            proof {
                lemma_play_keeps_sequence(self.board@, card);
            }
            self.board.push(card);
        } else {
            self.bombs = self.bombs - 1;
            self.discard.push(card);
        }
        let ghost mid = self.players@;
        let drew = self.draw_into(seat);
        proof {
            assert forall|i: int| 0 <= i < self.players@.len() implies (#[trigger] self.players@[i]).seat() == i
                && hand_truthful(self.players@[i]) by {
                if i != seat {
                    assert(self.players@[i] == mid[i]);
                }
            }
        }
        proof {
            broadcast use vstd::multiset::group_multiset_axioms, vstd::seq_lib::group_to_multiset_ensures;

            let lhs = self.all_cards();
            let rhs = start.all_cards();
            assert forall|x: Card| #[trigger] lhs.count(x) == rhs.count(x) by {
                assert(held_cards(self.players@).add(self.deck@.to_multiset()).count(x)
                    == held_cards(mid).add(start.deck@.to_multiset()).count(x));
                assert(held_cards(mid).insert(card).count(x) == held_cards(start.players@).count(x));
            }
        }
        drew
    }

    /// Passes the turn to the next seat and moves the end-game countdown on.
    fn end_turn(&mut self, drew: bool)
        requires
            old(self).wf(),
            match old(self).countdown() {
                Some(k) => k < old(self).roster().len(),
                None => true,
            },
        ensures
            final(self).wf(),
            final(self).active() == (old(self).active() + 1) % (old(self).roster().len() as int),
            final(self).countdown() == next_countdown(
                old(self).countdown(),
                old(self).draw_pile().len() == 0,
                drew,
            ),
            final(self).players@ == old(self).players@,
            final(self).deck@ == old(self).deck@,
            final(self).discard@ == old(self).discard@,
            final(self).board@ == old(self).board@,
            final(self).hints == old(self).hints,
            final(self).bombs == old(self).bombs,
    {
        let n = self.players.len();
        self.active_player = ((self.active_player as usize + 1) % n) as u8;
        self.turns_since_last_pickup = if self.deck.len() > 0 {
            None
        } else if drew {
            Some(0)
        } else {
            match self.turns_since_last_pickup {
                Some(k) => Some(k + 1),
                None => Some(1),
            }
        };
    }

    /// Submits move `play` on behalf of the player holding
    /// `requesting_player_uid`. In order, it is an invalid move if the UID is
    /// no player's, `GameFinished` if the game is over, an invalid move if it
    /// is not that player's turn or the move breaks a rule; any of these
    /// leaves the game unchanged. Otherwise the move takes effect and the
    /// turn passes to the next seat.
    pub fn play_move(&mut self, play: HanabiMove, requesting_player_uid: UID) -> (r: Result<
        (),
        HanabiError,
    >)
        requires
            old(self).wf(),
        ensures
            final(self).wf(),
            final(self).card_count() == old(self).card_count(),
            final(self).all_cards() == old(self).all_cards(),
            stacks_in_sequence(final(self).played()),
            r is Ok ==> final(self).hint_tokens() == match play {
                HanabiMove::Hint(_) => (old(self).hint_tokens() - 1) as u8,
                HanabiMove::Discard(_) => if old(self).hint_tokens() < MAX_HINTS {
                    (old(self).hint_tokens() + 1) as u8
                } else {
                    old(self).hint_tokens()
                },
                HanabiMove::Play(_) => old(self).hint_tokens(),
            },
            match r {
                Ok(()) => old(self).accepts(play, requesting_player_uid) && old(self).applied(
                    play,
                    *final(self),
                ),
                Err(e) => {
                    &&& *final(self) == *old(self)
                    &&& !old(self).accepts(play, requesting_player_uid)
                    &&& (e is GameFinished <==> (old(self).has_uid(requesting_player_uid) && old(self).is_over()))
                    &&& (e is InvalidMove <==> !(old(self).has_uid(requesting_player_uid) && old(self).is_over()))
                },
            },
            forall|p: int|
                0 <= p < old(self).roster().len() && p != old(self).active() && (#[trigger] old(self).roster()[p]).token() == requesting_player_uid && !old(self).is_over() ==> (r matches Err(e)
                    && e is InvalidMove && *final(self) == *old(self)),
    {
        let requester_pub_id = match get_public_id(self.players.as_slice(), requesting_player_uid) {
            Ok(p) => p,
            Err(e) => {
                return Err(e);
            },
        };
        let ghost seat_found = choose|i: int|
            0 <= i < self.players@.len() && (#[trigger] self.players@[i]).token()
                == requesting_player_uid && requester_pub_id == self.players@[i].seat() && forall|
                j: int,
            |
                0 <= j < i ==> (#[trigger] self.players@[j]).token() != requesting_player_uid;
        proof {
            assert(self.players@[seat_found].seat() == seat_found);
            assert(is_first_with_uid(self.roster(), requesting_player_uid, seat_found));
            assert(self.has_uid(requesting_player_uid));
            assert forall|i: int| #[trigger]
                is_first_with_uid(self.roster(), requesting_player_uid, i) implies i
                == seat_found by {
                if i < seat_found {
                    assert(self.players@[i].token() != requesting_player_uid);
                } else if i > seat_found {
                    assert(self.players@[seat_found].token() != requesting_player_uid);
                }
            }
        }
        match self.finished() {
            GameResultState::Finished(_) => {
                return Err(HanabiError::GameFinished);
            },
            GameResultState::InProgress => {},
        }
        if self.active_player != requester_pub_id {
            return Err(HanabiError::InvalidMove("It's not your turn!".to_string()));
        }
        match self.legal_move(&play, requester_pub_id) {
            Ok(true) => {},
            Ok(false) => {
                return Err(HanabiError::InvalidMove("That move breaks the rules".to_string()));
            },
            Err(e) => {
                return Err(e);
            },
        }
        let ghost before = *self;
        let drew = match play {
            HanabiMove::Hint((target, hint)) => {
                self.hint_move(target, hint);
                false
            },
            HanabiMove::Discard(idx) => self.discard_move(idx),
            HanabiMove::Play(idx) => {
                let drew = self.play_card_move(idx);
                proof {
                    if playable(before.played(), before.roster()[before.active()].cards()[idx as int].0) {
                        assert(stacks_in_sequence(self.played()));
                    }
                }
                drew
            },
        };
        self.end_turn(drew);
        Ok(())
    }
}

} // verus!
