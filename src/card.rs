use vstd::prelude::*;

use crate::errors::HanabiError;
use std::collections::VecDeque;

verus! {

/// The five suits of the normal deck. They carry no order.
#[derive(Debug, Clone, Copy, PartialEq, Eq, Structural)]
pub enum Color {
    Red,
    White,
    Blue,
    Green,
    Yellow,
}

/// Card ranks, ordered `One < Two < ... < Five`.
#[derive(Debug, Clone, Copy, PartialEq, Eq, Structural, PartialOrd, Ord)]
pub enum Number {
    One,
    Two,
    Three,
    Four,
    Five,
}

/// The rank of a number as an integer, `One` being 1 and `Five` 5.
pub open spec fn rank(n: Number) -> nat {
    match n {
        Number::One => 1,
        Number::Two => 2,
        Number::Three => 3,
        Number::Four => 4,
        Number::Five => 5,
    }
}

/// The number of rank `k`, for `1 <= k <= 5`.
pub open spec fn number_of_rank(k: nat) -> Number
    recommends
        1 <= k <= 5,
{
    if k <= 1 {
        Number::One
    } else if k == 2 {
        Number::Two
    } else if k == 3 {
        Number::Three
    } else if k == 4 {
        Number::Four
    } else {
        Number::Five
    }
}

/// A card: a color and a number. Two cards with the same color and number
/// are equal; nothing else tells them apart.
#[derive(Debug, PartialEq, Eq, Structural)]
pub struct Card {
    color: Color,
    number: Number,
}

impl Card {
    pub closed spec fn spec_color(&self) -> Color {
        self.color
    }

    pub closed spec fn spec_number(&self) -> Number {
        self.number
    }

    /// A card is fully determined by its color and number.
    pub proof fn lemma_eq_by_fields(a: Card, b: Card)
        requires
            a.spec_color() == b.spec_color(),
            a.spec_number() == b.spec_number(),
        ensures
            a == b,
    {
    }

    pub fn new(color: Color, number: Number) -> (c: Card)
        ensures
            c.color() == color,
            c.number() == number,
    {
        Card { color, number }
    }

    #[verifier::when_used_as_spec(spec_color)]
    pub fn color(&self) -> (r: Color)
        ensures
            r == self.spec_color(),
    {
        self.color
    }

    #[verifier::when_used_as_spec(spec_number)]
    pub fn number(&self) -> (r: Number)
        ensures
            r == self.spec_number(),
    {
        self.number
    }

    /// A read-only handle on this card's color and number.
    pub fn view(&self) -> (v: CardView)
        ensures
            v.color() == self.color(),
            v.number() == self.number(),
    {
        CardView { inner: Card::new(self.color, self.number) }
    }
}

/// A read-only projection of a card: it exposes the card's color and number
/// and nothing can be changed through it.
#[derive(Debug)]
pub struct CardView {
    inner: Card,
}

impl CardView {
    pub closed spec fn spec_color(&self) -> Color {
        self.inner.color
    }

    pub closed spec fn spec_number(&self) -> Number {
        self.inner.number
    }

    #[verifier::when_used_as_spec(spec_color)]
    pub fn color(&self) -> (r: Color)
        ensures
            r == self.spec_color(),
    {
        self.inner.color
    }

    #[verifier::when_used_as_spec(spec_number)]
    pub fn number(&self) -> (r: Number)
        ensures
            r == self.spec_number(),
    {
        self.inner.number
    }
}

/// A set of colors, one flag per color.
#[derive(Debug, Clone, Copy, PartialEq, Eq, Structural)]
pub struct ColorKnowledge {
    red: bool,
    white: bool,
    blue: bool,
    green: bool,
    yellow: bool,
}

impl View for ColorKnowledge {
    type V = Set<Color>;

    closed spec fn view(&self) -> Set<Color> {
        Set::new(|c: Color| self.flag(c))
    }
}

impl ColorKnowledge {
    closed spec fn flag(&self, c: Color) -> bool {
        match c {
            Color::Red => self.red,
            Color::White => self.white,
            Color::Blue => self.blue,
            Color::Green => self.green,
            Color::Yellow => self.yellow,
        }
    }

    /// The empty set.
    pub fn none() -> (r: ColorKnowledge)
        ensures
            r@ == Set::<Color>::empty(),
    {
        let r = ColorKnowledge { red: false, white: false, blue: false, green: false, yellow: false };
        assert(r@ =~= Set::<Color>::empty());
        r
    }

    /// The set of all five colors.
    pub fn all() -> (r: ColorKnowledge)
        ensures
            r@ == Set::<Color>::full(),
    {
        let r = ColorKnowledge { red: true, white: true, blue: true, green: true, yellow: true };
        assert(r@ =~= Set::<Color>::full()) by {
            assert forall|c: Color| r@.contains(c) by {
                match c {
                    Color::Red => {},
                    Color::White => {},
                    Color::Blue => {},
                    Color::Green => {},
                    Color::Yellow => {},
                }
            }
        }
        r
    }

    /// The set holding `color` alone.
    pub fn only(color: Color) -> (r: ColorKnowledge)
        ensures
            r@ == Set::<Color>::empty().insert(color),
    {
        let r = ColorKnowledge::from(color);
        assert(r@ =~= Set::<Color>::empty().insert(color));
        r
    }

    pub fn contains(&self, color: Color) -> (r: bool)
        ensures
            r == self@.contains(color),
    {
        match color {
            Color::Red => self.red,
            Color::White => self.white,
            Color::Blue => self.blue,
            Color::Green => self.green,
            Color::Yellow => self.yellow,
        }
    }

    /// This set with `color` added.
    pub fn with(self, color: Color) -> (r: ColorKnowledge)
        ensures
            r@ == self@.insert(color),
    {
        let mut r = self;
        match color {
            Color::Red => r.red = true,
            Color::White => r.white = true,
            Color::Blue => r.blue = true,
            Color::Green => r.green = true,
            Color::Yellow => r.yellow = true,
        }
        assert(r@ =~= self@.insert(color));
        r
    }

    /// This set with `color` taken out.
    pub fn without(self, color: Color) -> (r: ColorKnowledge)
        ensures
            r@ == self@.remove(color),
    {
        let mut r = self;
        match color {
            Color::Red => r.red = false,
            Color::White => r.white = false,
            Color::Blue => r.blue = false,
            Color::Green => r.green = false,
            Color::Yellow => r.yellow = false,
        }
        assert(r@ =~= self@.remove(color));
        r
    }

    /// Whether the set holds all five colors.
    pub fn is_all(&self) -> (r: bool)
        ensures
            r == (self@ == Set::<Color>::full()),
    {
        let r = self.red && self.white && self.blue && self.green && self.yellow;
        if r {
            assert(self@ =~= Set::<Color>::full()) by {
                assert forall|c: Color| self@.contains(c) by {
                    match c {
                        Color::Red => {},
                        Color::White => {},
                        Color::Blue => {},
                        Color::Green => {},
                        Color::Yellow => {},
                    }
                }
            }
        } else {
            assert(!self@.contains(Color::Red) || !self@.contains(Color::White)
                || !self@.contains(Color::Blue) || !self@.contains(Color::Green)
                || !self@.contains(Color::Yellow));
        }
        r
    }
}

impl From<Color> for ColorKnowledge {
    /// The set holding `color` alone.
    fn from(color: Color) -> (r: ColorKnowledge) {
        let r = ColorKnowledge { red: color == Color::Red, white: color == Color::White, blue: color == Color::Blue, green: color == Color::Green, yellow: color == Color::Yellow };
        r
    }
}

impl vstd::std_specs::convert::FromSpecImpl<Color> for ColorKnowledge {
    open spec fn obeys_from_spec() -> bool {
        true
    }

    closed spec fn from_spec(color: Color) -> ColorKnowledge {
        ColorKnowledge { red: color == Color::Red, white: color == Color::White, blue: color == Color::Blue, green: color == Color::Green, yellow: color == Color::Yellow }
    }
}

impl Default for ColorKnowledge {
    fn default() -> (r: ColorKnowledge)
        ensures
            r@ == Set::<Color>::empty(),
    {
        ColorKnowledge::none()
    }
}

/// A set of numbers, one flag per number.
#[derive(Debug, Clone, Copy, PartialEq, Eq, Structural)]
pub struct NumberKnowledge {
    one: bool,
    two: bool,
    three: bool,
    four: bool,
    five: bool,
}

impl View for NumberKnowledge {
    type V = Set<Number>;

    closed spec fn view(&self) -> Set<Number> {
        Set::new(|c: Number| self.flag(c))
    }
}

impl NumberKnowledge {
    closed spec fn flag(&self, c: Number) -> bool {
        match c {
            Number::One => self.one,
            Number::Two => self.two,
            Number::Three => self.three,
            Number::Four => self.four,
            Number::Five => self.five,
        }
    }

    /// The empty set.
    pub fn none() -> (r: NumberKnowledge)
        ensures
            r@ == Set::<Number>::empty(),
    {
        let r = NumberKnowledge { one: false, two: false, three: false, four: false, five: false };
        assert(r@ =~= Set::<Number>::empty());
        r
    }

    /// The set of all five numbers.
    pub fn all() -> (r: NumberKnowledge)
        ensures
            r@ == Set::<Number>::full(),
    {
        let r = NumberKnowledge { one: true, two: true, three: true, four: true, five: true };
        assert(r@ =~= Set::<Number>::full()) by {
            assert forall|c: Number| r@.contains(c) by {
                match c {
                    Number::One => {},
                    Number::Two => {},
                    Number::Three => {},
                    Number::Four => {},
                    Number::Five => {},
                }
            }
        }
        r
    }

    /// The set holding `number` alone.
    pub fn only(number: Number) -> (r: NumberKnowledge)
        ensures
            r@ == Set::<Number>::empty().insert(number),
    {
        let r = NumberKnowledge::from(number);
        assert(r@ =~= Set::<Number>::empty().insert(number));
        r
    }

    pub fn contains(&self, number: Number) -> (r: bool)
        ensures
            r == self@.contains(number),
    {
        match number {
            Number::One => self.one,
            Number::Two => self.two,
            Number::Three => self.three,
            Number::Four => self.four,
            Number::Five => self.five,
        }
    }

    /// This set with `number` added.
    pub fn with(self, number: Number) -> (r: NumberKnowledge)
        ensures
            r@ == self@.insert(number),
    {
        let mut r = self;
        match number {
            Number::One => r.one = true,
            Number::Two => r.two = true,
            Number::Three => r.three = true,
            Number::Four => r.four = true,
            Number::Five => r.five = true,
        }
        assert(r@ =~= self@.insert(number));
        r
    }

    /// This set with `number` taken out.
    pub fn without(self, number: Number) -> (r: NumberKnowledge)
        ensures
            r@ == self@.remove(number),
    {
        let mut r = self;
        match number {
            Number::One => r.one = false,
            Number::Two => r.two = false,
            Number::Three => r.three = false,
            Number::Four => r.four = false,
            Number::Five => r.five = false,
        }
        assert(r@ =~= self@.remove(number));
        r
    }

    /// Whether the set holds all five numbers.
    pub fn is_all(&self) -> (r: bool)
        ensures
            r == (self@ == Set::<Number>::full()),
    {
        let r = self.one && self.two && self.three && self.four && self.five;
        if r {
            assert(self@ =~= Set::<Number>::full()) by {
                assert forall|c: Number| self@.contains(c) by {
                    match c {
                        Number::One => {},
                        Number::Two => {},
                        Number::Three => {},
                        Number::Four => {},
                        Number::Five => {},
                    }
                }
            }
        } else {
            assert(!self@.contains(Number::One) || !self@.contains(Number::Two)
                || !self@.contains(Number::Three) || !self@.contains(Number::Four)
                || !self@.contains(Number::Five));
        }
        r
    }
}

impl From<Number> for NumberKnowledge {
    /// The set holding `number` alone.
    fn from(number: Number) -> (r: NumberKnowledge) {
        let r = NumberKnowledge { one: number == Number::One, two: number == Number::Two, three: number == Number::Three, four: number == Number::Four, five: number == Number::Five };
        r
    }
}

impl vstd::std_specs::convert::FromSpecImpl<Number> for NumberKnowledge {
    open spec fn obeys_from_spec() -> bool {
        true
    }

    closed spec fn from_spec(number: Number) -> NumberKnowledge {
        NumberKnowledge { one: number == Number::One, two: number == Number::Two, three: number == Number::Three, four: number == Number::Four, five: number == Number::Five }
    }
}

impl Default for NumberKnowledge {
    fn default() -> (r: NumberKnowledge)
        ensures
            r@ == Set::<Number>::empty(),
    {
        NumberKnowledge::none()
    }
}

/// What the hints given so far rule out for one card: the colors and the
/// numbers it cannot be. Nothing is ruled out before the first hint.
#[derive(Debug, Clone, Copy, PartialEq, Eq, Structural)]
pub struct CardKnowledge {
    pub not_these_colors: ColorKnowledge,
    pub not_these_numbers: NumberKnowledge,
}

impl CardKnowledge {
    /// A card must keep at least one possible color and one possible number.
    pub open spec fn wf(&self) -> bool {
        &&& self.not_these_colors@ != Set::<Color>::full()
        &&& self.not_these_numbers@ != Set::<Number>::full()
    }

    /// Knowledge of a card that no hint has touched.
    pub fn new() -> (r: CardKnowledge)
        ensures
            r.not_these_colors@ == Set::<Color>::empty(),
            r.not_these_numbers@ == Set::<Number>::empty(),
            r.wf(),
    {
        let r = CardKnowledge {
            not_these_colors: ColorKnowledge::none(),
            not_these_numbers: NumberKnowledge::none(),
        };
        assert(!Set::<Color>::empty().contains(Color::Red));
        assert(!Set::<Number>::empty().contains(Number::One));
        r
    }
}

impl Default for CardKnowledge {
    fn default() -> (r: CardKnowledge)
        ensures
            r.not_these_colors@ == Set::<Color>::empty(),
            r.not_these_numbers@ == Set::<Number>::empty(),
    {
        CardKnowledge::new()
    }
}

/// Records that the card is `color`: every other color is ruled out. Fails
/// with a logic error if `color` was already ruled out.
pub fn this_color(ck: CardKnowledge, color: Color) -> (r: Result<CardKnowledge, HanabiError>)
    ensures
        match r {
            Ok(k) => {
                &&& !ck.not_these_colors@.contains(color)
                &&& k.not_these_colors@ == Set::<Color>::full().remove(color)
                &&& k.not_these_numbers == ck.not_these_numbers
                &&& ck.not_these_colors@.subset_of(k.not_these_colors@)
                &&& (ck.wf() ==> k.wf())
            },
            Err(e) => ck.not_these_colors@.contains(color) && e is LogicError,
        },
{
    if ck.not_these_colors.contains(color) {
        return Err(
            HanabiError::LogicError(
                "Card was previously designated as not being this color, indicating an internal game logic error".to_string(),
            ),
        );
    }
    let confirmed = ColorKnowledge::all().without(color);
    assert(!confirmed@.contains(color) && Set::<Color>::full().contains(color));
    assert(ck.not_these_colors@.subset_of(confirmed@));
    Ok(
        CardKnowledge {
            not_these_colors: confirmed,
            not_these_numbers: ck.not_these_numbers,
        },
    )
}

/// Records that the card is `number`: every other number is ruled out.
/// Fails with a logic error if `number` was already ruled out.
pub fn this_number(ck: CardKnowledge, number: Number) -> (r: Result<CardKnowledge, HanabiError>)
    ensures
        match r {
            Ok(k) => {
                &&& !ck.not_these_numbers@.contains(number)
                &&& k.not_these_numbers@ == Set::<Number>::full().remove(number)
                &&& k.not_these_colors == ck.not_these_colors
                &&& ck.not_these_numbers@.subset_of(k.not_these_numbers@)
                &&& (ck.wf() ==> k.wf())
            },
            Err(e) => ck.not_these_numbers@.contains(number) && e is LogicError,
        },
{
    if ck.not_these_numbers.contains(number) {
        return Err(
            HanabiError::LogicError(
                "Card was previously designated as not being this number, indicating an internal game logic error".to_string(),
            ),
        );
    }
    let confirmed = NumberKnowledge::all().without(number);
    assert(!confirmed@.contains(number) && Set::<Number>::full().contains(number));
    assert(ck.not_these_numbers@.subset_of(confirmed@));
    Ok(
        CardKnowledge {
            not_these_colors: ck.not_these_colors,
            not_these_numbers: confirmed,
        },
    )
}

/// Records that the card is not `color`. Fails with a logic error if that
/// would rule out every color.
pub fn not_this_color(ck: CardKnowledge, color: Color) -> (r: Result<CardKnowledge, HanabiError>)
    ensures
        match r {
            Ok(k) => {
                &&& ck.not_these_colors@.insert(color) != Set::<Color>::full()
                &&& k.not_these_colors@ == ck.not_these_colors@.insert(color)
                &&& k.not_these_numbers == ck.not_these_numbers
                &&& ck.not_these_colors@.subset_of(k.not_these_colors@)
                &&& (ck.wf() ==> k.wf())
            },
            Err(e) => ck.not_these_colors@.insert(color) == Set::<Color>::full() && e is LogicError,
        },
{
    let new_colors = ck.not_these_colors.with(color);
    if new_colors.is_all() {
        Err(HanabiError::LogicError("Impossible for a card to not be every color".to_string()))
    } else {
        Ok(CardKnowledge { not_these_colors: new_colors, not_these_numbers: ck.not_these_numbers })
    }
}

/// Records that the card is not `number`. Fails with a logic error if that
/// would rule out every number.
pub fn not_this_number(ck: CardKnowledge, number: Number) -> (r: Result<CardKnowledge, HanabiError>)
    ensures
        match r {
            Ok(k) => {
                &&& ck.not_these_numbers@.insert(number) != Set::<Number>::full()
                &&& k.not_these_numbers@ == ck.not_these_numbers@.insert(number)
                &&& k.not_these_colors == ck.not_these_colors
                &&& ck.not_these_numbers@.subset_of(k.not_these_numbers@)
                &&& (ck.wf() ==> k.wf())
            },
            Err(e) => ck.not_these_numbers@.insert(number) == Set::<Number>::full() && e is LogicError,
        },
{
    let new_numbers = ck.not_these_numbers.with(number);
    if new_numbers.is_all() {
        Err(HanabiError::LogicError("Impossible for a card to not be every number".to_string()))
    } else {
        Ok(CardKnowledge { not_these_colors: ck.not_these_colors, not_these_numbers: new_numbers })
    }
}

/// Position of a color in the order in which decks are built.
pub open spec fn color_index(c: Color) -> nat {
    match c {
        Color::Red => 0,
        Color::White => 1,
        Color::Blue => 2,
        Color::Green => 3,
        Color::Yellow => 4,
    }
}

fn color_at(i: usize) -> (c: Color)
    requires
        i < 5,
    ensures
        color_index(c) == i,
{
    match i {
        0 => Color::Red,
        1 => Color::White,
        2 => Color::Blue,
        3 => Color::Green,
        _ => Color::Yellow,
    }
}

fn number_at(i: usize) -> (n: Number)
    requires
        i < 5,
    ensures
        rank(n) == i + 1,
{
    match i {
        0 => Number::One,
        1 => Number::Two,
        2 => Number::Three,
        3 => Number::Four,
        _ => Number::Five,
    }
}

/// How many copies of each number a frequency function asks for. It is
/// meaningful for a function that gives one answer per number.
pub open spec fn freq_of<F: Fn(&Number) -> u8>(f: F, n: Number) -> nat {
    (choose|k: u8| f.ensures((&n,), k)) as nat
}

/// A frequency function that can be called on every number and gives one
/// answer for each.
pub open spec fn is_frequency<F: Fn(&Number) -> u8>(f: F) -> bool {
    &&& forall|n: &Number| #[trigger] f.requires((n,))
    &&& forall|n: &Number, a: u8, b: u8|
        #[trigger] f.ensures((n,), a) && #[trigger] f.ensures((n,), b) ==> a == b
}

proof fn lemma_freq_of<F: Fn(&Number) -> u8>(f: F, n: Number, k: u8)
    requires
        is_frequency(f),
        f.ensures((&n,), k),
    ensures
        freq_of(f, n) == k,
{
    let j = choose|j: u8| f.ensures((&n,), j);
    assert(f.ensures((&n,), j));
}

/// Whether `c` is among the first `ci` colors, or is color `ci` with one
/// of the first `ni` numbers.
spec fn dealt_before(c: Card, ci: nat, ni: nat) -> bool {
    color_index(c.color()) < ci || (color_index(c.color()) == ci && rank(c.number()) <= ni)
}

/// The total number of cards that a frequency function asks for per color.
pub open spec fn freq_sum<F: Fn(&Number) -> u8>(f: F) -> nat {
    freq_of(f, Number::One) + freq_of(f, Number::Two) + freq_of(f, Number::Three) + freq_of(
        f,
        Number::Four,
    ) + freq_of(f, Number::Five)
}

spec fn freq_prefix<F: Fn(&Number) -> u8>(f: F, ni: nat) -> nat
    decreases ni,
{
    if ni == 0 {
        0
    } else {
        freq_prefix(f, (ni - 1) as nat) + freq_of(f, number_of_rank(ni))
    }
}

/// Builds a deck holding, for every color and number, as many copies of that
/// card as `card_frequencies` gives for the number. The order of the cards is
/// fixed but carries no meaning.
pub fn generate_deck<F: Fn(&Number) -> u8>(card_frequencies: F) -> (deck: VecDeque<Card>)
    requires
        is_frequency(card_frequencies),
    ensures
        forall|c: Card| #[trigger]
            deck@.to_multiset().count(c) == freq_of(card_frequencies, c.number()),
        deck@.len() == 5 * freq_sum(card_frequencies),
        forall|n: Number|
            card_frequencies.ensures((&n,), #[trigger] freq_of(card_frequencies, n) as u8),
{
    broadcast use vstd::seq_lib::group_to_multiset_ensures, vstd::multiset::group_multiset_axioms;

    let mut deck: VecDeque<Card> = VecDeque::new();
    let mut ci: usize = 0;
    while ci < 5
        invariant
            ci <= 5,
            is_frequency(card_frequencies),
            deck@.len() == ci * freq_sum(card_frequencies),
            ci > 0 ==> forall|n: Number|
                card_frequencies.ensures((&n,), #[trigger] freq_of(card_frequencies, n) as u8),
            forall|c: Card| #[trigger]
                deck@.to_multiset().count(c) == if color_index(c.color()) < ci {
                    freq_of(card_frequencies, c.number())
                } else {
                    0
                },
        decreases 5 - ci,
    {
        let col = color_at(ci);
        let mut ni: usize = 0;
        while ni < 5
            invariant
                ci < 5,
                ni <= 5,
                color_index(col) == ci,
                is_frequency(card_frequencies),
                deck@.len() == ci * freq_sum(card_frequencies) + freq_prefix(card_frequencies, ni as nat),
                ci > 0 ==> forall|n: Number|
                    card_frequencies.ensures((&n,), #[trigger] freq_of(card_frequencies, n) as u8),
                forall|n: Number|
                    rank(n) <= ni ==> card_frequencies.ensures(
                        (&n,),
                        #[trigger] freq_of(card_frequencies, n) as u8,
                    ),
                forall|c: Card| #[trigger]
                    deck@.to_multiset().count(c) == if dealt_before(c, ci as nat, ni as nat) {
                        freq_of(card_frequencies, c.number())
                    } else {
                        0
                    },
            decreases 5 - ni,
        {
            let num = number_at(ni);
            let k = card_frequencies(&num);
            proof {
                lemma_freq_of(card_frequencies, num, k);
            }
            let ghost before = deck@;
            let mut j: u8 = 0;
            while j < k
                invariant
                    j <= k,
                    deck@.len() == before.len() + j,
                    forall|c: Card| #[trigger]
                        deck@.to_multiset().count(c) == before.to_multiset().count(c) + if c.color()
                            == col && c.number() == num {
                            j as nat
                        } else {
                            0
                        },
                decreases k - j,
            {
                let card = Card::new(col, num);
                let ghost prev = deck@;
                deck.push_front(card);
                proof {
                    assert(deck@ == prev.insert(0, card));
                    vstd::seq_lib::to_multiset_insert(prev, 0, card);
                    assert(deck@.to_multiset() == prev.to_multiset().insert(card));
                    assert forall|c: Card| #[trigger]
                        deck@.to_multiset().count(c) == prev.to_multiset().count(c) + if c == card {
                            1nat
                        } else {
                            0
                        } by {
                        if c.color() == col && c.number() == num {
                            Card::lemma_eq_by_fields(c, card);
                        }
                    }
                    assert forall|c: Card| c == card <==> (c.color() == col && c.number() == num) by {
                        if c.color() == col && c.number() == num {
                            Card::lemma_eq_by_fields(c, card);
                        }
                    }
                }
                j = j + 1;
            }
            proof {
                assert(card_frequencies.ensures((&num,), freq_of(card_frequencies, num) as u8));
                assert(number_of_rank((ni + 1) as nat) == num);
                assert forall|c: Card| #[trigger]
                    deck@.to_multiset().count(c) == if dealt_before(c, ci as nat, (ni + 1) as nat) {
                        freq_of(card_frequencies, c.number())
                    } else {
                        0
                    } by {
                    if c.color() == col && c.number() == num {
                        assert(!dealt_before(c, ci as nat, ni as nat));
                    }
                }
            }
            ni = ni + 1;
        }
        proof {
            assert(freq_prefix(card_frequencies, 5) == freq_sum(card_frequencies)) by {
                reveal_with_fuel(freq_prefix, 6);
            }
            assert(deck@.len() == (ci + 1) * freq_sum(card_frequencies)) by (nonlinear_arith)
                requires
                    deck@.len() == ci * freq_sum(card_frequencies) + freq_sum(card_frequencies),
            ;
            assert forall|c: Card| #[trigger]
                deck@.to_multiset().count(c) == if color_index(c.color()) < ci + 1 {
                    freq_of(card_frequencies, c.number())
                } else {
                    0
                } by {
                assert(rank(c.number()) <= 5);
            }
        }
        ci = ci + 1;
    }
    deck
}

} // verus!
