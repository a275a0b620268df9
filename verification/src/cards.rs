//! Cards, hands, seats and deals, with the PBN deal notation
//! (`"N:AKQ.JT9.876.5432 ..."`): rendering, parsing and table rotation.

use vstd::prelude::*;
use crate::text::{chars_of, push_char, slice_chars, split_chars, split_on};

verus! {

/// A suit. Declaration order is the crate-wide order C, D, H, S.
#[derive(Clone, Copy, PartialEq, Eq, Debug, Structural)]
pub enum Suit {
    Clubs,
    Diamonds,
    Hearts,
    Spades,
}

/// A card rank, Two lowest and Ace highest.
#[derive(Clone, Copy, PartialEq, Eq, Debug, Structural)]
pub enum Rank {
    Two,
    Three,
    Four,
    Five,
    Six,
    Seven,
    Eight,
    Nine,
    Ten,
    Jack,
    Queen,
    King,
    Ace,
}

/// A playing card.
#[derive(Clone, Copy, PartialEq, Eq, Debug, Structural)]
pub struct Card {
    pub suit: Suit,
    pub rank: Rank,
}

/// A compass seat. Declaration order is N, E, S, W (clockwise).
#[derive(Clone, Copy, PartialEq, Eq, Debug, Structural)]
pub enum Direction {
    North,
    East,
    South,
    West,
}

/// A denomination: a trump suit or no trump. Order C, D, H, S, NT.
#[derive(Clone, Copy, PartialEq, Eq, Debug, Structural)]
pub enum Strain {
    Clubs,
    Diamonds,
    Hearts,
    Spades,
    NoTrump,
}

/// One player's cards, in the order they were given.
#[derive(Debug)]
pub struct Hand {
    pub cards: Vec<Card>,
}

/// The four hands of a board.
#[derive(Debug)]
pub struct Deal {
    pub north: Hand,
    pub east: Hand,
    pub south: Hand,
    pub west: Hand,
}

// ---------------------------------------------------------------------------
// Ranks
// ---------------------------------------------------------------------------

/// Numeric value of a rank: Two = 2, ..., Ten = 10, Jack = 11, ..., Ace = 14.
pub open spec fn rank_value(r: Rank) -> int {
    match r {
        Rank::Two => 2,
        Rank::Three => 3,
        Rank::Four => 4,
        Rank::Five => 5,
        Rank::Six => 6,
        Rank::Seven => 7,
        Rank::Eight => 8,
        Rank::Nine => 9,
        Rank::Ten => 10,
        Rank::Jack => 11,
        Rank::Queen => 12,
        Rank::King => 13,
        Rank::Ace => 14,
    }
}

/// The rank with a given value (2..=14).
pub open spec fn rank_of_value(v: int) -> Rank {
    if v <= 2 { Rank::Two }
    else if v == 3 { Rank::Three }
    else if v == 4 { Rank::Four }
    else if v == 5 { Rank::Five }
    else if v == 6 { Rank::Six }
    else if v == 7 { Rank::Seven }
    else if v == 8 { Rank::Eight }
    else if v == 9 { Rank::Nine }
    else if v == 10 { Rank::Ten }
    else if v == 11 { Rank::Jack }
    else if v == 12 { Rank::Queen }
    else if v == 13 { Rank::King }
    else { Rank::Ace }
}

/// The PBN character of a rank: `A K Q J T 9 ... 2`.
pub open spec fn rank_char(r: Rank) -> char {
    match r {
        Rank::Two => '2',
        Rank::Three => '3',
        Rank::Four => '4',
        Rank::Five => '5',
        Rank::Six => '6',
        Rank::Seven => '7',
        Rank::Eight => '8',
        Rank::Nine => '9',
        Rank::Ten => 'T',
        Rank::Jack => 'J',
        Rank::Queen => 'Q',
        Rank::King => 'K',
        Rank::Ace => 'A',
    }
}

/// The rank a PBN character names, if any.
pub open spec fn rank_from_char_spec(c: char) -> Option<Rank> {
    if c == '2' { Some(Rank::Two) }
    else if c == '3' { Some(Rank::Three) }
    else if c == '4' { Some(Rank::Four) }
    else if c == '5' { Some(Rank::Five) }
    else if c == '6' { Some(Rank::Six) }
    else if c == '7' { Some(Rank::Seven) }
    else if c == '8' { Some(Rank::Eight) }
    else if c == '9' { Some(Rank::Nine) }
    else if c == 'T' { Some(Rank::Ten) }
    else if c == 'J' { Some(Rank::Jack) }
    else if c == 'Q' { Some(Rank::Queen) }
    else if c == 'K' { Some(Rank::King) }
    else if c == 'A' { Some(Rank::Ace) }
    else { None }
}

impl Rank {
    /// Numeric value 2..=14.
    pub fn value(self) -> (v: u8)
        ensures
            v as int == rank_value(self),
            2 <= v <= 14,
    {
        match self {
            Rank::Two => 2,
            Rank::Three => 3,
            Rank::Four => 4,
            Rank::Five => 5,
            Rank::Six => 6,
            Rank::Seven => 7,
            Rank::Eight => 8,
            Rank::Nine => 9,
            Rank::Ten => 10,
            Rank::Jack => 11,
            Rank::Queen => 12,
            Rank::King => 13,
            Rank::Ace => 14,
        }
    }

    /// The rank with value `v`.
    pub fn from_value(v: u8) -> (r: Rank)
        requires
            2 <= v <= 14,
        ensures
            r == rank_of_value(v as int),
            rank_value(r) == v,
    {
        if v <= 2 { Rank::Two }
        else if v == 3 { Rank::Three }
        else if v == 4 { Rank::Four }
        else if v == 5 { Rank::Five }
        else if v == 6 { Rank::Six }
        else if v == 7 { Rank::Seven }
        else if v == 8 { Rank::Eight }
        else if v == 9 { Rank::Nine }
        else if v == 10 { Rank::Ten }
        else if v == 11 { Rank::Jack }
        else if v == 12 { Rank::Queen }
        else if v == 13 { Rank::King }
        else { Rank::Ace }
    }

    /// The PBN character.
    pub fn to_char(self) -> (c: char)
        ensures
            c == rank_char(self),
    {
        match self {
            Rank::Two => '2',
            Rank::Three => '3',
            Rank::Four => '4',
            Rank::Five => '5',
            Rank::Six => '6',
            Rank::Seven => '7',
            Rank::Eight => '8',
            Rank::Nine => '9',
            Rank::Ten => 'T',
            Rank::Jack => 'J',
            Rank::Queen => 'Q',
            Rank::King => 'K',
            Rank::Ace => 'A',
        }
    }

    /// Parses a PBN rank character.
    pub fn from_char(c: char) -> (r: Option<Rank>)
        ensures
            r == rank_from_char_spec(c),
    {
        if c == '2' { Some(Rank::Two) }
        else if c == '3' { Some(Rank::Three) }
        else if c == '4' { Some(Rank::Four) }
        else if c == '5' { Some(Rank::Five) }
        else if c == '6' { Some(Rank::Six) }
        else if c == '7' { Some(Rank::Seven) }
        else if c == '8' { Some(Rank::Eight) }
        else if c == '9' { Some(Rank::Nine) }
        else if c == 'T' { Some(Rank::Ten) }
        else if c == 'J' { Some(Rank::Jack) }
        else if c == 'Q' { Some(Rank::Queen) }
        else if c == 'K' { Some(Rank::King) }
        else if c == 'A' { Some(Rank::Ace) }
        else { None }
    }
}

// ---------------------------------------------------------------------------
// Suits, seats, strains
// ---------------------------------------------------------------------------

/// The PBN letter of a suit.
pub open spec fn suit_char(s: Suit) -> char {
    match s {
        Suit::Clubs => 'C',
        Suit::Diamonds => 'D',
        Suit::Hearts => 'H',
        Suit::Spades => 'S',
    }
}

impl Suit {
    /// The PBN letter.
    pub fn to_char(self) -> (c: char)
        ensures
            c == suit_char(self),
    {
        match self {
            Suit::Clubs => 'C',
            Suit::Diamonds => 'D',
            Suit::Hearts => 'H',
            Suit::Spades => 'S',
        }
    }
}

/// Seat index in the fixed order N=0, E=1, S=2, W=3.
pub open spec fn dir_index_spec(d: Direction) -> int {
    match d {
        Direction::North => 0,
        Direction::East => 1,
        Direction::South => 2,
        Direction::West => 3,
    }
}

/// The seat with index `i % 4`.
pub open spec fn dir_at(i: int) -> Direction {
    let k = i % 4;
    if k == 0 { Direction::North }
    else if k == 1 { Direction::East }
    else if k == 2 { Direction::South }
    else { Direction::West }
}

/// The seat's PBN letter.
pub open spec fn dir_char(d: Direction) -> char {
    match d {
        Direction::North => 'N',
        Direction::East => 'E',
        Direction::South => 'S',
        Direction::West => 'W',
    }
}

/// The seat a letter names, if any.
pub open spec fn dir_from_char_spec(c: char) -> Option<Direction> {
    if c == 'N' { Some(Direction::North) }
    else if c == 'E' { Some(Direction::East) }
    else if c == 'S' { Some(Direction::South) }
    else if c == 'W' { Some(Direction::West) }
    else { None }
}

/// The partner of a seat.
pub open spec fn partner_spec(d: Direction) -> Direction {
    dir_at(dir_index_spec(d) + 2)
}

/// Two seats belong to the same partnership.
pub open spec fn same_side(a: Direction, b: Direction) -> bool {
    dir_index_spec(a) % 2 == dir_index_spec(b) % 2
}

pub proof fn lemma_dir_index(d: Direction)
    ensures
        0 <= dir_index_spec(d) < 4,
        dir_at(dir_index_spec(d)) == d,
        dir_index_spec(dir_at(dir_index_spec(d))) == dir_index_spec(d),
{
}

pub proof fn lemma_dir_at(i: int)
    ensures
        dir_index_spec(dir_at(i)) == i % 4,
{
}

impl Direction {
    /// Seat index N=0, E=1, S=2, W=3.
    pub fn index(self) -> (i: usize)
        ensures
            i as int == dir_index_spec(self),
            i < 4,
    {
        match self {
            Direction::North => 0,
            Direction::East => 1,
            Direction::South => 2,
            Direction::West => 3,
        }
    }

    /// The seat with index `i % 4`.
    pub fn from_index(i: usize) -> (d: Direction)
        ensures
            d == dir_at(i as int),
    {
        let k = i % 4;
        if k == 0 { Direction::North }
        else if k == 1 { Direction::East }
        else if k == 2 { Direction::South }
        else { Direction::West }
    }

    /// The PBN letter.
    pub fn to_char(self) -> (c: char)
        ensures
            c == dir_char(self),
    {
        match self {
            Direction::North => 'N',
            Direction::East => 'E',
            Direction::South => 'S',
            Direction::West => 'W',
        }
    }

    /// Parses a seat letter.
    pub fn from_char(c: char) -> (d: Option<Direction>)
        ensures
            d == dir_from_char_spec(c),
    {
        if c == 'N' { Some(Direction::North) }
        else if c == 'E' { Some(Direction::East) }
        else if c == 'S' { Some(Direction::South) }
        else if c == 'W' { Some(Direction::West) }
        else { None }
    }

    /// The partner seat.
    pub fn partner(self) -> (p: Direction)
        ensures
            p == partner_spec(self),
    {
        match self {
            Direction::North => Direction::South,
            Direction::South => Direction::North,
            Direction::East => Direction::West,
            Direction::West => Direction::East,
        }
    }

    /// The next seat clockwise.
    pub fn next(self) -> (n: Direction)
        ensures
            n == dir_at(dir_index_spec(self) + 1),
    {
        match self {
            Direction::North => Direction::East,
            Direction::East => Direction::South,
            Direction::South => Direction::West,
            Direction::West => Direction::North,
        }
    }
}

/// The suit a strain names as trumps, if any.
pub open spec fn strain_suit_spec(s: Strain) -> Option<Suit> {
    match s {
        Strain::Clubs => Some(Suit::Clubs),
        Strain::Diamonds => Some(Suit::Diamonds),
        Strain::Hearts => Some(Suit::Hearts),
        Strain::Spades => Some(Suit::Spades),
        Strain::NoTrump => None,
    }
}

/// The trump suit of a strain, if any.
pub fn strain_suit(s: Strain) -> (r: Option<Suit>)
    ensures
        r == strain_suit_spec(s),
{
    match s {
        Strain::Clubs => Some(Suit::Clubs),
        Strain::Diamonds => Some(Suit::Diamonds),
        Strain::Hearts => Some(Suit::Hearts),
        Strain::Spades => Some(Suit::Spades),
        Strain::NoTrump => None,
    }
}

// ---------------------------------------------------------------------------
// Hands
// ---------------------------------------------------------------------------

/// The cards of `h` in suit `s`, in hand order.
pub open spec fn suit_cards(h: Seq<Card>, s: Suit) -> Seq<Card>
    decreases h.len(),
{
    if h.len() == 0 {
        Seq::empty()
    } else if h.last().suit == s {
        suit_cards(h.drop_last(), s).push(h.last())
    } else {
        suit_cards(h.drop_last(), s)
    }
}

pub proof fn lemma_suit_cards(h: Seq<Card>, s: Suit)
    ensures
        suit_cards(h, s).len() <= h.len(),
        forall|i: int| 0 <= i < suit_cards(h, s).len() ==> (#[trigger] suit_cards(h, s)[i]).suit == s,
        forall|c: Card| c.suit == s ==> (suit_cards(h, s).contains(c) <==> h.contains(c)),
    decreases h.len(),
{
    if h.len() > 0 {
        let t = h.drop_last();
        lemma_suit_cards(t, s);
        assert forall|c: Card| c.suit == s && h.contains(c) implies suit_cards(h, s).contains(c) by {
            let i = choose|i: int| 0 <= i < h.len() && h[i] == c;
            if i < h.len() - 1 {
                assert(t[i] == c);
                assert(t.contains(c));
                let j = choose|j: int| 0 <= j < suit_cards(t, s).len() && suit_cards(t, s)[j] == c;
                if h.last().suit == s {
                    assert(suit_cards(h, s)[j] == c);
                } else {
                    assert(suit_cards(h, s)[j] == c);
                }
            } else {
                assert(suit_cards(h, s)[suit_cards(h, s).len() - 1] == c);
            }
        }
        assert forall|c: Card| c.suit == s && suit_cards(h, s).contains(c) implies h.contains(c) by {
            let i = choose|i: int| 0 <= i < suit_cards(h, s).len() && suit_cards(h, s)[i] == c;
            if h.last().suit == s && i == suit_cards(h, s).len() - 1 {
                assert(h[h.len() - 1] == c);
            } else {
                assert(suit_cards(t, s)[i] == c);
                assert(suit_cards(t, s).contains(c));
                assert(t.contains(c));
                let j = choose|j: int| 0 <= j < t.len() && t[j] == c;
                assert(h[j] == c);
            }
        }
    }
}

impl Hand {
    /// A hand holding these cards.
    pub fn from_cards(cards: Vec<Card>) -> (h: Hand)
        ensures
            h.cards@ == cards@,
    {
        Hand { cards }
    }

    /// An empty hand.
    pub fn empty() -> (h: Hand)
        ensures
            h.cards@ == Seq::<Card>::empty(),
    {
        Hand { cards: Vec::new() }
    }

    /// The cards, in hand order.
    pub fn cards(&self) -> (r: &Vec<Card>)
        ensures
            r@ == self.cards@,
    {
        &self.cards
    }

    /// Number of cards.
    pub fn len(&self) -> (n: usize)
        ensures
            n == self.cards@.len(),
    {
        self.cards.len()
    }

    /// The cards in suit `s`, in hand order.
    pub fn cards_in_suit(&self, s: Suit) -> (r: Vec<Card>)
        ensures
            r@ == suit_cards(self.cards@, s),
    {
        let mut r: Vec<Card> = Vec::new();
        for i in 0..self.cards.len()
            invariant
                r@ == suit_cards(self.cards@.take(i as int), s),
        {
            let c = self.cards[i];
            assert(self.cards@.take(i + 1).drop_last() =~= self.cards@.take(i as int));
            if c.suit == s {
                r.push(c);
            }
        }
        assert(self.cards@.take(self.cards.len() as int) =~= self.cards@);
        r
    }

    /// Number of cards in suit `s`.
    pub fn suit_length(&self, s: Suit) -> (n: usize)
        ensures
            n == suit_cards(self.cards@, s).len(),
    {
        let v = self.cards_in_suit(s);
        v.len()
    }

    /// Whether the hand holds card `c`.
    pub fn holds(&self, c: Card) -> (r: bool)
        ensures
            r == self.cards@.contains(c),
    {
        for i in 0..self.cards.len()
            invariant
                forall|j: int| 0 <= j < i ==> self.cards@[j] != c,
        {
            if self.cards[i] == c {
                return true;
            }
        }
        false
    }

    /// A copy of the hand.
    pub fn copy(&self) -> (h: Hand)
        ensures
            h.cards@ == self.cards@,
    {
        let mut v: Vec<Card> = Vec::new();
        for i in 0..self.cards.len()
            invariant
                v@ == self.cards@.take(i as int),
        {
            v.push(self.cards[i]);
            assert(self.cards@.take(i + 1) =~= self.cards@.take(i as int).push(self.cards@[i as int]));
        }
        assert(self.cards@.take(self.cards.len() as int) =~= self.cards@);
        Hand { cards: v }
    }
}

// ---------------------------------------------------------------------------
// Deals
// ---------------------------------------------------------------------------

/// The cards held at a seat.
pub open spec fn hand_of(d: &Deal, seat: Direction) -> Seq<Card> {
    match seat {
        Direction::North => d.north.cards@,
        Direction::East => d.east.cards@,
        Direction::South => d.south.cards@,
        Direction::West => d.west.cards@,
    }
}

/// The mathematical content of a deal: the four holdings in N, E, S, W order.
pub open spec fn deal_view(d: &Deal) -> Seq<Seq<Card>> {
    seq![d.north.cards@, d.east.cards@, d.south.cards@, d.west.cards@]
}

/// The deal rotated `k` seats clockwise: the holding at seat `i` is the one
/// that was at seat `i - k`.
pub open spec fn rotated(v: Seq<Seq<Card>>, k: int) -> Seq<Seq<Card>> {
    Seq::new(4, |i: int| v[(i + 4 - k % 4) % 4])
}

impl Deal {
    /// A deal with four empty hands.
    pub fn empty() -> (d: Deal)
        ensures
            forall|s: Direction| hand_of(&d, s) == Seq::<Card>::empty(),
    {
        Deal { north: Hand::empty(), east: Hand::empty(), south: Hand::empty(), west: Hand::empty() }
    }

    /// The hand at a seat.
    pub fn hand(&self, seat: Direction) -> (h: &Hand)
        ensures
            h.cards@ == hand_of(self, seat),
    {
        match seat {
            Direction::North => &self.north,
            Direction::East => &self.east,
            Direction::South => &self.south,
            Direction::West => &self.west,
        }
    }

    /// Replaces the hand at a seat.
    pub fn set_hand(&mut self, seat: Direction, h: Hand)
        ensures
            hand_of(final(self), seat) == h.cards@,
            forall|o: Direction| o != seat ==> hand_of(final(self), o) == hand_of(old(self), o),
    {
        match seat {
            Direction::North => self.north = h,
            Direction::East => self.east = h,
            Direction::South => self.south = h,
            Direction::West => self.west = h,
        }
    }

    /// A copy of the deal.
    pub fn copy(&self) -> (d: Deal)
        ensures
            forall|s: Direction| hand_of(&d, s) == hand_of(self, s),
            deal_view(&d) == deal_view(self),
    {
        Deal {
            north: self.north.copy(),
            east: self.east.copy(),
            south: self.south.copy(),
            west: self.west.copy(),
        }
    }

    /// The deal rotated `k` seats clockwise (N→E→S→W): the hand now at seat
    /// `i` is the one that was at seat `i - k`.
    pub fn rotate(&self, k: usize) -> (d: Deal)
        ensures
            deal_view(&d) == rotated(deal_view(self), k as int),
    {
        let kk = k % 4;
        let mut d = Deal::empty();
        let mut i: usize = 0;
        while i < 4
            invariant
                kk == k % 4,
                i <= 4,
                forall|j: int| 0 <= j < i ==> #[trigger] hand_of(&d, dir_at(j)) == deal_view(self)[(j + 4 - kk) % 4],
            decreases 4 - i,
        {
            let src = Direction::from_index((i + 4 - kk) % 4);
            let h = self.hand(src).copy();
            let seat = Direction::from_index(i);
            let ghost before = d;
            d.set_hand(seat, h);
            proof {
                assert forall|j: int| 0 <= j < i + 1 implies #[trigger] hand_of(&d, dir_at(j)) == deal_view(self)[(j + 4 - kk) % 4] by {
                    if j < i {
                        assert(dir_at(j) != dir_at(i as int));
                        assert(hand_of(&d, dir_at(j)) == hand_of(&before, dir_at(j)));
                    }
                }
            }
            i += 1;
        }
        proof {
            assert(hand_of(&d, dir_at(0)) == d.north.cards@);
            assert(hand_of(&d, dir_at(1)) == d.east.cards@);
            assert(hand_of(&d, dir_at(2)) == d.south.cards@);
            assert(hand_of(&d, dir_at(3)) == d.west.cards@);
            assert(deal_view(&d) =~= rotated(deal_view(self), k as int));
        }
        d
    }
}

/// Rotating by `a` and then by `b` is rotating by `a + b`.
pub proof fn lemma_rotate_compose(v: Seq<Seq<Card>>, a: int, b: int)
    requires
        v.len() == 4,
        0 <= a < 4,
        0 <= b < 4,
    ensures
        rotated(rotated(v, a), b) == rotated(v, (a + b) % 4),
{
    let c = (a + b) % 4;
    assert(a + b < 4 ==> c == a + b);
    assert(a + b >= 4 ==> c == a + b - 4);
    assert forall|i: int| 0 <= i < 4 implies #[trigger] rotated(rotated(v, a), b)[i] == rotated(v, c)[i] by {
        let j = (i + 4 - b) % 4;
        assert(0 <= j < 4);
        assert(rotated(rotated(v, a), b)[i] == rotated(v, a)[j]);
        assert(rotated(v, a)[j] == v[(j + 4 - a) % 4]);
        assert(rotated(v, c)[i] == v[(i + 4 - c) % 4]);
        assert((j + 4 - a) % 4 == (i + 4 - c) % 4);
    }
    assert(rotated(rotated(v, a), b) =~= rotated(v, c));
}

// ---------------------------------------------------------------------------
// PBN rendering
// ---------------------------------------------------------------------------

/// The PBN holding of suit `s` over the `n` highest ranks: the rank letters
/// of the cards the hand holds, highest first.
pub open spec fn holding_upto(h: Seq<Card>, s: Suit, n: int) -> Seq<char>
    decreases n,
{
    if n <= 0 {
        Seq::empty()
    } else {
        let r = rank_of_value(15 - n);
        holding_upto(h, s, n - 1) + if h.contains(Card { suit: s, rank: r }) {
            seq![rank_char(r)]
        } else {
            Seq::empty()
        }
    }
}

/// The PBN holding of one suit.
pub open spec fn holding(h: Seq<Card>, s: Suit) -> Seq<char> {
    holding_upto(h, s, 13)
}

/// The PBN text of a hand: spades, hearts, diamonds, clubs, separated by `.`.
pub open spec fn pbn_hand(h: Seq<Card>) -> Seq<char> {
    holding(h, Suit::Spades) + seq!['.'] + holding(h, Suit::Hearts) + seq!['.'] + holding(
        h,
        Suit::Diamonds,
    ) + seq!['.'] + holding(h, Suit::Clubs)
}

/// The PBN text of a deal starting at seat `first`: the seat letter, `:`,
/// then the four hands clockwise from `first`, separated by spaces.
pub open spec fn pbn_deal(v: Seq<Seq<Card>>, first: int) -> Seq<char> {
    seq![dir_char(dir_at(first)), ':'] + pbn_hand(v[first % 4]) + seq![' '] + pbn_hand(
        v[(first + 1) % 4],
    ) + seq![' '] + pbn_hand(v[(first + 2) % 4]) + seq![' '] + pbn_hand(v[(first + 3) % 4])
}

fn push_holding(out: &mut String, h: &Hand, s: Suit)
    ensures
        final(out)@ == old(out)@ + holding(h.cards@, s),
{
    let ghost start = out@;
    let mut n: u8 = 0;
    while n < 13
        invariant
            n <= 13,
            out@ == start + holding_upto(h.cards@, s, n as int),
        decreases 13 - n,
    {
        let r = Rank::from_value(14 - n);
        n += 1;
        let ghost before = out@;
        if h.holds(Card { suit: s, rank: r }) {
            push_char(out, r.to_char());
            assert(out@ =~= start + holding_upto(h.cards@, s, n as int));
        } else {
            assert(out@ =~= start + holding_upto(h.cards@, s, n as int));
        }
    }
}

fn push_pbn_hand(out: &mut String, h: &Hand)
    ensures
        final(out)@ == old(out)@ + pbn_hand(h.cards@),
{
    let ghost start = out@;
    push_holding(out, h, Suit::Spades);
    push_char(out, '.');
    push_holding(out, h, Suit::Hearts);
    push_char(out, '.');
    push_holding(out, h, Suit::Diamonds);
    push_char(out, '.');
    push_holding(out, h, Suit::Clubs);
    assert(out@ =~= start + pbn_hand(h.cards@));
}

/// The holding at seat `dir_at(j)` is entry `j % 4` of the deal's view.
pub proof fn lemma_hand_at(d: &Deal, j: int)
    requires
        j >= 0,
    ensures
        hand_of(d, dir_at(j)) == deal_view(d)[j % 4],
{
}

impl Deal {
    /// The PBN deal text starting at seat `first`, hands clockwise.
    pub fn to_pbn(&self, first: Direction) -> (s: String)
        ensures
            s@ == pbn_deal(deal_view(self), dir_index_spec(first)),
    {
        let ghost v = deal_view(self);
        let f = first.index();
        let mut s = String::new();
        push_char(&mut s, first.to_char());
        push_char(&mut s, ':');
        let ghost s0 = s@;
        proof {
            lemma_hand_at(self, f as int);
            lemma_hand_at(self, f + 1);
            lemma_hand_at(self, f + 2);
            lemma_hand_at(self, f + 3);
        }
        push_pbn_hand(&mut s, self.hand(Direction::from_index(f)));
        push_char(&mut s, ' ');
        let ghost s1 = s@;
        push_pbn_hand(&mut s, self.hand(Direction::from_index(f + 1)));
        push_char(&mut s, ' ');
        let ghost s2 = s@;
        push_pbn_hand(&mut s, self.hand(Direction::from_index(f + 2)));
        push_char(&mut s, ' ');
        let ghost s3 = s@;
        push_pbn_hand(&mut s, self.hand(Direction::from_index(f + 3)));
        proof {
            assert(dir_at(dir_index_spec(first)) == first);
            assert(s0 =~= seq![dir_char(first), ':']);
            assert(s1 =~= s0 + pbn_hand(v[(f as int) % 4]) + seq![' ']);
            assert(s2 =~= s1 + pbn_hand(v[(f + 1) % 4]) + seq![' ']);
            assert(s3 =~= s2 + pbn_hand(v[(f + 2) % 4]) + seq![' ']);
            assert(s@ =~= s3 + pbn_hand(v[(f + 3) % 4]));
            assert(s@ =~= pbn_deal(v, dir_index_spec(first)));
        }
        s
    }
}

// ---------------------------------------------------------------------------
// PBN parsing
// ---------------------------------------------------------------------------

/// The suit of the `i`-th holding in PBN order (S, H, D, C).
pub open spec fn pbn_suit(i: int) -> Suit {
    if i == 0 { Suit::Spades }
    else if i == 1 { Suit::Hearts }
    else if i == 2 { Suit::Diamonds }
    else { Suit::Clubs }
}

/// Reads the holdings of one hand left to right: rank letters go to the
/// current suit, `.` moves to the next suit (S, H, D, C). The state is the
/// number of dots seen and the cards read so far.
pub open spec fn hand_parse_state(cs: Seq<char>) -> Option<(int, Seq<Card>)>
    decreases cs.len(),
{
    if cs.len() == 0 {
        Some((0, Seq::empty()))
    } else {
        match hand_parse_state(cs.drop_last()) {
            None => None,
            Some((k, cards)) => {
                let c = cs.last();
                if c == '.' {
                    if k < 3 { Some((k + 1, cards)) } else { None }
                } else {
                    match rank_from_char_spec(c) {
                        Some(r) => Some((k, cards.push(Card { suit: pbn_suit(k), rank: r }))),
                        None => None,
                    }
                }
            },
        }
    }
}

/// The cards of a PBN hand (exactly four holdings), if well formed.
pub open spec fn parse_hand(cs: Seq<char>) -> Option<Seq<Card>> {
    match hand_parse_state(cs) {
        Some((k, cards)) => if k == 3 { Some(cards) } else { None },
        None => None,
    }
}

/// The four holdings (N, E, S, W order) of a PBN deal text: a seat letter,
/// `:`, then four hands separated by single spaces, clockwise from that seat.
pub open spec fn parse_deal(s: Seq<char>) -> Option<Seq<Seq<Card>>> {
    if s.len() < 2 || s[1] != ':' {
        None
    } else {
        match dir_from_char_spec(s[0]) {
            None => None,
            Some(first) => {
                let parts = split_on(s.skip(2), ' ');
                if parts.len() != 4 {
                    None
                } else if parse_hand(parts[0]) is Some && parse_hand(parts[1]) is Some
                    && parse_hand(parts[2]) is Some && parse_hand(parts[3]) is Some {
                    let f = dir_index_spec(first);
                    Some(Seq::new(4, |i: int| parse_hand(parts[(i + 4 - f) % 4])->0))
                } else {
                    None
                }
            },
        }
    }
}

fn parse_hand_exec(cs: &Vec<char>) -> (r: Option<Hand>)
    ensures
        r is Some <==> parse_hand(cs@) is Some,
        r matches Some(h) ==> parse_hand(cs@) == Some(h.cards@),
{
    let mut k: usize = 0;
    let mut cards: Vec<Card> = Vec::new();
    let suits = [Suit::Spades, Suit::Hearts, Suit::Diamonds, Suit::Clubs];
    for i in 0..cs.len()
        invariant
            hand_parse_state(cs@.take(i as int)) == Some((k as int, cards@)),
            k <= 3,
            forall|j: int| 0 <= j < 4 ==> suits@[j] == pbn_suit(j),
    {
        let c = cs[i];
        assert(cs@.take(i + 1).drop_last() =~= cs@.take(i as int));
        assert(cs@.take(i + 1).last() == c);
        if c == '.' {
            if k < 3 {
                k += 1;
            } else {
                proof {
                    lemma_parse_state_stays_none(cs@, i as int + 1);
                }
                return None;
            }
        } else {
            match Rank::from_char(c) {
                Some(r) => {
                    cards.push(Card { suit: suits[k], rank: r });
                },
                None => {
                    proof {
                        lemma_parse_state_stays_none(cs@, i as int + 1);
                    }
                    return None;
                },
            }
        }
    }
    assert(cs@.take(cs.len() as int) =~= cs@);
    if k == 3 {
        Some(Hand { cards })
    } else {
        None
    }
}

/// Once the reading of a hand has failed, reading more cannot recover.
proof fn lemma_parse_state_stays_none(cs: Seq<char>, n: int)
    requires
        0 <= n <= cs.len(),
        hand_parse_state(cs.take(n)) is None,
    ensures
        hand_parse_state(cs) is None,
    decreases cs.len() - n,
{
    if n < cs.len() {
        assert(cs.take(n + 1).drop_last() =~= cs.take(n));
        lemma_parse_state_stays_none(cs, n + 1);
    } else {
        assert(cs.take(n) =~= cs);
    }
}

impl Deal {
    /// Parses a PBN deal text (`"N:hand hand hand hand"`, hands clockwise
    /// from the named seat, holdings S.H.D.C).
    pub fn from_pbn(s: &str) -> (r: Option<Deal>)
        ensures
            r is Some <==> parse_deal(s@) is Some,
            r matches Some(d) ==> parse_deal(s@) == Some(deal_view(&d)),
    {
        let cs = chars_of(s);
        if cs.len() < 2 || cs[1] != ':' {
            return None;
        }
        let first = match Direction::from_char(cs[0]) {
            Some(f) => f,
            None => return None,
        };
        let rest = slice_chars(&cs, 2, cs.len());
        assert(rest@ =~= s@.skip(2));
        let parts = split_chars(&rest, ' ');
        if parts.len() != 4 {
            return None;
        }
        assert(parts@[0]@ == split_on(s@.skip(2), ' ')[0]);
        assert(parts@[1]@ == split_on(s@.skip(2), ' ')[1]);
        assert(parts@[2]@ == split_on(s@.skip(2), ' ')[2]);
        assert(parts@[3]@ == split_on(s@.skip(2), ' ')[3]);
        let h0 = match parse_hand_exec(&parts[0]) { Some(h) => h, None => return None };
        let h1 = match parse_hand_exec(&parts[1]) { Some(h) => h, None => return None };
        let h2 = match parse_hand_exec(&parts[2]) { Some(h) => h, None => return None };
        let h3 = match parse_hand_exec(&parts[3]) { Some(h) => h, None => return None };
        let mut d = Deal::empty();
        let f = first.index();
        d.set_hand(Direction::from_index(f), h0);
        d.set_hand(Direction::from_index(f + 1), h1);
        d.set_hand(Direction::from_index(f + 2), h2);
        d.set_hand(Direction::from_index(f + 3), h3);
        proof {
            let v = parse_deal(s@)->0;
            assert forall|i: int| 0 <= i < 4 implies #[trigger] deal_view(&d)[i] == v[i] by {
                assert(hand_of(&d, dir_at(i)) == deal_view(&d)[i]);
            }
            assert(deal_view(&d) =~= v);
        }
        Some(d)
    }
}

// ---------------------------------------------------------------------------
// Reading PBN text back: distinct card sets give distinct texts
// ---------------------------------------------------------------------------

/// Four parts joined by a separator.
pub open spec fn joined4(a: Seq<char>, b: Seq<char>, c: Seq<char>, d: Seq<char>, sep: char) -> Seq<char> {
    a + seq![sep] + b + seq![sep] + c + seq![sep] + d
}

/// Splitting at the first separator: equal texts with separator-free heads
/// have equal heads and equal tails.
proof fn lemma_split_at_sep(a: Seq<char>, b: Seq<char>, a2: Seq<char>, b2: Seq<char>, sep: char)
    requires
        a + seq![sep] + b == a2 + seq![sep] + b2,
        !a.contains(sep),
        !a2.contains(sep),
    ensures
        a == a2,
        b == b2,
{
    let x = a + seq![sep] + b;
    let y = a2 + seq![sep] + b2;
    if a.len() < a2.len() {
        assert(x[a.len() as int] == sep);
        assert(y[a.len() as int] == a2[a.len() as int]);
        assert(a2.contains(sep));
    }
    if a2.len() < a.len() {
        assert(y[a2.len() as int] == sep);
        assert(x[a2.len() as int] == a[a2.len() as int]);
        assert(a.contains(sep));
    }
    assert(a.len() == a2.len());
    assert forall|i: int| 0 <= i < a.len() implies a[i] == a2[i] by {
        assert(x[i] == a[i]);
        assert(y[i] == a2[i]);
    }
    assert(a =~= a2);
    assert(b =~= x.skip(a.len() as int + 1));
    assert(b2 =~= y.skip(a2.len() as int + 1));
}

/// Four separator-free-headed parts are read back from their join.
proof fn lemma_joined4_injective(
    a: Seq<char>, b: Seq<char>, c: Seq<char>, d: Seq<char>,
    a2: Seq<char>, b2: Seq<char>, c2: Seq<char>, d2: Seq<char>,
    sep: char,
)
    requires
        joined4(a, b, c, d, sep) == joined4(a2, b2, c2, d2, sep),
        !a.contains(sep), !b.contains(sep), !c.contains(sep),
        !a2.contains(sep), !b2.contains(sep), !c2.contains(sep),
    ensures
        a == a2, b == b2, c == c2, d == d2,
{
    let t1 = b + seq![sep] + c + seq![sep] + d;
    let t2 = b2 + seq![sep] + c2 + seq![sep] + d2;
    assert(joined4(a, b, c, d, sep) =~= a + seq![sep] + t1);
    assert(joined4(a2, b2, c2, d2, sep) =~= a2 + seq![sep] + t2);
    lemma_split_at_sep(a, t1, a2, t2, sep);
    let u1 = c + seq![sep] + d;
    let u2 = c2 + seq![sep] + d2;
    assert(t1 =~= b + seq![sep] + u1);
    assert(t2 =~= b2 + seq![sep] + u2);
    lemma_split_at_sep(b, u1, b2, u2, sep);
    lemma_split_at_sep(c, d, c2, d2, sep);
}

proof fn lemma_rank_value_of(r: Rank)
    ensures
        rank_of_value(rank_value(r)) == r,
        2 <= rank_value(r) <= 14,
{
}

/// Every character of a holding is a rank letter of a rank at least
/// `15 - n`, and the holding shows exactly the held ranks in that range.
proof fn lemma_holding_upto(h: Seq<Card>, s: Suit, n: int)
    requires
        0 <= n <= 13,
    ensures
        forall|k: int| 0 <= k < holding_upto(h, s, n).len() ==> exists|r: Rank|
            #[trigger] holding_upto(h, s, n)[k] == rank_char(r),
        forall|r: Rank| #[trigger] holding_upto(h, s, n).contains(rank_char(r)) <==> (h.contains(
            Card { suit: s, rank: r },
        ) && 15 - n <= rank_value(r)),
    decreases n,
{
    if n > 0 {
        lemma_holding_upto(h, s, n - 1);
        let p = holding_upto(h, s, n - 1);
        let r0 = rank_of_value(15 - n);
        let tail = if h.contains(Card { suit: s, rank: r0 }) { seq![rank_char(r0)] } else { Seq::<char>::empty() };
        let q = holding_upto(h, s, n);
        assert(q == p + tail);
        assert forall|k: int| 0 <= k < q.len() implies exists|r: Rank| #[trigger] q[k] == rank_char(r) by {
            if k < p.len() {
                assert(q[k] == p[k]);
                let r = choose|r: Rank| p[k] == rank_char(r);
                assert(q[k] == rank_char(r));
            } else {
                assert(q[k] == rank_char(r0));
            }
        }
        assert(rank_value(r0) == 15 - n);
        assert forall|r: Rank| #[trigger] q.contains(rank_char(r)) <==> (h.contains(Card { suit: s, rank: r })
            && 15 - n <= rank_value(r)) by {
            lemma_rank_value_of(r);
            if q.contains(rank_char(r)) {
                let k = choose|k: int| 0 <= k < q.len() && q[k] == rank_char(r);
                if k < p.len() {
                    assert(p[k] == q[k]);
                    assert(p.contains(rank_char(r)));
                } else {
                    assert(q[k] == rank_char(r0));
                    assert(r == r0);
                }
            }
            if h.contains(Card { suit: s, rank: r }) && 15 - n <= rank_value(r) {
                if rank_value(r) == 15 - n {
                    assert(r == r0);
                    assert(q[p.len() as int] == rank_char(r));
                } else {
                    assert(p.contains(rank_char(r)));
                    let k = choose|k: int| 0 <= k < p.len() && p[k] == rank_char(r);
                    assert(q[k] == p[k]);
                }
            }
        }
    } else {
        assert(holding_upto(h, s, n) =~= Seq::<char>::empty());
    }
}

/// A holding holds neither separator of the PBN deal notation.
proof fn lemma_holding_separators(h: Seq<Card>, s: Suit)
    ensures
        !holding(h, s).contains('.'),
        !holding(h, s).contains(' '),
{
    lemma_holding_upto(h, s, 13);
    let q = holding(h, s);
    if q.contains('.') {
        let k = choose|k: int| 0 <= k < q.len() && q[k] == '.';
        let r = choose|r: Rank| q[k] == rank_char(r);
        assert(rank_char(r) != '.');
    }
    if q.contains(' ') {
        let k = choose|k: int| 0 <= k < q.len() && q[k] == ' ';
        let r = choose|r: Rank| q[k] == rank_char(r);
        assert(rank_char(r) != ' ');
    }
}

/// A hand's PBN text holds no space.
proof fn lemma_hand_no_space(h: Seq<Card>)
    ensures
        !pbn_hand(h).contains(' '),
{
    let a = holding(h, Suit::Spades);
    let b = holding(h, Suit::Hearts);
    let c = holding(h, Suit::Diamonds);
    let d = holding(h, Suit::Clubs);
    lemma_holding_separators(h, Suit::Spades);
    lemma_holding_separators(h, Suit::Hearts);
    lemma_holding_separators(h, Suit::Diamonds);
    lemma_holding_separators(h, Suit::Clubs);
    let t = pbn_hand(h);
    assert(t == joined4(a, b, c, d, '.'));
    if t.contains(' ') {
        let k = choose|k: int| 0 <= k < t.len() && t[k] == ' ';
        let la = a.len() as int;
        let lb = b.len() as int;
        let lc = c.len() as int;
        if k < la {
            assert(t[k] == a[k]);
            assert(a.contains(' '));
        } else if k == la {
            assert(t[k] == '.');
        } else if k < la + 1 + lb {
            assert(t[k] == b[k - la - 1]);
            assert(b.contains(' '));
        } else if k == la + 1 + lb {
            assert(t[k] == '.');
        } else if k < la + lb + 2 + lc {
            assert(t[k] == c[k - la - lb - 2]);
            assert(c.contains(' '));
        } else if k == la + lb + 2 + lc {
            assert(t[k] == '.');
        } else {
            assert(t[k] == d[k - la - lb - lc - 3]);
            assert(d.contains(' '));
        }
    }
}

/// Two hands with one PBN text hold the same cards.
pub proof fn lemma_pbn_hand_injective(x: Seq<Card>, y: Seq<Card>)
    requires
        pbn_hand(x) == pbn_hand(y),
    ensures
        forall|c: Card| x.contains(c) <==> y.contains(c),
{
    lemma_holding_separators(x, Suit::Spades);
    lemma_holding_separators(x, Suit::Hearts);
    lemma_holding_separators(x, Suit::Diamonds);
    lemma_holding_separators(y, Suit::Spades);
    lemma_holding_separators(y, Suit::Hearts);
    lemma_holding_separators(y, Suit::Diamonds);
    lemma_joined4_injective(
        holding(x, Suit::Spades), holding(x, Suit::Hearts), holding(x, Suit::Diamonds), holding(x, Suit::Clubs),
        holding(y, Suit::Spades), holding(y, Suit::Hearts), holding(y, Suit::Diamonds), holding(y, Suit::Clubs),
        '.',
    );
    assert forall|c: Card| x.contains(c) <==> y.contains(c) by {
        lemma_holding_upto(x, c.suit, 13);
        lemma_holding_upto(y, c.suit, 13);
        lemma_rank_value_of(c.rank);
        assert(holding(x, c.suit) == holding(y, c.suit));
        assert(Card { suit: c.suit, rank: c.rank } == c);
        assert(holding(x, c.suit).contains(rank_char(c.rank)) <==> x.contains(c));
        assert(holding(y, c.suit).contains(rank_char(c.rank)) <==> y.contains(c));
    }
}

/// Two deals with one PBN text from North hold the same cards at every seat.
pub proof fn lemma_pbn_deal_injective(v: Seq<Seq<Card>>, w: Seq<Seq<Card>>)
    requires
        v.len() == 4,
        w.len() == 4,
        pbn_deal(v, 0) == pbn_deal(w, 0),
    ensures
        forall|i: int, c: Card| 0 <= i < 4 ==> (#[trigger] v[i].contains(c) <==> w[i].contains(c)),
{
    let head = seq![dir_char(dir_at(0)), ':'];
    lemma_hand_no_space(v[0]);
    lemma_hand_no_space(v[1]);
    lemma_hand_no_space(v[2]);
    lemma_hand_no_space(w[0]);
    lemma_hand_no_space(w[1]);
    lemma_hand_no_space(w[2]);
    let jv = joined4(pbn_hand(v[0]), pbn_hand(v[1]), pbn_hand(v[2]), pbn_hand(v[3]), ' ');
    let jw = joined4(pbn_hand(w[0]), pbn_hand(w[1]), pbn_hand(w[2]), pbn_hand(w[3]), ' ');
    assert(pbn_deal(v, 0) =~= head + jv);
    assert(pbn_deal(w, 0) =~= head + jw);
    assert(jv =~= (head + jv).skip(2));
    assert(jw =~= (head + jw).skip(2));
    lemma_joined4_injective(
        pbn_hand(v[0]), pbn_hand(v[1]), pbn_hand(v[2]), pbn_hand(v[3]),
        pbn_hand(w[0]), pbn_hand(w[1]), pbn_hand(w[2]), pbn_hand(w[3]),
        ' ',
    );
    lemma_pbn_hand_injective(v[0], w[0]);
    lemma_pbn_hand_injective(v[1], w[1]);
    lemma_pbn_hand_injective(v[2], w[2]);
    lemma_pbn_hand_injective(v[3], w[3]);
}

} // verus!
