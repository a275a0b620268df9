//! Boards, auctions and the final contract an auction reaches.

use vstd::prelude::*;
use crate::cards::{dir_at, dir_index_spec, same_side, Deal, Direction, Strain};
use crate::text::{owned, push_char, str_eq};

verus! {

/// One call of an auction.
#[derive(Clone, Copy, PartialEq, Eq, Debug, Structural)]
pub enum Call {
    Pass,
    Double,
    Redouble,
    /// A contract bid: level 1..=7 in a strain.
    Bid { level: u8, strain: Strain },
}

impl Call {
    /// A contract bid.
    pub fn bid(level: u8, strain: Strain) -> (c: Call)
        ensures
            c == (Call::Bid { level, strain }),
    {
        Call::Bid { level, strain }
    }
}

/// An auction: the dealer and the calls in order, dealer first.
#[derive(Debug)]
pub struct Auction {
    pub dealer: Direction,
    pub calls: Vec<Call>,
}

/// The seat that makes call `i` of an auction opened by `dealer`.
pub open spec fn caller_at(dealer: Direction, i: int) -> Direction {
    dir_at(dir_index_spec(dealer) + i)
}

/// The contract an auction ends in.
#[derive(Clone, Copy, PartialEq, Eq, Debug, Structural)]
pub struct FinalContract {
    pub level: u8,
    pub strain: Strain,
    pub declarer: Direction,
    pub doubled: bool,
    pub redoubled: bool,
}

/// Index of the last contract bid, if any.
pub open spec fn last_bid_index(calls: Seq<Call>) -> Option<int>
    decreases calls.len(),
{
    if calls.len() == 0 {
        None
    } else if calls.last() is Bid {
        Some(calls.len() - 1)
    } else {
        last_bid_index(calls.drop_last())
    }
}

/// Call `i` is a bid in `strain` by the partnership of `side`.
pub open spec fn side_bid_in(calls: Seq<Call>, dealer: Direction, strain: Strain, side: Direction, i: int) -> bool {
    calls[i] matches Call::Bid { strain: s, .. } && s == strain && same_side(caller_at(dealer, i), side)
}

/// Index of the first bid in `strain` by the partnership of `side`.
pub open spec fn first_side_bid(calls: Seq<Call>, dealer: Direction, strain: Strain, side: Direction) -> Option<int>
    decreases calls.len(),
{
    if calls.len() == 0 {
        None
    } else {
        match first_side_bid(calls.drop_last(), dealer, strain, side) {
            Some(i) => Some(i),
            None => if side_bid_in(calls, dealer, strain, side, calls.len() - 1) {
                Some(calls.len() - 1)
            } else {
                None
            },
        }
    }
}

/// Some call after index `from` equals `c`.
pub open spec fn call_after(calls: Seq<Call>, from: int, c: Call) -> bool {
    exists|i: int| from < i < calls.len() && calls[i] == c
}

/// The final contract: the last bid's level and strain; declared by the
/// first player of the last bidder's side to bid that strain; doubled when a
/// double and no redouble follow the last bid, redoubled when a redouble
/// does. No contract when nobody bid.
pub open spec fn final_contract_spec(dealer: Direction, calls: Seq<Call>) -> Option<FinalContract> {
    match last_bid_index(calls) {
        None => None,
        Some(l) => match calls[l] {
            Call::Bid { level, strain } => {
                let first = first_side_bid(calls, dealer, strain, caller_at(dealer, l))->0;
                Some(FinalContract {
                    level,
                    strain,
                    declarer: caller_at(dealer, first),
                    doubled: call_after(calls, l, Call::Double) && !call_after(calls, l, Call::Redouble),
                    redoubled: call_after(calls, l, Call::Redouble),
                })
            },
            _ => None,
        },
    }
}

proof fn lemma_last_bid_index(calls: Seq<Call>)
    ensures
        last_bid_index(calls) matches Some(l) ==> 0 <= l < calls.len() && calls[l] is Bid && forall|j: int|
            l < j < calls.len() ==> !(calls[j] is Bid),
        last_bid_index(calls) is None ==> forall|j: int| 0 <= j < calls.len() ==> !(calls[j] is Bid),
    decreases calls.len(),
{
    if calls.len() > 0 && !(calls.last() is Bid) {
        lemma_last_bid_index(calls.drop_last());
        assert forall|j: int| 0 <= j < calls.len() - 1 implies calls[j] == calls.drop_last()[j] by {}
    }
}

proof fn lemma_first_side_bid(calls: Seq<Call>, dealer: Direction, strain: Strain, side: Direction, k: int)
    requires
        0 <= k < calls.len(),
        side_bid_in(calls, dealer, strain, side, k),
    ensures
        first_side_bid(calls, dealer, strain, side) matches Some(i) && 0 <= i <= k,
    decreases calls.len(),
{
    if k < calls.len() - 1 {
        let t = calls.drop_last();
        assert(t[k] == calls[k]);
        lemma_first_side_bid(t, dealer, strain, side, k);
    } else if first_side_bid(calls.drop_last(), dealer, strain, side) is Some {
        lemma_first_side_bid_range(calls.drop_last(), dealer, strain, side);
    }
}

proof fn lemma_first_side_bid_range(calls: Seq<Call>, dealer: Direction, strain: Strain, side: Direction)
    ensures
        first_side_bid(calls, dealer, strain, side) matches Some(i) ==> 0 <= i < calls.len(),
    decreases calls.len(),
{
    if calls.len() > 0 {
        lemma_first_side_bid_range(calls.drop_last(), dealer, strain, side);
    }
}

impl Auction {
    /// An auction with no calls yet.
    pub fn new(dealer: Direction) -> (a: Auction)
        ensures
            a.dealer == dealer,
            a.calls@ == Seq::<Call>::empty(),
    {
        Auction { dealer, calls: Vec::new() }
    }

    /// Appends a call.
    pub fn add_call(&mut self, call: Call)
        ensures
            final(self).dealer == old(self).dealer,
            final(self).calls@ == old(self).calls@.push(call),
    {
        self.calls.push(call);
    }

    /// The seat that made call `i`.
    pub fn caller(&self, i: usize) -> (d: Direction)
        ensures
            d == caller_at(self.dealer, i as int),
    {
        let d = Direction::from_index(self.dealer.index() + i % 4);
        assert((dir_index_spec(self.dealer) + (i % 4)) % 4 == (dir_index_spec(self.dealer) + i) % 4);
        d
    }

    /// The contract the auction ends in (see `final_contract_spec`).
    pub fn final_contract(&self) -> (r: Option<FinalContract>)
        ensures
            r == final_contract_spec(self.dealer, self.calls@),
    {
        let n = self.calls.len();
        let mut last: Option<usize> = None;
        for i in 0..n
            invariant
                n == self.calls.len(),
                last matches Some(l) ==> last_bid_index(self.calls@.take(i as int)) == Some(l as int),
                last is None ==> last_bid_index(self.calls@.take(i as int)) is None,
        {
            assert(self.calls@.take(i + 1).drop_last() =~= self.calls@.take(i as int));
            if let Call::Bid { .. } = self.calls[i] {
                last = Some(i);
            }
        }
        assert(self.calls@.take(n as int) =~= self.calls@);
        proof {
            lemma_last_bid_index(self.calls@);
        }
        let l = match last {
            None => return None,
            Some(l) => l,
        };
        let (level, strain) = match self.calls[l] {
            Call::Bid { level, strain } => (level, strain),
            _ => return None,
        };
        let mut doubled = false;
        let mut redoubled = false;
        let mut i = l + 1;
        while i < n
            invariant
                l < n == self.calls.len(),
                l + 1 <= i <= n,
                doubled == exists|j: int| l < j < i && self.calls@[j] == Call::Double,
                redoubled == exists|j: int| l < j < i && self.calls@[j] == Call::Redouble,
            decreases n - i,
        {
            let c = self.calls[i];
            if c == Call::Double {
                doubled = true;
            }
            if c == Call::Redouble {
                redoubled = true;
            }
            i += 1;
        }
        let side = self.caller(l);
        let mut first: Option<usize> = None;
        for j in 0..n
            invariant
                n == self.calls.len(),
                first matches Some(f) ==> first_side_bid(self.calls@.take(j as int), self.dealer, strain, side) == Some(f as int),
                first is None ==> first_side_bid(self.calls@.take(j as int), self.dealer, strain, side) is None,
        {
            let ghost t = self.calls@.take(j + 1);
            assert(t.drop_last() =~= self.calls@.take(j as int));
            assert(t[j as int] == self.calls@[j as int]);
            if first.is_none() {
                if let Call::Bid { strain: s, .. } = self.calls[j] {
                    let who = self.caller(j);
                    if s == strain && who.index() % 2 == side.index() % 2 {
                        first = Some(j);
                    }
                }
            }
        }
        assert(self.calls@.take(n as int) =~= self.calls@);
        proof {
            lemma_first_side_bid(self.calls@, self.dealer, strain, side, l as int);
        }
        let f = match first {
            Some(f) => f,
            None => return None,
        };
        Some(FinalContract {
            level,
            strain,
            declarer: self.caller(f),
            doubled: doubled && !redoubled,
            redoubled,
        })
    }
}

/// The PBN text of a strain: C, D, H, S or NT.
pub open spec fn strain_text(s: Strain) -> Seq<char> {
    match s {
        Strain::Clubs => seq!['C'],
        Strain::Diamonds => seq!['D'],
        Strain::Hearts => seq!['H'],
        Strain::Spades => seq!['S'],
        Strain::NoTrump => seq!['N', 'T'],
    }
}

/// Appends the PBN text of a strain.
pub fn push_strain(out: &mut String, s: Strain)
    ensures
        final(out)@ == old(out)@ + strain_text(s),
{
    match s {
        Strain::Clubs => push_char(out, 'C'),
        Strain::Diamonds => push_char(out, 'D'),
        Strain::Hearts => push_char(out, 'H'),
        Strain::Spades => push_char(out, 'S'),
        Strain::NoTrump => {
            push_char(out, 'N');
            push_char(out, 'T');
        },
    }
    assert(out@ =~= old(out)@ + strain_text(s));
}

/// The level digit of a contract.
pub open spec fn level_char(level: u8) -> char {
    if level == 1 { '1' }
    else if level == 2 { '2' }
    else if level == 3 { '3' }
    else if level == 4 { '4' }
    else if level == 5 { '5' }
    else if level == 6 { '6' }
    else { '7' }
}

/// The PBN text of a final contract, e.g. `3NT`, `4HX`, `6SXX`.
pub open spec fn final_contract_text(c: FinalContract) -> Seq<char> {
    seq![level_char(c.level)] + strain_text(c.strain) + if c.redoubled {
        seq!['X', 'X']
    } else if c.doubled {
        seq!['X']
    } else {
        Seq::empty()
    }
}

impl FinalContract {
    /// The PBN contract text (level, strain, `X` or `XX`).
    pub fn to_pbn(&self) -> (s: String)
        ensures
            s@ == final_contract_text(*self),
    {
        let mut s = String::new();
        let l = self.level;
        let c = if l == 1 { '1' } else if l == 2 { '2' } else if l == 3 { '3' } else if l == 4 { '4' }
            else if l == 5 { '5' } else if l == 6 { '6' } else { '7' };
        push_char(&mut s, c);
        push_strain(&mut s, self.strain);
        if self.redoubled {
            push_char(&mut s, 'X');
            push_char(&mut s, 'X');
        } else if self.doubled {
            push_char(&mut s, 'X');
        }
        assert(s@ =~= final_contract_text(*self));
        s
    }
}

/// Vulnerability of a board.
#[derive(Clone, Copy, PartialEq, Eq, Debug, Structural)]
pub enum Vulnerability {
    /// Neither side vulnerable.
    Neither,
    NorthSouth,
    EastWest,
    Both,
}

/// The `(north-south, east-west)` vulnerability flags.
pub fn vulnerability_flags(v: Vulnerability) -> (r: (bool, bool))
    ensures
        r.0 == (v == Vulnerability::NorthSouth || v == Vulnerability::Both),
        r.1 == (v == Vulnerability::EastWest || v == Vulnerability::Both),
{
    match v {
        Vulnerability::Neither => (false, false),
        Vulnerability::NorthSouth => (true, false),
        Vulnerability::EastWest => (false, true),
        Vulnerability::Both => (true, true),
    }
}

/// One board of a PBN collection, as the reader delivers it.
#[derive(Debug)]
pub struct Board {
    pub number: Option<u32>,
    pub dealer: Option<Direction>,
    pub vulnerable: Vulnerability,
    pub deal: Deal,
    /// The `[Contract]` tag text, if any.
    pub contract: Option<String>,
    /// The `[Declarer]` tag, if any.
    pub declarer: Option<Direction>,
    pub auction: Option<Auction>,
    /// A play section is present.
    pub play: bool,
    /// Commentary blocks attached to the board.
    pub commentary: Vec<String>,
    /// Supplemental tags (name, value) in file order.
    pub extra_tags: Vec<(String, String)>,
}

/// Index of the first tag named `name`.
pub open spec fn first_tag(tags: Seq<(String, String)>, name: Seq<char>) -> Option<int>
    decreases tags.len(),
{
    if tags.len() == 0 {
        None
    } else {
        match first_tag(tags.drop_last(), name) {
            Some(i) => Some(i),
            None => if tags.last().0@ == name { Some(tags.len() - 1) } else { None },
        }
    }
}

impl Board {
    /// An empty board: no deal, no contract, no auction.
    pub fn new() -> (b: Board)
        ensures
            b.number is None,
            b.dealer is None,
            b.vulnerable == Vulnerability::Neither,
            b.contract is None,
            b.declarer is None,
            b.auction is None,
            !b.play,
            b.commentary@.len() == 0,
            b.extra_tags@.len() == 0,
            forall|s: Direction| crate::cards::hand_of(&b.deal, s).len() == 0,
    {
        Board {
            number: None,
            dealer: None,
            vulnerable: Vulnerability::Neither,
            deal: Deal::empty(),
            contract: None,
            declarer: None,
            auction: None,
            play: false,
            commentary: Vec::new(),
            extra_tags: Vec::new(),
        }
    }

    /// The board with a `[Contract]` tag.
    pub fn with_contract(self, contract: String) -> (b: Board)
        ensures
            b == (Board { contract: Some(contract), ..self }),
    {
        Board { contract: Some(contract), ..self }
    }

    /// The board with a `[Declarer]` tag.
    pub fn with_declarer(self, declarer: Direction) -> (b: Board)
        ensures
            b == (Board { declarer: Some(declarer), ..self }),
    {
        Board { declarer: Some(declarer), ..self }
    }

    /// The board with an auction.
    pub fn with_auction(self, auction: Auction) -> (b: Board)
        ensures
            b == (Board { auction: Some(auction), ..self }),
    {
        Board { auction: Some(auction), ..self }
    }

    /// The board with a deal.
    pub fn with_deal(self, deal: Deal) -> (b: Board)
        ensures
            b == (Board { deal, ..self }),
    {
        Board { deal, ..self }
    }

    /// The board with a commentary block appended.
    pub fn with_commentary(self, text: String) -> (b: Board)
        ensures
            b.commentary@ == self.commentary@.push(text),
            b.extra_tags == self.extra_tags,
            b.number == self.number,
            b.dealer == self.dealer,
            b.vulnerable == self.vulnerable,
            b.deal == self.deal,
            b.contract == self.contract,
            b.declarer == self.declarer,
            b.auction == self.auction,
            b.play == self.play,
    {
        let mut b = self;
        b.commentary.push(text);
        b
    }

    /// The board with a supplemental tag appended.
    pub fn with_extra_tag(self, name: &str, value: &str) -> (b: Board)
        ensures
            b.extra_tags@.len() == self.extra_tags@.len() + 1,
            b.extra_tags@.take(self.extra_tags@.len() as int) == self.extra_tags@,
            b.extra_tags@.last().0@ == name@,
            b.extra_tags@.last().1@ == value@,
            b.commentary == self.commentary,
            b.number == self.number,
            b.dealer == self.dealer,
            b.vulnerable == self.vulnerable,
            b.deal == self.deal,
            b.contract == self.contract,
            b.declarer == self.declarer,
            b.auction == self.auction,
            b.play == self.play,
    {
        let mut b = self;
        let ghost before = b.extra_tags@;
        b.extra_tags.push((owned(name), owned(value)));
        assert(b.extra_tags@.take(before.len() as int) =~= before);
        b
    }

    /// The value of the first supplemental tag named `name`.
    pub fn extra_tag(&self, name: &str) -> (r: Option<&String>)
        ensures
            r matches Some(v) ==> first_tag(self.extra_tags@, name@) matches Some(i)
                && *v == self.extra_tags@[i].1,
            r is None ==> first_tag(self.extra_tags@, name@) is None,
    {
        let mut k: usize = 0;
        while k < self.extra_tags.len()
            invariant
                k <= self.extra_tags.len(),
                first_tag(self.extra_tags@.take(k as int), name@) is None,
            decreases self.extra_tags.len() - k,
        {
            assert(self.extra_tags@.take(k + 1).drop_last() =~= self.extra_tags@.take(k as int));
            if str_eq(self.extra_tags[k].0.as_str(), name) {
                proof {
                    lemma_first_tag_prefix(self.extra_tags@, name@, k as int + 1);
                }
                return Some(&self.extra_tags[k].1);
            }
            k += 1;
        }
        assert(self.extra_tags@.take(k as int) =~= self.extra_tags@);
        None
    }
}

proof fn lemma_first_tag_prefix(tags: Seq<(String, String)>, name: Seq<char>, n: int)
    requires
        0 <= n <= tags.len(),
        first_tag(tags.take(n), name) is Some,
    ensures
        first_tag(tags, name) == first_tag(tags.take(n), name),
    decreases tags.len() - n,
{
    if n < tags.len() {
        assert(tags.take(n + 1).drop_last() =~= tags.take(n));
        lemma_first_tag_prefix(tags, name, n + 1);
    } else {
        assert(tags.take(n) =~= tags);
    }
}

} // verus!
