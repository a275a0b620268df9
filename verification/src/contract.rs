//! Contract text (`[Contract]` tag values such as `4H`, `3NTX`) and the
//! effective contract chosen for analysis: the explicit contract when one is
//! present, else the auction's final contract, else none — never a guess.

use vstd::prelude::*;
use crate::auction::{final_contract_spec, final_contract_text, Board, FinalContract};
use crate::cards::{dir_char, dir_from_char_spec, Direction, Strain};
use crate::model::ContractProvenance;
use crate::text::{chars_of, copy_string, push_char, push_chars};

verus! {

broadcast use vstd::string::group_string_axioms;

/// A parsed contract tag.
#[derive(Clone, Copy, PartialEq, Eq, Debug, Structural)]
pub struct Contract {
    pub level: u8,
    pub strain: Strain,
    pub doubled: bool,
    pub redoubled: bool,
    /// A trailing seat letter, when the text carries one.
    pub declarer: Option<Direction>,
}

/// The level a digit names (1..=7).
pub open spec fn level_of_char(c: char) -> Option<u8> {
    if c == '1' { Some(1u8) }
    else if c == '2' { Some(2u8) }
    else if c == '3' { Some(3u8) }
    else if c == '4' { Some(4u8) }
    else if c == '5' { Some(5u8) }
    else if c == '6' { Some(6u8) }
    else if c == '7' { Some(7u8) }
    else { None }
}

/// The strain at the front of `s` and how many characters it takes.
pub open spec fn strain_prefix(s: Seq<char>) -> Option<(Strain, int)> {
    if s.len() >= 2 && s[0] == 'N' && s[1] == 'T' {
        Some((Strain::NoTrump, 2))
    } else if s.len() >= 1 && s[0] == 'C' {
        Some((Strain::Clubs, 1))
    } else if s.len() >= 1 && s[0] == 'D' {
        Some((Strain::Diamonds, 1))
    } else if s.len() >= 1 && s[0] == 'H' {
        Some((Strain::Hearts, 1))
    } else if s.len() >= 1 && s[0] == 'S' {
        Some((Strain::Spades, 1))
    } else {
        None
    }
}

/// The grammar of a contract text: a level digit 1-7, a strain (C, D, H, S
/// or NT), an optional `X` or `XX`, an optional seat letter, nothing else.
pub open spec fn parse_contract_spec(s: Seq<char>) -> Option<Contract> {
    if s.len() < 2 {
        None
    } else {
        match (level_of_char(s[0]), strain_prefix(s.skip(1))) {
            (Some(level), Some((strain, n))) => {
                let rest = s.skip(1 + n);
                let (doubled, redoubled, k) = if rest.len() >= 2 && rest[0] == 'X' && rest[1] == 'X' {
                    (false, true, 2int)
                } else if rest.len() >= 1 && rest[0] == 'X' {
                    (true, false, 1int)
                } else {
                    (false, false, 0int)
                };
                let tail = rest.skip(k);
                if tail.len() == 0 {
                    Some(Contract { level, strain, doubled, redoubled, declarer: None })
                } else if tail.len() == 1 && dir_from_char_spec(tail[0]) is Some {
                    Some(Contract { level, strain, doubled, redoubled, declarer: dir_from_char_spec(tail[0]) })
                } else {
                    None
                }
            },
            _ => None,
        }
    }
}

impl Contract {
    /// Parses a contract text (see `parse_contract_spec`).
    pub fn parse(text: &str) -> (r: Option<Contract>)
        ensures
            r == parse_contract_spec(text@),
    {
        let s = chars_of(text);
        if s.len() < 2 {
            return None;
        }
        let c0 = s[0];
        let level: u8 = if c0 == '1' { 1 } else if c0 == '2' { 2 } else if c0 == '3' { 3 }
            else if c0 == '4' { 4 } else if c0 == '5' { 5 } else if c0 == '6' { 6 }
            else if c0 == '7' { 7 } else { return None };
        let ghost t = s@.skip(1);
        let (strain, n): (Strain, usize) = if s.len() >= 3 && s[1] == 'N' && s[2] == 'T' {
            (Strain::NoTrump, 2)
        } else if s[1] == 'C' {
            (Strain::Clubs, 1)
        } else if s[1] == 'D' {
            (Strain::Diamonds, 1)
        } else if s[1] == 'H' {
            (Strain::Hearts, 1)
        } else if s[1] == 'S' {
            (Strain::Spades, 1)
        } else {
            return None;
        };
        assert(strain_prefix(t) == Some((strain, n as int)));
        let mut i = 1 + n;
        let ghost rest = s@.skip(i as int);
        let (doubled, redoubled) = if i + 1 < s.len() && s[i] == 'X' && s[i + 1] == 'X' {
            i = i + 2;
            (false, true)
        } else if i < s.len() && s[i] == 'X' {
            i = i + 1;
            (true, false)
        } else {
            (false, false)
        };
        assert(s@.skip(i as int) =~= rest.skip(i - 1 - n));
        if i == s.len() {
            Some(Contract { level, strain, doubled, redoubled, declarer: None })
        } else if i + 1 == s.len() {
            match Direction::from_char(s[i]) {
                Some(d) => Some(Contract { level, strain, doubled, redoubled, declarer: Some(d) }),
                None => None,
            }
        } else {
            None
        }
    }
}

/// A contract resolved for double-dummy analysis.
#[derive(Debug)]
pub struct EffectiveContract {
    pub level: u8,
    pub strain: Strain,
    pub declarer: Direction,
    pub provenance: ContractProvenance,
    /// Human display, e.g. "4H by S".
    pub display: String,
}

/// The plain content of an effective contract.
pub struct EffectiveContractView {
    pub level: u8,
    pub strain: Strain,
    pub declarer: Direction,
    pub provenance: ContractProvenance,
    pub display: Seq<char>,
}

/// The content of an effective contract.
pub open spec fn ec_view(ec: &EffectiveContract) -> EffectiveContractView {
    EffectiveContractView {
        level: ec.level,
        strain: ec.strain,
        declarer: ec.declarer,
        provenance: ec.provenance,
        display: ec.display@,
    }
}

/// `contract by X` display text.
pub open spec fn display_text(contract: Seq<char>, declarer: Direction) -> Seq<char> {
    contract + seq![' ', 'b', 'y', ' ', dir_char(declarer)]
}

/// The explicit contract, when the tag parses and a declarer is known (the
/// `[Declarer]` tag, else a seat letter in the contract text).
pub open spec fn explicit_contract(b: &Board) -> Option<EffectiveContractView> {
    match b.contract {
        Some(cstr) => match parse_contract_spec(cstr@) {
            Some(c) => {
                let decl = if b.declarer is Some { b.declarer } else { c.declarer };
                match decl {
                    Some(d) => Some(EffectiveContractView {
                        level: c.level,
                        strain: c.strain,
                        declarer: d,
                        provenance: ContractProvenance::Explicit,
                        display: display_text(cstr@, d),
                    }),
                    None => None,
                }
            },
            None => None,
        },
        None => None,
    }
}

/// The contract the auction ends in, as an inferred effective contract.
pub open spec fn inferred_contract(b: &Board) -> Option<EffectiveContractView> {
    match b.auction {
        Some(a) => match final_contract_spec(a.dealer, a.calls@) {
            Some(fc) => Some(EffectiveContractView {
                level: fc.level,
                strain: fc.strain,
                declarer: fc.declarer,
                provenance: ContractProvenance::Inferred,
                display: display_text(final_contract_text(fc), fc.declarer),
            }),
            None => None,
        },
        None => None,
    }
}

/// The contract to analyze: explicit, else inferred, else none.
pub open spec fn effective_contract_spec(b: &Board) -> Option<EffectiveContractView> {
    if explicit_contract(b) is Some {
        explicit_contract(b)
    } else {
        inferred_contract(b)
    }
}

fn display_of(contract: &String, declarer: Direction) -> (s: String)
    ensures
        s@ == display_text(contract@, declarer),
{
    let mut s = copy_string(contract);
    push_char(&mut s, ' ');
    push_char(&mut s, 'b');
    push_char(&mut s, 'y');
    push_char(&mut s, ' ');
    push_char(&mut s, declarer.to_char());
    assert(s@ =~= display_text(contract@, declarer));
    s
}

/// Resolves the contract to analyze, or `None` if neither present nor
/// inferable.
pub fn effective_contract(board: &Board) -> (r: Option<EffectiveContract>)
    ensures
        r is Some <==> effective_contract_spec(board) is Some,
        r matches Some(ec) ==> effective_contract_spec(board) == Some(ec_view(&ec)),
{
    if let Some(cstr) = &board.contract {
        if let Some(c) = Contract::parse(cstr.as_str()) {
            let decl = if board.declarer.is_some() { board.declarer } else { c.declarer };
            if let Some(d) = decl {
                return Some(EffectiveContract {
                    level: c.level,
                    strain: c.strain,
                    declarer: d,
                    provenance: ContractProvenance::Explicit,
                    display: display_of(cstr, d),
                });
            }
        }
    }
    if let Some(auction) = &board.auction {
        if let Some(fc) = auction.final_contract() {
            let text = fc.to_pbn();
            return Some(EffectiveContract {
                level: fc.level,
                strain: fc.strain,
                declarer: fc.declarer,
                provenance: ContractProvenance::Inferred,
                display: display_of(&text, fc.declarer),
            });
        }
    }
    None
}

} // verus!
