//! The dominance relation between combinations.

use vstd::prelude::*;
use crate::card::Cards;
use crate::error::GameError;
use crate::trick::TrickType;
use crate::trick::classify;
use crate::trick::highest_rank;
use crate::trick::top_rank;

verus! {

/// How many cards of one rank make up the part of a combination that its
/// height is read from.
pub open spec fn multiplicity(t: TrickType) -> nat {
    match t {
        TrickType::Single => 1,
        TrickType::Pair => 2,
        TrickType::Triple => 3,
        TrickType::FullHouse => 3,
        TrickType::Straight => 1,
        TrickType::SequenceOfPairs => 2,
        TrickType::FourOfAKind => 4,
        TrickType::StraightFlush => 1,
    }
}

/// The height of a combination of kind `t`: the rank of a pair, a triple or a
/// four of a kind, the rank of the triple of a full house, the highest rank
/// of a straight or of a sequence of pairs.
pub open spec fn height(s: Seq<Cards>, t: TrickType) -> int {
    top_rank(s, multiplicity(t), 14)
}

/// The strength of a card played alone, in half ranks: a natural card of rank
/// n has 2n, a Phoenix with value v lies half a rank below at 2v - 1, the
/// Mahjong has 2, the Dog 0 and the Dragon stands above them all.
pub open spec fn single_strength(c: Cards) -> int {
    match c {
        Cards::Dog => 0,
        Cards::Dragon => 30,
        Cards::Phoenix(p) => match p.value {
            Some(v) => 2 * v - 1,
            None => 0,
        },
        _ => 2 * c.number().unwrap(),
    }
}

/// Whether `cand` played alone takes a trick led by `prev` alone. The Dragon
/// takes every single; any other card must be strictly stronger.
pub open spec fn single_beats(prev: Cards, cand: Cards) -> bool {
    cand is Dragon || single_strength(prev) < single_strength(cand)
}

/// Whether a combination `cand` of kind `c` may be played on a combination
/// `prev` of kind `p`. A straight flush goes on everything but a straight
/// flush that is longer, or as long and not lower. A four of a kind goes on
/// everything but a straight flush and a four of a kind that is not lower.
/// Anything else goes only on its own kind: a single by its strength, a
/// pair, a triple and a full house by their height, a straight and a
/// sequence of pairs by their height among those of their length.
pub open spec fn beats_as(prev: Seq<Cards>, p: TrickType, cand: Seq<Cards>, c: TrickType) -> bool {
    if c == TrickType::StraightFlush {
        ||| p != TrickType::StraightFlush
        ||| prev.len() < cand.len()
        ||| (prev.len() == cand.len() && height(prev, p) < height(cand, c))
    } else if c == TrickType::FourOfAKind {
        &&& p != TrickType::StraightFlush
        &&& p == TrickType::FourOfAKind ==> height(prev, p) < height(cand, c)
    } else if p != c {
        false
    } else {
        match c {
            TrickType::Single => single_beats(prev[0], cand[0]),
            TrickType::Straight | TrickType::SequenceOfPairs => {
                prev.len() == cand.len() && height(prev, p) < height(cand, c)
            },
            _ => height(prev, p) < height(cand, c),
        }
    }
}

/// Whether `cand` may be played on `prev`: both form a combination, and the
/// second dominates the first.
pub open spec fn beats(prev: Seq<Cards>, cand: Seq<Cards>) -> bool {
    match (classify(prev), classify(cand)) {
        (Some(p), Some(c)) => beats_as(prev, p, cand, c),
        _ => false,
    }
}

fn strength_of_single(c: &Cards) -> (r: u8)
    requires
        c is Phoenix ==> (c.number() matches Some(v) && 1 <= v <= 14),
    ensures
        r == single_strength(*c),
{
    match c {
        Cards::Dog => 0,
        Cards::Dragon => 30,
        Cards::Phoenix(p) => match p.value {
            Some(v) => 2 * v - 1,
            None => 0,
        },
        _ => {
            let n: u8 = c.get_card_number().unwrap();
            2 * n
        },
    }
}

fn multiplicity_of(t: TrickType) -> (r: usize)
    ensures
        r == multiplicity(t),
{
    match t {
        TrickType::Single => 1,
        TrickType::Pair => 2,
        TrickType::Triple => 3,
        TrickType::FullHouse => 3,
        TrickType::Straight => 1,
        TrickType::SequenceOfPairs => 2,
        TrickType::FourOfAKind => 4,
        TrickType::StraightFlush => 1,
    }
}

/// Decides whether `cand`, of kind `c`, may be played on `prev`, of kind `p`.
pub fn dominates(prev: &[Cards], p: TrickType, cand: &[Cards], c: TrickType) -> (r: bool)
    requires
        classify(prev@) == Some(p),
        classify(cand@) == Some(c),
    ensures
        r == beats_as(prev@, p, cand@, c),
{
    let hp: u8 = highest_rank(prev, multiplicity_of(p));
    let hc: u8 = highest_rank(cand, multiplicity_of(c));
    match c {
        TrickType::StraightFlush => {
            match p {
                TrickType::StraightFlush => {
                    prev.len() < cand.len() || (prev.len() == cand.len() && hp < hc)
                },
                _ => true,
            }
        },
        TrickType::FourOfAKind => {
            match p {
                TrickType::StraightFlush => false,
                TrickType::FourOfAKind => hp < hc,
                _ => true,
            }
        },
        TrickType::Single => {
            match p {
                TrickType::Single => {
                    match &cand[0] {
                        Cards::Dragon => true,
                        _ => strength_of_single(&prev[0]) < strength_of_single(&cand[0]),
                    }
                },
                _ => false,
            }
        },
        TrickType::Straight => {
            match p {
                TrickType::Straight => prev.len() == cand.len() && hp < hc,
                _ => false,
            }
        },
        TrickType::SequenceOfPairs => {
            match p {
                TrickType::SequenceOfPairs => prev.len() == cand.len() && hp < hc,
                _ => false,
            }
        },
        TrickType::Pair => {
            match p {
                TrickType::Pair => hp < hc,
                _ => false,
            }
        },
        TrickType::Triple => {
            match p {
                TrickType::Triple => hp < hc,
                _ => false,
            }
        },
        TrickType::FullHouse => {
            match p {
                TrickType::FullHouse => hp < hc,
                _ => false,
            }
        },
    }
}

/// Accepts `players_trick` on top of `last_trick`, or says why not: the
/// cards of either form no combination, or the new one does not dominate.
pub fn compare_tricks(last_trick: &[Cards], players_trick: &[Cards]) -> (r: Result<(), GameError>)
    ensures
        beats(last_trick@, players_trick@) <==> r is Ok,
        (classify(players_trick@) is None || classify(last_trick@) is None) <==> r == Err::<
            (),
            GameError,
        >(GameError::IllegalTrick),
        (classify(players_trick@) is Some && classify(last_trick@) is Some && !beats(
            last_trick@,
            players_trick@,
        )) <==> r == Err::<(), GameError>(GameError::IllegalBeat),
{
    let c: TrickType = match TrickType::try_from(players_trick) {
        Ok(t) => t,
        Err(e) => {
            return Err(GameError::IllegalTrick);
        },
    };
    let p: TrickType = match TrickType::try_from(last_trick) {
        Ok(t) => t,
        Err(e) => {
            return Err(GameError::IllegalTrick);
        },
    };
    if dominates(last_trick, p, players_trick, c) {
        Ok(())
    } else {
        Err(GameError::IllegalBeat)
    }
}

/// No combination can be played on itself, the lone Dragon excepted,
/// which takes every single.
pub proof fn lemma_beats_irreflexive(x: Seq<Cards>)
    requires
        !(x.len() == 1 && x[0] is Dragon),
    ensures
        !beats(x, x),
{
}

/// Among combinations of one kind, what may be played on something that may
/// be played on a third may itself be played on the third.
pub proof fn lemma_beats_transitive(a: Seq<Cards>, b: Seq<Cards>, c: Seq<Cards>)
    requires
        classify(a) is Some,
        classify(a) == classify(b),
        classify(b) == classify(c),
        beats(a, b),
        beats(b, c),
    ensures
        beats(a, c),
{
}

/// A bomb may be played on every combination that is not a bomb.
pub proof fn lemma_bomb_dominates(p: Seq<Cards>, b: Seq<Cards>)
    requires
        classify(p) matches Some(t) && !t.bomb(),
        classify(b) matches Some(t) && t.bomb(),
    ensures
        beats(p, b),
{
}

} // verus!
