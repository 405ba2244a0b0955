//! Classification of a set of cards into the combination it forms.

use vstd::prelude::*;
use crate::card::Cards;
use crate::card::Color;
use crate::error::GameError;

verus! {

/// The kinds of combination. The last two are the bombs.
#[derive(Debug, Clone, Copy, PartialEq, Eq, Structural)]
pub enum TrickType {
    Single,
    Pair,
    Triple,
    FullHouse,
    Straight,
    SequenceOfPairs,
    FourOfAKind,
    StraightFlush,
}

impl TrickType {
    /// A four of a kind or a straight flush.
    pub open spec fn bomb(self) -> bool {
        self == TrickType::FourOfAKind || self == TrickType::StraightFlush
    }

    pub fn is_bomb(&self) -> (r: bool)
        ensures
            r == self.bomb(),
    {
        match self {
            TrickType::FourOfAKind => true,
            TrickType::StraightFlush => true,
            _ => false,
        }
    }
}

/// How many cards of `s` satisfy `p`.
pub open spec fn count_if(s: Seq<Cards>, p: spec_fn(Cards) -> bool) -> nat
    decreases s.len(),
{
    if s.len() == 0 {
        0
    } else {
        count_if(s.drop_last(), p) + if p(s.last()) {
            1nat
        } else {
            0nat
        }
    }
}

/// The card counts as rank `n`: a natural card of that rank, the Mahjong for
/// 1, or a Phoenix that has been assigned `n`.
pub open spec fn has_number(c: Cards, n: int) -> bool {
    c.number() matches Some(v) && v == n
}

/// How many cards of `s` count as rank `n`.
pub open spec fn rank_count(s: Seq<Cards>, n: int) -> nat {
    count_if(s, |c: Cards| has_number(c, n))
}

pub open spec fn phoenix_count(s: Seq<Cards>) -> nat {
    count_if(s, |c: Cards| c is Phoenix)
}

pub open spec fn mahjong_count(s: Seq<Cards>) -> nat {
    count_if(s, |c: Cards| c is Mahjong)
}

/// How many cards of `s` are natural cards of suit `k`.
pub open spec fn suit_count(s: Seq<Cards>, k: Color) -> nat {
    count_if(s, |c: Cards| c.color() == Some(k))
}

/// The highest rank not above `from` that exactly `k` cards of `s` count as,
/// or 0 when there is none.
pub open spec fn top_rank(s: Seq<Cards>, k: nat, from: int) -> int
    decreases from,
{
    if from <= 0 {
        0
    } else if rank_count(s, from) == k {
        from
    } else {
        top_rank(s, k, from - 1)
    }
}

/// Every rank from `lo` to `hi` is held by exactly `k` cards of `s`.
pub open spec fn ranks_filled(s: Seq<Cards>, lo: int, hi: int, k: nat) -> bool {
    forall|n: int| lo <= n <= hi ==> #[trigger] rank_count(s, n) == k
}

/// One card. A Phoenix played alone must have been given a value from 1 to 14.
pub open spec fn is_single(s: Seq<Cards>) -> bool {
    &&& s.len() == 1
    &&& s[0] is Phoenix ==> (s[0].number() matches Some(v) && 1 <= v <= 14)
}

/// `size` cards that all count as one rank from Two to Ace, at most one of
/// them the Phoenix.
pub open spec fn is_group(s: Seq<Cards>, size: nat) -> bool {
    &&& s.len() == size
    &&& phoenix_count(s) <= 1
    &&& top_rank(s, size, 14) >= 2
}

/// Four natural cards of one rank.
pub open spec fn is_four_of_a_kind(s: Seq<Cards>) -> bool {
    &&& s.len() == 4
    &&& phoenix_count(s) == 0
    &&& top_rank(s, 4, 14) >= 2
}

/// Three cards of one rank and two of another, at most one of the five the
/// Phoenix.
pub open spec fn is_full_house(s: Seq<Cards>) -> bool {
    &&& s.len() == 5
    &&& phoenix_count(s) <= 1
    &&& top_rank(s, 3, 14) >= 2
    &&& top_rank(s, 2, 14) >= 2
}

/// Two or more pairs of consecutive ranks from Two to Ace, at most one card
/// the Phoenix.
pub open spec fn is_sequence_of_pairs(s: Seq<Cards>) -> bool {
    let hi = top_rank(s, 2, 14);
    let lo = hi - s.len() / 2 + 1;
    &&& 4 <= s.len() <= 14
    &&& s.len() % 2 == 0
    &&& phoenix_count(s) <= 1
    &&& 2 <= lo
    &&& ranks_filled(s, lo, hi, 2)
}

/// Five or more cards of consecutive ranks, one card to a rank. Rank 1 can
/// only be the Mahjong; at most one card is the Phoenix.
pub open spec fn is_straight(s: Seq<Cards>) -> bool {
    let hi = top_rank(s, 1, 14);
    let lo = hi - s.len() + 1;
    &&& 5 <= s.len() <= 14
    &&& phoenix_count(s) <= 1
    &&& 1 <= lo
    &&& ranks_filled(s, lo, hi, 1)
    &&& lo == 1 ==> mahjong_count(s) == 1
}

/// All cards are natural cards of one suit.
pub open spec fn is_flush(s: Seq<Cards>) -> bool {
    ||| suit_count(s, Color::Black) == s.len()
    ||| suit_count(s, Color::Blue) == s.len()
    ||| suit_count(s, Color::Red) == s.len()
    ||| suit_count(s, Color::Green) == s.len()
}

/// The combination that the cards form, if they form one.
pub open spec fn classify(s: Seq<Cards>) -> Option<TrickType> {
    if is_single(s) {
        Some(TrickType::Single)
    } else if is_group(s, 2) {
        Some(TrickType::Pair)
    } else if is_group(s, 3) {
        Some(TrickType::Triple)
    } else if is_four_of_a_kind(s) {
        Some(TrickType::FourOfAKind)
    } else if is_full_house(s) {
        Some(TrickType::FullHouse)
    } else if is_sequence_of_pairs(s) {
        Some(TrickType::SequenceOfPairs)
    } else if is_straight(s) {
        if is_flush(s) {
            Some(TrickType::StraightFlush)
        } else {
            Some(TrickType::Straight)
        }
    } else {
        None
    }
}

fn count_rank(cards: &[Cards], n: u8) -> (r: usize)
    ensures
        r == rank_count(cards@, n as int),
        r <= cards.len(),
{
    let mut c: usize = 0;
    let mut i: usize = 0;
    while i < cards.len()
        invariant
            i <= cards.len(),
            c <= i,
            c == rank_count(cards@.take(i as int), n as int),
        decreases cards.len() - i,
    {
        proof {
            assert(cards@.take(i + 1).drop_last() =~= cards@.take(i as int));
        }
        match cards[i].get_card_number() {
            Some(v) => {
                if v == n {
                    c = c + 1;
                }
            },
            None => {},
        }
        i = i + 1;
    }
    proof {
        assert(cards@.take(cards.len() as int) =~= cards@);
    }
    c
}

fn count_phoenix(cards: &[Cards]) -> (r: usize)
    ensures
        r == phoenix_count(cards@),
        r <= cards.len(),
{
    let mut c: usize = 0;
    let mut i: usize = 0;
    while i < cards.len()
        invariant
            i <= cards.len(),
            c <= i,
            c == phoenix_count(cards@.take(i as int)),
        decreases cards.len() - i,
    {
        proof {
            assert(cards@.take(i + 1).drop_last() =~= cards@.take(i as int));
        }
        match &cards[i] {
            Cards::Phoenix(_) => {
                c = c + 1;
            },
            _ => {},
        }
        i = i + 1;
    }
    proof {
        assert(cards@.take(cards.len() as int) =~= cards@);
    }
    c
}

fn count_mahjong(cards: &[Cards]) -> (r: usize)
    ensures
        r == mahjong_count(cards@),
        r <= cards.len(),
{
    let mut c: usize = 0;
    let mut i: usize = 0;
    while i < cards.len()
        invariant
            i <= cards.len(),
            c <= i,
            c == mahjong_count(cards@.take(i as int)),
        decreases cards.len() - i,
    {
        proof {
            assert(cards@.take(i + 1).drop_last() =~= cards@.take(i as int));
        }
        match &cards[i] {
            Cards::Mahjong(_) => {
                c = c + 1;
            },
            _ => {},
        }
        i = i + 1;
    }
    proof {
        assert(cards@.take(cards.len() as int) =~= cards@);
    }
    c
}

fn count_suit(cards: &[Cards], k: Color) -> (r: usize)
    ensures
        r == suit_count(cards@, k),
        r <= cards.len(),
{
    let mut c: usize = 0;
    let mut i: usize = 0;
    while i < cards.len()
        invariant
            i <= cards.len(),
            c <= i,
            c == suit_count(cards@.take(i as int), k),
        decreases cards.len() - i,
    {
        proof {
            assert(cards@.take(i + 1).drop_last() =~= cards@.take(i as int));
        }
        match cards[i].get_color() {
            Some(x) => {
                if x == k {
                    c = c + 1;
                }
            },
            None => {},
        }
        i = i + 1;
    }
    proof {
        assert(cards@.take(cards.len() as int) =~= cards@);
    }
    c
}

/// The highest rank that exactly `k` of the cards count as, 0 if there is none.
pub fn highest_rank(cards: &[Cards], k: usize) -> (r: u8)
    ensures
        r == top_rank(cards@, k as nat, 14),
        r <= 14,
{
    let mut n: u8 = 14;
    while n > 0
        invariant
            n <= 14,
            top_rank(cards@, k as nat, 14) == top_rank(cards@, k as nat, n as int),
        decreases n,
    {
        if count_rank(cards, n) == k {
            return n;
        }
        n = n - 1;
    }
    0
}

fn check_ranks_filled(cards: &[Cards], lo: u8, hi: u8, k: usize) -> (r: bool)
    requires
        hi <= 14,
    ensures
        r == ranks_filled(cards@, lo as int, hi as int, k as nat),
{
    let mut n: u8 = lo;
    while n <= hi
        invariant
            hi <= 14,
            lo <= n,
            ranks_filled(cards@, lo as int, n - 1, k as nat),
        decreases hi + 1 - n,
    {
        if count_rank(cards, n) != k {
            assert(rank_count(cards@, n as int) != k);
            return false;
        }
        n = n + 1;
    }
    true
}

fn check_flush(cards: &[Cards]) -> (r: bool)
    ensures
        r == is_flush(cards@),
{
    let len: usize = cards.len();
    count_suit(cards, Color::Black) == len || count_suit(cards, Color::Blue) == len || count_suit(
        cards,
        Color::Red,
    ) == len || count_suit(cards, Color::Green) == len
}

fn check_single(cards: &[Cards]) -> (r: bool)
    ensures
        r == is_single(cards@),
{
    if cards.len() != 1 {
        return false;
    }
    match &cards[0] {
        Cards::Phoenix(p) => match p.value {
            Some(v) => 1 <= v && v <= 14,
            None => false,
        },
        _ => true,
    }
}

fn check_group(cards: &[Cards], size: usize) -> (r: bool)
    ensures
        r == is_group(cards@, size as nat),
{
    cards.len() == size && count_phoenix(cards) <= 1 && highest_rank(cards, size) >= 2
}

fn check_four_of_a_kind(cards: &[Cards]) -> (r: bool)
    ensures
        r == is_four_of_a_kind(cards@),
{
    cards.len() == 4 && count_phoenix(cards) == 0 && highest_rank(cards, 4) >= 2
}

fn check_full_house(cards: &[Cards]) -> (r: bool)
    ensures
        r == is_full_house(cards@),
{
    cards.len() == 5 && count_phoenix(cards) <= 1 && highest_rank(cards, 3) >= 2 && highest_rank(
        cards,
        2,
    ) >= 2
}

fn check_sequence_of_pairs(cards: &[Cards]) -> (r: bool)
    ensures
        r == is_sequence_of_pairs(cards@),
{
    let len: usize = cards.len();
    if len < 4 || len > 14 || len % 2 != 0 {
        return false;
    }
    if count_phoenix(cards) > 1 {
        return false;
    }
    let hi: u8 = highest_rank(cards, 2);
    let half: u8 = (len / 2) as u8;
    if hi < half + 1 {
        return false;
    }
    let lo: u8 = hi - half + 1;
    check_ranks_filled(cards, lo, hi, 2)
}

fn check_straight(cards: &[Cards]) -> (r: bool)
    ensures
        r == is_straight(cards@),
{
    let len: usize = cards.len();
    if len < 5 || len > 14 {
        return false;
    }
    if count_phoenix(cards) > 1 {
        return false;
    }
    let hi: u8 = highest_rank(cards, 1);
    let width: u8 = len as u8;
    if hi < width {
        return false;
    }
    let lo: u8 = hi - width + 1;
    if !check_ranks_filled(cards, lo, hi, 1) {
        return false;
    }
    lo != 1 || count_mahjong(cards) == 1
}

impl TrickType {
    /// Names the combination that the cards form, or refuses them.
    pub fn try_from(cards: &[Cards]) -> (r: Result<TrickType, GameError>)
        ensures
            match classify(cards@) {
                Some(t) => r == Ok::<TrickType, GameError>(t),
                None => r == Err::<TrickType, GameError>(GameError::IllegalTrick),
            },
    {
        if check_single(cards) {
            Ok(TrickType::Single)
        } else if check_group(cards, 2) {
            Ok(TrickType::Pair)
        } else if check_group(cards, 3) {
            Ok(TrickType::Triple)
        } else if check_four_of_a_kind(cards) {
            Ok(TrickType::FourOfAKind)
        } else if check_full_house(cards) {
            Ok(TrickType::FullHouse)
        } else if check_sequence_of_pairs(cards) {
            Ok(TrickType::SequenceOfPairs)
        } else if check_straight(cards) {
            if check_flush(cards) {
                Ok(TrickType::StraightFlush)
            } else {
                Ok(TrickType::Straight)
            }
        } else {
            Err(GameError::IllegalTrick)
        }
    }
}

/// Taking one card out lowers the count by one exactly when the card
/// satisfies the predicate.
pub proof fn lemma_count_remove(s: Seq<Cards>, p: spec_fn(Cards) -> bool, i: int)
    requires
        0 <= i < s.len(),
    ensures
        count_if(s, p) == count_if(s.remove(i), p) + if p(s[i]) {
            1nat
        } else {
            0nat
        },
    decreases s.len(),
{
    if i == s.len() - 1 {
        assert(s.remove(i) =~= s.drop_last());
    } else {
        lemma_count_remove(s.drop_last(), p, i);
        assert(s.remove(i).drop_last() =~= s.drop_last().remove(i));
        assert(s.remove(i).last() == s.last());
    }
}

/// A count depends on which cards there are, not on their order.
pub proof fn lemma_count_permutation(a: Seq<Cards>, b: Seq<Cards>, p: spec_fn(Cards) -> bool)
    requires
        a.to_multiset() == b.to_multiset(),
    ensures
        count_if(a, p) == count_if(b, p),
    decreases a.len(),
{
    a.to_multiset_ensures();
    b.to_multiset_ensures();
    if a.len() > 0 {
        let x = a.last();
        assert(a.contains(x));
        assert(a.to_multiset().count(x) > 0);
        assert(b.to_multiset().count(x) > 0);
        assert(b.contains(x));
        let j = choose|j: int| 0 <= j < b.len() && b[j] == x;
        assert(a.remove(a.len() - 1) =~= a.drop_last());
        assert(a.drop_last().to_multiset() == b.remove(j).to_multiset());
        lemma_count_permutation(a.drop_last(), b.remove(j), p);
        lemma_count_remove(b, p, j);
    }
}

/// The highest rank held `k` times depends on the cards, not on their order.
pub proof fn lemma_top_rank_permutation(a: Seq<Cards>, b: Seq<Cards>, k: nat, from: int)
    requires
        a.to_multiset() == b.to_multiset(),
    ensures
        top_rank(a, k, from) == top_rank(b, k, from),
    decreases from,
{
    if from > 0 {
        lemma_count_permutation(a, b, |c: Cards| has_number(c, from));
        lemma_top_rank_permutation(a, b, k, from - 1);
    }
}

/// Classification looks at the cards handed in and at the value the Phoenix
/// was given, never at the order they come in: two sequences holding the
/// same cards form the same combination, or both form none.
pub proof fn lemma_classify_permutation(a: Seq<Cards>, b: Seq<Cards>)
    requires
        a.to_multiset() == b.to_multiset(),
    ensures
        classify(a) == classify(b),
{
    a.to_multiset_ensures();
    b.to_multiset_ensures();
    assert(a.len() == b.len());
    if a.len() == 1 {
        assert(a.contains(a[0]));
        assert(a.to_multiset().count(a[0]) > 0);
        assert(b.to_multiset().count(a[0]) > 0);
        assert(b.contains(a[0]));
        assert(b[0] == a[0]);
    }
    lemma_count_permutation(a, b, |c: Cards| c is Phoenix);
    lemma_count_permutation(a, b, |c: Cards| c is Mahjong);
    lemma_count_permutation(a, b, |c: Cards| c.color() == Some(Color::Black));
    lemma_count_permutation(a, b, |c: Cards| c.color() == Some(Color::Blue));
    lemma_count_permutation(a, b, |c: Cards| c.color() == Some(Color::Red));
    lemma_count_permutation(a, b, |c: Cards| c.color() == Some(Color::Green));
    lemma_top_rank_permutation(a, b, 1, 14);
    lemma_top_rank_permutation(a, b, 2, 14);
    lemma_top_rank_permutation(a, b, 3, 14);
    lemma_top_rank_permutation(a, b, 4, 14);
    assert forall|lo: int, hi: int, k: nat| ranks_filled(a, lo, hi, k) == ranks_filled(b, lo, hi, k) by {
        assert forall|n: int| rank_count(a, n) == rank_count(b, n) by {
            lemma_count_permutation(a, b, |c: Cards| has_number(c, n));
        }
    }
}

/// A combination has at least one card and at most fourteen.
pub proof fn lemma_classified_len(s: Seq<Cards>)
    requires
        classify(s) is Some,
    ensures
        1 <= s.len() <= 14,
{
}

} // verus!
