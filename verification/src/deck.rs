//! The 56-card deck and the deal of four hands of fourteen.

use vstd::prelude::*;
use rand::Rng;
use crate::card::Cards;
use crate::card::Color;
use crate::card::Mahjong;
use crate::card::Phoenix;
use crate::hand::Hand;
use crate::hand::copies;
use crate::hand::lemma_count_concat;
use crate::trick::lemma_count_remove;

verus! {

/// The thread-local generator of the `rand` crate, carried through unopened.
#[verifier::external_type_specification]
#[verifier::external_body]
pub struct ExThreadRng(rand::rngs::ThreadRng);

/// Calls `rand::thread_rng`, which hands out the calling thread's generator.
/// Nothing is claimed of it.
#[verifier::external_body]
fn thread_generator() -> (rng: rand::rngs::ThreadRng) {
    rand::thread_rng()
}

/// Calls `Rng::gen_range` on the half-open range from 0 to `bound`. The
/// crate panics on an empty range, which `bound > 0` rules out, and returns a
/// value inside the range; which one is left open.
#[verifier::external_body]
fn random_index(rng: &mut rand::rngs::ThreadRng, bound: usize) -> (r: usize)
    requires
        bound > 0,
    ensures
        r < bound,
{
    rng.gen_range(0..bound)
}

/// The suit at position `j` of a rank.
pub open spec fn color_at(j: int) -> Color {
    if j == 0 {
        Color::Black
    } else if j == 1 {
        Color::Blue
    } else if j == 2 {
        Color::Red
    } else {
        Color::Green
    }
}

/// The natural card of rank `n`, 2 to 14, and suit `k`.
pub open spec fn natural_card(n: int, k: Color) -> Cards {
    if n == 2 {
        Cards::Two(k)
    } else if n == 3 {
        Cards::Three(k)
    } else if n == 4 {
        Cards::Four(k)
    } else if n == 5 {
        Cards::Five(k)
    } else if n == 6 {
        Cards::Six(k)
    } else if n == 7 {
        Cards::Seven(k)
    } else if n == 8 {
        Cards::Eight(k)
    } else if n == 9 {
        Cards::Nine(k)
    } else if n == 10 {
        Cards::Ten(k)
    } else if n == 11 {
        Cards::Jack(k)
    } else if n == 12 {
        Cards::Queen(k)
    } else if n == 13 {
        Cards::King(k)
    } else {
        Cards::Ace(k)
    }
}

/// The card at position `i` of the fresh deck: the thirteen ranks of each
/// suit in turn, then the Phoenix, the Mahjong, the Dragon and the Dog.
pub open spec fn deck_card(i: int) -> Cards {
    if i < 52 {
        natural_card(i % 13 + 2, color_at(i / 13))
    } else if i == 52 {
        Cards::Phoenix(Box::new(Phoenix { value: None }))
    } else if i == 53 {
        Cards::Mahjong(Box::new(Mahjong { wish: None }))
    } else if i == 54 {
        Cards::Dragon
    } else {
        Cards::Dog
    }
}

/// The fresh deck of 56 cards.
pub open spec fn full_deck() -> Seq<Cards> {
    Seq::new(56, |i: int| deck_card(i))
}

/// What is left of `deck` after the picks: each pick takes out the card at
/// that position of what the earlier picks left.
pub open spec fn remaining(deck: Seq<Cards>, picks: Seq<usize>) -> Seq<Cards>
    decreases picks.len(),
{
    if picks.len() == 0 {
        deck
    } else {
        remaining(deck, picks.drop_last()).remove(picks.last() as int)
    }
}

/// The cards that the picks take out of `deck`, in the order taken.
pub open spec fn drawn(deck: Seq<Cards>, picks: Seq<usize>) -> Seq<Cards>
    decreases picks.len(),
{
    if picks.len() == 0 {
        Seq::empty()
    } else {
        drawn(deck, picks.drop_last()).push(
            remaining(deck, picks.drop_last())[picks.last() as int],
        )
    }
}

/// Each pick points into what the earlier picks left of `n` cards.
pub open spec fn valid_picks(n: int, picks: Seq<usize>) -> bool {
    forall|i: int| 0 <= i < picks.len() ==> #[trigger] picks[i] < n - i
}

/// How many copies of the physical card `k` the hands hold together.
pub open spec fn copies_in_hands(hands: Seq<Hand>, k: int) -> nat
    decreases hands.len(),
{
    if hands.len() == 0 {
        0
    } else {
        copies_in_hands(hands.drop_last(), k) + copies(hands.last().cards@, k)
    }
}

/// Every physical card occurs once in the fresh deck.
pub proof fn lemma_full_deck(k: int)
    ensures
        copies(full_deck(), k) == if 0 <= k < 56 {
            1nat
        } else {
            0nat
        },
{
    lemma_deck_prefix(56, k);
    if 0 <= k < 56 {
        lemma_deck_place(k);
    }
    assert(full_deck().take(56) =~= full_deck());
}

/// The place in the fresh deck of the physical card `k`.
pub open spec fn deck_position(k: int) -> int {
    if k < 52 {
        (k % 4) * 13 + k / 4
    } else if k == 52 {
        55
    } else if k == 53 {
        53
    } else if k == 54 {
        52
    } else {
        54
    }
}

/// The identity of the card at place `i` of the fresh deck.
pub open spec fn identity_at(i: int) -> int {
    if i < 52 {
        (i % 13) * 4 + i / 13
    } else if i == 52 {
        54
    } else if i == 53 {
        53
    } else if i == 54 {
        55
    } else {
        52
    }
}

proof fn lemma_deck_card(i: int)
    requires
        0 <= i < 56,
    ensures
        deck_card(i).identity() == identity_at(i),
        0 <= identity_at(i) < 56,
        deck_position(identity_at(i)) == i,
{
    if i < 52 {
        let q = i / 13;
        let r = i % 13;
        assert(i == 13 * q + r);
        assert(0 <= q < 4 && 0 <= r < 13);
        let c = deck_card(i);
        assert(c == natural_card(r + 2, color_at(q)));
        assert(c.number() == Some((r + 2) as u8));
        assert(c.color() == Some(color_at(q)));
        assert(color_at(q).index() == q);
        assert(c.identity() == r * 4 + q);
        assert((r * 4 + q) % 4 == q);
        assert((r * 4 + q) / 4 == r);
    }
}

proof fn lemma_deck_place(k: int)
    requires
        0 <= k < 56,
    ensures
        0 <= deck_position(k) < 56,
        identity_at(deck_position(k)) == k,
{
    if k < 52 {
        let q = k % 4;
        let r = k / 4;
        assert(k == 4 * r + q);
        assert(0 <= q < 4 && 0 <= r < 13);
        assert((q * 13 + r) % 13 == r);
        assert((q * 13 + r) / 13 == q);
    }
}

proof fn lemma_deck_prefix(n: int, k: int)
    requires
        0 <= n <= 56,
    ensures
        copies(full_deck().take(n), k) == if 0 <= k < 56 && deck_position(k) < n {
            1nat
        } else {
            0nat
        },
    decreases n,
{
    if n > 0 {
        lemma_deck_prefix(n - 1, k);
        assert(full_deck().take(n).drop_last() =~= full_deck().take(n - 1));
        assert(full_deck().take(n).last() == deck_card(n - 1));
        lemma_deck_card(n - 1);
        if 0 <= k < 56 {
            lemma_deck_place(k);
        }
    }
}

/// The picks move cards from the deck to the drawn pile and lose none.
pub proof fn lemma_draw_keeps(deck: Seq<Cards>, picks: Seq<usize>, k: int)
    requires
        picks.len() <= deck.len(),
        valid_picks(deck.len() as int, picks),
    ensures
        remaining(deck, picks).len() == deck.len() - picks.len(),
        drawn(deck, picks).len() == picks.len(),
        copies(drawn(deck, picks), k) + copies(remaining(deck, picks), k) == copies(deck, k),
    decreases picks.len(),
{
    if picks.len() > 0 {
        let rest = picks.drop_last();
        assert forall|i: int| 0 <= i < rest.len() implies #[trigger] rest[i] < deck.len() - i by {
            assert(rest[i] == picks[i]);
        }
        lemma_draw_keeps(deck, rest, k);
        assert(picks.last() == picks[picks.len() - 1]);
        lemma_count_remove(remaining(deck, rest), |c: Cards| c.identity() == k, picks.last() as int);
        let x = remaining(deck, rest)[picks.last() as int];
        assert(drawn(deck, rest).push(x).drop_last() =~= drawn(deck, rest));
    }
}

/// The hands that the picks deal from the fresh deck: hand `h` gets the
/// fourteen cards drawn from place `14 h` on, in the order drawn.
pub open spec fn dealt_by(hands: Seq<Hand>, picks: Seq<usize>) -> bool {
    &&& hands.len() == 4
    &&& forall|h: int|
        0 <= h < 4 ==> (#[trigger] hands[h]).cards@ == drawn(full_deck(), picks).subrange(
            14 * h,
            14 * h + 14,
        )
}

fn color_of(j: u8) -> (c: Color)
    requires
        j < 4,
    ensures
        c == color_at(j as int),
{
    if j == 0 {
        Color::Black
    } else if j == 1 {
        Color::Blue
    } else if j == 2 {
        Color::Red
    } else {
        Color::Green
    }
}

fn natural(n: u8, k: Color) -> (c: Cards)
    requires
        2 <= n <= 14,
    ensures
        c == natural_card(n as int, k),
{
    if n == 2 {
        Cards::Two(k)
    } else if n == 3 {
        Cards::Three(k)
    } else if n == 4 {
        Cards::Four(k)
    } else if n == 5 {
        Cards::Five(k)
    } else if n == 6 {
        Cards::Six(k)
    } else if n == 7 {
        Cards::Seven(k)
    } else if n == 8 {
        Cards::Eight(k)
    } else if n == 9 {
        Cards::Nine(k)
    } else if n == 10 {
        Cards::Ten(k)
    } else if n == 11 {
        Cards::Jack(k)
    } else if n == 12 {
        Cards::Queen(k)
    } else if n == 13 {
        Cards::King(k)
    } else {
        Cards::Ace(k)
    }
}

/// Builds the fresh deck.
pub fn fresh_deck() -> (deck: Vec<Cards>)
    ensures
        deck@ == full_deck(),
{
    let mut deck: Vec<Cards> = Vec::with_capacity(56);
    let mut i: u8 = 0;
    while i < 52
        invariant
            i <= 52,
            deck@ =~= full_deck().take(i as int),
        decreases 52 - i,
    {
        deck.push(natural(i % 13 + 2, color_of(i / 13)));
        i = i + 1;
    }
    deck.push(Cards::Phoenix(Box::new(Phoenix { value: None })));
    deck.push(Cards::Mahjong(Box::new(Mahjong { wish: None })));
    deck.push(Cards::Dragon);
    deck.push(Cards::Dog);
    assert(deck@ =~= full_deck());
    deck
}

/// The hands deal out every card of the drawn pile when the pile is cut
/// into them.
proof fn lemma_hands_cover(hands: Seq<Hand>, pile: Seq<Cards>, k: int)
    requires
        hands.len() == 4,
        pile.len() == 56,
        forall|h: int|
            0 <= h < 4 ==> (#[trigger] hands[h]).cards@ == pile.subrange(14 * h, 14 * h + 14),
    ensures
        copies_in_hands(hands, k) == copies(pile, k),
{
    let p = |c: Cards| c.identity() == k;
    let a = hands[0].cards@;
    let b = hands[1].cards@;
    let c = hands[2].cards@;
    let d = hands[3].cards@;
    assert(a == pile.subrange(0, 14));
    assert(b == pile.subrange(14, 28));
    assert(c == pile.subrange(28, 42));
    assert(d == pile.subrange(42, 56));
    assert(pile =~= ((a + b) + c) + d);
    lemma_count_concat(a, b, p);
    lemma_count_concat(a + b, c, p);
    lemma_count_concat((a + b) + c, d, p);
    let h3 = hands.drop_last();
    let h2 = h3.drop_last();
    let h1 = h2.drop_last();
    assert(h1.drop_last().len() == 0);
    assert(copies_in_hands(h1, k) == copies(a, k)) by {
        assert(h1.last() == hands[0]);
        assert(copies_in_hands(h1.drop_last(), k) == 0);
    }
    assert(copies_in_hands(h2, k) == copies(a, k) + copies(b, k)) by {
        assert(h2.last() == hands[1]);
    }
    assert(copies_in_hands(h3, k) == copies(a, k) + copies(b, k) + copies(c, k)) by {
        assert(h3.last() == hands[2]);
    }
    assert(hands.last() == hands[3]);
}

/// Deals the fresh deck by the given picks: pick `i` names the place, in
/// what the earlier picks have left of the deck, of the card drawn at step
/// `i`; the first fourteen draws make the first hand, and so on.
pub fn deal_with(picks: &[usize]) -> (hands: Vec<Hand>)
    requires
        picks@.len() == 56,
        valid_picks(56, picks@),
    ensures
        dealt_by(hands@, picks@),
        forall|k: int| #[trigger]
            copies_in_hands(hands@, k) == if 0 <= k < 56 {
                1nat
            } else {
                0nat
            },
{
    let mut deck: Vec<Cards> = fresh_deck();
    let mut hands: Vec<Hand> = Vec::with_capacity(4);
    let mut h: usize = 0;
    while h < 4
        invariant
            h <= 4,
            picks@.len() == 56,
            valid_picks(56, picks@),
            hands@.len() == h,
            deck@ == remaining(full_deck(), picks@.take(14 * h)),
            drawn(full_deck(), picks@.take(14 * h)).len() == 14 * h,
            forall|g: int|
                0 <= g < h ==> (#[trigger] hands@[g]).cards@ == drawn(
                    full_deck(),
                    picks@.take(14 * h),
                ).subrange(14 * g, 14 * g + 14),
        decreases 4 - h,
    {
        let mut cards: Vec<Cards> = Vec::with_capacity(14);
        let mut j: usize = 0;
        proof {
            assert(cards@ =~= drawn(full_deck(), picks@.take(14 * h)).subrange(14 * h, 14 * h));
        }
        while j < 14
            invariant
                h < 4,
                j <= 14,
                picks@.len() == 56,
                valid_picks(56, picks@),
                hands@.len() == h,
                deck@ == remaining(full_deck(), picks@.take(14 * h + j)),
                drawn(full_deck(), picks@.take(14 * h + j)).len() == 14 * h + j,
                cards@ == drawn(full_deck(), picks@.take(14 * h + j)).subrange(
                    14 * h,
                    14 * h + j,
                ),
                forall|g: int|
                    0 <= g < h ==> (#[trigger] hands@[g]).cards@ == drawn(
                        full_deck(),
                        picks@.take(14 * h + j),
                    ).subrange(14 * g, 14 * g + 14),
            decreases 14 - j,
        {
            let i: usize = 14 * h + j;
            let ghost before = picks@.take(i as int);
            let ghost after = picks@.take(i + 1);
            proof {
                assert(after.drop_last() =~= before);
                assert(after.last() == picks@[i as int]);
                assert forall|t: int| 0 <= t < before.len() implies #[trigger] before[t] < 56
                    - t by {
                    assert(before[t] == picks@[t]);
                }
                lemma_draw_keeps(full_deck(), before, 0);
                assert(picks@[i as int] < 56 - i);
            }
            let card: Cards = deck.remove(picks[i]);
            cards.push(card);
            proof {
                let d0 = drawn(full_deck(), before);
                let d1 = drawn(full_deck(), after);
                assert(d1 == d0.push(card));
                assert(d1.subrange(14 * h, 14 * h + j + 1) =~= d0.subrange(
                    14 * h,
                    14 * h + j,
                ).push(card));
                assert forall|g: int| 0 <= g < h implies (#[trigger] hands@[g]).cards@
                    == d1.subrange(14 * g, 14 * g + 14) by {
                    assert(d1.subrange(14 * g, 14 * g + 14) =~= d0.subrange(
                        14 * g,
                        14 * g + 14,
                    ));
                }
            }
            j = j + 1;
        }
        hands.push(Hand { cards });
        h = h + 1;
    }
    proof {
        assert(picks@.take(56) =~= picks@);
        let pile = drawn(full_deck(), picks@);
        lemma_draw_keeps(full_deck(), picks@, 0);
        assert forall|k: int| #[trigger]
            copies_in_hands(hands@, k) == if 0 <= k < 56 {
                1nat
            } else {
                0nat
            } by {
            lemma_hands_cover(hands@, pile, k);
            lemma_draw_keeps(full_deck(), picks@, k);
            lemma_full_deck(k);
            assert(remaining(full_deck(), picks@).len() == 0);
        }
    }
    hands
}

/// Deals four hands of fourteen cards at random from the fresh deck. Which
/// cards land where is left to the generator; whatever it picks, the four
/// hands together hold every physical card once.
pub fn generate_hands() -> (hands: Vec<Hand>)
    ensures
        exists|picks: Seq<usize>|
            picks.len() == 56 && valid_picks(56, picks) && #[trigger] dealt_by(hands@, picks),
        forall|h: int| 0 <= h < 4 ==> (#[trigger] hands@[h]).cards@.len() == 14,
        forall|k: int| #[trigger]
            copies_in_hands(hands@, k) == if 0 <= k < 56 {
                1nat
            } else {
                0nat
            },
{
    let mut rng = thread_generator();
    let mut picks: Vec<usize> = Vec::with_capacity(56);
    let mut i: usize = 0;
    while i < 56
        invariant
            i <= 56,
            picks@.len() == i,
            valid_picks(56, picks@),
        decreases 56 - i,
    {
        let pick: usize = random_index(&mut rng, 56 - i);
        picks.push(pick);
        i = i + 1;
    }
    let hands = deal_with(picks.as_slice());
    proof {
        lemma_draw_keeps(full_deck(), picks@, 0);
    }
    hands
}

} // verus!
