//! Hands as multisets of physical cards: counting, owning and taking out.

use vstd::prelude::*;
use crate::card::Cards;
use crate::trick::count_if;
use crate::trick::lemma_count_remove;

verus! {

/// The cards a player holds.
#[derive(Debug)]
pub struct Hand {
    pub cards: Vec<Cards>,
}

/// How many copies of the physical card with identity `k` lie in `s`.
pub open spec fn copies(s: Seq<Cards>, k: int) -> nat {
    count_if(s, |c: Cards| c.identity() == k)
}

/// The sum of the point values of the cards.
pub open spec fn points_of(s: Seq<Cards>) -> int
    decreases s.len(),
{
    if s.len() == 0 {
        0
    } else {
        points_of(s.drop_last()) + s.last().points()
    }
}

/// `hand` holds every card of `selected`, copy for copy.
pub open spec fn holds(hand: Seq<Cards>, selected: Seq<Cards>) -> bool {
    forall|k: int| #[trigger] copies(selected, k) <= copies(hand, k)
}

/// The position of the first card of `s` with identity `k`, or the length of
/// `s` when there is none.
pub open spec fn first_index(s: Seq<Cards>, k: int) -> int
    decreases s.len(),
{
    if s.len() == 0 {
        0
    } else if s[0].identity() == k {
        0
    } else {
        1 + first_index(s.drop_first(), k)
    }
}

/// `s` without its first card of identity `k`; `s` itself when it has none.
pub open spec fn remove_first(s: Seq<Cards>, k: int) -> Seq<Cards> {
    let i = first_index(s, k);
    if i < s.len() {
        s.remove(i)
    } else {
        s
    }
}

/// `hand` after each card of `selected` in turn has taken its first copy out.
pub open spec fn without(hand: Seq<Cards>, selected: Seq<Cards>) -> Seq<Cards>
    decreases selected.len(),
{
    if selected.len() == 0 {
        hand
    } else {
        remove_first(without(hand, selected.drop_last()), selected.last().identity())
    }
}

/// The cards with their temporary marks wiped: no value on the Phoenix, no
/// wish on the Mahjong.
pub open spec fn wiped(s: Seq<Cards>) -> Seq<Cards> {
    Seq::new(s.len(), |i: int| s[i].plain())
}

pub proof fn lemma_first_index(s: Seq<Cards>, k: int)
    ensures
        0 <= first_index(s, k) <= s.len(),
        first_index(s, k) < s.len() ==> s[first_index(s, k)].identity() == k,
        forall|j: int| 0 <= j < first_index(s, k) ==> s[j].identity() != k,
        first_index(s, k) < s.len() <==> copies(s, k) > 0,
    decreases s.len(),
{
    if s.len() > 0 {
        let t = s.drop_first();
        lemma_first_index(t, k);
        lemma_count_remove(s, |c: Cards| c.identity() == k, 0);
        assert(s.remove(0) =~= t);
        if s[0].identity() != k {
            assert forall|j: int| 0 <= j < first_index(s, k) implies s[j].identity() != k by {
                if j > 0 {
                    assert(s[j] == t[j - 1]);
                }
            }
        }
    }
}

/// Taking the first copy of `k` out lowers the copies of `k` by one, if there
/// was one, and leaves every other count alone.
pub proof fn lemma_remove_first(s: Seq<Cards>, k: int, j: int)
    ensures
        copies(remove_first(s, k), j) == if j == k && copies(s, k) > 0 {
            copies(s, j) - 1
        } else {
            copies(s, j) as int
        },
        points_of(remove_first(s, k)) == if first_index(s, k) < s.len() {
            points_of(s) - s[first_index(s, k)].points()
        } else {
            points_of(s)
        },
{
    lemma_first_index(s, k);
    let i = first_index(s, k);
    if i < s.len() {
        lemma_count_remove(s, |c: Cards| c.identity() == j, i);
        lemma_points_remove(s, i);
    }
}

pub proof fn lemma_points_remove(s: Seq<Cards>, i: int)
    requires
        0 <= i < s.len(),
    ensures
        points_of(s) == points_of(s.remove(i)) + s[i].points(),
    decreases s.len(),
{
    if i == s.len() - 1 {
        assert(s.remove(i) =~= s.drop_last());
    } else {
        lemma_points_remove(s.drop_last(), i);
        assert(s.remove(i).drop_last() =~= s.drop_last().remove(i));
        assert(s.remove(i).last() == s.last());
    }
}

/// Counts add up over a concatenation.
pub proof fn lemma_count_concat(a: Seq<Cards>, b: Seq<Cards>, p: spec_fn(Cards) -> bool)
    ensures
        count_if(a + b, p) == count_if(a, p) + count_if(b, p),
    decreases b.len(),
{
    if b.len() == 0 {
        assert(a + b =~= a);
    } else {
        lemma_count_concat(a, b.drop_last(), p);
        assert((a + b).drop_last() =~= a + b.drop_last());
        assert((a + b).last() == b.last());
    }
}

/// Point values add up over a concatenation.
pub proof fn lemma_points_concat(a: Seq<Cards>, b: Seq<Cards>)
    ensures
        points_of(a + b) == points_of(a) + points_of(b),
    decreases b.len(),
{
    if b.len() == 0 {
        assert(a + b =~= a);
    } else {
        lemma_points_concat(a, b.drop_last());
        assert((a + b).drop_last() =~= a + b.drop_last());
        assert((a + b).last() == b.last());
    }
}

/// A hand that holds the selected cards loses exactly those, copy for copy,
/// when they are taken out.
pub proof fn lemma_without(hand: Seq<Cards>, selected: Seq<Cards>, k: int)
    requires
        holds(hand, selected),
    ensures
        copies(without(hand, selected), k) == copies(hand, k) - copies(selected, k),
        without(hand, selected).len() == hand.len() - selected.len(),
    decreases selected.len(),
{
    if selected.len() > 0 {
        let rest = selected.drop_last();
        let x = selected.last().identity();
        assert forall|j: int| #[trigger] copies(rest, j) <= copies(hand, j) by {
            assert(copies(selected, j) <= copies(hand, j));
        }
        lemma_without(hand, rest, k);
        lemma_without(hand, rest, x);
        assert(copies(selected, x) <= copies(hand, x));
        lemma_remove_first(without(hand, rest), x, k);
        lemma_first_index(without(hand, rest), x);
    }
}

/// Counts the copies of the physical card `id` among the cards.
pub fn count_copies(cards: &[Cards], id: u8) -> (r: usize)
    ensures
        r == copies(cards@, id as int),
        r <= cards.len(),
{
    let mut c: usize = 0;
    let mut i: usize = 0;
    while i < cards.len()
        invariant
            i <= cards.len(),
            c <= i,
            c == copies(cards@.take(i as int), id as int),
        decreases cards.len() - i,
    {
        proof {
            assert(cards@.take(i + 1).drop_last() =~= cards@.take(i as int));
        }
        if cards[i].id() == id {
            c = c + 1;
        }
        i = i + 1;
    }
    proof {
        assert(cards@.take(cards.len() as int) =~= cards@);
    }
    c
}

/// Whether the hand holds every selected card, copy for copy. Cards are told
/// apart by rank and suit: a Phoenix is the Phoenix whatever value it has.
pub fn player_owns_cards(hand: &Hand, selected_cards: &[Cards]) -> (r: bool)
    ensures
        r == holds(hand.cards@, selected_cards@),
{
    let mut i: usize = 0;
    while i < selected_cards.len()
        invariant
            i <= selected_cards.len(),
            forall|j: int|
                0 <= j < i ==> copies(selected_cards@, #[trigger] selected_cards@[j].identity())
                    <= copies(hand.cards@, selected_cards@[j].identity()),
        decreases selected_cards.len() - i,
    {
        let id: u8 = selected_cards[i].id();
        if count_copies(selected_cards, id) > count_copies(hand.cards.as_slice(), id) {
            assert(copies(selected_cards@, id as int) > copies(hand.cards@, id as int));
            return false;
        }
        i = i + 1;
    }
    proof {
        assert forall|k: int| #[trigger]
            copies(selected_cards@, k) <= copies(hand.cards@, k) by {
            if copies(selected_cards@, k) > 0 {
                lemma_first_index(selected_cards@, k);
                let j = first_index(selected_cards@, k);
                assert(selected_cards@[j].identity() == k);
            }
        }
    }
    true
}

/// Takes the selected cards out of the hand: each in turn removes the first
/// card of the hand that is the same physical card.
pub fn take_cards(hand: &mut Vec<Cards>, selected: &[Cards])
    ensures
        final(hand)@ == without(old(hand)@, selected@),
{
    let mut i: usize = 0;
    while i < selected.len()
        invariant
            i <= selected.len(),
            hand@ == without(old(hand)@, selected@.take(i as int)),
        decreases selected.len() - i,
    {
        proof {
            assert(selected@.take(i + 1).drop_last() =~= selected@.take(i as int));
        }
        let id: u8 = selected[i].id();
        let ghost before = hand@;
        proof {
            assert(before.subrange(0, before.len() as int) =~= before);
        }
        let mut j: usize = 0;
        while j < hand.len() && hand[j].id() != id
            invariant
                j <= hand.len(),
                hand@ == before,
                first_index(before, id as int) == j + first_index(
                    before.subrange(j as int, before.len() as int),
                    id as int,
                ),
            decreases hand.len() - j,
        {
            proof {
                assert(before.subrange(j as int, before.len() as int).drop_first()
                    =~= before.subrange(j + 1, before.len() as int));
            }
            j = j + 1;
        }
        proof {
            if j < hand.len() {
                assert(before.subrange(j as int, before.len() as int)[0] == before[j as int]);
            }
        }
        if j < hand.len() {
            hand.remove(j);
        }
        i = i + 1;
    }
    proof {
        assert(selected@.take(selected.len() as int) =~= selected@);
    }
}

/// Adds up the point values of the cards.
pub fn sum_points(cards: &[Cards]) -> (r: i128)
    ensures
        r == points_of(cards@),
        -25 * cards.len() <= r <= 25 * cards.len(),
{
    let mut total: i128 = 0;
    let mut i: usize = 0;
    while i < cards.len()
        invariant
            i <= cards.len(),
            total == points_of(cards@.take(i as int)),
            -25 * i <= total <= 25 * i,
        decreases cards.len() - i,
    {
        proof {
            assert(cards@.take(i + 1).drop_last() =~= cards@.take(i as int));
        }
        let p: i8 = cards[i].get_points();
        total = total + p as i128;
        i = i + 1;
    }
    proof {
        assert(cards@.take(cards.len() as int) =~= cards@);
    }
    total
}

/// Copies the cards as they are.
pub fn clone_cards(cards: &[Cards]) -> (r: Vec<Cards>)
    ensures
        r@ == cards@,
{
    let mut out: Vec<Cards> = Vec::new();
    let mut i: usize = 0;
    while i < cards.len()
        invariant
            i <= cards.len(),
            out@ == cards@.take(i as int),
        decreases cards.len() - i,
    {
        out.push(cards[i].clone());
        proof {
            assert(cards@.take(i + 1) =~= cards@.take(i as int).push(cards@[i as int]));
        }
        i = i + 1;
    }
    proof {
        assert(cards@.take(cards.len() as int) =~= cards@);
    }
    out
}

impl Clone for Hand {
    fn clone(&self) -> (r: Self)
        ensures
            r.cards@ == self.cards@,
    {
        Hand { cards: clone_cards(self.cards.as_slice()) }
    }
}

/// The cards of the combinations of a trick, from the first played to the
/// last.
pub open spec fn stack_cards(stack: Seq<Vec<Cards>>) -> Seq<Cards>
    decreases stack.len(),
{
    if stack.len() == 0 {
        Seq::empty()
    } else {
        stack_cards(stack.drop_last()) + stack.last()@
    }
}

/// Wiping the marks keeps every physical card and its worth.
pub proof fn lemma_wiped(s: Seq<Cards>, k: int)
    ensures
        copies(wiped(s), k) == copies(s, k),
        points_of(wiped(s)) == points_of(s),
    decreases s.len(),
{
    if s.len() > 0 {
        lemma_wiped(s.drop_last(), k);
        assert(wiped(s).drop_last() =~= wiped(s.drop_last()));
        assert(wiped(s).last() == s.last().plain());
    }
}

/// Adds wiped copies of the cards to the pile.
pub fn wipe_into(pile: &mut Vec<Cards>, cards: &[Cards])
    ensures
        final(pile)@ == old(pile)@ + wiped(cards@),
{
    let mut i: usize = 0;
    proof {
        assert(pile@ =~= old(pile)@ + wiped(cards@.take(0)));
    }
    while i < cards.len()
        invariant
            i <= cards.len(),
            pile@ == old(pile)@ + wiped(cards@.take(i as int)),
        decreases cards.len() - i,
    {
        pile.push(cards[i].cleared());
        proof {
            assert(old(pile)@ + wiped(cards@.take(i + 1)) =~= (old(pile)@ + wiped(
                cards@.take(i as int),
            )).push(cards@[i as int].plain()));
        }
        i = i + 1;
    }
    proof {
        assert(cards@.take(cards.len() as int) =~= cards@);
    }
}

} // verus!
