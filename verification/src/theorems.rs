//! What holds of every game: the cards are conserved, the seating is a
//! ring of alternating sides, hands only shrink and passing ends a trick.

use vstd::prelude::*;
use crate::card::Cards;
use crate::game::Game;
use crate::game::seat_sides;
use crate::hand::copies;
use crate::hand::lemma_count_concat;
use crate::hand::lemma_wiped;
use crate::hand::lemma_without;
use crate::hand::stack_cards;
use crate::hand::wiped;
use crate::player::Player;
use crate::player::copies_held;
use crate::player::index_of;
use crate::player::lemma_held_update;
use crate::player::lemma_index_of;
use crate::player::team_of;
use crate::round::Action;
use crate::round::Turn;
use crate::round::is_ring;
use crate::round::reach;
use crate::round::seat_ok;

verus! {

impl Game {
    /// How many copies of the physical card `k` are in the game: in the
    /// hands, in the running trick and among the captured cards.
    pub open spec fn copies_in_play(self, k: int) -> nat {
        copies_held(self.players@, k) + match self.round {
            Some(rd) => copies(stack_cards(rd.current_trick@), k) + copies(rd.captured@, k),
            None => 0,
        }
    }
}

impl Game {
    /// The game holds the deck: every physical card once, and nothing
    /// else.
    pub open spec fn complete(self) -> bool {
        forall|k: int| #[trigger]
            self.copies_in_play(k) == if 0 <= k < 56 {
                1nat
            } else {
                0nat
            }
    }
}

/// A round that starts after a deal to four players holds the deck, and
/// so does every game reached from one that holds it by a move or by the
/// capture of a trick.
pub proof fn lemma_deck_is_kept(before: Game, turn: Turn, after: Game)
    requires
        before.wf(),
        ({
            ||| before.round_started(after) && (forall|k: int| #[trigger]
                copies_held(before.players@, k) == if 0 <= k < 56 {
                    1nat
                } else {
                    0nat
                })
            ||| before.complete() && before.turn_refusal(turn) is None && before.turn_applied(
                turn,
                after,
            )
            ||| before.complete() && before.capture_refusal() is None && before.trick_captured(
                after,
            )
        }),
    ensures
        after.complete(),
{
    assert forall|k: int| #[trigger]
        after.copies_in_play(k) == if 0 <= k < 56 {
            1nat
        } else {
            0nat
        } by {
        if before.round_started(after) && (forall|j: int| #[trigger]
            copies_held(before.players@, j) == if 0 <= j < 56 {
                1nat
            } else {
                0nat
            }) {
            assert(copies_held(before.players@, k) == if 0 <= k < 56 {
                1nat
            } else {
                0nat
            });
            lemma_start_conserves(before, after, k);
        } else if before.complete() && before.turn_refusal(turn) is None && before.turn_applied(
            turn,
            after,
        ) {
            lemma_turn_conserves(before, turn, after, k);
            assert(before.copies_in_play(k) == if 0 <= k < 56 {
                1nat
            } else {
                0nat
            });
        } else {
            lemma_capture_conserves(before, after, k);
            assert(before.copies_in_play(k) == if 0 <= k < 56 {
                1nat
            } else {
                0nat
            });
        }
    }
}

/// A fresh round holds the cards that the players held before it, all of
/// them in the hands.
pub proof fn lemma_start_conserves(before: Game, after: Game, k: int)
    requires
        before.round_started(after),
    ensures
        after.copies_in_play(k) == copies_held(before.players@, k),
{
    let rd = after.round.unwrap();
    assert(stack_cards(rd.current_trick@) =~= Seq::<Cards>::empty());
    assert(rd.captured@ =~= Seq::<Cards>::empty());
}

/// A move loses no card and makes none: what leaves a hand lies in the
/// trick.
pub proof fn lemma_turn_conserves(before: Game, turn: Turn, after: Game, k: int)
    requires
        before.wf(),
        before.turn_refusal(turn) is None,
        before.turn_applied(turn, after),
    ensures
        after.copies_in_play(k) == before.copies_in_play(k),
{
    let rd = before.round.unwrap();
    let now = after.round.unwrap();
    if turn.action == Action::Play {
        let cards = turn.cards.unwrap();
        let i = index_of(before.players@, turn.player);
        assert(seat_sides(before.players@, rd.prev_next_player@, turn.player));
        lemma_index_of(before.players@, turn.player);
        lemma_held_update(before.players@, i, after.players@[i], k);
        lemma_without(before.players@[i].cards(), cards@, k);
        assert(now.current_trick@.drop_last() =~= rd.current_trick@);
        lemma_count_concat(stack_cards(rd.current_trick@), cards@, |c: Cards| c.identity() == k);
    }
}

/// Capturing a trick loses no card and makes none: what lay in the trick
/// lies among the captured cards.
pub proof fn lemma_capture_conserves(before: Game, after: Game, k: int)
    requires
        before.wf(),
        before.capture_refusal() is None,
        before.trick_captured(after),
    ensures
        after.copies_in_play(k) == before.copies_in_play(k),
{
    let rd = before.round.unwrap();
    let now = after.round.unwrap();
    let i = index_of(before.players@, rd.last_played_player);
    assert(seat_sides(before.players@, rd.prev_next_player@, rd.last_played_player));
    lemma_index_of(before.players@, rd.last_played_player);
    lemma_held_update(before.players@, i, after.players@[i], k);
    lemma_wiped(stack_cards(rd.current_trick@), k);
    lemma_count_concat(
        rd.captured@,
        wiped(stack_cards(rd.current_trick@)),
        |c: Cards| c.identity() == k,
    );
    assert(stack_cards(now.current_trick@) =~= Seq::<Cards>::empty());
}

/// Around the table of a sound game every seat comes back to itself after
/// four steps, and neighbours are on opposite sides.
pub proof fn lemma_seating(game: Game, s: u64)
    requires
        game.wf(),
        game.round matches Some(rd) && rd.prev_next_player@.contains_key(s),
    ensures
        ({
            let next = game.round.unwrap().prev_next_player@;
            &&& next[next[next[next[s]]]] == s
            &&& team_of(game.players@, s) != team_of(game.players@, next[s])
        }),
{
    let next = game.round.unwrap().prev_next_player@;
    assert(seat_ok(next, s));
    assert(seat_sides(game.players@, next, s));
}

/// A move makes no hand larger and changes nobody's trick points.
pub proof fn lemma_hands_shrink(before: Game, turn: Turn, after: Game, x: int)
    requires
        before.wf(),
        before.turn_refusal(turn) is None,
        before.turn_applied(turn, after),
        0 <= x < before.players@.len(),
    ensures
        after.players@.len() == before.players@.len(),
        after.players@[x].cards().len() <= before.players@[x].cards().len(),
        after.players@[x].trick_points == before.players@[x].trick_points,
{
    let rd = before.round.unwrap();
    if turn.action == Action::Play {
        let cards = turn.cards.unwrap();
        let i = index_of(before.players@, turn.player);
        assert(seat_sides(before.players@, rd.prev_next_player@, turn.player));
        lemma_index_of(before.players@, turn.player);
        lemma_without(before.players@[i].cards(), cards@, 0);
    }
}

/// Once a player has finished first, no move and no capture names
/// another: the first to finish is set once in a round.
pub proof fn lemma_first_finisher_stays(before: Game, turn: Turn, after: Game)
    requires
        before.round matches Some(rd) && rd.first_to_finish is Some,
        before.turn_applied(turn, after) || before.trick_captured(after),
    ensures
        after.round.unwrap().first_to_finish == before.round.unwrap().first_to_finish,
{
}

/// Capturing a trick changes no hand, and lowers nobody's trick points
/// unless the trick is worth less than nothing.
pub proof fn lemma_points_grow(before: Game, after: Game, x: int)
    requires
        before.wf(),
        before.capture_refusal() is None,
        before.trick_captured(after),
        before.trick_worth() >= 0,
        0 <= x < before.players@.len(),
    ensures
        after.players@.len() == before.players@.len(),
        after.players@[x].cards() == before.players@[x].cards(),
        after.players@[x].trick_points >= before.players@[x].trick_points,
{
    let rd = before.round.unwrap();
    assert(seat_sides(before.players@, rd.prev_next_player@, rd.last_played_player));
    lemma_index_of(before.players@, rd.last_played_player);
}

/// How many steps along the seating lead from `c` to `a`: 1 to 4, and 4
/// from a seat to itself.
pub open spec fn hops_to(next: Map<u64, u64>, c: u64, a: u64) -> int {
    if next[c] == a {
        1
    } else if next[next[c]] == a {
        2
    } else if next[next[next[c]]] == a {
        3
    } else {
        4
    }
}

/// In a ring, every seat lies on the way round from every other.
pub proof fn lemma_ring_orbit(next: Map<u64, u64>, c: u64, a: u64)
    requires
        is_ring(next),
        next.contains_key(c),
        next.contains_key(a),
    ensures
        a == c || a == next[c] || a == next[next[c]] || a == next[next[next[c]]],
{
    let c1 = next[c];
    let c2 = next[c1];
    let c3 = next[c2];
    assert(seat_ok(next, c));
    assert(seat_ok(next, c1));
    assert(seat_ok(next, c2));
    assert(seat_ok(next, c3));
    let orbit = set![c, c1, c2, c3];
    assert(orbit.len() == 4) by {
        broadcast use vstd::set_lib::group_set_properties;

    }
    assert(orbit.subset_of(next.dom()));
    vstd::set_lib::lemma_subset_equality(orbit, next.dom());
    assert(orbit.contains(a));
}

/// Passing the turn on moves it towards the seat that played last, and
/// never past it.
pub proof fn lemma_reach_progress(next: Map<u64, u64>, players: Seq<Player>, a: u64, c: u64)
    requires
        is_ring(next),
        next.contains_key(c),
        next.contains_key(a),
    ensures
        next.contains_key(reach(next, players, a, c, 4)),
        reach(next, players, a, c, 4) == a || hops_to(next, reach(next, players, a, c, 4), a)
            < hops_to(next, c, a),
{
    let c1 = next[c];
    let c2 = next[c1];
    let c3 = next[c2];
    assert(seat_ok(next, c));
    assert(seat_ok(next, c1));
    assert(seat_ok(next, c2));
    assert(seat_ok(next, c3));
    lemma_ring_orbit(next, c, a);
    reveal_with_fuel(reach, 5);
}

/// After a play, passing ends the trick: if the play itself did not end
/// it, then the first, the second or the third pass in a row reports that
/// the trick is over, and a pass is only made while none before it has.
pub proof fn lemma_passes_end_trick(
    g: Game,
    play: Turn,
    g0: Game,
    t1: Turn,
    g1: Game,
    t2: Turn,
    g2: Game,
    t3: Turn,
    g3: Game,
)
    requires
        g.wf(),
        play.action == Action::Play,
        g.turn_refusal(play) is None,
        g.turn_applied(play, g0),
        !g.trick_ended(g0) ==> t1.action == Action::Pass && g0.turn_refusal(t1) is None
            && g0.turn_applied(t1, g1),
        !g.trick_ended(g0) && !g0.trick_ended(g1) ==> t2.action == Action::Pass
            && g1.turn_refusal(t2) is None && g1.turn_applied(t2, g2),
        !g.trick_ended(g0) && !g0.trick_ended(g1) && !g1.trick_ended(g2) ==> t3.action
            == Action::Pass && g2.turn_refusal(t3) is None && g2.turn_applied(t3, g3),
    ensures
        g.trick_ended(g0) || g0.trick_ended(g1) || g1.trick_ended(g2) || g2.trick_ended(g3),
{
    let next = g.round.unwrap().prev_next_player@;
    let a = play.player;
    let players = g0.players@;
    if !g.trick_ended(g0) {
        let c0 = g0.round.unwrap().current_player;
        assert(c0 == reach(next, players, a, a, 4));
        lemma_reach_progress(next, players, a, a);
        if !g0.trick_ended(g1) {
            let c1 = g1.round.unwrap().current_player;
            assert(c1 == reach(next, players, a, c0, 4));
            lemma_reach_progress(next, players, a, c0);
            if !g1.trick_ended(g2) {
                let c2 = g2.round.unwrap().current_player;
                assert(c2 == reach(next, players, a, c1, 4));
                lemma_reach_progress(next, players, a, c1);
                lemma_reach_progress(next, players, a, c2);
            }
        }
    }
}

} // verus!
