//! The seating cycle and the state of a round.

use std::collections::HashMap;
use vstd::prelude::*;
use crate::card::Cards;
use crate::player::Player;
use crate::player::find_player;
use crate::player::in_play;
use crate::trick::TrickType;

verus! {

broadcast use vstd::std_specs::hash::group_hash_axioms;

/// What a player does on a turn.
#[derive(Debug, Clone, Copy, PartialEq, Eq, Structural)]
pub enum Action {
    Pass,
    Play,
}

/// One move: who acts, how, and with which cards.
#[derive(Debug)]
pub struct Turn {
    pub player: u64,
    pub action: Action,
    pub cards: Option<Vec<Cards>>,
}

/// The state of a round: the seating as a map from each seat to the next,
/// whose turn it is, who played last, the last action, the combinations of
/// the running trick, the kind of the topmost, who finished first, and the
/// cards of the tricks already captured.
#[derive(Debug)]
pub struct Round {
    pub prev_next_player: HashMap<u64, u64>,
    pub current_player: u64,
    pub last_played_player: u64,
    pub previous_action: Option<Action>,
    pub current_trick: Vec<Vec<Cards>>,
    pub current_trick_type: Option<TrickType>,
    pub first_to_finish: Option<u64>,
    pub captured: Vec<Cards>,
}

/// The seat before position `i` of the order, the last seat for the first.
pub open spec fn seat_before(players: Seq<Player>, i: int) -> u64 {
    if i == 0 {
        players.last().socket_id
    } else {
        players[i - 1].socket_id
    }
}

/// The seating map built from the first `n` players of the order: each seat
/// points to the seat after it, the last to the first.
pub open spec fn turn_sequence(players: Seq<Player>, n: int) -> Map<u64, u64>
    decreases n,
{
    if n <= 0 {
        Map::empty()
    } else {
        turn_sequence(players, n - 1).insert(seat_before(players, n - 1), players[n - 1].socket_id)
    }
}

/// The seating in which `a` points to `b`, `b` to `c`, `c` to `d` and `d`
/// back to `a`.
pub open spec fn ring_of(a: u64, b: u64, c: u64, d: u64) -> Map<u64, u64> {
    Map::<u64, u64>::empty().insert(d, a).insert(a, b).insert(b, c).insert(c, d)
}

/// Seat `s` has a successor other than itself, is not its own second
/// successor, and comes back to itself after four steps.
pub open spec fn seat_ok(next: Map<u64, u64>, s: u64) -> bool {
    &&& next.contains_key(next[s])
    &&& next.contains_key(next[next[s]])
    &&& next.contains_key(next[next[next[s]]])
    &&& next[s] != s
    &&& next[next[s]] != s
    &&& next[next[next[next[s]]]] == s
}

/// The seating is a single cycle of four seats.
pub open spec fn is_ring(next: Map<u64, u64>) -> bool {
    &&& next.dom().finite()
    &&& next.dom().len() == 4
    &&& forall|s: u64| next.contains_key(s) ==> #[trigger] seat_ok(next, s)
}

/// The seat reached from `from` by following the seating for at most `hops`
/// steps, stopping at the first seat that is `stop` or still holds cards.
pub open spec fn reach(
    next: Map<u64, u64>,
    players: Seq<Player>,
    stop: u64,
    from: u64,
    hops: nat,
) -> u64
    decreases hops,
{
    let s = next[from];
    if hops <= 1 || s == stop || in_play(players, s) {
        s
    } else {
        reach(next, players, stop, s, (hops - 1) as nat)
    }
}

/// Builds the seating map from the order of play: every player's seat
/// points to the seat of the player after, the last to the first. Where an
/// identity occurs twice, the later entry stands.
pub fn generate_player_turn_sequence(players: Vec<Player>) -> (seating: HashMap<u64, u64>)
    requires
        players@.len() > 0,
    ensures
        seating@ == turn_sequence(players@, players@.len() as int),
{
    let mut seating: HashMap<u64, u64> = HashMap::new();
    let mut previous: u64 = players[players.len() - 1].socket_id;
    let mut i: usize = 0;
    while i < players.len()
        invariant
            i <= players.len(),
            players@.len() > 0,
            previous == seat_before(players@, i as int),
            seating@ == turn_sequence(players@, i as int),
        decreases players.len() - i,
    {
        let current: u64 = players[i].socket_id;
        seating.insert(previous, current);
        previous = current;
        i = i + 1;
    }
    seating
}

/// Four distinct seats in order make a ring.
pub proof fn lemma_turn_sequence_ring(players: Seq<Player>)
    requires
        players.len() == 4,
        players[0].socket_id != players[1].socket_id,
        players[0].socket_id != players[2].socket_id,
        players[0].socket_id != players[3].socket_id,
        players[1].socket_id != players[2].socket_id,
        players[1].socket_id != players[3].socket_id,
        players[2].socket_id != players[3].socket_id,
    ensures
        is_ring(turn_sequence(players, 4)),
        turn_sequence(players, 4) == ring_of(
            players[0].socket_id,
            players[1].socket_id,
            players[2].socket_id,
            players[3].socket_id,
        ),
        forall|i: int|
            0 <= i < 4 ==> turn_sequence(players, 4).contains_key(#[trigger] players[i].socket_id)
                && turn_sequence(players, 4)[players[i].socket_id] == players[(i + 1)
                % 4].socket_id,
{
    let a = players[0].socket_id;
    let b = players[1].socket_id;
    let c = players[2].socket_id;
    let d = players[3].socket_id;
    let m = turn_sequence(players, 4);
    reveal_with_fuel(turn_sequence, 5);
    assert(m == Map::<u64, u64>::empty().insert(d, a).insert(a, b).insert(b, c).insert(c, d));
    assert(m.dom() =~= set![a, b, c, d]);
    assert(set![a, b, c, d].len() == 4) by {
        broadcast use vstd::set_lib::group_set_properties;

    }
}

/// Whether the player with identity `id` is at the table with cards in hand.
pub fn is_in_play(players: &Vec<Player>, id: u64) -> (r: bool)
    ensures
        r == in_play(players@, id),
{
    match find_player(players, id) {
        Some(i) => players[i].has_cards(),
        None => false,
    }
}

impl Round {
    /// The seating is a ring that holds the seat whose turn it is and the
    /// seat that played last.
    pub open spec fn seated(self) -> bool {
        &&& is_ring(self.prev_next_player@)
        &&& self.prev_next_player@.contains_key(self.current_player)
        &&& self.prev_next_player@.contains_key(self.last_played_player)
    }

    /// The trick was led with the Dog.
    pub open spec fn led_by_dog(self) -> bool {
        &&& self.current_trick@.len() > 0
        &&& self.current_trick@.last()@.len() == 1
        &&& self.current_trick@.last()@[0] is Dog
    }

    /// The seat that the turn passes to: the first seat after the current
    /// one that still holds cards, or the seat that played last if that
    /// comes first.
    pub open spec fn seat_after(self, players: Seq<Player>) -> u64 {
        reach(self.prev_next_player@, players, self.last_played_player, self.current_player, 4)
    }

    /// The trick is over: it was led with the Dog, or the last action
    /// was a pass and the turn has come back to the seat that played last.
    pub open spec fn trick_over(self, players: Seq<Player>) -> bool {
        self.led_by_dog() || (self.previous_action == Some(Action::Pass) && self.seat_after(
            players,
        ) == self.last_played_player)
    }

    /// The seat that a finished trick hands the lead to: the partner of the
    /// seat that played last if the trick was led with the Dog, else that
    /// seat itself.
    pub open spec fn heir(self) -> u64 {
        if self.led_by_dog() {
            self.prev_next_player@[self.prev_next_player@[self.last_played_player]]
        } else {
            self.last_played_player
        }
    }

    /// The seat that leads after the trick: the heir if it still holds
    /// cards, else the first seat after it that does; the heir itself when
    /// nobody holds cards.
    pub open spec fn leader_after(self, players: Seq<Player>) -> u64 {
        let start = self.heir();
        if in_play(players, start) {
            start
        } else {
            reach(self.prev_next_player@, players, start, start, 4)
        }
    }

    /// A round over the given seating that opens with `first` to lead.
    pub fn new(seating: HashMap<u64, u64>, first: u64) -> (r: Round)
        ensures
            r.prev_next_player == seating,
            r.current_player == first,
            r.last_played_player == first,
            r.previous_action is None,
            r.current_trick@.len() == 0,
            r.current_trick_type is None,
            r.first_to_finish is None,
            r.captured@.len() == 0,
    {
        Round {
            prev_next_player: seating,
            current_player: first,
            last_played_player: first,
            previous_action: None,
            current_trick: Vec::new(),
            current_trick_type: None,
            first_to_finish: None,
            captured: Vec::new(),
        }
    }

    fn successor(&self, seat: u64) -> (r: u64)
        requires
            self.prev_next_player@.contains_key(seat),
        ensures
            r == self.prev_next_player@[seat],
    {
        match self.prev_next_player.get(&seat) {
            Some(s) => *s,
            None => seat,
        }
    }

    fn walk(&self, players: &Vec<Player>, stop: u64, from: u64) -> (r: u64)
        requires
            is_ring(self.prev_next_player@),
            self.prev_next_player@.contains_key(from),
        ensures
            r == reach(self.prev_next_player@, players@, stop, from, 4),
            self.prev_next_player@.contains_key(r),
    {
        let mut at: u64 = from;
        let mut hops: u8 = 4;
        loop
            invariant
                is_ring(self.prev_next_player@),
                self.prev_next_player@.contains_key(at),
                1 <= hops <= 4,
                reach(self.prev_next_player@, players@, stop, from, 4) == reach(
                    self.prev_next_player@,
                    players@,
                    stop,
                    at,
                    hops as nat,
                ),
            decreases hops,
        {
            proof {
                assert(seat_ok(self.prev_next_player@, at));
            }
            let s: u64 = self.successor(at);
            if hops <= 1 || s == stop || is_in_play(players, s) {
                return s;
            }
            at = s;
            hops = hops - 1;
        }
    }

    fn is_led_by_dog(&self) -> (r: bool)
        ensures
            r == self.led_by_dog(),
    {
        let n: usize = self.current_trick.len();
        if n == 0 {
            return false;
        }
        let top: &Vec<Cards> = &self.current_trick[n - 1];
        if top.len() != 1 {
            return false;
        }
        match &top[0] {
            Cards::Dog => true,
            _ => false,
        }
    }

    /// Finds the seat that leads after the trick.
    pub fn next_leader(&self, players: &Vec<Player>) -> (r: u64)
        requires
            self.seated(),
        ensures
            r == self.leader_after(players@),
            self.prev_next_player@.contains_key(r),
    {
        proof {
            assert(seat_ok(self.prev_next_player@, self.last_played_player));
        }
        let start: u64 = if self.is_led_by_dog() {
            let partner_side: u64 = self.successor(self.last_played_player);
            self.successor(partner_side)
        } else {
            self.last_played_player
        };
        if is_in_play(players, start) {
            start
        } else {
            self.walk(players, start, start)
        }
    }

    /// Passes the turn on. Returns the seat whose turn it now is, or nothing
    /// when the trick is over; the turn then goes to the seat that leads
    /// the next trick.
    pub fn next(&mut self, players: &Vec<Player>) -> (r: Option<u64>)
        requires
            old(self).seated(),
        ensures
            final(self).seated(),
            *final(self) == (Round { current_player: final(self).current_player, ..*old(self) }),
            old(self).trick_over(players@) ==> r is None
                && final(self).current_player == old(self).leader_after(players@),
            !old(self).trick_over(players@) ==> r == Some(old(self).seat_after(players@))
                && final(self).current_player == old(self).seat_after(players@),
    {
        let reached: u64 = self.walk(players, self.last_played_player, self.current_player);
        let passed: bool = match self.previous_action {
            Some(Action::Pass) => true,
            _ => false,
        };
        if self.is_led_by_dog() || (passed && reached == self.last_played_player) {
            let leader: u64 = self.next_leader(players);
            self.current_player = leader;
            None
        } else {
            self.current_player = reached;
            Some(reached)
        }
    }
}

} // verus!
