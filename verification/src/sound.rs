//! Checking at run time that a game is sound.

use vstd::prelude::*;
use crate::game::Game;
use crate::game::seat_sides;
use crate::player::Player;
use crate::player::Team;
use crate::player::find_player;
use crate::player::unique_ids;
use crate::round::Round;
use crate::round::is_ring;
use crate::round::seat_ok;
use crate::trick::TrickType;
use crate::trick::classify;

verus! {

broadcast use vstd::std_specs::hash::group_hash_axioms;

/// Whether no two players share an identity.
pub fn ids_unique(players: &Vec<Player>) -> (r: bool)
    ensures
        r == unique_ids(players@),
{
    let mut j: usize = 0;
    while j < players.len()
        invariant
            j <= players.len(),
            forall|a: int, b: int|
                0 <= a < b < j ==> (#[trigger] players@[a]).socket_id != (
                #[trigger] players@[b]).socket_id,
        decreases players.len() - j,
    {
        let mut i: usize = 0;
        while i < j
            invariant
                i <= j,
                j < players.len(),
                forall|a: int|
                    0 <= a < i ==> (#[trigger] players@[a]).socket_id != players@[j as int].socket_id,
            decreases j - i,
        {
            if players[i].socket_id == players[j].socket_id {
                return false;
            }
            i = i + 1;
        }
        j = j + 1;
    }
    true
}

impl Round {
    /// Whether the seating is a ring that holds the seat whose turn it is
    /// and the seat that played last.
    pub fn is_seated(&self) -> (r: bool)
        ensures
            r == self.seated(),
    {
        let ghost next = self.prev_next_player@;
        let c: u64 = self.current_player;
        if self.prev_next_player.len() != 4 {
            return false;
        }
        if !self.prev_next_player.contains_key(&self.last_played_player) {
            return false;
        }
        let s1: u64 = match self.prev_next_player.get(&c) {
            Some(s) => *s,
            None => {
                return false;
            },
        };
        let s2: u64 = match self.prev_next_player.get(&s1) {
            Some(s) => *s,
            None => {
                assert(!seat_ok(next, c));
                return false;
            },
        };
        let s3: u64 = match self.prev_next_player.get(&s2) {
            Some(s) => *s,
            None => {
                assert(!seat_ok(next, c));
                return false;
            },
        };
        let s4: u64 = match self.prev_next_player.get(&s3) {
            Some(s) => *s,
            None => {
                assert(!seat_ok(next, c));
                return false;
            },
        };
        if s4 != c || s1 == c || s2 == c || s3 == c || s1 == s2 || s1 == s3 || s2 == s3 {
            proof {
                if is_ring(next) {
                    assert(seat_ok(next, c));
                    assert(seat_ok(next, s1));
                    assert(seat_ok(next, s2));
                }
            }
            return false;
        }
        proof {
            let orbit = set![c, s1, s2, s3];
            assert(orbit.len() == 4) by {
                broadcast use vstd::set_lib::group_set_properties;

            }
            assert(orbit.subset_of(next.dom()));
            vstd::set_lib::lemma_subset_equality(orbit, next.dom());
            assert forall|s: u64| next.contains_key(s) implies #[trigger] seat_ok(next, s) by {
                assert(orbit.contains(s));
            }
        }
        true
    }
}

impl Game {
    fn seat_is_sided(&self, s: u64, after: u64) -> (r: bool)
        requires
            self.round matches Some(rd) && rd.prev_next_player@.contains_key(s)
                && rd.prev_next_player@[s] == after,
        ensures
            r == seat_sides(self.players@, self.round.unwrap().prev_next_player@, s),
    {
        let i: usize = match find_player(&self.players, s) {
            Some(i) => i,
            None => {
                return false;
            },
        };
        let j: usize = match find_player(&self.players, after) {
            Some(j) => j,
            None => {
                return false;
            },
        };
        match (self.players[i].team, self.players[j].team) {
            (Some(Team::One), Some(Team::Two)) => true,
            (Some(Team::Two), Some(Team::One)) => true,
            _ => false,
        }
    }

    fn trick_is_sound(&self) -> (r: bool)
        requires
            self.round is Some,
        ensures
            r == ({
                let rd = self.round.unwrap();
                &&& forall|i: int|
                    0 <= i < rd.current_trick@.len() ==> classify(
                        (#[trigger] rd.current_trick@[i])@,
                    ) is Some
                &&& rd.current_trick_type == if rd.current_trick@.len() == 0 {
                    None
                } else {
                    classify(rd.current_trick@.last()@)
                }
            }),
    {
        let rd: &Round = self.round.as_ref().unwrap();
        let n: usize = rd.current_trick.len();
        let mut top: Option<TrickType> = None;
        let mut i: usize = 0;
        while i < n
            invariant
                i <= n,
                self.round is Some,
                *rd == self.round.unwrap(),
                n == rd.current_trick@.len(),
                forall|j: int|
                    0 <= j < i ==> classify((#[trigger] rd.current_trick@[j])@) is Some,
                top == if i == 0 {
                    None
                } else {
                    classify(rd.current_trick@[i - 1]@)
                },
            decreases n - i,
        {
            match TrickType::try_from(rd.current_trick[i].as_slice()) {
                Ok(t) => {
                    top = Some(t);
                },
                Err(_) => {
                    assert(classify(rd.current_trick@[i as int]@) is None);
                    return false;
                },
            }
            i = i + 1;
        }
        match (top, rd.current_trick_type) {
            (None, None) => true,
            (Some(a), Some(b)) => a == b,
            _ => false,
        }
    }

    /// Whether the game is sound, for a caller that has built or changed
    /// one by hand.
    pub fn is_sound(&self) -> (r: bool)
        ensures
            r == self.wf(),
    {
        if !ids_unique(&self.players) {
            return false;
        }
        match &self.round {
            None => true,
            Some(rd) => {
                if !rd.is_seated() {
                    return false;
                }
                let ghost next = rd.prev_next_player@;
                let c: u64 = rd.current_player;
                proof {
                    assert(seat_ok(next, c));
                }
                let s1: u64 = *rd.prev_next_player.get(&c).unwrap();
                let s2: u64 = *rd.prev_next_player.get(&s1).unwrap();
                let s3: u64 = *rd.prev_next_player.get(&s2).unwrap();
                if !self.seat_is_sided(c, s1) || !self.seat_is_sided(s1, s2) || !self.seat_is_sided(
                    s2,
                    s3,
                ) || !self.seat_is_sided(s3, c) {
                    return false;
                }
                proof {
                    assert forall|s: u64| next.contains_key(s) implies #[trigger] seat_sides(
                        self.players@,
                        next,
                        s,
                    ) by {
                        crate::theorems::lemma_ring_orbit(next, c, s);
                    }
                }
                self.trick_is_sound()
            },
        }
    }
}

} // verus!
