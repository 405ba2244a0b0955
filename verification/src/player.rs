//! The people at the table.

use vstd::prelude::*;
use crate::card::Cards;
use crate::hand::Hand;
use crate::hand::copies;
use crate::hand::count_copies;

verus! {

/// The side a player is on.
#[derive(Debug, Clone, Copy, PartialEq, Eq, Structural)]
pub enum Team {
    One,
    Two,
    Spectator,
}

/// A player: a stable identity, a display name, a side, the cards held, the
/// cards offered for the exchange, and the points of the tricks captured in
/// the running round.
#[derive(Debug)]
pub struct Player {
    pub socket_id: u64,
    pub username: String,
    pub is_host: bool,
    pub hand: Option<Hand>,
    pub team: Option<Team>,
    pub exchange: Option<Vec<(String, Cards)>>,
    pub trick_points: i8,
    pub place: u8,
}

impl Player {
    /// The cards the player holds; none for a player without a hand.
    pub open spec fn cards(self) -> Seq<Cards> {
        match self.hand {
            Some(h) => h.cards@,
            None => Seq::empty(),
        }
    }

    /// The player still holds cards.
    pub open spec fn holding(self) -> bool {
        self.cards().len() > 0
    }

    /// A player with the given identity and name and nothing else.
    pub fn new(socket_id: u64, username: String) -> (p: Player)
        ensures
            p.socket_id == socket_id,
            p.username == username,
            !p.is_host,
            p.hand is None,
            p.team is None,
            p.exchange is None,
            p.trick_points == 0,
            p.place == 0,
    {
        Player {
            socket_id,
            username,
            is_host: false,
            hand: None,
            team: None,
            exchange: None,
            trick_points: 0,
            place: 0,
        }
    }

    pub fn has_cards(&self) -> (r: bool)
        ensures
            r == self.holding(),
    {
        match &self.hand {
            Some(h) => h.cards.len() > 0,
            None => false,
        }
    }
}

/// The position of the first player with identity `id`, or the number of
/// players when there is none.
pub open spec fn index_of(players: Seq<Player>, id: u64) -> int
    decreases players.len(),
{
    if players.len() == 0 {
        0
    } else if players[0].socket_id == id {
        0
    } else {
        1 + index_of(players.drop_first(), id)
    }
}

pub open spec fn has_player(players: Seq<Player>, id: u64) -> bool {
    index_of(players, id) < players.len()
}

/// No two players share an identity.
pub open spec fn unique_ids(players: Seq<Player>) -> bool {
    forall|i: int, j: int|
        0 <= i < j < players.len() ==> (#[trigger] players[i]).socket_id != (
        #[trigger] players[j]).socket_id
}

/// The player with identity `id` is at the table and still holds cards.
pub open spec fn in_play(players: Seq<Player>, id: u64) -> bool {
    has_player(players, id) && players[index_of(players, id)].holding()
}

/// The side of the player with identity `id`, if the player is known and
/// has one.
pub open spec fn team_of(players: Seq<Player>, id: u64) -> Option<Team> {
    if has_player(players, id) {
        players[index_of(players, id)].team
    } else {
        None
    }
}

/// How many players from position `from` on are on side `t`.
pub open spec fn members_from(players: Seq<Player>, t: Team, from: int) -> nat
    decreases players.len() - from,
{
    if from < 0 || from >= players.len() {
        0
    } else {
        members_from(players, t, from + 1) + if players[from].team == Some(t) {
            1nat
        } else {
            0nat
        }
    }
}

/// How many players are on side `t`.
pub open spec fn team_size(players: Seq<Player>, t: Team) -> nat {
    members_from(players, t, 0)
}

/// How many copies of the physical card `k` the players hold together.
pub open spec fn copies_held(players: Seq<Player>, k: int) -> nat
    decreases players.len(),
{
    if players.len() == 0 {
        0
    } else {
        copies_held(players.drop_last(), k) + copies(players.last().cards(), k)
    }
}

pub proof fn lemma_index_of(players: Seq<Player>, id: u64)
    ensures
        0 <= index_of(players, id) <= players.len(),
        has_player(players, id) ==> players[index_of(players, id)].socket_id == id,
        forall|j: int| 0 <= j < index_of(players, id) ==> players[j].socket_id != id,
    decreases players.len(),
{
    if players.len() > 0 && players[0].socket_id != id {
        let t = players.drop_first();
        lemma_index_of(t, id);
        assert forall|j: int| 0 <= j < index_of(players, id) implies players[j].socket_id
            != id by {
            if j > 0 {
                assert(players[j] == t[j - 1]);
            }
        }
    }
}

/// Among players with distinct identities, a player is found at its own
/// position.
pub proof fn lemma_index_unique(players: Seq<Player>, i: int)
    requires
        unique_ids(players),
        0 <= i < players.len(),
    ensures
        index_of(players, players[i].socket_id) == i,
{
    lemma_index_of(players, players[i].socket_id);
    let j = index_of(players, players[i].socket_id);
    if j < i {
        assert(players[j].socket_id == players[i].socket_id);
    }
}

/// Finds the player with identity `id`.
pub fn find_player(players: &Vec<Player>, id: u64) -> (r: Option<usize>)
    ensures
        match r {
            Some(i) => i == index_of(players@, id) && i < players.len() && players@[i as int].socket_id
                == id,
            None => !has_player(players@, id),
        },
{
    let mut i: usize = 0;
    proof {
        assert(players@.subrange(0, players@.len() as int) =~= players@);
    }
    while i < players.len()
        invariant
            i <= players.len(),
            index_of(players@, id) == i + index_of(
                players@.subrange(i as int, players@.len() as int),
                id,
            ),
        decreases players.len() - i,
    {
        proof {
            assert(players@.subrange(i as int, players@.len() as int).drop_first()
                =~= players@.subrange(i + 1, players@.len() as int));
            assert(players@.subrange(i as int, players@.len() as int)[0] == players@[i as int]);
        }
        if players[i].socket_id == id {
            return Some(i);
        }
        i = i + 1;
    }
    None
}

/// The position of the first player from `from` on who is on side `t`, or
/// the number of players when there is none.
pub open spec fn first_on(players: Seq<Player>, t: Team, from: int) -> int
    decreases players.len() - from,
{
    if from >= players.len() {
        players.len() as int
    } else if from >= 0 && players[from].team == Some(t) {
        from
    } else {
        first_on(players, t, from + 1)
    }
}

/// The player plays: the side is One or Two.
pub open spec fn plays(p: Player) -> bool {
    p.team == Some(Team::One) || p.team == Some(Team::Two)
}

/// The position of the first playing player from `from` on who holds the
/// Mahjong, or the number of players when there is none.
pub open spec fn first_lead(players: Seq<Player>, from: int) -> int
    decreases players.len() - from,
{
    if from >= players.len() {
        players.len() as int
    } else if from >= 0 && plays(players[from]) && copies(players[from].cards(), 53) > 0 {
        from
    } else {
        first_lead(players, from + 1)
    }
}

pub proof fn lemma_first_on(players: Seq<Player>, t: Team, from: int)
    requires
        0 <= from,
    ensures
        from <= first_on(players, t, from) || first_on(players, t, from) == players.len(),
        first_on(players, t, from) <= players.len(),
        first_on(players, t, from) < players.len() ==> players[first_on(players, t, from)].team
            == Some(t),
        forall|j: int| from <= j < first_on(players, t, from) ==> players[j].team != Some(t),
    decreases players.len() - from,
{
    if from < players.len() && players[from].team != Some(t) {
        lemma_first_on(players, t, from + 1);
    }
}

/// Finds the first player from `from` on who is on side `t`.
pub fn find_on_team(players: &Vec<Player>, t: Team, from: usize) -> (r: usize)
    ensures
        r == first_on(players@, t, from as int),
        r <= players.len(),
        r < players.len() ==> from <= r && players@[r as int].team == Some(t),
{
    let mut i: usize = from;
    while i < players.len()
        invariant
            from <= i,
            first_on(players@, t, from as int) == first_on(players@, t, i as int),
        decreases players.len() - i,
    {
        match players[i].team {
            Some(x) => {
                if x == t {
                    return i;
                }
            },
            None => {},
        }
        i = i + 1;
    }
    players.len()
}

fn copy_offers(offers: &Vec<(String, Cards)>) -> (r: Vec<(String, Cards)>)
    ensures
        r@.len() == offers@.len(),
        forall|i: int|
            0 <= i < r@.len() ==> (#[trigger] r@[i]).0 == offers@[i].0 && r@[i].1 == offers@[i].1,
{
    let mut out: Vec<(String, Cards)> = Vec::new();
    let mut i: usize = 0;
    while i < offers.len()
        invariant
            i <= offers.len(),
            out@.len() == i,
            forall|j: int|
                0 <= j < i ==> (#[trigger] out@[j]).0 == offers@[j].0 && out@[j].1 == offers@[j].1,
        decreases offers.len() - i,
    {
        out.push((offers[i].0.clone(), offers[i].1.clone()));
        i = i + 1;
    }
    out
}

impl Clone for Player {
    fn clone(&self) -> (r: Self)
        ensures
            r.socket_id == self.socket_id,
            r.username == self.username,
            r.is_host == self.is_host,
            r.team == self.team,
            r.trick_points == self.trick_points,
            r.place == self.place,
            r.hand is Some == self.hand is Some,
            r.cards() == self.cards(),
            r.exchange is Some == self.exchange is Some,
            self.exchange matches Some(mine) ==> {
                &&& r.exchange.unwrap()@.len() == mine@.len()
                &&& forall|i: int|
                    0 <= i < mine@.len() ==> (#[trigger] r.exchange.unwrap()@[i]).0 == mine@[i].0
                        && r.exchange.unwrap()@[i].1 == mine@[i].1
            },
    {
        Player {
            socket_id: self.socket_id,
            username: self.username.clone(),
            is_host: self.is_host,
            hand: match &self.hand {
                Some(h) => Some(h.clone()),
                None => None,
            },
            team: self.team,
            exchange: match &self.exchange {
                Some(o) => Some(copy_offers(o)),
                None => None,
            },
            trick_points: self.trick_points,
            place: self.place,
        }
    }
}

/// The members of a side from `from` on are the first of them and those
/// after it.
pub proof fn lemma_first_member(players: Seq<Player>, t: Team, from: int)
    requires
        0 <= from,
    ensures
        members_from(players, t, from) == if first_on(players, t, from) < players.len() {
            1 + members_from(players, t, first_on(players, t, from) + 1)
        } else {
            0
        },
    decreases players.len() - from,
{
    if from < players.len() && players[from].team != Some(t) {
        lemma_first_member(players, t, from + 1);
    }
}

/// The two tables seat the same people on the same sides: equally many
/// players, with the same identity and side at each position.
pub open spec fn same_seats(a: Seq<Player>, b: Seq<Player>) -> bool {
    &&& a.len() == b.len()
    &&& forall|i: int|
        0 <= i < a.len() ==> (#[trigger] a[i]).socket_id == b[i].socket_id && a[i].team
            == b[i].team
}

/// Two players that differ at most in the cards they hold.
pub open spec fn same_but_hand(a: Player, b: Player) -> bool {
    a == (Player { hand: a.hand, ..b })
}

/// Tables that seat the same people find every identity at the same place
/// and on the same side.
pub proof fn lemma_same_seats(a: Seq<Player>, b: Seq<Player>, id: u64)
    requires
        same_seats(a, b),
    ensures
        index_of(a, id) == index_of(b, id),
        has_player(a, id) == has_player(b, id),
        team_of(a, id) == team_of(b, id),
        unique_ids(a) == unique_ids(b),
    decreases a.len(),
{
    if a.len() > 0 {
        assert(a[0].socket_id == b[0].socket_id);
        let ta = a.drop_first();
        let tb = b.drop_first();
        assert forall|i: int| 0 <= i < ta.len() implies (#[trigger] ta[i]).socket_id
            == tb[i].socket_id && ta[i].team == tb[i].team by {
            assert(ta[i] == a[i + 1]);
            assert(tb[i] == b[i + 1]);
        }
        lemma_same_seats(ta, tb, id);
        lemma_index_of(a, id);
        lemma_index_of(b, id);
    }
    if unique_ids(a) {
        assert forall|i: int, j: int| 0 <= i < j < b.len() implies (#[trigger] b[i]).socket_id != (
        #[trigger] b[j]).socket_id by {
            assert(a[i].socket_id != a[j].socket_id);
        }
    }
    if unique_ids(b) {
        assert forall|i: int, j: int| 0 <= i < j < a.len() implies (#[trigger] a[i]).socket_id != (
        #[trigger] a[j]).socket_id by {
            assert(b[i].socket_id != b[j].socket_id);
        }
    }
}

/// Changing what one player holds changes the table's count of a card by
/// the change in that hand.
pub proof fn lemma_held_update(players: Seq<Player>, i: int, p: Player, k: int)
    requires
        0 <= i < players.len(),
    ensures
        copies_held(players.update(i, p), k) == copies_held(players, k) - copies(
            players[i].cards(),
            k,
        ) + copies(p.cards(), k),
    decreases players.len(),
{
    let q = players.update(i, p);
    if i == players.len() - 1 {
        assert(q.drop_last() =~= players.drop_last());
    } else {
        lemma_held_update(players.drop_last(), i, p, k);
        assert(q.drop_last() =~= players.drop_last().update(i, p));
    }
}

/// Finds the first playing player who holds the Mahjong.
pub fn find_lead(players: &Vec<Player>) -> (r: usize)
    ensures
        r == first_lead(players@, 0),
        r <= players.len(),
        r < players.len() ==> plays(players@[r as int]),
{
    let mut i: usize = 0;
    while i < players.len()
        invariant
            first_lead(players@, 0) == first_lead(players@, i as int),
        decreases players.len() - i,
    {
        let seated: bool = match players[i].team {
            Some(Team::One) => true,
            Some(Team::Two) => true,
            _ => false,
        };
        let holds_it: bool = match &players[i].hand {
            Some(h) => count_copies(h.cards.as_slice(), 53) > 0,
            None => false,
        };
        if seated && holds_it {
            return i;
        }
        i = i + 1;
    }
    players.len()
}

} // verus!
