//! The table before a round: who sits down, on which side, and when the
//! exchange gives way to play.

use vstd::prelude::*;
use crate::error::GameError;
use crate::game::Game;
use crate::game::Phase;
use crate::game::TARGET_SCORE;
use crate::game::count_team;
use crate::game::exchange_valid;
use crate::game::lemma_wf_same_seats;
use crate::game::Exchange;
use crate::player::Player;
use crate::player::Team;
use crate::player::find_player;
use crate::player::has_player;
use crate::player::index_of;
use crate::player::lemma_index_of;
use crate::player::plays;
use crate::player::same_seats;
use crate::player::team_size;

verus! {

/// What a look at the exchange leads to.
#[derive(Debug, Clone, Copy, PartialEq, Eq, Structural)]
pub enum ExchangeStep {
    /// Offers are still missing and there is time left.
    Waiting,
    /// The exchange is closed and the round has started.
    Started,
}

/// The position of the first player with the given name, or the number of
/// players when there is none.
pub open spec fn index_named(players: Seq<Player>, name: Seq<char>, from: int) -> int
    decreases players.len() - from,
{
    if from >= players.len() {
        players.len() as int
    } else if from >= 0 && players[from].username@ == name {
        from
    } else {
        index_named(players, name, from + 1)
    }
}

/// Every playing player has made an offer.
pub open spec fn all_offered(players: Seq<Player>) -> bool {
    forall|i: int| 0 <= i < players.len() && plays(#[trigger] players[i]) ==> players[i].exchange is Some
}

pub proof fn lemma_index_named(players: Seq<Player>, name: Seq<char>, from: int)
    requires
        0 <= from,
    ensures
        index_named(players, name, from) <= players.len(),
        index_named(players, name, from) < players.len() ==> from <= index_named(
            players,
            name,
            from,
        ) && players[index_named(players, name, from)].username@ == name,
    decreases players.len() - from,
{
    if from < players.len() && players[from].username@ != name {
        lemma_index_named(players, name, from + 1);
    }
}

/// Finds the first player with the given name.
pub fn find_named(players: &Vec<Player>, name: &String) -> (r: Option<usize>)
    ensures
        match r {
            Some(i) => i == index_named(players@, name@, 0) && i < players.len(),
            None => index_named(players@, name@, 0) == players.len(),
        },
{
    let mut i: usize = 0;
    while i < players.len()
        invariant
            index_named(players@, name@, 0) == index_named(players@, name@, i as int),
        decreases players.len() - i,
    {
        if players[i].username == *name {
            return Some(i);
        }
        i = i + 1;
    }
    None
}

fn check_all_offered(players: &Vec<Player>) -> (r: bool)
    ensures
        r == all_offered(players@),
{
    let mut i: usize = 0;
    while i < players.len()
        invariant
            i <= players.len(),
            forall|j: int| 0 <= j < i && plays(#[trigger] players@[j]) ==> players@[j].exchange is Some,
        decreases players.len() - i,
    {
        let seated: bool = match players[i].team {
            Some(Team::One) => true,
            Some(Team::Two) => true,
            _ => false,
        };
        if seated && players[i].exchange.is_none() {
            return false;
        }
        i = i + 1;
    }
    true
}

impl Game {
    /// Lets a newcomer in: the player gets the next place at the table, no
    /// side and no cards. Refused, with nothing changed, for an identity
    /// that is already at the table and when the places run out.
    pub fn enter(&mut self, socket_id: u64, username: String) -> (r: Result<u8, GameError>)
        requires
            old(self).wf(),
        ensures
            final(self).wf(),
            match r {
                Ok(place) => {
                    &&& !has_player(old(self).players@, socket_id)
                    &&& place == old(self).players@.len() + 1
                    &&& *final(self) == (Game { players: final(self).players, ..*old(self) })
                    &&& final(self).players@.len() == old(self).players@.len() + 1
                    &&& final(self).players@.drop_last() == old(self).players@
                    &&& final(self).players@.last() == (Player {
                        socket_id,
                        username,
                        place,
                        ..final(self).players@.last()
                    })
                    &&& !final(self).players@.last().is_host
                    &&& final(self).players@.last().hand is None
                    &&& final(self).players@.last().team is None
                    &&& final(self).players@.last().exchange is None
                    &&& final(self).players@.last().trick_points == 0
                },
                Err(e) => {
                    &&& *final(self) == *old(self)
                    &&& e == if has_player(old(self).players@, socket_id) {
                        GameError::WrongPhase
                    } else {
                        GameError::OutOfRange
                    }
                    &&& !has_player(old(self).players@, socket_id) ==> old(self).players@.len()
                        >= 255
                },
            },
    {
        if find_player(&self.players, socket_id).is_some() {
            return Err(GameError::WrongPhase);
        }
        if self.players.len() >= 255 {
            return Err(GameError::OutOfRange);
        }
        let place: u8 = (self.players.len() + 1) as u8;
        let mut p: Player = Player::new(socket_id, username);
        p.place = place;
        let added: bool = self.insert_player(p);
        proof {
            assert(self.players@.drop_last() =~= old(self).players@);
        }
        Ok(place)
    }

    /// Four players at the table, two on each playing side.
    pub open spec fn teams_valid(self) -> bool {
        self.players@.len() == 4 && self.teams_complete()
    }

    /// Whether the table is ready for a game.
    pub fn validate_teams(&self) -> (r: bool)
        ensures
            r == self.teams_valid(),
    {
        self.players.len() == 4 && count_team(&self.players, Team::One) == 2 && count_team(
            &self.players,
            Team::Two,
        ) == 2
    }

    /// Lets two players change sides and places with each other. Refused,
    /// with nothing changed, while a round runs and for an identity that
    /// is not at the table.
    pub fn swap_players(&mut self, player1: u64, player2: u64) -> (r: Result<(), GameError>)
        requires
            old(self).wf(),
        ensures
            final(self).wf(),
            match r {
                Ok(_) => {
                    let i = index_of(old(self).players@, player1);
                    let j = index_of(old(self).players@, player2);
                    let a = old(self).players@[i];
                    let b = old(self).players@[j];
                    &&& old(self).round is None
                    &&& has_player(old(self).players@, player1)
                    &&& has_player(old(self).players@, player2)
                    &&& *final(self) == (Game { players: final(self).players, ..*old(self) })
                    &&& final(self).players@ == old(self).players@.update(
                        i,
                        (Player { team: b.team, place: b.place, ..a }),
                    ).update(j, (Player { team: a.team, place: a.place, ..b }))
                },
                Err(e) => {
                    &&& *final(self) == *old(self)
                    &&& e == if old(self).round is Some {
                        GameError::WrongPhase
                    } else {
                        GameError::NotFound
                    }
                    &&& old(self).round is None ==> !has_player(old(self).players@, player1)
                        || !has_player(old(self).players@, player2)
                },
            },
    {
        if self.round.is_some() {
            return Err(GameError::WrongPhase);
        }
        let i: usize = match find_player(&self.players, player1) {
            Some(i) => i,
            None => {
                return Err(GameError::NotFound);
            },
        };
        let j: usize = match find_player(&self.players, player2) {
            Some(j) => j,
            None => {
                return Err(GameError::NotFound);
            },
        };
        let team1: Option<Team> = self.players[i].team;
        let place1: u8 = self.players[i].place;
        let team2: Option<Team> = self.players[j].team;
        let place2: u8 = self.players[j].place;
        let mut a: Player = self.players.remove(i);
        a.team = team2;
        a.place = place2;
        self.players.insert(i, a);
        let ghost mid = self.players@;
        proof {
            assert(mid =~= old(self).players@.update(i as int, a));
        }
        let mut b: Player = self.players.remove(j);
        b.team = team1;
        b.place = place1;
        self.players.insert(j, b);
        proof {
            assert(self.players@ =~= mid.update(j as int, b));
            let was = old(self).players@;
            let now = self.players@;
            assert forall|x: int, y: int| 0 <= x < y < now.len() implies (#[trigger] now[x]).socket_id
                != (#[trigger] now[y]).socket_id by {
                assert(now[x].socket_id == was[x].socket_id);
                assert(now[y].socket_id == was[y].socket_id);
            }
        }
        Ok(())
    }

    /// Puts the player with the given name on side `team` and returns the
    /// name. Refused, with nothing changed: while a round runs; for a name
    /// that is not at the table; for a player who is on that side already;
    /// and when a playing side already has two members.
    pub fn join_team_by_name(&mut self, username: &String, team: Team) -> (r: Result<
        String,
        GameError,
    >)
        requires
            old(self).wf(),
        ensures
            final(self).wf(),
            ({
                let i = index_named(old(self).players@, username@, 0);
                let known = i < old(self).players@.len();
                let refusal = if old(self).round is Some {
                    Some(GameError::WrongPhase)
                } else if !known {
                    Some(GameError::NotFound)
                } else if old(self).players@[i].team == Some(team) {
                    Some(GameError::TeamFull)
                } else if team != Team::Spectator && team_size(old(self).players@, team) >= 2 {
                    Some(GameError::TeamFull)
                } else {
                    None
                };
                match refusal {
                    Some(e) => r == Err::<String, GameError>(e) && *final(self) == *old(self),
                    None => {
                        let id = old(self).players@[i].socket_id;
                        let at = index_of(old(self).players@, id);
                        &&& r is Ok
                        &&& r.unwrap() == old(self).players@[at].username
                        &&& *final(self) == (Game { players: final(self).players, ..*old(self) })
                        &&& final(self).players@ == old(self).players@.update(
                            at,
                            (Player { team: Some(team), ..old(self).players@[at] }),
                        )
                    },
                }
            }),
    {
        if self.round.is_some() {
            return Err(GameError::WrongPhase);
        }
        proof {
            lemma_index_named(self.players@, username@, 0);
        }
        let i: usize = match find_named(&self.players, username) {
            Some(i) => i,
            None => {
                return Err(GameError::NotFound);
            },
        };
        let already: bool = match self.players[i].team {
            Some(t) => t == team,
            None => false,
        };
        if already {
            return Err(GameError::TeamFull);
        }
        let id: u64 = self.players[i].socket_id;
        proof {
            lemma_index_of(self.players@, id);
        }
        self.join_team(id, team)
    }

    /// Looks at the exchange: once every playing player has made an offer,
    /// or no time is left, the exchange closes and the round starts; till
    /// then nothing changes.
    pub fn exchange_step(&mut self, time_left: u32) -> (r: Result<ExchangeStep, GameError>)
        requires
            old(self).wf(),
        ensures
            final(self).wf(),
            ({
                let refusal = if old(self).phase != Phase::Exchanging {
                    Some(GameError::WrongPhase)
                } else if !all_offered(old(self).players@) && time_left > 0 {
                    None
                } else {
                    old(self).start_refusal()
                };
                match refusal {
                    Some(e) => r == Err::<ExchangeStep, GameError>(e)
                        && *final(self) == *old(self),
                    None => if !all_offered(old(self).players@) && time_left > 0 {
                        r == Ok::<ExchangeStep, GameError>(ExchangeStep::Waiting) && *final(self)
                            == *old(self)
                    } else {
                        r == Ok::<ExchangeStep, GameError>(ExchangeStep::Started)
                            && old(self).round_started(*final(self))
                    },
                }
            }),
    {
        match self.phase {
            Phase::Exchanging => {},
            _ => {
                return Err(GameError::WrongPhase);
            },
        }
        if time_left > 0 && !check_all_offered(&self.players) {
            return Ok(ExchangeStep::Waiting);
        }
        match self.start() {
            Ok(_) => Ok(ExchangeStep::Started),
            Err(e) => Err(e),
        }
    }
}

impl Game {
    /// Takes down the exchange that a player proposes, in place of any
    /// earlier one, if it is one the player may make. A refused proposal
    /// changes nothing.
    pub fn propose_exchange(&mut self, exchange: Exchange) -> (r: Result<(), GameError>)
        requires
            old(self).wf(),
        ensures
            final(self).wf(),
            ({
                let i = index_of(old(self).players@, exchange.player);
                if !has_player(old(self).players@, exchange.player) {
                    r == Err::<(), GameError>(GameError::NotFound) && *final(self) == *old(self)
                } else if !exchange_valid(old(self).players@[i], exchange.player_card@) {
                    r == Err::<(), GameError>(GameError::ExchangeInvalid)
                        && *final(self) == *old(self)
                } else {
                    &&& r is Ok
                    &&& *final(self) == (Game { players: final(self).players, ..*old(self) })
                    &&& final(self).players@ == old(self).players@.update(
                        i,
                        (Player { exchange: Some(exchange.player_card), ..old(self).players@[i] }),
                    )
                }
            }),
    {
        match self.validate_exchange(&exchange) {
            Ok(_) => {},
            Err(e) => {
                return Err(e);
            },
        }
        let i: usize = match find_player(&self.players, exchange.player) {
            Some(i) => i,
            None => {
                return Err(GameError::NotFound);
            },
        };
        let mut p: Player = self.players.remove(i);
        p.exchange = Some(exchange.player_card);
        self.players.insert(i, p);
        proof {
            assert(self.players@ =~= old(self).players@.update(i as int, p));
            assert(same_seats(old(self).players@, self.players@));
            lemma_wf_same_seats(*old(self), *self);
        }
        Ok(())
    }
}

impl Game {
    /// A game in the lobby whose only player is its host, in the first
    /// place at the table.
    pub fn open_lobby(game_id: String, socket_id: u64, username: String) -> (g: Game)
        ensures
            g.wf(),
            g.game_id == game_id,
            g.phase == Phase::Lobby,
            g.score_t1 == 0,
            g.score_t2 == 0,
            g.target_score == TARGET_SCORE,
            g.round is None,
            g.players@.len() == 1,
            g.players@[0] == (Player { socket_id, username, is_host: true, place: 1, ..g.players@[0] }),
            g.players@[0].hand is None,
            g.players@[0].team is None,
            g.players@[0].exchange is None,
            g.players@[0].trick_points == 0,
    {
        let mut host: Player = Player::new(socket_id, username);
        host.is_host = true;
        host.place = 1;
        let mut players: Vec<Player> = Vec::new();
        players.push(host);
        Game::new(game_id, players)
    }
}

} // verus!
