//! The game: its players, its score, its phase and its running round.

use vstd::prelude::*;
use crate::card::Cards;
use crate::compare::beats;
use crate::compare::compare_tricks;
use crate::deck::copies_in_hands;
use crate::deck::dealt_by;
use crate::deck::drawn;
use crate::deck::full_deck;
use crate::deck::generate_hands;
use crate::deck::valid_picks;
use crate::error::GameError;
use crate::hand::Hand;
use crate::hand::copies;
use crate::hand::count_copies;
use crate::hand::holds;
use crate::hand::lemma_first_index;
use crate::hand::player_owns_cards;
use crate::hand::take_cards;
use crate::hand::without;
use crate::player::Player;
use crate::player::Team;
use crate::player::copies_held;
use crate::player::find_lead;
use crate::player::find_on_team;
use crate::player::find_player;
use crate::player::first_lead;
use crate::player::first_on;
use crate::player::has_player;
use crate::player::index_of;
use crate::player::lemma_first_member;
use crate::player::lemma_first_on;
use crate::player::lemma_index_of;
use crate::player::lemma_index_unique;
use crate::player::lemma_same_seats;
use crate::player::members_from;
use crate::player::same_but_hand;
use crate::player::same_seats;
use crate::player::team_of;
use crate::player::team_size;
use crate::player::unique_ids;
use crate::round::Action;
use crate::round::Round;
use crate::round::Turn;
use crate::round::generate_player_turn_sequence;
use crate::round::lemma_turn_sequence_ring;
use crate::round::ring_of;
use crate::trick::TrickType;
use crate::trick::classify;

verus! {

/// Where a game stands.
#[derive(Debug, Clone, Copy, PartialEq, Eq, Structural)]
pub enum Phase {
    Lobby,
    Exchanging,
    Playing,
    Ended,
}

/// The three cards a player offers before a round, each with the display
/// name of the player it is meant for.
#[derive(Debug)]
pub struct Exchange {
    pub player: u64,
    pub player_card: Vec<(String, Cards)>,
}

/// The score at which a side wins the game, unless the game is told
/// another.
pub const TARGET_SCORE: i16 = 1000;

/// A game: its identifier, the players in the order they came, the phase,
/// the cumulative score of either side, the score to be reached, and the
/// running round.
#[derive(Debug)]
pub struct Game {
    pub game_id: String,
    pub players: Vec<Player>,
    pub phase: Phase,
    pub score_t1: i16,
    pub score_t2: i16,
    pub target_score: i16,
    pub round: Option<Round>,
}

/// Seat `s` belongs to a player at the table, and so does the seat after
/// it; the two are on opposite playing sides.
pub open spec fn seat_sides(players: Seq<Player>, next: Map<u64, u64>, s: u64) -> bool {
    &&& has_player(players, s)
    &&& has_player(players, next[s])
    &&& team_of(players, s) == Some(Team::One) || team_of(players, s) == Some(Team::Two)
    &&& team_of(players, next[s]) == Some(Team::One) || team_of(players, next[s]) == Some(
        Team::Two,
    )
    &&& team_of(players, s) != team_of(players, next[s])
}

/// The offers are an exchange that `player` may make: three of them, none
/// addressed to the player, no two to the same name, no two the same
/// physical card, each a card the player holds.
pub open spec fn exchange_valid(player: Player, offers: Seq<(String, Cards)>) -> bool {
    &&& offers.len() == 3
    &&& forall|i: int| 0 <= i < 3 ==> (#[trigger] offers[i]).0@ != player.username@
    &&& forall|i: int, j: int|
        0 <= i < j < 3 ==> (#[trigger] offers[i]).0@ != (#[trigger] offers[j]).0@
    &&& forall|i: int, j: int|
        0 <= i < j < 3 ==> (#[trigger] offers[i]).1.identity() != (
        #[trigger] offers[j]).1.identity()
    &&& forall|i: int|
        0 <= i < 3 ==> copies(player.cards(), (#[trigger] offers[i]).1.identity()) > 0
}

/// Counts the players on side `t`.
pub fn count_team(players: &Vec<Player>, t: Team) -> (r: usize)
    ensures
        r == team_size(players@, t),
        r <= players.len(),
{
    let mut c: usize = 0;
    let mut i: usize = 0;
    while i < players.len()
        invariant
            i <= players.len(),
            c <= i,
            c + members_from(players@, t, i as int) == team_size(players@, t),
        decreases players.len() - i,
    {
        match players[i].team {
            Some(x) => {
                if x == t {
                    c = c + 1;
                }
            },
            None => {},
        }
        i = i + 1;
    }
    c
}

impl Game {
    /// The state is sound: no two players share an identity, and a running
    /// round is seated in a ring of players who alternate between the two
    /// playing sides, with a trick whose combinations all classify and whose
    /// recorded kind is that of the topmost.
    pub open spec fn wf(self) -> bool {
        &&& unique_ids(self.players@)
        &&& self.round matches Some(r) ==> {
            &&& r.seated()
            &&& forall|s: u64|
                r.prev_next_player@.contains_key(s) ==> #[trigger] seat_sides(
                    self.players@,
                    r.prev_next_player@,
                    s,
                )
            &&& forall|i: int|
                0 <= i < r.current_trick@.len() ==> classify(
                    (#[trigger] r.current_trick@[i])@,
                ) is Some
            &&& r.current_trick_type == if r.current_trick@.len() == 0 {
                None
            } else {
                classify(r.current_trick@.last()@)
            }
        }
    }

    /// A game in the lobby with the given players and no score.
    pub fn new(game_id: String, players: Vec<Player>) -> (g: Game)
        requires
            unique_ids(players@),
        ensures
            g.wf(),
            g.game_id == game_id,
            g.players == players,
            g.phase == Phase::Lobby,
            g.score_t1 == 0,
            g.score_t2 == 0,
            g.target_score == TARGET_SCORE,
            g.round is None,
    {
        Game {
            game_id,
            players,
            phase: Phase::Lobby,
            score_t1: 0,
            score_t2: 0,
            target_score: TARGET_SCORE,
            round: None,
        }
    }

    /// Puts `player` on side `team` and returns the player's name. Refused
    /// while a round runs, when a playing side already has two members, and
    /// for an identity that is not at the table, in that order.
    pub fn join_team(&mut self, player_id: u64, team: Team) -> (r: Result<String, GameError>)
        requires
            old(self).wf(),
        ensures
            final(self).wf(),
            match r {
                Ok(name) => {
                    let i = index_of(old(self).players@, player_id);
                    &&& old(self).round is None
                    &&& team == Team::Spectator || team_size(old(self).players@, team) < 2
                    &&& has_player(old(self).players@, player_id)
                    &&& name == old(self).players@[i].username
                    &&& *final(self) == (Game { players: final(self).players, ..*old(self) })
                    &&& final(self).players@ == old(self).players@.update(
                        i,
                        (Player { team: Some(team), ..old(self).players@[i] }),
                    )
                },
                Err(e) => {
                    &&& *final(self) == *old(self)
                    &&& e == if old(self).round is Some {
                        GameError::WrongPhase
                    } else if team != Team::Spectator && team_size(old(self).players@, team) >= 2 {
                        GameError::TeamFull
                    } else {
                        GameError::NotFound
                    }
                    &&& old(self).round is None && (team == Team::Spectator || team_size(
                        old(self).players@,
                        team,
                    ) < 2) ==> !has_player(old(self).players@, player_id)
                },
            },
    {
        if self.round.is_some() {
            return Err(GameError::WrongPhase);
        }
        let full: bool = match team {
            Team::Spectator => false,
            _ => count_team(&self.players, team) >= 2,
        };
        if full {
            return Err(GameError::TeamFull);
        }
        let i: usize = match find_player(&self.players, player_id) {
            Some(i) => i,
            None => {
                return Err(GameError::NotFound);
            },
        };
        let mut p: Player = self.players.remove(i);
        let name: String = p.username.clone();
        p.team = Some(team);
        self.players.insert(i, p);
        proof {
            assert(final(self).players@ =~= old(self).players@.update(
                i as int,
                (Player { team: Some(team), ..old(self).players@[i as int] }),
            ));
            assert forall|a: int, b: int| 0 <= a < b < final(self).players@.len() implies (
            #[trigger] final(self).players@[a]).socket_id != (
            #[trigger] final(self).players@[b]).socket_id by {
                assert(final(self).players@[a].socket_id == old(self).players@[a].socket_id);
                assert(final(self).players@[b].socket_id == old(self).players@[b].socket_id);
            }
        }
        Ok(name)
    }

    /// Checks the exchange that a player proposes. Refused for an identity
    /// that is not at the table, and for offers that are not three distinct
    /// cards of the player's hand for three different other players.
    pub fn validate_exchange(&self, exchange: &Exchange) -> (r: Result<(), GameError>)
        ensures
            !has_player(self.players@, exchange.player) <==> r == Err::<(), GameError>(
                GameError::NotFound,
            ),
            r is Ok <==> has_player(self.players@, exchange.player) && exchange_valid(
                self.players@[index_of(self.players@, exchange.player)],
                exchange.player_card@,
            ),
            r is Err ==> r == Err::<(), GameError>(GameError::NotFound) || r == Err::<
                (),
                GameError,
            >(GameError::ExchangeInvalid),
    {
        let i: usize = match find_player(&self.players, exchange.player) {
            Some(i) => i,
            None => {
                return Err(GameError::NotFound);
            },
        };
        let player: &Player = &self.players[i];
        let offers: &Vec<(String, Cards)> = &exchange.player_card;
        if offers.len() != 3 {
            return Err(GameError::ExchangeInvalid);
        }
        if offers[0].0 == player.username || offers[1].0 == player.username || offers[2].0
            == player.username {
            return Err(GameError::ExchangeInvalid);
        }
        if offers[0].0 == offers[1].0 || offers[0].0 == offers[2].0 || offers[1].0 == offers[2].0 {
            return Err(GameError::ExchangeInvalid);
        }
        let a: u8 = offers[0].1.id();
        let b: u8 = offers[1].1.id();
        let c: u8 = offers[2].1.id();
        if a == b || a == c || b == c {
            return Err(GameError::ExchangeInvalid);
        }
        match &player.hand {
            None => {
                proof {
                    assert(copies(player.cards(), offers@[0].1.identity()) == 0);
                }
                Err(GameError::ExchangeInvalid)
            },
            Some(hand) => {
                let cards: &[Cards] = hand.cards.as_slice();
                if count_copies(cards, a) == 0 || count_copies(cards, b) == 0 || count_copies(
                    cards,
                    c,
                ) == 0 {
                    Err(GameError::ExchangeInvalid)
                } else {
                    Ok(())
                }
            },
        }
    }
}

/// A round that is sound at one table is sound at any table that seats the
/// same people on the same sides.
pub proof fn lemma_wf_same_seats(a: Game, b: Game)
    requires
        a.wf(),
        same_seats(a.players@, b.players@),
        b.round == a.round,
    ensures
        b.wf(),
{
    if a.players@.len() > 0 {
        lemma_same_seats(a.players@, b.players@, a.players@[0].socket_id);
    } else {
        lemma_same_seats(a.players@, b.players@, 0);
    }
    if let Some(r) = a.round {
        let next = r.prev_next_player@;
        assert forall|s: u64| next.contains_key(s) implies #[trigger] seat_sides(
            b.players@,
            next,
            s,
        ) by {
            assert(seat_sides(a.players@, next, s));
            lemma_same_seats(a.players@, b.players@, s);
            lemma_same_seats(a.players@, b.players@, next[s]);
        }
    }
}

/// Players who hold the hands, one each in order, hold together what the
/// hands hold.
pub proof fn lemma_held_as_dealt(players: Seq<Player>, hands: Seq<Hand>, k: int)
    requires
        players.len() == hands.len(),
        forall|i: int| 0 <= i < players.len() ==> (#[trigger] players[i]).cards() == hands[i].cards@,
    ensures
        copies_held(players, k) == copies_in_hands(hands, k),
    decreases players.len(),
{
    if players.len() > 0 {
        let p = players.drop_last();
        let h = hands.drop_last();
        assert forall|i: int| 0 <= i < p.len() implies (#[trigger] p[i]).cards() == h[i].cards@ by {
            assert(p[i] == players[i]);
        }
        lemma_held_as_dealt(p, h, k);
        assert(players.last() == players[players.len() - 1]);
    }
}

impl Game {
    /// Hands the hands out in order: the first player gets the first hand,
    /// and so on until the players or the hands run out.
    pub fn give_hands(&mut self, hands: &Vec<Hand>)
        requires
            old(self).wf(),
        ensures
            final(self).wf(),
            *final(self) == (Game { players: final(self).players, ..*old(self) }),
            final(self).players@.len() == old(self).players@.len(),
            forall|i: int|
                0 <= i < old(self).players@.len() ==> if i < hands@.len() {
                    &&& same_but_hand(#[trigger] final(self).players@[i], old(self).players@[i])
                    &&& final(self).players@[i].hand is Some
                    &&& final(self).players@[i].cards() == hands@[i].cards@
                } else {
                    final(self).players@[i] == old(self).players@[i]
                },
    {
        let mut i: usize = 0;
        while i < self.players.len() && i < hands.len()
            invariant
                i <= self.players@.len(),
                i <= hands@.len(),
                *self == (Game { players: self.players, ..*old(self) }),
                self.players@.len() == old(self).players@.len(),
                forall|j: int|
                    0 <= j < self.players@.len() ==> if j < i {
                        &&& same_but_hand(#[trigger] self.players@[j], old(self).players@[j])
                        &&& self.players@[j].hand is Some
                        &&& self.players@[j].cards() == hands@[j].cards@
                    } else {
                        self.players@[j] == old(self).players@[j]
                    },
            decreases self.players.len() - i,
        {
            let hand: Hand = hands[i].clone();
            let mut p: Player = self.players.remove(i);
            p.hand = Some(hand);
            self.players.insert(i, p);
            i = i + 1;
        }
        proof {
            lemma_wf_same_seats(*old(self), *self);
        }
    }

    /// Deals four fresh hands at random and hands them out in order. With
    /// four players at the table, every physical card is then held once.
    pub fn deal_cards(&mut self)
        requires
            old(self).wf(),
        ensures
            final(self).wf(),
            *final(self) == (Game { players: final(self).players, ..*old(self) }),
            final(self).players@.len() == old(self).players@.len(),
            forall|i: int|
                0 <= i < old(self).players@.len() ==> if i < 4 {
                    &&& same_but_hand(#[trigger] final(self).players@[i], old(self).players@[i])
                    &&& final(self).players@[i].hand is Some
                    &&& final(self).players@[i].cards().len() == 14
                } else {
                    final(self).players@[i] == old(self).players@[i]
                },
            old(self).players@.len() == 4 ==> forall|k: int| #[trigger]
                copies_held(final(self).players@, k) == if 0 <= k < 56 {
                    1nat
                } else {
                    0nat
                },
            exists|picks: Seq<usize>|
                picks.len() == 56 && #[trigger] valid_picks(56, picks) && forall|i: int|
                    0 <= i < old(self).players@.len() && i < 4 ==> (
                    #[trigger] final(self).players@[i]).cards() == drawn(
                        full_deck(),
                        picks,
                    ).subrange(14 * i, 14 * i + 14),
    {
        let hands: Vec<Hand> = generate_hands();
        let ghost picks = choose|picks: Seq<usize>|
            picks.len() == 56 && valid_picks(56, picks) && #[trigger] dealt_by(hands@, picks);
        self.give_hands(&hands);
        proof {
            assert(valid_picks(56, picks));
            assert forall|i: int| 0 <= i < old(self).players@.len() && i < 4 implies (
            #[trigger] self.players@[i]).cards() == drawn(full_deck(), picks).subrange(
                14 * i,
                14 * i + 14,
            ) by {
                assert(hands@[i].cards@ == drawn(full_deck(), picks).subrange(14 * i, 14 * i + 14));
            }
        }
        proof {
            if old(self).players@.len() == 4 {
                assert forall|k: int| #[trigger]
                    copies_held(self.players@, k) == if 0 <= k < 56 {
                        1nat
                    } else {
                        0nat
                    } by {
                    lemma_held_as_dealt(self.players@, hands@, k);
                    assert(copies_in_hands(hands@, k) == if 0 <= k < 56 {
                        1nat
                    } else {
                        0nat
                    });
                }
            }
        }
    }
}

impl Game {
    /// Both playing sides have exactly two members.
    pub open spec fn teams_complete(self) -> bool {
        team_size(self.players@, Team::One) == 2 && team_size(self.players@, Team::Two) == 2
    }

    /// The position of the `n`-th member, counted from 0, of side `t`.
    pub open spec fn member(self, t: Team, n: int) -> int {
        if n <= 0 {
            first_on(self.players@, t, 0)
        } else {
            first_on(self.players@, t, first_on(self.players@, t, 0) + 1)
        }
    }

    /// The seating of a new round: the sides alternate, the members of
    /// each in the order in which they came to the table.
    pub open spec fn seating(self) -> Map<u64, u64> {
        ring_of(
            self.players@[self.member(Team::One, 0)].socket_id,
            self.players@[self.member(Team::Two, 0)].socket_id,
            self.players@[self.member(Team::One, 1)].socket_id,
            self.players@[self.member(Team::Two, 1)].socket_id,
        )
    }

    /// Why a round cannot start, if it cannot: a round is running or the
    /// game has ended, a playing side does not have its two members, or no
    /// playing player holds the Mahjong.
    pub open spec fn start_refusal(self) -> Option<GameError> {
        if self.phase == Phase::Playing || self.phase == Phase::Ended {
            Some(GameError::WrongPhase)
        } else if !self.teams_complete() {
            Some(GameError::WrongPhase)
        } else if first_lead(self.players@, 0) >= self.players@.len() {
            Some(GameError::NotFound)
        } else {
            None
        }
    }

    /// `after` is this game with a fresh round: the players are as they
    /// were, the game is being played, the four playing players are seated
    /// with the sides alternating, and the first of them to hold the
    /// Mahjong has the lead of an empty trick.
    pub open spec fn round_started(self, after: Game) -> bool {
        let lead = self.players@[first_lead(self.players@, 0)].socket_id;
        &&& after == (Game { phase: Phase::Playing, round: after.round, ..self })
        &&& after.round matches Some(rd) && {
            &&& rd.prev_next_player@ == self.seating()
            &&& rd.current_player == lead
            &&& rd.last_played_player == lead
            &&& rd.previous_action is None
            &&& rd.current_trick@.len() == 0
            &&& rd.current_trick_type is None
            &&& rd.first_to_finish is None
            &&& rd.captured@.len() == 0
        }
    }

    /// Starts a round: seats the four playing players with the sides
    /// alternating, and gives the lead to the one who holds the Mahjong.
    pub fn start(&mut self) -> (r: Result<(), GameError>)
        requires
            old(self).wf(),
        ensures
            final(self).wf(),
            match old(self).start_refusal() {
                Some(e) => r == Err::<(), GameError>(e) && *final(self) == *old(self),
                None => r is Ok && old(self).round_started(*final(self)),
            },
    {
        match self.phase {
            Phase::Playing => {
                return Err(GameError::WrongPhase);
            },
            Phase::Ended => {
                return Err(GameError::WrongPhase);
            },
            _ => {},
        }
        let n: usize = self.players.len();
        proof {
            lemma_first_member(self.players@, Team::One, 0);
            lemma_first_member(self.players@, Team::Two, 0);
            lemma_first_on(self.players@, Team::One, 0);
            lemma_first_on(self.players@, Team::Two, 0);
        }
        let o0: usize = find_on_team(&self.players, Team::One, 0);
        if o0 >= n {
            return Err(GameError::WrongPhase);
        }
        proof {
            lemma_first_member(self.players@, Team::One, o0 + 1);
            lemma_first_on(self.players@, Team::One, o0 + 1);
        }
        let o1: usize = find_on_team(&self.players, Team::One, o0 + 1);
        if o1 >= n {
            return Err(GameError::WrongPhase);
        }
        proof {
            lemma_first_member(self.players@, Team::One, o1 + 1);
            lemma_first_on(self.players@, Team::One, o1 + 1);
        }
        if find_on_team(&self.players, Team::One, o1 + 1) < n {
            return Err(GameError::WrongPhase);
        }
        let t0: usize = find_on_team(&self.players, Team::Two, 0);
        if t0 >= n {
            return Err(GameError::WrongPhase);
        }
        proof {
            lemma_first_member(self.players@, Team::Two, t0 + 1);
            lemma_first_on(self.players@, Team::Two, t0 + 1);
        }
        let t1: usize = find_on_team(&self.players, Team::Two, t0 + 1);
        if t1 >= n {
            return Err(GameError::WrongPhase);
        }
        proof {
            lemma_first_member(self.players@, Team::Two, t1 + 1);
            lemma_first_on(self.players@, Team::Two, t1 + 1);
        }
        if find_on_team(&self.players, Team::Two, t1 + 1) < n {
            return Err(GameError::WrongPhase);
        }
        assert(self.teams_complete());
        let lead: usize = find_lead(&self.players);
        if lead >= n {
            return Err(GameError::NotFound);
        }
        let mut order: Vec<Player> = Vec::with_capacity(4);
        order.push(self.players[o0].clone());
        order.push(self.players[t0].clone());
        order.push(self.players[o1].clone());
        order.push(self.players[t1].clone());
        let ghost a = self.players@[o0 as int].socket_id;
        let ghost b = self.players@[t0 as int].socket_id;
        let ghost c = self.players@[o1 as int].socket_id;
        let ghost d = self.players@[t1 as int].socket_id;
        proof {
            lemma_index_unique(self.players@, o0 as int);
            lemma_index_unique(self.players@, t0 as int);
            lemma_index_unique(self.players@, o1 as int);
            lemma_index_unique(self.players@, t1 as int);
            lemma_index_unique(self.players@, lead as int);
            assert(o0 != t0 && o0 != t1 && o1 != t0 && o1 != t1 && o0 < o1 && t0 < t1);
            lemma_turn_sequence_ring(order@);
        }
        let seating = generate_player_turn_sequence(order);
        let first: u64 = self.players[lead].socket_id;
        self.round = Some(Round::new(seating, first));
        self.phase = Phase::Playing;
        proof {
            let next = seating@;
            assert(next == ring_of(a, b, c, d));
            assert(lead == o0 || lead == o1 || lead == t0 || lead == t1);
            assert forall|s: u64| next.contains_key(s) implies #[trigger] seat_sides(
                self.players@,
                next,
                s,
            ) by {
                assert(s == a || s == b || s == c || s == d);
            }
        }
        Ok(())
    }
}

/// Whether the player holds every one of the cards, copy for copy.
pub fn owns(player: &Player, cards: &[Cards]) -> (r: bool)
    ensures
        r == holds(player.cards(), cards@),
{
    match &player.hand {
        Some(h) => player_owns_cards(h, cards),
        None => {
            proof {
                if cards@.len() > 0 {
                    let k = cards@[0].identity();
                    lemma_first_index(cards@, k);
                    assert(copies(cards@, k) > 0);
                    assert(copies(player.cards(), k) == 0);
                }
            }
            cards.len() == 0
        },
    }
}

impl Game {
    /// Why the move is turned down, if it is. In this order: no round
    /// runs; the game is not being played; it is not the actor's turn; a
    /// pass would open the trick, or a play brings no cards; a card is not
    /// in the actor's hand; the cards form no combination; the combination
    /// does not beat the one on top.
    pub open spec fn turn_refusal(self, turn: Turn) -> Option<GameError> {
        match self.round {
            None => Some(GameError::NotFound),
            Some(rd) => {
                let i = index_of(self.players@, turn.player);
                if self.phase != Phase::Playing {
                    Some(GameError::WrongPhase)
                } else if rd.current_player != turn.player {
                    Some(GameError::NotYourTurn)
                } else if turn.action == Action::Pass {
                    if rd.current_trick@.len() == 0 {
                        Some(GameError::IllegalTrick)
                    } else {
                        None
                    }
                } else {
                    match turn.cards {
                        None => Some(GameError::IllegalTrick),
                        Some(cards) => {
                            if !holds(self.players@[i].cards(), cards@) {
                                Some(GameError::NotYourCards)
                            } else if classify(cards@) is None {
                                Some(GameError::IllegalTrick)
                            } else if rd.current_trick@.len() > 0 && !beats(
                                rd.current_trick@.last()@,
                                cards@,
                            ) {
                                Some(GameError::IllegalBeat)
                            } else {
                                None
                            }
                        },
                    }
                }
            },
        }
    }

    /// `after` is this game once the move has been made and the turn has
    /// moved on. A pass only records itself. A play takes the cards out of
    /// the actor's hand, which is given up when it is empty, puts them on
    /// the trick, records their kind and the actor as the last to play,
    /// and notes the actor as the first to finish if the hand is empty and
    /// nobody finished before. The turn then goes to the next seat, or, if
    /// the trick is over, to the seat that leads the next.
    pub open spec fn turn_applied(self, turn: Turn, after: Game) -> bool {
        &&& self.round matches Some(before)
        &&& after.round matches Some(now)
        &&& after == (Game { players: after.players, round: after.round, ..self })
        &&& {
            let i = index_of(self.players@, turn.player);
            let rec = Round { current_player: before.current_player, ..now };
            &&& match turn.action {
                Action::Pass => {
                    &&& after.players == self.players
                    &&& rec == (Round { previous_action: Some(Action::Pass), ..before })
                },
                Action::Play => {
                    &&& turn.cards matches Some(cards)
                    &&& after.players@ == self.players@.update(i, after.players@[i])
                    &&& same_but_hand(after.players@[i], self.players@[i])
                    &&& after.players@[i].cards() == without(self.players@[i].cards(), cards@)
                    &&& after.players@[i].hand is Some <==> after.players@[i].holding()
                    &&& now.current_trick@ == before.current_trick@.push(cards)
                    &&& rec == (Round {
                        current_trick: now.current_trick,
                        current_trick_type: classify(cards@),
                        last_played_player: turn.player,
                        previous_action: Some(Action::Play),
                        first_to_finish: if before.first_to_finish is None
                            && !after.players@[i].holding() {
                            Some(turn.player)
                        } else {
                            before.first_to_finish
                        },
                        ..before
                    })
                },
            }
            &&& now.current_player == if rec.trick_over(after.players@) {
                rec.leader_after(after.players@)
            } else {
                rec.seat_after(after.players@)
            }
        }
    }

    /// Whether the move that led from this game to `after` ended the
    /// trick.
    pub open spec fn trick_ended(self, after: Game) -> bool {
        (Round {
            current_player: self.round.unwrap().current_player,
            ..after.round.unwrap()
        }).trick_over(after.players@)
    }

    /// Makes a move for the player whose turn it is. Returns whether the
    /// move ended the trick; a refused move changes nothing.
    pub fn play_turn(&mut self, turn: Turn) -> (r: Result<bool, GameError>)
        requires
            old(self).wf(),
        ensures
            final(self).wf(),
            match old(self).turn_refusal(turn) {
                Some(e) => r == Err::<bool, GameError>(e) && *final(self) == *old(self),
                None => {
                    &&& old(self).turn_applied(turn, *final(self))
                    &&& r == Ok::<bool, GameError>(old(self).trick_ended(*final(self)))
                },
            },
    {
        if self.round.is_none() {
            return Err(GameError::NotFound);
        }
        match self.phase {
            Phase::Playing => {},
            _ => {
                return Err(GameError::WrongPhase);
            },
        }
        let ghost before = old(self).round.unwrap();
        let ghost next = before.prev_next_player@;
        let current: u64 = self.round.as_ref().unwrap().current_player;
        if current != turn.player {
            return Err(GameError::NotYourTurn);
        }
        proof {
            assert(seat_sides(self.players@, next, current));
            lemma_index_of(self.players@, current);
        }
        let i: usize = match find_player(&self.players, current) {
            Some(i) => i,
            None => {
                return Err(GameError::NotFound);
            },
        };
        let stack_len: usize = self.round.as_ref().unwrap().current_trick.len();
        match turn.action {
            Action::Pass => {
                if stack_len == 0 {
                    return Err(GameError::IllegalTrick);
                }
                let mut round: Round = self.round.take().unwrap();
                round.previous_action = Some(Action::Pass);
                let ghost rec = round;
                let moved: Option<u64> = round.next(&self.players);
                self.round = Some(round);
                proof {
                    assert(rec == (Round { current_player: before.current_player, ..round }));
                }
                Ok(moved.is_none())
            },
            Action::Play => {
                let cards: Vec<Cards> = match turn.cards {
                    Some(c) => c,
                    None => {
                        return Err(GameError::IllegalTrick);
                    },
                };
                if !owns(&self.players[i], cards.as_slice()) {
                    return Err(GameError::NotYourCards);
                }
                let kind: TrickType = match TrickType::try_from(cards.as_slice()) {
                    Ok(t) => t,
                    Err(e) => {
                        return Err(GameError::IllegalTrick);
                    },
                };
                if stack_len > 0 {
                    let top: &Vec<Cards> = &self.round.as_ref().unwrap().current_trick[stack_len
                        - 1];
                    proof {
                        assert(classify(before.current_trick@[stack_len - 1]@) is Some);
                    }
                    match compare_tricks(top.as_slice(), cards.as_slice()) {
                        Ok(_) => {},
                        Err(e) => {
                            return Err(GameError::IllegalBeat);
                        },
                    }
                }
                let mut p: Player = self.players.remove(i);
                let ghost held = old(self).players@[i as int].cards();
                assert(p == old(self).players@[i as int]);
                let mut emptied: bool = false;
                let hand: Option<Hand> = p.hand.take();
                match hand {
                    Some(h) => {
                        let mut left: Vec<Cards> = h.cards;
                        assert(left@ == held);
                        take_cards(&mut left, cards.as_slice());
                        if left.len() == 0 {
                            emptied = true;
                            assert(without(held, cards@) =~= Seq::<Cards>::empty());
                        } else {
                            p.hand = Some(Hand { cards: left });
                        }
                    },
                    None => {
                        emptied = true;
                        proof {
                            if cards@.len() > 0 {
                                let k = cards@[0].identity();
                                lemma_first_index(cards@, k);
                                assert(copies(cards@, k) <= copies(held, k));
                            }
                            assert(without(held, cards@) =~= Seq::<Cards>::empty());
                        }
                    },
                }
                proof {
                    assert(p.cards() =~= without(held, cards@));
                }
                self.players.insert(i, p);
                proof {
                    assert(self.players@ =~= old(self).players@.update(i as int, p));
                    assert(same_seats(old(self).players@, self.players@));
                }
                let mut round: Round = self.round.take().unwrap();
                if emptied && round.first_to_finish.is_none() {
                    round.first_to_finish = Some(current);
                }
                round.current_trick.push(cards);
                round.current_trick_type = Some(kind);
                round.last_played_player = current;
                round.previous_action = Some(Action::Play);
                let ghost rec = round;
                let moved: Option<u64> = round.next(&self.players);
                self.round = Some(round);
                proof {
                    let a = Game { round: old(self).round, ..*self };
                    lemma_wf_same_seats(*old(self), a);
                    assert(rec == (Round { current_player: before.current_player, ..round }));
                }
                Ok(moved.is_none())
            },
        }
    }
}

impl Game {
    /// Seats a newcomer at the table, behind those already there. Refused,
    /// with nothing changed, when the identity is already at the table.
    pub fn insert_player(&mut self, player: Player) -> (r: bool)
        requires
            old(self).wf(),
        ensures
            final(self).wf(),
            r == !has_player(old(self).players@, player.socket_id),
            r ==> *final(self) == (Game { players: final(self).players, ..*old(self) })
                && final(self).players@ == old(self).players@.push(player),
            !r ==> *final(self) == *old(self),
    {
        let id: u64 = player.socket_id;
        if find_player(&self.players, id).is_some() {
            return false;
        }
        proof {
            lemma_index_of(self.players@, id);
        }
        self.players.push(player);
        proof {
            let was = old(self).players@;
            let now = self.players@;
            assert forall|a: int, b: int| 0 <= a < b < now.len() implies (#[trigger] now[a]).socket_id
                != (#[trigger] now[b]).socket_id by {
                if b < was.len() {
                    assert(now[a] == was[a] && now[b] == was[b]);
                } else {
                    assert(now[a] == was[a]);
                }
            }
            if self.round is Some {
                let next = self.round.unwrap().prev_next_player@;
                assert forall|s: u64| next.contains_key(s) implies #[trigger] seat_sides(
                    now,
                    next,
                    s,
                ) by {
                    assert(seat_sides(was, next, s));
                    lemma_index_push(was, player, s);
                    lemma_index_push(was, player, next[s]);
                }
            }
        }
        true
    }
}

/// A newcomer behind the others does not change where they are found.
pub proof fn lemma_index_push(players: Seq<Player>, p: Player, id: u64)
    requires
        has_player(players, id),
    ensures
        index_of(players.push(p), id) == index_of(players, id),
        has_player(players.push(p), id),
        team_of(players.push(p), id) == team_of(players, id),
    decreases players.len(),
{
    if players.len() > 0 && players[0].socket_id != id {
        assert(players.push(p).drop_first() =~= players.drop_first().push(p));
        lemma_index_push(players.drop_first(), p, id);
    }
    lemma_index_of(players, id);
    assert(players.push(p)[index_of(players, id)] == players[index_of(players, id)]);
}

} // verus!
