//! Capturing a trick and rolling a round up into the score.

use vstd::prelude::*;
use crate::card::Cards;
use crate::error::GameError;
use crate::game::Game;
use crate::game::Phase;
use crate::game::lemma_wf_same_seats;
use crate::game::seat_sides;
use crate::hand::lemma_points_concat;
use crate::hand::points_of;
use crate::hand::stack_cards;
use crate::hand::sum_points;
use crate::hand::wipe_into;
use crate::hand::wiped;
use crate::player::Player;
use crate::player::Team;
use crate::player::find_player;
use crate::player::has_player;
use crate::player::in_play;
use crate::player::index_of;
use crate::player::lemma_index_of;
use crate::player::same_seats;
use crate::player::team_of;
use crate::round::Round;
use crate::round::seat_ok;
use crate::trick::lemma_classified_len;

verus! {

broadcast use vstd::std_specs::hash::group_hash_axioms;

/// What a side gets for finishing first and second.
pub const DOUBLE_WIN: i16 = 200;

/// Adds up the point values of all cards of a trick.
pub fn trick_points(stack: &Vec<Vec<Cards>>) -> (r: i128)
    requires
        forall|i: int| 0 <= i < stack@.len() ==> (#[trigger] stack@[i])@.len() <= 14,
    ensures
        r == points_of(stack_cards(stack@)),
        -350 * stack@.len() <= r <= 350 * stack@.len(),
{
    let mut total: i128 = 0;
    let mut i: usize = 0;
    while i < stack.len()
        invariant
            i <= stack.len(),
            forall|j: int| 0 <= j < stack@.len() ==> (#[trigger] stack@[j])@.len() <= 14,
            total == points_of(stack_cards(stack@.take(i as int))),
            -350 * i <= total <= 350 * i,
        decreases stack.len() - i,
    {
        proof {
            assert(stack@.take(i + 1).drop_last() =~= stack@.take(i as int));
            lemma_points_concat(stack_cards(stack@.take(i as int)), stack@[i as int]@);
            assert(stack@[i as int]@.len() <= 14);
        }
        let part: i128 = sum_points(stack[i].as_slice());
        total = total + part;
        i = i + 1;
    }
    proof {
        assert(stack@.take(stack.len() as int) =~= stack@);
    }
    total
}

/// Moves wiped copies of all cards of a trick to the pile.
pub fn collect_trick(pile: &mut Vec<Cards>, stack: &Vec<Vec<Cards>>)
    ensures
        final(pile)@ == old(pile)@ + wiped(stack_cards(stack@)),
{
    let mut i: usize = 0;
    proof {
        assert(pile@ =~= old(pile)@ + wiped(stack_cards(stack@.take(0))));
    }
    while i < stack.len()
        invariant
            i <= stack.len(),
            pile@ == old(pile)@ + wiped(stack_cards(stack@.take(i as int))),
        decreases stack.len() - i,
    {
        proof {
            assert(stack@.take(i + 1).drop_last() =~= stack@.take(i as int));
            let a = stack_cards(stack@.take(i as int));
            let b = stack@[i as int]@;
            assert(wiped(a + b) =~= wiped(a) + wiped(b));
            assert((old(pile)@ + wiped(a)) + wiped(b) =~= old(pile)@ + (wiped(a) + wiped(b)));
        }
        wipe_into(pile, stack[i].as_slice());
        i = i + 1;
    }
    proof {
        assert(stack@.take(stack.len() as int) =~= stack@);
    }
}

impl Game {
    /// The points that lie in the running trick.
    pub open spec fn trick_worth(self) -> int {
        points_of(stack_cards(self.round.unwrap().current_trick@))
    }

    /// Why the trick cannot be captured, if it cannot: no round runs, or
    /// the captor's points would leave the range of their counter.
    pub open spec fn capture_refusal(self) -> Option<GameError> {
        match self.round {
            None => Some(GameError::NotFound),
            Some(rd) => {
                let i = index_of(self.players@, rd.last_played_player);
                let total = self.players@[i].trick_points + self.trick_worth();
                if total < -128 || total > 127 {
                    Some(GameError::OutOfRange)
                } else {
                    None
                }
            },
        }
    }

    /// `after` is this game once the trick has been captured: the player
    /// who played last has its points, the trick is empty and has no kind,
    /// its cards lie wiped on the pile of captured cards, and the lead is
    /// with the seat that the finished trick hands it to.
    pub open spec fn trick_captured(self, after: Game) -> bool {
        &&& self.round matches Some(before)
        &&& after.round matches Some(now)
        &&& after == (Game { players: after.players, round: after.round, ..self })
        &&& {
            let i = index_of(self.players@, before.last_played_player);
            &&& after.players@ == self.players@.update(
                i,
                (Player {
                    trick_points: (self.players@[i].trick_points + self.trick_worth()) as i8,
                    ..self.players@[i]
                }),
            )
            &&& now == (Round {
                current_player: before.leader_after(self.players@),
                current_trick: now.current_trick,
                current_trick_type: None,
                captured: now.captured,
                ..before
            })
            &&& now.current_trick@.len() == 0
            &&& now.captured@ == before.captured@ + wiped(stack_cards(before.current_trick@))
        }
    }

    /// Captures the running trick for the player who played last. A
    /// refused capture changes nothing.
    pub fn cleanup_trick(&mut self) -> (r: Result<(), GameError>)
        requires
            old(self).wf(),
        ensures
            final(self).wf(),
            match old(self).capture_refusal() {
                Some(e) => r == Err::<(), GameError>(e) && *final(self) == *old(self),
                None => r is Ok && old(self).trick_captured(*final(self)),
            },
    {
        if self.round.is_none() {
            return Err(GameError::NotFound);
        }
        let ghost before = old(self).round.unwrap();
        let captor: u64 = self.round.as_ref().unwrap().last_played_player;
        proof {
            assert(seat_sides(self.players@, before.prev_next_player@, captor));
            lemma_index_of(self.players@, captor);
            assert forall|j: int| 0 <= j < before.current_trick@.len() implies (
            #[trigger] before.current_trick@[j])@.len() <= 14 by {
                lemma_classified_len(before.current_trick@[j]@);
            }
        }
        let i: usize = match find_player(&self.players, captor) {
            Some(i) => i,
            None => {
                return Err(GameError::NotFound);
            },
        };
        let depth: usize = self.round.as_ref().unwrap().current_trick.len();
        let worth: i128 = trick_points(&self.round.as_ref().unwrap().current_trick);
        assert(-350 * depth <= worth <= 350 * depth);
        let total: i128 = self.players[i].trick_points as i128 + worth;
        if total < -128 || total > 127 {
            return Err(GameError::OutOfRange);
        }
        let leader: u64 = self.round.as_ref().unwrap().next_leader(&self.players);
        let mut p: Player = self.players.remove(i);
        p.trick_points = total as i8;
        self.players.insert(i, p);
        let mut round: Round = self.round.take().unwrap();
        collect_trick(&mut round.captured, &round.current_trick);
        round.current_trick.clear();
        round.current_trick_type = None;
        round.current_player = leader;
        self.round = Some(round);
        proof {
            assert(self.players@ =~= old(self).players@.update(i as int, p));
            assert(same_seats(old(self).players@, self.players@));
            let a = Game { round: old(self).round, ..*self };
            lemma_wf_same_seats(*old(self), a);
        }
        Ok(())
    }
}

/// The side that has won with these totals: the one that has reached the
/// target, the higher one if both have, none if they are level or neither
/// has.
pub open spec fn victor(one: int, two: int, target: int) -> Option<Team> {
    if one >= target && one > two {
        Some(Team::One)
    } else if two >= target && two > one {
        Some(Team::Two)
    } else {
        None
    }
}

/// What a player at the table brings to the roll-up.
struct SeatReport {
    holding: bool,
    team: Option<Team>,
    trick_points: i8,
    hand_points: i128,
}

impl Game {
    /// The seat `j` places after the one whose turn it is, `j` from 0 to 3.
    pub open spec fn seat(self, j: int) -> u64 {
        let rd = self.round.unwrap();
        let next = rd.prev_next_player@;
        let c = rd.current_player;
        if j <= 0 {
            c
        } else if j == 1 {
            next[c]
        } else if j == 2 {
            next[next[c]]
        } else {
            next[next[next[c]]]
        }
    }

    /// The player in seat `j`.
    pub open spec fn seated(self, j: int) -> Player {
        self.players@[index_of(self.players@, self.seat(j))]
    }

    /// How many of the four seats still hold cards.
    pub open spec fn seated_holders(self) -> int {
        (if self.seated(0).holding() {
            1int
        } else {
            0int
        }) + (if self.seated(1).holding() {
            1int
        } else {
            0int
        }) + (if self.seated(2).holding() {
            1int
        } else {
            0int
        }) + (if self.seated(3).holding() {
            1int
        } else {
            0int
        })
    }

    /// The first seat, from the one whose turn it is, that still holds
    /// cards: 4 when none does.
    pub open spec fn last_holder(self) -> int {
        if self.seated(0).holding() {
            0
        } else if self.seated(1).holding() {
            1
        } else if self.seated(2).holding() {
            2
        } else if self.seated(3).holding() {
            3
        } else {
            4
        }
    }

    /// Both members of the side of the first to finish are out while both
    /// opponents still hold cards.
    pub open spec fn double_win(self) -> bool {
        let rd = self.round.unwrap();
        let next = rd.prev_next_player@;
        &&& rd.first_to_finish matches Some(f)
        &&& next.contains_key(f)
        &&& !in_play(self.players@, f)
        &&& !in_play(self.players@, next[next[f]])
        &&& in_play(self.players@, next[f])
        &&& in_play(self.players@, next[next[next[f]]])
    }

    /// The round is over: a side has finished first and second, or at
    /// most one seat still holds cards and the last trick has been
    /// captured.
    pub open spec fn round_over(self) -> bool {
        &&& self.round is Some
        &&& self.double_win() || (self.seated_holders() <= 1
            && self.round.unwrap().current_trick@.len() == 0)
    }

    /// The trick points of seat `j` if it is on side `t`, else nothing.
    pub open spec fn seat_points(self, t: Team, j: int) -> int {
        if self.seated(j).team == Some(t) {
            self.seated(j).trick_points as int
        } else {
            0
        }
    }

    /// What side `t` gets from the last seat holding cards, seat `l`: the
    /// worth of that hand if the seat is on the other side, and the trick
    /// points of that seat move to the side of the first to finish.
    pub open spec fn last_seat_gain(self, t: Team, l: int) -> int {
        let rd = self.round.unwrap();
        let last = self.seated(l);
        let hand = if last.team != Some(t) {
            points_of(last.cards())
        } else {
            0
        };
        let moved = match rd.first_to_finish {
            Some(f) => {
                if rd.prev_next_player@.contains_key(f) {
                    let to = team_of(self.players@, f);
                    if to == Some(t) && last.team != Some(t) {
                        last.trick_points as int
                    } else if to != Some(t) && last.team == Some(t) {
                        -(last.trick_points as int)
                    } else {
                        0
                    }
                } else {
                    0
                }
            },
            None => 0,
        };
        hand + moved
    }

    /// What the round adds to the score of side `t`.
    pub open spec fn round_gain(self, t: Team) -> int {
        let rd = self.round.unwrap();
        if self.double_win() {
            if team_of(self.players@, rd.first_to_finish.unwrap()) == Some(t) {
                DOUBLE_WIN as int
            } else {
                0
            }
        } else {
            self.seat_points(t, 0) + self.seat_points(t, 1) + self.seat_points(t, 2)
                + self.seat_points(t, 3) + if self.last_holder() < 4 {
                self.last_seat_gain(t, self.last_holder())
            } else {
                0
            }
        }
    }

    /// Why the round cannot be rolled up, if it cannot: no round runs, the
    /// round is not over, or a score would leave the range of its counter.
    pub open spec fn round_refusal(self) -> Option<GameError> {
        if self.round is None {
            Some(GameError::NotFound)
        } else if !self.round_over() {
            Some(GameError::WrongPhase)
        } else {
            let one = self.score_t1 + self.round_gain(Team::One);
            let two = self.score_t2 + self.round_gain(Team::Two);
            if one < i16::MIN || one > i16::MAX || two < i16::MIN || two > i16::MAX {
                Some(GameError::OutOfRange)
            } else {
                None
            }
        }
    }

    /// `after` is this game once the round has been rolled up: both sides
    /// have their gain, the trick points of the seated players are back at
    /// zero, the round is gone, and the game has ended if a side has won,
    /// else waits for the next exchange.
    pub open spec fn round_closed(self, after: Game) -> bool {
        let next = self.round.unwrap().prev_next_player@;
        &&& after.game_id == self.game_id
        &&& after.target_score == self.target_score
        &&& after.score_t1 == self.score_t1 + self.round_gain(Team::One)
        &&& after.score_t2 == self.score_t2 + self.round_gain(Team::Two)
        &&& after.round is None
        &&& after.phase == if after.victor() is Some {
            Phase::Ended
        } else {
            Phase::Exchanging
        }
        &&& after.players@.len() == self.players@.len()
        &&& forall|x: int|
            0 <= x < self.players@.len() ==> #[trigger] after.players@[x] == if next.contains_key(
                self.players@[x].socket_id,
            ) {
                Player { trick_points: 0, ..self.players@[x] }
            } else {
                self.players@[x]
            }
    }

    /// The side that has won this game, if one has.
    pub open spec fn victor(self) -> Option<Team> {
        victor(self.score_t1 as int, self.score_t2 as int, self.target_score as int)
    }

    /// The side that has won the game, if one has.
    pub fn winner(&self) -> (r: Option<Team>)
        ensures
            r == self.victor(),
    {
        if self.score_t1 >= self.target_score && self.score_t1 > self.score_t2 {
            Some(Team::One)
        } else if self.score_t2 >= self.target_score && self.score_t2 > self.score_t1 {
            Some(Team::Two)
        } else {
            None
        }
    }

    /// Whether a side has won the game.
    pub fn is_over(&self) -> (r: bool)
        ensures
            r == self.victor() is Some,
    {
        self.winner().is_some()
    }

    fn report(&self, id: u64) -> (r: SeatReport)
        requires
            has_player(self.players@, id),
        ensures
            r.holding == in_play(self.players@, id),
            r.holding == self.players@[index_of(self.players@, id)].holding(),
            r.team == team_of(self.players@, id),
            r.team == self.players@[index_of(self.players@, id)].team,
            r.trick_points == self.players@[index_of(self.players@, id)].trick_points,
            r.hand_points == points_of(self.players@[index_of(self.players@, id)].cards()),
            -25 * usize::MAX <= r.hand_points <= 25 * usize::MAX,
    {
        match find_player(&self.players, id) {
            Some(i) => {
                let p: &Player = &self.players[i];
                let worth: i128 = match &p.hand {
                    Some(h) => sum_points(h.cards.as_slice()),
                    None => 0,
                };
                SeatReport {
                    holding: p.has_cards(),
                    team: p.team,
                    trick_points: p.trick_points,
                    hand_points: worth,
                }
            },
            None => SeatReport { holding: false, team: None, trick_points: 0, hand_points: 0 },
        }
    }
}

fn side_share(s: &SeatReport, t: Team) -> (r: i128)
    ensures
        r == if s.team == Some(t) {
            s.trick_points as int
        } else {
            0
        },
{
    match s.team {
        Some(x) => if x == t {
            s.trick_points as i128
        } else {
            0
        },
        None => 0,
    }
}

fn on_side(team: Option<Team>, t: Team) -> (r: bool)
    ensures
        r == (team == Some(t)),
{
    match team {
        Some(x) => x == t,
        None => false,
    }
}

impl Game {
    fn last_seat_share(&self, t: Team, last: &SeatReport) -> (r: i128)
        requires
            self.round is Some,
            self.wf(),
            -25 * usize::MAX <= last.hand_points <= 25 * usize::MAX,
        ensures
            forall|l: int|
                last.team == self.seated(l).team && last.trick_points == self.seated(
                    l,
                ).trick_points && last.hand_points == points_of(self.seated(l).cards())
                    ==> r == #[trigger] self.last_seat_gain(t, l),
            -25 * usize::MAX - 128 <= r <= 25 * usize::MAX + 128,
    {
        let mine: bool = on_side(last.team, t);
        let hand: i128 = if mine {
            0
        } else {
            last.hand_points
        };
        let rd: &Round = self.round.as_ref().unwrap();
        let moved: i128 = match rd.first_to_finish {
            Some(f) => {
                if rd.prev_next_player.contains_key(&f) {
                    proof {
                        assert(seat_sides(self.players@, rd.prev_next_player@, f));
                    }
                    let to: bool = on_side(self.report(f).team, t);
                    if to && !mine {
                        last.trick_points as i128
                    } else if !to && mine {
                        -(last.trick_points as i128)
                    } else {
                        0
                    }
                } else {
                    0
                }
            },
            None => 0,
        };
        hand + moved
    }

    fn is_double_win(&self) -> (r: bool)
        requires
            self.round is Some,
            self.wf(),
        ensures
            r == self.double_win(),
    {
        let rd: &Round = self.round.as_ref().unwrap();
        match rd.first_to_finish {
            Some(f) => {
                if !rd.prev_next_player.contains_key(&f) {
                    return false;
                }
                proof {
                    let next = rd.prev_next_player@;
                    assert(seat_ok(next, f));
                    assert(seat_sides(self.players@, next, f));
                    assert(seat_sides(self.players@, next, next[f]));
                    assert(seat_sides(self.players@, next, next[next[f]]));
                }
                let a: u64 = *rd.prev_next_player.get(&f).unwrap();
                let b: u64 = *rd.prev_next_player.get(&a).unwrap();
                let c: u64 = *rd.prev_next_player.get(&b).unwrap();
                !self.report(f).holding && !self.report(b).holding && self.report(a).holding
                    && self.report(c).holding
            },
            None => false,
        }
    }

    fn double_gain(&self, t: Team) -> (r: i128)
        requires
            self.round is Some,
            self.wf(),
            self.double_win(),
        ensures
            r == self.round_gain(t),
            0 <= r <= 200,
    {
        let rd: &Round = self.round.as_ref().unwrap();
        let f: u64 = rd.first_to_finish.unwrap();
        proof {
            assert(seat_sides(self.players@, rd.prev_next_player@, f));
        }
        if on_side(self.report(f).team, t) {
            DOUBLE_WIN as i128
        } else {
            0
        }
    }

    fn plain_gain(&self, t: Team) -> (r: (u8, i128))
        requires
            self.round is Some,
            self.wf(),
        ensures
            r.0 == self.seated_holders(),
            !self.double_win() ==> r.1 == self.round_gain(t),
            -25 * usize::MAX - 1024 <= r.1 <= 25 * usize::MAX + 1024,
    {
        let rd: &Round = self.round.as_ref().unwrap();
        let ghost next = rd.prev_next_player@;
        let s0: u64 = rd.current_player;
        proof {
            assert(seat_ok(next, s0));
            assert(seat_sides(self.players@, next, s0));
            assert(seat_sides(self.players@, next, next[s0]));
            assert(seat_sides(self.players@, next, next[next[s0]]));
        }
        let s1: u64 = *rd.prev_next_player.get(&s0).unwrap();
        let s2: u64 = *rd.prev_next_player.get(&s1).unwrap();
        let s3: u64 = *rd.prev_next_player.get(&s2).unwrap();
        let r0: SeatReport = self.report(s0);
        let r1: SeatReport = self.report(s1);
        let r2: SeatReport = self.report(s2);
        let r3: SeatReport = self.report(s3);
        let mut holders: u8 = 0;
        if r0.holding {
            holders = holders + 1;
        }
        if r1.holding {
            holders = holders + 1;
        }
        if r2.holding {
            holders = holders + 1;
        }
        if r3.holding {
            holders = holders + 1;
        }
        let base: i128 = side_share(&r0, t) + side_share(&r1, t) + side_share(&r2, t)
            + side_share(&r3, t);
        assert(base == self.seat_points(t, 0) + self.seat_points(t, 1) + self.seat_points(t, 2)
            + self.seat_points(t, 3));
        let extra: i128 = if r0.holding {
            assert(self.last_holder() == 0);
            self.last_seat_share(t, &r0)
        } else if r1.holding {
            assert(self.last_holder() == 1);
            self.last_seat_share(t, &r1)
        } else if r2.holding {
            assert(self.last_holder() == 2);
            self.last_seat_share(t, &r2)
        } else if r3.holding {
            assert(self.last_holder() == 3);
            self.last_seat_share(t, &r3)
        } else {
            assert(self.last_holder() == 4);
            0
        };
        (holders, base + extra)
    }

    fn reset_points(&mut self)
        requires
            old(self).round is Some,
        ensures
            *final(self) == (Game { players: final(self).players, ..*old(self) }),
            final(self).players@.len() == old(self).players@.len(),
            forall|x: int|
                0 <= x < old(self).players@.len() ==> #[trigger] final(self).players@[x]
                    == if old(self).round.unwrap().prev_next_player@.contains_key(
                    old(self).players@[x].socket_id,
                ) {
                    Player { trick_points: 0, ..old(self).players@[x] }
                } else {
                    old(self).players@[x]
                },
    {
        let ghost next = old(self).round.unwrap().prev_next_player@;
        let mut x: usize = 0;
        while x < self.players.len()
            invariant
                x <= self.players@.len(),
                self.round is Some,
                *self == (Game { players: self.players, ..*old(self) }),
                next == old(self).round.unwrap().prev_next_player@,
                self.players@.len() == old(self).players@.len(),
                forall|y: int|
                    0 <= y < self.players@.len() ==> #[trigger] self.players@[y] == if y < x
                        && next.contains_key(old(self).players@[y].socket_id) {
                        Player { trick_points: 0, ..old(self).players@[y] }
                    } else {
                        old(self).players@[y]
                    },
            decreases self.players.len() - x,
        {
            let id: u64 = self.players[x].socket_id;
            let seated: bool = self.round.as_ref().unwrap().prev_next_player.contains_key(&id);
            if seated {
                let ghost was = self.players@;
                let mut p: Player = self.players.remove(x);
                p.trick_points = 0;
                self.players.insert(x, p);
                assert(self.players@ =~= was.update(x as int, p));
            }
            x = x + 1;
        }
    }

    /// Whether the round is over.
    pub fn round_is_over(&self) -> (r: bool)
        requires
            self.wf(),
        ensures
            r == self.round_over(),
    {
        if self.round.is_none() {
            return false;
        }
        if self.is_double_win() {
            return true;
        }
        let (holders, _) = self.plain_gain(Team::One);
        holders <= 1 && self.round.as_ref().unwrap().current_trick.len() == 0
    }

    /// Rolls the finished round up into the score and tells which side
    /// has won the game, if one has. A refused roll-up changes nothing.
    pub fn cleanup_round(&mut self) -> (r: Result<Option<Team>, GameError>)
        requires
            old(self).wf(),
        ensures
            final(self).wf(),
            match old(self).round_refusal() {
                Some(e) => r == Err::<Option<Team>, GameError>(e) && *final(self) == *old(self),
                None => {
                    &&& old(self).round_closed(*final(self))
                    &&& r == Ok::<Option<Team>, GameError>(final(self).victor())
                },
            },
    {
        if self.round.is_none() {
            return Err(GameError::NotFound);
        }
        let double: bool = self.is_double_win();
        let (holders, plain_one) = self.plain_gain(Team::One);
        let (_, plain_two) = self.plain_gain(Team::Two);
        let lying: usize = self.round.as_ref().unwrap().current_trick.len();
        if !double && (holders > 1 || lying > 0) {
            return Err(GameError::WrongPhase);
        }
        let gain_one: i128 = if double {
            self.double_gain(Team::One)
        } else {
            plain_one
        };
        let gain_two: i128 = if double {
            self.double_gain(Team::Two)
        } else {
            plain_two
        };
        let one: i128 = self.score_t1 as i128 + gain_one;
        let two: i128 = self.score_t2 as i128 + gain_two;
        if one < -32768 || one > 32767 || two < -32768 || two > 32767 {
            return Err(GameError::OutOfRange);
        }
        self.reset_points();
        self.score_t1 = one as i16;
        self.score_t2 = two as i16;
        self.round = None;
        let won: Option<Team> = self.winner();
        self.phase = if won.is_some() {
            Phase::Ended
        } else {
            Phase::Exchanging
        };
        proof {
            assert(same_seats(old(self).players@, self.players@));
            crate::player::lemma_same_seats(old(self).players@, self.players@, 0);
        }
        Ok(won)
    }
}

} // verus!
