use tichu::card::Cards;
use tichu::card::Color;
use tichu::card::Mahjong;
use tichu::error::GameError;
use tichu::game::Exchange;
use tichu::game::Game;
use tichu::game::Phase;
use tichu::hand::Hand;
use tichu::lobby::ExchangeStep;
use tichu::player::Player;
use tichu::player::Team;
use tichu::round::generate_player_turn_sequence;

fn lobby() -> Game {
    let mut game = Game::new("lobby".to_string(), Vec::new());
    for (i, name) in ["ann", "ben", "cat", "dan"].iter().enumerate() {
        assert_eq!(game.enter(i as u64 + 1, name.to_string()), Ok(i as u8 + 1));
    }
    game
}

fn team_of(game: &Game, id: u64) -> Option<Team> {
    game.players.iter().find(|p| p.socket_id == id).unwrap().team
}

#[test]
fn newcomers_get_the_next_place() {
    let mut game = lobby();
    assert_eq!(game.players.len(), 4);
    assert_eq!(game.players[2].username, "cat");
    assert_eq!(game.players[2].place, 3);
    assert_eq!(game.players[2].team, None);
    assert!(game.players[2].hand.is_none());
    assert_eq!(game.phase, Phase::Lobby);
    assert_eq!(game.enter(3, "eve".to_string()), Err(GameError::WrongPhase));
    assert_eq!(game.players.len(), 4);
    assert!(!game.insert_player(Player::new(1, "eve".to_string())));
    assert!(game.insert_player(Player::new(9, "eve".to_string())));
    assert_eq!(game.players.len(), 5);
}

#[test]
fn a_side_takes_two() {
    let mut game = lobby();
    assert_eq!(game.join_team(1, Team::One), Ok("ann".to_string()));
    assert_eq!(game.join_team(2, Team::One), Ok("ben".to_string()));
    assert_eq!(game.join_team(3, Team::One), Err(GameError::TeamFull));
    assert_eq!(team_of(&game, 3), None);
    assert_eq!(game.join_team(7, Team::One), Err(GameError::TeamFull));
    assert_eq!(game.join_team(7, Team::Two), Err(GameError::NotFound));
    assert_eq!(game.join_team(3, Team::Spectator), Ok("cat".to_string()));
    assert_eq!(game.join_team(4, Team::Spectator), Ok("dan".to_string()));
    assert_eq!(game.join_team(1, Team::Spectator), Ok("ann".to_string()));
    assert_eq!(team_of(&game, 1), Some(Team::Spectator));
    assert_eq!(game.join_team(3, Team::One), Ok("cat".to_string()));
    assert_eq!(team_of(&game, 3), Some(Team::One));
}

#[test]
fn joining_by_name() {
    let mut game = lobby();
    let cat = "cat".to_string();
    assert_eq!(game.join_team_by_name(&cat, Team::Two), Ok(cat.clone()));
    assert_eq!(team_of(&game, 3), Some(Team::Two));
    assert_eq!(
        game.join_team_by_name(&cat, Team::Two),
        Err(GameError::TeamFull)
    );
    assert_eq!(
        game.join_team_by_name(&"zed".to_string(), Team::Two),
        Err(GameError::NotFound)
    );
    assert_eq!(game.join_team_by_name(&cat, Team::One), Ok(cat.clone()));
    assert_eq!(team_of(&game, 3), Some(Team::One));
}

#[test]
fn swapping_sides_and_places() {
    let mut game = lobby();
    game.join_team(1, Team::One).unwrap();
    game.join_team(2, Team::Two).unwrap();
    assert_eq!(game.swap_players(1, 2), Ok(()));
    assert_eq!(team_of(&game, 1), Some(Team::Two));
    assert_eq!(team_of(&game, 2), Some(Team::One));
    assert_eq!(game.players[0].place, 2);
    assert_eq!(game.players[1].place, 1);
    assert_eq!(game.players[0].username, "ann");
    assert_eq!(game.swap_players(1, 8), Err(GameError::NotFound));
    assert_eq!(game.swap_players(8, 1), Err(GameError::NotFound));
    assert_eq!(game.swap_players(3, 3), Ok(()));
    assert_eq!(team_of(&game, 3), None);
}

fn ready() -> Game {
    let mut game = lobby();
    game.join_team(1, Team::One).unwrap();
    game.join_team(2, Team::Two).unwrap();
    game.join_team(3, Team::Two).unwrap();
    assert!(!game.validate_teams());
    assert_eq!(game.start(), Err(GameError::WrongPhase));
    game.join_team(4, Team::One).unwrap();
    assert!(game.validate_teams());
    game
}

#[test]
fn a_round_needs_two_a_side_and_the_mahjong() {
    let mut game = ready();
    assert_eq!(game.start(), Err(GameError::NotFound));
    assert!(game.round.is_none());
    game.deal_cards();
    assert_eq!(game.start(), Ok(()));
    assert_eq!(game.join_team(1, Team::Spectator), Err(GameError::WrongPhase));
    assert_eq!(game.swap_players(1, 2), Err(GameError::WrongPhase));
    assert_eq!(
        game.join_team_by_name(&"ann".to_string(), Team::Two),
        Err(GameError::WrongPhase)
    );
    // sides alternate round the table: ann, ben, dan, cat
    let next = &game.round.as_ref().unwrap().prev_next_player;
    assert_eq!(next[&1], 2);
    assert_eq!(next[&2], 4);
    assert_eq!(next[&4], 3);
    assert_eq!(next[&3], 1);
}

#[test]
fn a_fifth_at_the_table_blocks_the_game() {
    let mut game = ready();
    game.enter(5, "eve".to_string()).unwrap();
    assert!(!game.validate_teams());
}

#[test]
fn turn_sequence_wraps_round() {
    let players = vec![
        Player::new(5, "a".to_string()),
        Player::new(6, "b".to_string()),
        Player::new(7, "c".to_string()),
    ];
    let next = generate_player_turn_sequence(players);
    assert_eq!(next.len(), 3);
    assert_eq!(next[&5], 6);
    assert_eq!(next[&6], 7);
    assert_eq!(next[&7], 5);
    let alone = generate_player_turn_sequence(vec![Player::new(5, "a".to_string())]);
    assert_eq!(alone[&5], 5);
}

#[test]
fn the_exchange_waits_for_offers_or_the_clock() {
    let mut game = ready();
    game.deal_cards();
    assert_eq!(game.exchange_step(3), Err(GameError::WrongPhase));
    game.phase = Phase::Exchanging;
    assert_eq!(game.exchange_step(3), Ok(ExchangeStep::Waiting));
    assert_eq!(game.phase, Phase::Exchanging);
    assert!(game.round.is_none());
    for p in game.players.iter_mut() {
        p.exchange = Some(Vec::new());
    }
    assert_eq!(game.exchange_step(3), Ok(ExchangeStep::Started));
    assert_eq!(game.phase, Phase::Playing);
    assert!(game.round.is_some());

    let mut late = ready();
    late.deal_cards();
    late.phase = Phase::Exchanging;
    assert_eq!(late.exchange_step(0), Ok(ExchangeStep::Started));

    let mut empty = ready();
    empty.phase = Phase::Exchanging;
    assert_eq!(empty.exchange_step(0), Err(GameError::NotFound));
    assert_eq!(empty.phase, Phase::Exchanging);
}

#[test]
fn exchange_rules() {
    let mut game = ready();
    let hand = vec![
        Cards::Two(Color::Black),
        Cards::Three(Color::Black),
        Cards::Four(Color::Black),
        Cards::Mahjong(Box::new(Mahjong { wish: None })),
    ];
    game.players[0].hand = Some(Hand { cards: hand });
    let offer = |to: [&str; 3], cards: [Cards; 3]| Exchange {
        player: 1,
        player_card: to
            .iter()
            .map(|n| n.to_string())
            .zip(cards)
            .collect::<Vec<(String, Cards)>>(),
    };
    let two = Cards::Two(Color::Black);
    let three = Cards::Three(Color::Black);
    let four = Cards::Four(Color::Black);
    let five = Cards::Five(Color::Black);
    let good = offer(["ben", "cat", "dan"], [two.clone(), three.clone(), four.clone()]);
    assert_eq!(game.validate_exchange(&good), Ok(()));
    let to_self = offer(["ann", "cat", "dan"], [two.clone(), three.clone(), four.clone()]);
    assert_eq!(game.validate_exchange(&to_self), Err(GameError::ExchangeInvalid));
    let same_name = offer(["ben", "ben", "dan"], [two.clone(), three.clone(), four.clone()]);
    assert_eq!(game.validate_exchange(&same_name), Err(GameError::ExchangeInvalid));
    let same_card = offer(["ben", "cat", "dan"], [two.clone(), two.clone(), four.clone()]);
    assert_eq!(game.validate_exchange(&same_card), Err(GameError::ExchangeInvalid));
    let not_owned = offer(["ben", "cat", "dan"], [two.clone(), three.clone(), five.clone()]);
    assert_eq!(game.validate_exchange(&not_owned), Err(GameError::ExchangeInvalid));
    let mut short = offer(["ben", "cat", "dan"], [two.clone(), three.clone(), four.clone()]);
    short.player_card.pop();
    assert_eq!(game.validate_exchange(&short), Err(GameError::ExchangeInvalid));
    let mut stranger = offer(["ben", "cat", "dan"], [two.clone(), three.clone(), four.clone()]);
    stranger.player = 77;
    assert_eq!(game.validate_exchange(&stranger), Err(GameError::NotFound));
    let mut no_hand = offer(["ann", "cat", "dan"], [two, three, four]);
    no_hand.player = 2;
    assert_eq!(game.validate_exchange(&no_hand), Err(GameError::ExchangeInvalid));
}

#[test]
fn a_valid_proposal_is_taken_down() {
    let mut game = ready();
    game.deal_cards();
    let cards = game.players[0].hand.as_ref().unwrap().cards.clone();
    let offers = vec![
        ("ben".to_string(), cards[0].clone()),
        ("cat".to_string(), cards[1].clone()),
        ("dan".to_string(), cards[2].clone()),
    ];
    let bad = Exchange {
        player: 1,
        player_card: vec![
            ("ben".to_string(), cards[0].clone()),
            ("cat".to_string(), cards[0].clone()),
            ("dan".to_string(), cards[2].clone()),
        ],
    };
    assert_eq!(game.propose_exchange(bad), Err(GameError::ExchangeInvalid));
    assert!(game.players[0].exchange.is_none());
    let good = Exchange {
        player: 1,
        player_card: offers.clone(),
    };
    assert_eq!(game.propose_exchange(good), Ok(()));
    assert_eq!(game.players[0].exchange, Some(offers));
    assert!(game.players[1].exchange.is_none());
    let stranger = Exchange {
        player: 99,
        player_card: Vec::new(),
    };
    assert_eq!(game.propose_exchange(stranger), Err(GameError::NotFound));
}

#[test]
fn a_lobby_opens_with_its_host() {
    let mut game = Game::open_lobby("g".to_string(), 7, "ann".to_string());
    assert_eq!(game.game_id, "g");
    assert_eq!(game.players.len(), 1);
    assert_eq!(game.players[0].socket_id, 7);
    assert_eq!(game.players[0].username, "ann");
    assert!(game.players[0].is_host);
    assert_eq!(game.players[0].place, 1);
    assert_eq!(game.enter(8, "ben".to_string()), Ok(2));
    assert!(!game.players[1].is_host);
    assert!(game.is_sound());
}
