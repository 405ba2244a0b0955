use tichu::card::Cards;
use tichu::card::Color;
use tichu::card::Phoenix;
use tichu::deck::generate_hands;
use tichu::game::Exchange;
use tichu::game::Game;
use tichu::hand::Hand;
use tichu::player::Player;
use tichu::player::Team;
use tichu::round::Action;
use tichu::round::Turn;
use tichu::trick::TrickType;

fn dummy_game() -> Game {
    let mut players = Vec::new();
    for i in 0..4u64 {
        let mut player = Player::new(i + 1, i.to_string());
        if i < 2 {
            player.team = Some(Team::One);
        } else {
            player.team = Some(Team::Two);
        }
        players.push(player);
    }
    Game::new("test_game".to_string(), players)
}

fn player_of(game: &Game, id: u64) -> &Player {
    game.players.iter().find(|p| p.socket_id == id).unwrap()
}

fn is_mahjong(card: &Cards) -> bool {
    matches!(card, Cards::Mahjong(_))
}

#[test]
fn test_generate_hands() {
    let hands = generate_hands();
    assert_eq!(hands.len(), 4);
    for hand in hands.clone() {
        assert_eq!(hand.cards.len(), 14);
    }
}

#[test]
fn test_deal_cards() {
    let mut game = dummy_game();
    game.deal_cards();
    for player in game.players.iter() {
        assert_eq!(player.hand.as_ref().unwrap().cards.len(), 14);
    }
}

#[test]
fn test_validate_exchange() {
    let mut game = dummy_game();
    game.deal_cards();

    let usernames = ["0", "1", "2", "3"];

    for player in game.players.iter() {
        let valid_usernames = usernames
            .iter()
            .filter_map(|u| {
                if **u != player.username {
                    Some(u.to_string())
                } else {
                    None
                }
            })
            .collect::<Vec<String>>();

        let cards = player
            .hand
            .clone()
            .expect("player has no hand")
            .cards
            .iter()
            .take(3)
            .cloned()
            .collect::<Vec<_>>();

        let valid_player_card = valid_usernames
            .iter()
            .cloned()
            .zip(cards.iter().cloned())
            .collect::<Vec<(String, Cards)>>();

        let exchange = Exchange {
            player: player.socket_id,
            player_card: valid_player_card,
        };

        let result = game.validate_exchange(&exchange);
        assert!(result.is_ok());

        let identical_cards = [cards[0].clone(), cards[0].clone(), cards[0].clone()];

        let invalid_player_card = valid_usernames
            .iter()
            .cloned()
            .zip(identical_cards)
            .collect::<Vec<(String, Cards)>>();

        let invalid_exchange = Exchange {
            player: player.socket_id,
            player_card: invalid_player_card,
        };

        let result = game.validate_exchange(&invalid_exchange);
        assert!(result.is_err());

        let mut invalid_users = valid_usernames.clone();
        invalid_users[0] = player.username.clone();
        let invalid_player_card = invalid_users
            .iter()
            .cloned()
            .zip(cards.iter().cloned())
            .collect::<Vec<(String, Cards)>>();

        let invalid_exchange = Exchange {
            player: player.socket_id,
            player_card: invalid_player_card,
        };

        let result = game.validate_exchange(&invalid_exchange);
        assert!(result.is_err());
    }
}

#[test]
fn test_turns() {
    let mut game = dummy_game();
    game.deal_cards();
    game.start().unwrap();

    assert_eq!(game.round.is_some(), true);

    let mut turn_iterator = game.round.unwrap();

    for _ in 0..4 {
        let turn = turn_iterator.next(&game.players);
        assert!(turn.is_some());
    }
}

#[test]
fn test_alternating_teams() {
    let mut game = dummy_game();
    game.deal_cards();
    game.start().unwrap();

    assert_eq!(game.round.is_some(), true);

    let turn_sequence = game.round.as_ref().unwrap().prev_next_player.clone();

    for (previous, current) in turn_sequence.iter() {
        let team_previous = player_of(&game, *previous).team.clone();
        let team_current = player_of(&game, *current).team.clone();
        assert_ne!(team_previous, team_current);
    }
}

#[test]
fn test_starting_player() {
    let mut game = dummy_game();
    game.deal_cards();
    game.start().unwrap();

    assert_eq!(game.round.is_some(), true);

    let players_turn = game.round.as_ref().unwrap().current_player;

    let player_has_mahjong = player_of(&game, players_turn)
        .hand
        .as_ref()
        .unwrap()
        .cards
        .iter()
        .any(is_mahjong);

    assert_eq!(player_has_mahjong, true);

    for player in game.players.iter() {
        if player.socket_id != players_turn {
            let player_has_mahjong = player
                .hand
                .as_ref()
                .unwrap()
                .cards
                .iter()
                .any(is_mahjong);
            assert_eq!(player_has_mahjong, false);
        }
    }
}

// The lead of these openings is any card but the Dog, which would hand the
// lead to the partner at once; a Phoenix played alone is given a value.
fn opening_card(hand: &Hand) -> Cards {
    let card = hand
        .cards
        .iter()
        .find(|c| !matches!(c, Cards::Dog))
        .unwrap()
        .clone();
    match card {
        Cards::Phoenix(_) => Cards::Phoenix(Box::new(Phoenix { value: Some(1) })),
        other => other,
    }
}

#[test]
fn test_init_round() {
    let mut game = dummy_game();
    game.deal_cards();
    game.start().unwrap();

    let first_player = game.round.as_ref().unwrap().current_player;

    let first_player_hand = player_of(&game, first_player).hand.clone().unwrap();

    let first_player_card = opening_card(&first_player_hand);

    let turn = Turn {
        player: first_player,
        action: Action::Play,
        cards: Some(vec![first_player_card]),
    };

    let result = game.play_turn(turn);
    assert!(result.is_ok());

    let next_player = game.round.as_ref().unwrap().current_player;
    assert_ne!(first_player, next_player);

    assert_eq!(
        game.round.as_ref().unwrap().previous_action,
        Some(Action::Play)
    );

    assert_eq!(
        game.round.as_ref().unwrap().last_played_player,
        first_player
    );

    assert_eq!(
        *game
            .round
            .as_ref()
            .unwrap()
            .prev_next_player
            .get(&first_player)
            .unwrap(),
        next_player
    );
    assert_eq!(
        game.round.as_ref().unwrap().current_trick_type,
        Some(TrickType::Single)
    );
}

#[test]
fn test_invalid_init_round() {
    let mut game = dummy_game();
    game.deal_cards();
    game.start().unwrap();

    let second_player = *game
        .round
        .as_ref()
        .unwrap()
        .prev_next_player
        .get(&game.round.as_ref().unwrap().current_player)
        .unwrap();

    let second_player_hand = player_of(&game, second_player).hand.clone().unwrap();

    let second_player_card = second_player_hand.cards.first().unwrap().clone();

    let turn = Turn {
        player: second_player,
        action: Action::Play,
        cards: Some(vec![second_player_card]),
    };

    assert_eq!(game.play_turn(turn).is_err(), true);
}

#[test]
fn test_play_turns() {
    let mut game = dummy_game();

    game.deal_cards();
    game.start().unwrap();

    let all_cards = game.players.iter().fold(vec![], |mut acc, player| {
        let cards = player.hand.as_ref().unwrap().cards.clone();
        acc.extend(cards);
        acc
    });

    for player in game.players.iter_mut() {
        let new_hand = Hand {
            cards: all_cards.clone(),
        };
        player.hand = Some(new_hand);
    }

    let seat1 = game.round.as_ref().unwrap().current_player;

    let first_turn = Turn {
        player: seat1,
        action: Action::Play,
        cards: Some(vec![Cards::Two(Color::Black)]),
    };

    assert_eq!(game.play_turn(first_turn).is_ok(), true);

    let seat2 = game.round.as_ref().unwrap().current_player;

    let second_turn = Turn {
        player: seat2,
        action: Action::Play,
        cards: Some(vec![Cards::Ten(Color::Black)]),
    };

    let result = game.play_turn(second_turn);

    assert_eq!(result.is_ok(), true);
    assert_eq!(result.unwrap(), false);

    let seat3 = game.round.as_ref().unwrap().current_player;

    let third_turn = Turn {
        player: seat3,
        action: Action::Pass,
        cards: None,
    };

    let result = game.play_turn(third_turn);

    assert_eq!(result.is_ok(), true);
    assert_eq!(result.unwrap(), false);

    let seat4 = game.round.as_ref().unwrap().current_player;
    let fourth_turn = Turn {
        player: seat4,
        action: Action::Pass,
        cards: None,
    };

    let result = game.play_turn(fourth_turn);

    assert_eq!(result.is_ok(), true);
    assert_eq!(result.unwrap(), false);

    let seat1 = game.round.as_ref().unwrap().current_player;
    let fifth_turn = Turn {
        player: seat1,
        action: Action::Pass,
        cards: None,
    };

    let result = game.play_turn(fifth_turn);
    assert_eq!(result.is_ok(), true);
    assert_eq!(result.unwrap(), true);

    assert_eq!(game.cleanup_trick().is_ok(), true);

    //turn is over, next player should be the winner of the last trick
    let next_player = game.round.as_ref().unwrap().current_player;

    assert_eq!(next_player, seat2);

    let seat2_points = player_of(&game, seat2).trick_points;
    assert_eq!(seat2_points, 10);

    let sixth_turn = Turn {
        player: seat2,
        action: Action::Play,
        cards: Some(vec![Cards::Three(Color::Black), Cards::Three(Color::Blue)]),
    };

    let result = game.play_turn(sixth_turn);

    assert_eq!(result.is_ok(), true);
    assert_eq!(result.unwrap(), false);

    let seventh_turn = Turn {
        player: seat3,
        action: Action::Play,
        cards: Some(vec![Cards::Four(Color::Black), Cards::Four(Color::Blue)]),
    };

    let result = game.play_turn(seventh_turn);

    assert_eq!(result.is_ok(), true);
    assert_eq!(result.unwrap(), false);

    let eighth_turn = Turn {
        player: seat4,
        action: Action::Play,
        cards: Some(vec![Cards::Five(Color::Black), Cards::Five(Color::Blue)]),
    };

    let result = game.play_turn(eighth_turn);

    assert_eq!(result.is_ok(), true);
    assert_eq!(result.unwrap(), false);

    let ninth_turn = Turn {
        player: seat1,
        action: Action::Play,
        cards: Some(vec![Cards::Six(Color::Black), Cards::Six(Color::Blue)]),
    };

    let result = game.play_turn(ninth_turn);

    assert_eq!(result.is_ok(), true);
    assert_eq!(result.unwrap(), false);

    let tenth_turn = Turn {
        player: seat2,
        action: Action::Pass,
        cards: None,
    };

    let result = game.play_turn(tenth_turn);
    assert_eq!(result.is_ok(), true);
    assert_eq!(result.unwrap(), false);

    let eleventh_turn = Turn {
        player: seat3,
        action: Action::Pass,
        cards: None,
    };

    let result = game.play_turn(eleventh_turn);
    assert_eq!(result.is_ok(), true);
    assert_eq!(result.unwrap(), false);

    let twelfth_turn = Turn {
        player: seat4,
        action: Action::Pass,
        cards: None,
    };

    let result = game.play_turn(twelfth_turn);
    assert_eq!(result.is_ok(), true);
    assert_eq!(result.unwrap(), true);

    assert_eq!(game.cleanup_trick().is_ok(), true);

    assert_eq!(game.round.as_ref().unwrap().current_player, seat1);

    assert_eq!(player_of(&game, seat1).trick_points, 10);
    assert_eq!(player_of(&game, seat2).trick_points, 10);

    let t_13 = Turn {
        player: seat1,
        action: Action::Play,
        cards: Some(vec![
            Cards::Seven(Color::Black),
            Cards::Seven(Color::Blue),
            Cards::Seven(Color::Red),
        ]),
    };

    let result = game.play_turn(t_13);
    assert_eq!(result.is_ok(), true);
    assert_eq!(result.unwrap(), false);

    let t_14 = Turn {
        player: seat2,
        action: Action::Play,
        cards: Some(vec![
            Cards::Eight(Color::Black),
            Cards::Eight(Color::Blue),
            Cards::Eight(Color::Red),
        ]),
    };

    let result = game.play_turn(t_14);
    assert_eq!(result.is_ok(), true);
    assert_eq!(result.unwrap(), false);

    let t_15 = Turn {
        player: seat3,
        action: Action::Play,
        cards: Some(vec![
            Cards::Nine(Color::Black),
            Cards::Nine(Color::Blue),
            Cards::Phoenix(Box::new(Phoenix { value: Some(9) })),
        ]),
    };

    let result = game.play_turn(t_15);
    assert_eq!(result.is_ok(), true);
    assert_eq!(result.unwrap(), false);

    let t_16 = Turn {
        player: seat4,
        action: Action::Pass,
        cards: None,
    };

    let result = game.play_turn(t_16);
    assert_eq!(result.is_ok(), true);
    assert_eq!(result.unwrap(), false);

    let t_17 = Turn {
        player: seat1,
        action: Action::Pass,
        cards: None,
    };

    let result = game.play_turn(t_17);
    assert_eq!(result.is_ok(), true);
    assert_eq!(result.unwrap(), false);

    let t_18 = Turn {
        player: seat2,
        action: Action::Play,
        cards: Some(vec![
            Cards::Ten(Color::Green),
            Cards::Ten(Color::Blue),
            Cards::Ten(Color::Red),
        ]),
    };

    let result = game.play_turn(t_18);
    assert_eq!(result.is_ok(), true);
    assert_eq!(result.unwrap(), false);

    let t_19 = Turn {
        player: seat3,
        action: Action::Pass,
        cards: None,
    };

    let result = game.play_turn(t_19);
    assert_eq!(result.is_ok(), true);
    assert_eq!(result.unwrap(), false);

    let t_20 = Turn {
        player: seat4,
        action: Action::Play,
        cards: Some(vec![
            Cards::Jack(Color::Black),
            Cards::Jack(Color::Blue),
            Cards::Jack(Color::Red),
        ]),
    };

    let result = game.play_turn(t_20);
    assert_eq!(result.is_ok(), true);
    assert_eq!(result.unwrap(), false);

    let t_21 = Turn {
        player: seat1,
        action: Action::Pass,
        cards: None,
    };

    let result = game.play_turn(t_21);
    assert_eq!(result.is_ok(), true);
    assert_eq!(result.unwrap(), false);

    let t_22 = Turn {
        player: seat2,
        action: Action::Pass,
        cards: None,
    };

    let result = game.play_turn(t_22);
    assert_eq!(result.is_ok(), true);
    assert_eq!(result.unwrap(), false);

    let t_23 = Turn {
        player: seat3,
        action: Action::Pass,
        cards: None,
    };

    let result = game.play_turn(t_23);
    assert_eq!(result.is_ok(), true);
    assert_eq!(result.unwrap(), true);

    assert_eq!(game.cleanup_trick().is_ok(), true);

    assert_eq!(game.round.as_ref().unwrap().current_player, seat4);

    assert_eq!(player_of(&game, seat1).trick_points, 10);
    assert_eq!(player_of(&game, seat2).trick_points, 10);
    assert_eq!(player_of(&game, seat3).trick_points, 0);
    assert_eq!(player_of(&game, seat4).trick_points, 5);
}
