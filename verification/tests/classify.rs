use tichu::card::Cards;
use tichu::card::Color;
use tichu::card::Mahjong;
use tichu::card::Phoenix;
use tichu::trick::TrickType;

#[test]
fn test_single_trick() {
    let single_trick_tests = vec![
        (vec![Cards::Two(Color::Black)], TrickType::Single),
        (vec![Cards::Three(Color::Black)], TrickType::Single),
        (vec![Cards::Four(Color::Black)], TrickType::Single),
        (vec![Cards::Five(Color::Black)], TrickType::Single),
        (vec![Cards::Six(Color::Black)], TrickType::Single),
        (vec![Cards::Seven(Color::Black)], TrickType::Single),
        (vec![Cards::Eight(Color::Black)], TrickType::Single),
        (vec![Cards::Nine(Color::Black)], TrickType::Single),
        (vec![Cards::Ten(Color::Black)], TrickType::Single),
        (vec![Cards::Jack(Color::Black)], TrickType::Single),
        (vec![Cards::Queen(Color::Black)], TrickType::Single),
        (vec![Cards::King(Color::Black)], TrickType::Single),
        (vec![Cards::Ace(Color::Black)], TrickType::Single),
        (
            vec![Cards::Phoenix(Box::new(Phoenix { value: Some(1) }))],
            TrickType::Single,
        ),
        (vec![Cards::Dragon], TrickType::Single),
        (vec![Cards::Dog], TrickType::Single),
    ];
    single_trick_tests.iter().for_each(|(cards, expected)| {
        assert_eq!(TrickType::try_from(cards.as_slice()).unwrap(), *expected)
    });
}

#[test]
fn test_pair_trick() {
    let pair_trick_tests = vec![
        (
            vec![Cards::Two(Color::Black), Cards::Two(Color::Blue)],
            TrickType::Pair,
        ),
        (
            vec![Cards::Three(Color::Black), Cards::Three(Color::Blue)],
            TrickType::Pair,
        ),
        (
            vec![Cards::Four(Color::Black), Cards::Four(Color::Blue)],
            TrickType::Pair,
        ),
        (
            vec![Cards::Five(Color::Black), Cards::Five(Color::Blue)],
            TrickType::Pair,
        ),
        (
            vec![Cards::Six(Color::Black), Cards::Six(Color::Blue)],
            TrickType::Pair,
        ),
        (
            vec![Cards::Seven(Color::Black), Cards::Seven(Color::Blue)],
            TrickType::Pair,
        ),
        (
            vec![Cards::Eight(Color::Black), Cards::Eight(Color::Blue)],
            TrickType::Pair,
        ),
        (
            vec![Cards::Nine(Color::Black), Cards::Nine(Color::Blue)],
            TrickType::Pair,
        ),
        (
            vec![Cards::Ten(Color::Black), Cards::Ten(Color::Blue)],
            TrickType::Pair,
        ),
        (
            vec![Cards::Jack(Color::Black), Cards::Jack(Color::Blue)],
            TrickType::Pair,
        ),
        (
            vec![Cards::Queen(Color::Black), Cards::Queen(Color::Blue)],
            TrickType::Pair,
        ),
        (
            vec![Cards::King(Color::Black), Cards::King(Color::Blue)],
            TrickType::Pair,
        ),
        (
            vec![Cards::Ace(Color::Black), Cards::Ace(Color::Blue)],
            TrickType::Pair,
        ),
        (
            vec![
                Cards::Phoenix(Box::new(Phoenix { value: Some(2) })),
                Cards::Two(Color::Black),
            ],
            TrickType::Pair,
        ),
    ];
    pair_trick_tests.iter().for_each(|(cards, expected)| {
        assert_eq!(TrickType::try_from(cards.as_slice()).unwrap(), *expected)
    });
}

#[test]
fn test_trio_trick() {
    let trio_trick_tests = vec![
        (
            vec![
                Cards::Two(Color::Black),
                Cards::Two(Color::Blue),
                Cards::Two(Color::Red),
            ],
            TrickType::Triple,
        ),
        (
            vec![
                Cards::Three(Color::Black),
                Cards::Three(Color::Blue),
                Cards::Three(Color::Red),
            ],
            TrickType::Triple,
        ),
        (
            vec![
                Cards::Four(Color::Black),
                Cards::Four(Color::Blue),
                Cards::Four(Color::Red),
            ],
            TrickType::Triple,
        ),
        (
            vec![
                Cards::Five(Color::Black),
                Cards::Five(Color::Blue),
                Cards::Five(Color::Red),
            ],
            TrickType::Triple,
        ),
        (
            vec![
                Cards::Six(Color::Black),
                Cards::Six(Color::Blue),
                Cards::Six(Color::Red),
            ],
            TrickType::Triple,
        ),
        (
            vec![
                Cards::Seven(Color::Black),
                Cards::Seven(Color::Blue),
                Cards::Seven(Color::Red),
            ],
            TrickType::Triple,
        ),
        (
            vec![
                Cards::Eight(Color::Black),
                Cards::Eight(Color::Blue),
                Cards::Eight(Color::Red),
            ],
            TrickType::Triple,
        ),
        (
            vec![
                Cards::Nine(Color::Black),
                Cards::Nine(Color::Blue),
                Cards::Nine(Color::Red),
            ],
            TrickType::Triple,
        ),
        (
            vec![
                Cards::Ten(Color::Black),
                Cards::Ten(Color::Blue),
                Cards::Ten(Color::Red),
            ],
            TrickType::Triple,
        ),
        (
            vec![
                Cards::Jack(Color::Black),
                Cards::Jack(Color::Blue),
                Cards::Jack(Color::Red),
            ],
            TrickType::Triple,
        ),
        (
            vec![
                Cards::Queen(Color::Black),
                Cards::Queen(Color::Blue),
                Cards::Queen(Color::Red),
            ],
            TrickType::Triple,
        ),
        (
            vec![
                Cards::King(Color::Black),
                Cards::King(Color::Blue),
                Cards::King(Color::Red),
            ],
            TrickType::Triple,
        ),
        (
            vec![
                Cards::Ace(Color::Black),
                Cards::Ace(Color::Blue),
                Cards::Ace(Color::Red),
            ],
            TrickType::Triple,
        ),
        (
            vec![
                Cards::Phoenix(Box::new(Phoenix { value: Some(2) })),
                Cards::Two(Color::Black),
                Cards::Two(Color::Blue),
            ],
            TrickType::Triple,
        ),
    ];

    trio_trick_tests.iter().for_each(|(cards, expected)| {
        assert_eq!(TrickType::try_from(cards.as_slice()).unwrap(), *expected)
    });
}

#[test]
fn test_full_house_trick() {
    let full_house_trick_tests = vec![
        (
            vec![
                Cards::Two(Color::Black),
                Cards::Two(Color::Blue),
                Cards::Two(Color::Red),
                Cards::Three(Color::Black),
                Cards::Three(Color::Blue),
            ],
            TrickType::FullHouse,
        ),
        (
            vec![
                Cards::Two(Color::Black),
                Cards::Two(Color::Blue),
                Cards::Three(Color::Red),
                Cards::Three(Color::Black),
                Cards::Three(Color::Blue),
            ],
            TrickType::FullHouse,
        ),
        (
            vec![
                Cards::Two(Color::Black),
                Cards::Two(Color::Blue),
                Cards::Three(Color::Black),
                Cards::Three(Color::Blue),
                Cards::Phoenix(Box::new(Phoenix { value: Some(3) })),
            ],
            TrickType::FullHouse,
        ),
    ];
    full_house_trick_tests.iter().for_each(|(cards, expected)| {
        assert_eq!(TrickType::try_from(cards.as_slice()).unwrap(), *expected)
    });
}

#[test]
fn test_invalid_phoenix_trick() {
    let invalid_phoenix_trick_tests = vec![
        vec![
            Cards::Two(Color::Black),
            Cards::Phoenix(Box::new(Phoenix { value: Some(3) })),
        ],
        vec![
            Cards::Two(Color::Black),
            Cards::Two(Color::Blue),
            Cards::Phoenix(Box::new(Phoenix { value: Some(6) })),
        ],
        vec![
            Cards::Three(Color::Black),
            Cards::Three(Color::Blue),
            Cards::Three(Color::Red),
            Cards::Phoenix(Box::new(Phoenix { value: Some(6) })),
        ],
        //hot take
        vec![
            Cards::Two(Color::Black),
            Cards::Two(Color::Blue),
            Cards::Two(Color::Red),
            Cards::Phoenix(Box::new(Phoenix { value: Some(2) })),
        ],
    ];

    invalid_phoenix_trick_tests
        .iter()
        .for_each(|cards| assert!(TrickType::try_from(cards.as_slice()).is_err()));
}

#[test]
fn test_straight() {
    let straight_trick_tests = vec![
        (
            vec![
                Cards::Two(Color::Black),
                Cards::Three(Color::Blue),
                Cards::Four(Color::Red),
                Cards::Five(Color::Black),
                Cards::Six(Color::Blue),
            ],
            TrickType::Straight,
        ),
        (
            vec![
                Cards::Mahjong(Box::new(Mahjong { wish: None })),
                Cards::Two(Color::Black),
                Cards::Three(Color::Blue),
                Cards::Four(Color::Red),
                Cards::Five(Color::Black),
            ],
            TrickType::Straight,
        ),
        (
            vec![
                Cards::Mahjong(Box::new(Mahjong { wish: None })),
                Cards::Two(Color::Black),
                Cards::Three(Color::Blue),
                Cards::Four(Color::Red),
                Cards::Phoenix(Box::new(Phoenix { value: Some(5) })),
            ],
            TrickType::Straight,
        ),
    ];

    straight_trick_tests.iter().for_each(|(cards, expected)| {
        assert_eq!(TrickType::try_from(cards.as_slice()).unwrap(), *expected)
    });
}

#[test]
fn test_bomb() {
    let bomb_trick_test = vec![
        (
            vec![
                Cards::Two(Color::Black),
                Cards::Two(Color::Blue),
                Cards::Two(Color::Red),
                Cards::Two(Color::Green),
            ],
            TrickType::FourOfAKind,
        ),
        (
            vec![
                Cards::Ten(Color::Black),
                Cards::Ten(Color::Blue),
                Cards::Ten(Color::Red),
                Cards::Ten(Color::Green),
            ],
            TrickType::FourOfAKind,
        ),
    ];
    bomb_trick_test.iter().for_each(|(cards, expected)| {
        assert_eq!(TrickType::try_from(cards.as_slice()).unwrap(), *expected)
    });
}

#[test]
fn test_straight_flush() {
    let straight_flush_trick_tests = vec![
        (
            vec![
                Cards::Two(Color::Black),
                Cards::Three(Color::Black),
                Cards::Four(Color::Black),
                Cards::Five(Color::Black),
                Cards::Six(Color::Black),
            ],
            TrickType::StraightFlush,
        ),
        (
            vec![
                Cards::Eight(Color::Green),
                Cards::Nine(Color::Green),
                Cards::Ten(Color::Green),
                Cards::Jack(Color::Green),
                Cards::Queen(Color::Green),
                Cards::King(Color::Green),
                Cards::Ace(Color::Green),
            ],
            TrickType::StraightFlush,
        ),
    ];

    straight_flush_trick_tests
        .iter()
        .for_each(|(cards, expected)| {
            assert_eq!(TrickType::try_from(cards.as_slice()).unwrap(), *expected)
        });
}
