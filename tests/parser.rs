use lost_cities::card::card_text;
use lost_cities::command::{draw_parser, expedition_parser, take_parser, Alternative};
use lost_cities::{command, Command, Error, Expedition, Game, Invalid, ParseError, Phase, Value};

#[test]
fn command_works() {
    assert_eq!(
        command("play y8"),
        Ok((Command::Play((Expedition::Yellow, Value::N(8))), ""))
    );
    assert_eq!(
        command("discard bx"),
        Ok((Command::Discard((Expedition::Blue, Value::Investment)), ""))
    );
    assert_eq!(command("take r"), Ok((Command::Take(Expedition::Red), "")));
    assert_eq!(command("draw"), Ok((Command::Draw, "")));
}

#[test]
fn command_ignores_case() {
    assert_eq!(
        command("PLAY Y8"),
        Ok((Command::Play((Expedition::Yellow, Value::N(8))), ""))
    );
    assert_eq!(
        command("DiScArD bX"),
        Ok((Command::Discard((Expedition::Blue, Value::Investment)), ""))
    );
    assert_eq!(command("Take R"), Ok((Command::Take(Expedition::Red), "")));
    assert_eq!(command("DRAW"), Ok((Command::Draw, "")));
    assert_eq!(
        command("play gX"),
        Ok((Command::Play((Expedition::Green, Value::Investment)), ""))
    );
    assert_eq!(command("take W"), Ok((Command::Take(Expedition::White), "")));
}

#[test]
fn command_leaves_remaining_input() {
    assert_eq!(command("draw and more"), Ok((Command::Draw, " and more")));
    assert_eq!(
        command("playr10 next"),
        Ok((Command::Play((Expedition::Red, Value::N(10))), " next"))
    );
    assert_eq!(
        command("play \t  w2x"),
        Ok((Command::Play((Expedition::White, Value::N(2))), "x"))
    );
    assert_eq!(command("take yb"), Ok((Command::Take(Expedition::Yellow), "b")));
}

#[test]
fn command_errors_name_expected_token() {
    assert_eq!(command(""), Err(ParseError::Command));
    assert_eq!(command("fly"), Err(ParseError::Command));
    assert_eq!(command("pla"), Err(ParseError::Command));
    assert_eq!(command("play"), Err(ParseError::Card));
    assert_eq!(command("play z8"), Err(ParseError::Card));
    assert_eq!(command("play r"), Err(ParseError::Card));
    assert_eq!(command("play r1"), Err(ParseError::Card));
    assert_eq!(command("play r11"), Err(ParseError::Card));
    assert_eq!(command("play r99999999999999999999999"), Err(ParseError::Card));
    assert_eq!(command("discard"), Err(ParseError::Card));
    assert_eq!(command("take"), Err(ParseError::Expedition));
    assert_eq!(command("take q"), Err(ParseError::Expedition));
}

#[test]
fn game_command_applies_action() {
    let mut game = Game::new(2).unwrap().0;
    let before = game.clone();
    assert_eq!(
        game.command(0, "play q1").err(),
        Some(Error::InvalidInput(Invalid::Parse(ParseError::Card)))
    );
    assert_eq!(game, before);
    let c = game.hands[0][0];
    let text = format!(
        "discard {}{} rest",
        c.0.abbrev(),
        match c.1 {
            Value::Investment => "x".to_string(),
            Value::N(n) => n.to_string(),
        }
    );
    let resp = game.command(0, &text).unwrap();
    assert_eq!(resp.remaining_input, " rest");
    assert!(resp.can_undo);
    assert_eq!(game.phase, Phase::DrawOrTake);
    assert_eq!(*game.discards.last().unwrap(), c);
    let resp = game.command(0, "draw").unwrap();
    assert!(!resp.can_undo);
    assert_eq!(resp.remaining_input, "");
    assert_eq!(game.current_player, 1);
}

#[test]
fn apply_matches_methods() {
    let mut game = Game::new(2).unwrap().0;
    let c = game.hands[0][0];
    game.apply(0, Command::Discard(c)).unwrap();
    assert_eq!(
        game.apply(0, Command::Take(c.0)).err(),
        Some(Error::InvalidInput(Invalid::JustDiscarded(c.0)))
    );
    game.apply(0, Command::Draw).unwrap();
    assert_eq!(game.current_player, 1);
}

#[test]
fn command_parser_offers_legal_actions() {
    let mut game = Game::new(2).unwrap().0;
    assert!(game.command_parser(1).is_none());
    let offered = game.command_parser(0).unwrap();
    assert_eq!(offered.alternatives.len(), 2);
    let hand = game.hands[0].clone();
    match &offered.alternatives[0] {
        Alternative::Play(cards) => {
            for c in hand.iter() {
                assert!(cards.contains(c));
            }
            for (i, c) in cards.iter().enumerate() {
                assert!(hand.contains(c));
                assert!(!cards[i + 1..].contains(c));
            }
            let mut expected = hand.clone();
            expected.sort();
            expected.dedup();
            assert_eq!(*cards, expected);
        }
        other => panic!("unexpected {:?}", other),
    }
    assert!(matches!(offered.alternatives[1], Alternative::Discard(_)));
    assert_eq!(offered.parse("draw"), Err(ParseError::Command));
    let missing = *game.deck.iter().find(|c| !hand.contains(c)).unwrap();
    let text = format!(
        "play {}{}",
        missing.0.abbrev(),
        match missing.1 {
            Value::Investment => "x".to_string(),
            Value::N(n) => n.to_string(),
        }
    );
    assert_eq!(offered.parse(&text), Err(ParseError::Card));

    let c = hand[0];
    game.discard(0, c).unwrap();
    let offered = game.command_parser(0).unwrap();
    assert_eq!(offered.alternatives[0], Alternative::Draw);
    assert_eq!(offered.alternatives[1], Alternative::Take(expedition_parser()));
    assert_eq!(offered.parse("draw now"), Ok((Command::Draw, " now")));
    assert_eq!(offered.parse("take b"), Ok((Command::Take(Expedition::Blue), "")));
    assert_eq!(offered.parse("play r5"), Err(ParseError::Command));
    assert_eq!(offered.parse("take"), Err(ParseError::Expedition));
}

#[test]
fn restricted_grammar_checks_arguments() {
    let only_red = lost_cities::CommandParser {
        alternatives: vec![Alternative::Take(vec![Expedition::Red]), draw_parser()],
    };
    assert_eq!(only_red.parse("take r"), Ok((Command::Take(Expedition::Red), "")));
    assert_eq!(only_red.parse("take g"), Err(ParseError::Expedition));
    assert_eq!(take_parser(), Alternative::Take(expedition_parser()));
    assert_eq!(expedition_parser().len(), 5);
}

#[test]
fn player_card_parser_sorts_and_dedups() {
    let mut game = Game::new(2).unwrap().0;
    game.hands[0] = vec![
        (Expedition::Yellow, Value::N(3)),
        (Expedition::Red, Value::N(9)),
        (Expedition::Yellow, Value::Investment),
        (Expedition::Red, Value::N(9)),
        (Expedition::Green, Value::N(10)),
        (Expedition::Yellow, Value::Investment),
    ];
    assert_eq!(
        game.player_card_parser(0),
        vec![
            (Expedition::Red, Value::N(9)),
            (Expedition::Green, Value::N(10)),
            (Expedition::Yellow, Value::Investment),
            (Expedition::Yellow, Value::N(3)),
        ]
    );
}

#[test]
fn card_text_round_trips_through_parser() {
    assert_eq!(card_text(&(Expedition::White, Value::Investment)), "WX");
    assert_eq!(card_text(&(Expedition::Red, Value::N(7))), "R7");
    assert_eq!(card_text(&(Expedition::Blue, Value::N(10))), "B10");
    assert_eq!(Value::N(2).text(), "2");
    for c in lost_cities::game::initial_deck() {
        let text = format!("play {}", card_text(&c));
        assert_eq!(command(&text), Ok((Command::Play(c), "")));
    }
}
