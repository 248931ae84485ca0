use lost_cities::card::{by_expedition, expeditions, of_expedition};
use lost_cities::game::{initial_deck, opponent};
use lost_cities::{Error, Expedition, Game, Invalid, Phase, Status, Value, ROUNDS, START_ROUND};

fn discard_and_draw(game: &mut Game, player: usize) {
    let c = game.hands[player][0];
    game.discard(player, c).unwrap();
    game.draw(player).unwrap();
}

fn card_count(game: &Game) -> usize {
    game.deck.len()
        + game.discards.len()
        + game.hands.iter().map(|h| h.len()).sum::<usize>()
        + game.expeditions.iter().map(|e| e.len()).sum::<usize>()
}

#[test]
fn start_works() {
    let game = Game::new(2).unwrap().0;
    assert_eq!(game.hands.len(), 2);
    assert_eq!(game.hands[0].len(), 8);
    assert_eq!(game.hands[1].len(), 8);
    assert_eq!(game.deck.len(), 44);
}

#[test]
fn end_round_works() {
    let mut game = Game::new(2).unwrap().0;
    for _ in 0..44 {
        let p = game.current_player;
        let c = game.hands[p][0];
        game.discard(p, c).unwrap();
        assert_eq!(START_ROUND, game.round);
        game.draw(p).unwrap();
    }
    assert_eq!(START_ROUND + 1, game.round);
    assert_eq!(game.hands[0].len(), 8);
    assert_eq!(game.hands[1].len(), 8);
    assert_eq!(game.deck.len(), 44);
}

#[test]
fn game_end_works() {
    let mut game = Game::new(2).unwrap().0;
    for _ in 0..(44 * ROUNDS) {
        let p = game.current_player;
        let c = game.hands[p][0];
        game.discard(p, c).unwrap();
        game.draw(p).unwrap();
    }
    assert_eq!(game.is_finished(), true);
}

#[test]
fn play_works() {
    let mut game = Game::new(2).unwrap().0;
    game.hands[0] = vec![
        (Expedition::Green, Value::Investment),
        (Expedition::Green, Value::Investment),
        (Expedition::Green, Value::N(2)),
        (Expedition::Green, Value::N(3)),
        (Expedition::Yellow, Value::Investment),
        (Expedition::Yellow, Value::Investment),
        (Expedition::Yellow, Value::N(2)),
        (Expedition::Yellow, Value::N(3)),
    ];
    game.play(0, (Expedition::Green, Value::Investment)).unwrap();
    game.draw(0).unwrap();
    discard_and_draw(&mut game, 1);
    game.play(0, (Expedition::Green, Value::N(2))).unwrap();
    game.draw(0).unwrap();
    discard_and_draw(&mut game, 1);
    // Shouldn't be able to play GX now.
    assert!(game.play(0, (Expedition::Green, Value::Investment)).is_err());
    game.play(0, (Expedition::Green, Value::N(3))).unwrap();
    game.draw(0).unwrap();
    discard_and_draw(&mut game, 1);
    game.play(0, (Expedition::Yellow, Value::N(3))).unwrap();
    game.draw(0).unwrap();
    discard_and_draw(&mut game, 1);
    // Shouldn't be able to play Y2 now.
    assert!(game.play(0, (Expedition::Yellow, Value::N(2))).is_err());
}

#[test]
fn new_rejects_other_player_counts() {
    assert_eq!(
        Game::new(3).err(),
        Some(Error::PlayerCount { min: 2, max: 2, given: 3 })
    );
    assert!(Game::new(1).is_err());
}

#[test]
fn new_game_state() {
    let game = Game::new(2).unwrap().0;
    assert_eq!(game.round, START_ROUND);
    assert_eq!(game.phase, Phase::PlayOrDiscard);
    assert_eq!(game.current_player, 0);
    assert!(game.discards.is_empty());
    assert!(game.expeditions.iter().all(|e| e.is_empty()));
    assert!(game.scores.iter().all(|s| s.is_empty()));
    assert_eq!(card_count(&game), 60);
}

#[test]
fn deck_has_sixty_cards() {
    let deck = initial_deck();
    assert_eq!(deck.len(), 60);
    for e in expeditions() {
        let cards = of_expedition(&deck, e);
        assert_eq!(cards.len(), 12);
        assert_eq!(cards.iter().filter(|c| c.1 == Value::Investment).count(), 3);
        for v in 2..=10 {
            assert!(cards.contains(&(e, Value::N(v))));
        }
    }
    assert_eq!(deck[0], (Expedition::Red, Value::Investment));
    assert_eq!(deck[3], (Expedition::Red, Value::N(2)));
    assert_eq!(deck[59], (Expedition::Yellow, Value::N(10)));
}

#[test]
fn rounds_are_shuffled() {
    let deck = initial_deck();
    let mut differs = false;
    for _ in 0..5 {
        let game = Game::new(2).unwrap().0;
        if game.hands[0][..] != deck[..8] {
            differs = true;
        }
        let mut all: Vec<_> = game.deck.clone();
        all.extend(game.hands[0].iter().cloned());
        all.extend(game.hands[1].iter().cloned());
        all.sort();
        let mut sorted = deck.clone();
        sorted.sort();
        assert_eq!(all, sorted);
    }
    assert!(differs);
}

#[test]
fn cards_are_conserved_through_a_game() {
    let mut game = Game::new(2).unwrap().0;
    for i in 0..(44 * ROUNDS) {
        let p = game.current_player;
        let c = game.hands[p][0];
        if game.play(p, c).is_err() {
            game.discard(p, c).unwrap();
        }
        assert_eq!(card_count(&game), 60);
        if i % 3 == 0 && game.discarded_expedition.is_none() {
            let taken = expeditions()
                .into_iter()
                .find(|e| game.available_discard(*e).is_some());
            if let Some(e) = taken {
                game.take(p, e).unwrap();
                assert_eq!(card_count(&game), 60);
                continue;
            }
        }
        game.draw(p).unwrap();
        assert_eq!(card_count(&game), 60);
        if game.is_finished() {
            break;
        }
    }
}

#[test]
fn piles_stay_ordered() {
    let mut game = Game::new(2).unwrap().0;
    let mut steps = 0;
    while !game.is_finished() && steps < 1000 {
        steps += 1;
        let p = game.current_player;
        let hand = game.hands[p].clone();
        let mut played = false;
        for c in hand.iter() {
            if game.play(p, *c).is_ok() {
                played = true;
                break;
            }
        }
        if !played {
            game.discard(p, hand[0]).unwrap();
        }
        for pile in game.expeditions.iter() {
            for e in expeditions() {
                let cards = of_expedition(pile, e);
                for w in cards.windows(2) {
                    match (w[0].1, w[1].1) {
                        (Value::N(a), Value::N(b)) => assert!(a < b),
                        (Value::N(_), Value::Investment) => panic!("investment after a number"),
                        _ => {}
                    }
                }
            }
        }
        game.draw(p).unwrap();
    }
    assert!(game.is_finished());
}

#[test]
fn rejected_actions_leave_game_unchanged() {
    let mut game = Game::new(2).unwrap().0;
    let before = game.clone();
    assert_eq!(
        game.draw(0).err(),
        Some(Error::InvalidInput(Invalid::WrongPhase))
    );
    assert_eq!(game, before);
    let c = game.hands[1][0];
    assert_eq!(
        game.discard(1, c).err(),
        Some(Error::InvalidInput(Invalid::NotYourTurn))
    );
    assert_eq!(game, before);
    let missing = *game.deck.iter().find(|c| !game.hands[0].contains(c)).unwrap();
    assert_eq!(
        game.play(0, missing).err(),
        Some(Error::InvalidInput(Invalid::NoSuchCard(missing)))
    );
    assert_eq!(game, before);
    assert_eq!(
        game.take(0, Expedition::Red).err(),
        Some(Error::InvalidInput(Invalid::WrongPhase))
    );
    assert_eq!(game, before);
    assert!(game.command(0, "fly").is_err());
    assert_eq!(game, before);
}

#[test]
fn higher_card_blocks_play() {
    let mut game = Game::new(2).unwrap().0;
    game.hands[0] = vec![
        (Expedition::Blue, Value::N(5)),
        (Expedition::Blue, Value::N(4)),
        (Expedition::Blue, Value::Investment),
        (Expedition::Red, Value::N(2)),
        (Expedition::Red, Value::N(3)),
        (Expedition::Red, Value::N(4)),
        (Expedition::Red, Value::N(5)),
        (Expedition::Red, Value::N(6)),
    ];
    game.play(0, (Expedition::Blue, Value::N(5))).unwrap();
    game.draw(0).unwrap();
    discard_and_draw(&mut game, 1);
    let before = game.clone();
    assert_eq!(
        game.play(0, (Expedition::Blue, Value::N(4))).err(),
        Some(Error::InvalidInput(Invalid::HigherCardPlayed((Expedition::Blue, Value::N(4)))))
    );
    assert_eq!(
        game.play(0, (Expedition::Blue, Value::Investment)).err(),
        Some(Error::InvalidInput(Invalid::HigherCardPlayed((Expedition::Blue, Value::Investment))))
    );
    assert_eq!(game, before);
    // Another colour is unaffected.
    game.play(0, (Expedition::Red, Value::N(2))).unwrap();
}

#[test]
fn take_rules() {
    let mut game = Game::new(2).unwrap().0;
    let c = game.hands[0][0];
    game.discard(0, c).unwrap();
    let before = game.clone();
    assert_eq!(
        game.take(0, c.0).err(),
        Some(Error::InvalidInput(Invalid::JustDiscarded(c.0)))
    );
    let other = expeditions().into_iter().find(|e| *e != c.0).unwrap();
    assert_eq!(
        game.take(0, other).err(),
        Some(Error::InvalidInput(Invalid::NoDiscard(other)))
    );
    assert_eq!(game, before);
    game.draw(0).unwrap();
    // The next player discards another colour, then takes the card back.
    let d = *game.hands[1].iter().find(|d| d.0 != c.0).unwrap();
    game.discard(1, d).unwrap();
    assert_eq!(game.available_discard(c.0), Some(c));
    let hand_len = game.hands[1].len();
    game.take(1, c.0).unwrap();
    assert_eq!(game.hands[1].len(), hand_len + 1);
    assert_eq!(*game.hands[1].last().unwrap(), c);
    assert_eq!(game.discards, vec![d]);
    assert_eq!(game.current_player, 0);
    assert_eq!(game.phase, Phase::PlayOrDiscard);
    assert_eq!(game.stats[1].takes, 1);
}

#[test]
fn take_gets_most_recent_of_colour() {
    let mut game = Game::new(2).unwrap().0;
    game.discards = vec![
        (Expedition::Red, Value::N(4)),
        (Expedition::Green, Value::N(7)),
        (Expedition::Red, Value::N(9)),
        (Expedition::Green, Value::Investment),
    ];
    assert_eq!(
        game.available_discard(Expedition::Red),
        Some((Expedition::Red, Value::N(9)))
    );
    assert_eq!(game.available_discard(Expedition::Blue), None);
}

#[test]
fn turn_alternates_after_draw_and_take() {
    let mut game = Game::new(2).unwrap().0;
    let c = game.hands[0][0];
    game.discard(0, c).unwrap();
    assert_eq!(game.current_player, 0);
    assert_eq!(game.phase, Phase::DrawOrTake);
    assert_eq!(game.discarded_expedition, Some(c.0));
    game.draw(0).unwrap();
    assert_eq!(game.current_player, 1);
    assert_eq!(game.phase, Phase::PlayOrDiscard);
    assert_eq!(game.discarded_expedition, None);
    assert_eq!(game.hands[0].len(), 8);
    assert_eq!(game.deck.len(), 43);
    let d = game.hands[1][0];
    game.discard(1, d).unwrap();
    game.draw(1).unwrap();
    assert_eq!(game.current_player, 0);
    let first = game.hands[0][0];
    game.discard(0, first).unwrap();
    let e = expeditions()
        .into_iter()
        .find(|e| game.available_discard(*e).is_some() && Some(*e) != game.discarded_expedition);
    if let Some(e) = e {
        game.take(0, e).unwrap();
        assert_eq!(game.current_player, 1);
        assert_eq!(game.phase, Phase::PlayOrDiscard);
    }
    assert_eq!(game.stats[0].discards, 2);
    assert_eq!(game.stats[0].draws, 1);
}

#[test]
fn finished_game_refuses_actions() {
    let mut game = Game::new(2).unwrap().0;
    for _ in 0..(44 * ROUNDS) {
        let p = game.current_player;
        discard_and_draw(&mut game, p);
    }
    assert!(game.is_finished());
    assert_eq!(game.scores[0].len(), ROUNDS);
    let before = game.clone();
    let p = game.current_player;
    assert_eq!(
        game.draw(p).err(),
        Some(Error::InvalidInput(Invalid::Finished))
    );
    assert_eq!(game, before);
    match game.status() {
        Status::Finished { winners } => {
            let t0 = game.player_score(0);
            let t1 = game.player_score(1);
            if t0 > t1 {
                assert_eq!(winners, vec![0]);
            } else if t1 > t0 {
                assert_eq!(winners, vec![1]);
            } else {
                assert_eq!(winners, vec![0, 1]);
            }
        }
        Status::Active { .. } => panic!("game should be over"),
    }
    assert!(game.command_parser(p).is_none());
}

#[test]
fn round_starter_follows_scores() {
    let mut game = Game::new(2).unwrap().0;
    // Player 0 commits to an expedition it cannot finish, so it falls behind.
    game.hands[0][0] = (Expedition::White, Value::N(2));
    game.play(0, (Expedition::White, Value::N(2))).unwrap();
    game.draw(0).unwrap();
    while game.round == START_ROUND {
        let p = game.current_player;
        discard_and_draw(&mut game, p);
    }
    assert_eq!(game.scores[0], vec![-18]);
    assert_eq!(game.scores[1], vec![0]);
    assert_eq!(game.current_player, 1);
    assert!(game.expeditions.iter().all(|e| e.is_empty()));
    assert!(game.discards.is_empty());
}

#[test]
fn round_starter_alternates_on_tie() {
    let mut game = Game::new(2).unwrap().0;
    let first = game.current_player;
    assert_eq!(game.starting_player, first);
    let mut last = first;
    while game.round == START_ROUND {
        last = game.current_player;
        discard_and_draw(&mut game, last);
    }
    assert_eq!(game.scores[0], vec![0]);
    assert_eq!(game.scores[1], vec![0]);
    // The last draw was the second player's, yet the tie passes the start
    // to the player who did not start the first round.
    assert_eq!(last, 1);
    assert_eq!(game.current_player, opponent(first));
    assert_eq!(game.starting_player, 1);
}

#[test]
fn pub_state_hides_other_hand() {
    let mut game = Game::new(2).unwrap().0;
    let c = game.hands[0][0];
    game.discard(0, c).unwrap();
    let mine = game.pub_state(Some(0));
    assert_eq!(mine.player, Some(0));
    assert_eq!(mine.hand, Some(game.hands[0].clone()));
    assert_eq!(mine.deck_remaining, 44);
    assert_eq!(mine.discards, vec![c]);
    assert_eq!(mine.phase, Phase::DrawOrTake);
    assert_eq!(mine.current_player, 0);
    assert!(!mine.is_finished);
    let spectator = game.pub_state(None);
    assert_eq!(spectator.player, None);
    assert_eq!(spectator.hand, None);
    let outsider = game.pub_state(Some(5));
    assert_eq!(outsider.player, None);
    assert_eq!(outsider.hand, None);
    assert_eq!(spectator.player_score(0), 0);
    assert_eq!(spectator.player_score(7), 0);
}

#[test]
fn pub_state_shows_top_discard_per_colour() {
    let mut game = Game::new(2).unwrap().0;
    game.discards = vec![
        (Expedition::Yellow, Value::N(4)),
        (Expedition::Red, Value::N(2)),
        (Expedition::Yellow, Value::N(8)),
    ];
    let view = game.pub_state(Some(1));
    assert_eq!(
        view.discards,
        vec![(Expedition::Red, Value::N(2)), (Expedition::Yellow, Value::N(8))]
    );
    assert_eq!(view.hand, Some(game.hands[1].clone()));
}

#[test]
fn status_while_playing() {
    let game = Game::new(2).unwrap().0;
    assert_eq!(game.status(), Status::Active { whose_turn: 0 });
    assert!(game.winners().is_empty());
}

#[test]
fn card_grouping() {
    let cards = vec![
        (Expedition::Blue, Value::N(3)),
        (Expedition::Red, Value::Investment),
        (Expedition::Blue, Value::N(7)),
    ];
    assert_eq!(
        of_expedition(&cards, Expedition::Blue),
        vec![(Expedition::Blue, Value::N(3)), (Expedition::Blue, Value::N(7))]
    );
    let grouped = by_expedition(&cards);
    assert_eq!(grouped.len(), 5);
    assert_eq!(grouped[0], vec![(Expedition::Red, Value::Investment)]);
    assert!(grouped[1].is_empty());
    assert_eq!(grouped[3].len(), 2);
    assert_eq!(
        expeditions(),
        vec![
            Expedition::Red,
            Expedition::Green,
            Expedition::White,
            Expedition::Blue,
            Expedition::Yellow
        ]
    );
    assert_eq!(Expedition::White.abbrev(), "W");
    assert_eq!(Expedition::Yellow.abbrev(), "Y");
}
