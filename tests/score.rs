use lost_cities::{score, Expedition, Value};

#[test]
fn score_works() {
    assert_eq!(0, score(&vec![]));
    assert_eq!(-17, score(&vec![(Expedition::Red, Value::N(3))]));
    assert_eq!(
        -34,
        score(&vec![(Expedition::Red, Value::N(3)), (Expedition::Green, Value::N(3))])
    );
    assert_eq!(
        -30,
        score(&vec![
            (Expedition::Red, Value::N(3)),
            (Expedition::Green, Value::N(3)),
            (Expedition::Green, Value::N(4))
        ])
    );
    assert_eq!(
        -37,
        score(&vec![
            (Expedition::Green, Value::Investment),
            (Expedition::Red, Value::N(3)),
            (Expedition::Green, Value::N(4)),
            (Expedition::Green, Value::N(6))
        ])
    );
    assert_eq!(
        44,
        score(&vec![
            (Expedition::Green, Value::N(2)),
            (Expedition::Green, Value::N(3)),
            (Expedition::Green, Value::N(4)),
            (Expedition::Green, Value::N(5)),
            (Expedition::Green, Value::N(6)),
            (Expedition::Green, Value::N(7)),
            (Expedition::Green, Value::N(8)),
            (Expedition::Green, Value::N(9))
        ])
    );
}

#[test]
fn score_investments_multiply_losses_and_gains() {
    // Investments alone: (0 - 20) * 4.
    assert_eq!(
        -80,
        score(&vec![
            (Expedition::Blue, Value::Investment),
            (Expedition::Blue, Value::Investment),
            (Expedition::Blue, Value::Investment)
        ])
    );
    // (7 + 8 + 9 + 10 - 20) * 2 = 28.
    assert_eq!(
        28,
        score(&vec![
            (Expedition::White, Value::Investment),
            (Expedition::White, Value::N(7)),
            (Expedition::White, Value::N(8)),
            (Expedition::White, Value::N(9)),
            (Expedition::White, Value::N(10))
        ])
    );
}

#[test]
fn score_full_colour() {
    // Every card of one colour: (54 - 20) * 4 + 20.
    let mut cards = vec![(Expedition::Yellow, Value::Investment); 3];
    for v in 2..=10 {
        cards.push((Expedition::Yellow, Value::N(v)));
    }
    assert_eq!(156, score(&cards));
}

#[test]
fn score_seven_cards_no_bonus() {
    let cards: Vec<_> = (2..=8).map(|v| (Expedition::Red, Value::N(v))).collect();
    // 35 - 20, seven cards.
    assert_eq!(15, score(&cards));
}
