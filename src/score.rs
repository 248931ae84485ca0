//! Round scoring of an expedition pile.

use vstd::prelude::*;

use crate::card::{Card, Expedition, Value, expeditions, expedition_seq, of_color, valid_cards, valid_value, DECK_SIZE};

verus! {

/// Points a card adds to its expedition's sum: its rank, or nothing for an investment.
pub open spec fn rank(v: Value) -> int {
    match v {
        Value::Investment => 0,
        Value::N(n) => n as int,
    }
}

pub open spec fn rank_sum(cards: Seq<Card>) -> int
    decreases cards.len(),
{
    if cards.len() == 0 {
        0
    } else {
        rank_sum(cards.drop_last()) + rank(cards.last().1)
    }
}

pub open spec fn investment_count(cards: Seq<Card>) -> int
    decreases cards.len(),
{
    if cards.len() == 0 {
        0
    } else {
        investment_count(cards.drop_last()) + if cards.last().1 == Value::Investment { 1int } else { 0int }
    }
}

/// Contribution of one colour: nothing when no card of it was played, else the
/// ranks' sum less 20, multiplied by one more than the investments, plus 20 for
/// eight cards or more.
pub open spec fn color_score(cards: Seq<Card>, e: Expedition) -> int {
    let cs = of_color(cards, e);
    if cs.len() == 0 {
        0
    } else {
        (rank_sum(cs) - 20) * (investment_count(cs) + 1) + if cs.len() >= 8 { 20int } else { 0int }
    }
}

/// Sum of the contributions of the first `k` colours of the canonical order.
pub open spec fn score_upto(cards: Seq<Card>, k: nat) -> int
    decreases k,
{
    if k == 0 {
        0
    } else {
        score_upto(cards, (k - 1) as nat) + color_score(cards, expedition_seq()[k - 1])
    }
}

/// Score of a pile: the sum of the contributions of the five colours.
pub open spec fn score_of(cards: Seq<Card>) -> int {
    score_upto(cards, 5)
}

/// Contribution of one colour to the score of `cards`.
fn expedition_score(cards: &[Card], e: Expedition) -> (r: isize)
    requires
        valid_cards(cards@),
        cards@.len() <= DECK_SIZE,
    ensures
        r == color_score(cards@, e),
        -1220 <= r <= 35400,
{
    let mut count: usize = 0;
    let mut inv: usize = 0;
    let mut sum: usize = 0;
    let mut i: usize = 0;
    while i < cards.len()
        invariant
            i <= cards@.len() <= DECK_SIZE,
            valid_cards(cards@),
            count == of_color(cards@.subrange(0, i as int), e).len(),
            inv == investment_count(of_color(cards@.subrange(0, i as int), e)),
            sum == rank_sum(of_color(cards@.subrange(0, i as int), e)),
            inv <= count <= i,
            sum <= 10 * count,
        decreases cards@.len() - i,
    {
        let c = cards[i];
        let ghost prev = of_color(cards@.subrange(0, i as int), e);
        assert(cards@.subrange(0, i + 1).drop_last() =~= cards@.subrange(0, i as int));
        assert(cards@.subrange(0, i + 1).last() == c);
        assert(valid_value(cards@[i as int].1));
        if c.0 == e {
            assert(prev.push(c).drop_last() =~= prev);
            count += 1;
            match c.1 {
                Value::Investment => {
                    inv += 1;
                },
                Value::N(n) => {
                    sum += n;
                },
            }
        }
        i += 1;
    }
    assert(cards@.subrange(0, cards@.len() as int) =~= cards@);
    if count == 0 {
        return 0;
    }
    let base: isize = sum as isize - 20;
    let mult: isize = inv as isize + 1;
    assert(-20 <= base <= 580 && 1 <= mult <= 61);
    assert(-1220 <= base * mult <= 35380) by (nonlinear_arith)
        requires
            -20 <= base <= 580,
            1 <= mult <= 61,
    ;
    let bonus: isize = if count >= 8 { 20 } else { 0 };
    base * mult + bonus
}

/// Round score of an expedition pile; it may be negative.
pub fn score(cards: &[Card]) -> (r: isize)
    requires
        valid_cards(cards@),
        cards@.len() <= DECK_SIZE,
    ensures
        r == score_of(cards@),
        -6100 <= r <= 177000,
{
    let es = expeditions();
    let mut total: isize = 0;
    let mut i: usize = 0;
    while i < es.len()
        invariant
            es@ == expedition_seq(),
            i <= 5,
            valid_cards(cards@),
            cards@.len() <= DECK_SIZE,
            total == score_upto(cards@, i as nat),
            -1220 * i <= total <= 35400 * i,
        decreases 5 - i,
    {
        let s = expedition_score(cards, es[i]);
        total = total + s;
        i += 1;
    }
    total
}

} // verus!
