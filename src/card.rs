//! Cards: an expedition colour paired with a face value.

use vstd::prelude::*;
use vstd::string::StringExecFns;

verus! {

/// Face value of a card: an investment card, or a numbered card of rank 2 to 10.
#[derive(Clone, Copy, PartialEq, Eq, Structural, Debug, PartialOrd, Ord, Hash)]
pub enum Value {
    Investment,
    N(usize),
}

/// The five expedition colours, in their canonical order.
#[derive(Clone, Copy, PartialEq, Eq, Structural, Debug, PartialOrd, Ord, Hash)]
pub enum Expedition {
    Red,
    Green,
    White,
    Blue,
    Yellow,
}

pub type Card = (Expedition, Value);

pub type Deck = Vec<Card>;

/// Lowest rank of a numbered card.
pub const MIN_VALUE: usize = 2;

/// Highest rank of a numbered card.
pub const MAX_VALUE: usize = 10;

/// Number of cards in the full deck.
pub const DECK_SIZE: usize = 60;

/// A value that can appear on a card of the deck.
pub open spec fn valid_value(v: Value) -> bool {
    match v {
        Value::Investment => true,
        Value::N(n) => MIN_VALUE <= n <= MAX_VALUE,
    }
}

pub open spec fn valid_cards(cards: Seq<Card>) -> bool {
    forall|i: int| 0 <= i < cards.len() ==> valid_value(#[trigger] cards[i].1)
}

/// The colours in canonical order.
pub open spec fn expedition_seq() -> Seq<Expedition> {
    seq![Expedition::Red, Expedition::Green, Expedition::White, Expedition::Blue, Expedition::Yellow]
}

/// The letter that names a colour in text.
pub open spec fn letter(e: Expedition) -> char {
    match e {
        Expedition::Red => 'R',
        Expedition::Green => 'G',
        Expedition::White => 'W',
        Expedition::Blue => 'B',
        Expedition::Yellow => 'Y',
    }
}

/// Position of a colour in the canonical order.
pub open spec fn color_rank(e: Expedition) -> int {
    match e {
        Expedition::Red => 0,
        Expedition::Green => 1,
        Expedition::White => 2,
        Expedition::Blue => 3,
        Expedition::Yellow => 4,
    }
}

/// Order key of a value: investments first, then numbered cards by rank.
pub open spec fn value_rank(v: Value) -> int {
    match v {
        Value::Investment => 0,
        Value::N(n) => n + 1,
    }
}

/// The order of cards: by colour, then by value.
pub open spec fn card_less(a: Card, b: Card) -> bool {
    color_rank(a.0) < color_rank(b.0) || (color_rank(a.0) == color_rank(b.0) && value_rank(a.1)
        < value_rank(b.1))
}

/// Whether `a` comes before `b` in the order of cards.
pub fn card_lt(a: &Card, b: &Card) -> (r: bool)
    ensures
        r == card_less(*a, *b),
{
    let ca: u8 = match a.0 {
        Expedition::Red => 0,
        Expedition::Green => 1,
        Expedition::White => 2,
        Expedition::Blue => 3,
        Expedition::Yellow => 4,
    };
    let cb: u8 = match b.0 {
        Expedition::Red => 0,
        Expedition::Green => 1,
        Expedition::White => 2,
        Expedition::Blue => 3,
        Expedition::Yellow => 4,
    };
    if ca != cb {
        return ca < cb;
    }
    match (a.1, b.1) {
        (Value::Investment, Value::Investment) => false,
        (Value::Investment, Value::N(_)) => true,
        (Value::N(_), Value::Investment) => false,
        (Value::N(x), Value::N(y)) => x < y,
    }
}

/// The cards of one colour, in their original order.
pub open spec fn of_color(cards: Seq<Card>, e: Expedition) -> Seq<Card>
    decreases cards.len(),
{
    if cards.len() == 0 {
        Seq::empty()
    } else {
        let rest = of_color(cards.drop_last(), e);
        if cards.last().0 == e {
            rest.push(cards.last())
        } else {
            rest
        }
    }
}

impl Expedition {
    /// One-letter abbreviation of the colour.
    pub fn abbrev(&self) -> (r: String)
        ensures
            r@ == seq![letter(*self)],
    {
        proof {
            reveal_strlit("R");
            reveal_strlit("G");
            reveal_strlit("W");
            reveal_strlit("B");
            reveal_strlit("Y");
        }
        match *self {
            Expedition::Red => "R".to_owned(),
            Expedition::Green => "G".to_owned(),
            Expedition::White => "W".to_owned(),
            Expedition::Blue => "B".to_owned(),
            Expedition::Yellow => "Y".to_owned(),
        }
    }
}

/// The decimal digits of a rank from 2 to 10.
pub open spec fn rank_text(n: usize) -> Seq<char> {
    if n == 10 {
        seq!['1', '0']
    } else {
        seq![(('0' as u32) + (n as u32)) as char]
    }
}

/// How a value is written: `X` for an investment, else the rank's digits.
pub open spec fn value_text(v: Value) -> Seq<char> {
    match v {
        Value::Investment => seq!['X'],
        Value::N(n) => rank_text(n),
    }
}

impl Value {
    /// The value as written on a card.
    pub fn text(&self) -> (r: String)
        requires
            valid_value(*self),
        ensures
            r@ == value_text(*self),
    {
        proof {
            reveal_strlit("X");
            reveal_strlit("2");
            reveal_strlit("3");
            reveal_strlit("4");
            reveal_strlit("5");
            reveal_strlit("6");
            reveal_strlit("7");
            reveal_strlit("8");
            reveal_strlit("9");
            reveal_strlit("10");
        }
        match *self {
            Value::Investment => "X".to_owned(),
            Value::N(2) => "2".to_owned(),
            Value::N(3) => "3".to_owned(),
            Value::N(4) => "4".to_owned(),
            Value::N(5) => "5".to_owned(),
            Value::N(6) => "6".to_owned(),
            Value::N(7) => "7".to_owned(),
            Value::N(8) => "8".to_owned(),
            Value::N(9) => "9".to_owned(),
            Value::N(_) => "10".to_owned(),
        }
    }
}

/// A card as written in commands, such as `WX` or `R7`.
pub fn card_text(c: &Card) -> (r: String)
    requires
        valid_value(c.1),
    ensures
        r@ == seq![letter(c.0)] + value_text(c.1),
{
    let e = c.0.abbrev();
    let v = c.1.text();
    e.concat(v.as_str())
}

/// All colours, in canonical order.
pub fn expeditions() -> (r: Vec<Expedition>)
    ensures
        r@ == expedition_seq(),
{
    let r = vec![
        Expedition::Red,
        Expedition::Green,
        Expedition::White,
        Expedition::Blue,
        Expedition::Yellow,
    ];
    assert(r@ =~= expedition_seq());
    r
}

/// The cards of one colour, keeping their order.
pub fn of_expedition(cards: &[Card], expedition: Expedition) -> (r: Vec<Card>)
    ensures
        r@ == of_color(cards@, expedition),
{
    let mut out: Vec<Card> = Vec::new();
    let mut i: usize = 0;
    while i < cards.len()
        invariant
            i <= cards@.len(),
            out@ == of_color(cards@.subrange(0, i as int), expedition),
        decreases cards@.len() - i,
    {
        let c = cards[i];
        assert(cards@.subrange(0, i + 1).drop_last() =~= cards@.subrange(0, i as int));
        if c.0 == expedition {
            out.push(c);
        }
        i += 1;
    }
    assert(cards@.subrange(0, cards@.len() as int) =~= cards@);
    out
}

/// The cards grouped by colour: entry `i` holds the cards of the `i`-th colour
/// of the canonical order.
pub fn by_expedition(cards: &[Card]) -> (r: Vec<Vec<Card>>)
    ensures
        r@.len() == 5,
        forall|i: int| 0 <= i < 5 ==> (#[trigger] r@[i])@ == of_color(cards@, expedition_seq()[i]),
{
    let es = expeditions();
    let mut output: Vec<Vec<Card>> = Vec::new();
    let mut i: usize = 0;
    while i < es.len()
        invariant
            es@ == expedition_seq(),
            i <= 5,
            output@.len() == i,
            forall|j: int| 0 <= j < i ==> (#[trigger] output@[j])@ == of_color(cards@, expedition_seq()[j]),
        decreases 5 - i,
    {
        output.push(of_expedition(cards, es[i]));
        i += 1;
    }
    output
}

} // verus!
