//! Applying actions and text commands, and the commands each player is
//! offered at a given moment.

use vstd::prelude::*;

use crate::card::{Card, Expedition, card_less, card_lt, expeditions, expedition_seq};
use crate::error::{Error, Invalid};
use crate::game::{
    discard_error, discarded, drew, play_error, played, take_error, took, turn_error, Game, Phase,
    PLAYERS,
};
use crate::log::Log;
pub use crate::parser::Command;
use crate::parser::{command, command_of, ParseError};

verus! {

/// The result of a text command that was carried out.
#[derive(Debug, PartialEq, Eq)]
pub struct CommandResponse {
    pub logs: Vec<Log>,
    /// Whether the action revealed nothing new, so that it could be taken back.
    pub can_undo: bool,
    /// The input that followed the command, unread.
    pub remaining_input: String,
}

/// The refusal owed by an action, if any.
pub open spec fn action_error(g: Game, player: int, action: Command) -> Option<Error> {
    match action {
        Command::Play(c) => play_error(g, player, c),
        Command::Discard(c) => discard_error(g, player, c),
        Command::Take(e) => take_error(g, player, e),
        Command::Draw => turn_error(g, player, Phase::DrawOrTake),
    }
}

/// `g1` is `g0` after `player` carried out `action`.
pub open spec fn applied(g0: Game, g1: Game, player: int, action: Command) -> bool {
    match action {
        Command::Play(c) => played(g0, g1, player, c),
        Command::Discard(c) => discarded(g0, g1, player, c),
        Command::Take(e) => took(g0, g1, player, e),
        Command::Draw => drew(g0, g1, player),
    }
}

/// One form of command that a player is offered, with the arguments allowed.
#[derive(Debug, PartialEq, Eq)]
pub enum Alternative {
    Play(Vec<Card>),
    Discard(Vec<Card>),
    Draw,
    Take(Vec<Expedition>),
}

/// The commands a player may give: the grammar, restricted to legal actions.
#[derive(Debug, PartialEq, Eq)]
pub struct CommandParser {
    pub alternatives: Vec<Alternative>,
}

/// Whether `alt` allows `action`.
pub open spec fn allows(alt: Alternative, action: Command) -> bool {
    match (alt, action) {
        (Alternative::Play(cs), Command::Play(c)) => cs@.contains(c),
        (Alternative::Discard(cs), Command::Discard(c)) => cs@.contains(c),
        (Alternative::Draw, Command::Draw) => true,
        (Alternative::Take(es), Command::Take(e)) => es@.contains(e),
        _ => false,
    }
}

/// Whether one of `alts` has the keyword of `action`.
pub open spec fn has_keyword(alts: Seq<Alternative>, action: Command) -> bool {
    exists|i: int|
        0 <= i < alts.len() && match (#[trigger] alts[i], action) {
            (Alternative::Play(_), Command::Play(_)) => true,
            (Alternative::Discard(_), Command::Discard(_)) => true,
            (Alternative::Draw, Command::Draw) => true,
            (Alternative::Take(_), Command::Take(_)) => true,
            _ => false,
        }
}

pub open spec fn offers(alts: Seq<Alternative>, action: Command) -> bool {
    exists|i: int| 0 <= i < alts.len() && allows(#[trigger] alts[i], action)
}

/// `cs` holds each card of `hand` once, in the order of cards.
pub open spec fn distinct_cards_of(cs: Seq<Card>, hand: Seq<Card>) -> bool {
    &&& forall|i: int, j: int| 0 <= i < j < cs.len() ==> card_less(#[trigger] cs[i], #[trigger] cs[j])
    &&& forall|c: Card| cs.contains(c) <==> hand.contains(c)
}

fn same_card(a: Card, b: Card) -> (r: bool)
    ensures
        r == (a == b),
{
    a.0 == b.0 && a.1 == b.1
}

/// The first position in the ordered `cs` whose card does not come before `c`.
fn sorted_position(cs: &Vec<Card>, c: &Card) -> (r: usize)
    requires
        forall|i: int, j: int| 0 <= i < j < cs@.len() ==> card_less(#[trigger] cs@[i], #[trigger] cs@[j]),
    ensures
        r <= cs@.len(),
        forall|k: int| 0 <= k < r ==> card_less(#[trigger] cs@[k], *c),
        r < cs@.len() ==> !card_less(cs@[r as int], *c),
        r < cs@.len() && cs@[r as int] != *c ==> card_less(*c, cs@[r as int]),
{
    let mut i: usize = 0;
    while i < cs.len() && card_lt(&cs[i], c)
        invariant
            i <= cs@.len(),
            forall|k: int| 0 <= k < i ==> card_less(#[trigger] cs@[k], *c),
        decreases cs@.len() - i,
    {
        i += 1;
    }
    i
}

fn contains_card(cs: &Vec<Card>, c: Card) -> (r: bool)
    ensures
        r == cs@.contains(c),
{
    let mut i: usize = 0;
    while i < cs.len()
        invariant
            i <= cs@.len(),
            forall|k: int| 0 <= k < i ==> cs@[k] != c,
        decreases cs@.len() - i,
    {
        if same_card(cs[i], c) {
            return true;
        }
        i += 1;
    }
    false
}

fn contains_expedition(es: &Vec<Expedition>, e: Expedition) -> (r: bool)
    ensures
        r == es@.contains(e),
{
    let mut i: usize = 0;
    while i < es.len()
        invariant
            i <= es@.len(),
            forall|k: int| 0 <= k < i ==> es@[k] != e,
        decreases es@.len() - i,
    {
        if es[i] == e {
            return true;
        }
        i += 1;
    }
    false
}

fn alternative_allows(alt: &Alternative, action: Command) -> (r: bool)
    ensures
        r == allows(*alt, action),
{
    match (alt, action) {
        (Alternative::Play(cs), Command::Play(c)) => contains_card(cs, c),
        (Alternative::Discard(cs), Command::Discard(c)) => contains_card(cs, c),
        (Alternative::Draw, Command::Draw) => true,
        (Alternative::Take(es), Command::Take(e)) => contains_expedition(es, e),
        _ => false,
    }
}

fn alternative_has_keyword(alt: &Alternative, action: Command) -> (r: bool)
    ensures
        r == match (*alt, action) {
            (Alternative::Play(_), Command::Play(_)) => true,
            (Alternative::Discard(_), Command::Discard(_)) => true,
            (Alternative::Draw, Command::Draw) => true,
            (Alternative::Take(_), Command::Take(_)) => true,
            _ => false,
        },
{
    match (alt, action) {
        (Alternative::Play(_), Command::Play(_)) => true,
        (Alternative::Discard(_), Command::Discard(_)) => true,
        (Alternative::Draw, Command::Draw) => true,
        (Alternative::Take(_), Command::Take(_)) => true,
        _ => false,
    }
}

/// The error the restricted grammar reports for a command it does not offer:
/// the argument's class when the keyword is offered, else the keyword's.
pub open spec fn refusal(alts: Seq<Alternative>, action: Command) -> ParseError {
    if has_keyword(alts, action) {
        match action {
            Command::Take(_) => ParseError::Expedition,
            _ => ParseError::Card,
        }
    } else {
        ParseError::Command
    }
}

impl CommandParser {
    /// Reads one command from the start of `input`, accepting only the
    /// commands on offer.
    pub fn parse<'a>(&self, input: &'a str) -> (r: Result<(Command, &'a str), ParseError>)
        ensures
            match command_of(input@) {
                Err(e) => r == Err::<(Command, &str), ParseError>(e),
                Ok((c, n)) => if offers(self.alternatives@, c) {
                    r matches Ok((c2, rest)) && c2 == c && rest@ == input@.subrange(n, input@.len() as int)
                } else {
                    r == Err::<(Command, &str), ParseError>(refusal(self.alternatives@, c))
                },
            },
    {
        let parsed = command(input);
        let (c, rest) = match parsed {
            Ok(p) => p,
            Err(e) => {
                return Err(e);
            },
        };
        assert(command_of(input@) matches Ok((c2, n)) && c2 == c && rest@ == input@.subrange(n, input@.len() as int));
        let mut i: usize = 0;
        let mut keyword = false;
        while i < self.alternatives.len()
            invariant
                command_of(input@) matches Ok((c2, n)) && c2 == c && rest@ == input@.subrange(
                    n,
                    input@.len() as int,
                ),
                i <= self.alternatives@.len(),
                forall|k: int| 0 <= k < i ==> !allows(#[trigger] self.alternatives@[k], c),
                keyword == exists|k: int|
                    0 <= k < i && match (#[trigger] self.alternatives@[k], c) {
                        (Alternative::Play(_), Command::Play(_)) => true,
                        (Alternative::Discard(_), Command::Discard(_)) => true,
                        (Alternative::Draw, Command::Draw) => true,
                        (Alternative::Take(_), Command::Take(_)) => true,
                        _ => false,
                    },
            decreases self.alternatives@.len() - i,
        {
            if alternative_allows(&self.alternatives[i], c) {
                assert(allows(self.alternatives@[i as int], c));
                return Ok((c, rest));
            }
            if alternative_has_keyword(&self.alternatives[i], c) {
                keyword = true;
            }
            i += 1;
        }
        if keyword {
            match c {
                Command::Take(_) => Err(ParseError::Expedition),
                _ => Err(ParseError::Card),
            }
        } else {
            Err(ParseError::Command)
        }
    }
}

/// The `draw` command.
pub fn draw_parser() -> (r: Alternative)
    ensures
        r == Alternative::Draw,
{
    Alternative::Draw
}

/// Any colour letter.
pub fn expedition_parser() -> (r: Vec<Expedition>)
    ensures
        r@ == expedition_seq(),
{
    expeditions()
}

/// `take` followed by any colour.
pub fn take_parser() -> (r: Alternative)
    ensures
        r matches Alternative::Take(es) && es@ == expedition_seq(),
{
    Alternative::Take(expedition_parser())
}

impl Game {
    /// `player` carries out `action`; a refused action leaves the game as it was.
    pub fn apply(&mut self, player: usize, action: Command) -> (r: Result<Vec<Log>, Error>)
        requires
            old(self).wf(),
        ensures
            final(self).wf(),
            r is Ok <==> action_error(*old(self), player as int, action) is None,
            r matches Err(e) ==> action_error(*old(self), player as int, action) == Some(e)
                && *final(self) == *old(self),
            r is Ok ==> applied(*old(self), *final(self), player as int, action),
    {
        match action {
            Command::Play(c) => self.play(player, c),
            Command::Discard(c) => self.discard(player, c),
            Command::Take(e) => self.take(player, e),
            Command::Draw => self.draw(player),
        }
    }

    /// Reads a command from `input` and carries it out for `player`.
    pub fn command(&mut self, player: usize, input: &str) -> (r: Result<CommandResponse, Error>)
        requires
            old(self).wf(),
        ensures
            final(self).wf(),
            r is Err ==> *final(self) == *old(self),
            match command_of(input@) {
                Err(e) => r == Err::<CommandResponse, Error>(Error::InvalidInput(Invalid::Parse(e))),
                Ok((c, n)) => {
                    &&& r is Ok <==> action_error(*old(self), player as int, c) is None
                    &&& r matches Err(e) ==> action_error(*old(self), player as int, c) == Some(e)
                    &&& r matches Ok(resp) ==> {
                        &&& applied(*old(self), *final(self), player as int, c)
                        &&& resp.remaining_input@ == input@.subrange(n, input@.len() as int)
                        &&& resp.can_undo == !(c is Draw)
                    }
                },
            },
    {
        let (c, rest) = match command(input) {
            Ok(parsed) => parsed,
            Err(e) => {
                return Err(Error::InvalidInput(Invalid::Parse(e)));
            },
        };
        let logs = self.apply(player, c)?;
        let can_undo = match c {
            Command::Draw => false,
            _ => true,
        };
        Ok(CommandResponse { logs, can_undo, remaining_input: rest.to_owned() })
    }

    /// Each distinct card of `player`'s hand once, in the order of cards.
    pub fn player_card_parser(&self, player: usize) -> (r: Vec<Card>)
        requires
            self.shaped(),
            player < PLAYERS,
        ensures
            distinct_cards_of(r@, self.hand(player as int)),
    {
        let h = &self.hands[player];
        let mut out: Vec<Card> = Vec::new();
        let mut i: usize = 0;
        while i < h.len()
            invariant
                h@ == self.hand(player as int),
                i <= h@.len(),
                distinct_cards_of(out@, h@.subrange(0, i as int)),
            decreases h@.len() - i,
        {
            let c = h[i];
            let ghost prev = h@.subrange(0, i as int);
            let ghost out0 = out@;
            assert(h@.subrange(0, i + 1) =~= prev.push(c));
            let j = sorted_position(&out, &c);
            if j == out.len() || !same_card(out[j], c) {
                out.insert(j, c);
                proof {
                    assert forall|x: int, y: int| 0 <= x < y < out@.len() implies card_less(
                        #[trigger] out@[x],
                        #[trigger] out@[y],
                    ) by {
                        if y < j {
                        } else if y == j {
                            assert(out@[x] == out0[x]);
                        } else if x == j {
                            assert(out@[y] == out0[y - 1]);
                            if y - 1 > j {
                                assert(card_less(out0[j as int], out0[y - 1]));
                            }
                        } else if x < j {
                            assert(out@[x] == out0[x] && out@[y] == out0[y - 1]);
                        } else {
                            assert(out@[x] == out0[x - 1] && out@[y] == out0[y - 1]);
                        }
                    }
                }
            }
            proof {
                assert forall|d: Card| out@.contains(d) <==> prev.push(c).contains(d) by {
                    if d == c {
                        assert(prev.push(c)[prev.len() as int] == c);
                        assert(out@[j as int] == c);
                    } else {
                        if out0.contains(d) {
                            let k = choose|k: int| 0 <= k < out0.len() && out0[k] == d;
                            if out@.len() > out0.len() {
                                if k < j {
                                    assert(out@[k] == d);
                                } else {
                                    assert(out@[k + 1] == d);
                                }
                            } else {
                                assert(out@[k] == d);
                            }
                        }
                        if out@.contains(d) {
                            let k = choose|k: int| 0 <= k < out@.len() && out@[k] == d;
                            if out@.len() > out0.len() {
                                if k < j {
                                    assert(out0[k] == d);
                                } else {
                                    assert(out0[k - 1] == d);
                                }
                            } else {
                                assert(out0[k] == d);
                            }
                        }
                        if prev.contains(d) {
                            let k = choose|k: int| 0 <= k < prev.len() && prev[k] == d;
                            assert(prev.push(c)[k] == d);
                        }
                        if prev.push(c).contains(d) {
                            let k = choose|k: int| 0 <= k < prev.push(c).len() && prev.push(c)[k] == d;
                            assert(prev[k] == d);
                        }
                    }
                }
            }
            i += 1;
        }
        assert(h@.subrange(0, h@.len() as int) =~= h@);
        out
    }

    /// `play` followed by a card of `player`'s hand.
    pub fn play_parser(&self, player: usize) -> (r: Alternative)
        requires
            self.shaped(),
            player < PLAYERS,
        ensures
            r matches Alternative::Play(cs) && distinct_cards_of(cs@, self.hand(player as int)),
    {
        Alternative::Play(self.player_card_parser(player))
    }

    /// `discard` followed by a card of `player`'s hand.
    pub fn discard_parser(&self, player: usize) -> (r: Alternative)
        requires
            self.shaped(),
            player < PLAYERS,
        ensures
            r matches Alternative::Discard(cs) && distinct_cards_of(cs@, self.hand(player as int)),
    {
        Alternative::Discard(self.player_card_parser(player))
    }

    /// The commands `player` may give now: none once the game is over or when
    /// it is not their turn; else those of the current phase.
    pub fn command_parser(&self, player: usize) -> (r: Option<CommandParser>)
        requires
            self.wf(),
        ensures
            r is None <==> self.finished() || player != self.current_player,
            r matches Some(p) ==> p.alternatives@.len() == 2,
            r matches Some(p) ==> self.phase == Phase::PlayOrDiscard ==> {
                &&& p.alternatives@[0] matches Alternative::Play(cs) && distinct_cards_of(cs@, self.hand(player as int))
                &&& p.alternatives@[1] matches Alternative::Discard(cs) && distinct_cards_of(cs@, self.hand(player as int))
            },
            r matches Some(p) ==> self.phase == Phase::DrawOrTake ==> {
                &&& p.alternatives@[0] == Alternative::Draw
                &&& p.alternatives@[1] matches Alternative::Take(es) && es@ == expedition_seq()
            },
    {
        if self.is_finished() || self.current_player != player {
            return None;
        }
        let alternatives = match self.phase {
            Phase::PlayOrDiscard => vec![self.play_parser(player), self.discard_parser(player)],
            Phase::DrawOrTake => vec![draw_parser(), take_parser()],
        };
        Some(CommandParser { alternatives })
    }
}

} // verus!
