//! What one participant may see of a game, and whether it is over.

use vstd::prelude::*;

use crate::card::{Card, expeditions, expedition_seq};
use crate::game::{Game, Phase, PLAYERS, leaders, last_card_of, top_card};

verus! {

/// How the game stands: whose turn it is, or who won.
#[derive(Debug, PartialEq, Eq)]
pub enum Status {
    Active { whose_turn: usize },
    Finished { winners: Vec<usize> },
}

/// A read-only view of a game for one player or a spectator: the opponent's
/// hand and the deck's order are never in it.
#[derive(Debug, PartialEq, Eq)]
pub struct PubState {
    pub player: Option<usize>,
    pub round: usize,
    pub is_finished: bool,
    pub phase: Phase,
    pub deck_remaining: usize,
    /// The most recent discard of each colour that has one, in colour order.
    pub discards: Vec<Card>,
    pub hand: Option<Vec<Card>>,
    pub scores: Vec<Vec<isize>>,
    pub expeditions: Vec<Vec<Card>>,
    pub current_player: usize,
}

/// The most recent discard of each of the first `k` colours that has one.
pub open spec fn tops_upto(ds: Seq<Card>, k: nat) -> Seq<Card>
    decreases k,
{
    if k == 0 {
        Seq::empty()
    } else {
        tops_upto(ds, (k - 1) as nat) + match last_card_of(ds, expedition_seq()[k - 1]) {
            Some(c) => seq![c],
            None => Seq::empty(),
        }
    }
}

pub open spec fn tops(ds: Seq<Card>) -> Seq<Card> {
    tops_upto(ds, 5)
}

/// A copy of a sequence of cards.
fn copy_cards(v: &Vec<Card>) -> (r: Vec<Card>)
    ensures
        r@ == v@,
{
    let mut out: Vec<Card> = Vec::new();
    let mut i: usize = 0;
    while i < v.len()
        invariant
            i <= v@.len(),
            out@ == v@.subrange(0, i as int),
        decreases v@.len() - i,
    {
        out.push(v[i]);
        i += 1;
        assert(out@ =~= v@.subrange(0, i as int));
    }
    assert(out@ =~= v@);
    out
}

fn copy_scores(v: &Vec<isize>) -> (r: Vec<isize>)
    ensures
        r@ == v@,
{
    let mut out: Vec<isize> = Vec::new();
    let mut i: usize = 0;
    while i < v.len()
        invariant
            i <= v@.len(),
            out@ == v@.subrange(0, i as int),
        decreases v@.len() - i,
    {
        out.push(v[i]);
        i += 1;
        assert(out@ =~= v@.subrange(0, i as int));
    }
    assert(out@ =~= v@);
    out
}

impl Game {
    /// Whose turn it is, or, once the game is over, who won.
    pub fn status(&self) -> (r: Status)
        requires
            self.wf(),
        ensures
            !self.finished() ==> r == (Status::Active { whose_turn: self.current_player }),
            self.finished() ==> (r matches Status::Finished { winners } && winners@ == leaders(
                self.total(0),
                self.total(1),
            )),
    {
        if self.is_finished() {
            Status::Finished { winners: self.winners() }
        } else {
            Status::Active { whose_turn: self.current_player }
        }
    }

    /// The view of the game for `player`, or for a spectator when `player`
    /// names nobody in the game.
    pub fn pub_state(&self, player: Option<usize>) -> (r: PubState)
        requires
            self.wf(),
        ensures
            r.player == (match player {
                Some(p) => if p < PLAYERS { Some(p) } else { None },
                None => None,
            }),
            r.round == self.round,
            r.is_finished == self.finished(),
            r.phase == self.phase,
            r.deck_remaining == self.deck@.len(),
            r.discards@ == tops(self.discards@),
            match r.player {
                Some(p) => r.hand matches Some(h) && h@ == self.hand(p as int),
                None => r.hand is None,
            },
            r.scores@.len() == PLAYERS,
            r.expeditions@.len() == PLAYERS,
            forall|p: int| 0 <= p < 2 ==> (#[trigger] r.scores@[p])@ == self.scores@[p]@,
            forall|p: int| 0 <= p < 2 ==> (#[trigger] r.expeditions@[p])@ == self.pile(p),
            r.current_player == self.current_player,
    {
        let viewer = match player {
            Some(p) => if p < PLAYERS {
                Some(p)
            } else {
                None
            },
            None => None,
        };
        let es = expeditions();
        let mut discards: Vec<Card> = Vec::new();
        let mut k: usize = 0;
        while k < es.len()
            invariant
                es@ == expedition_seq(),
                k <= 5,
                discards@ == tops_upto(self.discards@, k as nat),
            decreases 5 - k,
        {
            match top_card(&self.discards, es[k]) {
                Some(c) => discards.push(c),
                None => {},
            }
            k += 1;
            assert(discards@ =~= tops_upto(self.discards@, k as nat));
        }
        let hand = match viewer {
            Some(p) => Some(copy_cards(&self.hands[p])),
            None => None,
        };
        let scores = vec![copy_scores(&self.scores[0]), copy_scores(&self.scores[1])];
        let piles = vec![copy_cards(&self.expeditions[0]), copy_cards(&self.expeditions[1])];
        PubState {
            player: viewer,
            round: self.round,
            is_finished: self.is_finished(),
            phase: self.phase,
            deck_remaining: self.deck.len(),
            discards,
            hand,
            scores,
            expeditions: piles,
            current_player: self.current_player,
        }
    }
}

impl PubState {
    pub open spec fn total(self, player: int) -> int {
        crate::game::sum_scores(self.scores@[player]@)
    }

    /// Sum of `player`'s round scores in this view; zero for a player not in
    /// the game.
    pub fn player_score(&self, player: usize) -> (r: isize)
        requires
            forall|p: int, i: int|
                0 <= p < self.scores@.len() && 0 <= i < self.scores@[p]@.len() ==> -6100 <= #[trigger] self.scores@[p]@[i] <= 177000,
            forall|p: int| 0 <= p < self.scores@.len() ==> (#[trigger] self.scores@[p])@.len() <= 3,
        ensures
            player < self.scores@.len() ==> r == self.total(player as int),
            player >= self.scores@.len() ==> r == 0,
    {
        if player >= self.scores.len() {
            return 0;
        }
        let s = &self.scores[player];
        let mut total: isize = 0;
        let mut i: usize = 0;
        while i < s.len()
            invariant
                s@ == self.scores@[player as int]@,
                s@.len() <= 3,
                player < self.scores@.len(),
                forall|j: int| 0 <= j < s@.len() ==> -6100 <= #[trigger] s@[j] <= 177000,
                i <= s@.len(),
                total == crate::game::sum_scores(s@.subrange(0, i as int)),
                -6100 * i <= total <= 177000 * i,
            decreases s@.len() - i,
        {
            assert(s@.subrange(0, i + 1).drop_last() =~= s@.subrange(0, i as int));
            total = total + s[i];
            i += 1;
        }
        assert(s@.subrange(0, s@.len() as int) =~= s@);
        total
    }
}

} // verus!
