//! Game state and the turn engine.

use vstd::multiset::Multiset;
use vstd::prelude::*;
use rand::seq::SliceRandom;

use crate::card::{Card, Expedition, Value, expeditions, expedition_seq, valid_cards, valid_value, DECK_SIZE, MIN_VALUE, MAX_VALUE};
use crate::error::{Error, Invalid};
use crate::log::{Event, Log};
use crate::score::{score, score_of};

verus! {

broadcast use vstd::multiset::group_multiset_axioms, vstd::seq_lib::group_to_multiset_ensures;

/// Investment cards of each colour.
pub const INVESTMENTS: usize = 3;

/// Rounds in a game.
pub const ROUNDS: usize = 3;

/// Number of the first round.
pub const START_ROUND: usize = 1;

/// Players in a game.
pub const PLAYERS: usize = 2;

/// Cards a player holds after drawing.
pub const HAND_SIZE: usize = 8;

/// Which actions the current player may take.
#[derive(Clone, Copy, PartialEq, Eq, Structural, Debug)]
pub enum Phase {
    PlayOrDiscard,
    DrawOrTake,
}

impl Default for Phase {
    fn default() -> (r: Phase)
        ensures
            r == Phase::PlayOrDiscard,
    {
        Phase::PlayOrDiscard
    }
}

/// Per-player counters kept for reporting after the game.
#[derive(Clone, Copy, PartialEq, Eq, Structural, Debug)]
pub struct Stats {
    pub plays: usize,
    pub discards: usize,
    pub takes: usize,
    pub draws: usize,
    pub turns: usize,
    pub investments: usize,
    pub expeditions: usize,
}

pub open spec fn zero_stats() -> Stats {
    Stats { plays: 0, discards: 0, takes: 0, draws: 0, turns: 0, investments: 0, expeditions: 0 }
}

impl Default for Stats {
    fn default() -> (r: Stats)
        ensures
            r == zero_stats(),
    {
        Stats { plays: 0, discards: 0, takes: 0, draws: 0, turns: 0, investments: 0, expeditions: 0 }
    }
}

/// The whole state of a match.
#[derive(Clone, Debug, PartialEq, Eq)]
pub struct Game {
    pub round: usize,
    pub phase: Phase,
    pub deck: Vec<Card>,
    pub discards: Vec<Card>,
    pub hands: Vec<Vec<Card>>,
    pub scores: Vec<Vec<isize>>,
    pub expeditions: Vec<Vec<Card>>,
    pub current_player: usize,
    /// The player who started the current round.
    pub starting_player: usize,
    pub discarded_expedition: Option<Expedition>,
    pub stats: Vec<Stats>,
}

/// The cards of one colour in the order the deck builder lays them out:
/// the investments, then the ranks from lowest to highest.
pub open spec fn color_deck(e: Expedition) -> Seq<Card> {
    Seq::new(INVESTMENTS as nat, |i: int| (e, Value::Investment))
        + Seq::new((MAX_VALUE - MIN_VALUE + 1) as nat, |i: int| (e, Value::N((i + MIN_VALUE) as usize)))
}

/// The first `k` colours' cards, in canonical colour order.
pub open spec fn deck_upto(k: nat) -> Seq<Card>
    decreases k,
{
    if k == 0 {
        Seq::empty()
    } else {
        deck_upto((k - 1) as nat) + color_deck(expedition_seq()[k - 1])
    }
}

/// The full, unshuffled deck.
pub open spec fn full_deck() -> Seq<Card> {
    deck_upto(5)
}

/// Sum of a player's per-round scores.
pub open spec fn sum_scores(s: Seq<isize>) -> int
    decreases s.len(),
{
    if s.len() == 0 {
        0
    } else {
        sum_scores(s.drop_last()) + s.last()
    }
}

/// Bounds that every round score meets.
pub open spec fn round_score_bounded(x: int) -> bool {
    -6100 <= x <= 177000
}

/// The numbered cards of a pile rise within each colour, and no investment
/// follows a numbered card of its colour.
pub open spec fn ordered_pile(pile: Seq<Card>) -> bool {
    forall|i: int, j: int|
        0 <= i < j < pile.len() && (#[trigger] pile[i]).0 == (#[trigger] pile[j]).0 ==> match (
            pile[i].1,
            pile[j].1,
        ) {
            (Value::N(a), Value::N(b)) => a < b,
            (Value::N(_), Value::Investment) => false,
            _ => true,
        }
}

/// Whether `c` may be played onto `pile`: an investment only while no
/// numbered card of its colour lies there, a numbered card only above every
/// numbered card of its colour there.
pub open spec fn playable(pile: Seq<Card>, c: Card) -> bool {
    forall|i: int|
        0 <= i < pile.len() && (#[trigger] pile[i]).0 == c.0 ==> match (pile[i].1, c.1) {
            (Value::N(a), Value::N(b)) => a < b,
            (Value::N(_), Value::Investment) => false,
            _ => true,
        }
}

/// Which player starts a round: in the first round the current player; later
/// the player ahead on total score, and on a tie the player who did not start
/// the previous round.
pub open spec fn round_starter(round: int, prev_starter: int, current: int, t0: int, t1: int) -> int {
    if round <= START_ROUND {
        current
    } else if t0 > t1 {
        0
    } else if t1 > t0 {
        1
    } else {
        1 - prev_starter
    }
}

impl Game {
    pub open spec fn hand(self, p: int) -> Seq<Card> {
        self.hands@[p]@
    }

    pub open spec fn pile(self, p: int) -> Seq<Card> {
        self.expeditions@[p]@
    }

    pub open spec fn total(self, p: int) -> int {
        sum_scores(self.scores@[p]@)
    }

    pub open spec fn finished(self) -> bool {
        self.round >= START_ROUND + ROUNDS
    }

    /// Every card of the game, wherever it lies.
    pub open spec fn cards(self) -> Multiset<Card> {
        self.deck@.to_multiset().add(self.discards@.to_multiset()).add(
            self.hand(0).to_multiset(),
        ).add(self.hand(1).to_multiset()).add(self.pile(0).to_multiset()).add(
            self.pile(1).to_multiset(),
        )
    }

    /// Number of cards, wherever they lie.
    pub open spec fn card_count(self) -> nat {
        self.deck@.len() + self.discards@.len() + self.hand(0).len() + self.hand(1).len()
            + self.pile(0).len() + self.pile(1).len()
    }

    /// The shape of the state: one entry per player in each per-player list.
    pub open spec fn shaped(self) -> bool {
        &&& self.hands@.len() == PLAYERS
        &&& self.expeditions@.len() == PLAYERS
        &&& self.scores@.len() == PLAYERS
        &&& self.stats@.len() == PLAYERS
        &&& self.current_player < PLAYERS
        &&& self.starting_player < PLAYERS
    }

    /// The invariant that every reachable state keeps.
    pub open spec fn wf(self) -> bool {
        &&& self.cards_wf()
        &&& !self.finished() && self.phase == Phase::DrawOrTake ==> self.hand(
            self.current_player as int,
        ).len() < HAND_SIZE
    }

    /// The invariant on where the cards lie, which holds also in the middle
    /// of a draw.
    pub open spec fn cards_wf(self) -> bool {
        &&& self.shaped()
        &&& self.scores_ok()
        &&& self.cards() == full_deck().to_multiset()
        &&& valid_cards(self.deck@)
        &&& valid_cards(self.discards@)
        &&& forall|p: int| 0 <= p < 2 ==> valid_cards(#[trigger] self.hand(p))
        &&& forall|p: int| 0 <= p < 2 ==> valid_cards(#[trigger] self.pile(p))
        &&& forall|p: int| 0 <= p < 2 ==> (#[trigger] self.hand(p)).len() <= HAND_SIZE
        &&& forall|p: int| 0 <= p < 2 ==> ordered_pile(#[trigger] self.pile(p))
    }
}

/// The full deck in canonical order: for each colour its investments, then
/// one card of each rank.
pub fn initial_deck() -> (r: Vec<Card>)
    ensures
        r@ == full_deck(),
{
    let es = expeditions();
    let mut deck: Vec<Card> = Vec::new();
    let mut k: usize = 0;
    while k < es.len()
        invariant
            es@ == expedition_seq(),
            k <= 5,
            deck@ == deck_upto(k as nat),
        decreases 5 - k,
    {
        let e = es[k];
        let ghost base = deck@;
        let mut j: usize = 0;
        while j < INVESTMENTS
            invariant
                j <= INVESTMENTS,
                deck@ == base + Seq::new(j as nat, |i: int| (e, Value::Investment)),
            decreases INVESTMENTS - j,
        {
            deck.push((e, Value::Investment));
            j += 1;
            assert(deck@ =~= base + Seq::new(j as nat, |i: int| (e, Value::Investment)));
        }
        let ghost invs = deck@;
        let mut v: usize = MIN_VALUE;
        while v < MAX_VALUE + 1
            invariant
                MIN_VALUE <= v <= MAX_VALUE + 1,
                deck@ == invs + Seq::new((v - MIN_VALUE) as nat, |i: int| (e, Value::N((i + MIN_VALUE) as usize))),
            decreases MAX_VALUE + 1 - v,
        {
            deck.push((e, Value::N(v)));
            v += 1;
            assert(deck@ =~= invs + Seq::new((v - MIN_VALUE) as nat, |i: int| (e, Value::N((i + MIN_VALUE) as usize))));
        }
        assert(deck@ =~= deck_upto(k as nat) + color_deck(e));
        k += 1;
    }
    deck
}

/// Relies on rand's `SliceRandom::shuffle` with the thread-local generator:
/// it only swaps elements of the slice, so the cards come out permuted.
#[verifier::external_body]
fn shuffle(deck: &mut Vec<Card>)
    ensures
        final(deck)@.to_multiset() == old(deck)@.to_multiset(),
{
    deck.shuffle(&mut rand::thread_rng());
}

/// The full deck holds sixty valid cards.
pub proof fn lemma_full_deck()
    ensures
        full_deck().len() == DECK_SIZE,
        valid_cards(full_deck()),
{
    lemma_deck_upto(5);
}

proof fn lemma_deck_upto(k: nat)
    requires
        k <= 5,
    ensures
        deck_upto(k).len() == 12 * k,
        valid_cards(deck_upto(k)),
    decreases k,
{
    if k > 0 {
        lemma_deck_upto((k - 1) as nat);
        let a = deck_upto((k - 1) as nat);
        let b = color_deck(expedition_seq()[k - 1]);
        assert forall|i: int| 0 <= i < (a + b).len() implies valid_value(#[trigger] (a + b)[i].1) by {
            if i >= a.len() {
                assert((a + b)[i] == b[i - a.len()]);
            }
        }
    }
}

/// A permutation of valid cards holds valid cards only.
pub proof fn lemma_permuted_valid(s: Seq<Card>, t: Seq<Card>)
    requires
        s.to_multiset() == t.to_multiset(),
        valid_cards(t),
    ensures
        valid_cards(s),
{
    assert forall|i: int| 0 <= i < s.len() implies valid_value(#[trigger] s[i].1) by {
        assert(s.contains(s[i]));
        assert(t.to_multiset().count(s[i]) > 0);
        assert(t.contains(s[i]));
        let j = choose|j: int| 0 <= j < t.len() && t[j] == s[i];
        assert(valid_value(t[j].1));
    }
}

/// The player who is not `player`.
pub fn opponent(player: usize) -> (r: usize)
    requires
        player < PLAYERS,
    ensures
        r == 1 - player,
{
    (player + 1) % 2
}

impl Game {
    /// Moves cards from the front of the deck into `player`'s hand until the
    /// hand is full or the deck is empty.
    fn draw_cards(&mut self, player: usize) -> (logs: Vec<Log>)
        requires
            old(self).hands@.len() == PLAYERS,
            player < PLAYERS,
            old(self).hand(player as int).len() <= HAND_SIZE,
        ensures
            ({
                let n = Game::refill_count(*old(self), player as int);
                &&& final(self).hand(player as int) == old(self).hand(player as int)
                    + old(self).deck@.subrange(0, n)
                &&& final(self).deck@ == old(self).deck@.subrange(n, old(self).deck@.len() as int)
            }),
            final(self).hands@.len() == PLAYERS,
            final(self).hand(1 - player) == old(self).hand(1 - player),
            final(self).cards() == old(self).cards(),
            valid_cards(old(self).deck@) && valid_cards(old(self).hand(player as int)) ==> valid_cards(
                final(self).deck@,
            ) && valid_cards(final(self).hand(player as int)),
            final(self).discards == old(self).discards,
            final(self).expeditions == old(self).expeditions,
            final(self).scores == old(self).scores,
            final(self).stats == old(self).stats,
            final(self).round == old(self).round,
            final(self).phase == old(self).phase,
            final(self).current_player == old(self).current_player,
            final(self).starting_player == old(self).starting_player,
            final(self).discarded_expedition == old(self).discarded_expedition,
    {
        let ghost g0 = *self;
        let ghost other = 1 - player;
        let mut num: usize = HAND_SIZE - self.hands[player].len();
        if num > self.deck.len() {
            num = self.deck.len();
        }
        let mut drawn: Vec<Card> = Vec::new();
        let mut k: usize = 0;
        while k < num
            invariant
                self.hands@.len() == PLAYERS,
                player < PLAYERS,
                other == 1 - player,
                k <= num,
                num == Game::refill_count(g0, player as int),
                num <= g0.deck@.len(),
                drawn@ == g0.deck@.subrange(0, k as int),
                self.hand(player as int) == g0.hand(player as int) + drawn@,
                self.deck@ == g0.deck@.subrange(k as int, g0.deck@.len() as int),
                self.hand(other) == g0.hand(other),
                self.cards() == g0.cards(),
                self.discards == g0.discards,
                self.expeditions == g0.expeditions,
                self.scores == g0.scores,
                self.stats == g0.stats,
                self.round == g0.round,
                self.phase == g0.phase,
                self.current_player == g0.current_player,
                self.starting_player == g0.starting_player,
                self.discarded_expedition == g0.discarded_expedition,
            decreases num - k,
        {
            let ghost before = *self;
            let c = self.deck.remove(0);
            self.hands[player].push(c);
            drawn.push(c);
            k += 1;
            proof {
                assert(drawn@ =~= g0.deck@.subrange(0, k as int));
                assert(self.hand(player as int) =~= g0.hand(player as int) + drawn@);
                assert(self.deck@ =~= g0.deck@.subrange(k as int, g0.deck@.len() as int));
                assert(self.hand(other) == before.hand(other));
                assert(self.cards() =~= before.cards());
            }
        }
        proof {
            if valid_cards(g0.deck@) && valid_cards(g0.hand(player as int)) {
                let h = self.hand(player as int);
                let h0 = g0.hand(player as int);
                assert forall|i: int| 0 <= i < h.len() implies valid_value(#[trigger] h[i].1) by {
                    if i >= h0.len() {
                        assert(h[i] == g0.deck@[i - h0.len()]);
                    }
                }
                assert forall|i: int| 0 <= i < self.deck@.len() implies valid_value(
                    #[trigger] self.deck@[i].1,
                ) by {
                    assert(self.deck@[i] == g0.deck@[i + num]);
                }
            }
        }
        let remaining = self.deck.len();
        vec![
            Log::Public(Event::Drew { player, count: num, remaining }),
            Log::Private { player, event: Event::DrewCards { player, cards: drawn } },
        ]
    }

    /// How many cards a refill of `p`'s hand takes from the deck.
    pub open spec fn refill_count(self, p: int) -> int {
        let want = HAND_SIZE - self.hand(p).len();
        if want > self.deck@.len() {
            self.deck@.len() as int
        } else {
            want
        }
    }

    /// Sum of `player`'s round scores so far.
    pub fn player_score(&self, player: usize) -> (r: isize)
        requires
            self.shaped(),
            self.scores_ok(),
            player < PLAYERS,
        ensures
            r == self.total(player as int),
    {
        let s = &self.scores[player];
        let mut total: isize = 0;
        let mut i: usize = 0;
        while i < s.len()
            invariant
                s@ == self.scores@[player as int]@,
                s@.len() <= ROUNDS,
                self.scores_ok(),
                player < PLAYERS,
                i <= s@.len(),
                total == sum_scores(s@.subrange(0, i as int)),
                -6100 * i <= total <= 177000 * i,
            decreases s@.len() - i,
        {
            assert(s@.subrange(0, i + 1).drop_last() =~= s@.subrange(0, i as int));
            assert(round_score_bounded(s@[i as int] as int));
            total = total + s[i];
            i += 1;
        }
        assert(s@.subrange(0, s@.len() as int) =~= s@);
        total
    }

    fn start_turn(&mut self)
        ensures
            *final(self) == (Game {
                phase: Phase::PlayOrDiscard,
                discarded_expedition: None,
                ..*old(self)
            }),
    {
        self.phase = Phase::PlayOrDiscard;
        self.discarded_expedition = None;
    }

    /// The per-player score facts of a well-formed state, for a state whose
    /// cards are about to be dealt afresh.
    pub open spec fn scores_ok(self) -> bool {
        &&& START_ROUND <= self.round <= START_ROUND + ROUNDS
        &&& forall|p: int|
            0 <= p < 2 ==> (#[trigger] self.scores@[p])@.len() == self.round - START_ROUND
        &&& forall|p: int, i: int|
            0 <= p < 2 && 0 <= i < self.scores@[p]@.len() ==> round_score_bounded(
                #[trigger] self.scores@[p]@[i] as int,
            )
    }

    /// Deals a fresh round: a shuffled full deck, no discards, empty piles and
    /// a full hand for each player, and picks the player who starts.
    fn start_round(&mut self) -> (logs: Vec<Log>)
        requires
            old(self).shaped(),
            old(self).scores_ok(),
            old(self).round < START_ROUND + ROUNDS,
        ensures
            final(self).wf(),
            final(self).round == old(self).round,
            final(self).scores == old(self).scores,
            final(self).stats == old(self).stats,
            final(self).discards@.len() == 0,
            final(self).pile(0).len() == 0,
            final(self).pile(1).len() == 0,
            final(self).hand(0).len() == HAND_SIZE,
            final(self).hand(1).len() == HAND_SIZE,
            final(self).deck@.len() == DECK_SIZE - 2 * HAND_SIZE,
            final(self).phase == Phase::PlayOrDiscard,
            final(self).discarded_expedition == None::<Expedition>,
            final(self).current_player == round_starter(
                old(self).round as int,
                old(self).starting_player as int,
                old(self).current_player as int,
                old(self).total(0),
                old(self).total(1),
            ),
            final(self).starting_player == final(self).current_player,
    {
        let ghost g0 = *self;
        let mut logs: Vec<Log> = vec![Log::Public(Event::RoundStarted { round: self.round })];
        let mut deck = initial_deck();
        shuffle(&mut deck);
        proof {
            lemma_full_deck();
            lemma_permuted_valid(deck@, full_deck());
        }
        self.deck = deck;
        self.discards = Vec::new();
        self.hands = vec![Vec::new(), Vec::new()];
        self.expeditions = vec![Vec::new(), Vec::new()];
        proof {
            assert(self.deck@.len() == self.deck@.to_multiset().len());
            assert(self.deck@.len() == DECK_SIZE);
            assert(self.hand(0).len() == 0 && self.hand(1).len() == 0);
            assert(self.pile(0).len() == 0 && self.pile(1).len() == 0);
            assert(self.cards() =~= full_deck().to_multiset());
        }
        let mut l0 = self.draw_cards(0);
        logs.append(&mut l0);
        let mut l1 = self.draw_cards(1);
        logs.append(&mut l1);
        if self.round > START_ROUND {
            let t0 = self.player_score(0);
            let t1 = self.player_score(1);
            self.current_player = if t0 == t1 {
                opponent(self.starting_player)
            } else if t0 > t1 {
                0
            } else {
                1
            };
        }
        self.starting_player = self.current_player;
        self.start_turn();
        logs
    }
}

/// The refusal owed by an action of `player` that belongs to `phase`, before
/// anything particular to the action is looked at.
pub open spec fn turn_error(g: Game, player: int, phase: Phase) -> Option<Error> {
    if g.finished() {
        Some(Error::InvalidInput(Invalid::Finished))
    } else if player != g.current_player {
        Some(Error::InvalidInput(Invalid::NotYourTurn))
    } else if g.phase != phase {
        Some(Error::InvalidInput(Invalid::WrongPhase))
    } else {
        None
    }
}

/// `new` is `old` with its first occurrence of `c` taken out.
pub open spec fn removed_first(old: Seq<Card>, new: Seq<Card>, c: Card) -> bool {
    exists|i: int|
        0 <= i < old.len() && old[i] == c && (forall|k: int| 0 <= k < i ==> old[k] != c)
            && new == old.remove(i)
}

/// `i` is the position of the most recent card of colour `e` in `ds`.
pub open spec fn last_of_color(ds: Seq<Card>, e: Expedition, i: int) -> bool {
    &&& 0 <= i < ds.len()
    &&& ds[i].0 == e
    &&& forall|k: int| i < k < ds.len() ==> ds[k].0 != e
}

pub open spec fn has_color(ds: Seq<Card>, e: Expedition) -> bool {
    exists|i: int| 0 <= i < ds.len() && ds[i].0 == e
}

/// The last card of colour `e` in `ds`.
pub open spec fn last_card_of(ds: Seq<Card>, e: Expedition) -> Option<Card>
    decreases ds.len(),
{
    if ds.len() == 0 {
        None
    } else if ds.last().0 == e {
        Some(ds.last())
    } else {
        last_card_of(ds.drop_last(), e)
    }
}

/// The last card of colour `e` in `ds`.
pub fn top_card(ds: &Vec<Card>, e: Expedition) -> (r: Option<Card>)
    ensures
        r == last_card_of(ds@, e),
{
    let mut i: usize = ds.len();
    assert(ds@.subrange(0, i as int) =~= ds@);
    while i > 0
        invariant
            i <= ds@.len(),
            last_card_of(ds@, e) == last_card_of(ds@.subrange(0, i as int), e),
        decreases i,
    {
        assert(ds@.subrange(0, i as int).drop_last() =~= ds@.subrange(0, i - 1));
        if ds[i - 1].0 == e {
            return Some(ds[i - 1]);
        }
        i -= 1;
    }
    assert(ds@.subrange(0, 0) =~= Seq::<Card>::empty());
    None
}

/// The refusal owed by `play`, if any.
pub open spec fn play_error(g: Game, player: int, c: Card) -> Option<Error> {
    match turn_error(g, player, Phase::PlayOrDiscard) {
        Some(e) => Some(e),
        None => if !g.hand(player).contains(c) {
            Some(Error::InvalidInput(Invalid::NoSuchCard(c)))
        } else if !playable(g.pile(player), c) {
            Some(Error::InvalidInput(Invalid::HigherCardPlayed(c)))
        } else {
            None
        },
    }
}

/// The refusal owed by `discard`, if any.
pub open spec fn discard_error(g: Game, player: int, c: Card) -> Option<Error> {
    match turn_error(g, player, Phase::PlayOrDiscard) {
        Some(e) => Some(e),
        None => if !g.hand(player).contains(c) {
            Some(Error::InvalidInput(Invalid::NoSuchCard(c)))
        } else {
            None
        },
    }
}

/// The refusal owed by `take`, if any.
pub open spec fn take_error(g: Game, player: int, e: Expedition) -> Option<Error> {
    match turn_error(g, player, Phase::DrawOrTake) {
        Some(err) => Some(err),
        None => if g.discarded_expedition == Some(e) {
            Some(Error::InvalidInput(Invalid::JustDiscarded(e)))
        } else if !has_color(g.discards@, e) {
            Some(Error::InvalidInput(Invalid::NoDiscard(e)))
        } else {
            None
        },
    }
}

pub open spec fn bump_play(s: Stats, first: bool) -> Stats {
    Stats {
        plays: s.plays.saturating_add(1),
        expeditions: if first { s.expeditions.saturating_add(1) } else { s.expeditions },
        ..s
    }
}

pub open spec fn bump_discard(s: Stats) -> Stats {
    Stats { discards: s.discards.saturating_add(1), ..s }
}

pub open spec fn bump_take(s: Stats) -> Stats {
    Stats { takes: s.takes.saturating_add(1), turns: s.turns.saturating_add(1), ..s }
}

pub open spec fn bump_draw(s: Stats) -> Stats {
    Stats { draws: s.draws.saturating_add(1), turns: s.turns.saturating_add(1), ..s }
}

/// `g1` is `g0` after the current player's turn passed to the other player.
pub open spec fn passed_turn(g0: Game, g1: Game) -> bool {
    &&& g1.current_player == 1 - g0.current_player
    &&& g1.phase == Phase::PlayOrDiscard
    &&& g1.discarded_expedition == None::<Expedition>
}

/// `g1` is `g0` after `player` moved card `c` from the hand to their pile.
pub open spec fn played(g0: Game, g1: Game, player: int, c: Card) -> bool {
    &&& g1.shaped()
    &&& removed_first(g0.hand(player), g1.hand(player), c)
    &&& g1.pile(player) == g0.pile(player).push(c)
    &&& g1.hand(1 - player) == g0.hand(1 - player)
    &&& g1.pile(1 - player) == g0.pile(1 - player)
    &&& g1.deck == g0.deck
    &&& g1.discards == g0.discards
    &&& g1.scores == g0.scores
    &&& g1.round == g0.round
    &&& g1.current_player == g0.current_player
    &&& g1.phase == Phase::DrawOrTake
    &&& g1.discarded_expedition == g0.discarded_expedition
    &&& g1.stats@ == g0.stats@.update(player, bump_play(g0.stats@[player], g0.pile(player).len() == 0))
}

/// `g1` is `g0` after `player` moved card `c` from the hand to the discards.
pub open spec fn discarded(g0: Game, g1: Game, player: int, c: Card) -> bool {
    &&& g1.shaped()
    &&& removed_first(g0.hand(player), g1.hand(player), c)
    &&& g1.discards@ == g0.discards@.push(c)
    &&& g1.hand(1 - player) == g0.hand(1 - player)
    &&& g1.expeditions == g0.expeditions
    &&& g1.deck == g0.deck
    &&& g1.scores == g0.scores
    &&& g1.round == g0.round
    &&& g1.current_player == g0.current_player
    &&& g1.phase == Phase::DrawOrTake
    &&& g1.discarded_expedition == Some(c.0)
    &&& g1.stats@ == g0.stats@.update(player, bump_discard(g0.stats@[player]))
}

/// `g1` is `g0` after `player` took the most recent discard of colour `e`.
pub open spec fn took(g0: Game, g1: Game, player: int, e: Expedition) -> bool {
    &&& g1.shaped()
    &&& exists|i: int|
        last_of_color(g0.discards@, e, i) && g1.discards@ == g0.discards@.remove(i) && g1.hand(
            player,
        ) == g0.hand(player).push(g0.discards@[i])
    &&& g1.hand(1 - player) == g0.hand(1 - player)
    &&& g1.expeditions == g0.expeditions
    &&& g1.deck == g0.deck
    &&& g1.scores == g0.scores
    &&& g1.round == g0.round
    &&& passed_turn(g0, g1)
    &&& g1.stats@ == g0.stats@.update(player, bump_take(g0.stats@[player]))
}

impl Game {
    pub fn is_finished(&self) -> (r: bool)
        ensures
            r == self.finished(),
    {
        self.round >= START_ROUND + ROUNDS
    }

    fn check_turn(&self, player: usize, phase: Phase) -> (r: Result<(), Error>)
        ensures
            r is Ok <==> turn_error(*self, player as int, phase) is None,
            r matches Err(e) ==> turn_error(*self, player as int, phase) == Some(e),
    {
        if self.is_finished() {
            Err(Error::InvalidInput(Invalid::Finished))
        } else if player != self.current_player {
            Err(Error::InvalidInput(Invalid::NotYourTurn))
        } else if self.phase != phase {
            Err(Error::InvalidInput(Invalid::WrongPhase))
        } else {
            Ok(())
        }
    }

    /// Position of the first copy of `c` in `player`'s hand.
    fn hand_position(&self, player: usize, c: Card) -> (r: Option<usize>)
        requires
            self.shaped(),
            player < PLAYERS,
        ensures
            r is None <==> !self.hand(player as int).contains(c),
            r matches Some(i) ==> i < self.hand(player as int).len() && self.hand(player as int)[i as int] == c
                && forall|k: int| 0 <= k < i ==> self.hand(player as int)[k] != c,
    {
        let h = &self.hands[player];
        let mut i: usize = 0;
        while i < h.len()
            invariant
                h@ == self.hand(player as int),
                i <= h@.len(),
                forall|k: int| 0 <= k < i ==> h@[k] != c,
            decreases h@.len() - i,
        {
            if h[i].0 == c.0 && h[i].1 == c.1 {
                return Some(i);
            }
            i += 1;
        }
        None
    }

    /// Whether `player` holds `c`.
    fn assert_has_card(&self, player: usize, c: Card) -> (r: Result<(), Error>)
        requires
            self.shaped(),
            player < PLAYERS,
        ensures
            r is Ok <==> self.hand(player as int).contains(c),
            r matches Err(e) ==> e == Error::InvalidInput(Invalid::NoSuchCard(c)),
    {
        match self.hand_position(player, c) {
            Some(_) => Ok(()),
            None => Err(Error::InvalidInput(Invalid::NoSuchCard(c))),
        }
    }

    /// Takes the first copy of `c` out of `player`'s hand.
    pub fn remove_player_card(&mut self, player: usize, c: Card) -> (r: Result<(), Error>)
        requires
            old(self).shaped(),
            player < PLAYERS,
        ensures
            r is Ok <==> old(self).hand(player as int).contains(c),
            r matches Err(e) ==> e == Error::InvalidInput(Invalid::NoSuchCard(c)) && *final(self) == *old(self),
            r is Ok ==> removed_first(old(self).hand(player as int), final(self).hand(player as int), c),
            final(self).hands@.len() == PLAYERS,
            final(self).hand(1 - player) == old(self).hand(1 - player),
            final(self).deck == old(self).deck,
            final(self).discards == old(self).discards,
            final(self).expeditions == old(self).expeditions,
            final(self).scores == old(self).scores,
            final(self).stats == old(self).stats,
            final(self).round == old(self).round,
            final(self).phase == old(self).phase,
            final(self).current_player == old(self).current_player,
            final(self).starting_player == old(self).starting_player,
            final(self).discarded_expedition == old(self).discarded_expedition,
    {
        match self.hand_position(player, c) {
            Some(i) => {
                let ghost h0 = self.hand(player as int);
                self.hands[player].remove(i);
                assert(removed_first(h0, self.hand(player as int), c));
                Ok(())
            },
            None => Err(Error::InvalidInput(Invalid::NoSuchCard(c))),
        }
    }

    /// The most recent discard of colour `expedition`, the one `take` would take.
    pub fn available_discard(&self, expedition: Expedition) -> (r: Option<Card>)
        ensures
            r == last_card_of(self.discards@, expedition),
    {
        top_card(&self.discards, expedition)
    }

    fn last_discard_position(&self, expedition: Expedition) -> (r: Option<usize>)
        ensures
            r is None <==> !has_color(self.discards@, expedition),
            r matches Some(i) ==> last_of_color(self.discards@, expedition, i as int),
    {
        let mut i: usize = self.discards.len();
        while i > 0
            invariant
                i <= self.discards@.len(),
                forall|k: int| i <= k < self.discards@.len() ==> self.discards@[k].0 != expedition,
            decreases i,
        {
            i -= 1;
            if self.discards[i].0 == expedition {
                return Some(i);
            }
        }
        None
    }
}

/// In every reachable state, within each player's pile and each colour, the
/// numbered cards rise strictly and no investment follows a numbered card.
pub proof fn lemma_piles_ordered(g: Game)
    requires
        g.wf(),
    ensures
        forall|p: int, i: int, j: int|
            0 <= p < 2 && 0 <= i < j < g.pile(p).len() && (#[trigger] g.pile(p)[i]).0 == (
            #[trigger] g.pile(p)[j]).0 ==> match (g.pile(p)[i].1, g.pile(p)[j].1) {
                (Value::N(a), Value::N(b)) => a < b,
                (Value::N(_), Value::Investment) => false,
                _ => true,
            },
{
    assert forall|p: int| 0 <= p < 2 implies ordered_pile(#[trigger] g.pile(p)) by {}
}

/// Pushing a playable card keeps a pile ordered.
pub proof fn lemma_push_ordered(pile: Seq<Card>, c: Card)
    requires
        ordered_pile(pile),
        playable(pile, c),
    ensures
        ordered_pile(pile.push(c)),
{
    let q = pile.push(c);
    assert forall|i: int, j: int|
        0 <= i < j < q.len() && (#[trigger] q[i]).0 == (#[trigger] q[j]).0 implies match (q[i].1, q[j].1) {
        (Value::N(a), Value::N(b)) => a < b,
        (Value::N(_), Value::Investment) => false,
        _ => true,
    } by {
        if j < pile.len() {
            assert(q[i] == pile[i] && q[j] == pile[j]);
        } else {
            assert(q[i] == pile[i] && q[j] == c);
        }
    }
}

/// In every reachable state the deck, both hands, the discards and both piles
/// together hold exactly the sixty cards of the deck.
pub proof fn lemma_conservation(g: Game)
    requires
        g.cards_wf(),
    ensures
        g.card_count() == DECK_SIZE,
{
    lemma_full_deck();
    assert(g.cards().len() == full_deck().len());
}

/// Removing one element keeps every element of a valid sequence valid.
proof fn lemma_remove_valid(s: Seq<Card>, i: int)
    requires
        valid_cards(s),
        0 <= i < s.len(),
    ensures
        valid_cards(s.remove(i)),
{
    let r = s.remove(i);
    assert forall|k: int| 0 <= k < r.len() implies valid_value(#[trigger] r[k].1) by {
        if k < i {
            assert(r[k] == s[k]);
        } else {
            assert(r[k] == s[k + 1]);
        }
    }
}

/// Taking the first copy of `c` out of valid cards: what is left is valid,
/// one card shorter, and has one copy of `c` less.
proof fn lemma_removed_first_facts(old: Seq<Card>, new: Seq<Card>, c: Card)
    requires
        removed_first(old, new, c),
        valid_cards(old),
    ensures
        valid_cards(new),
        valid_value(c.1),
        new.to_multiset() == old.to_multiset().remove(c),
        new.len() == old.len() - 1,
{
    let i = choose|i: int|
        0 <= i < old.len() && old[i] == c && (forall|k: int| 0 <= k < i ==> old[k] != c)
            && new == old.remove(i);
    lemma_remove_valid(old, i);
    assert(valid_value(old[i].1));
}

proof fn lemma_push_valid(s: Seq<Card>, c: Card)
    requires
        valid_cards(s),
        valid_value(c.1),
    ensures
        valid_cards(s.push(c)),
{
    assert forall|k: int| 0 <= k < s.push(c).len() implies valid_value(#[trigger] s.push(c)[k].1) by {
        if k < s.len() {
            assert(s.push(c)[k] == s[k]);
        }
    }
}

impl Game {
    /// Highest rank among the numbered cards of colour `expedition` in
    /// `player`'s pile, or `None` when there is no such card.
    fn highest_value_in_expedition(&self, player: usize, expedition: Expedition) -> (r: Option<usize>)
        requires
            self.shaped(),
            player < PLAYERS,
        ensures
            r is None <==> forall|i: int|
                0 <= i < self.pile(player as int).len() && (#[trigger] self.pile(player as int)[i]).0
                    == expedition ==> self.pile(player as int)[i].1 == Value::Investment,
            r matches Some(h) ==> forall|i: int|
                0 <= i < self.pile(player as int).len() && (#[trigger] self.pile(player as int)[i]).0
                    == expedition ==> match self.pile(player as int)[i].1 {
                    Value::N(m) => m <= h,
                    Value::Investment => true,
                },
            r matches Some(h) ==> exists|i: int|
                0 <= i < self.pile(player as int).len() && #[trigger] self.pile(player as int)[i] == (
                    expedition,
                    Value::N(h),
                ),
    {
        let pile = &self.expeditions[player];
        let mut best: Option<usize> = None;
        let mut i: usize = 0;
        while i < pile.len()
            invariant
                pile@ == self.pile(player as int),
                i <= pile@.len(),
                best is None <==> forall|k: int|
                    0 <= k < i && (#[trigger] pile@[k]).0 == expedition ==> pile@[k].1 == Value::Investment,
                best matches Some(h) ==> forall|k: int|
                    0 <= k < i && (#[trigger] pile@[k]).0 == expedition ==> match pile@[k].1 {
                        Value::N(m) => m <= h,
                        Value::Investment => true,
                    },
                best matches Some(h) ==> exists|k: int|
                    0 <= k < i && #[trigger] pile@[k] == (expedition, Value::N(h)),
            decreases pile@.len() - i,
        {
            let c = pile[i];
            if c.0 == expedition {
                if let Value::N(n) = c.1 {
                    match best {
                        Some(h) => {
                            if n > h {
                                best = Some(n);
                            }
                        },
                        None => {
                            best = Some(n);
                        },
                    }
                }
            }
            proof {
                if let Some(h) = best {
                    if c == (expedition, Value::N(h)) {
                        assert(pile@[i as int] == (expedition, Value::N(h)));
                    }
                }
            }
            i += 1;
        }
        best
    }

    /// Whether the rules let `player` put `c` on their pile.
    fn can_play(&self, player: usize, c: Card) -> (r: bool)
        requires
            self.shaped(),
            player < PLAYERS,
        ensures
            r == playable(self.pile(player as int), c),
    {
        let highest = self.highest_value_in_expedition(player, c.0);
        match highest {
            None => true,
            Some(h) => match c.1 {
                Value::Investment => {
                    let ghost i = choose|i: int|
                        0 <= i < self.pile(player as int).len() && #[trigger] self.pile(player as int)[i]
                            == (c.0, Value::N(h));
                    assert(self.pile(player as int)[i] == (c.0, Value::N(h)));
                    false
                },
                Value::N(n) => {
                    if n <= h {
                        let ghost i = choose|i: int|
                            0 <= i < self.pile(player as int).len() && #[trigger] self.pile(
                                player as int,
                            )[i] == (c.0, Value::N(h));
                        assert(self.pile(player as int)[i] == (c.0, Value::N(h)));
                    }
                    n > h
                },
            },
        }
    }

    /// `player` puts card `c` from their hand onto their pile of its colour.
    pub fn play(&mut self, player: usize, c: Card) -> (r: Result<Vec<Log>, Error>)
        requires
            old(self).wf(),
        ensures
            final(self).wf(),
            r is Ok <==> play_error(*old(self), player as int, c) is None,
            r matches Err(e) ==> play_error(*old(self), player as int, c) == Some(e) && *final(self)
                == *old(self),
            r is Ok ==> played(*old(self), *final(self), player as int, c),
            r matches Ok(logs) ==> logs@ == seq![Log::Public(Event::Played { player, card: c })],
    {
        self.check_turn(player, Phase::PlayOrDiscard)?;
        self.assert_has_card(player, c)?;
        if !self.can_play(player, c) {
            return Err(Error::InvalidInput(Invalid::HigherCardPlayed(c)));
        }
        let ghost g0 = *self;
        let first = self.expeditions[player].len() == 0;
        let removed = self.remove_player_card(player, c);
        assert(removed is Ok);
        self.expeditions[player].push(c);
        self.phase = Phase::DrawOrTake;
        let mut st = self.stats[player];
        st.plays = st.plays.saturating_add(1);
        if first {
            st.expeditions = st.expeditions.saturating_add(1);
        }
        self.stats.set(player, st);
        proof {
            let g = *self;
            let p = player as int;
            lemma_removed_first_facts(g0.hand(p), g.hand(p), c);
            lemma_push_valid(g0.pile(p), c);
            lemma_push_ordered(g0.pile(p), c);
            assert(g.pile(p) == g0.pile(p).push(c));
            assert(g.pile(1 - p) == g0.pile(1 - p));
            assert(g.hand(1 - p) == g0.hand(1 - p));
            assert(g.cards() =~= g0.cards());
            assert(g.stats@ =~= g0.stats@.update(p, bump_play(g0.stats@[p], first)));
            assert forall|q: int| 0 <= q < 2 implies valid_cards(#[trigger] g.hand(q)) && valid_cards(g.pile(q))
                && g.hand(q).len() <= HAND_SIZE && ordered_pile(g.pile(q)) by {
                if q == p {
                } else {
                    assert(q == 1 - p);
                }
            }
        }
        Ok(vec![Log::Public(Event::Played { player, card: c })])
    }

    /// `player` puts card `c` from their hand onto the shared discards.
    pub fn discard(&mut self, player: usize, c: Card) -> (r: Result<Vec<Log>, Error>)
        requires
            old(self).wf(),
        ensures
            final(self).wf(),
            r is Ok <==> discard_error(*old(self), player as int, c) is None,
            r matches Err(e) ==> discard_error(*old(self), player as int, c) == Some(e) && *final(self)
                == *old(self),
            r is Ok ==> discarded(*old(self), *final(self), player as int, c),
            r matches Ok(logs) ==> logs@ == seq![Log::Public(Event::Discarded { player, card: c })],
    {
        self.check_turn(player, Phase::PlayOrDiscard)?;
        let ghost g0 = *self;
        self.remove_player_card(player, c)?;
        self.discards.push(c);
        self.discarded_expedition = Some(c.0);
        self.phase = Phase::DrawOrTake;
        let mut st = self.stats[player];
        st.discards = st.discards.saturating_add(1);
        self.stats.set(player, st);
        proof {
            let g = *self;
            let p = player as int;
            lemma_removed_first_facts(g0.hand(p), g.hand(p), c);
            lemma_push_valid(g0.discards@, c);
            assert(g.hand(1 - p) == g0.hand(1 - p));
            assert(g.cards() =~= g0.cards());
            assert(g.stats@ =~= g0.stats@.update(p, bump_discard(g0.stats@[p])));
            assert forall|q: int| 0 <= q < 2 implies valid_cards(#[trigger] g.hand(q))
                && g.hand(q).len() <= HAND_SIZE by {
                if q == p {
                } else {
                    assert(q == 1 - p);
                }
            }
        }
        Ok(vec![Log::Public(Event::Discarded { player, card: c })])
    }

    /// `player` takes the most recent discard of colour `expedition` into their
    /// hand, which ends their turn.
    pub fn take(&mut self, player: usize, expedition: Expedition) -> (r: Result<Vec<Log>, Error>)
        requires
            old(self).wf(),
        ensures
            final(self).wf(),
            r is Ok <==> take_error(*old(self), player as int, expedition) is None,
            r matches Err(e) ==> take_error(*old(self), player as int, expedition) == Some(e)
                && *final(self) == *old(self),
            r is Ok ==> took(*old(self), *final(self), player as int, expedition),
    {
        self.check_turn(player, Phase::DrawOrTake)?;
        if let Some(d) = self.discarded_expedition {
            if d == expedition {
                return Err(Error::InvalidInput(Invalid::JustDiscarded(expedition)));
            }
        }
        let index = match self.last_discard_position(expedition) {
            Some(i) => i,
            None => {
                return Err(Error::InvalidInput(Invalid::NoDiscard(expedition)));
            },
        };
        let ghost g0 = *self;
        let c = self.discards.remove(index);
        self.hands[player].push(c);
        self.current_player = opponent(self.current_player);
        self.start_turn();
        let mut st = self.stats[player];
        st.takes = st.takes.saturating_add(1);
        st.turns = st.turns.saturating_add(1);
        self.stats.set(player, st);
        proof {
            let g = *self;
            let p = player as int;
            assert(valid_value(g0.discards@[index as int].1));
            lemma_remove_valid(g0.discards@, index as int);
            lemma_push_valid(g0.hand(p), c);
            assert(g.hand(1 - p) == g0.hand(1 - p));
            assert(g.hand(p) == g0.hand(p).push(c));
            assert(g.cards() =~= g0.cards());
            assert(g.stats@ =~= g0.stats@.update(p, bump_take(g0.stats@[p])));
            assert(last_of_color(g0.discards@, expedition, index as int));
            assert forall|q: int| 0 <= q < 2 implies valid_cards(#[trigger] g.hand(q))
                && g.hand(q).len() <= HAND_SIZE by {
                if q == p {
                } else {
                    assert(q == 1 - p);
                }
            }
        }
        Ok(vec![Log::Public(Event::Took { player, card: c })])
    }
}

/// `g` is a freshly dealt round: nothing played or discarded, full hands.
pub open spec fn dealt(g: Game) -> bool {
    &&& g.discards@.len() == 0
    &&& g.pile(0).len() == 0
    &&& g.pile(1).len() == 0
    &&& g.hand(0).len() == HAND_SIZE
    &&& g.hand(1).len() == HAND_SIZE
    &&& g.deck@.len() == DECK_SIZE - 2 * HAND_SIZE
    &&& g.phase == Phase::PlayOrDiscard
    &&& g.discarded_expedition == None::<Expedition>
}

/// `g1` follows `g0`, whose deck just ran out, once the round is scored:
/// each player's pile score is recorded, and either a new round is dealt or,
/// after the last round, the game is over with the cards left where they lay.
pub open spec fn round_ended(g0: Game, g1: Game) -> bool {
    &&& g1.shaped()
    &&& g1.round == g0.round + 1
    &&& forall|p: int|
        0 <= p < 2 ==> (#[trigger] g1.scores@[p])@ == g0.scores@[p]@.push(score_of(g0.pile(p)) as isize)
    &&& g1.stats == g0.stats
    &&& if g1.round < START_ROUND + ROUNDS {
        &&& dealt(g1)
        &&& g1.current_player == round_starter(
            g1.round as int,
            g0.starting_player as int,
            g0.current_player as int,
            g1.total(0),
            g1.total(1),
        )
    } else {
        &&& g1.deck == g0.deck
        &&& g1.discards == g0.discards
        &&& g1.hands == g0.hands
        &&& g1.expeditions == g0.expeditions
        &&& g1.current_player == g0.current_player
        &&& g1.phase == g0.phase
        &&& g1.discarded_expedition == g0.discarded_expedition
    }
}

/// `g1` is `g0` after `player` refilled their hand from the deck: while the
/// deck lasts the turn passes, else the round ends.
pub open spec fn drew(g0: Game, g1: Game, player: int) -> bool {
    let n = g0.refill_count(player);
    let mid = g0.deck@.subrange(n, g0.deck@.len() as int);
    &&& g1.stats@ == g0.stats@.update(player, bump_draw(g0.stats@[player]))
    &&& if n < g0.deck@.len() {
        &&& g1.shaped()
        &&& g1.hand(player) == g0.hand(player) + g0.deck@.subrange(0, n)
        &&& g1.deck@ == mid
        &&& g1.hand(1 - player) == g0.hand(1 - player)
        &&& g1.discards == g0.discards
        &&& g1.expeditions == g0.expeditions
        &&& g1.scores == g0.scores
        &&& g1.round == g0.round
        &&& passed_turn(g0, g1)
    } else {
        &&& g1.shaped()
        &&& g1.round == g0.round + 1
        &&& forall|p: int|
            0 <= p < 2 ==> (#[trigger] g1.scores@[p])@ == g0.scores@[p]@.push(
                score_of(g0.pile(p)) as isize,
            )
        &&& if g1.round < START_ROUND + ROUNDS {
            &&& dealt(g1)
            &&& g1.current_player == round_starter(
                g1.round as int,
                g0.starting_player as int,
                g0.current_player as int,
                g1.total(0),
                g1.total(1),
            )
        } else {
            &&& g1.deck@.len() == 0
            &&& g1.hand(player) == g0.hand(player) + g0.deck@
            &&& g1.hand(1 - player) == g0.hand(1 - player)
            &&& g1.discards == g0.discards
            &&& g1.expeditions == g0.expeditions
            &&& g1.current_player == g0.current_player
        }
    }
}

/// The players with the highest total; both on a tie.
pub open spec fn leaders(t0: int, t1: int) -> Seq<usize> {
    if t0 > t1 {
        seq![0usize]
    } else if t1 > t0 {
        seq![1usize]
    } else {
        seq![0usize, 1usize]
    }
}

impl Game {
    /// Scores the round that just ran out of cards, then deals the next one or
    /// ends the game.
    fn end_round(&mut self) -> (logs: Vec<Log>)
        requires
            old(self).cards_wf(),
            !old(self).finished(),
        ensures
            final(self).cards_wf(),
            round_ended(*old(self), *final(self)),
    {
        let ghost g0 = *self;
        proof {
            lemma_conservation(g0);
        }
        self.round += 1;
        let mut logs: Vec<Log> = Vec::new();
        let s0 = score(&self.expeditions[0]);
        self.scores[0].push(s0);
        let s1 = score(&self.expeditions[1]);
        self.scores[1].push(s1);
        proof {
            let g = *self;
            assert(g.scores@[0]@ == g0.scores@[0]@.push(score_of(g0.pile(0)) as isize));
            assert(g.scores@[1]@ == g0.scores@[1]@.push(score_of(g0.pile(1)) as isize));
            assert forall|p: int, i: int|
                0 <= p < 2 && 0 <= i < g.scores@[p]@.len() implies round_score_bounded(
                #[trigger] g.scores@[p]@[i] as int,
            ) by {
                if i < g0.scores@[p]@.len() {
                    assert(g.scores@[p]@[i] == g0.scores@[p]@[i]);
                }
            }
            assert(g.scores_ok());
            assert(g.cards() == g0.cards());
        }
        let t0 = self.player_score(0);
        let t1 = self.player_score(1);
        logs.push(Log::Public(Event::Scored { player: 0, points: s0, total: t0 }));
        logs.push(Log::Public(Event::Scored { player: 1, points: s1, total: t1 }));
        if self.round < START_ROUND + ROUNDS {
            let mut more = self.start_round();
            logs.append(&mut more);
        } else {
            let winners = self.winners();
            logs.push(Log::Public(Event::GameOver { totals: vec![t0, t1], winners }));
        }
        logs
    }

    /// The players with the highest total once the game is over, both on a
    /// tie; nobody while it goes on.
    pub fn winners(&self) -> (r: Vec<usize>)
        requires
            self.shaped(),
            self.scores_ok(),
        ensures
            !self.finished() ==> r@.len() == 0,
            self.finished() ==> r@ == leaders(self.total(0), self.total(1)),
    {
        if !self.is_finished() {
            return Vec::new();
        }
        let t0 = self.player_score(0);
        let t1 = self.player_score(1);
        let r = if t0 > t1 {
            vec![0]
        } else if t1 > t0 {
            vec![1]
        } else {
            vec![0, 1]
        };
        assert(r@ =~= leaders(self.total(0), self.total(1)));
        r
    }

    /// Refills `player`'s hand from the deck; when that empties the deck the
    /// round ends.
    fn draw_hand_full(&mut self, player: usize) -> (logs: Vec<Log>)
        requires
            old(self).cards_wf(),
            !old(self).finished(),
            player < PLAYERS,
        ensures
            final(self).cards_wf(),
            ({
                let n = old(self).refill_count(player as int);
                if n < old(self).deck@.len() {
                    &&& final(self).hand(player as int) == old(self).hand(player as int)
                        + old(self).deck@.subrange(0, n)
                    &&& final(self).deck@ == old(self).deck@.subrange(n, old(self).deck@.len() as int)
                    &&& final(self).hands@.len() == PLAYERS
                    &&& final(self).hand(1 - player) == old(self).hand(1 - player)
                    &&& final(self).discards == old(self).discards
                    &&& final(self).expeditions == old(self).expeditions
                    &&& final(self).scores == old(self).scores
                    &&& final(self).stats == old(self).stats
                    &&& final(self).round == old(self).round
                    &&& final(self).phase == old(self).phase
                    &&& final(self).current_player == old(self).current_player
                    &&& final(self).starting_player == old(self).starting_player
                    &&& final(self).discarded_expedition == old(self).discarded_expedition
                } else {
                    exists|mid: Game|
                        {
                            &&& mid.hands@.len() == PLAYERS
                            &&& mid.hand(player as int) == old(self).hand(player as int)
                                + old(self).deck@
                            &&& mid.hand(1 - player) == old(self).hand(1 - player)
                            &&& mid.deck@.len() == 0
                            &&& mid.discards == old(self).discards
                            &&& mid.expeditions == old(self).expeditions
                            &&& mid.scores == old(self).scores
                            &&& mid.stats == old(self).stats
                            &&& mid.round == old(self).round
                            &&& mid.current_player == old(self).current_player
                            &&& mid.starting_player == old(self).starting_player
                            &&& round_ended(mid, *final(self))
                        }
                }
            }),
    {
        let ghost g0 = *self;
        let mut logs = self.draw_cards(player);
        proof {
            let g = *self;
            let p = player as int;
            assert(g.hand(1 - p) == g0.hand(1 - p));
            assert forall|q: int| 0 <= q < 2 implies valid_cards(#[trigger] g.hand(q))
                && g.hand(q).len() <= HAND_SIZE && g.pile(q) == g0.pile(q) by {
                if q == p {
                } else {
                    assert(q == 1 - p);
                }
            }
            assert(g.cards_wf());
            if g0.refill_count(p) >= g0.deck@.len() {
                assert(g0.deck@.subrange(0, g0.deck@.len() as int) =~= g0.deck@);
            }
        }
        if self.deck.len() == 0 {
            let mut more = self.end_round();
            logs.append(&mut more);
        }
        logs
    }

    /// `player` refills their hand from the deck, which ends their turn; when
    /// it empties the deck the round is scored and the next one dealt.
    pub fn draw(&mut self, player: usize) -> (r: Result<Vec<Log>, Error>)
        requires
            old(self).wf(),
        ensures
            final(self).wf(),
            r is Ok <==> turn_error(*old(self), player as int, Phase::DrawOrTake) is None,
            r matches Err(e) ==> turn_error(*old(self), player as int, Phase::DrawOrTake) == Some(e)
                && *final(self) == *old(self),
            r is Ok ==> drew(*old(self), *final(self), player as int),
            r is Ok && final(self).round == old(self).round ==> passed_turn(*old(self), *final(self)),
    {
        self.check_turn(player, Phase::DrawOrTake)?;
        let ghost g0 = *self;
        let r = self.round;
        let logs = self.draw_hand_full(player);
        let ghost g1 = *self;
        if r == self.round {
            self.current_player = opponent(self.current_player);
            self.start_turn();
        }
        let mut st = self.stats[player];
        st.draws = st.draws.saturating_add(1);
        st.turns = st.turns.saturating_add(1);
        self.stats.set(player, st);
        proof {
            let g = *self;
            let p = player as int;
            assert(g.stats@ =~= g0.stats@.update(p, bump_draw(g0.stats@[p])));
            if g0.refill_count(p) >= g0.deck@.len() {
                let mid = choose|mid: Game|
                    {
                        &&& mid.hands@.len() == PLAYERS
                        &&& mid.hand(p) == g0.hand(p) + g0.deck@
                        &&& mid.hand(1 - p) == g0.hand(1 - p)
                        &&& mid.deck@.len() == 0
                        &&& mid.discards == g0.discards
                        &&& mid.expeditions == g0.expeditions
                        &&& mid.scores == g0.scores
                        &&& mid.stats == g0.stats
                        &&& mid.round == g0.round
                        &&& mid.current_player == g0.current_player
                        &&& mid.starting_player == g0.starting_player
                        &&& round_ended(mid, g1)
                    };
                assert(mid.pile(0) == g0.pile(0) && mid.pile(1) == g0.pile(1));
                if g.round >= START_ROUND + ROUNDS {
                    assert(g.hand(p) == mid.hand(p));
                    assert(g.hand(1 - p) == mid.hand(1 - p));
                }
            }
        }
        Ok(logs)
    }

    /// A new two-player game with the first round dealt.
    pub fn new(players: usize) -> (r: Result<(Game, Vec<Log>), Error>)
        ensures
            r is Ok <==> players == PLAYERS,
            r matches Err(e) ==> e == (Error::PlayerCount { min: PLAYERS, max: PLAYERS, given: players }),
            r matches Ok((g, _)) ==> {
                &&& g.wf()
                &&& dealt(g)
                &&& g.round == START_ROUND
                &&& g.current_player == 0
                &&& g.scores@[0]@.len() == 0
                &&& g.scores@[1]@.len() == 0
                &&& g.stats@ == seq![zero_stats(), zero_stats()]
            },
    {
        if players != PLAYERS {
            return Err(Error::PlayerCount { min: PLAYERS, max: PLAYERS, given: players });
        }
        let mut g = Game {
            round: START_ROUND,
            phase: Phase::PlayOrDiscard,
            deck: Vec::new(),
            discards: Vec::new(),
            hands: vec![Vec::new(), Vec::new()],
            scores: vec![Vec::new(), Vec::new()],
            expeditions: vec![Vec::new(), Vec::new()],
            current_player: 0,
            starting_player: 0,
            discarded_expedition: None,
            stats: vec![Stats::default(), Stats::default()],
        };
        assert(g.stats@ =~= seq![zero_stats(), zero_stats()]);
        let logs = g.start_round();
        Ok((g, logs))
    }
}

} // verus!
