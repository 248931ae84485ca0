//! The text command grammar: `play <card>`, `discard <card>`, `take <colour>`
//! and `draw`, case-insensitive, each leaving what follows it unread.

use vstd::prelude::*;
use vstd::string::StrSliceExecFns;

use crate::card::{Card, Expedition, Value, MAX_VALUE, MIN_VALUE};

verus! {

/// One of the four actions, as read from text.
#[derive(Clone, Copy, PartialEq, Eq, Debug)]
pub enum Command {
    Play(Card),
    Discard(Card),
    Take(Expedition),
    Draw,
}

/// The class of token the parser expected where the input went wrong.
#[derive(Clone, Copy, PartialEq, Eq, Structural, Debug)]
pub enum ParseError {
    /// One of the keywords `play`, `discard`, `take` or `draw`.
    Command,
    /// A card, such as `WX` or `R7`.
    Card,
    /// A colour letter, such as `W` or `Y`.
    Expedition,
}

pub open spec fn is_space(c: char) -> bool {
    c == ' ' || c == '\t' || c == '\n' || c == '\r' || c == '\x0B' || c == '\x0C'
}

pub open spec fn is_digit(c: char) -> bool {
    '0' <= c <= '9'
}

pub open spec fn digit_of(c: char) -> int {
    (c as int) - ('0' as int)
}

/// The colour a letter names, in either case.
pub open spec fn color_of_letter(c: char) -> Option<Expedition> {
    if c == 'r' || c == 'R' {
        Some(Expedition::Red)
    } else if c == 'g' || c == 'G' {
        Some(Expedition::Green)
    } else if c == 'w' || c == 'W' {
        Some(Expedition::White)
    } else if c == 'b' || c == 'B' {
        Some(Expedition::Blue)
    } else if c == 'y' || c == 'Y' {
        Some(Expedition::Yellow)
    } else {
        None
    }
}

/// `s` holds the keyword at position `i`, each letter in either case; `lo`
/// and `up` are the keyword in lower and upper case.
pub open spec fn keyword_at(s: Seq<char>, i: int, lo: Seq<char>, up: Seq<char>) -> bool {
    &&& i + lo.len() <= s.len()
    &&& forall|k: int| 0 <= k < lo.len() ==> s[i + k] == lo[k] || s[i + k] == up[k]
}

/// End of the run of whitespace that starts at `i`.
pub open spec fn spaces_end(s: Seq<char>, i: int) -> int
    decreases s.len() - i,
{
    if 0 <= i < s.len() && is_space(s[i]) {
        spaces_end(s, i + 1)
    } else {
        i
    }
}

/// End of the run of decimal digits that starts at `i`.
pub open spec fn digits_end(s: Seq<char>, i: int) -> int
    decreases s.len() - i,
{
    if 0 <= i < s.len() && is_digit(s[i]) {
        digits_end(s, i + 1)
    } else {
        i
    }
}

/// The number that the digits from `i` up to `j` write.
pub open spec fn digits_value(s: Seq<char>, i: int, j: int) -> int
    decreases j - i,
{
    if j <= i {
        0
    } else {
        digits_value(s, i, j - 1) * 10 + digit_of(s[j - 1])
    }
}

/// A card value at `i`: `x` for an investment, or a rank of 2 to 10 in
/// digits; with the position after it.
pub open spec fn value_at(s: Seq<char>, i: int) -> Option<(Value, int)> {
    if 0 <= i < s.len() && (s[i] == 'x' || s[i] == 'X') {
        Some((Value::Investment, i + 1))
    } else {
        let j = digits_end(s, i);
        let v = digits_value(s, i, j);
        if j > i && MIN_VALUE <= v <= MAX_VALUE {
            Some((Value::N(v as usize), j))
        } else {
            None
        }
    }
}

/// A card at `i`, a colour letter and a value; with the position after it.
pub open spec fn card_at(s: Seq<char>, i: int) -> Option<(Card, int)> {
    if 0 <= i < s.len() && color_of_letter(s[i]) is Some {
        match value_at(s, i + 1) {
            Some((v, j)) => Some(((color_of_letter(s[i])->0, v), j)),
            None => None,
        }
    } else {
        None
    }
}

/// The command at the start of `s`, with how many characters it takes.
pub open spec fn command_of(s: Seq<char>) -> Result<(Command, int), ParseError> {
    if keyword_at(s, 0, seq!['p', 'l', 'a', 'y'], seq!['P', 'L', 'A', 'Y']) {
        match card_at(s, spaces_end(s, 4)) {
            Some((c, j)) => Ok((Command::Play(c), j)),
            None => Err(ParseError::Card),
        }
    } else if keyword_at(
        s,
        0,
        seq!['d', 'i', 's', 'c', 'a', 'r', 'd'],
        seq!['D', 'I', 'S', 'C', 'A', 'R', 'D'],
    ) {
        match card_at(s, spaces_end(s, 7)) {
            Some((c, j)) => Ok((Command::Discard(c), j)),
            None => Err(ParseError::Card),
        }
    } else if keyword_at(s, 0, seq!['t', 'a', 'k', 'e'], seq!['T', 'A', 'K', 'E']) {
        let i = spaces_end(s, 4);
        if 0 <= i < s.len() && color_of_letter(s[i]) is Some {
            Ok((Command::Take(color_of_letter(s[i])->0), i + 1))
        } else {
            Err(ParseError::Expedition)
        }
    } else if keyword_at(s, 0, seq!['d', 'r', 'a', 'w'], seq!['D', 'R', 'A', 'W']) {
        Ok((Command::Draw, 4))
    } else {
        Err(ParseError::Command)
    }
}

fn is_space_char(c: char) -> (r: bool)
    ensures
        r == is_space(c),
{
    c == ' ' || c == '\t' || c == '\n' || c == '\r' || c == '\x0B' || c == '\x0C'
}

fn letter_color(c: char) -> (r: Option<Expedition>)
    ensures
        r == color_of_letter(c),
{
    if c == 'r' || c == 'R' {
        Some(Expedition::Red)
    } else if c == 'g' || c == 'G' {
        Some(Expedition::Green)
    } else if c == 'w' || c == 'W' {
        Some(Expedition::White)
    } else if c == 'b' || c == 'B' {
        Some(Expedition::Blue)
    } else if c == 'y' || c == 'Y' {
        Some(Expedition::Yellow)
    } else {
        None
    }
}

fn has_keyword(s: &Vec<char>, lo: &[char], up: &[char]) -> (r: bool)
    requires
        lo@.len() == up@.len(),
    ensures
        r == keyword_at(s@, 0, lo@, up@),
{
    if lo.len() > s.len() {
        return false;
    }
    let mut k: usize = 0;
    while k < lo.len()
        invariant
            lo@.len() == up@.len(),
            lo@.len() <= s@.len(),
            k <= lo@.len(),
            forall|m: int| 0 <= m < k ==> s@[0 + m] == lo@[m] || s@[0 + m] == up@[m],
        decreases lo@.len() - k,
    {
        if s[k] != lo[k] && s[k] != up[k] {
            return false;
        }
        k += 1;
    }
    true
}

fn skip_spaces(s: &Vec<char>, i: usize) -> (r: usize)
    requires
        i <= s@.len(),
    ensures
        r == spaces_end(s@, i as int),
        r <= s@.len(),
{
    let mut j: usize = i;
    while j < s.len() && is_space_char(s[j])
        invariant
            i <= j <= s@.len(),
            spaces_end(s@, j as int) == spaces_end(s@, i as int),
        decreases s@.len() - j,
    {
        j += 1;
    }
    j
}

fn parse_value(s: &Vec<char>, i: usize) -> (r: Option<(Value, usize)>)
    requires
        i <= s@.len(),
    ensures
        match value_at(s@, i as int) {
            Some((v, j)) => r == Some((v, j as usize)) && j <= s@.len(),
            None => r is None,
        },
{
    if i < s.len() && (s[i] == 'x' || s[i] == 'X') {
        return Some((Value::Investment, i + 1));
    }
    let mut j: usize = i;
    let mut acc: usize = 0;
    while j < s.len() && '0' <= s[j] && s[j] <= '9'
        invariant
            i <= j <= s@.len(),
            digits_end(s@, j as int) == digits_end(s@, i as int),
            digits_value(s@, i as int, j as int) >= 0,
            acc == if digits_value(s@, i as int, j as int) > MAX_VALUE {
                MAX_VALUE + 1
            } else {
                digits_value(s@, i as int, j as int)
            },
        decreases s@.len() - j,
    {
        let d = (s[j] as u32 - '0' as u32) as usize;
        assert(d == digit_of(s@[j as int]));
        if acc <= MAX_VALUE {
            acc = acc * 10 + d;
            if acc > MAX_VALUE {
                acc = MAX_VALUE + 1;
            }
        }
        j += 1;
    }
    if j > i && MIN_VALUE <= acc && acc <= MAX_VALUE {
        Some((Value::N(acc), j))
    } else {
        None
    }
}

fn parse_card(s: &Vec<char>, i: usize) -> (r: Option<(Card, usize)>)
    requires
        i <= s@.len(),
    ensures
        match card_at(s@, i as int) {
            Some((c, j)) => r == Some((c, j as usize)) && j <= s@.len(),
            None => r is None,
        },
{
    if i >= s.len() {
        return None;
    }
    match letter_color(s[i]) {
        Some(e) => match parse_value(s, i + 1) {
            Some((v, j)) => Some(((e, v), j)),
            None => None,
        },
        None => None,
    }
}

/// Reads the command at the start of `chars`, with the count of characters it took.
fn parse_chars(s: &Vec<char>) -> (r: Result<(Command, usize), ParseError>)
    ensures
        match command_of(s@) {
            Ok((c, n)) => r == Ok::<(Command, usize), ParseError>((c, n as usize)) && n <= s@.len(),
            Err(e) => r == Err::<(Command, usize), ParseError>(e),
        },
{
    let play_lo = ['p', 'l', 'a', 'y'];
    let play_up = ['P', 'L', 'A', 'Y'];
    let discard_lo = ['d', 'i', 's', 'c', 'a', 'r', 'd'];
    let discard_up = ['D', 'I', 'S', 'C', 'A', 'R', 'D'];
    let take_lo = ['t', 'a', 'k', 'e'];
    let take_up = ['T', 'A', 'K', 'E'];
    let draw_lo = ['d', 'r', 'a', 'w'];
    let draw_up = ['D', 'R', 'A', 'W'];
    assert(play_lo@ =~= seq!['p', 'l', 'a', 'y'] && play_up@ =~= seq!['P', 'L', 'A', 'Y']);
    assert(discard_lo@ =~= seq!['d', 'i', 's', 'c', 'a', 'r', 'd']);
    assert(discard_up@ =~= seq!['D', 'I', 'S', 'C', 'A', 'R', 'D']);
    assert(take_lo@ =~= seq!['t', 'a', 'k', 'e'] && take_up@ =~= seq!['T', 'A', 'K', 'E']);
    assert(draw_lo@ =~= seq!['d', 'r', 'a', 'w'] && draw_up@ =~= seq!['D', 'R', 'A', 'W']);
    if has_keyword(s, &play_lo, &play_up) {
        match parse_card(s, skip_spaces(s, 4)) {
            Some((c, j)) => Ok((Command::Play(c), j)),
            None => Err(ParseError::Card),
        }
    } else if has_keyword(s, &discard_lo, &discard_up) {
        match parse_card(s, skip_spaces(s, 7)) {
            Some((c, j)) => Ok((Command::Discard(c), j)),
            None => Err(ParseError::Card),
        }
    } else if has_keyword(s, &take_lo, &take_up) {
        let i = skip_spaces(s, 4);
        if i < s.len() {
            match letter_color(s[i]) {
                Some(e) => Ok((Command::Take(e), i + 1)),
                None => Err(ParseError::Expedition),
            }
        } else {
            Err(ParseError::Expedition)
        }
    } else if has_keyword(s, &draw_lo, &draw_up) {
        Ok((Command::Draw, 4))
    } else {
        Err(ParseError::Command)
    }
}

/// Reads one command from the start of `input`; on success also returns the
/// input that follows it, unread.
pub fn command(input: &str) -> (r: Result<(Command, &str), ParseError>)
    ensures
        r is Ok <==> command_of(input@) is Ok,
        r matches Err(e) ==> command_of(input@) == Err::<(Command, int), ParseError>(e),
        r matches Ok((c, rest)) ==> (command_of(input@) matches Ok((c2, n)) && c == c2 && rest@
            == input@.subrange(n, input@.len() as int)),
{
    let len = input.unicode_len();
    let mut chars: Vec<char> = Vec::new();
    let mut i: usize = 0;
    while i < len
        invariant
            len == input@.len(),
            i <= len,
            chars@ == input@.subrange(0, i as int),
        decreases len - i,
    {
        chars.push(input.get_char(i));
        i += 1;
        assert(chars@ =~= input@.subrange(0, i as int));
    }
    assert(chars@ =~= input@);
    match parse_chars(&chars) {
        Ok((c, n)) => Ok((c, input.substring_char(n, len))),
        Err(e) => Err(e),
    }
}

/// `a` and `b` are the same character up to the case of an ASCII letter.
pub open spec fn same_but_case(a: char, b: char) -> bool {
    ||| a == b
    ||| 'A' <= a <= 'Z' && b as int == a as int + 32
    ||| 'A' <= b <= 'Z' && a as int == b as int + 32
}

/// `s` and `t` differ at most in the case of ASCII letters.
pub open spec fn equal_but_case(s: Seq<char>, t: Seq<char>) -> bool {
    &&& s.len() == t.len()
    &&& forall|i: int| 0 <= i < s.len() ==> same_but_case(#[trigger] s[i], t[i])
}

proof fn lemma_spaces_end(s: Seq<char>, t: Seq<char>, i: int)
    requires
        equal_but_case(s, t),
    ensures
        spaces_end(s, i) == spaces_end(t, i),
    decreases s.len() - i,
{
    if 0 <= i < s.len() {
        assert(same_but_case(s[i], t[i]));
        if is_space(s[i]) {
            lemma_spaces_end(s, t, i + 1);
        }
    }
}

proof fn lemma_digits_end(s: Seq<char>, t: Seq<char>, i: int)
    requires
        equal_but_case(s, t),
    ensures
        digits_end(s, i) == digits_end(t, i),
        i <= digits_end(s, i),
        0 <= i <= s.len() ==> digits_end(s, i) <= s.len(),
        forall|k: int| i <= k < digits_end(s, i) ==> (#[trigger] s[k]) == t[k],
    decreases s.len() - i,
{
    if 0 <= i < s.len() {
        assert(same_but_case(s[i], t[i]));
        if is_digit(s[i]) {
            assert(s[i] == t[i]);
            lemma_digits_end(s, t, i + 1);
        }
    }
}

proof fn lemma_digits_value(s: Seq<char>, t: Seq<char>, i: int, j: int)
    requires
        0 <= i,
        j <= s.len(),
        forall|k: int| i <= k < j ==> (#[trigger] s[k]) == t[k],
    ensures
        digits_value(s, i, j) == digits_value(t, i, j),
    decreases j - i,
{
    if j > i {
        lemma_digits_value(s, t, i, j - 1);
        assert(s[j - 1] == t[j - 1]);
    }
}

proof fn lemma_card_at(s: Seq<char>, t: Seq<char>, i: int)
    requires
        equal_but_case(s, t),
    ensures
        card_at(s, i) == card_at(t, i),
{
    if 0 <= i < s.len() {
        assert(same_but_case(s[i], t[i]));
    }
    if 0 <= i + 1 < s.len() {
        assert(same_but_case(s[i + 1], t[i + 1]));
    }
    lemma_digits_end(s, t, i + 1);
    if 0 <= i + 1 <= s.len() {
        lemma_digits_value(s, t, i + 1, digits_end(s, i + 1));
    }
    assert(value_at(s, i + 1) == value_at(t, i + 1));
}

proof fn lemma_keyword_at(s: Seq<char>, t: Seq<char>, lo: Seq<char>, up: Seq<char>)
    requires
        equal_but_case(s, t),
        lo.len() == up.len(),
        forall|k: int| 0 <= k < lo.len() ==> 'a' <= #[trigger] lo[k] <= 'z' && up[k] as int == lo[k] as int - 32,
    ensures
        keyword_at(s, 0, lo, up) == keyword_at(t, 0, lo, up),
{
    if lo.len() <= s.len() {
        assert forall|k: int| 0 <= k < lo.len() implies (s[0 + k] == lo[k] || s[0 + k] == up[k]) == (
        t[0 + k] == lo[k] || t[0 + k] == up[k]) by {
            assert(same_but_case(s[k], t[k]));
            assert('a' <= lo[k] <= 'z');
        }
    }
}

/// Commands are read without regard to the case of letters: two inputs that
/// differ only in the case of ASCII letters give the same command, taking the
/// same number of characters, or the same error.
pub proof fn lemma_command_ignores_case(s: Seq<char>, t: Seq<char>)
    requires
        equal_but_case(s, t),
    ensures
        command_of(s) == command_of(t),
{
    let play = seq!['p', 'l', 'a', 'y'];
    let discard = seq!['d', 'i', 's', 'c', 'a', 'r', 'd'];
    let take = seq!['t', 'a', 'k', 'e'];
    let draw = seq!['d', 'r', 'a', 'w'];
    let play_up = seq!['P', 'L', 'A', 'Y'];
    let discard_up = seq!['D', 'I', 'S', 'C', 'A', 'R', 'D'];
    let take_up = seq!['T', 'A', 'K', 'E'];
    let draw_up = seq!['D', 'R', 'A', 'W'];
    assert forall|k: int| 0 <= k < 4 implies 'a' <= #[trigger] play[k] <= 'z' && play_up[k] as int == play[k] as int - 32 by {
        assert(k == 0 || k == 1 || k == 2 || k == 3);
    }
    assert forall|k: int| 0 <= k < 7 implies 'a' <= #[trigger] discard[k] <= 'z' && discard_up[k] as int == discard[k] as int - 32 by {
        assert(k == 0 || k == 1 || k == 2 || k == 3 || k == 4 || k == 5 || k == 6);
    }
    assert forall|k: int| 0 <= k < 4 implies 'a' <= #[trigger] take[k] <= 'z' && take_up[k] as int == take[k] as int - 32 by {
        assert(k == 0 || k == 1 || k == 2 || k == 3);
    }
    assert forall|k: int| 0 <= k < 4 implies 'a' <= #[trigger] draw[k] <= 'z' && draw_up[k] as int == draw[k] as int - 32 by {
        assert(k == 0 || k == 1 || k == 2 || k == 3);
    }
    lemma_keyword_at(s, t, play, play_up);
    lemma_keyword_at(s, t, discard, discard_up);
    lemma_keyword_at(s, t, take, take_up);
    lemma_keyword_at(s, t, draw, draw_up);
    lemma_spaces_end(s, t, 4);
    lemma_spaces_end(s, t, 7);
    lemma_card_at(s, t, spaces_end(s, 4));
    lemma_card_at(s, t, spaces_end(s, 7));
    let i = spaces_end(s, 4);
    if 0 <= i < s.len() {
        assert(same_but_case(s[i], t[i]));
    }
}

} // verus!
