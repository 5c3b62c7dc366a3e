use vstd::prelude::*;
use crate::nmm::{Action, ActionKind, Color, Point};

verus! {

/// Why a text is not an action.
#[derive(Clone, Copy, PartialEq, Eq, Debug, Structural)]
pub enum ParseError {
    /// Fewer than three words, or a place or a remove with more than three.
    InvalidFormat,
    /// The first word is neither `W` nor `B`.
    InvalidPlayer,
    /// The point of a place or a remove is not a number.
    InvalidPoint,
    /// A move without exactly four words.
    InvalidMoveFormat,
    /// The source of a move is not a number.
    InvalidFromPoint,
    /// The destination of a move is not a number.
    InvalidToPoint,
    /// The second word is none of `P`, `M`, `R`.
    InvalidActionType,
}

/// The characters that separate words: those with the Unicode property
/// White_Space.
pub open spec fn is_space(c: char) -> bool {
    let u = c as u32;
    ||| 0x9 <= u <= 0xd
    ||| u == 0x20
    ||| u == 0x85
    ||| u == 0xa0
    ||| u == 0x1680
    ||| 0x2000 <= u <= 0x200a
    ||| u == 0x2028
    ||| u == 0x2029
    ||| u == 0x202f
    ||| u == 0x205f
    ||| u == 0x3000
}

/// The words of `s` from position `i` on, where `cur` holds the part of a
/// word read just before `i`.
pub open spec fn words_from(s: Seq<char>, i: int, cur: Seq<char>) -> Seq<Seq<char>>
    decreases s.len() - i,
{
    let done: Seq<Seq<char>> = if cur.len() > 0 {
        seq![cur]
    } else {
        Seq::empty()
    };
    if i >= s.len() {
        done
    } else if is_space(s[i]) {
        done + words_from(s, i + 1, Seq::empty())
    } else {
        words_from(s, i + 1, cur.push(s[i]))
    }
}

/// The maximal runs of non-space characters of `s`, in order.
pub open spec fn words(s: Seq<char>) -> Seq<Seq<char>> {
    words_from(s, 0, Seq::empty())
}

/// `'0'` to `'9'`, code points 48 to 57.
pub open spec fn is_digit(c: char) -> bool {
    48 <= c as u32 <= 57
}

pub open spec fn all_digits(d: Seq<char>) -> bool {
    forall|i: int| 0 <= i < d.len() ==> is_digit(#[trigger] d[i])
}

pub open spec fn decimal_value(d: Seq<char>) -> int
    decreases d.len(),
{
    if d.len() == 0 {
        0
    } else {
        decimal_value(d.drop_last()) * 10 + (d.last() as u32 - 48)
    }
}

/// A point in decimal: an optional `+`, then at least one digit, of a value
/// that fits a `usize`.
pub open spec fn parse_point(w: Seq<char>) -> Option<Point> {
    let d = if w.len() > 0 && w[0] == '+' {
        w.drop_first()
    } else {
        w
    };
    if d.len() > 0 && all_digits(d) && decimal_value(d) <= usize::MAX {
        Some(decimal_value(d) as usize)
    } else {
        None
    }
}

pub open spec fn parse_player(w: Seq<char>) -> Option<Color> {
    if w == seq!['W'] {
        Some(Color::White)
    } else if w == seq!['B'] {
        Some(Color::Black)
    } else {
        None
    }
}

/// The notation: `<W|B> P <point>`, `<W|B> M <from> <to>`, `<W|B> R <point>`,
/// words separated by white space.
pub open spec fn parse_action(s: Seq<char>) -> Result<Action, ParseError> {
    let w = words(s);
    if w.len() < 3 {
        Err(ParseError::InvalidFormat)
    } else if parse_player(w[0]) is None {
        Err(ParseError::InvalidPlayer)
    } else {
        let player = parse_player(w[0])->Some_0;
        if w[1] == seq!['P'] {
            if w.len() != 3 {
                Err(ParseError::InvalidFormat)
            } else {
                match parse_point(w[2]) {
                    Some(p) => Ok(Action { player, action: ActionKind::Place(p) }),
                    None => Err(ParseError::InvalidPoint),
                }
            }
        } else if w[1] == seq!['M'] {
            if w.len() != 4 {
                Err(ParseError::InvalidMoveFormat)
            } else {
                match parse_point(w[2]) {
                    None => Err(ParseError::InvalidFromPoint),
                    Some(from) => match parse_point(w[3]) {
                        None => Err(ParseError::InvalidToPoint),
                        Some(to) => Ok(Action { player, action: ActionKind::Move(from, to) }),
                    },
                }
            }
        } else if w[1] == seq!['R'] {
            if w.len() != 3 {
                Err(ParseError::InvalidFormat)
            } else {
                match parse_point(w[2]) {
                    Some(p) => Ok(Action { player, action: ActionKind::Remove(p) }),
                    None => Err(ParseError::InvalidPoint),
                }
            }
        } else {
            Err(ParseError::InvalidActionType)
        }
    }
}

fn is_space_char(c: char) -> (r: bool)
    ensures
        r == is_space(c),
{
    let u = c as u32;
    (0x9 <= u && u <= 0xd) || u == 0x20 || u == 0x85 || u == 0xa0 || u == 0x1680 || (0x2000 <= u
        && u <= 0x200a) || u == 0x2028 || u == 0x2029 || u == 0x202f || u == 0x205f || u == 0x3000
}

fn split_words(s: &str) -> (r: Vec<Vec<char>>)
    ensures
        r@.map_values(|w: Vec<char>| w@) == words(s@),
{
    let n = s.unicode_len();
    let mut out: Vec<Vec<char>> = Vec::new();
    let mut cur: Vec<char> = Vec::new();
    let mut i: usize = 0;
    while i < n
        invariant
            n == s@.len(),
            i <= n,
            out@.map_values(|w: Vec<char>| w@) + words_from(s@, i as int, cur@) == words(s@),
        decreases n - i,
    {
        let c = s.get_char(i);
        let ghost before = out@.map_values(|w: Vec<char>| w@);
        let ghost rest = words_from(s@, i + 1, if is_space(c) { Seq::empty() } else { cur@.push(c) });
        if is_space_char(c) {
            if cur.len() > 0 {
                let ghost w = cur@;
                out.push(cur);
                assert(out@.map_values(|w: Vec<char>| w@) =~= before.push(w));
                assert(before + (seq![w] + rest) =~= before.push(w) + rest);
            } else {
                assert(before + (Seq::<Seq<char>>::empty() + rest) =~= before + rest);
            }
            cur = Vec::new();
        } else {
            cur.push(c);
        }
        i = i + 1;
    }
    if cur.len() > 0 {
        let ghost before = out@.map_values(|w: Vec<char>| w@);
        let ghost w = cur@;
        out.push(cur);
        assert(out@.map_values(|w: Vec<char>| w@) =~= before.push(w));
        assert(before + seq![w] =~= before.push(w));
    } else {
        assert(out@.map_values(|w: Vec<char>| w@) + Seq::<Seq<char>>::empty() =~= out@.map_values(
            |w: Vec<char>| w@,
        ));
    }
    out
}

proof fn lemma_decimal_prefix(d: Seq<char>, k: int)
    requires
        0 <= k <= d.len(),
        all_digits(d),
    ensures
        0 <= decimal_value(d.subrange(0, k)) <= decimal_value(d),
    decreases d.len(),
{
    if k == d.len() {
        assert(d.subrange(0, k) =~= d);
        if d.len() > 0 {
            lemma_decimal_prefix(d.drop_last(), 0);
            assert(d.drop_last().subrange(0, 0) =~= Seq::<char>::empty());
        }
    } else {
        let e = d.drop_last();
        lemma_decimal_prefix(e, k);
        lemma_decimal_prefix(e, e.len() as int);
        assert(e.subrange(0, k) =~= d.subrange(0, k));
        assert(e.subrange(0, e.len() as int) =~= e);
    }
}

fn parse_point_word(w: &Vec<char>) -> (r: Option<Point>)
    ensures
        r == parse_point(w@),
{
    let start: usize = if w.len() > 0 && w[0] == '+' {
        1
    } else {
        0
    };
    let ghost d = if w@.len() > 0 && w@[0] == '+' {
        w@.drop_first()
    } else {
        w@
    };
    assert(d =~= w@.subrange(start as int, w@.len() as int));
    if start >= w.len() {
        return None;
    }
    let mut v: usize = 0;
    let mut i: usize = start;
    while i < w.len()
        invariant
            start <= i <= w@.len(),
            d == w@.subrange(start as int, w@.len() as int),
            d == (if w@.len() > 0 && w@[0] == '+' {
                w@.drop_first()
            } else {
                w@
            }),
            v == decimal_value(d.subrange(0, i - start)),
            forall|j: int| 0 <= j < i - start ==> is_digit(#[trigger] d[j]),
        decreases w.len() - i,
    {
        let c = w[i];
        let u = c as u32;
        assert(d[i - start] == c);
        if !(48 <= u && u <= 57) {
            assert(!is_digit(d[i - start]));
            assert(!all_digits(d));
            return None;
        }
        let digit = (u - 48) as usize;
        assert(d.subrange(0, i + 1 - start).drop_last() =~= d.subrange(0, i - start));
        assert(decimal_value(d.subrange(0, i + 1 - start)) == v * 10 + digit);
        if v > (usize::MAX - digit) / 10 {
            assert(v * 10 + digit > usize::MAX) by (nonlinear_arith)
                requires
                    v > (usize::MAX - digit) / 10,
                    digit <= 9,
            ;
            proof {
                if all_digits(d) {
                    lemma_decimal_prefix(d, i + 1 - start);
                }
            }
            return None;
        }
        assert(v * 10 + digit <= usize::MAX) by (nonlinear_arith)
            requires
                v <= (usize::MAX - digit) / 10,
                digit <= 9,
        ;
        v = v * 10 + digit;
        i = i + 1;
    }
    assert(d.subrange(0, i - start) =~= d);
    Some(v)
}

fn parse_player_word(w: &Vec<char>) -> (r: Option<Color>)
    ensures
        r == parse_player(w@),
{
    if w.len() == 1 && w[0] == 'W' {
        assert(w@ =~= seq!['W']);
        Some(Color::White)
    } else if w.len() == 1 && w[0] == 'B' {
        assert(w@ =~= seq!['B']);
        Some(Color::Black)
    } else {
        None
    }
}

/// Whether `w` is the one-letter word `c`.
fn is_letter(w: &Vec<char>, c: char) -> (r: bool)
    ensures
        r == (w@ == seq![c]),
{
    if w.len() == 1 && w[0] == c {
        assert(w@ =~= seq![c]);
        true
    } else {
        false
    }
}

impl Action {
    /// Reads an action in the notation `<W|B> P <point>`, `<W|B> M <from> <to>`
    /// or `<W|B> R <point>`.
    pub fn parse(s: &str) -> (r: Result<Action, ParseError>)
        ensures
            r == parse_action(s@),
    {
        let words = split_words(s);
        let ghost w = words@.map_values(|v: Vec<char>| v@);
        if words.len() < 3 {
            return Err(ParseError::InvalidFormat);
        }
        assert(w[0] == words@[0]@ && w[1] == words@[1]@ && w[2] == words@[2]@);
        let player = match parse_player_word(&words[0]) {
            Some(c) => c,
            None => return Err(ParseError::InvalidPlayer),
        };
        if is_letter(&words[1], 'P') {
            if words.len() != 3 {
                return Err(ParseError::InvalidFormat);
            }
            match parse_point_word(&words[2]) {
                Some(p) => Ok(Action { player, action: ActionKind::Place(p) }),
                None => Err(ParseError::InvalidPoint),
            }
        } else if is_letter(&words[1], 'M') {
            if words.len() != 4 {
                return Err(ParseError::InvalidMoveFormat);
            }
            assert(w[3] == words@[3]@);
            let from = match parse_point_word(&words[2]) {
                Some(p) => p,
                None => return Err(ParseError::InvalidFromPoint),
            };
            let to = match parse_point_word(&words[3]) {
                Some(p) => p,
                None => return Err(ParseError::InvalidToPoint),
            };
            Ok(Action { player, action: ActionKind::Move(from, to) })
        } else if is_letter(&words[1], 'R') {
            if words.len() != 3 {
                return Err(ParseError::InvalidFormat);
            }
            match parse_point_word(&words[2]) {
                Some(p) => Ok(Action { player, action: ActionKind::Remove(p) }),
                None => Err(ParseError::InvalidPoint),
            }
        } else {
            Err(ParseError::InvalidActionType)
        }
    }
}

impl std::str::FromStr for Action {
    type Err = ParseError;

    fn from_str(s: &str) -> Result<Action, ParseError> {
        Action::parse(s)
    }
}

pub open spec fn digit_char(n: int) -> char {
    seq!['0', '1', '2', '3', '4', '5', '6', '7', '8', '9'][n]
}

/// `n` in decimal, without leading zeros.
pub open spec fn decimal(n: nat) -> Seq<char>
    decreases n,
{
    if n < 10 {
        seq![digit_char(n as int)]
    } else {
        decimal(n / 10) + seq![digit_char((n % 10) as int)]
    }
}

pub open spec fn player_text(c: Color) -> Seq<char> {
    match c {
        Color::White => seq!['W'],
        Color::Black => seq!['B'],
    }
}

/// An action in the notation that `Action::parse` reads.
pub open spec fn action_text(a: Action) -> Seq<char> {
    player_text(a.player) + match a.action {
        ActionKind::Place(p) => seq![' ', 'P', ' '] + decimal(p as nat),
        ActionKind::Move(from, to) => seq![' ', 'M', ' '] + decimal(from as nat) + seq![' ']
            + decimal(to as nat),
        ActionKind::Remove(p) => seq![' ', 'R', ' '] + decimal(p as nat),
    }
}

fn digit_str(n: usize) -> (r: &'static str)
    requires
        n < 10,
    ensures
        r@ == seq![digit_char(n as int)],
{
    proof {
        reveal_strlit("0");
        reveal_strlit("1");
        reveal_strlit("2");
        reveal_strlit("3");
        reveal_strlit("4");
        reveal_strlit("5");
        reveal_strlit("6");
        reveal_strlit("7");
        reveal_strlit("8");
        reveal_strlit("9");
    }
    let r = match n {
        0 => "0",
        1 => "1",
        2 => "2",
        3 => "3",
        4 => "4",
        5 => "5",
        6 => "6",
        7 => "7",
        8 => "8",
        _ => "9",
    };
    assert(r@ =~= seq![digit_char(n as int)]);
    r
}

fn push_decimal(out: &mut String, n: usize)
    ensures
        final(out)@ == old(out)@ + decimal(n as nat),
    decreases n,
{
    if n >= 10 {
        push_decimal(out, n / 10);
    }
    out.append(digit_str(n % 10));
    assert(n >= 10 ==> (n as nat) / 10 == (n / 10) as nat);
}

impl Action {
    /// The action in the notation that `parse` reads, e.g. `W M 0 1`.
    pub fn to_text(&self) -> (r: String)
        ensures
            r@ == action_text(*self),
    {
        proof {
            reveal_strlit("W");
            reveal_strlit("B");
            reveal_strlit(" P ");
            reveal_strlit(" M ");
            reveal_strlit(" R ");
            reveal_strlit(" ");
        }
        let mut out = String::new();
        match self.player {
            Color::White => out.append("W"),
            Color::Black => out.append("B"),
        }
        match self.action {
            ActionKind::Place(p) => {
                out.append(" P ");
                push_decimal(&mut out, p);
            },
            ActionKind::Move(from, to) => {
                out.append(" M ");
                push_decimal(&mut out, from);
                out.append(" ");
                push_decimal(&mut out, to);
            },
            ActionKind::Remove(p) => {
                out.append(" R ");
                push_decimal(&mut out, p);
            },
        }
        assert(out@ =~= action_text(*self));
        out
    }
}

/// A run of non-space characters joins the word being read.
proof fn lemma_words_run(s: Seq<char>, i: int, j: int, cur: Seq<char>)
    requires
        0 <= i <= j <= s.len(),
        forall|k: int| i <= k < j ==> !is_space(#[trigger] s[k]),
    ensures
        words_from(s, i, cur) == words_from(s, j, cur + s.subrange(i, j)),
    decreases j - i,
{
    if i == j {
        assert(cur + s.subrange(i, j) =~= cur);
    } else {
        lemma_words_run(s, i + 1, j, cur.push(s[i]));
        assert(cur.push(s[i]) + s.subrange(i + 1, j) =~= cur + s.subrange(i, j));
    }
}

proof fn lemma_digit_char(k: int)
    requires
        0 <= k < 10,
    ensures
        digit_char(k) as u32 == 48 + k,
{
    let t = seq!['0', '1', '2', '3', '4', '5', '6', '7', '8', '9'];
    if k == 0 { assert(t[0] == '0'); } else if k == 1 { assert(t[1] == '1'); }
    else if k == 2 { assert(t[2] == '2'); } else if k == 3 { assert(t[3] == '3'); }
    else if k == 4 { assert(t[4] == '4'); } else if k == 5 { assert(t[5] == '5'); }
    else if k == 6 { assert(t[6] == '6'); } else if k == 7 { assert(t[7] == '7'); }
    else if k == 8 { assert(t[8] == '8'); } else { assert(t[9] == '9'); }
}

/// The decimal form of `n` is a run of digits that reads back as `n`.
proof fn lemma_decimal(n: nat)
    ensures
        decimal(n).len() > 0,
        all_digits(decimal(n)),
        decimal_value(decimal(n)) == n,
    decreases n,
{
    if n < 10 {
        lemma_digit_char(n as int);
        assert(decimal(n).drop_last() =~= Seq::<char>::empty());
        assert(decimal_value(decimal(n).drop_last()) == 0);
    } else {
        lemma_decimal(n / 10);
        lemma_digit_char((n % 10) as int);
        let d = decimal(n);
        assert(d.drop_last() =~= decimal(n / 10));
        assert(d.last() == digit_char((n % 10) as int));
        assert((n / 10) * 10 + n % 10 == n) by (nonlinear_arith);
        assert forall|i: int| 0 <= i < d.len() implies is_digit(#[trigger] d[i]) by {
            if i < d.len() - 1 {
                assert(d[i] == decimal(n / 10)[i]);
            }
        }
    }
}

proof fn lemma_parse_decimal(n: nat)
    requires
        n <= usize::MAX,
    ensures
        parse_point(decimal(n)) == Some(n as usize),
        forall|k: int| 0 <= k < decimal(n).len() ==> !is_space(#[trigger] decimal(n)[k]),
{
    lemma_decimal(n);
    let d = decimal(n);
    assert(is_digit(d[0]));
    assert forall|k: int| 0 <= k < d.len() implies !is_space(#[trigger] d[k]) by {
        assert(is_digit(d[k]));
    }
}

/// A word that ends at a space or at the end of the text.
proof fn lemma_words_word(s: Seq<char>, i: int, j: int)
    requires
        0 <= i < j <= s.len(),
        forall|k: int| i <= k < j ==> !is_space(#[trigger] s[k]),
        j < s.len() ==> is_space(s[j]),
    ensures
        words_from(s, i, Seq::empty()) == seq![s.subrange(i, j)] + if j < s.len() {
            words_from(s, j + 1, Seq::empty())
        } else {
            Seq::empty()
        },
{
    lemma_words_run(s, i, j, Seq::empty());
    assert(Seq::<char>::empty() + s.subrange(i, j) =~= s.subrange(i, j));
    if j == s.len() {
        assert(seq![s.subrange(i, j)] + Seq::<Seq<char>>::empty() =~= seq![s.subrange(i, j)]);
    }
}

/// The words of `x y z`, each of `x`, `y`, `z` a run of non-space characters.
proof fn lemma_words_three(x: Seq<char>, y: Seq<char>, z: Seq<char>)
    requires
        x.len() > 0 && y.len() > 0 && z.len() > 0,
        forall|k: int| 0 <= k < x.len() ==> !is_space(#[trigger] x[k]),
        forall|k: int| 0 <= k < y.len() ==> !is_space(#[trigger] y[k]),
        forall|k: int| 0 <= k < z.len() ==> !is_space(#[trigger] z[k]),
    ensures
        words(x + seq![' '] + y + seq![' '] + z) == seq![x, y, z],
{
    let s = x + seq![' '] + y + seq![' '] + z;
    let a = x.len() as int;
    let b = a + 1 + y.len();
    assert forall|k: int| 0 <= k < a implies !is_space(#[trigger] s[k]) by {
        assert(s[k] == x[k]);
    }
    assert forall|k: int| a + 1 <= k < b implies !is_space(#[trigger] s[k]) by {
        assert(s[k] == y[k - a - 1]);
    }
    assert forall|k: int| b + 1 <= k < s.len() implies !is_space(#[trigger] s[k]) by {
        assert(s[k] == z[k - b - 1]);
    }
    assert(s[a] == ' ' && s[b] == ' ');
    lemma_words_word(s, 0, a);
    lemma_words_word(s, a + 1, b);
    lemma_words_word(s, b + 1, s.len() as int);
    assert(s.subrange(0, a) =~= x);
    assert(s.subrange(a + 1, b) =~= y);
    assert(s.subrange(b + 1, s.len() as int) =~= z);
    assert(words(s) =~= seq![x, y, z]);
}

/// The words of `w x y z`, each a run of non-space characters.
proof fn lemma_words_four(w: Seq<char>, x: Seq<char>, y: Seq<char>, z: Seq<char>)
    requires
        w.len() > 0 && x.len() > 0 && y.len() > 0 && z.len() > 0,
        forall|k: int| 0 <= k < w.len() ==> !is_space(#[trigger] w[k]),
        forall|k: int| 0 <= k < x.len() ==> !is_space(#[trigger] x[k]),
        forall|k: int| 0 <= k < y.len() ==> !is_space(#[trigger] y[k]),
        forall|k: int| 0 <= k < z.len() ==> !is_space(#[trigger] z[k]),
    ensures
        words(w + seq![' '] + x + seq![' '] + y + seq![' '] + z) == seq![w, x, y, z],
{
    let s = w + seq![' '] + x + seq![' '] + y + seq![' '] + z;
    let a = w.len() as int;
    let b = a + 1 + x.len();
    let c = b + 1 + y.len();
    assert forall|k: int| 0 <= k < a implies !is_space(#[trigger] s[k]) by {
        assert(s[k] == w[k]);
    }
    assert forall|k: int| a + 1 <= k < b implies !is_space(#[trigger] s[k]) by {
        assert(s[k] == x[k - a - 1]);
    }
    assert forall|k: int| b + 1 <= k < c implies !is_space(#[trigger] s[k]) by {
        assert(s[k] == y[k - b - 1]);
    }
    assert forall|k: int| c + 1 <= k < s.len() implies !is_space(#[trigger] s[k]) by {
        assert(s[k] == z[k - c - 1]);
    }
    assert(s[a] == ' ' && s[b] == ' ' && s[c] == ' ');
    lemma_words_word(s, 0, a);
    lemma_words_word(s, a + 1, b);
    lemma_words_word(s, b + 1, c);
    lemma_words_word(s, c + 1, s.len() as int);
    assert(s.subrange(0, a) =~= w);
    assert(s.subrange(a + 1, b) =~= x);
    assert(s.subrange(b + 1, c) =~= y);
    assert(s.subrange(c + 1, s.len() as int) =~= z);
    assert(words(s) =~= seq![w, x, y, z]);
}

/// Reading the text form of an action gives the action back.
pub proof fn lemma_text_round_trip(a: Action)
    ensures
        parse_action(action_text(a)) == Ok::<Action, ParseError>(a),
{
    let s = action_text(a);
    let pl = player_text(a.player);
    match a.action {
        ActionKind::Place(p) => {
            lemma_parse_decimal(p as nat);
            assert(s =~= pl + seq![' '] + seq!['P'] + seq![' '] + decimal(p as nat));
            lemma_words_three(pl, seq!['P'], decimal(p as nat));
            assert(parse_player(pl) == Some(a.player));
        },
        ActionKind::Remove(p) => {
            lemma_parse_decimal(p as nat);
            assert(s =~= pl + seq![' '] + seq!['R'] + seq![' '] + decimal(p as nat));
            lemma_words_three(pl, seq!['R'], decimal(p as nat));
            assert(seq!['R'][0] != seq!['P'][0] && seq!['R'][0] != seq!['M'][0]);
            assert(parse_player(pl) == Some(a.player));
        },
        ActionKind::Move(from, to) => {
            lemma_parse_decimal(from as nat);
            lemma_parse_decimal(to as nat);
            assert(s =~= pl + seq![' '] + seq!['M'] + seq![' '] + decimal(from as nat) + seq![' ']
                + decimal(to as nat));
            lemma_words_four(pl, seq!['M'], decimal(from as nat), decimal(to as nat));
            assert(seq!['M'][0] != seq!['P'][0]);
            assert(parse_player(pl) == Some(a.player));
        },
    }
}

} // verus!
