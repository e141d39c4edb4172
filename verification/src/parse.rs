//! Decoding a solution from its whitespace-split tokens: four starting
//! coordinates, then one action per triple of tokens (a swap flag and two
//! direction characters), with the judge's cap on the number of actions.

use vstd::prelude::*;

use crate::board::{Dir, Input, MAX_N};
use crate::sim::{Action, Output};

verus! {

broadcast use vstd::string::group_string_axioms;

/// `c` is a decimal digit.
pub open spec fn is_digit(c: char) -> bool {
    48 <= c as int <= 57
}

/// The value of the digit `c`.
pub open spec fn digit_val(c: char) -> int {
    c as int - 48
}

/// The value of a digit string, most significant first.
pub open spec fn digits_val(s: Seq<char>) -> int
    decreases s.len(),
{
    if s.len() == 0 {
        0
    } else {
        digits_val(s.drop_last()) * 10 + digit_val(s.last())
    }
}

/// Every character of `s` is a decimal digit.
pub open spec fn all_digits(s: Seq<char>) -> bool {
    forall|i: int| 0 <= i < s.len() ==> is_digit(#[trigger] s[i])
}

/// `s` without an optional leading '+'.
pub open spec fn usize_body(s: Seq<char>) -> Seq<char> {
    if s.len() >= 1 && s[0] == '+' {
        s.drop_first()
    } else {
        s
    }
}

/// `s` is a decimal number as `usize` text: an optional '+', then digits.
pub open spec fn usize_grammar(s: Seq<char>) -> bool {
    usize_body(s).len() >= 1 && all_digits(usize_body(s))
}

/// The decimal value of a number token.
pub open spec fn usize_value(s: Seq<char>) -> int {
    digits_val(usize_body(s))
}

/// Relies on `str::parse::<usize>`: it accepts an optional leading '+'
/// followed by one or more decimal digits, and rejects anything else as
/// well as values over `usize::MAX`.
#[verifier::external_body]
fn parse_usize(s: &str) -> (r: Option<usize>)
    ensures
        match r {
            Option::Some(v) => usize_grammar(s@) && v == usize_value(s@),
            Option::None => !usize_grammar(s@) || usize_value(s@) > usize::MAX,
        },
{
    s.parse::<usize>().ok()
}

/// Why a solution text was rejected, with the offending token or value.
#[derive(PartialEq, Eq, Debug)]
pub enum ParseError {
    /// A token was missing.
    UnexpectedEof,
    /// A coordinate token is not a `usize` number.
    NotANumber { token: String },
    /// A coordinate lies outside `0 .. n`.
    CoordOutOfRange { value: usize },
    /// A direction token is not a single character.
    NotAChar { token: String },
    /// A direction character lies outside `'.' ..= 'Z'`.
    DirOutOfRange { ch: char },
    /// A swap token is neither "0" nor "1".
    BadSwapFlag { token: String },
    /// A direction character is none of U, D, L, R, '.'.
    BadDirection { ch: char },
    /// The solution holds more than `4 * n * n` actions.
    TooManyActions,
}

/// `ParseError` over mathematical values.
pub ghost enum GParseError {
    UnexpectedEof,
    NotANumber(Seq<char>),
    CoordOutOfRange(int),
    NotAChar(Seq<char>),
    DirOutOfRange(char),
    BadSwapFlag(Seq<char>),
    BadDirection(char),
    TooManyActions,
}

/// The mathematical value of a `ParseError`.
pub open spec fn err_view(e: ParseError) -> GParseError {
    match e {
        ParseError::UnexpectedEof => GParseError::UnexpectedEof,
        ParseError::NotANumber { token } => GParseError::NotANumber(token@),
        ParseError::CoordOutOfRange { value } => GParseError::CoordOutOfRange(value as int),
        ParseError::NotAChar { token } => GParseError::NotAChar(token@),
        ParseError::DirOutOfRange { ch } => GParseError::DirOutOfRange(ch),
        ParseError::BadSwapFlag { token } => GParseError::BadSwapFlag(token@),
        ParseError::BadDirection { ch } => GParseError::BadDirection(ch),
        ParseError::TooManyActions => GParseError::TooManyActions,
    }
}

/// Decoding one coordinate token against the bound `n`.
pub open spec fn decode_coord(t: Seq<char>, n: int) -> Result<int, GParseError> {
    if !usize_grammar(t) || usize_value(t) > usize::MAX {
        Result::Err(GParseError::NotANumber(t))
    } else if usize_value(t) >= n {
        Result::Err(GParseError::CoordOutOfRange(usize_value(t)))
    } else {
        Result::Ok(usize_value(t))
    }
}

/// Decoding one swap token: "1" swaps, "0" does not.
pub open spec fn decode_swap(t: Seq<char>) -> Result<bool, GParseError> {
    if t == "1"@ {
        Result::Ok(true)
    } else if t == "0"@ {
        Result::Ok(false)
    } else {
        Result::Err(GParseError::BadSwapFlag(t))
    }
}

/// Decoding one direction token to its character: it must be a single
/// character in `'.' ..= 'Z'`.
pub open spec fn decode_char(t: Seq<char>) -> Result<char, GParseError> {
    if t.len() != 1 {
        Result::Err(GParseError::NotAChar(t))
    } else if !(('.' as u32) <= (t[0] as u32) && (t[0] as u32) <= ('Z' as u32)) {
        Result::Err(GParseError::DirOutOfRange(t[0]))
    } else {
        Result::Ok(t[0])
    }
}

/// Decoding a direction character: '.' means no move.
pub open spec fn decode_dir(c: char) -> Result<Option<Dir>, GParseError> {
    if c == '.' {
        Result::Ok(Option::None)
    } else if c == 'U' {
        Result::Ok(Option::Some(Dir::U))
    } else if c == 'D' {
        Result::Ok(Option::Some(Dir::D))
    } else if c == 'L' {
        Result::Ok(Option::Some(Dir::L))
    } else if c == 'R' {
        Result::Ok(Option::Some(Dir::R))
    } else {
        Result::Err(GParseError::BadDirection(c))
    }
}

/// Decoding the four starting coordinates from the first four tokens.
pub open spec fn decode_start(toks: Seq<Seq<char>>, n: int) -> Result<
    (int, int, int, int),
    GParseError,
> {
    if toks.len() < 1 {
        Result::Err(GParseError::UnexpectedEof)
    } else {
        match decode_coord(toks[0], n) {
            Result::Err(e) => Result::Err(e),
            Result::Ok(c0) => if toks.len() < 2 {
                Result::Err(GParseError::UnexpectedEof)
            } else {
                match decode_coord(toks[1], n) {
                    Result::Err(e) => Result::Err(e),
                    Result::Ok(c1) => if toks.len() < 3 {
                        Result::Err(GParseError::UnexpectedEof)
                    } else {
                        match decode_coord(toks[2], n) {
                            Result::Err(e) => Result::Err(e),
                            Result::Ok(c2) => if toks.len() < 4 {
                                Result::Err(GParseError::UnexpectedEof)
                            } else {
                                match decode_coord(toks[3], n) {
                                    Result::Err(e) => Result::Err(e),
                                    Result::Ok(c3) => Result::Ok((c0, c1, c2, c3)),
                                }
                            },
                        }
                    },
                }
            },
        }
    }
}

/// Decoding one action from the three tokens at `idx`: the swap flag and
/// both direction characters are read first, in token order; only then are
/// the two characters held to the direction alphabet.
pub open spec fn decode_action(toks: Seq<Seq<char>>, idx: int) -> Result<Action, GParseError> {
    match decode_swap(toks[idx]) {
        Result::Err(e) => Result::Err(e),
        Result::Ok(sw) => if idx + 1 >= toks.len() {
            Result::Err(GParseError::UnexpectedEof)
        } else {
            match decode_char(toks[idx + 1]) {
                Result::Err(e) => Result::Err(e),
                Result::Ok(ch1) => if idx + 2 >= toks.len() {
                    Result::Err(GParseError::UnexpectedEof)
                } else {
                    match decode_char(toks[idx + 2]) {
                        Result::Err(e) => Result::Err(e),
                        Result::Ok(ch2) => match decode_dir(ch1) {
                            Result::Err(e) => Result::Err(e),
                            Result::Ok(m1) => match decode_dir(ch2) {
                                Result::Err(e) => Result::Err(e),
                                Result::Ok(m2) => Result::Ok((sw, m1, m2)),
                            },
                        },
                    }
                },
            }
        },
    }
}

/// Decoding the first `j` action slots after the four coordinates: slot `j`
/// starts at token `4 + 3 * j` and is skipped once the tokens are exhausted.
pub open spec fn decode_upto(toks: Seq<Seq<char>>, j: int) -> Result<Seq<Action>, GParseError>
    decreases j,
{
    if j <= 0 {
        Result::Ok(Seq::empty())
    } else {
        match decode_upto(toks, j - 1) {
            Result::Err(e) => Result::Err(e),
            Result::Ok(acc) => {
                let idx = 4 + 3 * (j - 1);
                if idx >= toks.len() {
                    Result::Ok(acc)
                } else {
                    match decode_action(toks, idx) {
                        Result::Err(e) => Result::Err(e),
                        Result::Ok(act) => Result::Ok(acc.push(act)),
                    }
                }
            },
        }
    }
}

/// Decoding every action of the token list.
pub open spec fn decode_actions(toks: Seq<Seq<char>>) -> Result<Seq<Action>, GParseError> {
    decode_upto(toks, toks.len() as int)
}

/// Decoding a whole solution: the starting coordinates, then the actions,
/// then the cap of `4 * n * n` actions.
pub open spec fn spec_parse(toks: Seq<Seq<char>>, n: int) -> Result<
    ((int, int, int, int), Seq<Action>),
    GParseError,
> {
    match decode_start(toks, n) {
        Result::Err(e) => Result::Err(e),
        Result::Ok(start) => match decode_actions(toks) {
            Result::Err(e) => Result::Err(e),
            Result::Ok(acts) => if acts.len() > 4 * n * n {
                Result::Err(GParseError::TooManyActions)
            } else {
                Result::Ok((start, acts))
            },
        },
    }
}

/// The mathematical values of a token list.
pub open spec fn tviews(ts: Seq<String>) -> Seq<Seq<char>> {
    Seq::new(ts.len(), |i: int| ts[i]@)
}

/// Everything `parse_tokens` promises: its result is exactly what
/// `spec_parse` decodes from the token values.
pub open spec fn parse_post(toks: Seq<Seq<char>>, n: int, r: Result<Output, ParseError>) -> bool {
    match spec_parse(toks, n) {
        Result::Ok(sa) => r matches Result::Ok(out) && {
            &&& (out.start.0 as int, out.start.1 as int, out.start.2 as int, out.start.3 as int)
                == sa.0
            &&& out.out@ == sa.1
        },
        Result::Err(ge) => r matches Result::Err(e) && err_view(e) == ge,
    }
}

proof fn lemma_decode_upto_err_persists(toks: Seq<Seq<char>>, j1: int, j2: int)
    requires
        0 <= j1 <= j2,
        decode_upto(toks, j1) is Err,
    ensures
        decode_upto(toks, j2) == decode_upto(toks, j1),
    decreases j2 - j1,
{
    if j2 > j1 {
        lemma_decode_upto_err_persists(toks, j1, j2 - 1);
    }
}

proof fn lemma_decode_upto_stable(toks: Seq<Seq<char>>, j1: int, j2: int)
    requires
        0 <= j1 <= j2,
        4 + 3 * j1 >= toks.len(),
        decode_upto(toks, j1) is Ok,
    ensures
        decode_upto(toks, j2) == decode_upto(toks, j1),
    decreases j2 - j1,
{
    if j2 > j1 {
        lemma_decode_upto_stable(toks, j1, j2 - 1);
    }
}

/// Decodes one coordinate token against the bound `n`.
fn parse_coord(token: &String, n: usize) -> (r: Result<usize, ParseError>)
    ensures
        match decode_coord(token@, n as int) {
            Result::Ok(v) => r matches Result::Ok(c) && c == v,
            Result::Err(ge) => r matches Result::Err(e) && err_view(e) == ge,
        },
{
    match parse_usize(token.as_str()) {
        Option::Some(v) => if v < n {
            Result::Ok(v)
        } else {
            Result::Err(ParseError::CoordOutOfRange { value: v })
        },
        Option::None => Result::Err(ParseError::NotANumber { token: token.clone() }),
    }
}

/// Decodes one swap token.
fn parse_swap(token: &String) -> (r: Result<bool, ParseError>)
    ensures
        match decode_swap(token@) {
            Result::Ok(v) => r matches Result::Ok(sw) && sw == v,
            Result::Err(ge) => r matches Result::Err(e) && err_view(e) == ge,
        },
{
    let one: String = "1".to_owned();
    let zero: String = "0".to_owned();
    if *token == one {
        Result::Ok(true)
    } else if *token == zero {
        Result::Ok(false)
    } else {
        Result::Err(ParseError::BadSwapFlag { token: token.clone() })
    }
}

/// The single character of `s`, where `s` holds exactly one.
fn single_char(s: &String) -> (r: Option<char>)
    ensures
        match r {
            Option::Some(c) => s@.len() == 1 && c == s@[0],
            Option::None => s@.len() != 1,
        },
{
    let mut it = s.as_str().chars();
    let first = it.next();
    match first {
        Option::None => Option::None,
        Option::Some(c) => {
            let second = it.next();
            match second {
                Option::None => Option::Some(c),
                Option::Some(_) => Option::None,
            }
        },
    }
}

/// Decodes one direction token to its character.
fn parse_char(token: &String) -> (r: Result<char, ParseError>)
    ensures
        match decode_char(token@) {
            Result::Ok(v) => r matches Result::Ok(c) && c == v,
            Result::Err(ge) => r matches Result::Err(e) && err_view(e) == ge,
        },
{
    match single_char(token) {
        Option::None => Result::Err(ParseError::NotAChar { token: token.clone() }),
        Option::Some(c) => {
            let cu = c as u32;
            if cu < ('.' as u32) || cu > ('Z' as u32) {
                Result::Err(ParseError::DirOutOfRange { ch: c })
            } else {
                Result::Ok(c)
            }
        },
    }
}

/// Decodes a direction character.
fn parse_dir(c: char) -> (r: Result<Option<Dir>, ParseError>)
    ensures
        match decode_dir(c) {
            Result::Ok(v) => r matches Result::Ok(m) && m == v,
            Result::Err(ge) => r matches Result::Err(e) && err_view(e) == ge,
        },
{
    if c == '.' {
        Result::Ok(Option::None)
    } else if c == 'U' {
        Result::Ok(Option::Some(Dir::U))
    } else if c == 'D' {
        Result::Ok(Option::Some(Dir::D))
    } else if c == 'L' {
        Result::Ok(Option::Some(Dir::L))
    } else if c == 'R' {
        Result::Ok(Option::Some(Dir::R))
    } else {
        Result::Err(ParseError::BadDirection { ch: c })
    }
}

/// Decodes a whitespace-split solution text: four starting coordinates in
/// `0 .. n`, then one action per triple of tokens, capped at `4 * n * n`
/// actions.  The result is exactly what the token grammar (`spec_parse`)
/// assigns to the tokens, errors included.
pub fn parse_tokens(input: &Input, tokens: &Vec<String>) -> (r: Result<Output, ParseError>)
    requires
        input.n <= MAX_N,
    ensures
        parse_post(tviews(tokens@), input.n as int, r),
{
    let ghost toks = tviews(tokens@);
    let n = input.n;
    if tokens.len() < 1 {
        return Result::Err(ParseError::UnexpectedEof);
    }
    let c0 = match parse_coord(&tokens[0], n) {
        Result::Ok(v) => v,
        Result::Err(e) => {
            return Result::Err(e);
        },
    };
    if tokens.len() < 2 {
        return Result::Err(ParseError::UnexpectedEof);
    }
    let c1 = match parse_coord(&tokens[1], n) {
        Result::Ok(v) => v,
        Result::Err(e) => {
            return Result::Err(e);
        },
    };
    if tokens.len() < 3 {
        return Result::Err(ParseError::UnexpectedEof);
    }
    let c2 = match parse_coord(&tokens[2], n) {
        Result::Ok(v) => v,
        Result::Err(e) => {
            return Result::Err(e);
        },
    };
    if tokens.len() < 4 {
        return Result::Err(ParseError::UnexpectedEof);
    }
    let c3 = match parse_coord(&tokens[3], n) {
        Result::Ok(v) => v,
        Result::Err(e) => {
            return Result::Err(e);
        },
    };

    let mut actions: Vec<Action> = Vec::new();
    let mut j_done: usize = 0;
    let mut idx: usize = 4;
    while idx < tokens.len()
        invariant
            toks == tviews(tokens@),
            n == input.n,
            n <= MAX_N,
            decode_start(toks, n as int) == Result::<(int, int, int, int), GParseError>::Ok(
                (c0 as int, c1 as int, c2 as int, c3 as int),
            ),
            tokens@.len() >= 4,
            idx == 4 + 3 * j_done,
            idx <= tokens@.len() + 2,
            decode_upto(toks, j_done as int) == Result::<Seq<Action>, GParseError>::Ok(actions@),
        decreases tokens@.len() - idx,
    {
        let ghost j_next = j_done as int + 1;
        let sw = match parse_swap(&tokens[idx]) {
            Result::Ok(v) => v,
            Result::Err(e) => {
                proof {
                    lemma_decode_upto_err_persists(toks, j_next, toks.len() as int);
                }
                return Result::Err(e);
            },
        };
        if idx + 1 >= tokens.len() {
            proof {
                lemma_decode_upto_err_persists(toks, j_next, toks.len() as int);
            }
            return Result::Err(ParseError::UnexpectedEof);
        }
        let ch1 = match parse_char(&tokens[idx + 1]) {
            Result::Ok(v) => v,
            Result::Err(e) => {
                proof {
                    lemma_decode_upto_err_persists(toks, j_next, toks.len() as int);
                }
                return Result::Err(e);
            },
        };
        if idx + 2 >= tokens.len() {
            proof {
                lemma_decode_upto_err_persists(toks, j_next, toks.len() as int);
            }
            return Result::Err(ParseError::UnexpectedEof);
        }
        let ch2 = match parse_char(&tokens[idx + 2]) {
            Result::Ok(v) => v,
            Result::Err(e) => {
                proof {
                    lemma_decode_upto_err_persists(toks, j_next, toks.len() as int);
                }
                return Result::Err(e);
            },
        };
        let m1 = match parse_dir(ch1) {
            Result::Ok(v) => v,
            Result::Err(e) => {
                proof {
                    lemma_decode_upto_err_persists(toks, j_next, toks.len() as int);
                }
                return Result::Err(e);
            },
        };
        let m2 = match parse_dir(ch2) {
            Result::Ok(v) => v,
            Result::Err(e) => {
                proof {
                    lemma_decode_upto_err_persists(toks, j_next, toks.len() as int);
                }
                return Result::Err(e);
            },
        };
        actions.push((sw, m1, m2));
        idx = idx + 3;
        j_done = j_done + 1;
    }
    proof {
        lemma_decode_upto_stable(toks, j_done as int, toks.len() as int);
        assert(4 * (n as int) * (n as int) <= 4000000) by (nonlinear_arith)
            requires
                1 <= n + 1 && n <= 1000,
        ;
    }
    if actions.len() > 4 * n * n {
        return Result::Err(ParseError::TooManyActions);
    }
    Result::Ok(Output { start: (c0, c1, c2, c3), out: actions })
}

} // verus!
