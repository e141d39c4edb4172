use grid_judge::board::{Dir, Input};
use grid_judge::parse::{parse_tokens, ParseError};
use grid_judge::sim::Action;

fn board(n: usize) -> Input {
    // Only the board size matters for decoding.
    Input {
        ty: 0,
        n,
        a: vec![vec![0; n]; n],
        vs: vec![vec![false; n - 1]; n],
        hs: vec![vec![false; n]; n - 1],
    }
}

fn toks(words: &[&str]) -> Vec<String> {
    words.iter().map(|w| w.to_string()).collect()
}

#[test]
fn parse_valid_solution() {
    let b = board(2);
    let out = parse_tokens(&b, &toks(&["0", "0", "1", "1", "0", "R", "L", "1", ".", "."]))
        .expect("decodes");
    assert_eq!(out.start, (0, 0, 1, 1));
    let expected: Vec<Action> =
        vec![(false, Some(Dir::R), Some(Dir::L)), (true, None, None)];
    assert_eq!(out.out, expected);
}

#[test]
fn parse_accepts_plus_and_leading_zeros() {
    let b = board(12);
    let out = parse_tokens(&b, &toks(&["+3", "007", "0", "11"])).expect("decodes");
    assert_eq!(out.start, (3, 7, 0, 11));
    assert_eq!(out.out, Vec::<Action>::new());
}

#[test]
fn parse_rejects_missing_tokens() {
    let b = board(2);
    assert_eq!(parse_tokens(&b, &toks(&[])), Err(ParseError::UnexpectedEof));
    assert_eq!(parse_tokens(&b, &toks(&["0", "0", "1"])), Err(ParseError::UnexpectedEof));
    // A started action must be completed.
    assert_eq!(
        parse_tokens(&b, &toks(&["0", "0", "1", "1", "0", "R"])),
        Err(ParseError::UnexpectedEof)
    );
}

#[test]
fn parse_rejects_bad_numbers() {
    let b = board(2);
    assert_eq!(
        parse_tokens(&b, &toks(&["x", "0", "1", "1"])),
        Err(ParseError::NotANumber { token: "x".to_string() })
    );
    assert_eq!(
        parse_tokens(&b, &toks(&["-1", "0", "1", "1"])),
        Err(ParseError::NotANumber { token: "-1".to_string() })
    );
    assert_eq!(
        parse_tokens(&b, &toks(&["99999999999999999999999999", "0", "1", "1"])),
        Err(ParseError::NotANumber { token: "99999999999999999999999999".to_string() })
    );
}

#[test]
fn parse_rejects_out_of_range_coordinates() {
    let b = board(2);
    assert_eq!(
        parse_tokens(&b, &toks(&["0", "2", "1", "1"])),
        Err(ParseError::CoordOutOfRange { value: 2 })
    );
}

#[test]
fn parse_rejects_bad_swap_flag() {
    let b = board(2);
    assert_eq!(
        parse_tokens(&b, &toks(&["0", "0", "1", "1", "2", "R", "L"])),
        Err(ParseError::BadSwapFlag { token: "2".to_string() })
    );
}

#[test]
fn parse_rejects_bad_directions() {
    let b = board(2);
    // A multi-character direction token is not a char.
    assert_eq!(
        parse_tokens(&b, &toks(&["0", "0", "1", "1", "0", "RR", "L"])),
        Err(ParseError::NotAChar { token: "RR".to_string() })
    );
    // A lower-case letter lies outside '.' ..= 'Z'.
    assert_eq!(
        parse_tokens(&b, &toks(&["0", "0", "1", "1", "0", "r", "L"])),
        Err(ParseError::DirOutOfRange { ch: 'r' })
    );
    // An upper-case letter in range that is no direction.
    assert_eq!(
        parse_tokens(&b, &toks(&["0", "0", "1", "1", "0", "X", "L"])),
        Err(ParseError::BadDirection { ch: 'X' })
    );
}

#[test]
fn parse_reads_both_characters_before_judging_directions() {
    let b = board(2);
    // The second direction token is read (and can fail) before the first
    // one is held to the direction alphabet.
    assert_eq!(
        parse_tokens(&b, &toks(&["0", "0", "1", "1", "0", "X"])),
        Err(ParseError::UnexpectedEof)
    );
    assert_eq!(
        parse_tokens(&b, &toks(&["0", "0", "1", "1", "0", "X", "r"])),
        Err(ParseError::DirOutOfRange { ch: 'r' })
    );
}

#[test]
fn parse_enforces_the_action_cap() {
    let b = board(2);
    let mut words: Vec<&str> = vec!["0", "0", "1", "1"];
    for _ in 0..17 {
        words.extend_from_slice(&["0", ".", "."]);
    }
    assert_eq!(parse_tokens(&b, &toks(&words)), Err(ParseError::TooManyActions));
    let mut words16: Vec<&str> = vec!["0", "0", "1", "1"];
    for _ in 0..16 {
        words16.extend_from_slice(&["0", ".", "."]);
    }
    let out = parse_tokens(&b, &toks(&words16)).expect("decodes");
    assert_eq!(out.out.len(), 16);
}
