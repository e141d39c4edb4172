use grid_judge::board::{can_move, Dir, Input};
use grid_judge::minmax::SetMinMax;
use grid_judge::rough::compute_diff;
use grid_judge::score::finish_score;
use grid_judge::sim::{compute_score_details, Action, SimError};

fn open_board2() -> Input {
    Input {
        ty: 0,
        n: 2,
        a: vec![vec![1, 2], vec![3, 4]],
        vs: vec![vec![false], vec![false]],
        hs: vec![vec![false, false]],
    }
}

fn ratio_of(before: i64, after: i64) -> i64 {
    (1e6 * ((before as f64).log2() - (after as f64).log2())).round() as i64
}

fn score_of(input: &Input, start: (usize, usize, usize, usize), acts: &Vec<Action>) -> (i64, String) {
    let d = compute_score_details(input, start, acts, acts.len());
    let ratio = match d.err {
        None if d.before > 0 && d.after > 0 => ratio_of(d.before, d.after),
        _ => 0,
    };
    let score = finish_score(&d.err, d.before, d.after, ratio);
    let msg = match d.err {
        Some(e) => e.message().to_string(),
        None => String::new(),
    };
    (score, msg)
}

#[test]
fn can_move_open_board_in_bounds() {
    let b = open_board2();
    // From the top-left corner, only Down and Right stay on the board.
    assert!(can_move(2, &b.hs, &b.vs, 0, 0, Dir::D));
    assert!(can_move(2, &b.hs, &b.vs, 0, 0, Dir::R));
    assert!(!can_move(2, &b.hs, &b.vs, 0, 0, Dir::U));
    assert!(!can_move(2, &b.hs, &b.vs, 0, 0, Dir::L));
    // From the bottom-right corner, only Up and Left stay on the board.
    assert!(can_move(2, &b.hs, &b.vs, 1, 1, Dir::U));
    assert!(can_move(2, &b.hs, &b.vs, 1, 1, Dir::L));
    assert!(!can_move(2, &b.hs, &b.vs, 1, 1, Dir::D));
    assert!(!can_move(2, &b.hs, &b.vs, 1, 1, Dir::R));
}

#[test]
fn can_move_respects_walls() {
    let mut b = open_board2();
    b.vs[0][0] = true;
    b.hs[0][1] = true;
    assert!(!can_move(2, &b.hs, &b.vs, 0, 0, Dir::R));
    assert!(!can_move(2, &b.hs, &b.vs, 0, 1, Dir::L));
    assert!(!can_move(2, &b.hs, &b.vs, 0, 1, Dir::D));
    assert!(!can_move(2, &b.hs, &b.vs, 1, 1, Dir::U));
    assert!(can_move(2, &b.hs, &b.vs, 0, 0, Dir::D));
    assert!(can_move(2, &b.hs, &b.vs, 1, 0, Dir::R));
}

#[test]
fn roughness_example() {
    let b = open_board2();
    assert_eq!(compute_diff(&b, &b.a), 10);
}

#[test]
fn roughness_zero_on_equal_values() {
    let mut b = open_board2();
    b.a = vec![vec![3, 3], vec![3, 3]];
    assert_eq!(compute_diff(&b, &b.a), 0);
}

#[test]
fn roughness_zero_when_fully_walled() {
    let b = Input {
        ty: 0,
        n: 2,
        a: vec![vec![1, 2], vec![3, 4]],
        vs: vec![vec![true], vec![true]],
        hs: vec![vec![true, true]],
    };
    assert_eq!(compute_diff(&b, &b.a), 0);
}

#[test]
fn roughness_single_cell_board() {
    let b = Input { ty: 0, n: 1, a: vec![vec![1]], vs: vec![vec![]], hs: vec![] };
    assert_eq!(compute_diff(&b, &b.a), 0);
}

#[test]
fn swap_exchanges_the_two_cells() {
    let b = open_board2();
    let acts: Vec<Action> = vec![(true, None, None)];
    let d = compute_score_details(&b, (0, 0, 1, 1), &acts, 1);
    assert!(d.err.is_none());
    assert_eq!(d.grid, vec![vec![4, 2], vec![3, 1]]);
    assert_eq!(d.p1, (0, 0));
    assert_eq!(d.p2, (1, 1));
    assert_eq!(d.before, 10);
    // (4-2)^2 + (4-3)^2 + (2-1)^2 + (3-1)^2 = 10
    assert_eq!(d.after, 10);
}

#[test]
fn single_move_scenario_scores_one() {
    let b = open_board2();
    let acts: Vec<Action> = vec![(false, Some(Dir::R), Some(Dir::L))];
    let d = compute_score_details(&b, (0, 0, 1, 1), &acts, 1);
    assert!(d.err.is_none());
    assert_eq!(d.before, 10);
    assert_eq!(d.after, 10);
    assert_eq!(d.p1, (0, 1));
    assert_eq!(d.p2, (1, 0));
    assert_eq!(d.grid, vec![vec![1, 2], vec![3, 4]]);
    let (score, msg) = score_of(&b, (0, 0, 1, 1), &acts);
    assert_eq!(score, 1);
    assert_eq!(msg, "");
}

#[test]
fn improving_swap_scores_log_ratio() {
    let mut b = open_board2();
    b.a = vec![vec![1, 2], vec![4, 3]];
    // Swapping the bottom row turns roughness 12 into roughness 10.
    let acts: Vec<Action> = vec![(true, None, None)];
    let d = compute_score_details(&b, (1, 0, 1, 1), &acts, 1);
    assert!(d.err.is_none());
    assert_eq!(d.before, 12);
    assert_eq!(d.after, 10);
    let (score, msg) = score_of(&b, (1, 0, 1, 1), &acts);
    // round(1_000_000 * (log2(12) - log2(10))) = 263034
    assert_eq!(score, 263034);
    assert_eq!(msg, "");
}

#[test]
fn illegal_left_by_t_scores_zero() {
    let b = open_board2();
    let acts: Vec<Action> = vec![(false, Some(Dir::L), None)];
    let d = compute_score_details(&b, (0, 0, 1, 1), &acts, 1);
    assert_eq!(d.err, Some(SimError::InvalidMove { by_a: false, dir: Dir::L }));
    let (score, msg) = score_of(&b, (0, 0, 1, 1), &acts);
    assert_eq!(score, 0);
    assert!(msg.contains("Invalid move by T"));
    assert_eq!(msg, "Invalid move by T: L");
}

#[test]
fn illegal_left_by_a_scores_zero() {
    let b = open_board2();
    let acts: Vec<Action> = vec![(false, None, Some(Dir::L))];
    let d = compute_score_details(&b, (0, 1, 1, 0), &acts, 1);
    assert_eq!(d.err, Some(SimError::InvalidMove { by_a: true, dir: Dir::L }));
    let (score, msg) = score_of(&b, (0, 1, 1, 0), &acts);
    assert_eq!(score, 0);
    assert!(msg.contains("Invalid move by A"));
    assert_eq!(msg, "Invalid move by A: L");
}

#[test]
fn failing_step_keeps_its_swap() {
    let b = open_board2();
    // The swap happens before the illegal move is discovered, so the
    // reported state reflects it.
    let acts: Vec<Action> = vec![(true, Some(Dir::U), None)];
    let d = compute_score_details(&b, (0, 0, 1, 1), &acts, 1);
    assert_eq!(d.err, Some(SimError::InvalidMove { by_a: false, dir: Dir::U }));
    assert_eq!(d.grid, vec![vec![4, 2], vec![3, 1]]);
    assert_eq!(d.p1, (0, 0));
    assert_eq!(d.p2, (1, 1));
}

#[test]
fn failure_freezes_later_actions() {
    let b = open_board2();
    let acts: Vec<Action> =
        vec![(false, Some(Dir::U), None), (true, Some(Dir::D), Some(Dir::U))];
    let d = compute_score_details(&b, (0, 0, 1, 1), &acts, 2);
    assert_eq!(d.err, Some(SimError::InvalidMove { by_a: false, dir: Dir::U }));
    assert_eq!(d.grid, vec![vec![1, 2], vec![3, 4]]);
    assert_eq!(d.p1, (0, 0));
    assert_eq!(d.p2, (1, 1));
}

#[test]
fn action_cap_scores_zero() {
    let b = open_board2();
    // 4 * n * n = 16; one action too many.
    let acts: Vec<Action> = vec![(false, None, None); 17];
    let d = compute_score_details(&b, (0, 0, 1, 1), &acts, 17);
    assert_eq!(d.err, Some(SimError::TooManyActions));
    assert_eq!(d.grid, vec![vec![1, 2], vec![3, 4]]);
    assert_eq!(d.p1, (0, 0));
    assert_eq!(d.p2, (1, 1));
    assert_eq!(d.before, 10);
    assert_eq!(d.after, 10);
    let (score, msg) = score_of(&b, (0, 0, 1, 1), &acts);
    assert_eq!(score, 0);
    assert_eq!(msg, "Too many actions");
}

#[test]
fn action_cap_boundary_is_allowed() {
    let b = open_board2();
    let acts: Vec<Action> = vec![(false, None, None); 16];
    let d = compute_score_details(&b, (0, 0, 1, 1), &acts, 16);
    assert!(d.err.is_none());
}

#[test]
fn prefix_replay_matches_full_replay() {
    let b = open_board2();
    let acts: Vec<Action> = vec![
        (true, Some(Dir::R), Some(Dir::L)),
        (false, Some(Dir::D), Some(Dir::U)),
        (true, None, None),
    ];
    let full = compute_score_details(&b, (0, 0, 1, 1), &acts, 3);
    assert!(full.err.is_none());
    for k in 0..3usize {
        let prefix_only: Vec<Action> = acts[..k].to_vec();
        let a = compute_score_details(&b, (0, 0, 1, 1), &acts, k);
        let c = compute_score_details(&b, (0, 0, 1, 1), &prefix_only, k);
        assert_eq!(a.grid, c.grid);
        assert_eq!(a.p1, c.p1);
        assert_eq!(a.p2, c.p2);
        assert_eq!(a.err, c.err);
        assert_eq!(a.before, c.before);
        assert_eq!(a.after, c.after);
    }
}

#[test]
fn finish_score_cases() {
    assert_eq!(finish_score(&Some(SimError::TooManyActions), 10, 10, 55), 0);
    assert_eq!(
        finish_score(&Some(SimError::InvalidMove { by_a: false, dir: Dir::U }), 12, 10, 263034),
        0
    );
    assert_eq!(finish_score(&None, 0, 10, 777), 1);
    assert_eq!(finish_score(&None, 10, 0, 777), 1);
    assert_eq!(finish_score(&None, 10, 12, -263034), 1);
    assert_eq!(finish_score(&None, 10, 10, 0), 1);
    assert_eq!(finish_score(&None, 12, 10, 263034), 263034);
}

#[test]
fn error_messages_are_exact() {
    assert_eq!(SimError::TooManyActions.message(), "Too many actions");
    assert_eq!(
        SimError::InvalidMove { by_a: false, dir: Dir::U }.message(),
        "Invalid move by T: U"
    );
    assert_eq!(
        SimError::InvalidMove { by_a: false, dir: Dir::D }.message(),
        "Invalid move by T: D"
    );
    assert_eq!(
        SimError::InvalidMove { by_a: false, dir: Dir::L }.message(),
        "Invalid move by T: L"
    );
    assert_eq!(
        SimError::InvalidMove { by_a: false, dir: Dir::R }.message(),
        "Invalid move by T: R"
    );
    assert_eq!(SimError::InvalidMove { by_a: true, dir: Dir::U }.message(), "Invalid move by A: U");
    assert_eq!(SimError::InvalidMove { by_a: true, dir: Dir::D }.message(), "Invalid move by A: D");
    assert_eq!(SimError::InvalidMove { by_a: true, dir: Dir::L }.message(), "Invalid move by A: L");
    assert_eq!(SimError::InvalidMove { by_a: true, dir: Dir::R }.message(), "Invalid move by A: R");
}

#[test]
fn setmin_setmax() {
    let mut x: i64 = 10;
    assert!(x.setmin(3));
    assert_eq!(x, 3);
    assert!(!x.setmin(5));
    assert_eq!(x, 3);
    assert!(x.setmax(8));
    assert_eq!(x, 8);
    assert!(!x.setmax(8));
    assert_eq!(x, 8);
    let mut y: usize = 4;
    assert!(!y.setmin(4));
    assert_eq!(y, 4);
    assert!(y.setmax(9));
    assert_eq!(y, 9);
}
