use std::collections::HashSet;

use mastermind::filter::{apply_filter, count_apply_filter};
use mastermind::input::{parse_row, parse_state};
use mastermind::score::compare_rows;
use mastermind::session::{Session, Status};
use mastermind::solve::optimal_solve;
use mastermind::solver::{find_best_move, worst_case, worst_feedback};
use mastermind::space::{gen_perms, gen_states};
use mastermind::types::{Game, MastermindError, Piece, Row, State};

use Piece::{Black, Blue, Green, Red, White, Yellow};

fn row(items: [Piece; 4]) -> Row {
    Row { items }
}

fn brute_worst(open: &[Row], guess: &Row) -> usize {
    gen_states()
        .iter()
        .map(|s| count_apply_filter(open, &(*guess, *s)))
        .max()
        .unwrap()
}

#[test]
fn score_identical_is_complete() {
    let c = row([Red, Green, Blue, Yellow]);
    assert_eq!(compare_rows(&c, &c), State::Complete);
}

#[test]
fn score_all_partial() {
    let t = row([Red, Green, Blue, Yellow]);
    let g = row([Green, Red, Yellow, Blue]);
    assert_eq!(compare_rows(&t, &g), State::Known(0, 4));
}

#[test]
fn score_repeated_color_not_double_counted() {
    let t = row([Red, Green, Blue, Yellow]);
    let g = row([Red, Red, Red, Red]);
    assert_eq!(compare_rows(&t, &g), State::Known(1, 0));
}

#[test]
fn score_mixed_exact_and_partial() {
    let t = row([Red, Red, Blue, Black]);
    let g = row([Red, Blue, Red, White]);
    assert_eq!(compare_rows(&t, &g), State::Known(1, 2));
    assert_eq!(compare_rows(&g, &t), State::Known(1, 2));
}

#[test]
fn score_of_every_code_against_itself() {
    for c in gen_perms() {
        assert_eq!(compare_rows(&c, &c), State::Complete);
    }
}

#[test]
fn score_bounds_over_sample_pairs() {
    let codes = gen_perms();
    for r in codes.iter().step_by(7) {
        for g in codes.iter().step_by(5) {
            match compare_rows(r, g) {
                State::Complete => assert_eq!(r, g),
                State::Known(full, partial) => {
                    assert!(full >= 0 && partial >= 0 && full + partial <= 4);
                    assert!(full < 4);
                    assert_ne!(r, g);
                }
                State::Unknown => panic!("a score is never unknown"),
            }
        }
    }
}

#[test]
fn code_space_size_and_distinct() {
    let codes = gen_perms();
    assert_eq!(codes.len(), 6 * 6 * 6 * 6);
    let set: HashSet<[Piece; 4]> = codes.iter().map(|r| r.items).collect();
    assert_eq!(set.len(), 1296);
}

#[test]
fn code_space_counter_order() {
    let codes = gen_perms();
    assert_eq!(codes[0], row([Red, Red, Red, Red]));
    assert_eq!(codes[1], row([Green, Red, Red, Red]));
    assert_eq!(codes[6], row([Red, Green, Red, Red]));
    assert_eq!(codes[1295], row([White, White, White, White]));
}

#[test]
fn feedback_space_order() {
    let states = gen_states();
    assert_eq!(states.len(), 15);
    assert_eq!(states[0], State::Known(0, 0));
    assert_eq!(states[4], State::Known(0, 4));
    assert_eq!(states[5], State::Known(1, 0));
    assert_eq!(states[14], State::Known(4, 0));
    assert!(!states.contains(&State::Complete));
}

#[test]
fn filter_keeps_true_target() {
    let codes = gen_perms();
    for t in codes.iter().step_by(97) {
        for g in codes.iter().step_by(131) {
            let fb = compare_rows(t, g);
            let kept = apply_filter(&codes, &(*g, fb));
            assert!(kept.contains(t));
            assert_eq!(kept.len(), count_apply_filter(&codes, &(*g, fb)));
            assert!(kept.iter().all(|c| compare_rows(c, g) == fb));
        }
    }
}

#[test]
fn filter_of_empty_set_is_empty() {
    let g = row([Red, Green, Blue, Yellow]);
    assert!(apply_filter(&[], &(g, State::Known(0, 0))).is_empty());
    assert_eq!(count_apply_filter(&[], &(g, State::Known(0, 0))), 0);
}

#[test]
fn worst_case_matches_brute_force() {
    let codes = gen_perms();
    let open: Vec<Row> = codes.iter().step_by(11).copied().collect();
    for g in codes.iter().step_by(53) {
        assert_eq!(worst_case(&open, g), brute_worst(&open, g));
    }
}

#[test]
fn first_minimax_guess_over_full_space() {
    let codes = gen_perms();
    let best = find_best_move(&codes).unwrap();
    assert_eq!(best, row([Green, Green, Red, Red]));
    assert_eq!(worst_case(&codes, &best), 256);
    assert_eq!(worst_case(&codes, &row([Red, Red, Red, Red])), 625);
}

#[test]
fn best_move_is_globally_minimax_and_first() {
    let codes = gen_perms();
    let open: Vec<Row> = codes.iter().step_by(37).copied().collect();
    let best = find_best_move(&open).unwrap();
    let best_worst = brute_worst(&open, &best);
    let pos = codes.iter().position(|c| *c == best).unwrap();
    for (i, c) in codes.iter().enumerate() {
        let w = brute_worst(&open, c);
        assert!(best_worst <= w);
        if i < pos {
            assert!(best_worst < w);
        }
    }
}

#[test]
fn best_move_of_empty_set_fails() {
    assert_eq!(find_best_move(&[]), Err(MastermindError::EmptyCandidateSet));
}

#[test]
fn worst_feedback_keeps_most_candidates() {
    let codes = gen_perms();
    let g = row([Red, Red, Green, Green]);
    let w = worst_feedback(&codes, &g);
    assert_eq!(count_apply_filter(&codes, &(g, w)), brute_worst(&codes, &g));
    assert_eq!(count_apply_filter(&codes, &(g, w)), 256);
}

#[test]
fn worst_feedback_ties_pick_last() {
    let g = row([Red, Green, Blue, Yellow]);
    assert_eq!(worst_feedback(&[], &g), State::Known(4, 0));
    assert_eq!(worst_feedback(&[g], &g), State::Known(4, 0));
    let open = vec![row([Green, Red, Blue, Yellow]), row([Red, Green, Yellow, Blue])];
    assert_eq!(worst_feedback(&open, &g), State::Known(2, 2));
}

#[test]
fn solve_within_five_guesses_on_sample() {
    let codes = gen_perms();
    for t in codes.iter().step_by(181) {
        let game = optimal_solve(t);
        assert_eq!(game.target, Some(*t));
        assert!(!game.rows.is_empty() && game.rows.len() <= 5);
        assert_eq!(game.rows.last().unwrap(), &(*t, State::Complete));
        for (g, s) in &game.rows {
            assert_eq!(compare_rows(t, g), *s);
        }
    }
}

#[test]
fn session_against_target() {
    let t = row([Blue, Blue, White, Black]);
    let mut s = Session::new(Some(t));
    assert_eq!(s.open.len(), 1296);
    let fb = s.submit(row([Red, Red, Green, Green]));
    assert_eq!(fb, State::Known(0, 0));
    assert_eq!(s.status, Status::InProgress);
    let fb = s.submit(t);
    assert_eq!(fb, State::Complete);
    assert_eq!(s.status, Status::Complete);
    assert_eq!(s.game.rows.len(), 2);
    assert_eq!(s.open, vec![t]);
}

#[test]
fn session_against_oracle_ends_complete() {
    let mut s = Session::new(None);
    let mut guesses = 0;
    while s.status == Status::InProgress {
        let g = find_best_move(&s.open).unwrap();
        let fb = s.submit(g);
        assert!(s.open.iter().all(|c| compare_rows(c, &g) == fb));
        guesses += 1;
        assert!(guesses <= 10);
    }
    assert_eq!(s.status, Status::Complete);
    let last = s.game.rows.last().unwrap().0;
    assert_eq!(s.game.target, Some(last));
    assert_eq!(s.open, vec![last]);
}

#[test]
fn session_unsatisfiable_feedback() {
    let mut s = Session::new(None);
    let g = row([Red, Green, Blue, Yellow]);
    s.record(g, State::Known(0, 4));
    assert_eq!(s.status, Status::InProgress);
    s.record(g, State::Known(4, 0));
    assert_eq!(s.status, Status::Unsatisfiable);
    assert!(s.open.is_empty());
}

#[test]
fn game_constructors() {
    let t = row([Red, Red, Red, Red]);
    let g = Game::new(t);
    assert_eq!(g.target, Some(t));
    assert!(g.rows.is_empty());
    let e = Game::empty();
    assert_eq!(e.target, None);
    assert!(e.rows.is_empty());
    assert_eq!(State::default(), State::Unknown);
}

#[test]
fn piece_ids_round_trip() {
    for id in 0u8..6 {
        let p = Piece::from_id(id).unwrap();
        assert_eq!(p.id(), id as usize);
    }
    assert_eq!(Piece::from_id(6), Err(MastermindError::InvalidPieceIdentifier));
    assert_eq!(Piece::from_id(255), Err(MastermindError::InvalidPieceIdentifier));
    assert_eq!(White.id(), 5);
}

#[test]
fn known_feedback_validation() {
    assert_eq!(State::known(2, 2), Ok(State::Known(2, 2)));
    assert_eq!(State::known(3, 2), Err(MastermindError::InvalidFeedback));
    assert_eq!(State::known(-1, 0), Err(MastermindError::InvalidFeedback));
}

#[test]
fn parse_row_cases() {
    assert_eq!(parse_row(b"0123"), Ok(row([Red, Green, Blue, Yellow])));
    assert_eq!(parse_row(b"5540"), Ok(row([White, White, Black, Red])));
    assert_eq!(parse_row(b"012"), Err(MastermindError::WrongLength));
    assert_eq!(parse_row(b"01234"), Err(MastermindError::WrongLength));
    assert_eq!(parse_row(b"0126"), Err(MastermindError::InvalidPieceIdentifier));
    assert_eq!(parse_row(b"a123"), Err(MastermindError::InvalidPieceIdentifier));
}

#[test]
fn parse_state_cases() {
    assert_eq!(parse_state(b"FfP"), Ok(State::Known(2, 1)));
    assert_eq!(parse_state(b""), Ok(State::Known(0, 0)));
    assert_eq!(parse_state(b"ffff"), Ok(State::Complete));
    assert_eq!(parse_state(b"pppp"), Ok(State::Known(0, 4)));
    assert_eq!(parse_state(b"FFFFP"), Err(MastermindError::InvalidFeedback));
    assert_eq!(parse_state(b"FX"), Err(MastermindError::InvalidFeedback));
}
