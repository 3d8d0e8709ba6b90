use snake_cube::Orientation::{Front, Right, Up};
use snake_cube::Sign::{Negative, Positive};
use snake_cube::{
    position_key, retract, segments_positive, solve_fast, solve_fast_rec, solve_naive,
    solve_naive_rec, try_extend_snake, valid_partial_solution, Direction, SearchState, SolveError,
    MAX_SIDE,
};
use std::collections::HashSet;

fn labels(solution: &Vec<Direction>) -> Vec<&'static str> {
    solution.iter().map(|d| d.to_string()).collect()
}

fn cells(snake: &Vec<usize>, solution: &Vec<Direction>) -> Vec<[isize; 3]> {
    let mut trace = vec![[0isize, 0, 0]];
    for (length, d) in snake.iter().zip(solution.iter()) {
        let axis = match d.orientation {
            Front => 0,
            Right => 1,
            Up => 2,
        };
        for _ in 0..*length {
            let mut next = trace[trace.len() - 1];
            next[axis] += d.sign.value();
            trace.push(next);
        }
    }
    trace
}

fn assert_fills_cube(snake: &Vec<usize>, size: usize, solution: &Vec<Direction>) {
    assert_eq!(solution.len(), snake.len());
    for pair in solution.windows(2) {
        assert_ne!(pair[0].orientation, pair[1].orientation);
    }
    let trace = cells(snake, solution);
    assert_eq!(trace.len(), size * size * size);
    let distinct: HashSet<[isize; 3]> = trace.iter().cloned().collect();
    assert_eq!(distinct.len(), trace.len());
    for axis in 0..3 {
        let lo = trace.iter().map(|p| p[axis]).min().unwrap();
        let hi = trace.iter().map(|p| p[axis]).max().unwrap();
        assert!(hi - lo < size as isize);
    }
    assert!(valid_partial_solution(snake, size, solution));
}

fn two_cube_snake() -> Vec<usize> {
    vec![1, 1, 1, 1, 1, 1, 1]
}

fn three_cube_snake() -> Vec<usize> {
    vec![2, 1, 1, 2, 1, 2, 1, 1, 2, 2, 1, 1, 1, 2, 2, 2, 2]
}

#[test]
fn two_cube_is_solved_by_both_searches() {
    let snake = two_cube_snake();
    let expected = vec!["front", "right", "back", "up", "front", "left", "back"];
    let naive = solve_naive(&snake).unwrap();
    let fast = solve_fast(&snake).unwrap();
    assert_eq!(labels(&naive), expected);
    assert_eq!(labels(&fast), expected);
    assert_fills_cube(&snake, 2, &naive);
    assert_fills_cube(&snake, 2, &fast);
}

#[test]
fn three_cube_is_solved_by_both_searches() {
    let snake = three_cube_snake();
    let expected = vec![
        "front", "right", "back", "up", "right", "down", "front", "up", "left", "back", "right",
        "down", "right", "up", "left", "front", "right",
    ];
    let naive = solve_naive(&snake).unwrap();
    let fast = solve_fast(&snake).unwrap();
    assert_eq!(labels(&naive), expected);
    assert_eq!(labels(&fast), expected);
    assert_fills_cube(&snake, 3, &naive);
    assert_fills_cube(&snake, 3, &fast);
}

#[test]
fn nine_cells_are_rejected_before_any_search() {
    let snake = vec![1, 1, 1, 1, 1, 1, 1, 1];
    assert_eq!(solve_naive(&snake), Err(SolveError::InvalidSnakeLength));
    assert_eq!(solve_fast(&snake), Err(SolveError::InvalidSnakeLength));
}

#[test]
fn a_segment_of_length_zero_is_malformed() {
    let snake = vec![1, 1, 0, 1, 1, 1, 1, 1];
    assert!(!segments_positive(&snake));
    assert_eq!(solve_naive(&snake), Err(SolveError::MalformedInput));
    assert_eq!(solve_fast(&snake), Err(SolveError::MalformedInput));
    assert_eq!(solve_fast(&vec![0, 1]), Err(SolveError::MalformedInput));
    assert!(segments_positive(&vec![1, 2, 3]));
    assert!(segments_positive(&vec![]));
}

#[test]
fn a_snake_that_cannot_be_folded_is_no_solution() {
    for snake in [vec![7], vec![2; 13], vec![3, 3, 1], vec![2, 2, 2, 1]].iter() {
        assert_eq!(solve_naive(snake), Err(SolveError::NoSolutionFound));
        assert_eq!(solve_fast(snake), Err(SolveError::NoSolutionFound));
    }
}

#[test]
fn the_empty_snake_is_solved_by_the_empty_folding() {
    assert_eq!(solve_naive(&vec![]), Ok(vec![]));
    assert_eq!(solve_fast(&vec![]), Ok(vec![]));
}

#[test]
fn searches_agree_on_every_short_snake_of_ones_and_twos() {
    for count in 0..9usize {
        for bits in 0..(1u32 << count) {
            let snake: Vec<usize> =
                (0..count).map(|i| if bits >> i & 1 == 1 { 2 } else { 1 }).collect();
            let naive = solve_naive(&snake);
            let fast = solve_fast(&snake);
            assert_eq!(naive, fast);
            if let Ok(solution) = naive {
                let total: usize = snake.iter().sum::<usize>() + 1;
                let size = if total == 1 { 1 } else if total == 8 { 2 } else { 3 };
                assert_fills_cube(&snake, size, &solution);
            }
        }
    }
}

#[test]
fn validator_accepts_a_partial_folding() {
    let snake = two_cube_snake();
    let partial = vec![
        Direction::new(Front, Positive),
        Direction::new(Right, Positive),
        Direction::new(Front, Negative),
    ];
    assert!(valid_partial_solution(&snake, 2, &partial));
    assert!(valid_partial_solution(&snake, 2, &vec![]));
}

#[test]
fn validator_rejects_a_collision() {
    let snake = two_cube_snake();
    let partial = vec![
        Direction::new(Front, Positive),
        Direction::new(Right, Positive),
        Direction::new(Front, Negative),
        Direction::new(Right, Negative),
    ];
    assert!(!valid_partial_solution(&snake, 2, &partial));
    assert!(valid_partial_solution(&snake, 2, &partial[..3].to_vec()));
}

#[test]
fn validator_rejects_a_trace_that_leaves_the_cube() {
    let snake = two_cube_snake();
    let straight = vec![Direction::new(Up, Positive), Direction::new(Up, Positive)];
    assert!(!valid_partial_solution(&snake, 2, &straight));
    assert!(valid_partial_solution(&snake, 3, &straight));
    assert!(!valid_partial_solution(&vec![3], 3, &vec![Direction::new(Right, Negative)]));
    assert!(valid_partial_solution(&vec![3], 4, &vec![Direction::new(Right, Negative)]));
}

#[test]
fn validator_rejects_everything_in_a_cube_of_side_zero() {
    assert!(!valid_partial_solution(&vec![], 0, &vec![]));
    assert!(valid_partial_solution(&vec![], 1, &vec![]));
}

#[test]
fn validator_leaves_out_directions_without_a_segment() {
    let snake = vec![1];
    let partial = vec![Direction::new(Front, Positive), Direction::new(Front, Negative)];
    assert!(valid_partial_solution(&snake, 2, &partial));
}

#[test]
fn naive_search_from_a_prefix_finds_the_first_solution_behind_it() {
    let snake = two_cube_snake();
    let mut partial = vec![Direction::new(Up, Positive)];
    assert!(solve_naive_rec(&snake, 2, &mut partial));
    assert_eq!(labels(&partial), vec!["up", "front", "right", "back", "down", "front", "left"]);
    assert_fills_cube(&snake, 2, &partial);
}

#[test]
fn naive_search_from_a_dead_prefix_restores_it() {
    let snake = vec![2; 13];
    let mut partial = vec![Direction::new(Up, Negative), Direction::new(Right, Positive)];
    assert!(!solve_naive_rec(&snake, 3, &mut partial));
    assert_eq!(partial, vec![Direction::new(Up, Negative), Direction::new(Right, Positive)]);
}

#[test]
fn fast_search_from_the_root_state() {
    let snake = two_cube_snake();
    let mut state = SearchState::new();
    assert!(state.partial_solution.is_empty());
    assert_eq!(state.trace.len(), 1);
    assert_eq!(state.trace[0].position, [0, 0, 0]);
    assert!(solve_fast_rec(&snake, 2, &mut state));
    assert_eq!(
        labels(&state.partial_solution),
        vec!["front", "right", "back", "up", "front", "left", "back"]
    );
    assert_eq!(state.trace.len(), 1);
    assert_eq!(state.trace[0].position, [0, 0, 0]);
    assert_eq!(state.visited.len(), 1);
    assert!(state.visited.contains(&position_key(&[0, 0, 0])));
}

#[test]
fn fast_search_from_a_laid_prefix_hands_back_trace_and_set() {
    let snake = two_cube_snake();
    let mut state = SearchState::new();
    assert!(try_extend_snake(&snake, 2, &mut state, Direction::new(Up, Positive)));
    assert!(solve_fast_rec(&snake, 2, &mut state));
    assert_eq!(
        labels(&state.partial_solution),
        vec!["up", "front", "right", "back", "down", "front", "left"]
    );
    assert_eq!(state.trace.len(), 2);
    assert_eq!(state.trace[1].position, [0, 0, 1]);
    assert_eq!(state.trace[1].lowest, [0, 0, 0]);
    assert_eq!(state.trace[1].highest, [0, 0, 1]);
    assert_eq!(state.visited.len(), 2);
    assert!(state.visited.contains(&position_key(&[0, 0, 0])));
    assert!(state.visited.contains(&position_key(&[0, 0, 1])));
}

#[test]
fn fast_search_without_a_solution_restores_the_state() {
    let snake = vec![2; 13];
    let mut state = SearchState::new();
    assert!(!solve_fast_rec(&snake, 3, &mut state));
    assert!(state.partial_solution.is_empty());
    assert_eq!(state.trace.len(), 1);
    assert_eq!(state.visited.len(), 1);
    assert!(state.visited.contains(&position_key(&[0, 0, 0])));
}

#[test]
fn extending_lays_a_whole_segment_or_nothing() {
    let snake = vec![2, 2, 2, 1];
    let mut state = SearchState::new();
    assert!(try_extend_snake(&snake, 3, &mut state, Direction::new(Front, Positive)));
    assert_eq!(state.partial_solution, vec![Direction::new(Front, Positive)]);
    assert_eq!(state.trace.len(), 3);
    assert_eq!(state.trace[2].position, [2, 0, 0]);
    assert_eq!(state.trace[2].lowest, [0, 0, 0]);
    assert_eq!(state.trace[2].highest, [2, 0, 0]);
    assert!(state.visited.contains(&position_key(&[1, 0, 0])));
    assert!(state.visited.contains(&position_key(&[2, 0, 0])));

    assert!(try_extend_snake(&snake, 3, &mut state, Direction::new(Up, Negative)));
    assert_eq!(state.trace.len(), 5);
    assert_eq!(state.trace[4].position, [2, 0, -2]);
    assert_eq!(state.trace[4].lowest, [0, 0, -2]);

    assert!(!try_extend_snake(&snake, 3, &mut state, Direction::new(Front, Positive)));
    assert_eq!(state.partial_solution.len(), 2);
    assert_eq!(state.trace.len(), 5);
    assert_eq!(state.visited.len(), 5);
}

#[test]
fn extending_into_a_visited_cell_is_undone() {
    let snake = vec![1, 1, 1, 2];
    let mut state = SearchState::new();
    assert!(try_extend_snake(&snake, 3, &mut state, Direction::new(Front, Positive)));
    assert!(try_extend_snake(&snake, 3, &mut state, Direction::new(Right, Positive)));
    assert!(try_extend_snake(&snake, 3, &mut state, Direction::new(Front, Negative)));
    assert!(!try_extend_snake(&snake, 3, &mut state, Direction::new(Right, Negative)));
    assert_eq!(state.partial_solution.len(), 3);
    assert_eq!(state.trace.len(), 4);
    assert_eq!(state.visited.len(), 4);
    assert!(try_extend_snake(&snake, 3, &mut state, Direction::new(Up, Positive)));
    assert_eq!(state.trace.len(), 6);
    assert_eq!(state.trace[5].position, [0, 1, 2]);
}

#[test]
fn retracting_lifts_the_last_cells() {
    let snake = vec![2, 1];
    let mut state = SearchState::new();
    assert!(try_extend_snake(&snake, 3, &mut state, Direction::new(Right, Negative)));
    retract(&mut state, 1);
    assert_eq!(state.trace.len(), 2);
    assert_eq!(state.trace[1].position, [0, -1, 0]);
    assert!(!state.visited.contains(&position_key(&[0, -2, 0])));
    assert!(state.visited.contains(&position_key(&[0, -1, 0])));
    retract(&mut state, 1);
    assert_eq!(state.trace.len(), 1);
    assert_eq!(state.visited.len(), 1);
}

#[test]
fn position_key_packs_three_coordinates() {
    let offset: u128 = 1 << 32;
    let width: u128 = 1 << 33;
    assert_eq!(position_key(&[0, 0, 0]), (offset * width + offset) * width + offset);
    assert_eq!(position_key(&[1, -2, 3]), ((offset + 1) * width + offset - 2) * width + offset + 3);
    let far = MAX_SIDE as isize;
    assert_eq!(position_key(&[-far, -far, -far]), (width + 1) * width + 1);
    assert_ne!(position_key(&[1, 0, 0]), position_key(&[0, 1, 0]));
    assert_ne!(position_key(&[0, 0, 1]), position_key(&[0, 1, 0]));
}

#[test]
fn four_cube_is_solved_by_the_fast_search() {
    let snake = vec![
        2, 1, 2, 1, 1, 3, 1, 2, 1, 2, 1, 2, 1, 1, 1, 1, 1, 1, 1, 1, 2, 2, 1, 1, 1, 1, 1, 2, 3, 1,
        1, 1, 3, 1, 2, 1, 1, 1, 1, 1, 1, 1, 1, 1, 3, 1,
    ];
    let expected = vec![
        "front", "right", "back", "right", "front", "up", "back", "down", "left", "up", "front",
        "down", "front", "right", "down", "front", "up", "left", "down", "left", "up", "right",
        "back", "left", "up", "right", "front", "left", "back", "down", "left", "up", "front",
        "down", "back", "right", "front", "down", "left", "back", "right", "back", "left", "down",
        "front", "up",
    ];
    let fast = solve_fast(&snake).unwrap();
    assert_eq!(labels(&fast), expected);
    assert_fills_cube(&snake, 4, &fast);
}

#[test]
fn extending_out_of_the_cube_midway_lifts_the_cells_already_laid() {
    let snake = vec![1, 1, 2];
    let mut state = SearchState::new();
    assert!(try_extend_snake(&snake, 2, &mut state, Direction::new(Front, Positive)));
    assert!(try_extend_snake(&snake, 2, &mut state, Direction::new(Right, Positive)));
    assert!(!try_extend_snake(&snake, 2, &mut state, Direction::new(Front, Negative)));
    assert_eq!(state.partial_solution.len(), 2);
    assert_eq!(state.trace.len(), 3);
    assert_eq!(state.trace[2].position, [1, 1, 0]);
    assert_eq!(state.visited.len(), 3);
    assert!(!state.visited.contains(&position_key(&[0, 1, 0])));
    assert!(!try_extend_snake(&snake, 2, &mut state, Direction::new(Up, Negative)));
    assert_eq!(state.trace.len(), 3);
}
