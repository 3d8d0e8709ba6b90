use snake_cube::{floor_cube_root, snake_length, snake_size, SolveError};

#[test]
fn test_snake_size() {
    let cases = [
        (vec![1, 1, 1, 1, 1, 1, 1], 2),
        (vec![2, 1, 1, 2, 1, 2, 1, 1, 2, 2, 1, 1, 1, 2, 2, 2, 2], 3),
    ];
    for (snake, expected_size) in cases.iter() {
        assert_eq!(Ok(*expected_size), snake_size(snake));
    }
}

#[test]
#[should_panic]
fn test_snake_size_panic() {
    let snake = vec![1, 1, 1, 1, 1, 1, 1, 1];
    snake_size(&snake).unwrap();
}

#[test]
fn nine_cells_are_no_cube() {
    let snake = vec![1, 1, 1, 1, 1, 1, 1, 1];
    assert_eq!(snake_length(&snake), 9);
    assert_eq!(snake_size(&snake), Err(SolveError::InvalidSnakeLength));
}

#[test]
fn empty_snake_fills_the_unit_cube() {
    assert_eq!(snake_length(&vec![]), 1);
    assert_eq!(snake_size(&vec![]), Ok(1));
}

#[test]
fn size_of_the_four_cube_snake() {
    let snake = vec![
        2, 1, 2, 1, 1, 3, 1, 2, 1, 2, 1, 2, 1, 1, 1, 1, 1, 1, 1, 1, 2, 2, 1, 1, 1, 1, 1, 2, 3, 1,
        1, 1, 3, 1, 2, 1, 1, 1, 1, 1, 1, 1, 1, 1, 3, 1,
    ];
    assert_eq!(snake_length(&snake), 64);
    assert_eq!(snake_size(&snake), Ok(4));
}

#[test]
fn every_small_cube_is_recognised() {
    for n in 1usize..60 {
        let total = n * n * n;
        assert_eq!(snake_size(&vec![total - 1]), Ok(n));
        assert_eq!(snake_size(&vec![total]), Err(SolveError::InvalidSnakeLength));
        if n > 1 {
            assert_eq!(snake_size(&vec![total - 2]), Err(SolveError::InvalidSnakeLength));
        }
    }
}

#[test]
fn near_cubes_of_large_numbers_are_told_apart() {
    let n: usize = 2_097_151;
    let total = n * n * n;
    assert_eq!(snake_size(&vec![total - 1]), Ok(n));
    assert_eq!(snake_size(&vec![total]), Err(SolveError::InvalidSnakeLength));
    assert_eq!(snake_size(&vec![total - 2]), Err(SolveError::InvalidSnakeLength));
}

#[test]
fn lengths_beyond_usize_are_added_exactly() {
    let snake = vec![usize::MAX, usize::MAX, 5];
    assert_eq!(snake_length(&snake), 2 * (usize::MAX as u128) + 6);
    assert_eq!(snake_size(&snake), Err(SolveError::InvalidSnakeLength));
}

#[test]
fn floor_cube_root_values() {
    assert_eq!(floor_cube_root(0), 0);
    assert_eq!(floor_cube_root(1), 1);
    assert_eq!(floor_cube_root(7), 1);
    assert_eq!(floor_cube_root(8), 2);
    assert_eq!(floor_cube_root(26), 2);
    assert_eq!(floor_cube_root(27), 3);
    assert_eq!(floor_cube_root(63), 3);
    assert_eq!(floor_cube_root(64), 4);
    assert_eq!(floor_cube_root(1_000_000_000_000_000_000), 1_000_000);
    assert_eq!(floor_cube_root(u128::MAX), 6_981_463_658_331);
}
