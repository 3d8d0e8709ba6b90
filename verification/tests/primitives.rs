use snake_cube::Orientation::{Front, Right, Up};
use snake_cube::Sign::{Negative, Positive};
use snake_cube::{add, candidate, delta_orientation, orthogonal, scale, Direction, Orientation};

#[test]
fn test_orthogonal() {
    let cases = [((Up, Up), false), ((Right, Up), true)];
    for ((o1, o2), expected) in cases.iter() {
        assert_eq!(*expected, orthogonal(o1, o2));
    }
}

#[test]
fn orthogonal_is_false_on_equal_axes_and_true_otherwise() {
    let all = [Up, Front, Right];
    for o1 in all.iter() {
        for o2 in all.iter() {
            assert_eq!(orthogonal(o1, o2), o1 != o2);
        }
        assert!(!orthogonal(o1, o1));
    }
}

#[test]
fn delta_orientation_gives_unit_vectors() {
    assert_eq!(delta_orientation(&Front), [1, 0, 0]);
    assert_eq!(delta_orientation(&Right), [0, 1, 0]);
    assert_eq!(delta_orientation(&Up), [0, 0, 1]);
}

#[test]
fn add_sums_each_coordinate() {
    assert_eq!(add([1, -2, 3], [10, 20, -30]), [11, 18, -27]);
    assert_eq!(add([0, 0, 0], [0, 0, 0]), [0, 0, 0]);
    assert_eq!(add([isize::MAX - 1, isize::MIN + 1, 0], [1, -1, 0]), [isize::MAX, isize::MIN, 0]);
}

#[test]
fn scale_multiplies_each_coordinate() {
    assert_eq!(scale(-1, [1, 0, 0]), [-1, 0, 0]);
    assert_eq!(scale(3, [1, -2, 5]), [3, -6, 15]);
    assert_eq!(scale(0, [7, 8, 9]), [0, 0, 0]);
}

#[test]
fn sign_value_is_plus_or_minus_one() {
    assert_eq!(Positive.value(), 1);
    assert_eq!(Negative.value(), -1);
}

#[test]
fn direction_labels() {
    let cases = [
        (Up, Positive, "up"),
        (Up, Negative, "down"),
        (Front, Positive, "front"),
        (Front, Negative, "back"),
        (Right, Positive, "right"),
        (Right, Negative, "left"),
    ];
    for (o, s, expected) in cases.iter() {
        assert_eq!(Direction::new(*o, *s).to_string(), *expected);
    }
}

#[test]
fn candidates_come_in_search_order() {
    let labels: Vec<&str> = (0..6).map(|r| candidate(r).to_string()).collect();
    assert_eq!(labels, vec!["front", "back", "right", "left", "up", "down"]);
}

#[test]
fn new_direction_keeps_its_parts() {
    let d = Direction::new(Orientation::Right, Negative);
    assert_eq!(d.orientation, Right);
    assert_eq!(d.sign, Negative);
    assert_eq!(d, Direction { orientation: Right, sign: Negative });
}

#[test]
fn format_solution_joins_labels_with_commas() {
    assert_eq!(snake_cube::format_solution(&vec![]), "");
    assert_eq!(snake_cube::format_solution(&vec![Direction::new(Up, Negative)]), "down");
    let folding = vec![
        Direction::new(Front, Positive),
        Direction::new(Right, Positive),
        Direction::new(Front, Negative),
        Direction::new(Up, Positive),
    ];
    assert_eq!(snake_cube::format_solution(&folding), "front,right,back,up");
}
