use cursed_warden::plugins::geometry::{cell_key_of, placed_cells_of, rotate_shape, rotate_vector, GridVec};

fn v(x: i32, y: i32) -> GridVec {
    GridVec { x, y }
}

#[test]
fn quarter_turns() {
    assert_eq!(rotate_vector(v(2, 1), 0), v(2, 1));
    assert_eq!(rotate_vector(v(2, 1), 1), v(-1, 2));
    assert_eq!(rotate_vector(v(2, 1), 2), v(-2, -1));
    assert_eq!(rotate_vector(v(2, 1), 3), v(1, -2));
    assert_eq!(rotate_vector(v(2, 1), 5), v(-1, 2));
    // four turns give the vector back
    let mut w = v(3, -7);
    for _ in 0..4 {
        w = rotate_vector(w, 1);
    }
    assert_eq!(w, v(3, -7));
}

#[test]
fn shapes_turn_and_anchor() {
    let shape = vec![v(0, 0), v(1, 0)];
    assert_eq!(rotate_shape(&shape, 1), vec![v(0, 0), v(0, 1)]);
    assert_eq!(placed_cells_of(v(5, 5), &shape, 2), vec![v(5, 5), v(4, 5)]);
    assert_eq!(v(1, 2).offset_by(v(3, -4)), v(4, -2));
    assert_eq!(v(1, 2).minus(v(3, -4)), v(-2, 6));
}

#[test]
fn cell_keys_are_distinct() {
    assert_eq!(cell_key_of(v(0, 0)), 2147483648);
    assert_eq!(cell_key_of(v(i32::MIN, i32::MIN)), i64::MIN);
    assert_eq!(cell_key_of(v(i32::MAX, i32::MAX)), i64::MAX);
    assert_ne!(cell_key_of(v(1, 0)), cell_key_of(v(0, 1)));
}

#[test]
fn shape_turns_compose() {
    let shape = vec![v(0, 0), v(1, 0), v(2, 1), v(-3, 4)];
    assert_eq!(rotate_shape(&vec![v(1, 0)], 1), vec![v(0, 1)]);
    for a in 0u8..6 {
        for b in 0u8..6 {
            assert_eq!(
                rotate_shape(&rotate_shape(&shape, a), b),
                rotate_shape(&shape, (a % 4 + b % 4) % 4)
            );
        }
    }
}
