use wave_function_collapse::direction::Direction;

#[test]
fn deltas_of_each_direction() {
    assert_eq!(Direction::Up.get_deltas(), (0, -1));
    assert_eq!(Direction::Down.get_deltas(), (0, 1));
    assert_eq!(Direction::Left.get_deltas(), (-1, 0));
    assert_eq!(Direction::Right.get_deltas(), (1, 0));
}

#[test]
fn opposite_of_each_direction() {
    assert_eq!(Direction::Up.get_opposite(), Direction::Down);
    assert_eq!(Direction::Down.get_opposite(), Direction::Up);
    assert_eq!(Direction::Left.get_opposite(), Direction::Right);
    assert_eq!(Direction::Right.get_opposite(), Direction::Left);
}

#[test]
fn opposite_twice_is_the_direction() {
    for direction in Direction::all() {
        assert_eq!(direction.get_opposite().get_opposite(), direction);
    }
}

#[test]
fn opposite_deltas_cancel() {
    for direction in Direction::all() {
        let (dx, dy) = direction.get_deltas();
        let (ox, oy) = direction.get_opposite().get_deltas();
        assert_eq!((dx + ox, dy + oy), (0, 0));
    }
}

#[test]
fn all_directions_in_order() {
    assert_eq!(
        Direction::all(),
        [Direction::Up, Direction::Down, Direction::Left, Direction::Right]
    );
}

#[test]
fn index_round_trip() {
    for (position, direction) in Direction::all().iter().enumerate() {
        assert_eq!(direction.to_index(), position as u64);
        assert_eq!(Direction::from_index(position as u64), *direction);
    }
}

#[test]
fn shift_inside_the_range() {
    assert_eq!(Direction::Up.shift(3, 5), Some((3, 4)));
    assert_eq!(Direction::Down.shift(3, 5), Some((3, 6)));
    assert_eq!(Direction::Left.shift(3, 5), Some((2, 5)));
    assert_eq!(Direction::Right.shift(3, 5), Some((4, 5)));
}

#[test]
fn shift_below_zero_is_none() {
    assert_eq!(Direction::Up.shift(0, 0), None);
    assert_eq!(Direction::Left.shift(0, 0), None);
    assert_eq!(Direction::Down.shift(0, 0), Some((0, 1)));
    assert_eq!(Direction::Right.shift(0, 0), Some((1, 0)));
}

#[test]
fn shift_above_the_largest_is_none() {
    assert_eq!(Direction::Right.shift(usize::MAX, 7), None);
    assert_eq!(Direction::Down.shift(7, usize::MAX), None);
    assert_eq!(
        Direction::Left.shift(usize::MAX, 7),
        Some((usize::MAX - 1, 7))
    );
}

#[test]
fn shift_beyond_what_eight_bits_hold() {
    assert_eq!(Direction::Right.shift(127, 200), Some((128, 200)));
    assert_eq!(Direction::Down.shift(300, 127), Some((300, 128)));
}
