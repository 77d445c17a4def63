use pacman::geometry::{Direction, Point, Rect, WORLD_MAX, WORLD_MIN};

#[test]
fn rectangles_that_touch_overlap() {
    let a = Rect::new(0, 0, 120, 120);
    assert!(a.overlaps(&Rect::new(120, 0, 100, 100)));
    assert!(a.overlaps(&Rect::new(120, 120, 100, 100)));
    assert!(a.overlaps(&Rect::new(10, 10, 100, 100)));
    assert!(!a.overlaps(&Rect::new(121, 0, 100, 100)));
    assert!(!a.overlaps(&Rect::new(0, -101, 100, 100)));
    assert!(a.overlaps(&Rect::new(0, -100, 100, 100)));
}

#[test]
fn overlaps_survives_extreme_coordinates() {
    let a = Rect::new(i64::MAX, i64::MAX, i64::MAX, i64::MAX);
    let b = Rect::new(i64::MIN, i64::MIN, 1, 1);
    assert!(!a.overlaps(&b));
    assert!(a.overlaps(&a));
}

#[test]
fn within_is_strict() {
    let a = Point::new(0, 0);
    assert!(a.within(&Point::new(3, 4), 6));
    assert!(!a.within(&Point::new(3, 4), 5));
    assert!(!a.within(&Point::new(3, 4), 0));
    assert!(!a.within(&Point::new(0, 0), -1));
    assert!(a.within(&Point::new(0, 0), 1));
    assert!(!Point::new(i64::MIN, 0).within(&Point::new(i64::MAX, 0), i64::MAX));
}

#[test]
fn grid_center_has_one_unit_of_slack() {
    assert!(Point::new(10, 10).is_at_grid_center());
    assert!(Point::new(13, 10).is_at_grid_center());
    assert!(!Point::new(14, 10).is_at_grid_center());
    assert!(!Point::new(126, 10).is_at_grid_center());
    assert!(Point::new(127, 10).is_at_grid_center());
    assert!(Point::new(130, 250).is_at_grid_center());
    assert!(!Point::new(130, 190).is_at_grid_center());
    assert!(Point::new(-110, -230).is_at_grid_center());
    assert!(!Point::new(i64::MIN, 10).is_at_grid_center());
    assert!(Point::new(i64::MIN + 18, 10).is_at_grid_center());
}

#[test]
fn snap_goes_to_the_nearest_cell_center() {
    assert_eq!(Point::new(10, 10).snap_to_grid(), Point::new(10, 10));
    assert_eq!(Point::new(69, 71).snap_to_grid(), Point::new(10, 130));
    assert_eq!(Point::new(70, 190).snap_to_grid(), Point::new(130, 250));
    assert_eq!(Point::new(-49, -50).snap_to_grid(), Point::new(10, -110));
    assert_eq!(Point::new(138, 130).snap_to_grid(), Point::new(130, 130));
    assert_eq!(Point::new(WORLD_MAX, WORLD_MIN).snap_to_grid(), Point::new(WORLD_MAX, WORLD_MIN));
}

#[test]
fn shifted_moves_along_the_direction() {
    let r = Rect::new(130, 130, 100, 100);
    assert_eq!(r.shifted(Direction::Up, 4), Some(Rect::new(130, 126, 100, 100)));
    assert_eq!(r.shifted(Direction::Down, 4), Some(Rect::new(130, 134, 100, 100)));
    assert_eq!(r.shifted(Direction::Left, 2), Some(Rect::new(128, 130, 100, 100)));
    assert_eq!(r.shifted(Direction::Right, 1), Some(Rect::new(131, 130, 100, 100)));
}

#[test]
fn shifted_stops_at_the_end_of_the_world() {
    let r = Rect::new(WORLD_MAX, WORLD_MIN, 100, 100);
    assert_eq!(r.shifted(Direction::Right, 1), None);
    assert_eq!(r.shifted(Direction::Up, 1), None);
    assert_eq!(r.shifted(Direction::Left, 1), Some(Rect::new(WORLD_MAX - 1, WORLD_MIN, 100, 100)));
    assert_eq!(r.shifted(Direction::Left, i64::MAX), None);
    assert_eq!(r.shifted(Direction::Down, i64::MIN), None);
}

#[test]
fn hitbox_is_a_square_from_the_corner() {
    assert_eq!(Point::new(130, 250).hitbox(100), Rect::new(130, 250, 100, 100));
}
