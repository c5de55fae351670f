use pinnacle::geometry::{Point, Rectangle, Size};

#[test]
fn points_add_by_coordinate() {
    let sum = Point { x: 3, y: -4 }.saturating_add(Point { x: 10, y: 20 });
    assert_eq!(sum, Point { x: 13, y: 16 });
}

#[test]
fn points_subtract_by_coordinate() {
    let diff = Point { x: 3, y: -4 }.saturating_sub(Point { x: 10, y: 20 });
    assert_eq!(diff, Point { x: -7, y: -24 });
}

#[test]
fn sums_stop_at_the_bounds() {
    let sum = Point { x: i32::MAX, y: i32::MIN }.saturating_add(Point { x: 1, y: -1 });
    assert_eq!(sum, Point { x: i32::MAX, y: i32::MIN });
}

#[test]
fn differences_stop_at_the_bounds() {
    let diff = Point { x: i32::MIN, y: i32::MAX }.saturating_sub(Point { x: 1, y: -1 });
    assert_eq!(diff, Point { x: i32::MIN, y: i32::MAX });
}

#[test]
fn moving_an_area_keeps_its_size() {
    let area = Rectangle { loc: Point { x: 5, y: 6 }, size: Size { w: 70, h: 80 } };
    let moved = area.translate(Point { x: 100, y: -10 });
    assert_eq!(
        moved,
        Rectangle { loc: Point { x: 105, y: -4 }, size: Size { w: 70, h: 80 } }
    );
}
