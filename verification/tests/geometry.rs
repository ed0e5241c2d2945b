use layout21::raw::Shape;
use layout21::{Dir, LayoutError, Outline, Point, Unit};

#[test]
fn outline_keeps_its_steps() {
    let o = Outline::new(vec![5, 3, 3], vec![1, 2, 4]).unwrap();
    assert_eq!(o.x(), &vec![5, 3, 3]);
    assert_eq!(o.y(), &vec![1, 2, 4]);
    assert_eq!(o.len(), 3);
    assert_eq!(o.xmax(), 5);
    assert_eq!(o.ymax(), 4);
    assert_eq!(o.max(Dir::Horiz), 5);
    assert_eq!(o.max(Dir::Vert), 4);
    assert_eq!(o.clone(), o);
}

#[test]
fn outline_points_walk_the_staircase() {
    let o = Outline::new(vec![5, 3, 3], vec![1, 2, 4]).unwrap();
    let expected = vec![
        Point::new(0, 0),
        Point::new(5, 0),
        Point::new(5, 1),
        Point::new(3, 1),
        Point::new(3, 2),
        Point::new(3, 2),
        Point::new(3, 4),
        Point::new(0, 4),
    ];
    assert_eq!(o.points(), expected);
    assert_eq!(o.points().len(), 2 * o.len() + 2);
}

#[test]
fn rectangle_has_four_corners() {
    let o = Outline::rect(5, 11).unwrap();
    assert_eq!(
        o.points(),
        vec![Point::new(0, 0), Point::new(5, 0), Point::new(5, 11), Point::new(0, 11)]
    );
    assert_eq!(o.xmax(), 5);
    assert_eq!(o.ymax(), 11);
}

#[test]
fn outline_rejects_what_is_no_staircase() {
    assert_eq!(Outline::new(vec![1, 2], vec![1]), Err(LayoutError::Tbd));
    assert_eq!(Outline::new(vec![], vec![]), Err(LayoutError::Tbd));
    assert_eq!(Outline::new(vec![1, 2], vec![1, 1]), Err(LayoutError::Tbd));
    assert_eq!(Outline::new(vec![2, 1], vec![2, 1]), Err(LayoutError::Tbd));
    assert!(Outline::new(vec![2, 2], vec![1, 1]).is_ok());
}

#[test]
fn directions_flip() {
    assert_eq!(Dir::Horiz.other(), Dir::Vert);
    assert_eq!(Dir::Vert.other(), Dir::Horiz);
    assert_eq!(Unit::default(), Unit::Nano);
}

#[test]
fn points_shift_and_scale() {
    let p = Point::new(3, -4);
    assert_eq!(Point::offset(7, Dir::Horiz), Point::new(7, 0));
    assert_eq!(Point::offset(7, Dir::Vert), Point::new(0, 7));
    assert_eq!(p.shift(&Point::new(10, 20)), Point::new(13, 16));
    assert_eq!(p.scale(2, 5), Point::new(6, -20));
    assert_eq!(p.coord(Dir::Horiz), 3);
    assert_eq!(p.coord(Dir::Vert), -4);
    assert_eq!(p.checked_shift(&Point::new(10, 20)), Some(Point::new(13, 16)));
    assert_eq!(p.checked_shift(&Point::new(isize::MAX, 0)), None);
    assert_eq!(p.checked_scale(2, 5), Some(Point::new(6, -20)));
    assert_eq!(p.checked_scale(isize::MAX, 1), None);
}

#[test]
fn products_within_range() {
    assert_eq!(layout21::geom::scaled(6600, -2), Some(-13200));
    assert_eq!(layout21::geom::scaled(usize::MAX, 1), None);
    assert_eq!(layout21::geom::scaled(usize::MAX, 0), Some(0));
    assert_eq!(layout21::geom::product(6600, 5), Some(33000));
    assert_eq!(layout21::geom::product(usize::MAX, 2), None);
    assert_eq!(layout21::geom::product(isize::MAX as usize, 1), Some(isize::MAX as usize));
    assert_eq!(layout21::geom::product(isize::MAX as usize + 1, 1), None);
}

#[test]
fn rectangle_center_and_orientation() {
    let wide = Shape::Rect { p0: Point::new(0, 0), p1: Point::new(10, 4) };
    assert_eq!(wide.center(), Point::new(5, 2));
    assert_eq!(wide.orientation(), Dir::Horiz);
    assert_eq!(wide.point0(), &Point::new(0, 0));
    let high = Shape::Rect { p0: Point::new(10, 20), p1: Point::new(7, 0) };
    assert_eq!(high.center(), Point::new(8, 10));
    assert_eq!(high.orientation(), Dir::Vert);
    let square = Shape::Rect { p0: Point::new(-3, -3), p1: Point::new(0, 0) };
    assert_eq!(square.center(), Point::new(-1, -1));
    assert_eq!(square.orientation(), Dir::Horiz);
    let far = Shape::Rect {
        p0: Point::new(isize::MIN, isize::MIN),
        p1: Point::new(isize::MAX, isize::MIN),
    };
    assert_eq!(far.center(), Point::new(0, isize::MIN));
    assert_eq!(far.orientation(), Dir::Horiz);
}

#[test]
fn shapes_shift() {
    let mut r = Shape::Rect { p0: Point::new(0, 1), p1: Point::new(10, 4) };
    r.shift(&Point::new(5, -1));
    assert_eq!(r, Shape::Rect { p0: Point::new(5, 0), p1: Point::new(15, 3) });
    let mut p = Shape::Poly { pts: vec![Point::new(0, 0), Point::new(1, 2), Point::new(3, 4)] };
    p.shift(&Point::new(10, 20));
    assert_eq!(
        p,
        Shape::Poly { pts: vec![Point::new(10, 20), Point::new(11, 22), Point::new(13, 24)] }
    );
    assert_eq!(p.point0(), &Point::new(10, 20));
    assert_eq!(p.clone(), p);
}
