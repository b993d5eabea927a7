use riscan_pro::point::{Cmcs, Glcs, Point, Prcs, Socs};
use riscan_pro::scan::Scan;

#[test]
fn scan_name() {
    let mut scan = Scan::new();
    assert_eq!("", scan.name());
    scan.set_name("Beer o' clock");
    assert_eq!("Beer o' clock", scan.name());
}

#[test]
fn typed_points() {
    let glcs: Point<Glcs, i64> = Point::glcs(1, 2, 3);
    assert_eq!((1, 2, 3), (glcs.x, glcs.y, glcs.z));
    let prcs: Point<Prcs, i64> = Point::prcs(4, 5, 6);
    assert_eq!((4, 5, 6), (prcs.x, prcs.y, prcs.z));
    let socs: Point<Socs, f64> = Point::socs(-7.429, 6.834, 0.076);
    assert_eq!((-7.429, 6.834, 0.076), (socs.x, socs.y, socs.z));
    let cmcs: Point<Cmcs, f64> = Point::cmcs(1.312, -0.641, 3.019);
    assert_eq!((1.312, -0.641, 3.019), (cmcs.x, cmcs.y, cmcs.z));
}
