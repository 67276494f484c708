use backtrack::board::{Point, Shape};
use std::hash::{DefaultHasher, Hash, Hasher};

fn get_hash<T: Hash>(t: &T) -> u64 {
    let mut s = DefaultHasher::new();
    t.hash(&mut s);
    s.finish()
}

#[test]
fn test_points_equal() {
    let point1 = Point { x: 1, y: 2 };
    let point2 = Point { x: 1, y: 2 };
    let point3 = Point { x: 1, y: 3 };
    assert_eq!(point1, point2);
    assert_eq!(
        get_hash(&point1),
        get_hash(&point2),
        "hashes of equal objects should be equal."
    );
    assert_eq!(point1 == point2, true);
    assert_ne!(point1, point3);
    assert_ne!(get_hash(&point1), get_hash(&point3));
    assert_eq!(point1 == point3, false);
}

#[test]
fn test_shape_rotation() {
    for shape in [
        Shape::Free,
        Shape::Ship,
        Shape::OneTL,
        Shape::OneTR,
        Shape::OneBL,
        Shape::OneBR,
        Shape::TwoDiagDown,
        Shape::TwoDiagUp,
        Shape::TwoHorT,
        Shape::TwoHorL,
        Shape::TwoHorB,
        Shape::TwoHorR,
        Shape::LargeEdgeT,
        Shape::LargeEdgeL,
        Shape::LargeEdgeB,
        Shape::LargeEdgeR,
        Shape::LargeCornerTL,
        Shape::LargeCornerTR,
        Shape::LargeCornerBL,
        Shape::LargeCornerBR,
    ] {
        assert_eq!(shape, shape.rotate(true).rotate(false));
    }
}
