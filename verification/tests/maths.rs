use streamline::maths::pos;
use streamline::maths::vec2;
use streamline::maths::Scalar;

fn frac(num: i128, den: i128) -> Scalar {
    Scalar { num: num, den: den }
}

#[test]
fn points_keep_their_coordinates() {
    let p = pos(3, 4);
    assert_eq!((p.x, p.y), (3, 4));
    let v = vec2(4_294_967_295, 0);
    assert_eq!((v.x, v.y), (4_294_967_295, 0));
}

#[test]
fn fractions_are_not_reduced() {
    assert_eq!(Scalar::new(2, 4), frac(2, 4));
    assert_ne!(Scalar::new(2, 4), frac(1, 2));
    assert_eq!(Scalar::whole(-7), frac(-7, 1));
}

#[test]
fn fractions_are_computed_exactly() {
    let a = frac(1, 2);
    let b = frac(1, 3);
    assert_eq!(a.plus(b), frac(5, 6));
    assert_eq!(a.minus(b), frac(1, 6));
    assert_eq!(b.minus(a), frac(-1, 6));
    assert_eq!(a.times(b), frac(1, 6));
    assert_eq!(a.over(b), frac(3, 2));
    assert_eq!(a.plus(a), frac(4, 4));
    // the formula of the device coordinates, step by step
    let half = Scalar::whole(800).over(Scalar::whole(2));
    assert_eq!(half, frac(800, 2));
    assert_eq!(Scalar::whole(10).over(half).minus(Scalar::whole(1)), frac(-780, 800));
}

#[test]
fn nothing_is_divided() {
    assert_eq!(frac(1, 2).over(frac(0, 5)), frac(5, 0));
    assert_eq!(frac(5, 0).minus(Scalar::whole(1)), frac(5, 0));
    assert_eq!(frac(0, 0).plus(Scalar::whole(1)), frac(0, 0));
    assert_eq!(frac(1, 2).over(frac(-1, 3)), frac(3, -2));
}
