use roguelike::Rect;

#[test]
fn new_sets_the_far_corner() {
    let r = Rect::new(2, 3, 4, 5);
    assert_eq!(r, Rect { x1: 2, x2: 6, y1: 3, y2: 8 });
}

#[test]
fn center_is_the_mean_of_the_corners() {
    assert_eq!(Rect::new(2, 3, 4, 5).center(), (4, 5));
    assert_eq!(Rect::new(0, 0, 7, 9).center(), (3, 4));
    assert_eq!(Rect { x1: -5, x2: 0, y1: -3, y2: -2 }.center(), (-2, -2));
}

#[test]
fn rectangles_that_share_an_edge_intersect() {
    let a = Rect::new(0, 0, 4, 4);
    let b = Rect::new(4, 0, 4, 4);
    assert!(a.intersect(&b));
    assert!(b.intersect(&a));
}

#[test]
fn rectangles_that_share_a_corner_intersect() {
    let a = Rect::new(0, 0, 4, 4);
    let b = Rect::new(4, 4, 2, 2);
    assert!(a.intersect(&b));
}

#[test]
fn rectangles_apart_do_not_intersect() {
    let a = Rect::new(0, 0, 4, 4);
    assert!(!a.intersect(&Rect::new(5, 0, 4, 4)));
    assert!(!a.intersect(&Rect::new(0, 5, 4, 4)));
    assert!(!Rect::new(5, 5, 1, 1).intersect(&a));
}

#[test]
fn a_rectangle_inside_another_intersects_it() {
    let a = Rect::new(0, 0, 10, 10);
    let b = Rect::new(3, 3, 2, 2);
    assert!(a.intersect(&b));
    assert!(b.intersect(&a));
}
