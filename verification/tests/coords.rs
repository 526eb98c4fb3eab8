use canton::coords::Cubic;

#[test]
fn test_ring() {
    let start = Cubic(0, 0, 0);

    let ring = start.ring(0);

    assert_eq!(ring, vec![Cubic(0, 0, 0)]);

    let ring = start.ring(1);

    assert_eq!(
        ring,
        vec![
            Cubic(-1, 1, 0),
            Cubic(0, 1, -1),
            Cubic(1, 0, -1),
            Cubic(1, -1, 0),
            Cubic(0, -1, 1),
            Cubic(-1, 0, 1)
        ]
    );

    let ring = start.ring(2);

    assert_eq!(
        ring,
        vec![
            Cubic(-2, 2, 0),
            Cubic(-1, 2, -1),
            Cubic(0, 2, -2),
            Cubic(1, 1, -2),
            Cubic(2, 0, -2),
            Cubic(2, -1, -1),
            Cubic(2, -2, 0),
            Cubic(1, -2, 1),
            Cubic(0, -2, 2),
            Cubic(-1, -1, 2),
            Cubic(-2, 0, 2),
            Cubic(-2, 1, 1)
        ],
    );
}

fn spiral_area(radius: usize) -> usize {
    1 + 3 * radius * (radius + 1)
}

#[test]
fn test_spiral() {
    let center = Cubic::default();
    for radius in 0..10usize {
        let spiral = center.spiral(radius as _);

        assert_eq!(spiral_area(radius), spiral.len());
    }
}

#[test]
fn spiral_starts_with_center_then_rings() {
    let center = Cubic(3, -1, -2);
    let spiral = center.spiral(2);
    assert_eq!(spiral[0], center);
    let ring1 = center.ring(1);
    let ring2 = center.ring(2);
    assert_eq!(&spiral[1..7], &ring1[..]);
    assert_eq!(&spiral[7..], &ring2[..]);
}

#[test]
fn rotations_turn_by_sixty_degrees() {
    let c = Cubic(1, 0, -1);
    assert_eq!(c.rotate_right(), Cubic(0, 1, -1));
    assert_eq!(c.rotate_left(), Cubic(1, -1, 0));
    assert_eq!(c.rotate_right().rotate_left(), c);
    assert_eq!(c.rotate(6), c);
    assert_eq!(c.rotate(-6), c);
    assert_eq!(c.rotate(2), c.rotate_right().rotate_right());
    assert_eq!(c.rotate(-1), c.rotate_left());
    assert_eq!(c.rotate(3), Cubic(-1, 0, 1));
}

#[test]
fn rotation_keeps_distance() {
    let a = Cubic(2, -5, 3);
    let b = Cubic(-1, 1, 0);
    for d in -7..8i8 {
        assert_eq!(a.rotate(d).distance(b.rotate(d)), a.distance(b));
    }
}

#[test]
fn distance_is_largest_coordinate_difference() {
    assert_eq!(Cubic(0, 0, 0).distance(Cubic(2, -1, -1)), 2);
    assert_eq!(Cubic(1, 2, -3).distance(Cubic(-2, 2, 0)), 3);
    assert_eq!(Cubic(5, -5, 0).distance(Cubic(5, -5, 0)), 0);
}

#[test]
fn neighbors_are_at_distance_one() {
    let c = Cubic(4, -2, -2);
    for i in 0..6u8 {
        let n = c.neighbor(i).unwrap();
        assert_eq!(c.distance(n), 1);
    }
    assert!(c.neighbor(6).is_none());
    assert_eq!(c.neighbors().len(), 6);
}

#[test]
fn ring_cells_are_at_the_radius_and_distinct() {
    let c = Cubic(1, 1, -2);
    for r in 1..5u64 {
        let ring = c.ring(r);
        assert_eq!(ring.len() as u64, 6 * r);
        for (i, a) in ring.iter().enumerate() {
            assert_eq!(a.distance(c), r as i64);
            for b in &ring[i + 1..] {
                assert_ne!(a, b);
            }
        }
    }
}
