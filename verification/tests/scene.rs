use boresight::scene::Occupancy;

#[test]
fn occupancy_overlap_and_padding() {
    let mut o = Occupancy::new(20, 5);
    assert!(o.try_place(0, 0, 3, 0, 0));
    assert!(!o.try_place(1, 0, 3, 0, 0), "overlapping label rejected");
    assert!(o.try_place(10, 0, 3, 0, 0), "far label accepted");
    // Padding reserves neighbours.
    let mut p = Occupancy::new(20, 5);
    assert!(p.try_place(5, 2, 1, 2, 1));
    assert!(
        !p.try_place(6, 2, 1, 0, 0),
        "within padded keep-out rejected"
    );
}

#[test]
fn occupancy_anchor_bounds_and_clamped_margins() {
    let mut o = Occupancy::new(10, 3);
    // Anchor out of the grid.
    assert!(!o.try_place(-1, 0, 2, 0, 0));
    assert!(!o.try_place(0, 3, 2, 0, 0));
    assert!(!o.try_place(0, -1, 2, 0, 0));
    assert!(!o.try_place(9, 0, 2, 0, 0), "label runs past the right edge");
    // A label touching the right edge fits; its margin is clamped to the grid.
    assert!(o.try_place(8, 1, 2, 5, 5));
    // The clamped margin covers the whole grid height and columns 3..10.
    assert!(!o.try_place(3, 0, 1, 0, 0));
    assert!(o.try_place(2, 0, 1, 0, 0));
    // A refused label leaves the grid unchanged.
    assert!(!o.try_place(2, 0, 1, 0, 0));
    assert!(o.try_place(0, 2, 1, 0, 0));
    // An empty grid refuses everything.
    let mut e = Occupancy::new(0, 0);
    assert!(!e.try_place(0, 0, 0, 0, 0));
}
