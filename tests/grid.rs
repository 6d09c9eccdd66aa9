use orthoproj::{GridError, OrthoProj};

#[test]
fn test_simple() {
    let o = OrthoProj::new(3, 0u8);
    assert_eq!(o.get_pixel(0, 0), &0u8);
}

#[test]
fn new_fills_every_pixel() {
    let o = OrthoProj::new(4, 7u8);
    assert_eq!(o.size(), 4);
    for x in 0..4 {
        for y in 0..4 {
            assert_eq!(o.get_pixel(x, y), &7u8);
        }
    }
}

#[test]
fn new_gives_independent_copies() {
    let mut o = OrthoProj::new(2, String::from("sea"));
    o.set_pixel(0, 1, String::from("land"));
    assert_eq!(o.get_pixel(0, 1), "land");
    assert_eq!(o.get_pixel(0, 0), "sea");
    assert_eq!(o.get_pixel(1, 0), "sea");
    assert_eq!(o.get_pixel(1, 1), "sea");
}

#[test]
fn concrete_scenario() {
    let o = OrthoProj::new(4, 0u8);
    assert_eq!(o.get_pixel(0, 0), &0u8);
    let d = OrthoProj::new_with_bg(4, 0u8, 9u8);
    assert_eq!(d.get_pixel(2, 2), &9u8);
    assert_eq!(d.get_pixel(0, 0), &0u8);
}

#[test]
fn disc_includes_ties_at_the_radius() {
    // centre (2, 2), radius 2
    let d = OrthoProj::new_with_bg(4, 0u8, 9u8);
    assert_eq!(d.get_pixel(0, 2), &9u8);
    assert_eq!(d.get_pixel(2, 0), &9u8);
    assert_eq!(d.get_pixel(1, 1), &9u8);
    assert_eq!(d.get_pixel(3, 3), &9u8);
    assert_eq!(d.get_pixel(0, 1), &0u8);
    assert_eq!(d.get_pixel(1, 0), &0u8);
    assert_eq!(d.get_pixel(0, 3), &0u8);
}

#[test]
fn disc_on_odd_side() {
    // side 5: centre (2, 2), radius 2
    let d = OrthoProj::new_with_bg(5, false, true);
    assert_eq!(d.get_pixel(2, 2), &true);
    assert_eq!(d.get_pixel(4, 2), &true);
    assert_eq!(d.get_pixel(2, 4), &true);
    assert_eq!(d.get_pixel(4, 4), &false);
    assert_eq!(d.get_pixel(0, 0), &false);
    assert_eq!(d.get_pixel(3, 4), &false);
}

#[test]
fn disc_centre_and_corner_over_sizes() {
    for size in 2u32..20 {
        let d = OrthoProj::new_with_bg(size, 0u8, 1u8);
        assert_eq!(d.get_pixel(size / 2, size / 2), &1u8);
        assert_eq!(d.get_pixel(0, 0), &0u8);
    }
}

#[test]
fn disc_of_side_one_is_its_only_pixel() {
    let d = OrthoProj::new_with_bg(1, 0u8, 1u8);
    assert_eq!(d.get_pixel(0, 0), &1u8);
}

#[test]
fn set_then_get_round_trip() {
    let mut o = OrthoProj::new(4, 0u8);
    o.set(Some((1, 2)), 5u8);
    assert_eq!(o.get(Some((1, 2))), Ok(&5u8));
    assert_eq!(o.get_pixel(1, 2), &5u8);
    assert_eq!(o.get(Some((2, 1))), Ok(&0u8));
    assert_eq!(o.get(Some((1, 3))), Ok(&0u8));
    assert_eq!(o.get(Some((1, 1))), Ok(&0u8));
}

#[test]
fn set_overwrites_previous_value() {
    let mut o = OrthoProj::new(3, 0u8);
    o.set(Some((2, 2)), 1u8);
    o.set(Some((2, 2)), 2u8);
    assert_eq!(o.get(Some((2, 2))), Ok(&2u8));
}

#[test]
fn set_invisible_is_ignored() {
    let mut o = OrthoProj::new(3, 0u8);
    o.set(None, 5u8);
    for x in 0..3 {
        for y in 0..3 {
            assert_eq!(o.get_pixel(x, y), &0u8);
        }
    }
}

#[test]
fn set_outside_grid_is_ignored() {
    let mut o = OrthoProj::new(3, 0u8);
    o.set(Some((3, 0)), 5u8);
    o.set(Some((0, 3)), 5u8);
    for x in 0..3 {
        for y in 0..3 {
            assert_eq!(o.get_pixel(x, y), &0u8);
        }
    }
}

#[test]
fn get_invisible_fails() {
    let o = OrthoProj::new(3, 0u8);
    assert_eq!(o.get(None), Err(GridError::NotVisible));
}

#[test]
fn get_at_edge_is_out_of_bounds() {
    for size in 0u32..6 {
        let o = OrthoProj::new(size, 0u8);
        assert_eq!(o.get(Some((size, 0))), Err(GridError::OutOfBounds));
        assert_eq!(o.get(Some((0, size))), Err(GridError::OutOfBounds));
    }
}

#[test]
fn empty_grid_has_no_pixels() {
    let o = OrthoProj::new(0, 0u8);
    assert_eq!(o.size(), 0);
    assert_eq!(o.get(Some((0, 0))), Err(GridError::OutOfBounds));
}
