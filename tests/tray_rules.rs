use cube_tray::cube::{Colour, Cube, CubeFaces, Location, Orientation, Side};
use cube_tray::search::{checked_total, max_combinations, search_all};
use cube_tray::tray::Tray;

use Colour::{Blue, Green, Red, Yellow};

fn standing() -> Orientation {
    // top One, bottom Three, front Two, back Four, left Six, right Five
    Orientation::new([Side::One, Side::Three, Side::Two, Side::Four, Side::Six, Side::Five])
}

#[test]
fn repeat_at_back_only_is_unsolved() {
    // top, front, bottom differ between the cubes; back shows Red on both
    let a = CubeFaces::new([Blue, Green, Yellow, Red, Blue, Blue]);
    let b = CubeFaces::new([Green, Yellow, Blue, Red, Blue, Blue]);
    let o = standing();
    let cubes = vec![a, b];
    let orientations = vec![standing()];
    let mut tray = Tray::new(Vec::new(), vec![0, 1], &orientations, &cubes);
    tray.add_cube(Cube::new(&cubes[0], &o));
    tray.add_cube(Cube::new(&cubes[1], &o));
    assert_eq!(*tray.get_cube(0).get_colour_at_location(&Location::Back), Red);
    assert!(!tray.is_solved());
}

#[test]
fn hidden_faces_do_not_matter() {
    // every visible location differs; left and right repeat
    let a = CubeFaces::new([Blue, Green, Yellow, Red, Red, Red]);
    let b = CubeFaces::new([Green, Yellow, Blue, Blue, Red, Red]);
    let o = standing();
    let cubes = vec![a, b];
    let orientations = vec![standing()];
    let mut tray = Tray::new(Vec::new(), vec![0, 1], &orientations, &cubes);
    tray.add_cube(Cube::new(&cubes[0], &o));
    tray.add_cube(Cube::new(&cubes[1], &o));
    assert!(tray.is_solved());
}

#[test]
fn solved_does_not_depend_on_stack_order() {
    let a = CubeFaces::new([Blue, Green, Yellow, Red, Red, Red]);
    let b = CubeFaces::new([Green, Yellow, Blue, Blue, Red, Red]);
    let c = CubeFaces::new([Red, Blue, Green, Yellow, Red, Red]);
    let o = standing();
    let cubes = vec![a, b, c];
    let orientations = vec![standing()];
    let mut first = Tray::new(Vec::new(), vec![0, 1, 2], &orientations, &cubes);
    first.add_cube(Cube::new(&cubes[0], &o));
    first.add_cube(Cube::new(&cubes[1], &o));
    first.add_cube(Cube::new(&cubes[2], &o));
    let mut second = Tray::new(Vec::new(), vec![2, 0, 1], &orientations, &cubes);
    second.add_cube(Cube::new(&cubes[2], &o));
    second.add_cube(Cube::new(&cubes[0], &o));
    second.add_cube(Cube::new(&cubes[1], &o));
    assert!(first.is_solved());
    assert!(second.is_solved());
}

#[test]
fn same_cube_same_orientation_is_unsolved() {
    let a = CubeFaces::new([Blue, Green, Yellow, Red, Red, Red]);
    let o = standing();
    let cubes = vec![a];
    let orientations = vec![standing()];
    let mut tray = Tray::new(Vec::new(), vec![0, 0], &orientations, &cubes);
    tray.add_cube(Cube::new(&cubes[0], &o));
    assert!(tray.is_solved());
    tray.add_cube(Cube::new(&cubes[0], &o));
    assert!(!tray.is_solved());
}

#[test]
fn identical_cubes_one_orientation_never_win() {
    let a = CubeFaces::new([Blue, Green, Yellow, Red, Red, Red]);
    let b = CubeFaces::new([Blue, Green, Yellow, Red, Red, Red]);
    let cubes = vec![a, b];
    let orientations = vec![standing()];
    // two orders, each: 1 trial at depth 0 and 1 at depth 1
    assert_eq!(search_all(&orientations, &cubes), Some((4, 0)));
}

#[test]
fn empty_and_full_tray_edges() {
    let a = CubeFaces::new([Blue, Green, Yellow, Red, Red, Red]);
    let cubes = vec![a];
    let orientations = vec![standing()];
    let mut tray = Tray::new(Vec::new(), vec![0], &orientations, &cubes);
    assert_eq!(tray.get_num_cubes(), 0);
    assert!(tray.is_solved());
    assert!(tray.get_cubes().is_empty());
    tray.add_cube(Cube::new(&cubes[0], &orientations[0]));
    assert_eq!(tray.get_num_cubes(), 1);
    tray.pop_cube();
    assert_eq!(tray.get_num_cubes(), 0);
}

#[test]
fn invalid_orientation_is_rejected() {
    let o = Orientation::new([Side::One, Side::One, Side::Two, Side::Four, Side::Six, Side::Five]);
    assert!(!o.is_valid());
    assert!(standing().is_valid());
}

#[test]
fn faces_lookup_by_side() {
    let a = CubeFaces::new([Blue, Green, Yellow, Red, Green, Blue]);
    assert_eq!(*a.get_colour_on_side(&Side::One), Blue);
    assert_eq!(*a.get_colour_on_side(&Side::Three), Yellow);
    assert_eq!(*a.get_colour_on_side(&Side::Six), Blue);
}

#[test]
fn no_orientations_no_trials() {
    let a = CubeFaces::new([Blue, Green, Yellow, Red, Green, Blue]);
    let cubes = vec![a];
    let orientations: Vec<Orientation> = Vec::new();
    assert_eq!(search_all(&orientations, &cubes), Some((0, 0)));
}

#[test]
fn counts_that_do_not_fit() {
    assert_eq!(checked_total(24, 24, 4), Some(8_308_800));
    assert_eq!(checked_total(1, 24, 7), None);
    assert_eq!(checked_total(0, 24, 7), Some(0));
    assert_eq!(checked_total(3, 0, 7), Some(0));
    assert_eq!(max_combinations(1, 2, 63), Some(1usize << 63));
    assert_eq!(max_combinations(2, 2, 63), None);
    assert_eq!(max_combinations(0, 24, 100), Some(0));
    assert_eq!(max_combinations(5, 24, 0), Some(5));
}
