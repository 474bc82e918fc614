use cube_tray::cube::{Colour, Cube, CubeFaces, Location, Orientation, Side};
use cube_tray::search::{add_next_cube, max_combinations, search_all, total_combinations};
use cube_tray::tray::Tray;

use Colour::{Blue, Green, Red, Yellow};
use Side::{Five, Four, One, Six, Three, Two};

fn faces(c: [Colour; 6]) -> CubeFaces {
    CubeFaces::new(c)
}

/// Sides listed as top, front, bottom, back, right, left.
fn orient(top: Side, front: Side, bottom: Side, back: Side, right: Side, left: Side) -> Orientation {
    Orientation::new([top, bottom, front, back, left, right])
}

fn canonical_cubes() -> Vec<CubeFaces> {
    vec![
        faces([Green, Blue, Red, Yellow, Yellow, Red]),
        faces([Yellow, Yellow, Green, Yellow, Red, Blue]),
        faces([Red, Red, Green, Blue, Green, Yellow]),
        faces([Red, Green, Blue, Green, Blue, Yellow]),
    ]
}

fn canonical_orientations() -> Vec<Orientation> {
    vec![
        orient(One, Two, Three, Four, Five, Six),
        orient(Two, Three, Four, One, Five, Six),
        orient(Three, Four, One, Two, Five, Six),
        orient(Four, One, Two, Three, Five, Six),
        orient(One, Four, Three, Two, Six, Five),
        orient(Four, Three, Two, One, Six, Five),
        orient(Three, Two, One, Four, Six, Five),
        orient(Two, One, Four, Three, Six, Five),
        orient(Six, Two, Five, Four, One, Three),
        orient(Two, Five, Four, Six, One, Three),
        orient(Five, Four, Six, Two, One, Three),
        orient(Four, Six, Two, Five, One, Three),
        orient(Six, Four, Five, Two, Three, One),
        orient(Four, Five, Two, Six, Three, One),
        orient(Five, Two, Six, Four, Three, One),
        orient(Two, Six, Four, Five, Three, One),
        orient(One, Six, Three, Five, Two, Four),
        orient(Six, Three, Five, One, Two, Four),
        orient(Three, Five, One, Six, Two, Four),
        orient(Five, One, Six, Three, Two, Four),
        orient(One, Five, Three, Six, Four, Two),
        orient(Five, Three, Six, One, Four, Two),
        orient(Three, Six, One, Five, Four, Two),
        orient(Six, One, Five, Three, Four, Two),
    ]
}

const LOCATIONS: [Location; 6] = [
    Location::Top,
    Location::Bottom,
    Location::Front,
    Location::Back,
    Location::Left,
    Location::Right,
];

#[test]
fn canonical_search_end_to_end() {
    let cubes = canonical_cubes();
    let orientations = canonical_orientations();
    let (checked, winning) = search_all(&orientations, &cubes).unwrap();
    // every trial at every depth: 24 orders * (24 + 24^2 + 24^3 + 24^4)
    assert_eq!(checked, 8_308_800);
    assert!(winning >= 1);
    assert!(winning <= checked);
    // complete stacks: 24 orders * 24^4
    assert!((winning as usize) <= 7_962_624);
}

#[test]
fn canonical_total_combinations() {
    assert_eq!(total_combinations(24, 4), Some(7_962_624));
    assert_eq!(max_combinations(24, 24, 4), Some(24 * 331_776));
}

#[test]
fn canonical_orientations_are_valid() {
    for o in canonical_orientations() {
        assert!(o.is_valid());
    }
}

#[test]
fn colour_at_location_round_trip() {
    let cubes = canonical_cubes();
    let orientations = canonical_orientations();
    for f in &cubes {
        for o in &orientations {
            let c = Cube::new(f, o);
            for l in LOCATIONS {
                let expected = f.get_colour_on_side(o.get_side_at_location(&l));
                assert_eq!(c.get_colour_at_location(&l), expected);
            }
        }
    }
}

#[test]
fn canonical_orientation_lookups() {
    let orientations = canonical_orientations();
    let o = &orientations[9];
    assert_eq!(*o.get_side_at_location(&Location::Top), Side::Two);
    assert_eq!(*o.get_side_at_location(&Location::Front), Side::Five);
    assert_eq!(*o.get_side_at_location(&Location::Bottom), Side::Four);
    assert_eq!(*o.get_side_at_location(&Location::Back), Side::Six);
    assert_eq!(*o.get_side_at_location(&Location::Right), Side::One);
    assert_eq!(*o.get_side_at_location(&Location::Left), Side::Three);
    let cubes = canonical_cubes();
    let c = Cube::new(&cubes[2], o);
    // third cube: side Five at the front, side Two at the top
    assert_eq!(*c.get_colour_at_location(&Location::Front), Colour::Green);
    assert_eq!(*c.get_colour_at_location(&Location::Top), Colour::Red);
}

#[test]
fn single_cube_every_stack_solved() {
    let cubes = vec![canonical_cubes().remove(0)];
    let orientations = canonical_orientations();
    assert_eq!(search_all(&orientations, &cubes), Some((24, 24)));
}

#[test]
fn two_cubes_count_trials_at_every_depth() {
    let mut cubes = canonical_cubes();
    cubes.truncate(2);
    let orientations = canonical_orientations();
    let (checked, winning) = search_all(&orientations, &cubes).unwrap();
    assert_eq!(checked, 2 * (24 + 576));
    assert!(winning <= 2 * 576);
}

#[test]
fn identical_cubes_can_be_solved_in_different_orientations() {
    let c = canonical_cubes().remove(0);
    let twin = CubeFaces::new(c.colours);
    let cubes = vec![c, twin];
    let orientations = canonical_orientations();
    let (_, winning) = search_all(&orientations, &cubes).unwrap();
    assert!(winning > 0);
}

#[test]
fn tray_is_empty_after_search() {
    let cubes = canonical_cubes();
    let orientations = canonical_orientations();
    let mut tray = Tray::new(Vec::new(), vec![3, 1, 0, 2], &orientations, &cubes);
    let (checked, winning) = add_next_cube(&mut tray, 0, 0);
    assert_eq!(tray.get_num_cubes(), 0);
    assert_eq!(checked, 24 + 576 + 13_824 + 331_776);
    assert!(winning >= 1);
    assert_eq!(tray.get_cubes_order(), &vec![3, 1, 0, 2]);
}

#[test]
fn search_from_partial_tray_restores_it() {
    let cubes = canonical_cubes();
    let orientations = canonical_orientations();
    let mut tray = Tray::new(Vec::new(), vec![0, 1, 2, 3], &orientations, &cubes);
    tray.add_cube(Cube::new(&cubes[0], &orientations[5]));
    tray.add_cube(Cube::new(&cubes[1], &orientations[7]));
    let (checked, winning) = add_next_cube(&mut tray, 10, 3);
    assert_eq!(checked, 10 + 24 + 576);
    assert!(winning >= 3 && winning <= 3 + 576);
    assert_eq!(tray.get_num_cubes(), 2);
    assert!(std::ptr::eq(tray.get_cube(1).faces, &cubes[1]));
    assert!(std::ptr::eq(tray.get_cube(1).get_orientation(), &orientations[7]));
}
