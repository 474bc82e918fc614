use vstd::prelude::*;

verus! {

/// A face colour.
#[derive(PartialEq, Eq, Structural, Debug, Clone, Copy, Hash)]
pub enum Colour {
    Blue,
    Green,
    Red,
    Yellow,
}

/// A physical face of a cube, fixed for the cube's lifetime.
#[derive(PartialEq, Eq, Structural, Debug, Clone, Copy, Hash)]
pub enum Side {
    One,
    Two,
    Three,
    Four,
    Five,
    Six,
}

/// A spatial slot of a standing cube.
#[derive(PartialEq, Eq, Structural, Debug, Clone, Copy, Hash)]
pub enum Location {
    Top,
    Bottom,
    Front,
    Back,
    Left,
    Right,
}

/// Slot of a side in a `CubeFaces` table: `One` .. `Six` are 0 .. 5.
pub open spec fn side_index(s: Side) -> int {
    match s {
        Side::One => 0,
        Side::Two => 1,
        Side::Three => 2,
        Side::Four => 3,
        Side::Five => 4,
        Side::Six => 5,
    }
}

/// Slot of a location in an `Orientation` table:
/// `Top, Bottom, Front, Back, Left, Right` are 0 .. 5.
pub open spec fn location_index(l: Location) -> int {
    match l {
        Location::Top => 0,
        Location::Bottom => 1,
        Location::Front => 2,
        Location::Back => 3,
        Location::Left => 4,
        Location::Right => 5,
    }
}

/// The locations seen from outside a stack; left and right touch the neighbours.
pub open spec fn is_visible(l: Location) -> bool {
    l == Location::Top || l == Location::Front || l == Location::Bottom || l == Location::Back
}

/// The visible locations in the order in which they are inspected and reported.
pub open spec fn visible_location(i: int) -> Location {
    if i == 0 {
        Location::Top
    } else if i == 1 {
        Location::Front
    } else if i == 2 {
        Location::Bottom
    } else {
        Location::Back
    }
}

pub fn side_slot(s: &Side) -> (r: usize)
    ensures
        r == side_index(*s),
{
    match s {
        Side::One => 0,
        Side::Two => 1,
        Side::Three => 2,
        Side::Four => 3,
        Side::Five => 4,
        Side::Six => 5,
    }
}

pub fn location_slot(l: &Location) -> (r: usize)
    ensures
        r == location_index(*l),
{
    match l {
        Location::Top => 0,
        Location::Bottom => 1,
        Location::Front => 2,
        Location::Back => 3,
        Location::Left => 4,
        Location::Right => 5,
    }
}

/// The `i`-th visible location: top, front, bottom, back.
pub fn visible_at(i: usize) -> (r: Location)
    requires
        i < 4,
    ensures
        r == visible_location(i as int),
        is_visible(r),
{
    if i == 0 {
        Location::Top
    } else if i == 1 {
        Location::Front
    } else if i == 2 {
        Location::Bottom
    } else {
        Location::Back
    }
}

/// One rotational standing of a cube: the side shown at each location.
/// `sides` is indexed by `location_index`.
#[derive(Debug)]
pub struct Orientation {
    pub sides: [Side; 6],
}

impl Orientation {
    pub open spec fn side_at(&self, l: Location) -> Side {
        self.sides@[location_index(l)]
    }

    /// Each side stands at exactly one location.
    pub open spec fn is_bijection(&self) -> bool {
        forall|i: int, j: int| 0 <= i < j < 6 ==> self.sides@[i] != self.sides@[j]
    }

    pub fn new(m: [Side; 6]) -> (r: Orientation)
        ensures
            r.sides@ == m@,
    {
        Orientation { sides: m }
    }

    pub fn get_side_at_location(&self, location: &Location) -> (r: &Side)
        ensures
            *r == self.side_at(*location),
    {
        &self.sides[location_slot(location)]
    }

    /// Whether the table is a valid standing, i.e. a bijection from locations to sides.
    pub fn is_valid(&self) -> (r: bool)
        ensures
            r == self.is_bijection(),
    {
        let mut i: usize = 0;
        while i < 6
            invariant
                i <= 6,
                forall|a: int, b: int| 0 <= a < b < 6 && a < i ==> self.sides@[a] != self.sides@[b],
            decreases 6 - i,
        {
            let mut j: usize = i + 1;
            while j < 6
                invariant
                    i < 6,
                    i < j <= 6,
                    forall|a: int, b: int|
                        0 <= a < b < 6 && a < i ==> self.sides@[a] != self.sides@[b],
                    forall|b: int| i < b < j ==> self.sides@[i as int] != self.sides@[b],
                decreases 6 - j,
            {
                if self.sides[i] == self.sides[j] {
                    return false;
                }
                j = j + 1;
            }
            i = i + 1;
        }
        true
    }
}

/// The colour of each face of one physical cube, indexed by `side_index`.
#[derive(Debug)]
pub struct CubeFaces {
    pub colours: [Colour; 6],
}

impl CubeFaces {
    pub open spec fn colour_on(&self, s: Side) -> Colour {
        self.colours@[side_index(s)]
    }

    pub fn new(colours: [Colour; 6]) -> (r: CubeFaces)
        ensures
            r.colours@ == colours@,
    {
        CubeFaces { colours }
    }

    pub fn get_colour_on_side(&self, side: &Side) -> (r: &Colour)
        ensures
            *r == self.colour_on(*side),
    {
        &self.colours[side_slot(side)]
    }
}

/// The colour that a cube with faces `f` standing in `o` shows at `l`.
pub open spec fn shown(p: (CubeFaces, Orientation), l: Location) -> Colour {
    p.0.colour_on(p.1.side_at(l))
}

/// A placement: one physical cube standing in one orientation.
#[derive(Debug)]
pub struct Cube<'a> {
    pub faces: &'a CubeFaces,
    pub orientation: &'a Orientation,
}

impl<'a> View for Cube<'a> {
    type V = (CubeFaces, Orientation);

    open spec fn view(&self) -> (CubeFaces, Orientation) {
        (*self.faces, *self.orientation)
    }
}

impl<'a> Cube<'a> {
    pub fn new(faces: &'a CubeFaces, orientation: &'a Orientation) -> (r: Cube<'a>)
        ensures
            r@ == (*faces, *orientation),
    {
        Cube { faces, orientation }
    }

    pub fn get_colour_at_location(&self, location: &Location) -> (r: &Colour)
        ensures
            *r == shown(self@, *location),
            *r == self.faces.colour_on(self.orientation.side_at(*location)),
    {
        self.faces.get_colour_on_side(self.orientation.get_side_at_location(location))
    }

    pub fn get_orientation(&self) -> (r: &Orientation)
        ensures
            *r == *self.orientation,
    {
        self.orientation
    }
}

} // verus!
