use vstd::prelude::*;
use vstd::string::StringExecFns;

use crate::cube::{
    shown, visible_at, visible_location, Colour, Cube, CubeFaces, Location, Orientation, Side,
};
use crate::tray::Tray;

verus! {

pub open spec fn colour_name(c: Colour) -> Seq<char> {
    match c {
        Colour::Blue => "Blue"@,
        Colour::Green => "Green"@,
        Colour::Red => "Red"@,
        Colour::Yellow => "Yellow"@,
    }
}

pub open spec fn side_name(s: Side) -> Seq<char> {
    match s {
        Side::One => "One"@,
        Side::Two => "Two"@,
        Side::Three => "Three"@,
        Side::Four => "Four"@,
        Side::Five => "Five"@,
        Side::Six => "Six"@,
    }
}

pub open spec fn location_name(l: Location) -> Seq<char> {
    match l {
        Location::Top => "Top"@,
        Location::Bottom => "Bottom"@,
        Location::Front => "Front"@,
        Location::Back => "Back"@,
        Location::Left => "Left"@,
        Location::Right => "Right"@,
    }
}

pub open spec fn digit(d: nat) -> Seq<char> {
    if d == 0 {
        "0"@
    } else if d == 1 {
        "1"@
    } else if d == 2 {
        "2"@
    } else if d == 3 {
        "3"@
    } else if d == 4 {
        "4"@
    } else if d == 5 {
        "5"@
    } else if d == 6 {
        "6"@
    } else if d == 7 {
        "7"@
    } else if d == 8 {
        "8"@
    } else {
        "9"@
    }
}

/// Decimal digits of `n`, most significant first.
pub open spec fn decimal(n: nat) -> Seq<char>
    decreases n,
{
    if n < 10 {
        digit(n)
    } else {
        decimal(n / 10) + digit(n % 10)
    }
}

/// `items` separated by `", "`.
pub open spec fn joined(items: Seq<Seq<char>>) -> Seq<char>
    decreases items.len(),
{
    if items.len() == 0 {
        Seq::empty()
    } else if items.len() == 1 {
        items[0]
    } else {
        joined(items.drop_last()) + ", "@ + items.last()
    }
}

/// `items` in square brackets, separated by `", "`.
pub open spec fn list_text(items: Seq<Seq<char>>) -> Seq<char> {
    "["@ + joined(items) + "]"@
}

/// The line listing the colours that `stack` shows at `l`, bottom cube first.
pub open spec fn location_row(stack: Seq<(CubeFaces, Orientation)>, l: Location) -> Seq<char> {
    location_name(l) + ": "@ + list_text(
        Seq::new(stack.len(), |i: int| colour_name(shown(stack[i], l))),
    ) + "\n"@
}

/// `location_row` for the first `v` visible locations.
pub open spec fn location_rows(stack: Seq<(CubeFaces, Orientation)>, v: nat) -> Seq<char>
    decreases v,
{
    if v == 0 {
        Seq::empty()
    } else {
        location_rows(stack, (v - 1) as nat) + location_row(stack, visible_location(v - 1))
    }
}

/// The line giving the colour and side that placement `p` shows at `l`.
pub open spec fn placement_line(p: (CubeFaces, Orientation), l: Location) -> Seq<char> {
    location_name(l) + ": "@ + colour_name(shown(p, l)) + " "@ + "("@ + side_name(p.1.side_at(l))
        + ")\n"@
}

/// `placement_line` for the first `v` visible locations.
pub open spec fn placement_lines(p: (CubeFaces, Orientation), v: nat) -> Seq<char>
    decreases v,
{
    if v == 0 {
        Seq::empty()
    } else {
        placement_lines(p, (v - 1) as nat) + placement_line(p, visible_location(v - 1))
    }
}

/// The section of placement `p` of cube number `cube_num` (counted from 0).
pub open spec fn placement_section(cube_num: nat, p: (CubeFaces, Orientation)) -> Seq<char> {
    "Cube "@ + decimal(cube_num + 1) + ":\n"@ + placement_lines(p, 4)
}

/// The sections of the first `i` placements.
pub open spec fn placement_sections(
    order: Seq<usize>,
    stack: Seq<(CubeFaces, Orientation)>,
    i: nat,
) -> Seq<char>
    decreases i,
{
    if i == 0 {
        Seq::empty()
    } else {
        placement_sections(order, stack, (i - 1) as nat) + placement_section(
            order[i - 1] as nat,
            stack[i - 1],
        )
    }
}

/// The text report of a stack: the order (cubes numbered from 1), the colours at
/// each visible location, then each cube's colours and sides at those locations.
pub open spec fn layout_text(order: Seq<usize>, stack: Seq<(CubeFaces, Orientation)>) -> Seq<
    char,
> {
    "Cube order: "@ + list_text(Seq::new(order.len(), |i: int| decimal((order[i] + 1) as nat))) + "\n"@
        + location_rows(stack, 4) + placement_sections(order, stack, order.len())
}

fn colour_text(c: &Colour) -> (r: &'static str)
    ensures
        r@ == colour_name(*c),
{
    match c {
        Colour::Blue => "Blue",
        Colour::Green => "Green",
        Colour::Red => "Red",
        Colour::Yellow => "Yellow",
    }
}

fn side_text(s: &Side) -> (r: &'static str)
    ensures
        r@ == side_name(*s),
{
    match s {
        Side::One => "One",
        Side::Two => "Two",
        Side::Three => "Three",
        Side::Four => "Four",
        Side::Five => "Five",
        Side::Six => "Six",
    }
}

fn location_text(l: &Location) -> (r: &'static str)
    ensures
        r@ == location_name(*l),
{
    match l {
        Location::Top => "Top",
        Location::Bottom => "Bottom",
        Location::Front => "Front",
        Location::Back => "Back",
        Location::Left => "Left",
        Location::Right => "Right",
    }
}

fn digit_text(d: usize) -> (r: &'static str)
    requires
        d < 10,
    ensures
        r@ == digit(d as nat),
{
    if d == 0 {
        "0"
    } else if d == 1 {
        "1"
    } else if d == 2 {
        "2"
    } else if d == 3 {
        "3"
    } else if d == 4 {
        "4"
    } else if d == 5 {
        "5"
    } else if d == 6 {
        "6"
    } else if d == 7 {
        "7"
    } else if d == 8 {
        "8"
    } else {
        "9"
    }
}

fn push_decimal(s: &mut String, n: usize)
    ensures
        final(s)@ == old(s)@ + decimal(n as nat),
    decreases n,
{
    if n >= 10 {
        push_decimal(s, n / 10);
    }
    s.append(digit_text(n % 10));
    assert(final(s)@ =~= old(s)@ + decimal(n as nat));
}

proof fn lemma_joined_push(items: Seq<Seq<char>>, i: int)
    requires
        0 <= i < items.len(),
    ensures
        joined(items.take(i + 1)) == if i == 0 {
            items[0]
        } else {
            joined(items.take(i)) + ", "@ + items[i]
        },
{
    assert(items.take(i + 1).drop_last() =~= items.take(i));
}

impl<'a> Tray<'a> {
    /// The text report of the tray (see `layout_text`).
    pub fn get_layout(&self) -> (r: String)
        requires
            self.order().len() <= self.placements().len(),
            forall|d: int|
                0 <= d < self.order().len() ==> (#[trigger] self.order()[d] as int)
                    < self.catalogue().len(),
        ensures
            r@ == layout_text(self.order(), self.placements()),
    {
        let cubes_order = self.get_cubes_order();
        let cubes = self.get_cubes();
        let ghost order = self.order();
        let ghost stack = self.placements();
        let ghost nums = Seq::new(order.len(), |i: int| decimal((order[i] + 1) as nat));
        let num_faces = self.get_cube_faces().len();
        let mut layout = String::from_str("Cube order: ");
        layout.append("[");
        let mut i: usize = 0;
        while i < cubes_order.len()
            invariant
                i <= cubes_order.len(),
                cubes_order@ == order,
                order.len() <= stack.len(),
                forall|d: int| 0 <= d < order.len() ==> (#[trigger] order[d] as int) < self.catalogue().len(),
                self.catalogue().len() == num_faces,
                stack == self.placements(),
                nums == Seq::new(order.len(), |i: int| decimal((order[i] + 1) as nat)),
                layout@ == "Cube order: "@ + "["@ + joined(nums.take(i as int)),
            decreases cubes_order.len() - i,
        {
            proof {
                lemma_joined_push(nums, i as int);
            }
            if i > 0 {
                layout.append(", ");
            }
            push_decimal(&mut layout, cubes_order[i] + 1);
            i = i + 1;
        }
        layout.append("]");
        layout.append("\n");
        assert(nums.take(i as int) =~= nums);
        let ghost head = layout@;
        assert(head =~= "Cube order: "@ + list_text(nums) + "\n"@);
        let mut v: usize = 0;
        while v < 4
            invariant
                v <= 4,
                cubes@.map_values(|c: Cube<'a>| c@) == stack,
                layout@ == head + location_rows(stack, v as nat),
            decreases 4 - v,
        {
            let l = visible_at(v);
            let ghost names = Seq::new(stack.len(), |i: int| colour_name(shown(stack[i], l)));
            let ghost start = layout@;
            layout.append(location_text(&l));
            layout.append(": [");
            let mut i: usize = 0;
            while i < cubes.len()
                invariant
                    i <= cubes.len(),
                    cubes@.map_values(|c: Cube<'a>| c@) == stack,
                    names == Seq::new(stack.len(), |i: int| colour_name(shown(stack[i], l))),
                    layout@ == start + location_name(l) + ": ["@ + joined(names.take(i as int)),
                decreases cubes.len() - i,
            {
                proof {
                    lemma_joined_push(names, i as int);
                }
                if i > 0 {
                    layout.append(", ");
                }
                assert(stack[i as int] == cubes@[i as int]@);
                layout.append(colour_text(cubes[i].get_colour_at_location(&l)));
                i = i + 1;
            }
            layout.append("]\n");
            assert(names.take(i as int) =~= names);
            proof {
                reveal_strlit(": [");
                reveal_strlit(": ");
                reveal_strlit("[");
                reveal_strlit("]\n");
                reveal_strlit("]");
                reveal_strlit("\n");
            }
            assert(layout@ =~= head + location_rows(stack, (v + 1) as nat));
            v = v + 1;
        }
        let ghost middle = layout@;
        let mut idx: usize = 0;
        while idx < cubes_order.len()
            invariant
                idx <= cubes_order.len(),
                cubes_order@ == order,
                order.len() <= stack.len(),
                forall|d: int| 0 <= d < order.len() ==> (#[trigger] order[d] as int) < self.catalogue().len(),
                self.catalogue().len() == num_faces,
                stack == self.placements(),
                cubes@.map_values(|c: Cube<'a>| c@) == stack,
                layout@ == middle + placement_sections(order, stack, idx as nat),
            decreases cubes_order.len() - idx,
        {
            let cube = self.get_cube(idx);
            let ghost p = stack[idx as int];
            let ghost start = layout@;
            layout.append("Cube ");
            push_decimal(&mut layout, cubes_order[idx] + 1);
            layout.append(":\n");
            let mut w: usize = 0;
            while w < 4
                invariant
                    w <= 4,
                    idx < order.len(),
                    cube@ == p,
                    layout@ == start + "Cube "@ + decimal((order[idx as int] + 1) as nat) + ":\n"@
                        + placement_lines(p, w as nat),
                decreases 4 - w,
            {
                let l = visible_at(w);
                let ghost before = layout@;
                layout.append(location_text(&l));
                layout.append(": ");
                layout.append(colour_text(cube.get_colour_at_location(&l)));
                layout.append(" ");
                layout.append("(");
                layout.append(side_text(cube.get_orientation().get_side_at_location(&l)));
                layout.append(")\n");
                assert(layout@ =~= before + placement_line(p, l));
                w = w + 1;
            }
            assert(layout@ =~= middle + placement_sections(order, stack, (idx + 1) as nat));
            idx = idx + 1;
        }
        layout
    }
}

} // verus!
