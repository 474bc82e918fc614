use vstd::prelude::*;

use crate::cube::{is_visible, shown, visible_at, Colour, Cube, CubeFaces, Location, Orientation};

verus! {

/// The colours that the placements of `stack` show at `l`, bottom of the stack first.
pub open spec fn colours_at(stack: Seq<(CubeFaces, Orientation)>, l: Location) -> Seq<Colour> {
    stack.map_values(|p: (CubeFaces, Orientation)| shown(p, l))
}

/// A stack is solved when no colour repeats at any visible location.
pub open spec fn solved(stack: Seq<(CubeFaces, Orientation)>) -> bool {
    forall|l: Location| is_visible(l) ==> (#[trigger] colours_at(stack, l)).no_duplicates()
}

/// Whether a colour collection repeats depends only on which colours it holds
/// and how often, not on their order.
pub proof fn lemma_distinct_ignores_order(a: Seq<Colour>, b: Seq<Colour>)
    requires
        a.to_multiset() == b.to_multiset(),
    ensures
        a.no_duplicates() == b.no_duplicates(),
{
    if a.no_duplicates() {
        a.lemma_multiset_has_no_duplicates();
        b.lemma_multiset_has_no_duplicates_conv();
    }
    if b.no_duplicates() {
        b.lemma_multiset_has_no_duplicates();
        a.lemma_multiset_has_no_duplicates_conv();
    }
}

/// Two stacks whose visible colour collections hold the same colours, in any
/// order, are both solved or both unsolved.
pub proof fn lemma_solved_ignores_order(
    a: Seq<(CubeFaces, Orientation)>,
    b: Seq<(CubeFaces, Orientation)>,
)
    requires
        forall|l: Location|
            is_visible(l) ==> (#[trigger] colours_at(a, l)).to_multiset() == colours_at(
                b,
                l,
            ).to_multiset(),
    ensures
        solved(a) == solved(b),
{
    assert forall|l: Location| #![trigger colours_at(a, l)] #![trigger colours_at(b, l)]
        is_visible(l) implies colours_at(a, l).no_duplicates() == colours_at(
        b,
        l,
    ).no_duplicates() by {
        lemma_distinct_ignores_order(colours_at(a, l), colours_at(b, l));
    }
}

/// A colour repeated at any one visible location leaves the stack unsolved,
/// whatever the other three show.
pub proof fn lemma_repeat_at_one_location(stack: Seq<(CubeFaces, Orientation)>, l: Location)
    requires
        is_visible(l),
        !colours_at(stack, l).no_duplicates(),
    ensures
        !solved(stack),
{
}

/// A stack of one cube is always solved.
pub proof fn lemma_single_cube_solved(stack: Seq<(CubeFaces, Orientation)>)
    requires
        stack.len() == 1,
    ensures
        solved(stack),
{
}

/// Two placements of the same cube in the same orientation show the same
/// colour at every location, so a stack holding both is never solved.
pub proof fn lemma_twin_placements_unsolved(
    stack: Seq<(CubeFaces, Orientation)>,
    i: int,
    j: int,
)
    requires
        0 <= i < j < stack.len(),
        stack[i] == stack[j],
    ensures
        !solved(stack),
{
    let cs = colours_at(stack, Location::Top);
    assert(cs[i] == cs[j]);
}

/// The stack under construction, with the fixed order in which the cubes
/// of `cube_faces` are placed.
pub struct Tray<'a> {
    cubes: Vec<Cube<'a>>,
    cube_order: Vec<usize>,
    pub cube_orientations: &'a Vec<Orientation>,
    pub cube_faces: &'a Vec<CubeFaces>,
}

impl<'a> Tray<'a> {
    /// The placements, bottom first.
    pub closed spec fn placements(&self) -> Seq<(CubeFaces, Orientation)> {
        self.cubes@.map_values(|c: Cube<'a>| c@)
    }

    /// The stacking order: entry `d` is the index in `cube_faces` of the cube placed at depth `d`.
    pub closed spec fn order(&self) -> Seq<usize> {
        self.cube_order@
    }

    /// The orientations that each cube is tried in.
    pub closed spec fn orientations(&self) -> Seq<Orientation> {
        self.cube_orientations@
    }

    /// The physical cubes.
    pub closed spec fn catalogue(&self) -> Seq<CubeFaces> {
        self.cube_faces@
    }

    pub fn new(
        cubes: Vec<Cube<'a>>,
        cube_order: Vec<usize>,
        cube_orientations: &'a Vec<Orientation>,
        cube_faces: &'a Vec<CubeFaces>,
    ) -> (r: Tray<'a>)
        ensures
            r.placements() == cubes@.map_values(|c: Cube<'a>| c@),
            r.order() == cube_order@,
            r.orientations() == cube_orientations@,
            r.catalogue() == cube_faces@,
    {
        Tray { cubes, cube_order, cube_orientations, cube_faces }
    }

    pub fn add_cube(&mut self, c: Cube<'a>)
        requires
            old(self).placements().len() < old(self).order().len(),
        ensures
            final(self).placements() == old(self).placements().push(c@),
            final(self).order() == old(self).order(),
            final(self).orientations() == old(self).orientations(),
            final(self).catalogue() == old(self).catalogue(),
    {
        self.cubes.push(c);
        assert(self.cubes@.map_values(|c: Cube<'a>| c@) =~= old(self).placements().push(c@));
    }

    pub fn get_cube(&self, i: usize) -> (r: &Cube<'a>)
        requires
            i < self.placements().len(),
        ensures
            r@ == self.placements()[i as int],
    {
        &self.cubes[i]
    }

    pub fn get_cubes(&self) -> (r: &Vec<Cube<'a>>)
        ensures
            r@.map_values(|c: Cube<'a>| c@) == self.placements(),
    {
        &self.cubes
    }

    pub fn get_cubes_order(&self) -> (r: &Vec<usize>)
        ensures
            r@ == self.order(),
    {
        &self.cube_order
    }

    pub fn get_cube_orientations(&self) -> (r: &'a Vec<Orientation>)
        ensures
            r@ == self.orientations(),
    {
        self.cube_orientations
    }

    pub fn get_cube_faces(&self) -> (r: &'a Vec<CubeFaces>)
        ensures
            r@ == self.catalogue(),
    {
        self.cube_faces
    }

    pub fn get_num_cubes(&self) -> (r: usize)
        ensures
            r == self.placements().len(),
    {
        self.cubes.len()
    }

    pub fn pop_cube(&mut self)
        requires
            old(self).placements().len() > 0,
        ensures
            final(self).placements() == old(self).placements().drop_last(),
            final(self).order() == old(self).order(),
            final(self).orientations() == old(self).orientations(),
            final(self).catalogue() == old(self).catalogue(),
    {
        self.cubes.pop();
        assert(self.cubes@.map_values(|c: Cube<'a>| c@) =~= old(self).placements().drop_last());
    }

    /// Whether every visible location shows pairwise distinct colours.
    pub fn is_solved(&self) -> (r: bool)
        ensures
            r == solved(self.placements()),
    {
        let n = self.cubes.len();
        let mut v: usize = 0;
        while v < 4
            invariant
                v <= 4,
                n == self.placements().len(),
                forall|w: int|
                    0 <= w < v ==> (#[trigger] colours_at(
                        self.placements(),
                        crate::cube::visible_location(w),
                    )).no_duplicates(),
            decreases 4 - v,
        {
            let l = visible_at(v);
            let ghost cs = colours_at(self.placements(), l);
            let mut i: usize = 0;
            while i < n
                invariant
                    i <= n,
                    n == self.placements().len(),
                    cs == colours_at(self.placements(), l),
                    is_visible(l),
                    forall|a: int, b: int| 0 <= a < b < n && a < i ==> cs[a] != cs[b],
                decreases n - i,
            {
                let ci = self.cubes[i].get_colour_at_location(&l);
                assert(cs[i as int] == shown(self.cubes@[i as int]@, l));
                let mut j: usize = i + 1;
                while j < n
                    invariant
                        i < j <= n,
                        n == self.placements().len(),
                        cs == colours_at(self.placements(), l),
                        is_visible(l),
                        *ci == cs[i as int],
                        forall|a: int, b: int| 0 <= a < b < n && a < i ==> cs[a] != cs[b],
                        forall|b: int| i < b < j ==> cs[i as int] != cs[b],
                    decreases n - j,
                {
                    let cj = self.cubes[j].get_colour_at_location(&l);
                    assert(cs[j as int] == shown(self.cubes@[j as int]@, l));
                    if *ci == *cj {
                        assert(!cs.no_duplicates());
                        assert(is_visible(l));
                        assert(!colours_at(self.placements(), l).no_duplicates());
                        return false;
                    }
                    j = j + 1;
                }
                i = i + 1;
            }
            assert(cs.no_duplicates());
            v = v + 1;
        }
        assert forall|l: Location| is_visible(l) implies (#[trigger] colours_at(
            self.placements(),
            l,
        )).no_duplicates() by {
            let w: int = if l == Location::Top {
                0
            } else if l == Location::Front {
                1
            } else if l == Location::Bottom {
                2
            } else {
                3
            };
            assert(crate::cube::visible_location(w) == l);
        }
        true
    }
}

} // verus!
