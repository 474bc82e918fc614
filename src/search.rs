use vstd::prelude::*;

use itertools::Itertools;

use crate::cube::{Cube, CubeFaces, Orientation};
use crate::tray::{solved, Tray};

verus! {

pub open spec fn power(b: nat, e: nat) -> nat
    decreases e,
{
    if e == 0 {
        1
    } else {
        b * power(b, (e - 1) as nat)
    }
}

/// Orientation trials made while filling `levels` more depths of a stack with
/// `o` orientations to choose from at each: `o + o^2 + ... + o^levels`.
pub open spec fn trials(o: nat, levels: nat) -> nat
    decreases levels,
{
    if levels == 0 {
        0
    } else {
        trials(o, (levels - 1) as nat) + power(o, levels)
    }
}

/// A stacking order of `n` cubes: each index below `n` exactly once.
pub open spec fn is_order(p: Seq<usize>, n: nat) -> bool {
    &&& p.len() == n
    &&& forall|d: int| 0 <= d < p.len() ==> (p[d] as nat) < n
    &&& p.no_duplicates()
}

/// All stacking orders of `n` cubes.
pub open spec fn stacking_orders(n: nat) -> Set<Seq<usize>> {
    Set::new(|p: Seq<usize>| is_order(p, n))
}

/// The placement of the next cube of `order` on `stack`, standing in `orients[k]`.
pub open spec fn next_placement(
    faces: Seq<CubeFaces>,
    orients: Seq<Orientation>,
    order: Seq<usize>,
    stack: Seq<(CubeFaces, Orientation)>,
    k: int,
) -> (CubeFaces, Orientation) {
    (faces[order[stack.len() as int] as int], orients[k])
}

/// The number of solved complete stacks that extend `stack`, where the cube at
/// depth `d` is `faces[order[d]]` and each cube stands in one of `orients`.
pub open spec fn wins(
    faces: Seq<CubeFaces>,
    orients: Seq<Orientation>,
    order: Seq<usize>,
    stack: Seq<(CubeFaces, Orientation)>,
) -> nat
    decreases order.len() - stack.len(), 1int, 0int,
{
    if stack.len() >= order.len() {
        if solved(stack) {
            1
        } else {
            0
        }
    } else {
        wins_from(faces, orients, order, stack, 0)
    }
}

/// `wins` summed over the orientations `orients[k..]` of the next cube.
pub open spec fn wins_from(
    faces: Seq<CubeFaces>,
    orients: Seq<Orientation>,
    order: Seq<usize>,
    stack: Seq<(CubeFaces, Orientation)>,
    k: int,
) -> nat
    decreases order.len() - stack.len(), 0int, orients.len() - k,
{
    if stack.len() >= order.len() || k < 0 || k >= orients.len() {
        0
    } else {
        wins(faces, orients, order, stack.push(next_placement(faces, orients, order, stack, k)))
            + wins_from(faces, orients, order, stack, k + 1)
    }
}

/// `wins` from the empty stack, summed over `orders`.
pub open spec fn total_wins(
    faces: Seq<CubeFaces>,
    orients: Seq<Orientation>,
    orders: Seq<Seq<usize>>,
) -> nat
    decreases orders.len(),
{
    if orders.len() == 0 {
        0
    } else {
        total_wins(faces, orients, orders.drop_last()) + wins(faces, orients, orders.last(), seq![])
    }
}

pub proof fn lemma_trials_step(o: nat, levels: nat)
    requires
        levels >= 1,
    ensures
        trials(o, levels) == o * (1 + trials(o, (levels - 1) as nat)),
        power(o, levels) <= trials(o, levels),
    decreases levels,
{
    let p1 = power(o, (levels - 1) as nat);
    assert(power(o, levels) == o * p1);
    if levels == 1 {
        assert(p1 == 1);
        assert(trials(o, 0) == 0);
    } else {
        lemma_trials_step(o, (levels - 1) as nat);
        let t2 = trials(o, (levels - 2) as nat);
        assert(trials(o, (levels - 1) as nat) == o * (1 + t2));
        assert(trials(o, levels) == trials(o, (levels - 1) as nat) + o * p1);
        assert(o * (1 + (t2 + p1)) == o * (1 + t2) + o * p1) by (nonlinear_arith);
    }
}

/// Counting every orientation trial at every depth gives the number of complete
/// stacks, `num_orders * o^n`, exactly when each stack holds one cube (or no
/// orientation is offered).
pub proof fn lemma_trials_equal_complete_stacks(num_orders: nat, o: nat, n: nat)
    requires
        n == 1 || (o == 0 && n >= 1),
    ensures
        num_orders * trials(o, n) == num_orders * power(o, n),
{
    if n == 1 {
        assert(trials(o, 1) == trials(o, 0) + power(o, 1));
        assert(power(o, 0) == 1);
    } else {
        lemma_zero_orientations(n);
        assert(power(0, n) == 0 * power(0, (n - 1) as nat));
    }
}

/// The solved complete stacks that extend `stack` are at most the complete
/// stacks that extend it, which are at most the trials the search makes there.
pub proof fn lemma_wins_within_trials(
    faces: Seq<CubeFaces>,
    orients: Seq<Orientation>,
    order: Seq<usize>,
    stack: Seq<(CubeFaces, Orientation)>,
)
    requires
        stack.len() < order.len(),
    ensures
        wins(faces, orients, order, stack) <= power(
            orients.len(),
            (order.len() - stack.len()) as nat,
        ),
        power(orients.len(), (order.len() - stack.len()) as nat) <= trials(
            orients.len(),
            (order.len() - stack.len()) as nat,
        ),
{
    lemma_wins_bound(faces, orients, order, stack);
    lemma_trials_step(orients.len(), (order.len() - stack.len()) as nat);
}

proof fn lemma_wins_bound(
    faces: Seq<CubeFaces>,
    orients: Seq<Orientation>,
    order: Seq<usize>,
    stack: Seq<(CubeFaces, Orientation)>,
)
    requires
        stack.len() <= order.len(),
    ensures
        wins(faces, orients, order, stack) <= power(
            orients.len(),
            (order.len() - stack.len()) as nat,
        ),
    decreases order.len() - stack.len(), 1int, 0int,
{
    if stack.len() < order.len() {
        lemma_wins_from_bound(faces, orients, order, stack, 0);
        let l = (order.len() - stack.len()) as nat;
        assert(power(orients.len(), l) == orients.len() * power(orients.len(), (l - 1) as nat));
    }
}

proof fn lemma_wins_from_bound(
    faces: Seq<CubeFaces>,
    orients: Seq<Orientation>,
    order: Seq<usize>,
    stack: Seq<(CubeFaces, Orientation)>,
    k: int,
)
    requires
        stack.len() < order.len(),
        0 <= k <= orients.len(),
    ensures
        wins_from(faces, orients, order, stack, k) <= (orients.len() - k) * power(
            orients.len(),
            (order.len() - stack.len() - 1) as nat,
        ),
    decreases order.len() - stack.len(), 0int, orients.len() - k,
{
    if k < orients.len() {
        let child = stack.push(next_placement(faces, orients, order, stack, k));
        lemma_wins_bound(faces, orients, order, child);
        lemma_wins_from_bound(faces, orients, order, stack, k + 1);
        let p = power(orients.len(), (order.len() - stack.len() - 1) as nat);
        assert(p + (orients.len() - (k + 1)) * p == (orients.len() - k) * p) by (nonlinear_arith);
    }
}

/// With a single cube in the order, every orientation gives a solved complete
/// stack: the solved stacks number exactly the orientations tried.
pub proof fn lemma_single_cube_wins(
    faces: Seq<CubeFaces>,
    orients: Seq<Orientation>,
    order: Seq<usize>,
)
    requires
        order.len() == 1,
    ensures
        wins(faces, orients, order, seq![]) == orients.len(),
        wins(faces, orients, order, seq![]) == trials(orients.len(), 1),
{
    lemma_single_cube_wins_from(faces, orients, order, 0);
    assert(trials(orients.len(), 1) == trials(orients.len(), 0) + power(orients.len(), 1));
    assert(power(orients.len(), 0) == 1);
    assert(power(orients.len(), 1) == orients.len() * power(orients.len(), 0));
    assert(wins(faces, orients, order, seq![]) == wins_from(faces, orients, order, seq![], 0));
}

proof fn lemma_single_cube_wins_from(
    faces: Seq<CubeFaces>,
    orients: Seq<Orientation>,
    order: Seq<usize>,
    k: int,
)
    requires
        order.len() == 1,
        0 <= k <= orients.len(),
    ensures
        wins_from(faces, orients, order, seq![], k) == orients.len() - k,
    decreases orients.len() - k,
{
    if k < orients.len() {
        lemma_single_cube_wins_from(faces, orients, order, k + 1);
        let child = Seq::<(CubeFaces, Orientation)>::empty().push(
            next_placement(faces, orients, order, seq![], k),
        );
        crate::tray::lemma_single_cube_solved(child);
        assert(child =~= Seq::<(CubeFaces, Orientation)>::empty().push(
            next_placement(faces, orients, order, seq![], k),
        ));
        assert(wins(faces, orients, order, child) == 1);
        assert(wins_from(faces, orients, order, seq![], k) == wins(faces, orients, order, child)
            + wins_from(faces, orients, order, seq![], k + 1));
    }
}

/// Tries every orientation of the next cube of the tray's order on top of the
/// tray, recursing until the stack is complete, and counts each trial in
/// `checked_combinations` and each solved complete stack in `winning_combinations`.
pub fn add_next_cube<'a>(
    tray: &mut Tray<'a>,
    checked_combinations: u32,
    winning_combinations: u32,
) -> (r: (u32, u32))
    requires
        old(tray).placements().len() < old(tray).order().len(),
        forall|d: int|
            0 <= d < old(tray).order().len() ==> (#[trigger] old(tray).order()[d] as int)
                < old(tray).catalogue().len(),
        checked_combinations + trials(
            old(tray).orientations().len(),
            (old(tray).order().len() - old(tray).placements().len()) as nat,
        ) <= u32::MAX,
        winning_combinations + power(
            old(tray).orientations().len(),
            (old(tray).order().len() - old(tray).placements().len()) as nat,
        ) <= u32::MAX,
    ensures
        final(tray).placements() == old(tray).placements(),
        final(tray).order() == old(tray).order(),
        final(tray).orientations() == old(tray).orientations(),
        final(tray).catalogue() == old(tray).catalogue(),
        r.0 == checked_combinations + trials(
            old(tray).orientations().len(),
            (old(tray).order().len() - old(tray).placements().len()) as nat,
        ),
        r.1 == winning_combinations + wins(
            old(tray).catalogue(),
            old(tray).orientations(),
            old(tray).order(),
            old(tray).placements(),
        ),
        r.1 <= winning_combinations + power(
            old(tray).orientations().len(),
            (old(tray).order().len() - old(tray).placements().len()) as nat,
        ),
        r.1 - winning_combinations <= r.0 - checked_combinations,
    decreases (old(tray).order().len() - old(tray).placements().len()) as nat,
{
    let ghost stack = tray.placements();
    let ghost order = tray.order();
    let ghost orients = tray.orientations();
    let ghost catalogue = tray.catalogue();
    let ghost levels = (order.len() - stack.len()) as nat;
    let ghost rest = trials(orients.len(), (levels - 1) as nat);
    let ghost below = power(orients.len(), (levels - 1) as nat);
    proof {
        lemma_trials_step(orients.len(), levels);
    }
    let depth = tray.get_num_cubes();
    let num_cubes = tray.get_cubes_order().len();
    let cube_number = tray.get_cubes_order()[depth];
    let faces = &tray.get_cube_faces()[cube_number];
    let orientations = tray.get_cube_orientations();
    let mut checked = checked_combinations;
    let mut winning = winning_combinations;
    let mut k: usize = 0;
    while k < orientations.len()
        invariant
            k <= orientations.len(),
            orientations@ == orients,
            tray.placements() == stack,
            tray.order() == order,
            old(tray).placements() == stack,
            old(tray).order() == order,
            tray.orientations() == orients,
            tray.catalogue() == catalogue,
            depth == stack.len(),
            num_cubes == order.len(),
            depth < num_cubes,
            levels == num_cubes - depth,
            cube_number == order[depth as int],
            *faces == catalogue[cube_number as int],
            forall|d: int| 0 <= d < order.len() ==> (#[trigger] order[d] as int) < catalogue.len(),
            rest == trials(orients.len(), (levels - 1) as nat),
            below == power(orients.len(), (levels - 1) as nat),
            trials(orients.len(), levels) == orients.len() * (1 + rest),
            power(orients.len(), levels) == orients.len() * below,
            checked_combinations + trials(orients.len(), levels) <= u32::MAX,
            winning_combinations + power(orients.len(), levels) <= u32::MAX,
            checked == checked_combinations + k * (1 + rest),
            winning <= winning_combinations + k * below,
            winning + wins_from(catalogue, orients, order, stack, k as int) == winning_combinations
                + wins_from(catalogue, orients, order, stack, 0),
        decreases orientations.len() - k,
    {
        proof {
            assert((k + 1) * (1 + rest) <= orients.len() * (1 + rest)) by (nonlinear_arith)
                requires
                    k + 1 <= orients.len(),
            ;
            assert((k + 1) * below <= orients.len() * below) by (nonlinear_arith)
                requires
                    k + 1 <= orients.len(),
            ;
            assert((k + 1) * (1 + rest) == k * (1 + rest) + 1 + rest) by (nonlinear_arith);
            assert((k + 1) * below == k * below + below) by (nonlinear_arith);
        }
        let ghost child = stack.push(next_placement(catalogue, orients, order, stack, k as int));
        assert(wins_from(catalogue, orients, order, stack, k as int) == wins(
            catalogue,
            orients,
            order,
            child,
        ) + wins_from(catalogue, orients, order, stack, k + 1));
        tray.add_cube(Cube::new(faces, &orientations[k]));
        assert(tray.placements() == child);
        checked = checked + 1;
        if tray.get_num_cubes() == tray.get_cubes_order().len() {
            if tray.is_solved() {
                winning = winning + 1;
            }
        } else {
            assert(tray.order().len() - tray.placements().len() < order.len() - stack.len());
            let (c, w) = add_next_cube(tray, checked, winning);
            checked = c;
            winning = w;
        }
        tray.pop_cube();
        assert(child.drop_last() =~= stack);
        k = k + 1;
    }
    (checked, winning)
}

/// The stacking orders of `n` cubes, each once.
///
/// Relies on itertools' `permutations` (every `n`-permutation of `0..n`, by
/// position) and `unique` (drops later repeats).
#[verifier::external_body]
fn distinct_orders(n: usize) -> (r: Vec<Vec<usize>>)
    ensures
        r@.map_values(|v: Vec<usize>| v@).no_duplicates(),
        forall|i: int| 0 <= i < r@.len() ==> is_order(#[trigger] r@[i]@, n as nat),
        forall|p: Seq<usize>| is_order(p, n as nat) ==> r@.map_values(|v: Vec<usize>| v@).contains(p),
{
    (0..n).permutations(n).unique().collect_vec()
}

pub proof fn lemma_trials_monotone(o: nat, a: nat, b: nat)
    requires
        a <= b,
    ensures
        trials(o, a) <= trials(o, b),
    decreases b,
{
    if a < b {
        lemma_trials_monotone(o, a, (b - 1) as nat);
    }
}

pub proof fn lemma_power_monotone(o: nat, a: nat, b: nat)
    requires
        o >= 1,
        a <= b,
    ensures
        1 <= power(o, a) <= power(o, b),
    decreases b,
{
    if a < b {
        lemma_power_monotone(o, a, (b - 1) as nat);
        let p = power(o, (b - 1) as nat);
        assert(p <= o * p) by (nonlinear_arith)
            requires
                o >= 1,
                p >= 1,
        ;
    } else if b > 0 {
        lemma_power_monotone(o, 0, (b - 1) as nat);
        let p = power(o, (b - 1) as nat);
        assert(1 <= o * p) by (nonlinear_arith)
            requires
                o >= 1,
                p >= 1,
        ;
    }
}

/// Runs the search from an empty tray for each stacking order in `orders`,
/// returning the orientation trials made and the solved complete stacks found.
pub fn count_combinations(
    orders: &Vec<Vec<usize>>,
    cube_orientations: &Vec<Orientation>,
    cube_faces: &Vec<CubeFaces>,
) -> (r: (u32, u32))
    requires
        cube_faces.len() >= 1,
        forall|i: int|
            0 <= i < orders.len() ==> (#[trigger] orders@[i]@).len() == cube_faces.len() && forall|
                d: int,
            | 0 <= d < cube_faces.len() ==> (#[trigger] orders@[i]@[d] as int) < cube_faces.len(),
        orders.len() * trials(cube_orientations.len() as nat, cube_faces.len() as nat) <= u32::MAX,
    ensures
        r.0 == orders.len() * trials(cube_orientations.len() as nat, cube_faces.len() as nat),
        r.1 == total_wins(
            cube_faces@,
            cube_orientations@,
            orders@.map_values(|v: Vec<usize>| v@),
        ),
        r.1 <= orders.len() * power(cube_orientations.len() as nat, cube_faces.len() as nat),
        r.1 <= r.0,
{
    let ghost o = cube_orientations.len() as nat;
    let ghost n = cube_faces.len() as nat;
    let ghost all = orders@.map_values(|v: Vec<usize>| v@);
    proof {
        lemma_trials_step(o, n);
    }
    let mut checked_combinations: u32 = 0;
    let mut winning_combinations: u32 = 0;
    let mut i: usize = 0;
    while i < orders.len()
        invariant
            i <= orders.len(),
            n == cube_faces.len(),
            n >= 1,
            o == cube_orientations.len(),
            all == orders@.map_values(|v: Vec<usize>| v@),
            forall|i: int|
                0 <= i < orders.len() ==> (#[trigger] orders@[i]@).len() == n && forall|d: int|
                    0 <= d < n ==> (#[trigger] orders@[i]@[d] as int) < n,
            orders.len() * trials(o, n) <= u32::MAX,
            power(o, n) <= trials(o, n),
            checked_combinations == i * trials(o, n),
            winning_combinations == total_wins(cube_faces@, cube_orientations@, all.take(i as int)),
            winning_combinations <= i * power(o, n),
        decreases orders.len() - i,
    {
        proof {
            assert((i + 1) * trials(o, n) <= orders.len() * trials(o, n)) by (nonlinear_arith)
                requires
                    i + 1 <= orders.len(),
            ;
            assert((i + 1) * power(o, n) <= (i + 1) * trials(o, n)) by (nonlinear_arith)
                requires
                    power(o, n) <= trials(o, n),
            ;
            assert((i + 1) * trials(o, n) == i * trials(o, n) + trials(o, n)) by (nonlinear_arith);
            assert((i + 1) * power(o, n) == i * power(o, n) + power(o, n)) by (nonlinear_arith);
        }
        let mut tray = Tray::new(Vec::new(), orders[i].clone(), cube_orientations, cube_faces);
        assert(tray.order() =~= all[i as int]);
        assert(tray.placements() =~= seq![]);
        let (c, w) = add_next_cube(&mut tray, checked_combinations, winning_combinations);
        checked_combinations = c;
        winning_combinations = w;
        assert(all.take(i + 1).drop_last() =~= all.take(i as int));
        i = i + 1;
    }
    assert(all.take(i as int) =~= all);
    assert(i * power(o, n) <= i * trials(o, n)) by (nonlinear_arith)
        requires
            power(o, n) <= trials(o, n),
    ;
    (checked_combinations, winning_combinations)
}

/// `num_orders * trials(o, n)` when it fits in a `u32`.
pub fn checked_total(num_orders: usize, o: usize, n: usize) -> (r: Option<u32>)
    ensures
        match r {
            Some(v) => v == num_orders * trials(o as nat, n as nat),
            None => num_orders * trials(o as nat, n as nat) > u32::MAX,
        },
{
    if num_orders == 0 || o == 0 || n == 0 {
        proof {
            if o == 0 && n > 0 {
                lemma_zero_orientations(n as nat);
            }
            assert(num_orders * trials(o as nat, n as nat) == 0) by (nonlinear_arith)
                requires
                    num_orders == 0 || trials(o as nat, n as nat) == 0,
            ;
        }
        return Some(0);
    }
    let mut t: u64 = 0;
    let mut l: usize = 0;
    while l < n
        invariant
            l <= n,
            o >= 1,
            num_orders >= 1,
            t == trials(o as nat, l as nat),
            t <= u32::MAX,
        decreases n - l,
    {
        proof {
            lemma_trials_step(o as nat, (l + 1) as nat);
            lemma_trials_monotone(o as nat, (l + 1) as nat, n as nat);
            assert(num_orders * trials(o as nat, n as nat) >= trials(o as nat, n as nat))
                by (nonlinear_arith)
                requires
                    num_orders >= 1,
            ;
            assert(o * (1 + t) >= 1 + t) by (nonlinear_arith)
                requires
                    o >= 1,
            ;
        }
        let o64 = o as u64;
        if o > 4294967295 {
            assert(o * (1 + t) >= o) by (nonlinear_arith);
            return None;
        }
        assert(o64 * (t + 1) <= 4294967295 * 4294967296) by (nonlinear_arith)
            requires
                o64 <= 4294967295,
                t + 1 <= 4294967296,
        ;
        let next = o64 * (t + 1);
        assert(next == o * (1 + t)) by (nonlinear_arith)
            requires
                next == o64 * (t + 1),
                o64 == o,
        ;
        if next > 4294967295 {
            return None;
        }
        t = next;
        l = l + 1;
    }
    let big = (num_orders as u64).checked_mul(t);
    match big {
        Some(v) => {
            if v > 4294967295 {
                None
            } else {
                Some(v as u32)
            }
        },
        None => None,
    }
}

proof fn lemma_zero_orientations(n: nat)
    ensures
        trials(0, n) == 0,
    decreases n,
{
    if n > 0 {
        lemma_zero_orientations((n - 1) as nat);
        assert(power(0, n) == 0 * power(0, (n - 1) as nat));
    }
}

/// The number of complete stacks the search reaches, `num_orders * num_orientations ^ num_cubes`,
/// when it fits in a `usize`.
pub fn max_combinations(num_orders: usize, num_orientations: usize, num_cubes: usize) -> (r: Option<
    usize,
>)
    ensures
        match r {
            Some(v) => v == num_orders * power(num_orientations as nat, num_cubes as nat),
            None => num_orders * power(num_orientations as nat, num_cubes as nat) > usize::MAX,
        },
{
    let mut acc: usize = num_orders;
    let mut l: usize = 0;
    assert(power(num_orientations as nat, 0) == 1);
    while l < num_cubes
        invariant
            l <= num_cubes,
            acc == num_orders * power(num_orientations as nat, l as nat),
        decreases num_cubes - l,
    {
        let ghost p = power(num_orientations as nat, l as nat);
        assert(power(num_orientations as nat, (l + 1) as nat) == num_orientations * p);
        assert(num_orders * (num_orientations * p) == num_orientations * (num_orders * p))
            by (nonlinear_arith);
        match acc.checked_mul(num_orientations) {
            Some(v) => {
                acc = v;
            },
            None => {
                proof {
                    let q = power(num_orientations as nat, (l + 1) as nat);
                    assert(num_orientations >= 1) by (nonlinear_arith)
                        requires
                            acc * num_orientations > usize::MAX,
                    ;
                    lemma_power_monotone(num_orientations as nat, (l + 1) as nat, num_cubes as nat);
                    assert(num_orders * q <= num_orders * power(
                        num_orientations as nat,
                        num_cubes as nat,
                    )) by (nonlinear_arith)
                        requires
                            q <= power(num_orientations as nat, num_cubes as nat),
                    ;
                }
                return None;
            },
        }
        l = l + 1;
    }
    Some(acc)
}

/// Searches every distinct stacking order of the cubes in `cube_faces`, each cube
/// standing in each of `cube_orientations`. Returns the orientation trials made
/// and the solved complete stacks found, or `None` when the trials would not
/// fit in a `u32`.
pub fn search_all(cube_orientations: &Vec<Orientation>, cube_faces: &Vec<CubeFaces>) -> (r: Option<
    (u32, u32),
>)
    requires
        cube_faces.len() >= 1,
    ensures
        r.is_some() <==> stacking_orders(cube_faces.len() as nat).len() * trials(
            cube_orientations.len() as nat,
            cube_faces.len() as nat,
        ) <= u32::MAX,
        match r {
            Some(c) => {
                &&& c.0 == stacking_orders(cube_faces.len() as nat).len() * trials(
                    cube_orientations.len() as nat,
                    cube_faces.len() as nat,
                )
                &&& c.1 <= c.0
                &&& exists|orders: Seq<Seq<usize>>|
                    {
                        &&& orders.no_duplicates()
                        &&& orders.to_set() == stacking_orders(cube_faces.len() as nat)
                        &&& c.1 == total_wins(cube_faces@, cube_orientations@, orders)
                    }
            },
            None => true,
        },
{
    let orders = distinct_orders(cube_faces.len());
    proof {
        lemma_orders_cover(orders@.map_values(|v: Vec<usize>| v@), cube_faces.len() as nat);
    }
    match checked_total(orders.len(), cube_orientations.len(), cube_faces.len()) {
        None => None,
        Some(_) => {
            let c = count_combinations(&orders, cube_orientations, cube_faces);
            Some(c)
        },
    }
}

/// A duplicate-free list of stacking orders that holds every stacking order
/// of `n` cubes is that set, listed once.
proof fn lemma_orders_cover(all: Seq<Seq<usize>>, n: nat)
    requires
        all.no_duplicates(),
        forall|i: int| 0 <= i < all.len() ==> is_order(#[trigger] all[i], n),
        forall|p: Seq<usize>| is_order(p, n) ==> all.contains(p),
    ensures
        all.to_set() == stacking_orders(n),
        all.len() == stacking_orders(n).len(),
{
    assert(all.to_set() =~= stacking_orders(n)) by {
        assert forall|p: Seq<usize>| all.to_set().contains(p) implies is_order(p, n) by {
            let i = choose|i: int| 0 <= i < all.len() && all[i] == p;
        }
    }
    all.unique_seq_to_set();
}

/// The number of complete stacks over every distinct stacking order of
/// `num_cubes` cubes, each standing in one of `num_orientations`, when it fits
/// in a `usize`.
pub fn total_combinations(num_orientations: usize, num_cubes: usize) -> (r: Option<usize>)
    ensures
        match r {
            Some(v) => v == stacking_orders(num_cubes as nat).len() * power(
                num_orientations as nat,
                num_cubes as nat,
            ),
            None => stacking_orders(num_cubes as nat).len() * power(
                num_orientations as nat,
                num_cubes as nat,
            ) > usize::MAX,
        },
{
    let orders = distinct_orders(num_cubes);
    proof {
        lemma_orders_cover(orders@.map_values(|v: Vec<usize>| v@), num_cubes as nat);
    }
    max_combinations(orders.len(), num_orientations, num_cubes)
}

} // verus!
