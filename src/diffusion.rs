//! One explicit step of anisotropic diffusion, dL/dt = div(c grad L), on a grid.
//!
//! The step reads, for every cell, the cell itself and its four axis-aligned
//! neighbours in both the evolving image and the conductivity field; a neighbour
//! that lies outside the grid is left out, which is a zero-flux boundary. The
//! per-cell update formula and the final addition are supplied by the caller, so
//! that the traversal is independent of the sample type.

use vstd::prelude::*;

use crate::grid::{lemma_flat_index_in_bounds, lemma_flat_index_injective, flat_index, Grid};

verus! {

/// The conductivity and the luminance read at one cell.
#[derive(Clone, Copy, Debug, PartialEq)]
pub struct Sample<T> {
    pub flow: T,
    pub level: T,
}

/// A cell and its four axis-aligned neighbours; a neighbour outside the grid is `None`.
#[derive(Clone, Copy, Debug, PartialEq)]
pub struct Neighborhood<T> {
    pub center: Sample<T>,
    pub right: Option<Sample<T>>,
    pub left: Option<Sample<T>>,
    pub down: Option<Sample<T>>,
    pub up: Option<Sample<T>>,
}

/// The three same-sized buffers of one level of the evolution: the evolving
/// image, its conductivity field, and the scratch buffer of per-cell updates.
pub struct EvolutionStep<T> {
    pub lt: Grid<T>,
    pub lflow: Grid<T>,
    pub lstep: Grid<T>,
}

/// Two grids have the same width and height.
pub open spec fn same_shape<T>(a: &Grid<T>, b: &Grid<T>) -> bool {
    a.spec_width() == b.spec_width() && a.spec_height() == b.spec_height()
}

/// The buffers are well formed, of one shape, and at least two cells in each direction.
pub open spec fn step_ready<T>(lt: &Grid<T>, lflow: &Grid<T>, lstep: &Grid<T>) -> bool {
    &&& lt.wf()
    &&& lflow.wf()
    &&& lstep.wf()
    &&& same_shape(lt, lflow)
    &&& same_shape(lt, lstep)
    &&& lt.spec_width() >= 2
    &&& lt.spec_height() >= 2
}

/// What the step reads at `(x, y)`, or `None` where `(x, y)` is not a cell.
pub open spec fn sample_at<T>(lt: &Grid<T>, lflow: &Grid<T>, x: int, y: int) -> Option<Sample<T>> {
    if lt.contains(x, y) {
        Some(Sample { flow: lflow.cell(x, y), level: lt.cell(x, y) })
    } else {
        None
    }
}

/// The neighbourhood of `(x, y)`: the cell, then its neighbours to the right,
/// left, below and above.
pub open spec fn neighborhood_at<T>(lt: &Grid<T>, lflow: &Grid<T>, x: int, y: int) -> Neighborhood<T> {
    Neighborhood {
        center: Sample { flow: lflow.cell(x, y), level: lt.cell(x, y) },
        right: sample_at(lt, lflow, x + 1, y),
        left: sample_at(lt, lflow, x - 1, y),
        down: sample_at(lt, lflow, x, y + 1),
        up: sample_at(lt, lflow, x, y - 1),
    }
}

/// What one step leaves behind, given the buffers before and after it: the
/// buffers keep their shape, the conductivity field is untouched, every cell
/// of the scratch buffer holds `update` of that cell's neighbourhood before
/// the step, and every cell of the image holds `combine` of its old value and
/// that update.
pub open spec fn step_outcome<T, F: Fn(Neighborhood<T>) -> T, G: Fn(T, T) -> T>(
    before: EvolutionStep<T>,
    after: EvolutionStep<T>,
    update: F,
    combine: G,
) -> bool {
    &&& step_ready(&after.lt, &after.lflow, &after.lstep)
    &&& same_shape(&before.lt, &after.lt)
    &&& after.lflow == before.lflow
    &&& forall|x: int, y: int|
        #![trigger after.lt.cell(x, y)]
        before.lt.contains(x, y) ==> {
            &&& update.ensures(
                (neighborhood_at(&before.lt, &before.lflow, x, y),),
                after.lstep.cell(x, y),
            )
            &&& combine.ensures((before.lt.cell(x, y), after.lstep.cell(x, y)), after.lt.cell(x, y))
        }
}

/// The luminance read at an optional neighbour is `v`, where there is one.
pub open spec fn level_is<T>(s: Option<Sample<T>>, v: T) -> bool {
    match s {
        Some(sample) => sample.level == v,
        None => true,
    }
}

/// Every luminance in the neighbourhood is `v`.
pub open spec fn is_flat<T>(n: Neighborhood<T>, v: T) -> bool {
    &&& n.center.level == v
    &&& level_is(n.right, v)
    &&& level_is(n.left, v)
    &&& level_is(n.down, v)
    &&& level_is(n.up, v)
}

/// On an image whose every cell holds `v`, whatever the conductivity field,
/// one step writes the no-flux update `z` into every cell of the scratch
/// buffer and leaves every cell of the image at `v`, for any update formula
/// that gives `z` where there is no gradient and any `combine` for which `z`
/// changes nothing: the step reads no value from outside the image.
pub proof fn lemma_flat_image_unchanged<T, F: Fn(Neighborhood<T>) -> T, G: Fn(T, T) -> T>(
    before: EvolutionStep<T>,
    after: EvolutionStep<T>,
    update: F,
    combine: G,
    v: T,
    z: T,
)
    requires
        step_ready(&before.lt, &before.lflow, &before.lstep),
        step_outcome(before, after, update, combine),
        forall|x: int, y: int| #[trigger] before.lt.contains(x, y) ==> before.lt.cell(x, y) == v,
        forall|n: Neighborhood<T>, d: T| is_flat(n, v) && update.ensures((n,), d) ==> d == z,
        forall|r: T| combine.ensures((v, z), r) ==> r == v,
    ensures
        same_shape(&before.lt, &after.lt),
        forall|x: int, y: int| #[trigger] after.lt.contains(x, y) ==> after.lstep.cell(x, y) == z,
        forall|x: int, y: int| #[trigger] after.lt.contains(x, y) ==> after.lt.cell(x, y) == v,
{
    assert forall|x: int, y: int| #[trigger] after.lt.contains(x, y) implies {
        &&& after.lstep.cell(x, y) == z
        &&& after.lt.cell(x, y) == v
    } by {
        let n = neighborhood_at(&before.lt, &before.lflow, x, y);
        assert(before.lt.contains(x, y));
        assert(before.lt.contains(x + 1, y) ==> before.lt.cell(x + 1, y) == v);
        assert(before.lt.contains(x - 1, y) ==> before.lt.cell(x - 1, y) == v);
        assert(before.lt.contains(x, y + 1) ==> before.lt.cell(x, y + 1) == v);
        assert(before.lt.contains(x, y - 1) ==> before.lt.cell(x, y - 1) == v);
        assert(is_flat(n, v));
        // brings in the per-cell facts of the step at (x, y)
        let _ = after.lt.cell(x, y);
        assert(update.ensures((n,), after.lstep.cell(x, y)));
        assert(after.lstep.cell(x, y) == z);
        assert(combine.ensures((v, z), after.lt.cell(x, y)));
    }
}

/// Neighbouring cells read each other: the right (lower) neighbour that a
/// cell reads is what that neighbour reads as its own center, and that
/// neighbour reads the cell as its left (upper) neighbour. So the flux across
/// every inner edge is computed once from each of its two ends.
pub proof fn lemma_neighbours_agree<T>(lt: &Grid<T>, lflow: &Grid<T>, x: int, y: int)
    requires
        lt.contains(x, y),
    ensures
        lt.contains(x + 1, y) ==> {
            &&& neighborhood_at(lt, lflow, x, y).right == Some(neighborhood_at(lt, lflow, x + 1, y).center)
            &&& neighborhood_at(lt, lflow, x + 1, y).left == Some(neighborhood_at(lt, lflow, x, y).center)
        },
        lt.contains(x, y + 1) ==> {
            &&& neighborhood_at(lt, lflow, x, y).down == Some(neighborhood_at(lt, lflow, x, y + 1).center)
            &&& neighborhood_at(lt, lflow, x, y + 1).up == Some(neighborhood_at(lt, lflow, x, y).center)
        },
        !lt.contains(x + 1, y) <==> neighborhood_at(lt, lflow, x, y).right is None,
        !lt.contains(x - 1, y) <==> neighborhood_at(lt, lflow, x, y).left is None,
        !lt.contains(x, y + 1) <==> neighborhood_at(lt, lflow, x, y).down is None,
        !lt.contains(x, y - 1) <==> neighborhood_at(lt, lflow, x, y).up is None,
{
}

/// Reads the neighbourhood of `(x, y)` from the image and its conductivity field.
pub fn neighborhood<T: Copy>(lt: &Grid<T>, lflow: &Grid<T>, x: usize, y: usize) -> (n: Neighborhood<T>)
    requires
        lt.wf(),
        lflow.wf(),
        same_shape(lt, lflow),
        lt.contains(x as int, y as int),
    ensures
        n == neighborhood_at(lt, lflow, x as int, y as int),
{
    let w: usize = lt.width();
    let h: usize = lt.height();
    let center = Sample { flow: lflow.get(x, y), level: lt.get(x, y) };
    let right = if x + 1 < w {
        Some(Sample { flow: lflow.get(x + 1, y), level: lt.get(x + 1, y) })
    } else {
        None
    };
    let left = if x > 0 {
        Some(Sample { flow: lflow.get(x - 1, y), level: lt.get(x - 1, y) })
    } else {
        None
    };
    let down = if y + 1 < h {
        Some(Sample { flow: lflow.get(x, y + 1), level: lt.get(x, y + 1) })
    } else {
        None
    };
    let up = if y > 0 {
        Some(Sample { flow: lflow.get(x, y - 1), level: lt.get(x, y - 1) })
    } else {
        None
    };
    Neighborhood { center, right, left, down, up }
}

/// Fills the scratch buffer: every cell receives `update` applied to its
/// neighbourhood in `lt` and `lflow`. Every cell is overwritten and none of
/// its former values is read.
pub fn fill_updates<T: Copy, F: Fn(Neighborhood<T>) -> T>(
    lt: &Grid<T>,
    lflow: &Grid<T>,
    lstep: &mut Grid<T>,
    update: &F,
)
    requires
        step_ready(lt, lflow, old(lstep)),
        forall|n: Neighborhood<T>| update.requires((n,)),
    ensures
        final(lstep).wf(),
        same_shape(lt, final(lstep)),
        forall|x: int, y: int|
            #![trigger final(lstep).cell(x, y)]
            lt.contains(x, y) ==> update.ensures(
                (neighborhood_at(lt, lflow, x, y),),
                final(lstep).cell(x, y),
            ),
{
    let w: usize = lt.width();
    let h: usize = lt.height();
    let mut y: usize = 0;
    while y < h
        invariant
            lt.wf(),
            lflow.wf(),
            lstep.wf(),
            same_shape(lt, lflow),
            same_shape(lt, lstep),
            w == lt.spec_width(),
            h == lt.spec_height(),
            forall|n: Neighborhood<T>| update.requires((n,)),
            y <= h,
            forall|x1: int, y1: int|
                #![trigger lstep.cell(x1, y1)]
                0 <= x1 < w && 0 <= y1 < y ==> update.ensures(
                    (neighborhood_at(lt, lflow, x1, y1),),
                    lstep.cell(x1, y1),
                ),
        decreases h - y,
    {
        let mut x: usize = 0;
        while x < w
            invariant
                lt.wf(),
                lflow.wf(),
                lstep.wf(),
                same_shape(lt, lflow),
                same_shape(lt, lstep),
                w == lt.spec_width(),
                h == lt.spec_height(),
                forall|n: Neighborhood<T>| update.requires((n,)),
                y < h,
                x <= w,
                forall|x1: int, y1: int|
                    #![trigger lstep.cell(x1, y1)]
                    0 <= x1 < w && 0 <= y1 < h && (y1 < y || (y1 == y && x1 < x))
                        ==> update.ensures(
                        (neighborhood_at(lt, lflow, x1, y1),),
                        lstep.cell(x1, y1),
                    ),
            decreases w - x,
        {
            let n = neighborhood(lt, lflow, x, y);
            let v = update(n);
            let ghost before = *lstep;
            lstep.put(x, y, v);
            proof {
                lemma_flat_index_in_bounds(w as int, h as int, x as int, y as int);
                assert forall|x1: int, y1: int|
                    0 <= x1 < w && 0 <= y1 < h && (y1 < y || (y1 == y && x1 <= x)) implies
                    update.ensures((neighborhood_at(lt, lflow, x1, y1),), lstep.cell(x1, y1))
                by {
                    lemma_flat_index_in_bounds(w as int, h as int, x1, y1);
                    if x1 != x || y1 != y {
                        if flat_index(w as int, x1, y1) == flat_index(w as int, x as int, y as int) {
                            lemma_flat_index_injective(w as int, x1, y1, x as int, y as int);
                        }
                        assert(lstep.cell(x1, y1) == before.cell(x1, y1));
                    }
                }
            }
            x = x + 1;
        }
        y = y + 1;
    }
}

/// Adds the scratch buffer into the image, cell by cell: every cell of the
/// image becomes `combine(old value, update)`.
pub fn apply_updates<T: Copy, G: Fn(T, T) -> T>(lt: &mut Grid<T>, lstep: &Grid<T>, combine: &G)
    requires
        old(lt).wf(),
        lstep.wf(),
        same_shape(old(lt), lstep),
        forall|a: T, b: T| combine.requires((a, b)),
    ensures
        final(lt).wf(),
        same_shape(old(lt), final(lt)),
        forall|x: int, y: int|
            #![trigger final(lt).cell(x, y)]
            old(lt).contains(x, y) ==> combine.ensures(
                (old(lt).cell(x, y), lstep.cell(x, y)),
                final(lt).cell(x, y),
            ),
{
    let w: usize = lt.width();
    let h: usize = lt.height();
    let ghost start = *lt;
    let mut y: usize = 0;
    while y < h
        invariant
            lt.wf(),
            lstep.wf(),
            start.wf(),
            same_shape(lt, lstep),
            same_shape(lt, &start),
            w == lt.spec_width(),
            h == lt.spec_height(),
            forall|a: T, b: T| combine.requires((a, b)),
            y <= h,
            forall|x1: int, y1: int|
                #![trigger lt.cell(x1, y1)]
                0 <= x1 < w && 0 <= y1 < h ==> if y1 < y {
                    combine.ensures((start.cell(x1, y1), lstep.cell(x1, y1)), lt.cell(x1, y1))
                } else {
                    lt.cell(x1, y1) == start.cell(x1, y1)
                },
        decreases h - y,
    {
        let mut x: usize = 0;
        while x < w
            invariant
                lt.wf(),
                lstep.wf(),
                start.wf(),
                same_shape(lt, lstep),
                same_shape(lt, &start),
                w == lt.spec_width(),
                h == lt.spec_height(),
                forall|a: T, b: T| combine.requires((a, b)),
                y < h,
                x <= w,
                forall|x1: int, y1: int|
                    #![trigger lt.cell(x1, y1)]
                    0 <= x1 < w && 0 <= y1 < h ==> if y1 < y || (y1 == y && x1 < x) {
                        combine.ensures((start.cell(x1, y1), lstep.cell(x1, y1)), lt.cell(x1, y1))
                    } else {
                        lt.cell(x1, y1) == start.cell(x1, y1)
                    },
            decreases w - x,
        {
            let a = lt.get(x, y);
            let b = lstep.get(x, y);
            let v = combine(a, b);
            let ghost before = *lt;
            lt.put(x, y, v);
            proof {
                lemma_flat_index_in_bounds(w as int, h as int, x as int, y as int);
                assert forall|x1: int, y1: int|
                    0 <= x1 < w && 0 <= y1 < h implies if y1 < y || (y1 == y && x1 <= x) {
                        combine.ensures((start.cell(x1, y1), lstep.cell(x1, y1)), lt.cell(x1, y1))
                    } else {
                        lt.cell(x1, y1) == start.cell(x1, y1)
                    }
                by {
                    lemma_flat_index_in_bounds(w as int, h as int, x1, y1);
                    if x1 != x || y1 != y {
                        if flat_index(w as int, x1, y1) == flat_index(w as int, x as int, y as int) {
                            lemma_flat_index_injective(w as int, x1, y1, x as int, y as int);
                        }
                        assert(lt.cell(x1, y1) == before.cell(x1, y1));
                    }
                }
            }
            x = x + 1;
        }
        y = y + 1;
    }
}

/// One explicit diffusion step: fills `lstep` with `update` of every cell's
/// neighbourhood in `lt` and `lflow`, then adds `lstep` into `lt`. All updates
/// are computed from the image as it was before the step.
pub fn calculate_step<T: Copy, F: Fn(Neighborhood<T>) -> T, G: Fn(T, T) -> T>(
    evolution_step: &mut EvolutionStep<T>,
    update: &F,
    combine: &G,
)
    requires
        step_ready(&old(evolution_step).lt, &old(evolution_step).lflow, &old(evolution_step).lstep),
        forall|n: Neighborhood<T>| update.requires((n,)),
        forall|a: T, b: T| combine.requires((a, b)),
    ensures
        step_outcome(*old(evolution_step), *final(evolution_step), *update, *combine),
{
    fill_updates(&evolution_step.lt, &evolution_step.lflow, &mut evolution_step.lstep, update);
    apply_updates(&mut evolution_step.lt, &evolution_step.lstep, combine);
}

} // verus!
