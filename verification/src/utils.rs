//! Distances between cells, and a clamp.

use vstd::prelude::*;
use vstd::std_specs::cmp::{PartialOrdIs, PartialOrdSpec};
use crate::ai::flood::adjacent;
use crate::game_state::Position;

verus! {

/// The distance between two coordinates.
pub open spec fn gap(a: usize, b: usize) -> int {
    if a <= b {
        b - a
    } else {
        a - b
    }
}

/// The Manhattan distance: the sum of the distances in columns and in rows.
pub open spec fn manhattan(a: Position, b: Position) -> int {
    gap(a.x, b.x) + gap(a.y, b.y)
}

/// The Chebyshev distance: the greater of the distances in columns and in
/// rows.
pub open spec fn chebyshev(a: Position, b: Position) -> int {
    if gap(a.x, b.x) >= gap(a.y, b.y) {
        gap(a.x, b.x)
    } else {
        gap(a.y, b.y)
    }
}

/// Two cells share an edge exactly when their Manhattan distance is one.
pub proof fn lemma_adjacent_is_one_step(a: Position, b: Position)
    ensures
        adjacent(a, b) <==> manhattan(a, b) == 1,
{
}

fn span(a: usize, b: usize) -> (d: usize)
    ensures
        d == gap(a, b),
{
    if a <= b {
        b - a
    } else {
        a - b
    }
}

/// The Manhattan distance between two cells. The distance must fit a `usize`.
pub fn manhattan_distance(a: Position, b: Position) -> (d: usize)
    requires
        manhattan(a, b) <= usize::MAX,
    ensures
        d == manhattan(a, b),
{
    span(a.x, b.x) + span(a.y, b.y)
}

/// The Chebyshev distance between two cells.
pub fn chebyshev_distance(a: Position, b: Position) -> (d: usize)
    ensures
        d == chebyshev(a, b),
{
    let dx = span(a.x, b.x);
    let dy = span(a.y, b.y);
    if dx >= dy {
        dx
    } else {
        dy
    }
}

/// Whether two cells share an edge.
pub fn are_adjacent_4(a: Position, b: Position) -> (yes: bool)
    ensures
        yes == (manhattan(a, b) == 1),
{
    let dx = span(a.x, b.x);
    let dy = span(a.y, b.y);
    (dx == 1 && dy == 0) || (dx == 0 && dy == 1)
}

/// Whether two cells share an edge or a corner.
pub fn are_adjacent_8(a: Position, b: Position) -> (yes: bool)
    ensures
        yes == (chebyshev(a, b) == 1),
{
    chebyshev_distance(a, b) == 1
}

/// `val` held between `min` and `max`: `min` where `val` is below it, `max`
/// where `val` is above it, else `val` itself. Stated for types whose
/// comparisons follow their specification.
pub fn clamp<T: PartialOrd>(val: T, min: T, max: T) -> (held: T)
    ensures
        T::obeys_partial_cmp_spec() ==> held == if val.is_lt(&min) {
            min
        } else if val.is_gt(&max) {
            max
        } else {
            val
        },
{
    if val < min {
        min
    } else if val > max {
        max
    } else {
        val
    }
}

} // verus!
