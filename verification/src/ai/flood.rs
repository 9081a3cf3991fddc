//! Flood fill over the empty cells of the board: what it reaches, stated as
//! paths, and the breadth-first traversal that computes it.

use vstd::prelude::*;
use crate::game_state::{CellState, Grid, GridView, Position};

verus! {

/// Whether two cells share an edge.
pub open spec fn adjacent(a: Position, b: Position) -> bool {
    ||| a.x == b.x && (a.y + 1 == b.y || b.y + 1 == a.y)
    ||| a.y == b.y && (a.x + 1 == b.x || b.x + 1 == a.x)
}

/// Whether `p` is one of the seeds and lies on the board.
pub open spec fn is_seed(grid: GridView, seeds: Seq<Position>, p: Position) -> bool {
    grid.valid(p) && seeds.contains(p)
}

/// Whether `path` starts at a seed and then walks from cell to adjacent cell
/// over empty cells of the board only.
pub open spec fn fill_path(grid: GridView, seeds: Seq<Position>, path: Seq<Position>) -> bool {
    &&& path.len() >= 1
    &&& is_seed(grid, seeds, path[0])
    &&& forall|i: int|
        1 <= i < path.len() ==> grid.valid(#[trigger] path[i]) && grid.cell(path[i])
            == CellState::Empty && adjacent(path[i - 1], path[i])
}

/// Whether a walk from some seed over empty cells ends at `p`.
pub open spec fn reachable(grid: GridView, seeds: Seq<Position>, p: Position) -> bool {
    exists|path: Seq<Position>| fill_path(grid, seeds, path) && path.last() == p
}

/// Whether the flood fill counts `p`: an empty cell of the board that is not
/// itself a seed and that a walk from some seed over empty cells reaches.
pub open spec fn counted(grid: GridView, seeds: Seq<Position>, p: Position) -> bool {
    &&& grid.valid(p)
    &&& grid.cell(p) == CellState::Empty
    &&& !seeds.contains(p)
    &&& reachable(grid, seeds, p)
}

/// The cells that the flood fill counts.
pub open spec fn reach_set(grid: GridView, seeds: Seq<Position>) -> Set<Position> {
    Set::new(|p: Position| counted(grid, seeds, p))
}

/// How many cells the flood fill counts.
pub open spec fn reach_count(grid: GridView, seeds: Seq<Position>) -> nat {
    reach_set(grid, seeds).len()
}

/// The state of a traversal: the cells waiting to be expanded, oldest first,
/// the cells seen so far as a matrix of marks, and the empty cells counted.
pub struct FillState {
    pub queue: Seq<Position>,
    pub visited: Seq<Seq<bool>>,
    pub count: nat,
}

/// The marks with the cell in column `x` of row `y` set.
pub open spec fn mark(rows: Seq<Seq<bool>>, x: int, y: int) -> Seq<Seq<bool>> {
    rows.update(y, rows[y].update(x, true))
}

/// Whether the cell `p` is marked.
pub open spec fn seen(rows: Seq<Seq<bool>>, p: Position) -> bool {
    rows[p.y as int][p.x as int]
}

/// The state before any seed: nothing waits, nothing is marked.
pub open spec fn fresh(grid: GridView) -> FillState {
    FillState {
        queue: Seq::empty(),
        visited: Seq::new(
            grid.height as nat,
            |y: int| Seq::new(grid.width as nat, |x: int| false),
        ),
        count: 0,
    }
}

/// Takes one seed in: a seed on the board is marked and joins the queue, even
/// where it was marked before; one off the board is passed over.
pub open spec fn seed_one(grid: GridView, s: FillState, p: Position) -> FillState {
    if grid.valid(p) {
        FillState {
            queue: s.queue.push(p),
            visited: mark(s.visited, p.x as int, p.y as int),
            count: s.count,
        }
    } else {
        s
    }
}

/// The state once the seeds have been taken in, in order.
pub open spec fn seeded(grid: GridView, starts: Seq<Position>) -> FillState
    decreases starts.len(),
{
    if starts.len() == 0 {
        fresh(grid)
    } else {
        seed_one(grid, seeded(grid, starts.drop_last()), starts.last())
    }
}

/// Looks at the cell in column `nx` of row `ny`: an empty cell of the board
/// that is not marked yet is marked, counted, and joins the queue. Any other
/// cell, and any place off the board, leaves the state as it is.
pub open spec fn visit(grid: GridView, s: FillState, nx: int, ny: int) -> FillState {
    if 0 <= nx < grid.width && 0 <= ny < grid.height && !s.visited[ny][nx] && grid.rows[ny][nx]
        == CellState::Empty {
        FillState {
            queue: s.queue.push(Position { x: nx as usize, y: ny as usize }),
            visited: mark(s.visited, nx, ny),
            count: s.count + 1,
        }
    } else {
        s
    }
}

/// Expands the oldest waiting cell: looks at its neighbours to the right,
/// to the left, below and above, in that order, and takes it off the queue.
pub open spec fn expand(grid: GridView, s: FillState) -> FillState {
    let p = s.queue[0];
    let s1 = visit(grid, s, p.x + 1, p.y as int);
    let s2 = visit(grid, s1, p.x - 1, p.y as int);
    let s3 = visit(grid, s2, p.x as int, p.y + 1);
    let s4 = visit(grid, s3, p.x as int, p.y - 1);
    FillState { queue: s4.queue.drop_first(), visited: s4.visited, count: s4.count }
}

/// The state after at most `fuel` expansions, fewer where the queue runs dry.
pub open spec fn run(grid: GridView, s: FillState, fuel: nat) -> FillState
    decreases fuel,
{
    if fuel == 0 || s.queue.len() == 0 {
        s
    } else {
        run(grid, expand(grid, s), (fuel - 1) as nat)
    }
}

/// How many cells of a row are not marked.
pub open spec fn unseen_in_row(row: Seq<bool>) -> nat
    decreases row.len(),
{
    if row.len() == 0 {
        0
    } else {
        unseen_in_row(row.drop_last()) + if row.last() {
            0nat
        } else {
            1nat
        }
    }
}

/// How many cells are not marked.
pub open spec fn unseen(rows: Seq<Seq<bool>>) -> nat
    decreases rows.len(),
{
    if rows.len() == 0 {
        0
    } else {
        unseen(rows.drop_last()) + unseen_in_row(rows.last())
    }
}

/// An upper bound on the expansions still to come: the cells waiting plus the
/// cells not marked.
pub open spec fn pending(s: FillState) -> nat {
    unseen(s.visited) + s.queue.len()
}

/// Whether every empty cell of the board next to `p` is marked.
pub open spec fn expanded(grid: GridView, rows: Seq<Seq<bool>>, p: Position) -> bool {
    forall|n: Position|
        grid.valid(n) && grid.cell(n) == CellState::Empty && #[trigger] adjacent(p, n) ==> seen(
            rows,
            n,
        )
}

/// The marked cells of the board that are no seeds.
pub open spec fn found(grid: GridView, seeds: Seq<Position>, rows: Seq<Seq<bool>>) -> Set<
    Position,
> {
    Set::new(|p: Position| grid.valid(p) && seen(rows, p) && !seeds.contains(p))
}

/// Whether the marks have the size of the board.
pub open spec fn sized(grid: GridView, rows: Seq<Seq<bool>>) -> bool {
    &&& rows.len() == grid.height
    &&& forall|y: int| 0 <= y < grid.height ==> (#[trigger] rows[y]).len() == grid.width
}

/// What holds of every state of a traversal once the seeds are in: each
/// waiting cell is marked; each marked cell is a seed or a counted cell; the
/// count is the number of marked cells that are no seeds; and a marked cell
/// that no longer waits has all its empty neighbours marked.
pub open spec fn fill_inv(grid: GridView, seeds: Seq<Position>, s: FillState) -> bool {
    &&& sized(grid, s.visited)
    &&& forall|i: int|
        0 <= i < s.queue.len() ==> grid.valid(#[trigger] s.queue[i]) && seen(
            s.visited,
            s.queue[i],
        )
    &&& forall|p: Position|
        grid.valid(p) && #[trigger] seen(s.visited, p) ==> is_seed(grid, seeds, p) || counted(
            grid,
            seeds,
            p,
        )
    &&& forall|p: Position| #[trigger] is_seed(grid, seeds, p) ==> seen(s.visited, p)
    &&& found(grid, seeds, s.visited).finite()
    &&& found(grid, seeds, s.visited).len() == s.count
    &&& forall|p: Position|
        grid.valid(p) && #[trigger] seen(s.visited, p) && !s.queue.contains(p) ==> expanded(
            grid,
            s.visited,
            p,
        )
}

proof fn lemma_mark_row(row: Seq<bool>, x: int)
    requires
        0 <= x < row.len(),
        !row[x],
    ensures
        unseen_in_row(row.update(x, true)) + 1 == unseen_in_row(row),
    decreases row.len(),
{
    let after = row.update(x, true);
    if x == row.len() - 1 {
        assert(after.drop_last() =~= row.drop_last());
    } else {
        lemma_mark_row(row.drop_last(), x);
        assert(after.drop_last() =~= row.drop_last().update(x, true));
    }
}

proof fn lemma_mark(rows: Seq<Seq<bool>>, x: int, y: int)
    requires
        0 <= y < rows.len(),
        0 <= x < rows[y].len(),
        !rows[y][x],
    ensures
        unseen(mark(rows, x, y)) + 1 == unseen(rows),
    decreases rows.len(),
{
    let after = mark(rows, x, y);
    if y == rows.len() - 1 {
        assert(after.drop_last() =~= rows.drop_last());
        lemma_mark_row(rows[y], x);
    } else {
        lemma_mark(rows.drop_last(), x, y);
        assert(after.drop_last() =~= mark(rows.drop_last(), x, y));
    }
}

proof fn lemma_unseen_in_row_bound(row: Seq<bool>)
    ensures
        unseen_in_row(row) <= row.len(),
    decreases row.len(),
{
    if row.len() > 0 {
        lemma_unseen_in_row_bound(row.drop_last());
    }
}

proof fn lemma_unseen_bound(rows: Seq<Seq<bool>>, width: nat)
    requires
        forall|y: int| 0 <= y < rows.len() ==> (#[trigger] rows[y]).len() == width,
    ensures
        unseen(rows) <= rows.len() * width,
    decreases rows.len(),
{
    if rows.len() > 0 {
        let head = rows.drop_last();
        assert forall|y: int| 0 <= y < head.len() implies (#[trigger] head[y]).len() == width by {
            assert(head[y] == rows[y]);
        }
        lemma_unseen_bound(head, width);
        lemma_unseen_in_row_bound(rows.last());
        assert(head.len() * width + width == rows.len() * width) by (nonlinear_arith)
            requires
                head.len() + 1 == rows.len(),
        ;
    }
}

proof fn lemma_seed_reachable(grid: GridView, seeds: Seq<Position>, p: Position)
    requires
        is_seed(grid, seeds, p),
    ensures
        reachable(grid, seeds, p),
{
    let path = seq![p];
    assert(fill_path(grid, seeds, path) && path.last() == p);
}

proof fn lemma_step_reachable(grid: GridView, seeds: Seq<Position>, p: Position, n: Position)
    requires
        reachable(grid, seeds, p),
        grid.valid(n),
        grid.cell(n) == CellState::Empty,
        adjacent(p, n),
    ensures
        reachable(grid, seeds, n),
{
    let path = choose|path: Seq<Position>| fill_path(grid, seeds, path) && path.last() == p;
    let longer = path.push(n);
    assert forall|i: int| 1 <= i < longer.len() implies grid.valid(#[trigger] longer[i])
        && grid.cell(longer[i]) == CellState::Empty && adjacent(longer[i - 1], longer[i]) by {
        if i < path.len() {
            assert(longer[i] == path[i]);
            assert(longer[i - 1] == path[i - 1]);
        }
    }
    assert(longer[0] == path[0]);
    assert(fill_path(grid, seeds, longer) && longer.last() == n);
}

/// What one look at a cell next to the oldest waiting cell keeps and brings.
proof fn lemma_visit(grid: GridView, seeds: Seq<Position>, s: FillState, nx: int, ny: int)
    requires
        fill_inv(grid, seeds, s),
        s.queue.len() > 0,
        ({
            let p = s.queue[0];
            ||| nx == p.x && (ny == p.y + 1 || ny == p.y - 1)
            ||| ny == p.y && (nx == p.x + 1 || nx == p.x - 1)
        }),
    ensures
        ({
            let t = visit(grid, s, nx, ny);
            &&& fill_inv(grid, seeds, t)
            &&& t.queue.len() > 0
            &&& t.queue[0] == s.queue[0]
            &&& pending(t) == pending(s)
            &&& forall|p: Position| grid.valid(p) && seen(s.visited, p) ==> seen(t.visited, p)
            &&& forall|n: Position|
                grid.valid(n) && grid.cell(n) == CellState::Empty && n.x == nx && n.y == ny
                    ==> seen(t.visited, n)
        }),
{
    let t = visit(grid, s, nx, ny);
    let p0 = s.queue[0];
    if 0 <= nx < grid.width && 0 <= ny < grid.height && !s.visited[ny][nx] && grid.rows[ny][nx]
        == CellState::Empty {
        let n = Position { x: nx as usize, y: ny as usize };
        assert(grid.valid(n) && !seen(s.visited, n) && grid.cell(n) == CellState::Empty);
        assert(adjacent(p0, n));
        assert(forall|p: Position|
            grid.valid(p) ==> seen(t.visited, p) == (p == n || seen(s.visited, p)));
        lemma_mark(s.visited, nx, ny);
        assert(grid.valid(p0) && seen(s.visited, p0));
        if is_seed(grid, seeds, p0) {
            lemma_seed_reachable(grid, seeds, p0);
        }
        lemma_step_reachable(grid, seeds, p0, n);
        assert(!is_seed(grid, seeds, n));
        assert(counted(grid, seeds, n));
        assert(found(grid, seeds, t.visited) =~= found(grid, seeds, s.visited).insert(n));
        assert(!found(grid, seeds, s.visited).contains(n));
        assert forall|i: int| 0 <= i < t.queue.len() implies grid.valid(#[trigger] t.queue[i])
            && seen(t.visited, t.queue[i]) by {
            if i < s.queue.len() {
                assert(t.queue[i] == s.queue[i]);
            }
        }
        assert(t.queue[(t.queue.len() - 1) as int] == n);
        assert forall|p: Position|
            grid.valid(p) && #[trigger] seen(t.visited, p) && !t.queue.contains(p) implies expanded(
            grid,
            t.visited,
            p,
        ) by {
            assert(p != n);
            if s.queue.contains(p) {
                let i = choose|i: int| 0 <= i < s.queue.len() && s.queue[i] == p;
                assert(t.queue[i] == p);
            }
            assert(expanded(grid, s.visited, p));
        }
    }
}

/// An expansion keeps what holds of every state, and makes the bound on the
/// expansions to come smaller by one.
pub proof fn lemma_expand(grid: GridView, seeds: Seq<Position>, s: FillState)
    requires
        fill_inv(grid, seeds, s),
        s.queue.len() > 0,
    ensures
        fill_inv(grid, seeds, expand(grid, s)),
        pending(expand(grid, s)) + 1 == pending(s),
        expand(grid, s).count >= s.count,
{
    let p = s.queue[0];
    let s1 = visit(grid, s, p.x + 1, p.y as int);
    lemma_visit(grid, seeds, s, p.x + 1, p.y as int);
    let s2 = visit(grid, s1, p.x - 1, p.y as int);
    lemma_visit(grid, seeds, s1, p.x - 1, p.y as int);
    let s3 = visit(grid, s2, p.x as int, p.y + 1);
    lemma_visit(grid, seeds, s2, p.x as int, p.y + 1);
    let s4 = visit(grid, s3, p.x as int, p.y - 1);
    lemma_visit(grid, seeds, s3, p.x as int, p.y - 1);
    let t = expand(grid, s);
    assert(grid.valid(p));
    assert forall|n: Position|
        grid.valid(n) && grid.cell(n) == CellState::Empty && #[trigger] adjacent(p, n) implies seen(
        s4.visited,
        n,
    ) by {
        if n.x == p.x + 1 {
            assert(seen(s1.visited, n));
        } else if n.x == p.x - 1 {
            assert(seen(s2.visited, n));
        } else if n.y == p.y + 1 {
            assert(seen(s3.visited, n));
        } else {
            assert(seen(s4.visited, n));
        }
    }
    assert(expanded(grid, s4.visited, p));
    assert forall|i: int| 0 <= i < t.queue.len() implies grid.valid(#[trigger] t.queue[i]) && seen(
        t.visited,
        t.queue[i],
    ) by {
        assert(t.queue[i] == s4.queue[i + 1]);
    }
    assert forall|q: Position|
        grid.valid(q) && #[trigger] seen(t.visited, q) && !t.queue.contains(q) implies expanded(
        grid,
        t.visited,
        q,
    ) by {
        if s4.queue.contains(q) {
            let i = choose|i: int| 0 <= i < s4.queue.len() && s4.queue[i] == q;
            if i > 0 {
                assert(t.queue[i - 1] == q);
            }
        }
    }
}

/// Once the queue has run dry, the count is the number of cells that the
/// flood fill counts.
pub proof fn lemma_fill_complete(grid: GridView, seeds: Seq<Position>, s: FillState)
    requires
        fill_inv(grid, seeds, s),
        s.queue.len() == 0,
    ensures
        s.count == reach_count(grid, seeds),
{
    assert forall|p: Position| counted(grid, seeds, p) implies seen(s.visited, p) by {
        let path = choose|path: Seq<Position>| fill_path(grid, seeds, path) && path.last() == p;
        lemma_path_seen(grid, seeds, s, path, path.len() - 1);
    }
    assert(found(grid, seeds, s.visited) =~= reach_set(grid, seeds));
}

proof fn lemma_path_seen(
    grid: GridView,
    seeds: Seq<Position>,
    s: FillState,
    path: Seq<Position>,
    i: int,
)
    requires
        fill_inv(grid, seeds, s),
        s.queue.len() == 0,
        fill_path(grid, seeds, path),
        0 <= i < path.len(),
    ensures
        grid.valid(path[i]),
        seen(s.visited, path[i]),
    decreases i,
{
    if i > 0 {
        lemma_path_seen(grid, seeds, s, path, i - 1);
        let p = path[i - 1];
        assert(!s.queue.contains(p));
        assert(expanded(grid, s.visited, p));
        assert(adjacent(p, path[i]));
    } else {
        assert(is_seed(grid, seeds, path[0]));
    }
}

/// What holds while the seeds are taken in: exactly the seeds on the board
/// are marked, all of them wait, and nothing is counted yet.
spec fn seed_inv(grid: GridView, starts: Seq<Position>, s: FillState) -> bool {
    &&& sized(grid, s.visited)
    &&& s.count == 0
    &&& s.queue.len() <= starts.len()
    &&& forall|i: int| 0 <= i < s.queue.len() ==> is_seed(grid, starts, #[trigger] s.queue[i])
    &&& forall|p: Position| #[trigger] is_seed(grid, starts, p) ==> s.queue.contains(p)
    &&& forall|p: Position|
        grid.valid(p) ==> (#[trigger] seen(s.visited, p) <==> starts.contains(p))
}

proof fn lemma_seeded(grid: GridView, starts: Seq<Position>)
    ensures
        seed_inv(grid, starts, seeded(grid, starts)),
    decreases starts.len(),
{
    let s = seeded(grid, starts);
    if starts.len() == 0 {
        assert(sized(grid, s.visited));
    } else {
        let head = starts.drop_last();
        let last = starts.last();
        let before = seeded(grid, head);
        lemma_seeded(grid, head);
        assert forall|p: Position| starts.contains(p) <==> (head.contains(p) || p == last) by {
            if head.contains(p) {
                let i = choose|i: int| 0 <= i < head.len() && head[i] == p;
                assert(starts[i] == p);
            }
            if starts.contains(p) {
                let i = choose|i: int| 0 <= i < starts.len() && starts[i] == p;
                if i < head.len() {
                    assert(head[i] == p);
                }
            }
            assert(starts[starts.len() - 1] == last);
        }
        if grid.valid(last) {
            assert(s.queue == before.queue.push(last));
            assert(s.visited == mark(before.visited, last.x as int, last.y as int));
            assert(sized(grid, s.visited));
            assert forall|i: int| 0 <= i < s.queue.len() implies is_seed(
                grid,
                starts,
                #[trigger] s.queue[i],
            ) by {
                if i < before.queue.len() {
                    assert(s.queue[i] == before.queue[i]);
                    assert(is_seed(grid, head, before.queue[i]));
                }
            }
            assert forall|p: Position| #[trigger] is_seed(grid, starts, p) implies s.queue.contains(
                p,
            ) by {
                if is_seed(grid, head, p) {
                    let i = choose|i: int| 0 <= i < before.queue.len() && before.queue[i] == p;
                    assert(s.queue[i] == p);
                } else {
                    assert(s.queue[s.queue.len() - 1] == p);
                }
            }
            assert forall|p: Position| grid.valid(p) implies (#[trigger] seen(s.visited, p)
                <==> starts.contains(p)) by {
                assert(seen(s.visited, p) == (p == last || seen(before.visited, p)));
            }
        } else {
            assert(s == before);
            assert forall|i: int| 0 <= i < s.queue.len() implies is_seed(
                grid,
                starts,
                #[trigger] s.queue[i],
            ) by {
                assert(is_seed(grid, head, before.queue[i]));
            }
            assert forall|p: Position| #[trigger] is_seed(grid, starts, p) implies s.queue.contains(
                p,
            ) by {
                assert(is_seed(grid, head, p));
            }
            assert forall|p: Position| grid.valid(p) implies (#[trigger] seen(s.visited, p)
                <==> starts.contains(p)) by {
                assert(seen(before.visited, p) <==> head.contains(p));
            }
        }
    }
}

proof fn lemma_seeded_inv(grid: GridView, starts: Seq<Position>)
    ensures
        fill_inv(grid, starts, seeded(grid, starts)),
        pending(seeded(grid, starts)) <= starts.len() + grid.width * grid.height,
{
    let s = seeded(grid, starts);
    lemma_seeded(grid, starts);
    assert(found(grid, starts, s.visited) =~= Set::<Position>::empty());
    assert forall|i: int| 0 <= i < s.queue.len() implies grid.valid(#[trigger] s.queue[i]) && seen(
        s.visited,
        s.queue[i],
    ) by {
        assert(is_seed(grid, starts, s.queue[i]));
    }
    assert forall|p: Position|
        grid.valid(p) && #[trigger] seen(s.visited, p) && !s.queue.contains(p) implies expanded(
        grid,
        s.visited,
        p,
    ) by {
        assert(is_seed(grid, starts, p));
    }
    lemma_unseen_bound(s.visited, grid.width as nat);
    assert(s.visited.len() * grid.width == grid.width * grid.height) by (nonlinear_arith)
        requires
            s.visited.len() == grid.height,
    ;
}

proof fn lemma_run(grid: GridView, seeds: Seq<Position>, s: FillState, fuel: nat)
    requires
        fill_inv(grid, seeds, s),
    ensures
        fill_inv(grid, seeds, run(grid, s, fuel)),
        run(grid, s, fuel).count >= s.count,
        fuel >= pending(s) ==> run(grid, s, fuel).queue.len() == 0,
    decreases fuel,
{
    if fuel > 0 && s.queue.len() > 0 {
        lemma_expand(grid, seeds, s);
        lemma_run(grid, seeds, expand(grid, s), (fuel - 1) as nat);
    }
}

/// With as much fuel as there are seeds and cells, the traversal runs to its
/// end, and its count is the number of cells that the flood fill counts.
pub proof fn lemma_enough_fuel(grid: GridView, starts: Seq<Position>, fuel: nat)
    requires
        fuel >= starts.len() + grid.width * grid.height,
    ensures
        run(grid, seeded(grid, starts), fuel).count == reach_count(grid, starts),
{
    lemma_seeded_inv(grid, starts);
    lemma_run(grid, starts, seeded(grid, starts), fuel);
    lemma_fill_complete(grid, starts, run(grid, seeded(grid, starts), fuel));
}

proof fn lemma_seeded_distinct(grid: GridView, starts: Seq<Position>)
    requires
        starts.no_duplicates(),
    ensures
        pending(seeded(grid, starts)) == unseen(fresh(grid).visited),
    decreases starts.len(),
{
    if starts.len() > 0 {
        let head = starts.drop_last();
        let last = starts.last();
        let before = seeded(grid, head);
        assert(head.no_duplicates()) by {
            assert forall|i: int, j: int|
                0 <= i < head.len() && 0 <= j < head.len() && i != j implies head[i] != head[j] by {
                assert(head[i] == starts[i] && head[j] == starts[j]);
            }
        }
        lemma_seeded_distinct(grid, head);
        lemma_seeded(grid, head);
        if grid.valid(last) {
            if head.contains(last) {
                let i = choose|i: int| 0 <= i < head.len() && head[i] == last;
                assert(starts[i] == last && starts[starts.len() - 1] == last);
            }
            assert(!seen(before.visited, last));
            lemma_mark(before.visited, last.x as int, last.y as int);
        }
    }
}

/// With seeds that are all different, as much fuel as the board has cells
/// takes the traversal to its end.
pub proof fn lemma_enough_fuel_distinct(grid: GridView, starts: Seq<Position>, fuel: nat)
    requires
        starts.no_duplicates(),
        fuel >= grid.width * grid.height,
    ensures
        run(grid, seeded(grid, starts), fuel).count == reach_count(grid, starts),
{
    lemma_seeded_inv(grid, starts);
    lemma_seeded_distinct(grid, starts);
    let blank = fresh(grid).visited;
    lemma_unseen_bound(blank, grid.width as nat);
    assert(blank.len() * grid.width == grid.width * grid.height) by (nonlinear_arith)
        requires
            blank.len() == grid.height,
    ;
    lemma_run(grid, starts, seeded(grid, starts), fuel);
    lemma_fill_complete(grid, starts, run(grid, seeded(grid, starts), fuel));
}

/// More fuel never lowers the count, and no amount of it takes the count
/// past the number of cells that the flood fill counts.
pub proof fn lemma_fuel_monotone(grid: GridView, starts: Seq<Position>, less: nat, more: nat)
    requires
        less <= more,
    ensures
        run(grid, seeded(grid, starts), less).count <= run(grid, seeded(grid, starts), more).count,
        run(grid, seeded(grid, starts), more).count <= reach_count(grid, starts),
{
    lemma_seeded_inv(grid, starts);
    let s = seeded(grid, starts);
    lemma_run_split(grid, s, less, (more - less) as nat);
    lemma_run(grid, starts, s, less);
    lemma_run(grid, starts, run(grid, s, less), (more - less) as nat);
    let full = (starts.len() + grid.width * grid.height) as nat;
    lemma_run_split(grid, s, more, full);
    lemma_run(grid, starts, s, more);
    lemma_run(grid, starts, run(grid, s, more), full);
    lemma_enough_fuel(grid, starts, more + full);
}

proof fn lemma_run_split(grid: GridView, s: FillState, first: nat, second: nat)
    ensures
        run(grid, s, first + second) == run(grid, run(grid, s, first), second),
    decreases first,
{
    if s.queue.len() == 0 {
        assert(run(grid, s, first) == s);
        assert(run(grid, s, first + second) == s);
        assert(run(grid, s, second) == s);
    } else if first > 0 {
        lemma_run_split(grid, expand(grid, s), (first - 1) as nat, second);
    }
}

/// The cells that the flood fill counts are finitely many.
pub proof fn lemma_reach_set_finite(grid: GridView, seeds: Seq<Position>)
    ensures
        reach_set(grid, seeds).finite(),
{
    let fuel = (seeds.len() + grid.width * grid.height) as nat;
    let s = run(grid, seeded(grid, seeds), fuel);
    lemma_seeded_inv(grid, seeds);
    lemma_run(grid, seeds, seeded(grid, seeds), fuel);
    lemma_fill_complete(grid, seeds, s);
    assert forall|p: Position| counted(grid, seeds, p) implies seen(s.visited, p) by {
        let path = choose|path: Seq<Position>| fill_path(grid, seeds, path) && path.last() == p;
        lemma_path_seen(grid, seeds, s, path, path.len() - 1);
    }
    assert(found(grid, seeds, s.visited) =~= reach_set(grid, seeds));
}

/// Whether `p` is an empty cell of the board that the fill claims: a seed
/// itself, or a cell that it counts.
pub open spec fn claimed(grid: GridView, seeds: Seq<Position>, p: Position) -> bool {
    &&& grid.valid(p)
    &&& grid.cell(p) == CellState::Empty
    &&& seeds.contains(p) || counted(grid, seeds, p)
}

/// The empty cells that the fill claims.
pub open spec fn claim_set(grid: GridView, seeds: Seq<Position>) -> Set<Position> {
    Set::new(|p: Position| claimed(grid, seeds, p))
}

/// On one board, a larger set of seeds claims every empty cell that a
/// smaller one claims: what it no longer counts, it holds as a seed.
pub proof fn lemma_more_seeds_claim_more(grid: GridView, small: Seq<Position>, large: Seq<Position>)
    requires
        forall|p: Position| small.contains(p) ==> large.contains(p),
    ensures
        claim_set(grid, small).subset_of(claim_set(grid, large)),
        claim_set(grid, large).finite(),
        claim_set(grid, small).len() <= claim_set(grid, large).len(),
{
    assert forall|p: Position| claimed(grid, small, p) implies claimed(grid, large, p) by {
        if !large.contains(p) {
            let path = choose|path: Seq<Position>|
                fill_path(grid, small, path) && path.last() == p;
            assert(is_seed(grid, small, path[0]));
            assert(fill_path(grid, large, path));
        }
    }
    lemma_reach_set_finite(grid, large);
    vstd::seq_lib::seq_to_set_is_finite(large);
    assert(claim_set(grid, large).subset_of(reach_set(grid, large).union(large.to_set())));
    vstd::set_lib::lemma_len_subset(
        claim_set(grid, large),
        reach_set(grid, large).union(large.to_set()),
    );
    vstd::set_lib::lemma_len_subset(claim_set(grid, small), claim_set(grid, large));
}

/// On one board, a larger set of seeds counts at least as many cells as a
/// smaller one, provided that none of the added seeds is itself a cell that
/// the smaller set counts; seeds on cells that are not empty never are.
pub proof fn lemma_more_seeds_reach_more(grid: GridView, small: Seq<Position>, large: Seq<Position>)
    requires
        forall|p: Position| small.contains(p) ==> large.contains(p),
        forall|p: Position| large.contains(p) && !small.contains(p) ==> !counted(grid, small, p),
    ensures
        reach_count(grid, small) <= reach_count(grid, large),
{
    lemma_reach_set_finite(grid, large);
    assert forall|p: Position| counted(grid, small, p) implies counted(grid, large, p) by {
        let path = choose|path: Seq<Position>| fill_path(grid, small, path) && path.last() == p;
        assert(is_seed(grid, small, path[0]));
        assert(fill_path(grid, large, path));
    }
    assert(reach_set(grid, small).subset_of(reach_set(grid, large)));
    vstd::set_lib::lemma_len_subset(reach_set(grid, small), reach_set(grid, large));
}

/// The board with `state` in every cell that is a seed.
pub open spec fn marked(grid: GridView, seeds: Seq<Position>, state: CellState) -> GridView {
    GridView {
        width: grid.width,
        height: grid.height,
        rows: Seq::new(
            grid.height as nat,
            |y: int|
                Seq::new(
                    grid.width as nat,
                    |x: int|
                        if seeds.contains(Position { x: x as usize, y: y as usize }) {
                            state
                        } else {
                            grid.rows[y][x]
                        },
                ),
        ),
    }
}

proof fn lemma_walk_on_marked(
    grid: GridView,
    seeds: Seq<Position>,
    state: CellState,
    path: Seq<Position>,
)
    requires
        grid.wf(),
        fill_path(grid, seeds, path),
        !seeds.contains(path.last()),
    ensures
        reachable(marked(grid, seeds, state), seeds, path.last()),
    decreases path.len(),
{
    let board = marked(grid, seeds, state);
    let end = path.last();
    assert(path.len() >= 2);
    let before = path[path.len() - 2];
    assert(grid.valid(end) && grid.cell(end) == CellState::Empty && adjacent(before, end));
    assert(board.cell(end) == grid.cell(end));
    if seeds.contains(before) {
        assert(grid.valid(before)) by {
            if path.len() > 2 {
                assert(grid.valid(path[path.len() - 2]));
            }
        }
        lemma_seed_reachable(board, seeds, before);
    } else {
        let shorter = path.drop_last();
        assert forall|i: int| 1 <= i < shorter.len() implies grid.valid(#[trigger] shorter[i])
            && grid.cell(shorter[i]) == CellState::Empty && adjacent(
            shorter[i - 1],
            shorter[i],
        ) by {
            assert(shorter[i] == path[i]);
            assert(shorter[i - 1] == path[i - 1]);
        }
        assert(shorter[0] == path[0]);
        lemma_walk_on_marked(grid, seeds, state, shorter);
    }
    lemma_step_reachable(board, seeds, before, end);
}

/// Putting a piece down on the seeds before the fill changes nothing: with
/// the seeds marked as territory the same cells are counted, for seeds are
/// never counted themselves and a walk may start at any of them.
pub proof fn lemma_marking_seeds_changes_nothing(
    grid: GridView,
    seeds: Seq<Position>,
    state: CellState,
)
    requires
        grid.wf(),
        state != CellState::Empty,
    ensures
        reach_set(marked(grid, seeds, state), seeds) == reach_set(grid, seeds),
        reach_count(marked(grid, seeds, state), seeds) == reach_count(grid, seeds),
{
    let board = marked(grid, seeds, state);
    assert forall|p: Position| counted(board, seeds, p) <==> counted(grid, seeds, p) by {
        if grid.valid(p) && !seeds.contains(p) {
            assert(board.cell(p) == grid.cell(p));
        }
        if counted(board, seeds, p) {
            let path = choose|path: Seq<Position>|
                fill_path(board, seeds, path) && path.last() == p;
            assert forall|i: int| 1 <= i < path.len() implies grid.valid(#[trigger] path[i])
                && grid.cell(path[i]) == CellState::Empty && adjacent(path[i - 1], path[i]) by {
                assert(board.valid(path[i]) && board.cell(path[i]) == CellState::Empty);
            }
            assert(fill_path(grid, seeds, path));
        }
        if counted(grid, seeds, p) {
            let path = choose|path: Seq<Position>|
                fill_path(grid, seeds, path) && path.last() == p;
            lemma_walk_on_marked(grid, seeds, state, path);
        }
    }
    assert(reach_set(board, seeds) =~= reach_set(grid, seeds));
}

/// The marks as rows of booleans.
pub open spec fn rows_of(marks: &Vec<Vec<bool>>) -> Seq<Seq<bool>> {
    Seq::new(marks@.len(), |y: int| marks@[y]@)
}

/// The state that a traversal holds as the cells met so far, the number of
/// them already expanded, the marks and the count.
pub open spec fn state_of(
    order: Seq<Position>,
    head: int,
    rows: Seq<Seq<bool>>,
    count: nat,
) -> FillState {
    FillState { queue: order.skip(head), visited: rows, count }
}

fn blank_marks(grid: &Grid) -> (marks: Vec<Vec<bool>>)
    ensures
        rows_of(&marks) == fresh(grid@).visited,
{
    let mut marks: Vec<Vec<bool>> = Vec::new();
    let mut y: usize = 0;
    while y < grid.height
        invariant
            y <= grid.height,
            marks@.len() == y,
            forall|k: int|
                0 <= k < y ==> (#[trigger] marks@[k])@ == Seq::new(
                    grid.width as nat,
                    |x: int| false,
                ),
        decreases grid.height - y,
    {
        let mut row: Vec<bool> = Vec::new();
        let mut x: usize = 0;
        while x < grid.width
            invariant
                x <= grid.width,
                row@.len() == x,
                forall|k: int| 0 <= k < x ==> !#[trigger] row@[k],
            decreases grid.width - x,
        {
            row.push(false);
            x += 1;
        }
        assert(row@ =~= Seq::new(grid.width as nat, |x: int| false));
        marks.push(row);
        y += 1;
    }
    assert(rows_of(&marks) =~= fresh(grid@).visited);
    marks
}

fn visit_cell(
    grid: &Grid,
    order: &mut Vec<Position>,
    marks: &mut Vec<Vec<bool>>,
    count: &mut usize,
    x: usize,
    y: usize,
    Ghost(head): Ghost<int>,
)
    requires
        grid@.wf(),
        sized(grid@, rows_of(old(marks))),
        x < grid.width,
        y < grid.height,
        0 <= head <= old(order)@.len(),
        *old(count) <= old(order)@.len(),
    ensures
        sized(grid@, rows_of(final(marks))),
        *final(count) <= final(order)@.len(),
        head <= final(order)@.len(),
        state_of(final(order)@, head, rows_of(final(marks)), *final(count) as nat) == visit(
            grid@,
            state_of(old(order)@, head, rows_of(old(marks)), *old(count) as nat),
            x as int,
            y as int,
        ),
{
    let ghost before = state_of(order@, head, rows_of(marks), *count as nat);
    assert(rows_of(marks)[y as int].len() == grid.width);
    assert(grid@.rows[y as int].len() == grid.width);
    if !marks[y][x] && grid.cells[y][x] == CellState::Empty {
        order.push(Position::new(x, y));
        marks[y][x] = true;
        assert(order@.len() == order.len());
        *count = *count + 1;
        let ghost after = state_of(order@, head, rows_of(marks), *count as nat);
        let ghost want = visit(grid@, before, x as int, y as int);
        assert(after.queue =~= want.queue);
        assert(after.visited =~= want.visited);
        assert(sized(grid@, rows_of(marks)));
    }
}

/// Runs the traversal from the given seeds and returns its count: with no
/// limit, until the queue runs dry; with a limit, for at most that many
/// expansions.
pub(crate) fn fill(grid: &Grid, start_positions: &[Position], limit: Option<usize>) -> (count:
    usize)
    requires
        grid@.wf(),
    ensures
        limit is None ==> count == reach_count(grid@, start_positions@),
        limit matches Some(max) ==> count == run(
            grid@,
            seeded(grid@, start_positions@),
            max as nat,
        ).count,
{
    let ghost seeds = start_positions@;
    let mut order: Vec<Position> = Vec::new();
    let mut marks = blank_marks(grid);
    let mut i: usize = 0;
    assert(state_of(order@, 0, rows_of(&marks), 0).queue =~= fresh(grid@).queue);
    assert(seeds.take(0).len() == 0);
    while i < start_positions.len()
        invariant
            grid@.wf(),
            i <= start_positions.len(),
            seeds == start_positions@,
            sized(grid@, rows_of(&marks)),
            state_of(order@, 0, rows_of(&marks), 0) == seeded(grid@, seeds.take(i as int)),
        decreases start_positions.len() - i,
    {
        let pos = start_positions[i];
        let ghost before = state_of(order@, 0, rows_of(&marks), 0);
        assert(seeds.take(i + 1).drop_last() =~= seeds.take(i as int));
        if grid.is_valid(pos) {
            assert(rows_of(&marks)[pos.y as int].len() == grid.width);
            order.push(pos);
            marks[pos.y][pos.x] = true;
        }
        let ghost after = state_of(order@, 0, rows_of(&marks), 0);
        let ghost want = seed_one(grid@, before, pos);
        assert(after.queue =~= want.queue);
        assert(after.visited =~= want.visited);
        i += 1;
    }
    assert(seeds.take(i as int) =~= seeds);
    proof {
        lemma_seeded_inv(grid@, seeds);
    }
    let cap: usize = match limit {
        Some(max) => max,
        None => usize::MAX,
    };
    let mut count: usize = 0;
    let mut head: usize = 0;
    while head < order.len() && head < cap
        invariant
            grid@.wf(),
            head <= order.len(),
            count <= order.len(),
            limit matches Some(max) ==> cap == max,
            limit is None ==> cap == usize::MAX,
            fill_inv(grid@, seeds, state_of(order@, head as int, rows_of(&marks), count as nat)),
            limit is Some ==> head <= cap && run(
                grid@,
                state_of(order@, head as int, rows_of(&marks), count as nat),
                (cap - head) as nat,
            ) == run(grid@, seeded(grid@, seeds), cap as nat),
        decreases pending(state_of(order@, head as int, rows_of(&marks), count as nat)),
    {
        let pos = order[head];
        let ghost s0 = state_of(order@, head as int, rows_of(&marks), count as nat);
        assert(s0.queue[0] == pos);
        assert(grid@.valid(pos));
        proof {
            lemma_expand(grid@, seeds, s0);
        }
        if pos.x + 1 < grid.width {
            visit_cell(
                grid,
                &mut order,
                &mut marks,
                &mut count,
                pos.x + 1,
                pos.y,
                Ghost(head as int),
            );
        }
        let ghost s1 = state_of(order@, head as int, rows_of(&marks), count as nat);
        assert(s1 == visit(grid@, s0, pos.x + 1, pos.y as int));
        if pos.x > 0 {
            visit_cell(
                grid,
                &mut order,
                &mut marks,
                &mut count,
                pos.x - 1,
                pos.y,
                Ghost(head as int),
            );
        }
        let ghost s2 = state_of(order@, head as int, rows_of(&marks), count as nat);
        assert(s2 == visit(grid@, s1, pos.x - 1, pos.y as int));
        if pos.y + 1 < grid.height {
            visit_cell(
                grid,
                &mut order,
                &mut marks,
                &mut count,
                pos.x,
                pos.y + 1,
                Ghost(head as int),
            );
        }
        let ghost s3 = state_of(order@, head as int, rows_of(&marks), count as nat);
        assert(s3 == visit(grid@, s2, pos.x as int, pos.y + 1));
        if pos.y > 0 {
            visit_cell(
                grid,
                &mut order,
                &mut marks,
                &mut count,
                pos.x,
                pos.y - 1,
                Ghost(head as int),
            );
        }
        let ghost s4 = state_of(order@, head as int, rows_of(&marks), count as nat);
        assert(s4 == visit(grid@, s3, pos.x as int, pos.y - 1));
        head += 1;
        let ghost t = state_of(order@, head as int, rows_of(&marks), count as nat);
        assert(t.queue =~= s4.queue.drop_first());
        assert(t == expand(grid@, s0));
    }
    proof {
        let s = state_of(order@, head as int, rows_of(&marks), count as nat);
        if limit is None {
            assert(s.queue.len() == 0);
            lemma_fill_complete(grid@, seeds, s);
        } else {
            assert(run(grid@, s, (cap - head) as nat) == s);
        }
    }
    count
}

} // verus!
