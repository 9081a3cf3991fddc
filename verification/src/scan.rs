//! Row-major listings: the cells of a rectangle that satisfy a predicate,
//! rows from the top and each row from the left.

use vstd::prelude::*;
use crate::game_state::Position;

verus! {

/// The cells `(x, y)` with `x < n` that satisfy `pred`, from the left.
pub open spec fn row_scan(y: usize, n: nat, pred: spec_fn(Position) -> bool) -> Seq<Position>
    decreases n,
{
    if n == 0 {
        Seq::empty()
    } else {
        let rest = row_scan(y, (n - 1) as nat, pred);
        let p = Position { x: (n - 1) as usize, y };
        if pred(p) {
            rest.push(p)
        } else {
            rest
        }
    }
}

/// The cells of the first `m` rows of a rectangle `width` wide that satisfy
/// `pred`, in row-major order.
pub open spec fn rect_scan(width: nat, m: nat, pred: spec_fn(Position) -> bool) -> Seq<Position>
    decreases m,
{
    if m == 0 {
        Seq::empty()
    } else {
        rect_scan(width, (m - 1) as nat, pred) + row_scan((m - 1) as usize, width, pred)
    }
}

/// Whether each element of `s` comes before all later ones in row-major order.
pub open spec fn ordered(s: Seq<Position>) -> bool {
    forall|i: int, j: int| 0 <= i < j < s.len() ==> (#[trigger] s[i]).before(#[trigger] s[j])
}

/// A sequence with `a` added at its end holds what it held, and `a`.
pub proof fn lemma_push_contains(s: Seq<Position>, a: Position, b: Position)
    ensures
        s.push(a).contains(b) <==> (s.contains(b) || a == b),
{
    let t = s.push(a);
    if s.contains(b) {
        let i = choose|i: int| 0 <= i < s.len() && s[i] == b;
        assert(t[i] == b);
    }
    if a == b {
        assert(t[s.len() as int] == b);
    }
    if t.contains(b) {
        let i = choose|i: int| 0 <= i < t.len() && t[i] == b;
        if i < s.len() {
            assert(s[i] == b);
        }
    }
}

proof fn lemma_concat_contains(s: Seq<Position>, t: Seq<Position>, b: Position)
    ensures
        (s + t).contains(b) <==> (s.contains(b) || t.contains(b)),
{
    let u = s + t;
    if s.contains(b) {
        let i = choose|i: int| 0 <= i < s.len() && s[i] == b;
        assert(u[i] == b);
    }
    if t.contains(b) {
        let i = choose|i: int| 0 <= i < t.len() && t[i] == b;
        assert(u[s.len() + i] == b);
    }
    if u.contains(b) {
        let i = choose|i: int| 0 <= i < u.len() && u[i] == b;
        if i < s.len() {
            assert(s[i] == b);
        } else {
            assert(t[i - s.len()] == b);
        }
    }
}

/// A row listing holds exactly the cells of its row, left of column `n`, that
/// satisfy the predicate.
pub proof fn lemma_row_scan_members(y: usize, n: nat, pred: spec_fn(Position) -> bool)
    requires
        n <= usize::MAX + 1,
    ensures
        forall|p: Position|
            #[trigger] row_scan(y, n, pred).contains(p) <==> (p.y == y && p.x < n && pred(p)),
        ordered(row_scan(y, n, pred)),
        row_scan(y, n, pred).len() <= n,
    decreases n,
{
    if n > 0 {
        let rest = row_scan(y, (n - 1) as nat, pred);
        let q = Position { x: (n - 1) as usize, y };
        lemma_row_scan_members(y, (n - 1) as nat, pred);
        assert forall|p: Position|
            #[trigger] row_scan(y, n, pred).contains(p) <==> (p.y == y && p.x < n && pred(p)) by {
            lemma_push_contains(rest, q, p);
        }
        if pred(q) {
            let s = rest.push(q);
            assert forall|i: int, j: int| 0 <= i < j < s.len() implies (#[trigger] s[i]).before(
                #[trigger] s[j],
            ) by {
                if j == rest.len() {
                    assert(rest.contains(rest[i]));
                }
            }
        }
    }
}

/// A listing of `m` rows holds exactly the cells of those rows that satisfy
/// the predicate, each once, in row-major order.
pub proof fn lemma_rect_scan_members(width: nat, m: nat, pred: spec_fn(Position) -> bool)
    requires
        width <= usize::MAX + 1,
        m <= usize::MAX + 1,
    ensures
        forall|p: Position|
            #[trigger] rect_scan(width, m, pred).contains(p) <==> (p.x < width && p.y < m && pred(
                p,
            )),
        ordered(rect_scan(width, m, pred)),
        rect_scan(width, m, pred).no_duplicates(),
    decreases m,
{
    let s = rect_scan(width, m, pred);
    if m > 0 {
        let head = rect_scan(width, (m - 1) as nat, pred);
        let tail = row_scan((m - 1) as usize, width, pred);
        lemma_rect_scan_members(width, (m - 1) as nat, pred);
        lemma_row_scan_members((m - 1) as usize, width, pred);
        assert forall|p: Position| #[trigger]
            s.contains(p) <==> (p.x < width && p.y < m && pred(p)) by {
            lemma_concat_contains(head, tail, p);
        }
        assert forall|i: int, j: int| 0 <= i < j < s.len() implies (#[trigger] s[i]).before(
            #[trigger] s[j],
        ) by {
            if i < head.len() {
                assert(head.contains(head[i]));
            } else {
                assert(tail.contains(tail[i - head.len()]));
            }
            if j < head.len() {
                assert(head.contains(head[j]));
            } else {
                assert(tail.contains(tail[j - head.len()]));
            }
        }
    }
    assert forall|i: int, j: int| 0 <= i < s.len() && 0 <= j < s.len() && i != j implies s[i]
        != s[j] by {
        if i < j {
            assert(s[i].before(s[j]));
        } else {
            assert(s[j].before(s[i]));
        }
    }
}

/// A listing is empty exactly when no cell of the rectangle satisfies the
/// predicate.
pub proof fn lemma_rect_scan_empty(width: nat, m: nat, pred: spec_fn(Position) -> bool)
    requires
        width <= usize::MAX + 1,
        m <= usize::MAX + 1,
    ensures
        rect_scan(width, m, pred).len() == 0 <==> (forall|p: Position|
            p.x < width && p.y < m ==> !#[trigger] pred(p)),
{
    let s = rect_scan(width, m, pred);
    lemma_rect_scan_members(width, m, pred);
    if s.len() > 0 {
        assert(s.contains(s[0]));
    }
    if s.len() == 0 {
        assert forall|p: Position| p.x < width && p.y < m implies !#[trigger] pred(p) by {
            if pred(p) {
                assert(s.contains(p));
            }
        }
    }
}

} // verus!
