//! The placement rules: where the piece of the turn may be put down.

use vstd::prelude::*;
use crate::game_state::{GameState, GameStateView, GridView, Position, Shape, ShapeView};
use crate::scan::{lemma_push_contains, lemma_rect_scan_members, rect_scan, row_scan};

verus! {

/// A way of putting the piece on the board.
#[derive(Debug, PartialEq)]
pub struct Placement {
    /// Where the top left corner of the piece goes.
    pub position: Position,
    /// The piece.
    pub shape: Shape,
    /// How many cells the placement adds to the player's territory.
    pub cells_added: usize,
    /// How many cells of the piece lie on the player's territory.
    pub territory_touches: usize,
}

/// What a placement is: the anchor, the piece and the two counts.
pub struct PlacementView {
    pub position: Position,
    pub shape: ShapeView,
    pub cells_added: usize,
    pub territory_touches: usize,
}

impl View for Placement {
    type V = PlacementView;

    open spec fn view(&self) -> PlacementView {
        PlacementView {
            position: self.position,
            shape: self.shape@,
            cells_added: self.cells_added,
            territory_touches: self.territory_touches,
        }
    }
}

impl Clone for Placement {
    fn clone(&self) -> (copy: Self)
        ensures
            copy@ == self@,
    {
        Placement {
            position: self.position,
            shape: self.shape.clone(),
            cells_added: self.cells_added,
            territory_touches: self.territory_touches,
        }
    }
}

/// Where the cell `p` of a piece lands when the piece is anchored at `anchor`.
/// Meaningful where both sums fit a `usize`.
pub open spec fn landing(anchor: Position, p: Position) -> Position {
    Position { x: (anchor.x + p.x) as usize, y: (anchor.y + p.y) as usize }
}

/// Whether every solid cell of `shape`, anchored at `anchor`, has coordinates
/// that fit a `usize`.
pub open spec fn fits(anchor: Position, shape: ShapeView) -> bool {
    let cells = shape.filled_positions();
    forall|i: int|
        0 <= i < cells.len() ==> anchor.x + (#[trigger] cells[i]).x <= usize::MAX && anchor.y
            + cells[i].y <= usize::MAX
}

/// The board cells under the solid cells of `shape` anchored at `anchor`, in
/// the row-major order of the piece.
pub open spec fn landings(anchor: Position, shape: ShapeView) -> Seq<Position> {
    let cells = shape.filled_positions();
    Seq::new(cells.len(), |i: int| landing(anchor, cells[i]))
}

impl Placement {
    /// Whether the piece is well formed.
    pub open spec fn wf(&self) -> bool {
        self.shape@.wf()
    }

    /// The board cells that the piece would occupy, in the row-major order of
    /// the piece. The coordinates must fit a `usize`.
    pub fn get_absolute_positions(&self) -> (positions: Vec<Position>)
        requires
            self.wf(),
            fits(self.position, self.shape@),
        ensures
            positions@ == landings(self.position, self.shape@),
    {
        let cells = self.shape.get_filled_positions();
        let mut positions: Vec<Position> = Vec::new();
        let mut i: usize = 0;
        while i < cells.len()
            invariant
                i <= cells.len(),
                cells@ == self.shape@.filled_positions(),
                fits(self.position, self.shape@),
                positions@.len() == i,
                forall|k: int|
                    0 <= k < i ==> #[trigger] positions@[k] == landing(self.position, cells@[k]),
            decreases cells.len() - i,
        {
            let p = cells[i];
            positions.push(Position::new(self.position.x + p.x, self.position.y + p.y));
            i += 1;
        }
        assert(positions@ =~= landings(self.position, self.shape@));
        positions
    }
}

/// Why a placement is against the rules.
#[derive(Debug, Clone, Copy, PartialEq, Eq, Structural)]
pub enum PlacementError {
    /// The piece reaches over the edge of the board.
    OutOfBounds,
    /// The piece lies on a cell of the opponent.
    CollisionWithOpponent,
    /// Kept for callers that tell the cases apart; no rule yields it.
    CollisionWithSelf,
    /// The piece lies on no cell of the player.
    NoTerritoryContact,
    /// The piece lies on more than one cell of the player.
    MultipleContacts,
    /// The piece has no solid cell.
    EmptyShape,
}

impl PlacementError {
    /// The sentence that describes the error.
    pub open spec fn text(self) -> Seq<char> {
        match self {
            PlacementError::OutOfBounds => "Piece extends outside grid boundaries"@,
            PlacementError::CollisionWithOpponent => "Piece overlaps with opponent territory"@,
            PlacementError::CollisionWithSelf => "Piece overlaps with own territory"@,
            PlacementError::NoTerritoryContact => "Piece doesn't touch existing territory"@,
            PlacementError::MultipleContacts => "Piece touches territory at multiple cells"@,
            PlacementError::EmptyShape => "Piece shape is empty"@,
        }
    }

    /// The sentence that describes the error.
    pub fn message(&self) -> (msg: &'static str)
        ensures
            msg@ == self.text(),
    {
        match self {
            PlacementError::OutOfBounds => "Piece extends outside grid boundaries",
            PlacementError::CollisionWithOpponent => "Piece overlaps with opponent territory",
            PlacementError::CollisionWithSelf => "Piece overlaps with own territory",
            PlacementError::NoTerritoryContact => "Piece doesn't touch existing territory",
            PlacementError::MultipleContacts => "Piece touches territory at multiple cells",
            PlacementError::EmptyShape => "Piece shape is empty",
        }
    }

    /// The sentence that describes the error, as an owned string.
    pub fn to_string(&self) -> (msg: String)
        ensures
            msg@ == self.text(),
    {
        self.message().to_owned()
    }
}

/// Whether the cell `p` of the piece, anchored at `anchor`, lands off the board.
pub open spec fn lands_out(grid: GridView, anchor: Position, p: Position) -> bool {
    anchor.x + p.x >= grid.width || anchor.y + p.y >= grid.height
}

/// Whether the cell `p` of the piece rules the placement out by itself: it
/// lands off the board or on a cell of the opponent.
pub open spec fn blocked(state: GameStateView, anchor: Position, p: Position) -> bool {
    lands_out(state.grid, anchor, p) || state.grid.cell(landing(anchor, p)).hostile_to(
        state.player_number,
    )
}

/// Whether the cell `p` of the piece lands on a cell of the acting player.
pub open spec fn touching(state: GameStateView, anchor: Position, p: Position) -> bool {
    !lands_out(state.grid, anchor, p) && state.grid.cell(landing(anchor, p)).owned_by(
        state.player_number,
    )
}

/// How many of `cells` land on cells of the acting player.
pub open spec fn touch_count(state: GameStateView, anchor: Position, cells: Seq<Position>) -> nat
    decreases cells.len(),
{
    if cells.len() == 0 {
        0
    } else {
        touch_count(state, anchor, cells.drop_last()) + if touching(state, anchor, cells.last()) {
            1nat
        } else {
            0nat
        }
    }
}

/// Whether the `k`-th solid cell of the piece, in row-major order, is the
/// first that rules the placement out.
pub open spec fn first_blocked(state: GameStateView, anchor: Position, k: int) -> bool {
    let cells = state.piece.filled_positions();
    &&& 0 <= k < cells.len()
    &&& blocked(state, anchor, cells[k])
    &&& forall|j: int| 0 <= j < k ==> !blocked(state, anchor, #[trigger] cells[j])
}

/// What the rules say of putting the piece at `anchor`: nothing where the
/// placement is legal, else the reason. A piece without solid cells is
/// refused first. Then the solid cells are taken in row-major order, and the
/// first that lands off the board or on the opponent decides. Where none
/// does, the piece must lie on exactly one cell of the acting player.
pub open spec fn outcome(state: GameStateView, anchor: Position) -> Option<PlacementError> {
    let cells = state.piece.filled_positions();
    if cells.len() == 0 {
        Some(PlacementError::EmptyShape)
    } else if exists|k: int| first_blocked(state, anchor, k) {
        let k = choose|k: int| first_blocked(state, anchor, k);
        if lands_out(state.grid, anchor, cells[k]) {
            Some(PlacementError::OutOfBounds)
        } else {
            Some(PlacementError::CollisionWithOpponent)
        }
    } else {
        let touches = touch_count(state, anchor, cells);
        if touches == 0 {
            Some(PlacementError::NoTerritoryContact)
        } else if touches == 1 {
            None
        } else {
            Some(PlacementError::MultipleContacts)
        }
    }
}

/// Whether the piece may be put at `anchor`.
pub open spec fn legal(state: GameStateView, anchor: Position) -> bool {
    outcome(state, anchor) is None
}

/// The test for an anchor being legal.
pub open spec fn legal_pred(state: GameStateView) -> spec_fn(Position) -> bool {
    |p: Position| legal(state, p)
}

/// The placement that a legal anchor gives: one cell of the piece lies on the
/// player's territory, and every other solid cell is added to it.
pub open spec fn placed(state: GameStateView, anchor: Position) -> PlacementView {
    PlacementView {
        position: anchor,
        shape: state.piece,
        cells_added: (state.piece.filled_positions().len() - 1) as usize,
        territory_touches: 1,
    }
}

/// Whether `out` holds, in order, the placements that the anchors give.
pub open spec fn placements_at(
    state: GameStateView,
    anchors: Seq<Position>,
    out: Seq<Placement>,
) -> bool {
    &&& out.len() == anchors.len()
    &&& forall|k: int| 0 <= k < out.len() ==> (#[trigger] out[k])@ == placed(state, anchors[k])
}

/// Checks the placement of the piece of the turn at `placement_pos` against
/// the rules, and returns it with its counts where it is legal.
pub fn validate_placement(state: &GameState, placement_pos: Position) -> (result: Result<
    Placement,
    PlacementError,
>)
    requires
        state@.wf(),
    ensures
        match result {
            Ok(placement) => legal(state@, placement_pos) && placement@ == placed(
                state@,
                placement_pos,
            ),
            Err(error) => outcome(state@, placement_pos) == Some(error),
        },
{
    let shape = &state.current_piece;
    let cells = shape.get_filled_positions();
    if cells.len() == 0 {
        return Err(PlacementError::EmptyShape);
    }
    let player = state.player_number;
    let mut touches: usize = 0;
    let mut i: usize = 0;
    while i < cells.len()
        invariant
            state@.wf(),
            i <= cells.len(),
            cells@ == state@.piece.filled_positions(),
            player == state.player_number,
            forall|j: int| 0 <= j < i ==> !blocked(state@, placement_pos, #[trigger] cells@[j]),
            touches == touch_count(state@, placement_pos, cells@.take(i as int)),
            touches <= i,
        decreases cells.len() - i,
    {
        let p = cells[i];
        let ghost k = choose|k: int| first_blocked(state@, placement_pos, k);
        if p.x >= state.grid.width || placement_pos.x >= state.grid.width - p.x || p.y
            >= state.grid.height || placement_pos.y >= state.grid.height - p.y {
            assert(first_blocked(state@, placement_pos, i as int));
            assert(k == i);
            return Err(PlacementError::OutOfBounds);
        }
        let x: usize = placement_pos.x + p.x;
        let y: usize = placement_pos.y + p.y;
        assert(state@.grid.rows[y as int].len() == state.grid.width);
        let cell = state.grid.cells[y][x];
        if cell.is_hostile_to(player) {
            assert(first_blocked(state@, placement_pos, i as int));
            assert(k == i);
            return Err(PlacementError::CollisionWithOpponent);
        }
        assert(cells@.take(i + 1).drop_last() =~= cells@.take(i as int));
        if cell.is_owned_by(player) {
            touches += 1;
        }
        i += 1;
    }
    assert(cells@.take(i as int) =~= cells@);
    if touches == 0 {
        Err(PlacementError::NoTerritoryContact)
    } else if touches == 1 {
        Ok(
            Placement {
                position: placement_pos,
                shape: shape.clone(),
                cells_added: cells.len() - 1,
                territory_touches: touches,
            },
        )
    } else {
        Err(PlacementError::MultipleContacts)
    }
}

/// Every legal placement of the piece of the turn, by anchor in row-major
/// order. Anchors that the rules refuse are left out without a reason.
pub fn find_all_valid_placements(state: &GameState) -> (placements: Vec<Placement>)
    requires
        state@.wf(),
    ensures
        placements_at(
            state@,
            rect_scan(state.grid.width as nat, state.grid.height as nat, legal_pred(state@)),
            placements@,
        ),
{
    let ghost pred = legal_pred(state@);
    let ghost width = state.grid.width as nat;
    let mut placements: Vec<Placement> = Vec::new();
    let mut y: usize = 0;
    while y < state.grid.height
        invariant
            state@.wf(),
            y <= state.grid.height,
            pred == legal_pred(state@),
            width == state.grid.width,
            placements_at(state@, rect_scan(width, y as nat, pred), placements@),
        decreases state.grid.height - y,
    {
        let ghost done = rect_scan(width, y as nat, pred);
        let mut x: usize = 0;
        while x < state.grid.width
            invariant
                state@.wf(),
                y < state.grid.height,
                x <= state.grid.width,
                pred == legal_pred(state@),
                width == state.grid.width,
                done == rect_scan(width, y as nat, pred),
                placements_at(state@, done + row_scan(y, x as nat, pred), placements@),
            decreases state.grid.width - x,
        {
            let pos = Position::new(x, y);
            let ghost before = done + row_scan(y, x as nat, pred);
            match validate_placement(state, pos) {
                Ok(placement) => {
                    placements.push(placement);
                    assert(done + row_scan(y, (x + 1) as nat, pred) =~= before.push(pos));
                },
                Err(_) => {
                    assert(done + row_scan(y, (x + 1) as nat, pred) =~= before);
                },
            }
            x += 1;
        }
        y += 1;
    }
    placements
}

/// The search over the whole board finds every legal anchor once, and
/// nothing else, in row-major order.
pub proof fn lemma_all_legal_anchors(state: GameStateView)
    ensures
        ({
            let anchors = rect_scan(
                state.grid.width as nat,
                state.grid.height as nat,
                legal_pred(state),
            );
            &&& forall|p: Position|
                #[trigger] anchors.contains(p) <==> state.grid.valid(p) && legal(state, p)
            &&& anchors.no_duplicates()
            &&& crate::scan::ordered(anchors)
        }),
{
    lemma_rect_scan_members(
        state.grid.width as nat,
        state.grid.height as nat,
        legal_pred(state),
    );
}

/// The anchors found once `candidates` have been tried in order: a
/// candidate joins those found before where it is legal and is not among
/// them yet.
pub open spec fn extend_anchors(
    state: GameStateView,
    found: Seq<Position>,
    candidates: Seq<Position>,
) -> Seq<Position>
    decreases candidates.len(),
{
    if candidates.len() == 0 {
        found
    } else {
        let before = extend_anchors(state, found, candidates.drop_last());
        let anchor = candidates.last();
        if legal(state, anchor) && !before.contains(anchor) {
            before.push(anchor)
        } else {
            before
        }
    }
}

/// The anchors that the targeted search finds: for each territory cell in
/// turn, its neighbours above, below, left and right are tried as anchors.
pub open spec fn touching_anchors(state: GameStateView, territory: Seq<Position>) -> Seq<Position>
    decreases territory.len(),
{
    if territory.len() == 0 {
        Seq::empty()
    } else {
        extend_anchors(
            state,
            touching_anchors(state, territory.drop_last()),
            neighbors(territory.last(), state.grid.width, state.grid.height),
        )
    }
}

/// Whether `anchor` is a neighbour, on the board, of one of the cells of
/// `territory`.
pub open spec fn beside(state: GameStateView, territory: Seq<Position>, anchor: Position) -> bool {
    exists|t: int|
        0 <= t < territory.len() && neighbors(
            #[trigger] territory[t],
            state.grid.width,
            state.grid.height,
        ).contains(anchor)
}

proof fn lemma_extend_anchors(state: GameStateView, found: Seq<Position>, candidates: Seq<Position>)
    requires
        found.no_duplicates(),
    ensures
        extend_anchors(state, found, candidates).no_duplicates(),
        forall|a: Position| #[trigger]
            extend_anchors(state, found, candidates).contains(a) <==> found.contains(a) || (
            candidates.contains(a) && legal(state, a)),
    decreases candidates.len(),
{
    let out = extend_anchors(state, found, candidates);
    if candidates.len() > 0 {
        let head = candidates.drop_last();
        let last = candidates.last();
        let before = extend_anchors(state, found, head);
        lemma_extend_anchors(state, found, head);
        assert forall|a: Position| candidates.contains(a) <==> head.contains(a) || a == last by {
            lemma_push_contains(head, last, a);
            assert(head.push(last) =~= candidates);
        }
        assert forall|a: Position| #[trigger]
            out.contains(a) <==> found.contains(a) || (candidates.contains(a) && legal(
                state,
                a,
            )) by {
            lemma_push_contains(before, last, a);
        }
        if legal(state, last) && !before.contains(last) {
            assert forall|i: int, j: int|
                0 <= i < out.len() && 0 <= j < out.len() && i != j implies out[i] != out[j] by {
                if i < before.len() {
                    assert(before.contains(before[i]));
                }
                if j < before.len() {
                    assert(before.contains(before[j]));
                }
            }
        }
    }
}

/// The targeted search finds exactly the legal anchors among the neighbours
/// of the given cells, each once.
pub proof fn lemma_touching_anchors(state: GameStateView, territory: Seq<Position>)
    ensures
        touching_anchors(state, territory).no_duplicates(),
        forall|a: Position| #[trigger]
            touching_anchors(state, territory).contains(a) <==> legal(state, a) && beside(
                state,
                territory,
                a,
            ),
    decreases territory.len(),
{
    let out = touching_anchors(state, territory);
    if territory.len() > 0 {
        let head = territory.drop_last();
        let last = territory.last();
        let around = neighbors(last, state.grid.width, state.grid.height);
        lemma_touching_anchors(state, head);
        lemma_extend_anchors(state, touching_anchors(state, head), around);
        assert forall|a: Position| beside(state, territory, a) <==> beside(state, head, a)
            || around.contains(a) by {
            if beside(state, head, a) {
                let t = choose|t: int|
                    0 <= t < head.len() && neighbors(
                        #[trigger] head[t],
                        state.grid.width,
                        state.grid.height,
                    ).contains(a);
                assert(territory[t] == head[t]);
            }
            if around.contains(a) {
                assert(territory[territory.len() - 1] == last);
            }
            if beside(state, territory, a) {
                let t = choose|t: int|
                    0 <= t < territory.len() && neighbors(
                        #[trigger] territory[t],
                        state.grid.width,
                        state.grid.height,
                    ).contains(a);
                if t < head.len() {
                    assert(head[t] == territory[t]);
                }
            }
        }
    } else {
        assert forall|a: Position| !out.contains(a) by {}
    }
}

fn anchored_at(state: &GameState, placements: &Vec<Placement>, anchor: Position) -> (found: bool)
    ensures
        found == exists|k: int|
            0 <= k < placements@.len() && (#[trigger] placements@[k]).position == anchor,
{
    let mut k: usize = 0;
    while k < placements.len()
        invariant
            k <= placements.len(),
            forall|j: int| 0 <= j < k ==> (#[trigger] placements@[j]).position != anchor,
        decreases placements.len() - k,
    {
        if placements[k].position.x == anchor.x && placements[k].position.y == anchor.y {
            return true;
        }
        k += 1;
    }
    false
}

/// The legal placements anchored at a neighbour of one of the given
/// territory cells, each anchor once, in the order in which the search meets
/// them: the cells in turn, and of each the neighbours above, below, left and
/// right.
pub fn find_placements_touching_territory(
    state: &GameState,
    territory_positions: &[Position],
) -> (placements: Vec<Placement>)
    requires
        state@.wf(),
    ensures
        placements_at(state@, touching_anchors(state@, territory_positions@), placements@),
{
    let mut placements: Vec<Placement> = Vec::new();
    let mut t: usize = 0;
    while t < territory_positions.len()
        invariant
            state@.wf(),
            t <= territory_positions.len(),
            placements_at(
                state@,
                touching_anchors(state@, territory_positions@.take(t as int)),
                placements@,
            ),
        decreases territory_positions.len() - t,
    {
        let target = territory_positions[t];
        let candidates = get_neighbors(target, state.grid.width, state.grid.height);
        let ghost found = touching_anchors(state@, territory_positions@.take(t as int));
        let mut n: usize = 0;
        while n < candidates.len()
            invariant
                state@.wf(),
                n <= candidates.len(),
                placements_at(
                    state@,
                    extend_anchors(state@, found, candidates@.take(n as int)),
                    placements@,
                ),
            decreases candidates.len() - n,
        {
            let anchor = candidates[n];
            let ghost before = extend_anchors(state@, found, candidates@.take(n as int));
            assert(candidates@.take(n + 1).drop_last() =~= candidates@.take(n as int));
            let known = anchored_at(state, &placements, anchor);
            proof {
                if known {
                    let k = choose|k: int|
                        0 <= k < placements@.len() && (#[trigger] placements@[k]).position
                            == anchor;
                    assert(placements@[k]@ == placed(state@, before[k]));
                    assert(before[k] == anchor);
                }
                if before.contains(anchor) {
                    let k = choose|k: int| 0 <= k < before.len() && before[k] == anchor;
                    assert(placements@[k]@ == placed(state@, before[k]));
                }
            }
            if !known {
                match validate_placement(state, anchor) {
                    Ok(placement) => {
                        placements.push(placement);
                    },
                    Err(_) => {},
                }
            }
            n += 1;
        }
        assert(candidates@.take(n as int) =~= candidates@);
        assert(territory_positions@.take(t + 1).drop_last() =~= territory_positions@.take(
            t as int,
        ));
        t += 1;
    }
    assert(territory_positions@.take(t as int) =~= territory_positions@);
    placements
}

/// The board cells under the solid cells of `shape` anchored at `base_pos`,
/// in the row-major order of the piece; `OutOfBounds` where a coordinate does
/// not fit a `usize`.
pub fn get_absolute_positions(base_pos: Position, shape: &Shape) -> (result: Result<
    Vec<Position>,
    PlacementError,
>)
    requires
        shape@.wf(),
    ensures
        match result {
            Ok(positions) => fits(base_pos, shape@) && positions@ == landings(base_pos, shape@),
            Err(error) => !fits(base_pos, shape@) && error == PlacementError::OutOfBounds,
        },
{
    let cells = shape.get_filled_positions();
    let mut positions: Vec<Position> = Vec::new();
    let mut i: usize = 0;
    while i < cells.len()
        invariant
            i <= cells.len(),
            cells@ == shape@.filled_positions(),
            positions@.len() == i,
            forall|k: int|
                0 <= k < i ==> base_pos.x + (#[trigger] cells@[k]).x <= usize::MAX && base_pos.y
                    + cells@[k].y <= usize::MAX,
            forall|k: int| 0 <= k < i ==> #[trigger] positions@[k] == landing(base_pos, cells@[k]),
        decreases cells.len() - i,
    {
        let p = cells[i];
        if p.x > usize::MAX - base_pos.x || p.y > usize::MAX - base_pos.y {
            return Err(PlacementError::OutOfBounds);
        }
        positions.push(Position::new(base_pos.x + p.x, base_pos.y + p.y));
        i += 1;
    }
    assert(positions@ =~= landings(base_pos, shape@));
    Ok(positions)
}

/// The cells above, below, left and right of `pos`, in that order, as far as
/// their coordinates stay within `width` columns and `height` rows.
pub open spec fn neighbors(pos: Position, width: usize, height: usize) -> Seq<Position> {
    let up = if pos.y > 0 {
        seq![Position { x: pos.x, y: (pos.y - 1) as usize }]
    } else {
        Seq::empty()
    };
    let down = if pos.y + 1 < height {
        seq![Position { x: pos.x, y: (pos.y + 1) as usize }]
    } else {
        Seq::empty()
    };
    let left = if pos.x > 0 {
        seq![Position { x: (pos.x - 1) as usize, y: pos.y }]
    } else {
        Seq::empty()
    };
    let right = if pos.x + 1 < width {
        seq![Position { x: (pos.x + 1) as usize, y: pos.y }]
    } else {
        Seq::empty()
    };
    up + down + left + right
}

/// The cells above, below, left and right of `pos`, in that order, as far as
/// their coordinates stay within `width` columns and `height` rows.
pub fn get_neighbors(pos: Position, width: usize, height: usize) -> (cells: Vec<Position>)
    ensures
        cells@ == neighbors(pos, width, height),
{
    let mut cells: Vec<Position> = Vec::new();
    if pos.y > 0 {
        cells.push(Position::new(pos.x, pos.y - 1));
    }
    if height > 0 && pos.y < height - 1 {
        cells.push(Position::new(pos.x, pos.y + 1));
    }
    if pos.x > 0 {
        cells.push(Position::new(pos.x - 1, pos.y));
    }
    if width > 0 && pos.x < width - 1 {
        cells.push(Position::new(pos.x + 1, pos.y));
    }
    assert(cells@ =~= neighbors(pos, width, height));
    cells
}

/// Whether the piece of the turn is solid at `p`, a cell of its own mask.
pub open spec fn solid(state: GameStateView, p: Position) -> bool {
    p.x < state.piece.width && p.y < state.piece.height
        && state.piece.filled(p)
}

/// Whether the `i`-th of `cells` lands on the player's territory and no
/// other of them does.
pub open spec fn only_touch(
    state: GameStateView,
    anchor: Position,
    cells: Seq<Position>,
    i: int,
) -> bool {
    &&& 0 <= i < cells.len()
    &&& touching(state, anchor, cells[i])
    &&& forall|j: int|
        0 <= j < cells.len() && j != i ==> !touching(state, anchor, #[trigger] cells[j])
}

/// Whether `p` is the one solid cell of the piece that lands on the player's
/// territory.
pub open spec fn only_contact(state: GameStateView, anchor: Position, p: Position) -> bool {
    &&& solid(state, p)
    &&& touching(state, anchor, p)
    &&& forall|q: Position| #[trigger] solid(state, q) && touching(state, anchor, q) ==> q == p
}

proof fn lemma_touch_count(state: GameStateView, anchor: Position, cells: Seq<Position>)
    ensures
        touch_count(state, anchor, cells) == 0 <==> (forall|i: int|
            0 <= i < cells.len() ==> !touching(state, anchor, #[trigger] cells[i])),
        touch_count(state, anchor, cells) == 1 <==> (exists|i: int|
            only_touch(state, anchor, cells, i)),
    decreases cells.len(),
{
    if cells.len() > 0 {
        let head = cells.drop_last();
        let last = cells.len() - 1;
        lemma_touch_count(state, anchor, head);
        assert(forall|i: int| 0 <= i < head.len() ==> head[i] == cells[i]);
        if touch_count(state, anchor, cells) == 0 {
            assert forall|i: int| 0 <= i < cells.len() implies !touching(
                state,
                anchor,
                #[trigger] cells[i],
            ) by {
                if i < last {
                    assert(head[i] == cells[i]);
                }
            }
        }
        if forall|i: int| 0 <= i < cells.len() ==> !touching(state, anchor, #[trigger] cells[i]) {
            assert forall|i: int| 0 <= i < head.len() implies !touching(
                state,
                anchor,
                #[trigger] head[i],
            ) by {
                assert(head[i] == cells[i]);
            }
        }
        if touch_count(state, anchor, cells) == 1 {
            if touching(state, anchor, cells[last]) {
                assert(touch_count(state, anchor, head) == 0);
                assert forall|j: int| 0 <= j < cells.len() && j != last implies !touching(
                    state,
                    anchor,
                    #[trigger] cells[j],
                ) by {
                    assert(head[j] == cells[j]);
                }
                assert(only_touch(state, anchor, cells, last));
            } else {
                assert(touch_count(state, anchor, head) == 1);
                let i = choose|i: int| only_touch(state, anchor, head, i);
                assert(only_touch(state, anchor, head, i));
                assert(head[i] == cells[i]);
                assert forall|j: int| 0 <= j < cells.len() && j != i implies !touching(
                    state,
                    anchor,
                    #[trigger] cells[j],
                ) by {
                    if j < last {
                        assert(head[j] == cells[j]);
                    }
                }
                assert(only_touch(state, anchor, cells, i));
            }
        }
        if exists|i: int| only_touch(state, anchor, cells, i) {
            let i = choose|i: int| only_touch(state, anchor, cells, i);
            assert(only_touch(state, anchor, cells, i));
            if i == last {
                assert forall|j: int| 0 <= j < head.len() implies !touching(
                    state,
                    anchor,
                    #[trigger] head[j],
                ) by {
                    assert(head[j] == cells[j]);
                }
                assert(touch_count(state, anchor, head) == 0);
            } else {
                assert(head[i] == cells[i]);
                assert forall|j: int| 0 <= j < head.len() && j != i implies !touching(
                    state,
                    anchor,
                    #[trigger] head[j],
                ) by {
                    assert(head[j] == cells[j]);
                }
                assert(only_touch(state, anchor, head, i));
                assert(!touching(state, anchor, cells[last]));
                assert(touch_count(state, anchor, head) == 1);
            }
        }
    }
}

proof fn lemma_first_blocked_exists(state: GameStateView, anchor: Position, i: int)
    requires
        0 <= i < state.piece.filled_positions().len(),
        blocked(state, anchor, state.piece.filled_positions()[i]),
    ensures
        exists|k: int| first_blocked(state, anchor, k),
    decreases i,
{
    let cells = state.piece.filled_positions();
    if exists|j: int| 0 <= j < i && blocked(state, anchor, #[trigger] cells[j]) {
        let j = choose|j: int| 0 <= j < i && blocked(state, anchor, #[trigger] cells[j]);
        lemma_first_blocked_exists(state, anchor, j);
    } else {
        assert(first_blocked(state, anchor, i));
    }
}

/// A placement is legal exactly when every solid cell of the piece lands on
/// the board, none lands on a cell of the opponent, and exactly one lands on
/// a cell of the acting player.
pub proof fn lemma_legal_placement(state: GameStateView, anchor: Position)
    ensures
        legal(state, anchor) <==> {
            &&& forall|p: Position| #[trigger]
                solid(state, p) ==> !lands_out(state.grid, anchor, p) && !state.grid.cell(
                    landing(anchor, p),
                ).hostile_to(state.player_number)
            &&& exists|p: Position| only_contact(state, anchor, p)
        },
{
    let shape = state.piece;
    let cells = shape.filled_positions();
    lemma_rect_scan_members(shape.width as nat, shape.height as nat, shape.filled_pred());
    lemma_touch_count(state, anchor, cells);
    assert forall|p: Position| cells.contains(p) <==> #[trigger] solid(state, p) by {}
    let clear = forall|p: Position| #[trigger]
        solid(state, p) ==> !lands_out(state.grid, anchor, p) && !state.grid.cell(
            landing(anchor, p),
        ).hostile_to(state.player_number);
    if legal(state, anchor) {
        assert forall|p: Position| #[trigger] solid(state, p) implies !blocked(
            state,
            anchor,
            p,
        ) by {
            let i = choose|i: int| 0 <= i < cells.len() && cells[i] == p;
            if blocked(state, anchor, p) {
                lemma_first_blocked_exists(state, anchor, i);
            }
        }
        let i = choose|i: int| only_touch(state, anchor, cells, i);
        assert(cells.contains(cells[i]));
        assert forall|q: Position| #[trigger]
            solid(state, q) && touching(state, anchor, q) implies q == cells[i] by {
            let j = choose|j: int| 0 <= j < cells.len() && cells[j] == q;
        }
        assert(only_contact(state, anchor, cells[i]));
    }
    if clear && exists|p: Position| only_contact(state, anchor, p) {
        let p = choose|p: Position| only_contact(state, anchor, p);
        let i = choose|i: int| 0 <= i < cells.len() && cells[i] == p;
        if exists|k: int| first_blocked(state, anchor, k) {
            let k = choose|k: int| first_blocked(state, anchor, k);
            assert(cells.contains(cells[k]));
            assert(solid(state, cells[k]));
            assert(blocked(state, anchor, cells[k]));
            assert(false);
        }
        assert forall|j: int| 0 <= j < cells.len() && j != i implies !touching(
            state,
            anchor,
            #[trigger] cells[j],
        ) by {
            assert(cells.contains(cells[j]));
            assert(solid(state, cells[j]));
            assert(cells[j] != cells[i]);
        }
        assert(only_touch(state, anchor, cells, i));
        assert(touch_count(state, anchor, cells) == 1);
    }
}

/// The empty piece is refused as such whatever the anchor and the board: the
/// outcome is `EmptyShape` exactly when no cell of the mask is solid.
pub proof fn lemma_empty_shape_refused(state: GameStateView, anchor: Position)
    ensures
        outcome(state, anchor) == Some(PlacementError::EmptyShape) <==> (forall|p: Position|
            !#[trigger] solid(state, p)),
{
    let shape = state.piece;
    crate::scan::lemma_rect_scan_empty(
        shape.width as nat,
        shape.height as nat,
        shape.filled_pred(),
    );
    if shape.filled_positions().len() == 0 {
        assert forall|p: Position| !#[trigger] solid(state, p) by {
            if p.x < shape.width && p.y < shape.height {
                assert(!shape.filled_pred()(p));
            }
        }
    } else {
        if forall|p: Position| !#[trigger] solid(state, p) {
            assert forall|p: Position| p.x < shape.width && p.y < shape.height implies !(
            #[trigger] shape.filled_pred()(p)) by {
                assert(!solid(state, p));
            }
        }
    }
}

} // verus!
