//! The board, the piece and the acting player of one turn.

use vstd::prelude::*;
use crate::scan::{rect_scan, row_scan};

verus! {

/// What occupies one cell of the board.
#[derive(Debug, Clone, Copy, PartialEq, Eq, Structural)]
pub enum CellState {
    /// Nobody holds the cell.
    Empty,
    /// Held by player 1.
    Player1,
    /// Held by player 2.
    Player2,
    /// Part of the piece player 1 placed last.
    Player1Last,
    /// Part of the piece player 2 placed last.
    Player2Last,
}

impl CellState {
    /// The cell state that a character of the board text stands for. Any
    /// character other than the four territory marks reads as empty.
    pub open spec fn of_char(c: char) -> CellState {
        if c == '@' {
            CellState::Player1
        } else if c == '$' {
            CellState::Player2
        } else if c == 'a' {
            CellState::Player1Last
        } else if c == 's' {
            CellState::Player2Last
        } else {
            CellState::Empty
        }
    }

    /// The character that the board text uses for this state.
    pub open spec fn symbol(self) -> char {
        match self {
            CellState::Empty => '.',
            CellState::Player1 => '@',
            CellState::Player2 => '$',
            CellState::Player1Last => 'a',
            CellState::Player2Last => 's',
        }
    }

    /// The player holding a cell in this state: 1 or 2, and 0 for an empty cell.
    pub open spec fn owner(self) -> int {
        match self {
            CellState::Empty => 0,
            CellState::Player1 | CellState::Player1Last => 1,
            CellState::Player2 | CellState::Player2Last => 2,
        }
    }

    /// Whether a cell in this state is territory of `player`.
    pub open spec fn owned_by(self, player: u8) -> bool {
        self.owner() != 0 && self.owner() == player as int
    }

    /// Whether a cell in this state is territory that `player` does not hold.
    pub open spec fn hostile_to(self, player: u8) -> bool {
        self.owner() != 0 && self.owner() != player as int
    }

    /// The character that the board text uses for this state.
    pub fn to_char(&self) -> (c: char)
        ensures
            c == self.symbol(),
            CellState::of_char(c) == *self,
    {
        match self {
            CellState::Empty => '.',
            CellState::Player1 => '@',
            CellState::Player2 => '$',
            CellState::Player1Last => 'a',
            CellState::Player2Last => 's',
        }
    }

    /// Whether the cell is territory of `player`.
    pub fn is_owned_by(&self, player: u8) -> (b: bool)
        ensures
            b == self.owned_by(player),
    {
        match self {
            CellState::Empty => false,
            CellState::Player1 | CellState::Player1Last => player == 1,
            CellState::Player2 | CellState::Player2Last => player == 2,
        }
    }

    /// Whether the cell is territory of somebody other than `player`.
    pub fn is_hostile_to(&self, player: u8) -> (b: bool)
        ensures
            b == self.hostile_to(player),
    {
        match self {
            CellState::Empty => false,
            CellState::Player1 | CellState::Player1Last => player != 1,
            CellState::Player2 | CellState::Player2Last => player != 2,
        }
    }
}

impl From<char> for CellState {
    fn from(c: char) -> (state: Self) {
        if c == '@' {
            CellState::Player1
        } else if c == '$' {
            CellState::Player2
        } else if c == 'a' {
            CellState::Player1Last
        } else if c == 's' {
            CellState::Player2Last
        } else {
            CellState::Empty
        }
    }
}

impl vstd::std_specs::convert::FromSpecImpl<char> for CellState {
    open spec fn obeys_from_spec() -> bool {
        true
    }

    open spec fn from_spec(c: char) -> Self {
        CellState::of_char(c)
    }
}

/// A cell of the board, or of a piece, by column `x` and row `y`.
#[derive(Debug, Clone, Copy, PartialEq, Eq, Hash, Structural)]
pub struct Position {
    pub x: usize,
    pub y: usize,
}

impl Position {
    /// The cell in column `x` of row `y`.
    pub fn new(x: usize, y: usize) -> (p: Self)
        ensures
            p.x == x,
            p.y == y,
    {
        Position { x, y }
    }

    /// Row-major order: rows from the top, and within a row from the left.
    pub open spec fn before(self, other: Position) -> bool {
        self.y < other.y || (self.y == other.y && self.x < other.x)
    }
}

/// The board: `height` rows of `width` cells each.
#[derive(Debug)]
pub struct Grid {
    pub width: usize,
    pub height: usize,
    pub cells: Vec<Vec<CellState>>,
}

/// What a board is: its stated size and its rows, top row first.
pub struct GridView {
    pub width: usize,
    pub height: usize,
    pub rows: Seq<Seq<CellState>>,
}

impl View for Grid {
    type V = GridView;

    open spec fn view(&self) -> GridView {
        GridView {
            width: self.width,
            height: self.height,
            rows: Seq::new(self.cells@.len(), |y: int| self.cells@[y]@),
        }
    }
}

impl GridView {
    /// Whether the rows match the stated size: `height` rows of `width` cells.
    pub open spec fn wf(self) -> bool {
        &&& self.rows.len() == self.height
        &&& forall|y: int| 0 <= y < self.height ==> (#[trigger] self.rows[y]).len() == self.width
    }

    /// Whether `pos` lies on the board.
    pub open spec fn valid(self, pos: Position) -> bool {
        pos.x < self.width && pos.y < self.height
    }

    /// The state of the cell at `pos`.
    pub open spec fn cell(self, pos: Position) -> CellState {
        self.rows[pos.y as int][pos.x as int]
    }

    /// The board with `state` in the cell at `pos`.
    pub open spec fn with_cell(self, pos: Position, state: CellState) -> GridView {
        GridView {
            width: self.width,
            height: self.height,
            rows: self.rows.update(
                pos.y as int,
                self.rows[pos.y as int].update(pos.x as int, state),
            ),
        }
    }

    /// The test for a cell being territory of `player`.
    pub open spec fn owned_pred(self, player: u8) -> spec_fn(Position) -> bool {
        |p: Position| self.cell(p).owned_by(player)
    }

    /// The test for a cell being empty.
    pub open spec fn empty_pred(self) -> spec_fn(Position) -> bool {
        |p: Position| self.cell(p) == CellState::Empty
    }

    /// The cells that `player` holds, in row-major order.
    pub open spec fn player_positions(self, player: u8) -> Seq<Position> {
        rect_scan(self.width as nat, self.height as nat, self.owned_pred(player))
    }

    /// The empty cells, in row-major order.
    pub open spec fn empty_positions(self) -> Seq<Position> {
        rect_scan(self.width as nat, self.height as nat, self.empty_pred())
    }
}

/// The cell states that rows of board text stand for.
pub open spec fn states_of_chars(raw: Seq<Vec<char>>) -> Seq<Seq<CellState>> {
    Seq::new(raw.len(), |y: int| Seq::new(raw[y]@.len(), |x: int| CellState::of_char(raw[y]@[x])))
}

fn copy_states(row: &Vec<CellState>) -> (out: Vec<CellState>)
    ensures
        out@ == row@,
{
    let mut out: Vec<CellState> = Vec::new();
    let mut x: usize = 0;
    while x < row.len()
        invariant
            x <= row.len(),
            out@ == row@.take(x as int),
        decreases row.len() - x,
    {
        out.push(row[x]);
        assert(out@ =~= row@.take(x + 1));
        x += 1;
    }
    assert(row@.take(row@.len() as int) =~= row@);
    out
}

impl Clone for Grid {
    fn clone(&self) -> (copy: Self)
        ensures
            copy@ == self@,
    {
        let mut cells: Vec<Vec<CellState>> = Vec::new();
        let mut y: usize = 0;
        while y < self.cells.len()
            invariant
                y <= self.cells.len(),
                cells@.len() == y,
                forall|k: int| 0 <= k < y ==> (#[trigger] cells@[k])@ == self.cells@[k]@,
            decreases self.cells.len() - y,
        {
            cells.push(copy_states(&self.cells[y]));
            y += 1;
        }
        let copy = Grid { width: self.width, height: self.height, cells };
        assert(copy@.rows =~= self@.rows);
        copy
    }
}

impl Grid {
    /// Builds a board of the stated size from rows of board text. The rows are
    /// taken as they are: the board is well formed exactly when there are
    /// `height` of them, each `width` long.
    pub fn from_chars(width: usize, height: usize, raw: Vec<Vec<char>>) -> (grid: Self)
        ensures
            grid@ == (GridView { width, height, rows: states_of_chars(raw@) }),
    {
        let mut cells: Vec<Vec<CellState>> = Vec::new();
        let mut y: usize = 0;
        while y < raw.len()
            invariant
                y <= raw.len(),
                cells@.len() == y,
                forall|k: int|
                    0 <= k < y ==> (#[trigger] cells@[k])@ == states_of_chars(raw@)[k],
            decreases raw.len() - y,
        {
            let row = &raw[y];
            let mut states: Vec<CellState> = Vec::new();
            let mut x: usize = 0;
            while x < row.len()
                invariant
                    x <= row.len(),
                    states@.len() == x,
                    forall|k: int|
                        0 <= k < x ==> #[trigger] states@[k] == CellState::of_char(row@[k]),
                decreases row.len() - x,
            {
                states.push(CellState::from(row[x]));
                x += 1;
            }
            assert(states@ =~= states_of_chars(raw@)[y as int]);
            cells.push(states);
            y += 1;
        }
        let grid = Grid { width, height, cells };
        assert(grid@.rows =~= states_of_chars(raw@));
        grid
    }

    /// Checks that the rows match the stated size.
    pub fn is_well_formed(&self) -> (ok: bool)
        ensures
            ok == self@.wf(),
    {
        if self.cells.len() != self.height {
            return false;
        }
        let mut y: usize = 0;
        while y < self.height
            invariant
                y <= self.height,
                self.cells@.len() == self.height,
                forall|k: int| 0 <= k < y ==> (#[trigger] self@.rows[k]).len() == self.width,
            decreases self.height - y,
        {
            if self.cells[y].len() != self.width {
                assert(self@.rows[y as int].len() != self.width);
                return false;
            }
            y += 1;
        }
        true
    }

    /// The state of the cell at `pos`, or nothing where `pos` is off the board.
    pub fn get(&self, pos: Position) -> (state: Option<CellState>)
        requires
            self@.wf(),
        ensures
            state == if self@.valid(pos) {
                Some(self@.cell(pos))
            } else {
                None::<CellState>
            },
    {
        if pos.x < self.width && pos.y < self.height {
            assert(self@.rows[pos.y as int].len() == self.width);
            Some(self.cells[pos.y][pos.x])
        } else {
            None
        }
    }

    /// Puts `state` into the cell at `pos` and reports whether `pos` lies on
    /// the board; off the board nothing changes.
    pub fn set(&mut self, pos: Position, state: CellState) -> (done: bool)
        requires
            old(self)@.wf(),
        ensures
            final(self)@.wf(),
            done == old(self)@.valid(pos),
            done ==> final(self)@ == old(self)@.with_cell(pos, state),
            !done ==> final(self)@ == old(self)@,
    {
        if pos.x < self.width && pos.y < self.height {
            assert(self@.rows[pos.y as int].len() == self.width);
            self.cells[pos.y][pos.x] = state;
            assert(self@.rows =~= old(self)@.with_cell(pos, state).rows);
            true
        } else {
            false
        }
    }

    /// Whether `pos` lies on the board.
    pub fn is_valid(&self, pos: Position) -> (ok: bool)
        ensures
            ok == self@.valid(pos),
    {
        pos.x < self.width && pos.y < self.height
    }

    /// The cells that `player_num` holds, last piece included, in row-major
    /// order. Players other than 1 and 2 hold nothing.
    pub fn get_player_positions(&self, player_num: u8) -> (positions: Vec<Position>)
        requires
            self@.wf(),
        ensures
            positions@ == self@.player_positions(player_num),
    {
        let ghost pred = self@.owned_pred(player_num);
        let mut positions: Vec<Position> = Vec::new();
        let mut y: usize = 0;
        while y < self.height
            invariant
                self@.wf(),
                y <= self.height,
                pred == self@.owned_pred(player_num),
                positions@ == rect_scan(self.width as nat, y as nat, pred),
            decreases self.height - y,
        {
            let ghost done = positions@;
            let mut x: usize = 0;
            while x < self.width
                invariant
                    self@.wf(),
                    y < self.height,
                    x <= self.width,
                    pred == self@.owned_pred(player_num),
                    positions@ == done + row_scan(y, x as nat, pred),
                decreases self.width - x,
            {
                assert(self@.rows[y as int].len() == self.width);
                let state = self.cells[y][x];
                if state.is_owned_by(player_num) {
                    positions.push(Position::new(x, y));
                }
                assert(positions@ =~= done + row_scan(y, (x + 1) as nat, pred));
                x += 1;
            }
            y += 1;
        }
        positions
    }

    /// The empty cells, in row-major order.
    pub fn get_empty_positions(&self) -> (positions: Vec<Position>)
        requires
            self@.wf(),
        ensures
            positions@ == self@.empty_positions(),
    {
        let ghost pred = self@.empty_pred();
        let mut positions: Vec<Position> = Vec::new();
        let mut y: usize = 0;
        while y < self.height
            invariant
                self@.wf(),
                y <= self.height,
                pred == self@.empty_pred(),
                positions@ == rect_scan(self.width as nat, y as nat, pred),
            decreases self.height - y,
        {
            let ghost done = positions@;
            let mut x: usize = 0;
            while x < self.width
                invariant
                    self@.wf(),
                    y < self.height,
                    x <= self.width,
                    pred == self@.empty_pred(),
                    positions@ == done + row_scan(y, x as nat, pred),
                decreases self.width - x,
            {
                assert(self@.rows[y as int].len() == self.width);
                let state = self.cells[y][x];
                if state == CellState::Empty {
                    positions.push(Position::new(x, y));
                }
                assert(positions@ =~= done + row_scan(y, (x + 1) as nat, pred));
                x += 1;
            }
            y += 1;
        }
        positions
    }

    /// How many cells `player_num` holds.
    pub fn count_territory(&self, player_num: u8) -> (count: usize)
        requires
            self@.wf(),
        ensures
            count == self@.player_positions(player_num).len(),
    {
        self.get_player_positions(player_num).len()
    }
}

/// A piece: a mask of `height` rows of `width` cells, `true` where the piece
/// is solid.
#[derive(Debug, PartialEq)]
pub struct Shape {
    pub width: usize,
    pub height: usize,
    pub cells: Vec<Vec<bool>>,
}

/// What a piece is: its stated size and the rows of its mask, top row first.
pub struct ShapeView {
    pub width: usize,
    pub height: usize,
    pub mask: Seq<Seq<bool>>,
}

impl View for Shape {
    type V = ShapeView;

    open spec fn view(&self) -> ShapeView {
        ShapeView {
            width: self.width,
            height: self.height,
            mask: Seq::new(self.cells@.len(), |y: int| self.cells@[y]@),
        }
    }
}

impl ShapeView {
    /// Whether the rows match the stated size: `height` rows of `width` cells.
    pub open spec fn wf(self) -> bool {
        &&& self.mask.len() == self.height
        &&& forall|y: int| 0 <= y < self.height ==> (#[trigger] self.mask[y]).len() == self.width
    }

    /// Whether the piece is solid at `p`, a cell of its own mask.
    pub open spec fn filled(self, p: Position) -> bool {
        self.mask[p.y as int][p.x as int]
    }

    /// The test for the piece being solid at a cell.
    pub open spec fn filled_pred(self) -> spec_fn(Position) -> bool {
        |p: Position| self.filled(p)
    }

    /// The solid cells, relative to the top left corner, in row-major order.
    pub open spec fn filled_positions(self) -> Seq<Position> {
        rect_scan(self.width as nat, self.height as nat, self.filled_pred())
    }

    /// Whether `bbox`, as left column, top row, width and height, is the
    /// smallest rectangle that holds every solid cell.
    pub open spec fn is_bounding_box(self, bbox: (usize, usize, usize, usize)) -> bool {
        let cells = self.filled_positions();
        let (left, top, across, down) = bbox;
        &&& forall|i: int|
            0 <= i < cells.len() ==> left <= (#[trigger] cells[i]).x < left + across && top
                <= cells[i].y < top + down
        &&& exists|i: int| 0 <= i < cells.len() && (#[trigger] cells[i]).x == left
        &&& exists|i: int| 0 <= i < cells.len() && (#[trigger] cells[i]).x + 1 == left + across
        &&& exists|i: int| 0 <= i < cells.len() && (#[trigger] cells[i]).y == top
        &&& exists|i: int| 0 <= i < cells.len() && (#[trigger] cells[i]).y + 1 == top + down
    }
}

/// The mask that rows of piece text stand for: every character but `.` is solid.
pub open spec fn mask_of_chars(raw: Seq<Vec<char>>) -> Seq<Seq<bool>> {
    Seq::new(raw.len(), |y: int| Seq::new(raw[y]@.len(), |x: int| raw[y]@[x] != '.'))
}

fn copy_mask_row(row: &Vec<bool>) -> (out: Vec<bool>)
    ensures
        out@ == row@,
{
    let mut out: Vec<bool> = Vec::new();
    let mut x: usize = 0;
    while x < row.len()
        invariant
            x <= row.len(),
            out@ == row@.take(x as int),
        decreases row.len() - x,
    {
        out.push(row[x]);
        assert(out@ =~= row@.take(x + 1));
        x += 1;
    }
    assert(row@.take(row@.len() as int) =~= row@);
    out
}

impl Clone for Shape {
    fn clone(&self) -> (copy: Self)
        ensures
            copy@ == self@,
    {
        let mut cells: Vec<Vec<bool>> = Vec::new();
        let mut y: usize = 0;
        while y < self.cells.len()
            invariant
                y <= self.cells.len(),
                cells@.len() == y,
                forall|k: int| 0 <= k < y ==> (#[trigger] cells@[k])@ == self.cells@[k]@,
            decreases self.cells.len() - y,
        {
            cells.push(copy_mask_row(&self.cells[y]));
            y += 1;
        }
        let copy = Shape { width: self.width, height: self.height, cells };
        assert(copy@.mask =~= self@.mask);
        copy
    }
}

impl Shape {
    /// Builds a piece of the stated size from rows of piece text. The rows are
    /// taken as they are: the piece is well formed exactly when there are
    /// `height` of them, each `width` long.
    pub fn from_chars(width: usize, height: usize, raw: Vec<Vec<char>>) -> (shape: Self)
        ensures
            shape@ == (ShapeView { width, height, mask: mask_of_chars(raw@) }),
    {
        let mut cells: Vec<Vec<bool>> = Vec::new();
        let mut y: usize = 0;
        while y < raw.len()
            invariant
                y <= raw.len(),
                cells@.len() == y,
                forall|k: int| 0 <= k < y ==> (#[trigger] cells@[k])@ == mask_of_chars(raw@)[k],
            decreases raw.len() - y,
        {
            let row = &raw[y];
            let mut mask: Vec<bool> = Vec::new();
            let mut x: usize = 0;
            while x < row.len()
                invariant
                    x <= row.len(),
                    mask@.len() == x,
                    forall|k: int| 0 <= k < x ==> #[trigger] mask@[k] == (row@[k] != '.'),
                decreases row.len() - x,
            {
                mask.push(row[x] != '.');
                x += 1;
            }
            assert(mask@ =~= mask_of_chars(raw@)[y as int]);
            cells.push(mask);
            y += 1;
        }
        let shape = Shape { width, height, cells };
        assert(shape@.mask =~= mask_of_chars(raw@));
        shape
    }

    /// Checks that the rows match the stated size.
    pub fn is_well_formed(&self) -> (ok: bool)
        ensures
            ok == self@.wf(),
    {
        if self.cells.len() != self.height {
            return false;
        }
        let mut y: usize = 0;
        while y < self.height
            invariant
                y <= self.height,
                self.cells@.len() == self.height,
                forall|k: int| 0 <= k < y ==> (#[trigger] self@.mask[k]).len() == self.width,
            decreases self.height - y,
        {
            if self.cells[y].len() != self.width {
                assert(self@.mask[y as int].len() != self.width);
                return false;
            }
            y += 1;
        }
        true
    }

    /// The solid cells, relative to the top left corner, in row-major order.
    pub fn get_filled_positions(&self) -> (positions: Vec<Position>)
        requires
            self@.wf(),
        ensures
            positions@ == self@.filled_positions(),
    {
        let ghost pred = self@.filled_pred();
        let mut positions: Vec<Position> = Vec::new();
        let mut y: usize = 0;
        while y < self.height
            invariant
                self@.wf(),
                y <= self.height,
                pred == self@.filled_pred(),
                positions@ == rect_scan(self.width as nat, y as nat, pred),
            decreases self.height - y,
        {
            let ghost done = positions@;
            let mut x: usize = 0;
            while x < self.width
                invariant
                    self@.wf(),
                    y < self.height,
                    x <= self.width,
                    pred == self@.filled_pred(),
                    positions@ == done + row_scan(y, x as nat, pred),
                decreases self.width - x,
            {
                assert(self@.mask[y as int].len() == self.width);
                if self.cells[y][x] {
                    positions.push(Position::new(x, y));
                }
                assert(positions@ =~= done + row_scan(y, (x + 1) as nat, pred));
                x += 1;
            }
            y += 1;
        }
        positions
    }

    /// Whether the piece has no solid cell.
    pub fn is_empty(&self) -> (empty: bool)
        requires
            self@.wf(),
        ensures
            empty == (self@.filled_positions().len() == 0),
    {
        self.get_filled_positions().len() == 0
    }

    /// The smallest rectangle that holds every solid cell, as left column, top
    /// row, width and height; nothing for a piece without solid cells.
    pub fn bounding_box(&self) -> (bbox: Option<(usize, usize, usize, usize)>)
        requires
            self@.wf(),
        ensures
            bbox is None <==> self@.filled_positions().len() == 0,
            bbox is Some ==> self@.is_bounding_box(bbox->0),
    {
        let positions = self.get_filled_positions();
        if positions.len() == 0 {
            return None;
        }
        proof {
            crate::scan::lemma_rect_scan_members(
                self.width as nat,
                self.height as nat,
                self@.filled_pred(),
            );
            assert(positions@.contains(positions@[0]));
        }
        let mut min_x: usize = positions[0].x;
        let mut max_x: usize = positions[0].x;
        let mut min_y: usize = positions[0].y;
        let mut max_y: usize = positions[0].y;
        let mut i: usize = 1;
        while i < positions.len()
            invariant
                1 <= i <= positions.len(),
                min_x <= max_x,
                min_y <= max_y,
                forall|k: int|
                    0 <= k < i ==> min_x <= (#[trigger] positions@[k]).x <= max_x && min_y
                        <= positions@[k].y <= max_y,
                exists|k: int| 0 <= k < i && (#[trigger] positions@[k]).x == min_x,
                exists|k: int| 0 <= k < i && (#[trigger] positions@[k]).x == max_x,
                exists|k: int| 0 <= k < i && (#[trigger] positions@[k]).y == min_y,
                exists|k: int| 0 <= k < i && (#[trigger] positions@[k]).y == max_y,
            decreases positions.len() - i,
        {
            let p = positions[i];
            let ghost a = choose|k: int| 0 <= k < i && (#[trigger] positions@[k]).x == min_x;
            let ghost b = choose|k: int| 0 <= k < i && (#[trigger] positions@[k]).x == max_x;
            let ghost c = choose|k: int| 0 <= k < i && (#[trigger] positions@[k]).y == min_y;
            let ghost d = choose|k: int| 0 <= k < i && (#[trigger] positions@[k]).y == max_y;
            if p.x < min_x {
                min_x = p.x;
            }
            if p.x > max_x {
                max_x = p.x;
            }
            if p.y < min_y {
                min_y = p.y;
            }
            if p.y > max_y {
                max_y = p.y;
            }
            i += 1;
            assert(positions@[if p.x == min_x { i - 1 } else { a }].x == min_x);
            assert(positions@[if p.x == max_x { i - 1 } else { b }].x == max_x);
            assert(positions@[if p.y == min_y { i - 1 } else { c }].y == min_y);
            assert(positions@[if p.y == max_y { i - 1 } else { d }].y == max_y);
        }
        proof {
            let k = choose|k: int| 0 <= k < i && (#[trigger] positions@[k]).x == max_x;
            assert(positions@.contains(positions@[k]));
            let k = choose|k: int| 0 <= k < i && (#[trigger] positions@[k]).y == max_y;
            assert(positions@.contains(positions@[k]));
        }
        Some((min_x, min_y, max_x - min_x + 1, max_y - min_y + 1))
    }
}

/// One turn's snapshot: who moves, the board, and the piece to place.
#[derive(Debug)]
pub struct GameState {
    pub player_number: u8,
    pub grid: Grid,
    pub current_piece: Shape,
}

/// What a turn's snapshot is: who moves, the board, and the piece.
pub struct GameStateView {
    pub player_number: u8,
    pub grid: GridView,
    pub piece: ShapeView,
}

impl View for GameState {
    type V = GameStateView;

    open spec fn view(&self) -> GameStateView {
        GameStateView {
            player_number: self.player_number,
            grid: self.grid@,
            piece: self.current_piece@,
        }
    }
}

impl GameStateView {
    /// Whether board and piece are well formed.
    pub open spec fn wf(self) -> bool {
        self.grid.wf() && self.piece.wf()
    }

    /// The number that stands for the other player: 2 for player 1, and 1
    /// otherwise.
    pub open spec fn opponent_number(self) -> u8 {
        if self.player_number == 1 {
            2
        } else {
            1
        }
    }
}

impl Clone for GameState {
    fn clone(&self) -> (copy: Self)
        ensures
            copy@ == self@,
    {
        GameState {
            player_number: self.player_number,
            grid: self.grid.clone(),
            current_piece: self.current_piece.clone(),
        }
    }
}

impl GameState {
    /// The snapshot of a turn in which `player_number` moves.
    pub fn new(player_number: u8, grid: Grid, current_piece: Shape) -> (state: Self)
        ensures
            state.player_number == player_number,
            state.grid == grid,
            state.current_piece == current_piece,
            state@ == (GameStateView { player_number, grid: grid@, piece: current_piece@ }),
    {
        GameState { player_number, grid, current_piece }
    }

    /// Checks that board and piece are well formed.
    pub fn is_well_formed(&self) -> (ok: bool)
        ensures
            ok == self@.wf(),
    {
        self.grid.is_well_formed() && self.current_piece.is_well_formed()
    }

    /// The cells of the acting player, in row-major order.
    pub fn get_my_positions(&self) -> (positions: Vec<Position>)
        requires
            self.grid@.wf(),
        ensures
            positions@ == self@.grid.player_positions(self.player_number),
    {
        self.grid.get_player_positions(self.player_number)
    }

    /// The cells of the other player, in row-major order.
    pub fn get_opponent_positions(&self) -> (positions: Vec<Position>)
        requires
            self.grid@.wf(),
        ensures
            positions@ == self@.grid.player_positions(self@.opponent_number()),
    {
        let opponent: u8 = if self.player_number == 1 {
            2
        } else {
            1
        };
        self.grid.get_player_positions(opponent)
    }

    /// How many cells the acting player holds.
    pub fn get_my_territory_size(&self) -> (count: usize)
        requires
            self.grid@.wf(),
        ensures
            count == self@.grid.player_positions(self.player_number).len(),
    {
        self.grid.count_territory(self.player_number)
    }

    /// How many cells the other player holds.
    pub fn get_opponent_territory_size(&self) -> (count: usize)
        requires
            self.grid@.wf(),
        ensures
            count == self@.grid.player_positions(self@.opponent_number()).len(),
    {
        let opponent: u8 = if self.player_number == 1 {
            2
        } else {
            1
        };
        self.grid.count_territory(opponent)
    }
}

} // verus!
