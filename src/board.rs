//! The board: two bits per cell packed into one word, and whose turn it is.
use vstd::prelude::*;

verus! {

/// One of the two symbols.
#[derive(PartialEq, Eq, Structural, Debug, Clone, Copy)]
pub enum Team {
    X,
    O,
}

/// The other symbol.
pub open spec fn other(t: Team) -> Team {
    match t {
        Team::X => Team::O,
        Team::O => Team::X,
    }
}

/// A cell, by column `x` and row `y`.
#[derive(PartialEq, Eq, Structural, Debug, Clone, Copy)]
pub struct BoardPosition {
    pub x: u8,
    pub y: u8,
}

impl BoardPosition {
    /// Both coordinates lie in `0..3`.
    pub open spec fn valid(self) -> bool {
        self.x < 3 && self.y < 3
    }

    /// The cell's index in row-major order.
    pub open spec fn index(self) -> int {
        self.y * 3 + self.x
    }
}

/// Whether `t` holds cells `a`, `b` and `c`.
pub open spec fn line_held(cells: Seq<Option<Team>>, t: Team, a: int, b: int, c: int) -> bool {
    cells[a] == Some(t) && cells[b] == Some(t) && cells[c] == Some(t)
}

/// Whether `t` holds row `k`.
spec fn row_held(cells: Seq<Option<Team>>, t: Team, k: int) -> bool {
    line_held(cells, t, 3 * k, 3 * k + 1, 3 * k + 2)
}

/// Whether `t` holds column `k`.
spec fn column_held(cells: Seq<Option<Team>>, t: Team, k: int) -> bool {
    line_held(cells, t, k, k + 3, k + 6)
}

/// Whether `t` holds one of the eight lines: three rows, three columns, two
/// diagonals.
pub open spec fn has_line(cells: Seq<Option<Team>>, t: Team) -> bool {
    ||| line_held(cells, t, 0, 1, 2)
    ||| line_held(cells, t, 3, 4, 5)
    ||| line_held(cells, t, 6, 7, 8)
    ||| line_held(cells, t, 0, 3, 6)
    ||| line_held(cells, t, 1, 4, 7)
    ||| line_held(cells, t, 2, 5, 8)
    ||| line_held(cells, t, 0, 4, 8)
    ||| line_held(cells, t, 2, 4, 6)
}

/// Whether every one of the nine cells is taken.
pub open spec fn all_taken(cells: Seq<Option<Team>>) -> bool {
    forall|i: int| 0 <= i < 9 ==> cells[i] is Some
}

/// Whether bit `2 * i` (cell `i` is taken) is set.
spec fn occupied_bit(data: u32, i: u32) -> bool {
    data & (1u32 << (2 * i)) != 0
}

/// Whether bit `2 * i + 1` (cell `i` holds `O`) is set.
spec fn owner_bit(data: u32, i: u32) -> bool {
    data & (1u32 << (2 * i + 1)) != 0
}

/// What a board holds: the nine cells in row-major order, and the symbol
/// whose turn it is.
pub struct BoardView {
    pub cells: Seq<Option<Team>>,
    pub player: Team,
}

/// `v` after the player to move puts its symbol into cell `i`.
pub open spec fn placed(v: BoardView, i: int) -> BoardView {
    BoardView { cells: v.cells.update(i, Some(v.player)), player: v.player }
}

/// `v` with the turn passed to the other symbol.
pub open spec fn switched(v: BoardView) -> BoardView {
    BoardView { cells: v.cells, player: other(v.player) }
}

/// Whether `a < b < c` are the cells of one of the eight lines.
pub open spec fn is_line(a: int, b: int, c: int) -> bool {
    ||| (a, b, c) == (0int, 1int, 2int)
    ||| (a, b, c) == (3int, 4int, 5int)
    ||| (a, b, c) == (6int, 7int, 8int)
    ||| (a, b, c) == (0int, 3int, 6int)
    ||| (a, b, c) == (1int, 4int, 7int)
    ||| (a, b, c) == (2int, 5int, 8int)
    ||| (a, b, c) == (0int, 4int, 8int)
    ||| (a, b, c) == (2int, 4int, 6int)
}

/// Nine cells of which `t` holds `a`, `b` and `c` and the rest are free.
pub open spec fn three_marks(a: int, b: int, c: int, t: Team) -> Seq<Option<Team>> {
    Seq::new(9, |i: int| if i == a || i == b || i == c { Some(t) } else { None })
}

/// A board is full exactly when no cell of it is free.
pub proof fn lemma_full_iff_no_free_cell(v: BoardView)
    ensures
        all_taken(v.cells) <==> forall|p: BoardPosition| #[trigger] p.valid() ==> !(v.cells[p.index()] is None),
{
    if forall|p: BoardPosition| #[trigger] p.valid() ==> !(v.cells[p.index()] is None) {
        assert forall|i: int| 0 <= i < 9 implies v.cells[i] is Some by {
            let p = BoardPosition { x: (i % 3) as u8, y: (i / 3) as u8 };
            assert(p.valid());
        }
    }
}

/// After a placement the cell is taken, by the symbol that was to move.
pub proof fn lemma_placed_cell_read(v: BoardView, p: BoardPosition)
    requires
        v.cells.len() == 9,
        p.valid(),
    ensures
        !(placed(v, p.index()).cells[p.index()] is None),
        placed(v, p.index()).cells[p.index()] == Some(v.player),
{
}

/// Passing the turn twice gives the board back.
pub proof fn lemma_switch_twice(v: BoardView)
    ensures
        switched(switched(v)) == v,
{
}

/// With three symbols of one side on an otherwise free board, that side has a
/// line exactly when the three cells are one of the eight lines.
pub proof fn lemma_three_marks_line(a: int, b: int, c: int, t: Team)
    requires
        0 <= a < b < c < 9,
    ensures
        has_line(three_marks(a, b, c, t), t) <==> is_line(a, b, c),
{
}

/// The board. Cell `i` (row-major) owns bits `2 * i` (taken) and `2 * i + 1`
/// (taken by `O`); the bits above the eighteenth are zero.
#[derive(Debug, Clone, Copy)]
pub struct Board {
    data: u32,
    pub current_player: Team,
}

impl Board {
    /// Only the eighteen cell bits are used, and an owner bit is set only
    /// on a taken cell.
    pub closed spec fn wf(self) -> bool {
        &&& self.data < 0x40000
        &&& forall|i: u32| i < 9 ==> owner_bit(self.data, i) ==> occupied_bit(self.data, i)
    }

    /// What cell `i` holds.
    pub closed spec fn cell(self, i: int) -> Option<Team> {
        if !occupied_bit(self.data, i as u32) {
            None
        } else if owner_bit(self.data, i as u32) {
            Some(Team::O)
        } else {
            Some(Team::X)
        }
    }

    /// The nine cells in row-major order.
    pub closed spec fn cells(self) -> Seq<Option<Team>> {
        Seq::new(9, |i: int| self.cell(i))
    }

    /// An empty board with `X` to move.
    pub fn new() -> (r: Board)
        ensures
            r.wf(),
            r@.cells == Seq::new(9, |i: int| None::<Team>),
            r@.player == Team::X,
    {
        let r = Board { data: 0, current_player: Team::X };
        proof {
            assert forall|i: u32| i < 9 implies !occupied_bit(0, i) && !owner_bit(0, i) by {
                assert(0u32 & (1u32 << (2 * i)) == 0) by (bit_vector);
                assert(0u32 & (1u32 << (2 * i + 1)) == 0) by (bit_vector);
            }
            assert(r@.cells =~= Seq::new(9, |i: int| None::<Team>));
        }
        r
    }

    /// The bit that marks the cell taken.
    fn get_is_occupied_mask(pos: &BoardPosition) -> (r: u32)
        requires
            pos.valid(),
        ensures
            r == 1u32 << (2 * (pos.index() as u32)),
    {
        1 << ((pos.y as u32 * 3 + pos.x as u32) * 2)
    }

    /// The bit that marks the cell taken by `O`.
    fn get_team_state_mask(pos: &BoardPosition) -> (r: u32)
        requires
            pos.valid(),
        ensures
            r == 1u32 << (2 * (pos.index() as u32) + 1),
    {
        1 << (((pos.y as u32 * 3 + pos.x as u32) * 2) + 1)
    }

    /// A board always has nine cells.
    pub proof fn lemma_nine_cells(self)
        ensures
            self@.cells.len() == 9,
    {
    }

    /// Cell `i` holds `t` exactly when its bits say so.
    proof fn lemma_cell_bits(self, i: u32, t: Team)
        requires
            i < 9,
        ensures
            (self@.cells[i as int] == Some(t)) == held_bits(self.data, i, t == Team::O),
    {
    }

    /// Whether the player to move holds one of the eight lines.
    pub fn evaluate(&self) -> (r: bool)
        requires
            self.wf(),
        ensures
            r == has_line(self@.cells, self@.player),
    {
        let ghost cells = self@.cells;
        let ghost t = self@.player;
        let ghost o = t == Team::O;
        // Rows.
        let mut y: u32 = 0;
        while y < 3
            invariant
                y <= 3,
                cells == self@.cells,
                t == self@.player,
                o == (t == Team::O),
                forall|k: int| 0 <= k < y ==> !#[trigger] row_held(cells, t, k),
            decreases 3 - y,
        {
            let full_row_mask: u32 = 0b111111 << (y * 6);
            let comp_mask: u32 = match self.current_player {
                Team::X => 0b010101 << (y * 6),
                Team::O => 0b111111 << (y * 6),
            };
            proof {
                lemma_row_mask(self.data, y);
                self.lemma_cell_bits((3 * y) as u32, t);
                self.lemma_cell_bits((3 * y + 1) as u32, t);
                self.lemma_cell_bits((3 * y + 2) as u32, t);
            }
            if (self.data & full_row_mask) == comp_mask {
                return true;
            }
            assert(!row_held(cells, t, y as int));
            y = y + 1;
        }
        // Columns.
        let mut x: u32 = 0;
        while x < 3
            invariant
                x <= 3,
                cells == self@.cells,
                t == self@.player,
                o == (t == Team::O),
                forall|k: int| 0 <= k < 3 ==> !#[trigger] row_held(cells, t, k),
                forall|k: int| 0 <= k < x ==> !#[trigger] column_held(cells, t, k),
            decreases 3 - x,
        {
            let full_col_mask: u32 = 0b11000011000011 << (x * 2);
            let comp_mask: u32 = match self.current_player {
                Team::X => 0b01000001000001 << (x * 2),
                Team::O => 0b11000011000011 << (x * 2),
            };
            proof {
                lemma_column_mask(self.data, x);
                self.lemma_cell_bits(x, t);
                self.lemma_cell_bits((x + 3) as u32, t);
                self.lemma_cell_bits((x + 6) as u32, t);
            }
            if (self.data & full_col_mask) == comp_mask {
                return true;
            }
            assert(!column_held(cells, t, x as int));
            x = x + 1;
        }
        proof {
            lemma_diagonal_masks(self.data);
            self.lemma_cell_bits(0, t);
            self.lemma_cell_bits(2, t);
            self.lemma_cell_bits(4, t);
            self.lemma_cell_bits(6, t);
            self.lemma_cell_bits(8, t);
            assert(!row_held(cells, t, 0) && !row_held(cells, t, 1) && !row_held(cells, t, 2));
            assert(!column_held(cells, t, 0) && !column_held(cells, t, 1) && !column_held(
                cells,
                t,
                2,
            ));
        }
        // The falling diagonal.
        let full_did_mask: u32 = 0b110000001100000011;
        let comp_mask: u32 = match self.current_player {
            Team::X => 0b010000000100000001,
            Team::O => 0b110000001100000011,
        };
        if (self.data & full_did_mask) == comp_mask {
            return true;
        }
        // The rising diagonal.
        let full_diu_mask: u32 = 0b11001100110000;
        let comp_mask: u32 = match self.current_player {
            Team::X => 0b01000100010000,
            Team::O => 0b11001100110000,
        };
        if (self.data & full_diu_mask) == comp_mask {
            return true;
        }
        false
    }

    /// Whether every cell is taken, by one mask comparison.
    pub fn is_full(&self) -> (r: bool)
        requires
            self.wf(),
        ensures
            r == all_taken(self@.cells),
    {
        proof {
            lemma_full_mask(self.data);
            if !all_taken(self@.cells) {
                let i = choose|i: int| 0 <= i < 9 && !(self@.cells[i] is Some);
                assert(self.cell(i) is None);
            } else {
                assert(self@.cells[0] is Some && self@.cells[1] is Some && self@.cells[2] is Some);
                assert(self@.cells[3] is Some && self@.cells[4] is Some && self@.cells[5] is Some);
                assert(self@.cells[6] is Some && self@.cells[7] is Some && self@.cells[8] is Some);
            }
        }
        (self.data & 0b010101010101010101) == 0b010101010101010101
    }

    /// Whether the cell is free.
    pub fn is_cell_empty(&self, pos: BoardPosition) -> (r: bool)
        requires
            self.wf(),
            pos.valid(),
        ensures
            r == (self@.cells[pos.index()] is None),
    {
        (self.data & Board::get_is_occupied_mask(&pos)) == 0
    }

    /// The symbol in the cell, if any.
    pub fn get_cell(&self, pos: BoardPosition) -> (r: Option<Team>)
        requires
            self.wf(),
            pos.valid(),
        ensures
            r == self@.cells[pos.index()],
    {
        if !self.is_cell_empty(pos) {
            if (self.data & Board::get_team_state_mask(&pos)) != 0 {
                return Some(Team::O);
            } else {
                return Some(Team::X);
            }
        }
        None
    }

    /// Puts the symbol of the player to move into a free cell; the turn
    /// does not pass.
    pub fn set_cell(&mut self, pos: BoardPosition)
        requires
            old(self).wf(),
            pos.valid(),
            old(self)@.cells[pos.index()] is None,
        ensures
            final(self).wf(),
            final(self)@ == placed(old(self)@, pos.index()),
    {
        let ghost d0 = self.data;
        let ghost i = pos.index() as u32;
        self.data = self.data | Board::get_is_occupied_mask(&pos);
        let ghost d1 = self.data;
        proof {
            assert forall|j: u32| j < 9 implies occupied_bit(d1, j) == (j == i || occupied_bit(
                d0,
                j,
            )) && owner_bit(d1, j) == owner_bit(d0, j) by {
                lemma_set_occupied(d0, i, j);
            }
            lemma_set_occupied(d0, i, 0);
        }
        if self.current_player == Team::O {
            self.data = self.data | Board::get_team_state_mask(&pos);
            proof {
                let d2 = self.data;
                assert forall|j: u32| j < 9 implies occupied_bit(d2, j) == occupied_bit(d1, j)
                    && owner_bit(d2, j) == (j == i || owner_bit(d1, j)) by {
                    lemma_set_owner(d1, i, j);
                }
                lemma_set_owner(d1, i, 0);
            }
        }
        proof {
            assert(self@.cells =~= old(self)@.cells.update(pos.index(), Some(old(self)@.player)));
        }
    }

    /// Passes the turn to the other symbol.
    pub fn swap_players(&mut self)
        requires
            old(self).wf(),
        ensures
            final(self).wf(),
            final(self)@ == switched(old(self)@),
    {
        if self.current_player == Team::X {
            self.current_player = Team::O;
        } else {
            self.current_player = Team::X;
        }
        assert(self@.cells =~= old(self)@.cells);
    }
}

/// Whether cell `i` is taken, by `O` when `o` and by `X` otherwise.
spec fn held_bits(data: u32, i: u32, o: bool) -> bool {
    occupied_bit(data, i) && owner_bit(data, i) == o
}

/// Row `y` as one masked comparison.
proof fn lemma_row_mask(d: u32, y: u32)
    by (bit_vector)
    requires
        y < 3,
    ensures
        ((d & (0x3fu32 << (6 * y))) == (0x15u32 << (6 * y))) == (held_bits(d, (3 * y) as u32, false)
            && held_bits(d, (3 * y + 1) as u32, false) && held_bits(d, (3 * y + 2) as u32, false)),
        ((d & (0x3fu32 << (6 * y))) == (0x3fu32 << (6 * y))) == (held_bits(d, (3 * y) as u32, true)
            && held_bits(d, (3 * y + 1) as u32, true) && held_bits(d, (3 * y + 2) as u32, true)),
{
}

/// Column `x` as one masked comparison.
proof fn lemma_column_mask(d: u32, x: u32)
    by (bit_vector)
    requires
        x < 3,
    ensures
        ((d & (0x30c3u32 << (2 * x))) == (0x1041u32 << (2 * x))) == (held_bits(d, x, false)
            && held_bits(d, (x + 3) as u32, false) && held_bits(d, (x + 6) as u32, false)),
        ((d & (0x30c3u32 << (2 * x))) == (0x30c3u32 << (2 * x))) == (held_bits(d, x, true)
            && held_bits(d, (x + 3) as u32, true) && held_bits(d, (x + 6) as u32, true)),
{
}

/// The two diagonals as masked comparisons.
proof fn lemma_diagonal_masks(d: u32)
    by (bit_vector)
    ensures
        ((d & 0x30303u32) == 0x10101u32) == (held_bits(d, 0, false) && held_bits(d, 4, false)
            && held_bits(d, 8, false)),
        ((d & 0x30303u32) == 0x30303u32) == (held_bits(d, 0, true) && held_bits(d, 4, true)
            && held_bits(d, 8, true)),
        ((d & 0x3330u32) == 0x1110u32) == (held_bits(d, 2, false) && held_bits(d, 4, false)
            && held_bits(d, 6, false)),
        ((d & 0x3330u32) == 0x3330u32) == (held_bits(d, 2, true) && held_bits(d, 4, true)
            && held_bits(d, 6, true)),
{
}

/// Setting the taken bit of cell `i` changes cell `i` alone.
proof fn lemma_set_occupied(d: u32, i: u32, j: u32)
    by (bit_vector)
    requires
        d < 0x40000,
        i < 9,
        j < 9,
    ensures
        (d | (1u32 << (2 * i))) < 0x40000,
        occupied_bit(d | (1u32 << (2 * i)), j) == (j == i || occupied_bit(d, j)),
        owner_bit(d | (1u32 << (2 * i)), j) == owner_bit(d, j),
{
}

/// Setting the owner bit of cell `i` changes cell `i` alone.
proof fn lemma_set_owner(d: u32, i: u32, j: u32)
    by (bit_vector)
    requires
        d < 0x40000,
        i < 9,
        j < 9,
    ensures
        (d | (1u32 << (2 * i + 1))) < 0x40000,
        occupied_bit(d | (1u32 << (2 * i + 1)), j) == occupied_bit(d, j),
        owner_bit(d | (1u32 << (2 * i + 1)), j) == (j == i || owner_bit(d, j)),
{
}

/// The mask of taken bits is all set exactly when every cell is taken.
proof fn lemma_full_mask(d: u32)
    by (bit_vector)
    ensures
        (d & 0x15555u32 == 0x15555u32) == (occupied_bit(d, 0) && occupied_bit(d, 1)
            && occupied_bit(d, 2) && occupied_bit(d, 3) && occupied_bit(d, 4) && occupied_bit(
            d,
            5,
        ) && occupied_bit(d, 6) && occupied_bit(d, 7) && occupied_bit(d, 8)),
{
}

impl View for Board {
    type V = BoardView;

    closed spec fn view(&self) -> BoardView {
        BoardView { cells: self.cells(), player: self.current_player }
    }
}

} // verus!
