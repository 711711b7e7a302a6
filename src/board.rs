//! The board of a chain reaction game and its move / explosion state machine.
use crate::cell::{critical_mass, lemma_neighbors_count, neighbors, Cell};
pub use crate::errors::MoveError;
use vstd::prelude::*;

verus! {

/// Board can be in any one of the states
#[derive(Debug, PartialEq)]
pub enum BoardState {
    /// When board is waiting for player input
    Wait,
    /// When board has explosion. The exploded location are stored.
    Explosion(Vec<(usize, usize)>),
    /// When board is checking if there is winner
    CheckWinCondition,
    /// When board has winner. The Player id is stored.
    GameOver(u8),
}

/// What a cell shows to a renderer.
#[derive(Clone, Debug, PartialEq)]
pub enum CellState {
    /// The cell is exploding in the current wave; it holds this many atoms.
    Explosion(u8),
    /// Cell is non empty. Stores owner id and atoms in it.
    NonEmpty(u8, u8),
    /// Cell is Empty.
    Empty,
}

/// The mathematical model of a [`Board`].
pub struct BoardModel {
    /// Number of rows.
    pub rows: usize,
    /// Number of columns.
    pub cols: usize,
    /// The cells, row by row.
    pub grid: Seq<Seq<Cell>>,
    /// The player whose turn it is, or who made the move being resolved.
    pub current: u8,
    /// For each player, whether they are still in the game.
    pub alive: Seq<bool>,
    /// Where the board stands in its move / explosion cycle.
    pub phase: BoardState,
}

impl BoardModel {
    /// The same board in another phase.
    pub open spec fn update_phase(self, phase: BoardState) -> BoardModel {
        BoardModel { phase, ..self }
    }

    /// Whether (`r`, `c`) lies on the board.
    pub open spec fn in_bounds(&self, r: int, c: int) -> bool {
        0 <= r < self.rows && 0 <= c < self.cols
    }

    /// The critical mass of the cell at (`r`, `c`).
    pub open spec fn cm(&self, r: int, c: int) -> int {
        critical_mass(r, c, self.rows as int, self.cols as int)
    }

    /// Whether `p` owns at least one cell.
    pub open spec fn owns_cell(&self, p: int) -> bool {
        exists|r: int, c: int| self.in_bounds(r, c) && #[trigger] self.grid[r][c].owner == Some(p as u8)
    }

    /// Whether `p` owns a cell that comes before (`r`, `c`) in row-major order.
    pub open spec fn owns_cell_before(&self, p: int, r: int, c: int) -> bool {
        exists|i: int, j: int|
            self.in_bounds(i, j) && (i < r || (i == r && j < c)) && #[trigger] self.grid[i][j].owner == Some(p as u8)
    }

    /// Which players own a cell.
    pub open spec fn owners(&self) -> Seq<bool> {
        Seq::new(self.alive.len(), |p: int| self.owns_cell(p))
    }

    /// The shape of the grid and what each cell holds are sound.
    pub open spec fn grid_wf(&self) -> bool {
        &&& self.rows >= 3
        &&& self.cols >= 3
        &&& 2 <= self.alive.len() <= u8::MAX
        &&& self.current < self.alive.len()
        &&& self.grid.len() == self.rows
        &&& forall|r: int| 0 <= r < self.rows ==> #[trigger] self.grid[r].len() == self.cols
        &&& forall|r: int, c: int| #![trigger self.grid[r][c]] self.in_bounds(r, c) ==> {
            &&& self.grid[r][c].wf()
            &&& self.grid[r][c].atoms < self.cm(r, c)
            &&& (self.grid[r][c].owner matches Some(o) ==> o < self.alive.len())
        }
    }

    /// The invariant of the board: a sound grid, and a phase that fits it.
    pub open spec fn wf(&self) -> bool {
        &&& self.grid_wf()
        &&& match self.phase {
            BoardState::Wait => self.alive[self.current as int],
            BoardState::Explosion(pending) => {
                &&& pending@.len() > 0
                &&& pending@.no_duplicates()
                &&& forall|i: int| 0 <= i < pending@.len() ==> self.in_bounds(#[trigger] pending@[i].0 as int, pending@[i].1 as int)
            },
            BoardState::CheckWinCondition => self.owns_cell(self.current as int),
            BoardState::GameOver(w) => w < self.alive.len(),
        }
    }
}

/// Whether index `j` comes strictly after `p` and strictly before `q` when the
/// players are walked forward in a circle starting after `p`.
pub open spec fn strictly_between(p: int, j: int, q: int) -> bool {
    if p < q {
        p < j < q
    } else {
        j > p || j < q
    }
}

/// Whether `q` is the first player still in the game after `p`, walking
/// forward in a circle (`q == p` when `p` is the only one left).
pub open spec fn is_next_alive(alive: Seq<bool>, p: int, q: int) -> bool {
    &&& 0 <= q < alive.len()
    &&& alive[q]
    &&& forall|j: int| 0 <= j < alive.len() && strictly_between(p, j, q) ==> !#[trigger] alive[j]
}

/// The error that a move of `player` on (`row`, `col`) meets, if any; they are
/// tested in this order.
pub open spec fn move_error(m: BoardModel, player: u8, row: usize, col: usize) -> Option<MoveError> {
    if m.phase is GameOver {
        Some(MoveError::GameOver)
    } else if !(m.phase is Wait) {
        Some(MoveError::MoveNotComplete)
    } else if player != m.current {
        Some(MoveError::NotCurrentPlayerMove)
    } else if row >= m.rows || col >= m.cols {
        Some(MoveError::MoveOutsideBoard)
    } else if m.grid[row as int][col as int].owner matches Some(o) && o != player {
        Some(MoveError::OtherPlayersCell)
    } else {
        None
    }
}

/// The cells that receive an atom when every cell of `pending` explodes, in
/// order: the neighbours of the first pending cell, then of the second, ...
pub open spec fn wave_targets(pending: Seq<(usize, usize)>, rows: usize, cols: usize) -> Seq<(usize, usize)>
    decreases pending.len(),
{
    if pending.len() == 0 {
        Seq::empty()
    } else {
        wave_targets(pending.drop_last(), rows, cols) + neighbors(pending.last().0, pending.last().1, rows, cols)
    }
}

/// The grid after `player` adds one atom to each cell of `targets` in turn,
/// and the cells that exploded on the way, each listed once, in the order of
/// their first explosion.
pub open spec fn deliver(
    grid: Seq<Seq<Cell>>,
    targets: Seq<(usize, usize)>,
    player: u8,
    rows: usize,
    cols: usize,
) -> (Seq<Seq<Cell>>, Seq<(usize, usize)>)
    decreases targets.len(),
{
    if targets.len() == 0 {
        (grid, Seq::empty())
    } else {
        let (g, q) = deliver(grid, targets.drop_last(), player, rows, cols);
        let t = targets.last();
        let cm = critical_mass(t.0 as int, t.1 as int, rows as int, cols as int);
        let c = g[t.0 as int][t.1 as int];
        let g2 = g.update(t.0 as int, g[t.0 as int].update(t.1 as int, c.added(1, player, cm)));
        let q2 = if c.triggers(1, cm) && !q.contains(t) {
            q.push(t)
        } else {
            q
        };
        (g2, q2)
    }
}

/// Whether `w` is the one player left in the game.
pub open spec fn sole_alive(alive: Seq<bool>, w: int) -> bool {
    &&& 0 <= w < alive.len()
    &&& alive[w]
    &&& forall|j: int| 0 <= j < alive.len() && j != w ==> !#[trigger] alive[j]
}

/// Whether (`r`, `c`) is among the cells exploding in the current wave.
pub open spec fn is_exploding(m: BoardModel, r: int, c: int) -> bool {
    match m.phase {
        BoardState::Explosion(pending) => pending@.contains((r as usize, c as usize)),
        _ => false,
    }
}

/// What the cell at (`r`, `c`) shows.
pub open spec fn cell_state(m: BoardModel, r: int, c: int) -> CellState {
    let cell = m.grid[r][c];
    if is_exploding(m, r, c) {
        CellState::Explosion(cell.atoms)
    } else {
        match cell.owner {
            Some(o) => CellState::NonEmpty(o, cell.atoms),
            None => CellState::Empty,
        }
    }
}

/// On a sound board every cell is empty exactly when it has no owner; every
/// operation of [`Board`] keeps the board sound.
pub proof fn lemma_empty_iff_unowned(m: BoardModel, r: int, c: int)
    requires
        m.wf(),
        m.in_bounds(r, c),
    ensures
        m.grid[r][c].atoms == 0 <==> m.grid[r][c].owner is None,
{
}

/// The player who moves next is determined: at most one player is the first
/// one still in the game after `p`.
pub proof fn lemma_next_alive_unique(alive: Seq<bool>, p: int, q1: int, q2: int)
    requires
        0 <= p < alive.len(),
        is_next_alive(alive, p, q1),
        is_next_alive(alive, p, q2),
    ensures
        q1 == q2,
{
    if q1 != q2 {
        if strictly_between(p, q1, q2) {
            assert(!alive[q1]);
        } else {
            assert(strictly_between(p, q2, q1));
            assert(!alive[q2]);
        }
    }
}

/// While explosions are being resolved, or the winner checked, every move of
/// every player is refused as incomplete.
pub proof fn lemma_single_active_explosion(m: BoardModel, player: u8, row: usize, col: usize)
    requires
        m.phase is Explosion || m.phase is CheckWinCondition,
    ensures
        move_error(m, player, row, col) == Some(MoveError::MoveNotComplete),
{
}

/// A chain reaction board: the grid of cells, whose turn it is, which players
/// are still in the game, and the phase of the move / explosion cycle.
pub struct Board {
    cells: Vec<Vec<Cell>>,
    rows: usize,
    cols: usize,
    cur_player: u8,
    players: Vec<bool>,
    state: BoardState,
}

impl View for Board {
    type V = BoardModel;

    closed spec fn view(&self) -> BoardModel {
        BoardModel {
            rows: self.rows,
            cols: self.cols,
            grid: self.cells@.map_values(|row: Vec<Cell>| row@),
            current: self.cur_player,
            alive: self.players@,
            phase: self.state,
        }
    }
}

impl Board {
    /// The invariant that every operation of the board keeps.
    pub open spec fn wf(&self) -> bool {
        self@.wf()
    }

    /// The state of every cell, row by row: exploding in the current wave,
    /// owned with its atoms, or empty.
    pub fn cells(&self) -> (r: Vec<Vec<CellState>>)
        requires
            self.wf(),
        ensures
            r@.len() == self@.rows,
            forall|i: int| 0 <= i < self@.rows ==> (#[trigger] r@[i])@.len() == self@.cols,
            forall|i: int, j: int| self@.in_bounds(i, j) ==> #[trigger] r@[i]@[j] == cell_state(self@, i, j),
    {
        let no_explosion: Vec<(usize, usize)> = Vec::new();
        let explosion: &Vec<(usize, usize)> = match &self.state {
            BoardState::Explosion(pending) => pending,
            _ => &no_explosion,
        };
        proof {
            assert forall|i: int, j: int| self@.in_bounds(i, j) implies
                #[trigger] is_exploding(self@, i, j) == explosion@.contains((i as usize, j as usize)) by {
                if !(self@.phase is Explosion) {
                    assert(!explosion@.contains((i as usize, j as usize)));
                }
            }
        }
        let mut out: Vec<Vec<CellState>> = Vec::new();
        let mut r: usize = 0;
        while r < self.rows
            invariant
                self.wf(),
                r <= self@.rows,
                out@.len() == r,
                forall|i: int, j: int| self@.in_bounds(i, j) ==> #[trigger] is_exploding(self@, i, j) == explosion@.contains((i as usize, j as usize)),
                forall|i: int| 0 <= i < r ==> (#[trigger] out@[i])@.len() == self@.cols,
                forall|i: int, j: int| 0 <= i < r && 0 <= j < self@.cols ==> #[trigger] out@[i]@[j] == cell_state(self@, i, j),
            decreases self@.rows - r,
        {
            let mut row: Vec<CellState> = Vec::new();
            let mut c: usize = 0;
            while c < self.cols
                invariant
                    self.wf(),
                    r < self@.rows,
                    c <= self@.cols,
                    row@.len() == c,
                    forall|i: int, j: int| self@.in_bounds(i, j) ==> #[trigger] is_exploding(self@, i, j) == explosion@.contains((i as usize, j as usize)),
                    forall|j: int| 0 <= j < c ==> #[trigger] row@[j] == cell_state(self@, r as int, j),
                decreases self@.cols - c,
            {
                let cell = self.cells[r][c];
                proof {
                    assert(cell == self@.grid[r as int][c as int]);
                    assert(is_exploding(self@, r as int, c as int) == explosion@.contains((r, c)));
                }
                let shown = if contains_coord(explosion, (r, c)) {
                    CellState::Explosion(cell.atoms)
                } else if let Some(owner_id) = cell.owner {
                    CellState::NonEmpty(owner_id, cell.atoms)
                } else {
                    CellState::Empty
                };
                row.push(shown);
                c += 1;
            }
            out.push(row);
            r += 1;
        }
        out
    }

    /// Provides current player id
    pub fn current_player_id(&self) -> (r: u8)
        ensures
            r == self@.current,
    {
        self.cur_player
    }

    /// Provides current Board state
    pub fn state(&self) -> (r: &BoardState)
        ensures
            *r == self@.phase,
    {
        &self.state
    }

    /// A `rows` x `cols` board of empty cells for `players` players, all in
    /// the game, player 0 to move.
    pub fn new(rows: usize, cols: usize, players: u8) -> (b: Self)
        requires
            rows >= 3,
            cols >= 3,
            players >= 2,
        ensures
            b.wf(),
            b@.rows == rows,
            b@.cols == cols,
            forall|r: int, c: int| b@.in_bounds(r, c) ==> #[trigger] b@.grid[r][c] == (Cell { owner: None, atoms: 0 }),
            b@.current == 0,
            b@.alive == Seq::new(players as nat, |i: int| true),
            b@.phase == BoardState::Wait,
    {
        let mut cells: Vec<Vec<Cell>> = Vec::new();
        let mut r: usize = 0;
        while r < rows
            invariant
                r <= rows,
                cells@.len() == r,
                forall|i: int, j: int| 0 <= i < r && 0 <= j < cols ==> #[trigger] cells@[i]@[j] == (Cell { owner: None, atoms: 0 }),
                forall|i: int| 0 <= i < r ==> #[trigger] cells@[i]@.len() == cols,
            decreases rows - r,
        {
            let mut row: Vec<Cell> = Vec::new();
            let mut c: usize = 0;
            while c < cols
                invariant
                    c <= cols,
                    row@.len() == c,
                    forall|j: int| 0 <= j < c ==> #[trigger] row@[j] == (Cell { owner: None, atoms: 0 }),
                decreases cols - c,
            {
                row.push(Cell { owner: None, atoms: 0 });
                c += 1;
            }
            cells.push(row);
            r += 1;
        }
        let mut alive: Vec<bool> = Vec::new();
        let mut p: u8 = 0;
        while p < players
            invariant
                p <= players,
                alive@.len() == p,
                forall|i: int| 0 <= i < p ==> #[trigger] alive@[i],
            decreases players - p,
        {
            alive.push(true);
            p += 1;
        }
        let b = Board { state: BoardState::Wait, cur_player: 0, rows, cols, cells, players: alive };
        assert(b@.alive =~= Seq::new(players as nat, |i: int| true));
        b
    }

    /// Player `player` puts one atom on (`row`, `col`). Refused, with the
    /// board unchanged, as `move_error` says. Otherwise the player takes the
    /// cell; if it reaches its critical mass the board starts exploding from
    /// it, else the turn passes to the next player still in the game.
    pub fn player_move(&mut self, player: u8, row: usize, col: usize) -> (r: Result<(), MoveError>)
        requires
            old(self).wf(),
        ensures
            final(self).wf(),
            r == match move_error(old(self)@, player, row, col) {
                Some(e) => Err(e),
                None => Ok(()),
            },
            r is Err ==> final(self)@ == old(self)@,
            r is Ok ==> {
                let m = old(self)@;
                let cm = m.cm(row as int, col as int);
                let c = m.grid[row as int][col as int];
                &&& final(self)@.grid == m.grid.update(row as int, m.grid[row as int].update(col as int, c.added(1, player, cm)))
                &&& final(self)@.alive == m.alive
                &&& final(self)@.rows == m.rows
                &&& final(self)@.cols == m.cols
                &&& c.triggers(1, cm) ==> {
                    &&& final(self)@.current == player
                    &&& final(self)@.phase matches BoardState::Explosion(p) && p@ == seq![(row, col)]
                }
                &&& !c.triggers(1, cm) ==> {
                    &&& is_next_alive(m.alive, player as int, final(self)@.current as int)
                    &&& final(self)@.phase == BoardState::Wait
                }
            },
    {
        if matches!(self.state, BoardState::GameOver(_)) {
            Err(MoveError::GameOver)
        } else if !matches!(self.state, BoardState::Wait) {
            Err(MoveError::MoveNotComplete)
        } else if self.cur_player != player {
            Err(MoveError::NotCurrentPlayerMove)
        } else if row >= self.rows || col >= self.cols {
            Err(MoveError::MoveOutsideBoard)
        } else {
            if let Some(cell_player) = self.cells[row][col].owner {
                if cell_player != player {
                    return Err(MoveError::OtherPlayersCell);
                }
            }
            let ghost m = self@;
            assert(m.grid[row as int][col as int] == self.cells@[row as int]@[col as int]);
            let rows = self.rows;
            let cols = self.cols;
            let exploded = self.cells[row][col].add_atom(1, player, row, col, rows, cols);
            proof {
                assert(self@.grid =~= m.grid.update(row as int, m.grid[row as int].update(col as int, self.cells@[row as int]@[col as int])));
            }
            if exploded {
                self.state = BoardState::Explosion(vec![(row, col)]);
            } else {
                self.next_player();
            }
            Ok(())
        }
    }

    /// Every cell of `pending` gives one atom of the current player to each
    /// of its neighbours; returns the cells that exploded in turn.
    fn explode_wave(&mut self, pending: &Vec<(usize, usize)>) -> (next: Vec<(usize, usize)>)
        requires
            old(self)@.grid_wf(),
            forall|i: int| 0 <= i < pending@.len() ==> old(self)@.in_bounds(#[trigger] pending@[i].0 as int, pending@[i].1 as int),
        ensures
            final(self)@.grid_wf(),
            (final(self)@.grid, next@) == deliver(old(self)@.grid, wave_targets(pending@, old(self)@.rows, old(self)@.cols), old(self)@.current, old(self)@.rows, old(self)@.cols),
            final(self)@ == (BoardModel { grid: final(self)@.grid, ..old(self)@ }),
            pending@.len() > 0 && next@.len() == 0 ==> final(self)@.owns_cell(old(self)@.current as int),
            forall|k: int| 0 <= k < next@.len() ==> old(self)@.in_bounds(#[trigger] next@[k].0 as int, next@[k].1 as int),
            next@.no_duplicates(),
    {
        let rows = self.rows;
        let cols = self.cols;
        let player = self.cur_player;
        let ghost m = self@;
        let ghost mut found = false;
        let ghost mut wr: int = 0;
        let ghost mut wc: int = 0;
        let mut next: Vec<(usize, usize)> = Vec::new();
        let mut i: usize = 0;
        while i < pending.len()
            invariant
                self@.grid_wf(),
                self@ == (BoardModel { grid: self@.grid, ..m }),
                m.rows == rows && m.cols == cols && m.current == player,
                forall|k: int| 0 <= k < pending@.len() ==> m.in_bounds(#[trigger] pending@[k].0 as int, pending@[k].1 as int),
                i <= pending@.len(),
                (self@.grid, next@) == deliver(m.grid, wave_targets(pending@.subrange(0, i as int), rows, cols), player, rows, cols),
                forall|k: int| 0 <= k < next@.len() ==> m.in_bounds(#[trigger] next@[k].0 as int, next@[k].1 as int),
                next@.no_duplicates(),
                i > 0 ==> found || next@.len() > 0,
                found && next@.len() == 0 ==> m.in_bounds(wr, wc) && self@.grid[wr][wc].owner == Some(player),
            decreases pending@.len() - i,
        {
            let (r, c) = pending[i];
            let nbrs = Cell::get_neighbors(r, c, rows, cols);
            proof {
                lemma_neighbors_count(r, c, rows, cols);
                assert(pending@.subrange(0, i + 1).drop_last() =~= pending@.subrange(0, i as int));
            }
            let ghost done = wave_targets(pending@.subrange(0, i as int), rows, cols);
            let mut j: usize = 0;
            while j < nbrs.len()
                invariant
                    self@.grid_wf(),
                    self@ == (BoardModel { grid: self@.grid, ..m }),
                    m.rows == rows && m.cols == cols && m.current == player,
                    nbrs@ == neighbors(r, c, rows, cols),
                    nbrs@.len() >= 2,
                    forall|k: int| 0 <= k < nbrs@.len() ==> (#[trigger] nbrs@[k]).0 < rows && nbrs@[k].1 < cols,
                    j <= nbrs@.len(),
                    (self@.grid, next@) == deliver(m.grid, done + nbrs@.subrange(0, j as int), player, rows, cols),
                    forall|k: int| 0 <= k < next@.len() ==> m.in_bounds(#[trigger] next@[k].0 as int, next@[k].1 as int),
                    next@.no_duplicates(),
                next@.no_duplicates(),
                    (i > 0 || j > 0) ==> found || next@.len() > 0,
                    found && next@.len() == 0 ==> m.in_bounds(wr, wc) && self@.grid[wr][wc].owner == Some(player),
                decreases nbrs@.len() - j,
            {
                let (x, y) = nbrs[j];
                let ghost g = self@.grid;
                let ghost q = next@;
                proof {
                    let t = done + nbrs@.subrange(0, j + 1);
                    assert(t.drop_last() =~= done + nbrs@.subrange(0, j as int));
                    assert(t.last() == (x, y));
                    assert(g[x as int][y as int] == self.cells@[x as int]@[y as int]);
                }
                let hit = self.cells[x][y].add_atom(1, player, x, y, rows, cols);
                proof {
                    assert(self@.grid =~= g.update(x as int, g[x as int].update(y as int, self.cells@[x as int]@[y as int])));
                }
                if hit {
                    if !contains_coord(&next, (x, y)) {
                        next.push((x, y));
                    }
                } else {
                    proof {
                        found = true;
                        wr = x as int;
                        wc = y as int;
                    }
                }
                j += 1;
            }
            proof {
                assert(nbrs@.subrange(0, nbrs@.len() as int) =~= nbrs@);
            }
            i += 1;
        }
        proof {
            assert(pending@.subrange(0, pending@.len() as int) =~= pending@);
        }
        next
    }

    /// Runs next iterations of explosion.
    ///
    /// While exploding, one wave goes off and `true` is returned. When the
    /// board is checking for a winner, each player is kept in the game
    /// exactly when they own a cell; the one player left wins, or else the
    /// turn passes to the next player still in the game after the one who
    /// moved, and `false` is returned. In the other states nothing changes and
    /// `false` is returned.
    ///
    /// A player who has not moved yet owns no cell, but is never removed by
    /// this check: a cell explodes only once it holds two atoms, and in the
    /// first round every move lands on an empty cell, so no check happens
    /// before every player has moved.
    pub fn next_iteration(&mut self) -> (more: bool)
        requires
            old(self).wf(),
        ensures
            final(self).wf(),
            more == (old(self)@.phase is Explosion),
            match old(self)@.phase {
                BoardState::Explosion(pending) => {
                    let m = old(self)@;
                    let (g, q) = deliver(m.grid, wave_targets(pending@, m.rows, m.cols), m.current, m.rows, m.cols);
                    &&& final(self)@.grid == g
                    &&& final(self)@.current == m.current
                    &&& final(self)@.alive == m.alive
                    &&& final(self)@.rows == m.rows
                    &&& final(self)@.cols == m.cols
                    &&& q.len() > 0 ==> (final(self)@.phase matches BoardState::Explosion(p) && p@ == q)
                    &&& q.len() == 0 ==> final(self)@.phase == BoardState::CheckWinCondition
                },
                BoardState::CheckWinCondition => {
                    let m = old(self)@;
                    let alive = m.owners();
                    &&& final(self)@.grid == m.grid
                    &&& final(self)@.alive == alive
                    &&& final(self)@.rows == m.rows
                    &&& final(self)@.cols == m.cols
                    &&& forall|w: int| #[trigger] sole_alive(alive, w) ==> {
                        &&& final(self)@.phase == BoardState::GameOver(w as u8)
                        &&& final(self)@.current == m.current
                    }
                    &&& (forall|w: int| !#[trigger] sole_alive(alive, w)) ==> {
                        &&& is_next_alive(alive, m.current as int, final(self)@.current as int)
                        &&& final(self)@.phase == BoardState::Wait
                    }
                },
                _ => final(self)@ == old(self)@,
            },
    {
        let mut state = BoardState::Wait;
        std::mem::swap(&mut state, &mut self.state);
        match state {
            BoardState::Explosion(pending) => {
                let next = self.explode_wave(&pending);
                if next.len() > 0 {
                    self.state = BoardState::Explosion(next);
                } else {
                    self.state = BoardState::CheckWinCondition;
                }
                true
            },
            BoardState::CheckWinCondition => {
                self.recompute_alive();
                match find_sole_alive(&self.players) {
                    Some(w) => {
                        self.state = BoardState::GameOver(w as u8);
                    },
                    None => {
                        self.next_player();
                    },
                }
                false
            },
            other => {
                self.state = other;
                false
            },
        }
    }

    /// Keeps in the game exactly the players who own a cell.
    fn recompute_alive(&mut self)
        requires
            old(self)@.grid_wf(),
        ensures
            final(self)@.grid_wf(),
            final(self)@ == (BoardModel { alive: old(self)@.owners(), ..old(self)@ }),
    {
        let ghost m = self@;
        let n = self.players.len();
        let mut alive: Vec<bool> = Vec::new();
        while alive.len() < n
            invariant
                alive@.len() <= n,
                forall|p: int| 0 <= p < alive@.len() ==> !#[trigger] alive@[p],
            decreases n - alive@.len(),
        {
            alive.push(false);
        }
        let mut r: usize = 0;
        while r < self.rows
            invariant
                self@ == m,
                m.grid_wf(),
                n == m.alive.len(),
                r <= m.rows,
                alive@.len() == n,
                forall|p: int| 0 <= p < n ==> #[trigger] alive@[p] == m.owns_cell_before(p, r as int, 0),
            decreases m.rows - r,
        {
            let mut c: usize = 0;
            while c < self.cols
                invariant
                    self@ == m,
                    m.grid_wf(),
                    n == m.alive.len(),
                    r < m.rows,
                    c <= m.cols,
                    alive@.len() == n,
                    forall|p: int| 0 <= p < n ==> #[trigger] alive@[p] == m.owns_cell_before(p, r as int, c as int),
                decreases m.cols - c,
            {
                let ghost before = alive@;
                proof {
                    assert(m.grid[r as int][c as int] == self.cells@[r as int]@[c as int]);
                }
                if let Some(o) = self.cells[r][c].owner {
                    alive.set(o as usize, true);
                }
                proof {
                    assert forall|p: int| 0 <= p < n implies #[trigger] alive@[p] == m.owns_cell_before(p, r as int, c + 1) by {
                        if m.grid[r as int][c as int].owner == Some(p as u8) {
                            assert(m.owns_cell_before(p, r as int, c + 1));
                        } else {
                            if m.owns_cell_before(p, r as int, c + 1) {
                                let (i, j) = choose|i: int, j: int|
                                    m.in_bounds(i, j) && (i < r || (i == r && j < c + 1)) && #[trigger] m.grid[i][j].owner == Some(p as u8);
                                assert(m.owns_cell_before(p, r as int, c as int));
                            }
                            if m.owns_cell_before(p, r as int, c as int) {
                                let (i, j) = choose|i: int, j: int|
                                    m.in_bounds(i, j) && (i < r || (i == r && j < c)) && #[trigger] m.grid[i][j].owner == Some(p as u8);
                                assert(m.owns_cell_before(p, r as int, c + 1));
                            }
                        }
                    }
                }
                c += 1;
            }
            proof {
                assert forall|p: int| 0 <= p < n implies #[trigger] alive@[p] == m.owns_cell_before(p, r + 1, 0) by {
                    if m.owns_cell_before(p, r + 1, 0) {
                        let (i, j) = choose|i: int, j: int|
                            m.in_bounds(i, j) && (i < r + 1 || (i == r + 1 && j < 0)) && #[trigger] m.grid[i][j].owner == Some(p as u8);
                        assert(m.owns_cell_before(p, r as int, c as int));
                    }
                    if m.owns_cell_before(p, r as int, c as int) {
                        let (i, j) = choose|i: int, j: int|
                            m.in_bounds(i, j) && (i < r || (i == r && j < c)) && #[trigger] m.grid[i][j].owner == Some(p as u8);
                        assert(m.owns_cell_before(p, r + 1, 0));
                    }
                }
            }
            r += 1;
        }
        proof {
            assert forall|p: int| 0 <= p < n implies #[trigger] alive@[p] == m.owns_cell(p) by {
                if m.owns_cell(p) {
                    let (i, j) = choose|i: int, j: int| m.in_bounds(i, j) && #[trigger] m.grid[i][j].owner == Some(p as u8);
                    assert(m.owns_cell_before(p, r as int, 0));
                }
            }
            assert(alive@ =~= m.owners());
        }
        self.players = alive;
    }

    /// Passes the turn to the first player still in the game after the
    /// current one, walking forward in a circle.
    fn next_player(&mut self)
        requires
            old(self)@.grid_wf(),
            old(self)@.alive[old(self)@.current as int],
        ensures
            final(self)@.grid_wf(),
            is_next_alive(old(self)@.alive, old(self)@.current as int, final(self)@.current as int),
            final(self)@.phase == BoardState::Wait,
            final(self)@.grid == old(self)@.grid,
            final(self)@.alive == old(self)@.alive,
            final(self)@.rows == old(self)@.rows,
            final(self)@.cols == old(self)@.cols,
    {
        let n = self.players.len();
        let cur = self.cur_player as usize;
        self.state = BoardState::Wait;
        let mut i: usize = cur + 1;
        while i < n
            invariant
                self@ == old(self)@.update_phase(BoardState::Wait),
                old(self)@.grid_wf(),
                n == self.players@.len(),
                cur == old(self)@.current,
                cur < i <= n,
                forall|j: int| cur < j < i ==> !#[trigger] self.players@[j],
            decreases n - i,
        {
            if self.players[i] {
                self.cur_player = i as u8;
                return;
            }
            i += 1;
        }
        let mut i: usize = 0;
        while i <= cur
            invariant
                self@ == old(self)@.update_phase(BoardState::Wait),
                old(self)@.grid_wf(),
                n == self.players@.len(),
                cur == old(self)@.current,
                cur < n,
                self.players@[cur as int],
                i <= cur + 1,
                forall|j: int| cur < j < n ==> !#[trigger] self.players@[j],
                forall|j: int| 0 <= j < i ==> !#[trigger] self.players@[j],
            decreases cur + 1 - i,
        {
            if self.players[i] {
                self.cur_player = i as u8;
                return;
            }
            i += 1;
        }
    }
}

/// The one player left in the game, if exactly one is left.
fn find_sole_alive(alive: &Vec<bool>) -> (r: Option<usize>)
    ensures
        r matches Some(w) ==> sole_alive(alive@, w as int),
        r is None ==> forall|w: int| !#[trigger] sole_alive(alive@, w),
{
    let mut first: Option<usize> = None;
    let mut i: usize = 0;
    while i < alive.len()
        invariant
            i <= alive@.len(),
            first is None ==> forall|j: int| 0 <= j < i ==> !#[trigger] alive@[j],
            first matches Some(a) ==> a < i && alive@[a as int] && forall|j: int| 0 <= j < i && j != a ==> !#[trigger] alive@[j],
        decreases alive@.len() - i,
    {
        if alive[i] {
            if first.is_some() {
                proof {
                    assert forall|w: int| !#[trigger] sole_alive(alive@, w) by {
                        if sole_alive(alive@, w) {
                            assert(alive@[i as int]);
                            assert(alive@[first->0 as int]);
                        }
                    }
                }
                return None;
            }
            first = Some(i);
        }
        i += 1;
    }
    proof {
        if first is None {
            assert forall|w: int| !#[trigger] sole_alive(alive@, w) by {
                if sole_alive(alive@, w) {
                    assert(alive@[w]);
                }
            }
        }
    }
    first
}

/// Whether `v` holds `t`.
fn contains_coord(v: &Vec<(usize, usize)>, t: (usize, usize)) -> (r: bool)
    ensures
        r == v@.contains(t),
{
    let mut i: usize = 0;
    while i < v.len()
        invariant
            i <= v@.len(),
            forall|k: int| 0 <= k < i ==> v@[k] != t,
        decreases v@.len() - i,
    {
        if v[i].0 == t.0 && v[i].1 == t.1 {
            return true;
        }
        i += 1;
    }
    false
}

} // verus!
