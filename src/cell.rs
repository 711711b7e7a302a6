//! One square of the board: its owner and its atoms.
use vstd::prelude::*;

verus! {

/// Whether `i` is the first or the last index of an axis of length `n`.
pub open spec fn on_edge(i: int, n: int) -> bool {
    i == 0 || i + 1 == n
}

/// The number of atoms at which the cell at (`row`, `col`) explodes: four,
/// less one for each axis on which it lies on the border.
pub open spec fn critical_mass(row: int, col: int, rows: int, cols: int) -> int {
    4 - (if on_edge(row, rows) { 1int } else { 0int }) - (if on_edge(col, cols) { 1int } else { 0int })
}

/// The orthogonal neighbours of (`row`, `col`) inside a `rows` x `cols`
/// board, in the order up, down, left, right.
pub open spec fn neighbors(row: usize, col: usize, rows: usize, cols: usize) -> Seq<(usize, usize)> {
    (if row != 0 { seq![((row - 1) as usize, col)] } else { Seq::empty() })
    + (if row + 1 != rows { seq![((row + 1) as usize, col)] } else { Seq::empty() })
    + (if col != 0 { seq![(row, (col - 1) as usize)] } else { Seq::empty() })
    + (if col + 1 != cols { seq![(row, (col + 1) as usize)] } else { Seq::empty() })
}

/// A cell has as many neighbours as its critical mass, all of them on the
/// board: two in a corner, three on an edge, four inside.
pub proof fn lemma_neighbors_count(row: usize, col: usize, rows: usize, cols: usize)
    requires
        row < rows,
        col < cols,
        rows >= 2,
        cols >= 2,
    ensures
        neighbors(row, col, rows, cols).len() == critical_mass(row as int, col as int, rows as int, cols as int),
        forall|i: int| 0 <= i < neighbors(row, col, rows, cols).len() ==> {
            &&& (#[trigger] neighbors(row, col, rows, cols)[i]).0 < rows
            &&& neighbors(row, col, rows, cols)[i].1 < cols
        },
{
}

/// A corner cell explodes once it holds 2 atoms, an edge cell 3 and an inner
/// cell 4: adding atoms makes a cell explode exactly when its count reaches
/// that number.
pub proof fn lemma_critical_mass_by_position(row: usize, col: usize, rows: usize, cols: usize)
    requires
        rows >= 3,
        cols >= 3,
        row < rows,
        col < cols,
    ensures
        ({
            let cm = critical_mass(row as int, col as int, rows as int, cols as int);
            &&& on_edge(row as int, rows as int) && on_edge(col as int, cols as int) ==> cm == 2
            &&& on_edge(row as int, rows as int) != on_edge(col as int, cols as int) ==> cm == 3
            &&& !on_edge(row as int, rows as int) && !on_edge(col as int, cols as int) ==> cm == 4
            &&& forall|c: Cell, new: int| #[trigger] c.triggers(new, cm) <==> c.atoms + new >= cm
        }),
{
}

/// Whoever adds atoms to a cell owns it afterwards, whoever owned it before,
/// unless its explosion left it empty; and adding at least one atom keeps a
/// cell's count and owner consistent.
pub proof fn lemma_capture(c: Cell, new: int, player: u8, cm: int)
    requires
        new >= 1,
        cm >= 1,
        c.atoms + new <= u8::MAX,
    ensures
        c.added(new, player, cm).atoms > 0 ==> c.added(new, player, cm).owner == Some(player),
        c.added(new, player, cm).atoms == 0 ==> c.triggers(new, cm),
        c.added(new, player, cm).wf(),
{
}

/// One square of the board.
#[derive(Clone, Copy, Debug, Default, PartialEq, Eq)]
pub struct Cell {
    /// The player whose atoms the cell holds, if any.
    pub owner: Option<u8>,
    /// How many atoms the cell holds.
    pub atoms: u8,
}

impl Cell {
    /// An empty cell holds no atom and has no owner, and the converse.
    pub open spec fn wf(&self) -> bool {
        self.atoms == 0 <==> self.owner is None
    }

    /// Whether adding `new` atoms to this cell makes it explode.
    pub open spec fn triggers(&self, new: int, cm: int) -> bool {
        self.atoms + new >= cm
    }

    /// The cell after `player` adds `new` atoms to it, for critical mass `cm`:
    /// the player takes the cell; on an explosion `cm` atoms leave it, and a
    /// cell left with no atom has no owner.
    pub open spec fn added(&self, new: int, player: u8, cm: int) -> Cell {
        let total = self.atoms + new;
        if total < cm {
            Cell { owner: Some(player), atoms: total as u8 }
        } else if total - cm == 0 {
            Cell { owner: None, atoms: 0 }
        } else {
            Cell { owner: Some(player), atoms: (total - cm) as u8 }
        }
    }

    /// Adds `new` atoms of `player` to the cell at (`row`, `col`) of a
    /// `row_max` x `col_max` board, and returns whether the cell exploded.
    pub fn add_atom(
        &mut self,
        new: u8,
        player: u8,
        row: usize,
        col: usize,
        row_max: usize,
        col_max: usize,
    ) -> (exploded: bool)
        requires
            row < row_max,
            col < col_max,
            old(self).atoms + new <= u8::MAX,
        ensures
            exploded == old(self).triggers(new as int, critical_mass(row as int, col as int, row_max as int, col_max as int)),
            *final(self) == old(self).added(new as int, player, critical_mass(row as int, col as int, row_max as int, col_max as int)),
            final(self).atoms > 0 ==> final(self).owner == Some(player),
            new >= 1 ==> final(self).wf(),
    {
        let mut critical_mass: u8 = 4;
        self.owner = Some(player);
        if row == 0 || row + 1 == row_max {
            critical_mass -= 1;
        }
        if col == 0 || col + 1 == col_max {
            critical_mass -= 1;
        }
        self.atoms += new;
        if self.atoms < critical_mass {
            false
        } else {
            self.atoms -= critical_mass;
            if self.atoms == 0 {
                self.owner = None;
            }
            true
        }
    }

    /// The in-bounds orthogonal neighbours of (`row`, `col`), in the order up,
    /// down, left, right.
    pub fn get_neighbors(row: usize, col: usize, row_max: usize, col_max: usize) -> (r: Vec<(usize, usize)>)
        requires
            row < row_max,
            col < col_max,
        ensures
            r@ == neighbors(row, col, row_max, col_max),
    {
        let mut explosion: Vec<(usize, usize)> = Vec::new();
        if row != 0 {
            explosion.push((row - 1, col));
        }
        if row + 1 != row_max {
            explosion.push((row + 1, col));
        }
        if col != 0 {
            explosion.push((row, col - 1));
        }
        if col + 1 != col_max {
            explosion.push((row, col + 1));
        }
        explosion
    }
}

} // verus!
