//! The sparse colony: a set of live cells on an unbounded signed grid, and
//! the Life transition rule (B3/S23) over it.
//!
//! The mathematical model is a `Set<(int, int)>` of live positions; the
//! executable colony is a duplicate-free vector of `i32` pairs.  Executable
//! neighbour arithmetic is kept overflow-free by `grid_ok`: a cell may be
//! placed only well inside the `i32` range, and one generation step moves the
//! populated region outward by at most one cell.

use vstd::prelude::*;
use vstd::seq_lib::*;

verus! {

/// One grid position: an ordered pair of signed coordinates.
pub type Cell = (i32, i32);

/// The mathematical position of a cell.
pub open spec fn pos(c: Cell) -> (int, int) {
    (c.0 as int, c.1 as int)
}

/// Positions whose whole 1-cell neighbourhood is far from the `i32` limits.
/// Cells are only ever placed by hand inside this box; a generation step can
/// move the populated region at most one cell past it, which still leaves
/// every coordinate an `i32` with room for neighbour arithmetic.
pub open spec fn grid_ok(p: (int, int)) -> bool {
    &&& -0x4000_0000 <= p.0 <= 0x4000_0000
    &&& -0x4000_0000 <= p.1 <= 0x4000_0000
}

/// Every live position of the set lies inside the safe box.
pub open spec fn set_boxed(s: Set<(int, int)>) -> bool {
    forall|p: (int, int)| s.contains(p) ==> grid_ok(p)
}

/// The eight Moore neighbours of a position, in reading order.
pub open spec fn nbr8(p: (int, int)) -> Seq<(int, int)> {
    seq![
        (p.0 - 1, p.1 - 1), (p.0, p.1 - 1), (p.0 + 1, p.1 - 1),
        (p.0 - 1, p.1),                     (p.0 + 1, p.1),
        (p.0 - 1, p.1 + 1), (p.0, p.1 + 1), (p.0 + 1, p.1 + 1),
    ]
}

/// 1 if the position is live in the colony, else 0.
pub open spec fn one_if_live(col: Set<(int, int)>, p: (int, int)) -> nat {
    if col.contains(p) {
        1nat
    } else {
        0nat
    }
}

/// How many of the eight neighbours of `p` are live in `col`.
pub open spec fn live_neighbours(col: Set<(int, int)>, p: (int, int)) -> nat {
    one_if_live(col, (p.0 - 1, p.1 - 1)) + one_if_live(col, (p.0, p.1 - 1))
        + one_if_live(col, (p.0 + 1, p.1 - 1)) + one_if_live(col, (p.0 - 1, p.1))
        + one_if_live(col, (p.0 + 1, p.1)) + one_if_live(col, (p.0 - 1, p.1 + 1))
        + one_if_live(col, (p.0, p.1 + 1)) + one_if_live(col, (p.0 + 1, p.1 + 1))
}

/// The Life rule: a position is live in the next generation iff it has
/// exactly three live neighbours, or exactly two and is itself live.
pub open spec fn next_generation(col: Set<(int, int)>) -> Set<(int, int)> {
    Set::new(
        |p: (int, int)|
            live_neighbours(col, p) == 3 || (live_neighbours(col, p) == 2 && col.contains(p)),
    )
}

/// The empty colony is a fixed point of the rule: no position has a live
/// neighbour, so none is born and none survives.
pub proof fn lemma_generation_empty()
    ensures
        next_generation(Set::<(int, int)>::empty()) == Set::<(int, int)>::empty(),
{
    assert(next_generation(Set::<(int, int)>::empty()) =~= Set::<(int, int)>::empty());
}

/// Every cell of the next generation had, under the old colony, exactly
/// three live neighbours, or exactly two while being live itself.
pub proof fn lemma_generation_counts(col: Set<(int, int)>, p: (int, int))
    requires
        next_generation(col).contains(p),
    ensures
        live_neighbours(col, p) == 3 || (live_neighbours(col, p) == 2 && col.contains(p)),
{
}

/// The set of currently live cells, stored sparsely and without duplicates.
pub struct Colony {
    cells: Vec<Cell>,
}

impl View for Colony {
    type V = Set<(int, int)>;

    /// A colony is read as the set of its live positions.
    closed spec fn view(&self) -> Set<(int, int)> {
        self.pos_seq().to_set()
    }
}

impl Colony {
    /// The stored cells as a sequence of positions.
    closed spec fn pos_seq(self) -> Seq<(int, int)> {
        self.cells@.map_values(|c: Cell| pos(c))
    }

    /// Well-formed: no cell is stored twice.
    pub closed spec fn wf(self) -> bool {
        self.pos_seq().no_duplicates()
    }

    /// Every stored cell lies inside the safe box.
    pub open spec fn boxed(self) -> bool {
        set_boxed(self@)
    }

    /// A position is in the view exactly when some stored cell sits there.
    proof fn lemma_view_contains(self, p: (int, int))
        ensures
            self@.contains(p) <==> exists|i: int|
                0 <= i < self.cells@.len() && pos(self.cells@[i]) == p,
    {
        if self@.contains(p) {
            assert(self.pos_seq().contains(p));
            let i = choose|i: int|
                0 <= i < self.pos_seq().len() && self.pos_seq()[i] == p;
            assert(pos(self.cells@[i]) == p);
        }
        if exists|i: int| 0 <= i < self.cells@.len() && pos(self.cells@[i]) == p {
            let i = choose|i: int| 0 <= i < self.cells@.len() && pos(self.cells@[i]) == p;
            assert(self.pos_seq()[i] == p);
            assert(self.pos_seq().contains(p));
        }
    }

    /// The empty colony.
    pub fn new() -> (c: Colony)
        ensures
            c.wf(),
            c@ == Set::<(int, int)>::empty(),
    {
        let c = Colony { cells: Vec::new() };
        proof {
            assert(c@ =~= Set::<(int, int)>::empty());
        }
        c
    }

    /// Membership test by linear scan.
    pub fn contains(&self, c: &Cell) -> (r: bool)
        ensures
            r == self@.contains(pos(*c)),
    {
        let mut i: usize = 0;
        while i < self.cells.len()
            invariant
                0 <= i <= self.cells.len(),
                forall|k: int| 0 <= k < i ==> self.cells@[k] != *c,
            decreases self.cells.len() - i,
        {
            if self.cells[i].0 == c.0 && self.cells[i].1 == c.1 {
                proof {
                    self.lemma_view_contains(pos(*c));
                }
                return true;
            }
            i += 1;
        }
        proof {
            self.lemma_view_contains(pos(*c));
        }
        false
    }

    /// The number of live cells.
    pub fn len(&self) -> (n: usize)
        requires
            self.wf(),
        ensures
            n == self@.len(),
    {
        proof {
            self.pos_seq().unique_seq_to_set();
        }
        self.cells.len()
    }

    /// The live cells as a plain list, for a rendering host to walk: every
    /// listed cell is live, every live cell is listed, and a well-formed
    /// colony lists each exactly once.
    pub fn cell_list(&self) -> (r: &Vec<Cell>)
        ensures
            forall|i: int| 0 <= i < r@.len() ==> self@.contains(pos(#[trigger] r@[i])),
            forall|p: (int, int)|
                self@.contains(p) ==> exists|i: int| 0 <= i < r@.len() && pos(r@[i]) == p,
            self.wf() ==> r@.len() == self@.len(),
    {
        proof {
            assert forall|i: int| 0 <= i < self.cells@.len() implies self@.contains(
                pos(#[trigger] self.cells@[i]),
            ) by {
                assert(self.pos_seq()[i] == pos(self.cells@[i]));
                assert(self.pos_seq().contains(pos(self.cells@[i])));
            }
            assert forall|p: (int, int)| self@.contains(p) implies exists|i: int|
                0 <= i < self.cells@.len() && pos(self.cells@[i]) == p by {
                self.lemma_view_contains(p);
            }
            if self.wf() {
                self.pos_seq().unique_seq_to_set();
            }
        }
        &self.cells
    }

    /// Remove every live cell.
    pub fn clear(&mut self)
        ensures
            final (self).wf(),
            final (self)@ == Set::<(int, int)>::empty(),
    {
        self.cells.clear();
        proof {
            assert(final (self)@ =~= Set::<(int, int)>::empty());
        }
    }

    /// Whether every live cell sits inside the safe box, so that one more
    /// generation step is free of coordinate overflow.
    pub fn step_safe(&self) -> (r: bool)
        ensures
            r == self.boxed(),
    {
        let mut i: usize = 0;
        while i < self.cells.len()
            invariant
                0 <= i <= self.cells.len(),
                forall|k: int| 0 <= k < i ==> grid_ok(pos(self.cells@[k])),
            decreases self.cells.len() - i,
        {
            let (x, y) = self.cells[i];
            if x < -0x4000_0000 || x > 0x4000_0000 || y < -0x4000_0000 || y > 0x4000_0000 {
                proof {
                    let p = pos(self.cells@[i as int]);
                    self.lemma_view_contains(p);
                    assert(0 <= (i as int) && (i as int) < self.cells@.len() && pos(
                        self.cells@[i as int],
                    ) == p);
                    assert(self@.contains(p));
                    assert(!grid_ok(p));
                }
                return false;
            }
            i += 1;
        }
        proof {
            assert forall|p: (int, int)| self@.contains(p) implies grid_ok(p) by {
                self.lemma_view_contains(p);
            }
        }
        true
    }
}

impl Clone for Colony {
    /// A clone holds exactly the same live cells.
    fn clone(&self) -> (r: Colony)
        ensures
            r@ == self@,
            r.wf() == self.wf(),
    {
        let mut cells: Vec<Cell> = Vec::new();
        let mut i: usize = 0;
        while i < self.cells.len()
            invariant
                0 <= i <= self.cells.len(),
                cells@ == self.cells@.take(i as int),
            decreases self.cells.len() - i,
        {
            cells.push(self.cells[i]);
            i += 1;
        }
        let r = Colony { cells };
        proof {
            assert(r.cells@ == self.cells@);
            assert(r.pos_seq() =~= self.pos_seq());
        }
        r
    }
}

/// Two positions are Moore neighbours: distinct, and at most one apart on
/// each axis.  The relation is symmetric.
pub open spec fn is_nbr(p: (int, int), q: (int, int)) -> bool {
    &&& p != q
    &&& -1 <= p.0 - q.0 <= 1
    &&& -1 <= p.1 - q.1 <= 1
}

/// A sequence of cells holds the position `p`.
spec fn cand_has(s: Seq<Cell>, p: (int, int)) -> bool {
    exists|k: int| 0 <= k < s.len() && pos(s[k]) == p
}

/// A sequence of cells holds all eight neighbour positions of `q`.
spec fn all8(s: Seq<Cell>, q: (int, int)) -> bool {
    &&& cand_has(s, (q.0 - 1, q.1 - 1))
    &&& cand_has(s, (q.0, q.1 - 1))
    &&& cand_has(s, (q.0 + 1, q.1 - 1))
    &&& cand_has(s, (q.0 - 1, q.1))
    &&& cand_has(s, (q.0 + 1, q.1))
    &&& cand_has(s, (q.0 - 1, q.1 + 1))
    &&& cand_has(s, (q.0, q.1 + 1))
    &&& cand_has(s, (q.0 + 1, q.1 + 1))
}

/// A sequence that holds all eight neighbours of `q` holds every neighbour
/// `p` of `q`.
proof fn lemma_all8_covers(s: Seq<Cell>, q: (int, int), p: (int, int))
    requires
        all8(s, q),
        is_nbr(p, q),
    ensures
        cand_has(s, p),
{
    let dx = p.0 - q.0;
    let dy = p.1 - q.1;
    if dx == -1 && dy == -1 {
        assert(p == (q.0 - 1, q.1 - 1));
    } else if dx == 0 && dy == -1 {
        assert(p == (q.0, q.1 - 1));
    } else if dx == 1 && dy == -1 {
        assert(p == (q.0 + 1, q.1 - 1));
    } else if dx == -1 && dy == 0 {
        assert(p == (q.0 - 1, q.1));
    } else if dx == 1 && dy == 0 {
        assert(p == (q.0 + 1, q.1));
    } else if dx == -1 && dy == 1 {
        assert(p == (q.0 - 1, q.1 + 1));
    } else if dx == 0 && dy == 1 {
        assert(p == (q.0, q.1 + 1));
    } else {
        assert(dx == 1 && dy == 1);
        assert(p == (q.0 + 1, q.1 + 1));
    }
}

/// A position has a live neighbour exactly when some live cell is its
/// neighbour.  This is what lets the sparse algorithm enumerate only the
/// neighbourhoods of live cells and still see every position the rule can
/// make live.
pub proof fn lemma_live_neighbour_witness(col: Set<(int, int)>, p: (int, int))
    ensures
        live_neighbours(col, p) >= 1 <==> exists|q: (int, int)| col.contains(q) && is_nbr(p, q),
{
    if live_neighbours(col, p) >= 1 {
        if col.contains((p.0 - 1, p.1 - 1)) {
            assert(col.contains((p.0 - 1, p.1 - 1)) && is_nbr(p, (p.0 - 1, p.1 - 1)));
        } else if col.contains((p.0, p.1 - 1)) {
            assert(col.contains((p.0, p.1 - 1)) && is_nbr(p, (p.0, p.1 - 1)));
        } else if col.contains((p.0 + 1, p.1 - 1)) {
            assert(col.contains((p.0 + 1, p.1 - 1)) && is_nbr(p, (p.0 + 1, p.1 - 1)));
        } else if col.contains((p.0 - 1, p.1)) {
            assert(col.contains((p.0 - 1, p.1)) && is_nbr(p, (p.0 - 1, p.1)));
        } else if col.contains((p.0 + 1, p.1)) {
            assert(col.contains((p.0 + 1, p.1)) && is_nbr(p, (p.0 + 1, p.1)));
        } else if col.contains((p.0 - 1, p.1 + 1)) {
            assert(col.contains((p.0 - 1, p.1 + 1)) && is_nbr(p, (p.0 - 1, p.1 + 1)));
        } else if col.contains((p.0, p.1 + 1)) {
            assert(col.contains((p.0, p.1 + 1)) && is_nbr(p, (p.0, p.1 + 1)));
        } else {
            assert(col.contains((p.0 + 1, p.1 + 1)));
            assert(col.contains((p.0 + 1, p.1 + 1)) && is_nbr(p, (p.0 + 1, p.1 + 1)));
        }
    }
    if exists|q: (int, int)| col.contains(q) && is_nbr(p, q) {
        let q = choose|q: (int, int)| col.contains(q) && is_nbr(p, q);
        let dx = q.0 - p.0;
        let dy = q.1 - p.1;
        if dx == -1 && dy == -1 {
            assert(col.contains((p.0 - 1, p.1 - 1)));
        } else if dx == 0 && dy == -1 {
            assert(col.contains((p.0, p.1 - 1)));
        } else if dx == 1 && dy == -1 {
            assert(col.contains((p.0 + 1, p.1 - 1)));
        } else if dx == -1 && dy == 0 {
            assert(col.contains((p.0 - 1, p.1)));
        } else if dx == 1 && dy == 0 {
            assert(col.contains((p.0 + 1, p.1)));
        } else if dx == -1 && dy == 1 {
            assert(col.contains((p.0 - 1, p.1 + 1)));
        } else if dx == 0 && dy == 1 {
            assert(col.contains((p.0, p.1 + 1)));
        } else {
            assert(dx == 1 && dy == 1);
            assert(col.contains((p.0 + 1, p.1 + 1)));
        }
    }
}

/// The eight Moore neighbours of a cell, in reading order.
pub fn neighbours(c: &Cell) -> (r: Vec<Cell>)
    requires
        i32::MIN < c.0 < i32::MAX,
        i32::MIN < c.1 < i32::MAX,
    ensures
        r@.len() == 8,
        forall|j: int| 0 <= j < 8 ==> pos(r@[j]) == nbr8(pos(*c))[j],
{
    let (x, y) = *c;
    vec![
        (x - 1, y - 1), (x, y - 1), (x + 1, y - 1),
        (x - 1, y),                 (x + 1, y),
        (x - 1, y + 1), (x, y + 1), (x + 1, y + 1),
    ]
}

/// Flip one cell: remove it if live, insert it if dead.
pub fn toggle(col: &mut Colony, cell: Cell)
    requires
        old(col).wf(),
        grid_ok(pos(cell)),
    ensures
        final (col).wf(),
        final (col)@ == (if old(col)@.contains(pos(cell)) {
            old(col)@.remove(pos(cell))
        } else {
            old(col)@.insert(pos(cell))
        }),
{
    let mut i: usize = 0;
    while i < col.cells.len()
        invariant
            *col == *old(col),
            old(col).wf(),
            0 <= i <= col.cells.len(),
            forall|k: int| 0 <= k < i ==> col.cells@[k] != cell,
        decreases col.cells.len() - i,
    {
        if col.cells[i].0 == cell.0 && col.cells[i].1 == cell.1 {
            let ghost old_seq = col.pos_seq();
            proof {
                assert(col.cells@[i as int] == cell);
                assert(old_seq[i as int] == pos(cell));
                assert(old_seq.contains(pos(cell)));
                assert(old(col)@.contains(pos(cell)));
            }
            col.cells.remove(i);
            proof {
                assert(old(col).wf());
                assert(old_seq.no_duplicates());
                old_seq.remove_ensures(i as int);
                assert(col.pos_seq() =~= old_seq.remove(i as int));
                lemma_toggle_removed(old_seq, i as int, pos(cell));
            }
            return ;
        }
        i += 1;
    }
    let ghost old_col = *col;
    proof {
        assert(!old_col@.contains(pos(cell))) by {
            old_col.lemma_view_contains(pos(cell));
        }
        assert(!old_col.pos_seq().contains(pos(cell)));
    }
    col.cells.push(cell);
    proof {
        let p = pos(cell);
        let s = old_col.pos_seq();
        assert(col.pos_seq() =~= s.push(p));
        s.lemma_push_to_set_commute(p);
        assert(col@ =~= old_col@.insert(p));
        assert forall|a: int, b: int|
            0 <= a < s.push(p).len() && 0 <= b < s.push(p).len() && a != b implies s.push(
            p,
        )[a] != s.push(p)[b] by {
            if a < s.len() && b < s.len() {
                assert(s.push(p)[a] == s[a]);
                assert(s.push(p)[b] == s[b]);
            } else if a < s.len() {
                assert(s.push(p)[b] == p);
                assert(s.push(p)[a] == s[a]);
                assert(s.contains(s[a]));
            } else {
                assert(s.push(p)[a] == p);
                assert(s.push(p)[b] == s[b]);
                assert(s.contains(s[b]));
            }
        }
        assert(col.pos_seq().no_duplicates());
    }
}

/// Positions at most one cell outside the safe box; their own neighbourhood
/// still fits in `i32` arithmetic.
spec fn near_grid(p: (int, int)) -> bool {
    &&& -0x4000_0001 <= p.0 <= 0x4000_0001
    &&& -0x4000_0001 <= p.1 <= 0x4000_0001
}

/// Count the live neighbours of one position by eight membership tests.
fn count_live(col: &Colony, c: &Cell) -> (n: u32)
    requires
        near_grid(pos(*c)),
    ensures
        n as nat == live_neighbours(col@, pos(*c)),
{
    let (x, y) = *c;
    let mut n: u32 = 0;
    if col.contains(&(x - 1, y - 1)) {
        n = n + 1;
    }
    if col.contains(&(x, y - 1)) {
        n = n + 1;
    }
    if col.contains(&(x + 1, y - 1)) {
        n = n + 1;
    }
    if col.contains(&(x - 1, y)) {
        n = n + 1;
    }
    if col.contains(&(x + 1, y)) {
        n = n + 1;
    }
    if col.contains(&(x - 1, y + 1)) {
        n = n + 1;
    }
    if col.contains(&(x, y + 1)) {
        n = n + 1;
    }
    if col.contains(&(x + 1, y + 1)) {
        n = n + 1;
    }
    n
}

/// A well-formed candidate list: duplicate-free, every entry a neighbour of
/// some live cell, and every entry near the safe box.
spec fn cand_ok(cand: Seq<Cell>, col: Set<(int, int)>) -> bool {
    &&& forall|a: int, b: int| 0 <= a < b < cand.len() ==> cand[a] != cand[b]
    &&& forall|k: int|
        0 <= k < cand.len() ==> exists|q: (int, int)|
            col.contains(q) && is_nbr(pos(#[trigger] cand[k]), q)
    &&& forall|k: int| 0 <= k < cand.len() ==> near_grid(pos(#[trigger] cand[k]))
}

/// Append `c` to the candidate list unless an equal cell is already there.
fn add_candidate(cand: &mut Vec<Cell>, col: &Colony, c: Cell)
    requires
        cand_ok(old(cand)@, col@),
        near_grid(pos(c)),
        exists|q: (int, int)| col@.contains(q) && is_nbr(pos(c), q),
    ensures
        cand_ok(final (cand)@, col@),
        cand_has(final (cand)@, pos(c)),
        forall|p: (int, int)| cand_has(old(cand)@, p) ==> cand_has(final (cand)@, p),
{
    let mut i: usize = 0;
    while i < cand.len()
        invariant
            *cand == *old(cand),
            cand_ok(cand@, col@),
            0 <= i <= cand.len(),
            forall|k: int| 0 <= k < i ==> cand@[k] != c,
        decreases cand.len() - i,
    {
        if cand[i].0 == c.0 && cand[i].1 == c.1 {
            proof {
                assert(cand@[i as int] == c);
                assert(pos(cand@[i as int]) == pos(c));
            }
            return ;
        }
        i += 1;
    }
    let ghost before = cand@;
    cand.push(c);
    proof {
        assert(cand@ == before.push(c));
        assert(cand@[before.len() as int] == c);
        assert forall|p: (int, int)| cand_has(before, p) implies cand_has(cand@, p) by {
            let k = choose|k: int| 0 <= k < before.len() && pos(before[k]) == p;
            assert(cand@[k] == before[k]);
        }
        assert(cand_ok(cand@, col@)) by {
            assert forall|a: int, b: int| 0 <= a < b < cand@.len() implies cand@[a] != cand@[b] by {
                if b < before.len() {
                    assert(cand@[a] == before[a] && cand@[b] == before[b]);
                } else {
                    assert(cand@[b] == c && cand@[a] == before[a]);
                }
            }
            assert forall|k: int|
                0 <= k < cand@.len() implies exists|q: (int, int)|
                col@.contains(q) && is_nbr(pos(#[trigger] cand@[k]), q) by {
                if k < before.len() {
                    assert(cand@[k] == before[k]);
                } else {
                    assert(cand@[k] == c);
                }
            }
            assert forall|k: int| 0 <= k < cand@.len() implies near_grid(
                pos(#[trigger] cand@[k]),
            ) by {
                if k < before.len() {
                    assert(cand@[k] == before[k]);
                } else {
                    assert(cand@[k] == c);
                }
            }
        }
    }
}

/// The neighbour-count table of a colony: every position that has at least
/// one live neighbour, paired with its exact live-neighbour count.  Keys are
/// unique; their order is arbitrary.
pub fn neighbour_counts(col: &Colony) -> (r: Vec<(Cell, u32)>)
    requires
        col.wf(),
        col.boxed(),
    ensures
        forall|i: int, j: int| 0 <= i < j < r@.len() ==> r@[i].0 != r@[j].0,
        forall|i: int|
            0 <= i < r@.len() ==> (#[trigger] r@[i]).1 as nat == live_neighbours(
                col@,
                pos(r@[i].0),
            ),
        forall|p: (int, int)|
            (exists|i: int| 0 <= i < r@.len() && pos((#[trigger] r@[i]).0) == p) <==> live_neighbours(
                col@,
                p,
            ) >= 1,
{
    let mut cand: Vec<Cell> = Vec::new();
    let mut idx: usize = 0;
    while idx < col.cells.len()
        invariant
            col.wf(),
            col.boxed(),
            0 <= idx <= col.cells.len(),
            cand_ok(cand@, col@),
            forall|t: int| 0 <= t < idx ==> all8(cand@, pos(#[trigger] col.cells@[t])),
        decreases col.cells.len() - idx,
    {
        let cell = col.cells[idx];
        let ghost q = pos(cell);
        proof {
            col.lemma_view_contains(q);
            assert(col@.contains(q));
            assert(grid_ok(q));
        }
        let (x, y) = cell;
        let ghost before_loop = cand@;
        add_candidate(&mut cand, col, (x - 1, y - 1));
        add_candidate(&mut cand, col, (x, y - 1));
        add_candidate(&mut cand, col, (x + 1, y - 1));
        add_candidate(&mut cand, col, (x - 1, y));
        add_candidate(&mut cand, col, (x + 1, y));
        add_candidate(&mut cand, col, (x - 1, y + 1));
        add_candidate(&mut cand, col, (x, y + 1));
        add_candidate(&mut cand, col, (x + 1, y + 1));
        proof {
            assert(all8(cand@, q));
            assert forall|t: int| 0 <= t < idx + 1 implies all8(cand@, pos(#[trigger] col.cells@[t])) by {
                if t < idx {
                    assert(all8(before_loop, pos(col.cells@[t])));
                }
            }
        }
        idx += 1;
    }
    let mut r: Vec<(Cell, u32)> = Vec::new();
    let mut k: usize = 0;
    while k < cand.len()
        invariant
            col.wf(),
            col.boxed(),
            0 <= k <= cand.len(),
            r@.len() == k,
            cand_ok(cand@, col@),
            forall|t: int| 0 <= t < col.cells@.len() ==> all8(cand@, pos(#[trigger] col.cells@[t])),
            forall|i: int| 0 <= i < k ==> (#[trigger] r@[i]).0 == cand@[i],
            forall|i: int|
                0 <= i < k ==> (#[trigger] r@[i]).1 as nat == live_neighbours(col@, pos(r@[i].0)),
        decreases cand.len() - k,
    {
        let c = cand[k];
        let n = count_live(col, &c);
        r.push((c, n));
        k += 1;
    }
    proof {
        assert forall|p: (int, int)|
            (exists|i: int| 0 <= i < r@.len() && pos((#[trigger] r@[i]).0) == p)
                == (live_neighbours(col@, p) >= 1) by {
            lemma_live_neighbour_witness(col@, p);
            if exists|i: int| 0 <= i < r@.len() && pos((r@[i]).0) == p {
                let i = choose|i: int| 0 <= i < r@.len() && pos((r@[i]).0) == p;
                assert(r@[i].0 == cand@[i]);
                assert(exists|q: (int, int)| col@.contains(q) && is_nbr(pos(cand@[i]), q));
            }
            if live_neighbours(col@, p) >= 1 {
                let q = choose|q: (int, int)| col@.contains(q) && is_nbr(p, q);
                col.lemma_view_contains(q);
                let t = choose|t: int| 0 <= t < col.cells@.len() && pos(col.cells@[t]) == q;
                assert(all8(cand@, q));
                lemma_all8_covers(cand@, q, p);
                let kk = choose|kk: int| 0 <= kk < cand@.len() && pos(cand@[kk]) == p;
                assert(r@[kk].0 == cand@[kk]);
                assert(0 <= kk < r@.len() && pos(r@[kk].0) == p);
            }
        }
    }
    r
}

/// One generation step of the Life rule: the returned colony is exactly
/// `next_generation` of the old one.  The old colony is read throughout;
/// nothing is mutated in place.
pub fn generation(col: &Colony) -> (r: Colony)
    requires
        col.wf(),
        col.boxed(),
    ensures
        r.wf(),
        r@ == next_generation(col@),
{
    let counts = neighbour_counts(col);
    let mut cells: Vec<Cell> = Vec::new();
    let mut k: usize = 0;
    while k < counts.len()
        invariant
            col.wf(),
            col.boxed(),
            0 <= k <= counts@.len(),
            forall|i: int, j: int| 0 <= i < j < counts@.len() ==> counts@[i].0 != counts@[j].0,
            forall|i: int|
                0 <= i < counts@.len() ==> (#[trigger] counts@[i]).1 as nat == live_neighbours(
                    col@,
                    pos(counts@[i].0),
                ),
            forall|p: (int, int)|
                (exists|i: int| 0 <= i < counts@.len() && pos((#[trigger] counts@[i]).0) == p)
                    <==> live_neighbours(col@, p) >= 1,
            forall|a: int, b: int| 0 <= a < b < cells@.len() ==> cells@[a] != cells@[b],
            forall|p: (int, int)|
                cand_has(cells@, p) <==> (exists|i: int|
                    0 <= i < k && pos((#[trigger] counts@[i]).0) == p) && next_generation(
                    col@,
                ).contains(p),
        decreases counts.len() - k,
    {
        let (c, n) = counts[k];
        let ghost before = cells@;
        let ghost p = pos(c);
        if n == 3 || (n == 2 && col.contains(&c)) {
            proof {
                assert(counts@[k as int].1 as nat == live_neighbours(col@, p));
                assert(next_generation(col@).contains(p));
                assert(!cand_has(before, p)) by {
                    if cand_has(before, p) {
                        let i = choose|i: int|
                            0 <= i < k && pos((counts@[i]).0) == p;
                        assert(counts@[i].0 == counts@[k as int].0);
                    }
                }
            }
            cells.push(c);
            proof {
                assert(cells@ == before.push(c));
                assert(cells@[before.len() as int] == c);
                assert forall|a: int, b: int|
                    0 <= a < b < cells@.len() implies cells@[a] != cells@[b] by {
                    if b < before.len() {
                        assert(cells@[a] == before[a] && cells@[b] == before[b]);
                    } else {
                        assert(cells@[b] == c);
                        assert(cells@[a] == before[a]);
                        assert(pos(before[a]) != p || before[a] == c);
                        if before[a] == c {
                            assert(cand_has(before, p));
                        }
                        assert(pos(before[a]) == pos(c) ==> before[a] == c);
                    }
                }
                assert forall|pp: (int, int)|
                    cand_has(cells@, pp) == ((exists|i: int|
                        0 <= i < k + 1 && pos((#[trigger] counts@[i]).0) == pp) && next_generation(
                        col@,
                    ).contains(pp)) by {
                    if cand_has(cells@, pp) {
                        let j = choose|j: int| 0 <= j < cells@.len() && pos(cells@[j]) == pp;
                        if j < before.len() {
                            assert(cand_has(before, pp));
                        } else {
                            assert(pp == p);
                            assert(pos(counts@[k as int].0) == pp);
                        }
                    }
                    if (exists|i: int| 0 <= i < k + 1 && pos((counts@[i]).0) == pp)
                        && next_generation(col@).contains(pp) {
                        let i = choose|i: int| 0 <= i < k + 1 && pos((counts@[i]).0) == pp;
                        if i < k {
                            assert(cand_has(before, pp));
                            let j = choose|j: int|
                                0 <= j < before.len() && pos(before[j]) == pp;
                            assert(cells@[j] == before[j]);
                        } else {
                            assert(pp == p);
                            assert(pos(cells@[before.len() as int]) == pp);
                        }
                    }
                }
            }
        } else {
            proof {
                assert(counts@[k as int].1 as nat == live_neighbours(col@, p));
                assert(!next_generation(col@).contains(p));
                assert forall|pp: (int, int)|
                    cand_has(cells@, pp) == ((exists|i: int|
                        0 <= i < k + 1 && pos((#[trigger] counts@[i]).0) == pp) && next_generation(
                        col@,
                    ).contains(pp)) by {
                    if (exists|i: int| 0 <= i < k + 1 && pos((counts@[i]).0) == pp)
                        && next_generation(col@).contains(pp) {
                        let i = choose|i: int| 0 <= i < k + 1 && pos((counts@[i]).0) == pp;
                        assert(i != k);
                    }
                }
            }
        }
        k += 1;
    }
    let r = Colony { cells };
    proof {
        assert(r.pos_seq().no_duplicates()) by {
            assert forall|a: int, b: int|
                0 <= a < r.pos_seq().len() && 0 <= b < r.pos_seq().len() && a != b
                    implies r.pos_seq()[a] != r.pos_seq()[b] by {
                assert(r.pos_seq()[a] == pos(r.cells@[a]));
                assert(r.pos_seq()[b] == pos(r.cells@[b]));
                assert(r.cells@[a] != r.cells@[b]);
                assert(pos(r.cells@[a]) == pos(r.cells@[b]) ==> r.cells@[a] == r.cells@[b]);
            }
        }
        assert forall|p: (int, int)| r@.contains(p) == next_generation(col@).contains(p) by {
            r.lemma_view_contains(p);
            assert(r@.contains(p) == cand_has(cells@, p));
            if next_generation(col@).contains(p) {
                assert(live_neighbours(col@, p) >= 2);
                assert(exists|i: int|
                    0 <= i < counts@.len() && pos((#[trigger] counts@[i]).0) == p);
            }
        }
        assert(r@ =~= next_generation(col@));
    }
    r
}

/// Which of the four cardinal neighbours of a cell are live, as
/// (north, east, south, west); north is the positive-`y` side.
pub fn neighbours_nesw(col: &Colony, c: &Cell) -> (r: (bool, bool, bool, bool))
    requires
        i32::MIN < c.0 < i32::MAX,
        i32::MIN < c.1 < i32::MAX,
    ensures
        r.0 == col@.contains((pos(*c).0, pos(*c).1 + 1)),
        r.1 == col@.contains((pos(*c).0 + 1, pos(*c).1)),
        r.2 == col@.contains((pos(*c).0, pos(*c).1 - 1)),
        r.3 == col@.contains((pos(*c).0 - 1, pos(*c).1)),
{
    let (x, y) = *c;
    (
        col.contains(&(x, y + 1)),
        col.contains(&(x + 1, y)),
        col.contains(&(x, y - 1)),
        col.contains(&(x - 1, y)),
    )
}

/// Removing index `i` of a duplicate-free sequence removes exactly the value
/// stored there from the set of elements.
proof fn lemma_toggle_removed(s: Seq<(int, int)>, i: int, p: (int, int))
    requires
        s.no_duplicates(),
        0 <= i < s.len(),
        s[i] == p,
    ensures
        s.remove(i).to_set() == s.to_set().remove(p),
        s.remove(i).no_duplicates(),
{
    s.remove_ensures(i);
    assert forall|a: int, b: int|
        0 <= a < s.remove(i).len() && 0 <= b < s.remove(i).len() && a != b implies s.remove(
        i,
    )[a] != s.remove(i)[b] by {
        let a2: int = if a < i {
            a
        } else {
            a + 1
        };
        let b2: int = if b < i {
            b
        } else {
            b + 1
        };
        assert(s.remove(i)[a] == s[a2]);
        assert(s.remove(i)[b] == s[b2]);
        assert(s[a2] != s[b2]);
    }
    assert forall|q: (int, int)| s.remove(i).to_set().contains(q) implies s.to_set().remove(
        p,
    ).contains(q) by {
        let k = choose|k: int| 0 <= k < s.remove(i).len() && s.remove(i)[k] == q;
        if k < i {
            assert(s[k] == q);
            assert(s.contains(q));
            assert(q != p);
        } else {
            assert(s[k + 1] == q);
            assert(s.contains(q));
            assert(q != p);
        }
    }
    assert forall|q: (int, int)| s.to_set().remove(p).contains(q) implies s.remove(
        i,
    ).to_set().contains(q) by {
        let k = choose|k: int| 0 <= k < s.len() && s[k] == q;
        assert(k != i);
        if k < i {
            assert(s.remove(i)[k] == q);
            assert(s.remove(i).contains(q));
        } else {
            assert(s.remove(i)[k - 1] == q);
            assert(s.remove(i).contains(q));
        }
    }
    assert(s.remove(i).to_set() =~= s.to_set().remove(p));
}

} // verus!
