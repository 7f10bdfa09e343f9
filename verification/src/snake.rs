use std::collections::VecDeque;
use vstd::prelude::*;

use crate::direction::Direction;

verus! {

/// The cell one unit away from `cell` in direction `dir`, over unbounded
/// integers. `Up` decreases `y`, `Left` decreases `x`.
pub open spec fn neighbor(cell: (i32, i32), dir: Direction) -> (int, int) {
    match dir {
        Direction::Up => (cell.0 as int, cell.1 - 1),
        Direction::Down => (cell.0 as int, cell.1 + 1),
        Direction::Left => (cell.0 - 1, cell.1 as int),
        Direction::Right => (cell.0 + 1, cell.1 as int),
    }
}

/// Both coordinates of `cell` fit the machine integer used for cells.
pub open spec fn representable(cell: (int, int)) -> bool {
    &&& i32::MIN <= cell.0 <= i32::MAX
    &&& i32::MIN <= cell.1 <= i32::MAX
}

/// `cell` as a pair of machine integers; meaningful when `representable(cell)`.
pub open spec fn as_cell(cell: (int, int)) -> (i32, i32) {
    (cell.0 as i32, cell.1 as i32)
}

/// Two cells differ by exactly one unit in exactly one axis.
pub open spec fn adjacent(a: (i32, i32), b: (i32, i32)) -> bool {
    ||| a.0 == b.0 && (a.1 - b.1 == 1 || b.1 - a.1 == 1)
    ||| a.1 == b.1 && (a.0 - b.0 == 1 || b.0 - a.0 == 1)
}

/// The mathematical model of a snake: its cells from head to tail, its
/// heading, and the tail cell that the latest step left behind.
pub struct SnakeView {
    pub direction: Direction,
    pub body: Seq<(i32, i32)>,
    pub last_removed: Option<(i32, i32)>,
}

impl SnakeView {
    /// The three-cell snake lying to the right of `(x, y)`, heading right.
    pub open spec fn initial(x: i32, y: i32) -> SnakeView {
        SnakeView {
            direction: Direction::Right,
            body: seq![((x + 2) as i32, y), ((x + 1) as i32, y), (x, y)],
            last_removed: None,
        }
    }

    /// The snake is never empty, consecutive cells touch, and the cell left
    /// behind (if any) touches the tail.
    pub open spec fn wf(self) -> bool {
        &&& self.body.len() >= 1
        &&& forall|i: int|
            0 <= i < self.body.len() - 1 ==> adjacent(#[trigger] self.body[i], self.body[i + 1])
        &&& self.last_removed matches Some(c) ==> adjacent(self.body.last(), c)
    }

    pub open spec fn head(self) -> (i32, i32) {
        self.body[0]
    }

    /// The direction a step takes: the override if there is one, else the
    /// current heading.
    pub open spec fn effective_direction(self, dir: Option<Direction>) -> Direction {
        match dir {
            Some(d) => d,
            None => self.direction,
        }
    }

    /// The cell the head would enter next.
    pub open spec fn next_position(self, dir: Option<Direction>) -> (int, int) {
        neighbor(self.head(), self.effective_direction(dir))
    }

    /// The next head cell can be stored in machine integers.
    pub open spec fn can_move(self, dir: Option<Direction>) -> bool {
        representable(self.next_position(dir))
    }

    /// `cell` is one of the snake's cells other than the tail.
    pub open spec fn overlaps_except_tail(self, cell: (i32, i32)) -> bool {
        exists|i: int| 0 <= i < self.body.len() - 1 && #[trigger] self.body[i] == cell
    }

    /// The snake after one step: a new head in front, the tail dropped and
    /// remembered.
    pub open spec fn moved(self, dir: Option<Direction>) -> SnakeView {
        SnakeView {
            direction: self.effective_direction(dir),
            body: (seq![as_cell(self.next_position(dir))] + self.body).drop_last(),
            last_removed: Some(self.body.last()),
        }
    }

    /// The snake after growing: the remembered cell becomes the new tail and
    /// is forgotten, so that it cannot be appended twice.
    pub open spec fn restored(self) -> SnakeView {
        match self.last_removed {
            Some(c) => SnakeView { body: self.body.push(c), last_removed: None, ..self },
            None => self,
        }
    }
}

/// A step keeps the snake well formed and its length unchanged, and puts the
/// head on the next position.
pub proof fn lemma_moved(v: SnakeView, dir: Option<Direction>)
    requires
        v.wf(),
        v.can_move(dir),
    ensures
        v.moved(dir).wf(),
        v.moved(dir).body.len() == v.body.len(),
        v.moved(dir).head() == as_cell(v.next_position(dir)),
        forall|i: int| 1 <= i < v.body.len() ==> v.moved(dir).body[i] == v.body[i - 1],
{
    let m = v.moved(dir);
    let n = as_cell(v.next_position(dir));
    assert(adjacent(n, v.body[0]));
    assert forall|i: int| 0 <= i < m.body.len() - 1 implies adjacent(
        #[trigger] m.body[i],
        m.body[i + 1],
    ) by {
        if i > 0 {
            assert(adjacent(v.body[i - 1], v.body[i]));
        }
    }
    if v.body.len() >= 2 {
        assert(adjacent(v.body[v.body.len() - 2], v.body[v.body.len() - 1]));
    }
}

/// Growing keeps the snake well formed; it adds one cell exactly when a cell
/// was remembered, and never moves the head.
pub proof fn lemma_restored(v: SnakeView)
    requires
        v.wf(),
    ensures
        v.restored().wf(),
        v.restored().head() == v.head(),
        v.last_removed is Some ==> v.restored().body.len() == v.body.len() + 1,
        v.last_removed is None ==> v.restored() == v,
        forall|i: int| 0 <= i < v.body.len() ==> v.restored().body[i] == v.body[i],
{
    let r = v.restored();
    if let Some(c) = v.last_removed {
        assert forall|i: int| 0 <= i < r.body.len() - 1 implies adjacent(
            #[trigger] r.body[i],
            r.body[i + 1],
        ) by {
            if i < v.body.len() - 1 {
                assert(adjacent(v.body[i], v.body[i + 1]));
            }
        }
    }
}

/// The snake: an ordered run of board cells, head first, with a heading.
pub struct Snake {
    direction: Direction,
    body: VecDeque<(i32, i32)>,
    last_removed_block: Option<(i32, i32)>,
}

impl View for Snake {
    type V = SnakeView;

    closed spec fn view(&self) -> SnakeView {
        SnakeView {
            direction: self.direction,
            body: self.body@,
            last_removed: self.last_removed_block,
        }
    }
}

impl Snake {
    /// A snake of three cells whose tail is at `(x, y)` and whose head is two
    /// cells to the right of it, heading right.
    pub fn new(x: i32, y: i32) -> (s: Snake)
        requires
            x + 2 <= i32::MAX,
        ensures
            s@ == SnakeView::initial(x, y),
            s@.wf(),
    {
        let mut body: VecDeque<(i32, i32)> = VecDeque::new();
        body.push_back((x + 2, y));
        body.push_back((x + 1, y));
        body.push_back((x, y));
        let s = Snake { direction: Direction::Right, body, last_removed_block: None };
        assert(s@.body =~= SnakeView::initial(x, y).body);
        s
    }

    /// The current heading.
    pub fn moving_direction(&self) -> (d: Direction)
        ensures
            d == self@.direction,
    {
        self.direction
    }

    /// The number of cells the snake occupies.
    pub fn len(&self) -> (n: usize)
        ensures
            n == self@.body.len(),
    {
        self.body.len()
    }

    /// The cells from head to tail.
    pub fn segments(&self) -> (cells: Vec<(i32, i32)>)
        ensures
            cells@ == self@.body,
    {
        let mut cells: Vec<(i32, i32)> = Vec::new();
        let mut i: usize = 0;
        while i < self.body.len()
            invariant
                i <= self.body@.len(),
                cells@ == self.body@.subrange(0, i as int),
            decreases self.body@.len() - i,
        {
            cells.push(self.body[i]);
            i += 1;
            assert(cells@ =~= self.body@.subrange(0, i as int));
        }
        assert(cells@ =~= self.body@);
        cells
    }

    /// Takes one step: an override, if given, becomes the heading; the head
    /// enters the next cell and the tail cell is dropped and remembered.
    pub fn move_foward(&mut self, dir: Option<Direction>)
        requires
            old(self)@.wf(),
            old(self)@.can_move(dir),
        ensures
            final(self)@ == old(self)@.moved(dir),
            final(self)@.wf(),
    {
        if let Some(d) = dir {
            self.direction = d;
        }
        let (last_x, last_y) = self.head_position();
        let new_block: (i32, i32) = match self.direction {
            Direction::Up => (last_x, last_y - 1),
            Direction::Down => (last_x, last_y + 1),
            Direction::Right => (last_x + 1, last_y),
            Direction::Left => (last_x - 1, last_y),
        };
        self.body.push_front(new_block);
        let removed = self.body.pop_back();
        self.last_removed_block = removed;
        proof {
            assert(self@.body =~= old(self)@.moved(dir).body);
            lemma_moved(old(self)@, dir);
        }
    }

    /// Grows by one cell: the remembered tail cell is appended again and
    /// forgotten. Does nothing when no cell is remembered.
    pub fn restore_last_removed(&mut self)
        ensures
            final(self)@ == old(self)@.restored(),
            old(self)@.wf() ==> final(self)@.wf(),
    {
        proof {
            if old(self)@.wf() {
                lemma_restored(old(self)@);
            }
        }
        if let Some(blk) = self.last_removed_block {
            self.body.push_back(blk);
            self.last_removed_block = None;
        }
    }

    /// The cell of the head.
    pub fn head_position(&self) -> (p: (i32, i32))
        requires
            self@.body.len() >= 1,
        ensures
            p == self@.head(),
    {
        self.body[0]
    }

    /// The cell the head would enter next, with the override if given, else
    /// with the current heading. Changes nothing.
    pub fn next_position(&self, dir: Option<Direction>) -> (p: (i32, i32))
        requires
            self@.body.len() >= 1,
            self@.can_move(dir),
        ensures
            p.0 == self@.next_position(dir).0,
            p.1 == self@.next_position(dir).1,
    {
        let (head_x, head_y): (i32, i32) = self.head_position();
        let moving_dir: Direction = match dir {
            Some(d) => d,
            None => self.direction,
        };
        match moving_dir {
            Direction::Up => (head_x, head_y - 1),
            Direction::Down => (head_x, head_y + 1),
            Direction::Left => (head_x - 1, head_y),
            Direction::Right => (head_x + 1, head_y),
        }
    }

    /// Whether `(x, y)` is one of the snake's cells other than its tail.
    pub fn is_overlap_except_tail(&self, x: i32, y: i32) -> (hit: bool)
        ensures
            hit == self@.overlaps_except_tail((x, y)),
    {
        let n: usize = self.body.len();
        if n == 0 {
            return false;
        }
        let mut i: usize = 0;
        while i < n - 1
            invariant
                n == self.body@.len(),
                n >= 1,
                i <= n - 1,
                forall|j: int| 0 <= j < i ==> self.body@[j] != (x, y),
            decreases n - i,
        {
            let b = self.body[i];
            if x == b.0 && y == b.1 {
                assert(self@.body[i as int] == (x, y));
                return true;
            }
            i += 1;
        }
        false
    }
}

} // verus!
