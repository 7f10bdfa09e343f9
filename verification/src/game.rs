use vstd::prelude::*;

use crate::direction::Direction;
use crate::random::{draw_in_range, thread_generator};
use crate::snake::{as_cell, lemma_moved, lemma_restored, Snake, SnakeView};

verus! {

/// Time between two automatic steps at the start of a round, in microseconds.
pub const MOVING_PERIOD: u64 = 1_000_000;

/// Time a finished round stays on screen before the next one starts, in
/// microseconds.
pub const RESTART_TIME: u64 = 1_000_000;

/// By how much each meal shortens the time between automatic steps.
pub const SPEEDUP: u64 = 50_000;

/// The shortest time between automatic steps.
pub const MIN_PERIOD: u64 = 100_000;

/// How many random cells a search for a food cell draws at most.
pub const FOOD_ATTEMPTS: u32 = 10_000;

/// The step period after one more meal: shorter by `SPEEDUP`, but never
/// below `MIN_PERIOD` and never longer than before.
pub open spec fn sped_up(period: u64) -> u64 {
    if period >= MIN_PERIOD + SPEEDUP {
        (period - SPEEDUP) as u64
    } else if period > MIN_PERIOD {
        MIN_PERIOD
    } else {
        period
    }
}

/// The sum of two times, held at the largest representable time.
pub open spec fn saturating_sum(a: u64, b: u64) -> u64 {
    if a + b > u64::MAX {
        u64::MAX
    } else {
        (a + b) as u64
    }
}

/// The mathematical model of a round.
pub struct GameView {
    pub snake: SnakeView,
    /// The food cell, when food is on the board.
    pub food: Option<(i32, i32)>,
    pub width: i32,
    pub height: i32,
    pub game_over: bool,
    /// Time since the latest step while running, since the end of the round
    /// when it is over.
    pub waiting_time: u64,
    /// Current time between automatic steps.
    pub moving_time: u64,
}

impl GameView {
    /// The state in which every round starts.
    pub open spec fn initial(width: i32, height: i32) -> GameView {
        GameView {
            snake: SnakeView::initial(2, 2),
            food: Some((5i32, 3i32)),
            width,
            height,
            game_over: false,
            waiting_time: 0,
            moving_time: MOVING_PERIOD,
        }
    }

    /// What holds of every state a round can reach: the snake is well
    /// formed, its head has a neighbour on each side in machine integers,
    /// the step period is within its limits, and food never lies on a cell
    /// of the snake other than the tail.
    pub open spec fn wf(self) -> bool {
        &&& self.snake.wf()
        &&& 0 < self.snake.head().0 < i32::MAX
        &&& 0 < self.snake.head().1 < i32::MAX
        &&& MIN_PERIOD <= self.moving_time <= MOVING_PERIOD
        &&& self.food matches Some(f) ==> !self.snake.overlaps_except_tail(f)
    }

    /// `cell` lies strictly inside the wall, which is the outermost ring of
    /// the board.
    pub open spec fn inside(self, cell: (int, int)) -> bool {
        &&& 0 < cell.0 < self.width - 1
        &&& 0 < cell.1 < self.height - 1
    }

    /// A step in direction `dir` (or straight on) is safe: the next head
    /// cell is inside the wall and not on the snake, its tail excepted.
    pub open spec fn snake_alive(self, dir: Option<Direction>) -> bool {
        let next = self.snake.next_position(dir);
        &&& !self.snake.overlaps_except_tail(as_cell(next))
        &&& self.inside(next)
    }

    /// A step in direction `dir` is safe and ends on the food.
    pub open spec fn eats(self, dir: Option<Direction>) -> bool {
        &&& self.snake_alive(dir)
        &&& self.food == Some(as_cell(self.snake.next_position(dir)))
    }

    /// The state after the food check: when the head is on the food, the
    /// food is gone, the snake has grown and the step period is shorter.
    pub open spec fn after_meal(self) -> GameView {
        if self.food == Some(self.snake.head()) {
            GameView {
                snake: self.snake.restored(),
                food: None,
                moving_time: sped_up(self.moving_time),
                ..self
            }
        } else {
            self
        }
    }

    /// The state after one step attempt. A safe step moves the snake and
    /// checks for food; any other ends the round. Either way the waiting
    /// time starts again from zero.
    pub open spec fn stepped(self, dir: Option<Direction>) -> GameView {
        if self.snake_alive(dir) {
            GameView {
                waiting_time: 0,
                ..(GameView { snake: self.snake.moved(dir), ..self }).after_meal()
            }
        } else {
            GameView { game_over: true, waiting_time: 0, ..self }
        }
    }

    /// The state after a direction intent: ignored when the round is over or
    /// when it is the reverse of the heading, else an immediate step.
    pub open spec fn after_key(self, dir: Direction) -> GameView {
        if self.game_over || dir == self.snake.direction.spec_opposite() {
            self
        } else {
            self.stepped(Some(dir))
        }
    }

    /// The state after a sequence of direction intents, first to last.
    pub open spec fn after_keys(self, dirs: Seq<Direction>) -> GameView
        decreases dirs.len(),
    {
        if dirs.len() == 0 {
            self
        } else {
            self.after_keys(dirs.drop_last()).after_key(dirs.last())
        }
    }

    /// The same state with `food` on the board.
    pub open spec fn with_food(self, food: Option<(i32, i32)>) -> GameView {
        GameView { food, ..self }
    }

    /// Food may be put on `cell`: it is inside the wall and not on the
    /// snake, its tail excepted.
    pub open spec fn placeable(self, cell: (i32, i32)) -> bool {
        &&& self.inside((cell.0 as int, cell.1 as int))
        &&& !self.snake.overlaps_except_tail(cell)
    }

    /// `choice` is nothing or a cell on which food may be put.
    pub open spec fn may_place(self, choice: Option<(i32, i32)>) -> bool {
        choice matches Some(c) ==> self.placeable(c)
    }

    /// The same state with `dt` more time waited.
    pub open spec fn waited(self, dt: u64) -> GameView {
        GameView { waiting_time: saturating_sum(self.waiting_time, dt), ..self }
    }

    /// One step straight on if the waiting time exceeds the step period.
    pub open spec fn auto_stepped(self) -> GameView {
        if self.waiting_time > self.moving_time {
            self.stepped(None)
        } else {
            self
        }
    }

    /// The state after `dt` has passed, where `choice` is what the search
    /// for a food cell came up with (it matters only while the round runs
    /// without food). A finished round starts afresh once it has waited
    /// longer than `RESTART_TIME`; a running one gets its food and takes at
    /// most one automatic step.
    pub open spec fn after_update(self, dt: u64, choice: Option<(i32, i32)>) -> GameView {
        let w = self.waited(dt);
        if self.game_over {
            if w.waiting_time > RESTART_TIME {
                GameView::initial(self.width, self.height)
            } else {
                w
            }
        } else if self.food is None {
            w.with_food(choice).auto_stepped()
        } else {
            w.auto_stepped()
        }
    }
}

/// A snapshot of a round for whoever draws it.
pub struct Frame {
    /// The snake's cells, head first.
    pub segments: Vec<(i32, i32)>,
    pub food: Option<(i32, i32)>,
    pub game_over: bool,
    pub width: i32,
    pub height: i32,
}

/// A round of the game: the snake, the food and the clock.
pub struct Game {
    snake: Snake,
    food_exist: bool,
    food_y: i32,
    food_x: i32,
    width: i32,
    height: i32,
    is_game_over: bool,
    waiting_time: u64,
    moving_time: u64,
}

impl View for Game {
    type V = GameView;

    closed spec fn view(&self) -> GameView {
        GameView {
            snake: self.snake@,
            food: if self.food_exist {
                Some((self.food_x, self.food_y))
            } else {
                None
            },
            width: self.width,
            height: self.height,
            game_over: self.is_game_over,
            waiting_time: self.waiting_time,
            moving_time: self.moving_time,
        }
    }
}

impl Game {
    /// A fresh round on a board of the given size.
    pub fn new(width: i32, height: i32) -> (g: Game)
        ensures
            g@ == GameView::initial(width, height),
            g@.wf(),
    {
        let g = Game {
            snake: Snake::new(2, 2),
            waiting_time: 0,
            food_exist: true,
            food_x: 5,
            food_y: 3,
            width: width,
            height: height,
            is_game_over: false,
            moving_time: MOVING_PERIOD,
        };
        proof {
            lemma_initial_wf(width, height);
        }
        g
    }

    /// Handles a direction intent. It is ignored when the round is over or
    /// when it would turn the snake back on itself; any other makes the
    /// snake step at once.
    pub fn key_pressed(&mut self, dir: Direction)
        requires
            old(self)@.wf(),
        ensures
            final(self)@ == old(self)@.after_key(dir),
            final(self)@.wf(),
    {
        if self.is_game_over {
            return;
        }
        if self.snake.moving_direction().opposite() == dir {
            return;
        }
        self.update_snake(Some(dir));
    }

    /// Whether `(x, y)` lies strictly inside the wall.
    pub fn is_inside(&self, x: i32, y: i32) -> (r: bool)
        ensures
            r == self@.inside((x as int, y as int)),
    {
        // `width - 1` is only computed once `width` is known to be positive.
        let in_columns = x > 0 && x < self.width && x < self.width - 1;
        let in_rows = y > 0 && y < self.height && y < self.height - 1;
        in_columns && in_rows
    }

    /// Whether the snake survives a step in direction `dir` (or straight on).
    pub fn snake_alive(&self, dir: Option<Direction>) -> (alive: bool)
        requires
            self@.wf(),
        ensures
            alive == self@.snake_alive(dir),
    {
        let (next_head_x, next_head_y) = self.snake.next_position(dir);
        if self.snake.is_overlap_except_tail(next_head_x, next_head_y) {
            return false;
        }
        self.is_inside(next_head_x, next_head_y)
    }

    /// Eats the food if the head is on it: the food disappears, the snake
    /// grows by one cell and the step period shrinks.
    pub fn check_eating(&mut self)
        requires
            old(self)@.snake.wf(),
        ensures
            final(self)@ == old(self)@.after_meal(),
            old(self)@.wf() ==> final(self)@.wf(),
    {
        proof {
            lemma_restored(old(self)@.snake);
        }
        let (head_x, head_y) = self.snake.head_position();
        if self.food_exist && self.food_x == head_x && self.food_y == head_y {
            self.food_exist = false;
            self.snake.restore_last_removed();
            if self.moving_time >= MIN_PERIOD + SPEEDUP {
                self.moving_time = self.moving_time - SPEEDUP;
            } else if self.moving_time > MIN_PERIOD {
                self.moving_time = MIN_PERIOD;
            }
        }
    }

    /// Attempts one step in direction `dir` (or straight on).
    pub fn update_snake(&mut self, dir: Option<Direction>)
        requires
            old(self)@.wf(),
        ensures
            final(self)@ == old(self)@.stepped(dir),
            final(self)@.wf(),
    {
        proof {
            lemma_stepped(old(self)@, dir);
        }
        if self.snake_alive(dir) {
            self.snake.move_foward(dir);
            self.check_eating();
        } else {
            self.is_game_over = true;
        }
        self.waiting_time = 0;
    }

    /// Puts food on `(x, y)` if food may be put there, and says whether it
    /// did.
    pub fn place_food(&mut self, x: i32, y: i32) -> (placed: bool)
        requires
            old(self)@.wf(),
        ensures
            placed == old(self)@.placeable((x, y)),
            placed ==> final(self)@ == old(self)@.with_food(Some((x, y))),
            !placed ==> final(self)@ == old(self)@,
            final(self)@.wf(),
    {
        if !self.is_inside(x, y) || self.snake.is_overlap_except_tail(x, y) {
            return false;
        }
        self.food_x = x;
        self.food_y = y;
        self.food_exist = true;
        true
    }

    /// Puts food on a cell that allows it, if the board has one: on a random
    /// cell inside the wall, drawn at most `FOOD_ATTEMPTS` times, else on the
    /// first such cell row by row. Nothing but the food changes.
    pub fn add_food(&mut self)
        requires
            old(self)@.wf(),
        ensures
            final(self)@ == old(self)@.with_food(final(self)@.food),
            old(self)@.has_room() ==> final(self)@.food is Some,
            old(self)@.has_room() ==> old(self)@.may_place(final(self)@.food),
            !old(self)@.has_room() ==> final(self)@ == old(self)@,
            final(self)@.wf(),
    {
        if self.width <= 2 || self.height <= 2 {
            return;
        }
        let ghost before = self@;
        let mut rng = thread_generator();
        let mut tries: u32 = 0;
        while tries < FOOD_ATTEMPTS
            invariant
                self@ == before,
                before == old(self)@,
                before.wf(),
                self.width > 2,
                self.height > 2,
            decreases FOOD_ATTEMPTS - tries,
        {
            let new_x: i32 = draw_in_range(&mut rng, 1, self.width - 1);
            let new_y: i32 = draw_in_range(&mut rng, 1, self.height - 1);
            if self.place_food(new_x, new_y) {
                assert(before.placeable((new_x, new_y)));
                return;
            }
            tries += 1;
        }
        self.place_food_on_first_free_cell();
    }

    /// Puts food on the first cell that allows it, going through the cells
    /// inside the wall row by row from the top and in each row from the
    /// left, and says whether there was such a cell.
    pub fn place_food_on_first_free_cell(&mut self) -> (placed: bool)
        requires
            old(self)@.wf(),
        ensures
            placed == old(self)@.has_room(),
            placed ==> old(self)@.placeable(old(self)@.first_free_cell()),
            placed ==> final(self)@ == old(self)@.with_food(Some(old(self)@.first_free_cell())),
            !placed ==> final(self)@ == old(self)@,
            final(self)@.wf(),
    {
        if self.width <= 2 || self.height <= 2 {
            return false;
        }
        let ghost before = self@;
        let mut y: i32 = 1;
        while y < self.height - 1
            invariant
                self@ == before,
                before == old(self)@,
                before.wf(),
                self.width > 2,
                self.height > 2,
                1 <= y <= self.height - 1,
                forall|c: (i32, i32)| #[trigger] before.placeable(c) ==> c.1 >= y,
            decreases self.height - y,
        {
            let mut x: i32 = 1;
            while x < self.width - 1
                invariant
                    self@ == before,
                    before == old(self)@,
                    before.wf(),
                    self.width > 2,
                    self.height > 2,
                    1 <= y < self.height - 1,
                    1 <= x <= self.width - 1,
                    forall|c: (i32, i32)| #[trigger]
                        before.placeable(c) ==> before.comes_first((x, y), c),
                decreases self.width - x,
            {
                if self.place_food(x, y) {
                    proof {
                        before.lemma_first_free_cell((x, y));
                    }
                    return true;
                }
                x += 1;
            }
            y += 1;
        }
        false
    }

    /// Lets `delta_time` microseconds pass. A finished round starts afresh
    /// once it has waited longer than `RESTART_TIME`. A running round first
    /// gets food if it has none, then takes one automatic step if it has
    /// waited longer than its step period: one step at most, however long
    /// the wait.
    pub fn update(&mut self, delta_time: u64)
        requires
            old(self)@.wf(),
        ensures
            exists|choice: Option<(i32, i32)>|
                (#[trigger] old(self)@.may_find(choice)) && final(self)@ == old(
                    self,
                )@.after_update(delta_time, choice),
            old(self)@.game_over || old(self)@.food is Some ==> final(self)@
                == old(self)@.after_update(delta_time, None),
            final(self)@.wf(),
    {
        proof {
            lemma_initial_wf(self.width, self.height);
        }
        self.waiting_time = self.waiting_time.saturating_add(delta_time);
        if self.is_game_over {
            if self.waiting_time > RESTART_TIME {
                self.restart();
            }
            assert(old(self)@.may_find(None));
            return;
        }
        if !self.food_exist {
            self.add_food();
        }
        let ghost choice = if old(self)@.food is None {
            self@.food
        } else {
            None
        };
        if self.waiting_time > self.moving_time {
            self.update_snake(None);
        }
        proof {
            old(self)@.lemma_room_outlasts_waiting(delta_time);
        }
        assert(old(self)@.may_find(choice));
        assert(self@ == old(self)@.after_update(delta_time, choice));
    }

    /// Starts the next round on the same board.
    pub fn restart(&mut self)
        ensures
            final(self)@ == GameView::initial(old(self)@.width, old(self)@.height),
            final(self)@.wf(),
    {
        self.snake = Snake::new(2, 2);
        self.waiting_time = 0;
        self.food_exist = true;
        self.food_x = 5;
        self.food_y = 3;
        self.is_game_over = false;
        self.moving_time = MOVING_PERIOD;
        proof {
            lemma_initial_wf(self.width, self.height);
        }
    }

    /// A snapshot of the round for drawing. Changes nothing.
    pub fn render_view(&self) -> (frame: Frame)
        ensures
            frame.segments@ == self@.snake.body,
            frame.food == self@.food,
            frame.game_over == self@.game_over,
            frame.width == self@.width,
            frame.height == self@.height,
    {
        Frame {
            segments: self.snake.segments(),
            food: if self.food_exist {
                Some((self.food_x, self.food_y))
            } else {
                None
            },
            game_over: self.is_game_over,
            width: self.width,
            height: self.height,
        }
    }

    /// The snake's current heading.
    pub fn heading(&self) -> (d: Direction)
        ensures
            d == self@.snake.direction,
    {
        self.snake.moving_direction()
    }

    /// Whether the round is over.
    pub fn is_game_over(&self) -> (over: bool)
        ensures
            over == self@.game_over,
    {
        self.is_game_over
    }

    /// Microseconds waited since the latest step or since the round ended.
    pub fn waiting_time(&self) -> (t: u64)
        ensures
            t == self@.waiting_time,
    {
        self.waiting_time
    }

    /// Microseconds between automatic steps.
    pub fn moving_time(&self) -> (t: u64)
        ensures
            t == self@.moving_time,
    {
        self.moving_time
    }
}

/// Every round starts in a well-formed state.
pub proof fn lemma_initial_wf(width: i32, height: i32)
    ensures
        GameView::initial(width, height).wf(),
{
    let v = GameView::initial(width, height);
    assert(v.snake.body[0] == (4i32, 2i32));
    assert(v.snake.body[1] == (3i32, 2i32));
    assert(v.snake.body[2] == (2i32, 2i32));
}

/// A step attempt leaves a well-formed state. A step that eats adds exactly
/// one cell to the snake and takes the food off the board; any other step
/// keeps both the length and the food. The step period never grows and
/// stays within its limits.
pub proof fn lemma_stepped(v: GameView, dir: Option<Direction>)
    requires
        v.wf(),
    ensures
        v.stepped(dir).wf(),
        v.snake.can_move(dir),
        v.eats(dir) ==> v.stepped(dir).snake.body.len() == v.snake.body.len() + 1,
        v.eats(dir) ==> v.stepped(dir).food is None,
        !v.eats(dir) ==> v.stepped(dir).snake.body.len() == v.snake.body.len(),
        !v.eats(dir) ==> v.stepped(dir).food == v.food,
        MIN_PERIOD <= v.stepped(dir).moving_time <= v.moving_time,
        !v.game_over ==> v.stepped(dir) != v,
{
    let s = v.stepped(dir);
    if v.snake_alive(dir) {
        let m = v.snake.moved(dir);
        lemma_moved(v.snake, dir);
        lemma_restored(m);
        assert(s.snake.body[0] == m.body[0]);
        assert(s.snake.body[0] != v.snake.body[0]);
        if let Some(f) = s.food {
            assert(s.snake == m);
            assert(v.food == Some(f));
            assert(f != m.head());
            if m.overlaps_except_tail(f) {
                let i = choose|i: int| 0 <= i < m.body.len() - 1 && #[trigger] m.body[i] == f;
                assert(i >= 1);
                assert(v.snake.body[i - 1] == f);
            }
        }
    }
}

impl GameView {
    /// There is a cell on which food may be put.
    pub open spec fn has_room(self) -> bool {
        exists|c: (i32, i32)| self.placeable(c)
    }

    /// What the search for a food cell can come up with in this state: only
    /// a cell on which food may be put, and some cell whenever a running
    /// round has no food but room for it.
    pub open spec fn may_find(self, choice: Option<(i32, i32)>) -> bool {
        &&& self.may_place(choice)
        &&& !self.game_over && self.food is None && self.has_room() ==> choice is Some
    }

    /// Waiting neither makes nor takes room for food.
    pub proof fn lemma_room_outlasts_waiting(self, dt: u64)
        ensures
            self.waited(dt).has_room() == self.has_room(),
    {
        if self.has_room() {
            let c = choose|c: (i32, i32)| self.placeable(c);
            assert(self.waited(dt).placeable(c));
        }
        if self.waited(dt).has_room() {
            let c = choose|c: (i32, i32)| self.waited(dt).placeable(c);
            assert(self.placeable(c));
        }
    }

    /// Going through the board row by row from the top, and through each row
    /// from the left, cell `a` is met no later than cell `b`.
    pub open spec fn comes_first(self, a: (i32, i32), b: (i32, i32)) -> bool {
        a.1 < b.1 || (a.1 == b.1 && a.0 <= b.0)
    }

    /// The cell on which food may be put that is met first, if there is one.
    pub open spec fn first_free_cell(self) -> (i32, i32) {
        choose|c: (i32, i32)|
            self.placeable(c) && forall|d: (i32, i32)| #[trigger]
                self.placeable(d) ==> self.comes_first(c, d)
    }

    /// A cell that allows food and is met before every other such cell is
    /// the first free cell.
    pub proof fn lemma_first_free_cell(self, c: (i32, i32))
        requires
            self.placeable(c),
            forall|d: (i32, i32)| #[trigger] self.placeable(d) ==> self.comes_first(c, d),
        ensures
            self.has_room(),
            self.first_free_cell() == c,
    {
        let f = self.first_free_cell();
        assert(self.placeable(f) && self.comes_first(f, c));
        assert(self.comes_first(c, f));
        assert(f.0 == c.0 && f.1 == c.1);
    }
}

} // verus!
