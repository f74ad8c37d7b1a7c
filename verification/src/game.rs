use vstd::prelude::*;

verus! {

/// One square of the grid: a column `x` and a row `y`,
/// with `0 <= x < width` and `0 <= y < height`.
#[derive(Clone, Copy, PartialEq, Eq, Structural, Debug)]
pub struct Cell {
    pub x: usize,
    pub y: usize,
}

/// A heading of the snake. `Up` decreases the row, `Down` increases it,
/// `Left` decreases the column, `Right` increases it.
#[derive(Clone, Copy, PartialEq, Eq, Structural, Debug)]
pub enum Direction {
    Up,
    Down,
    Left,
    Right,
}

impl Direction {
    /// The heading that points the other way.
    pub open spec fn opposite_spec(self) -> Direction {
        match self {
            Direction::Up => Direction::Down,
            Direction::Down => Direction::Up,
            Direction::Left => Direction::Right,
            Direction::Right => Direction::Left,
        }
    }

    /// The heading that points the other way.
    pub fn opposite(self) -> (r: Direction)
        ensures
            r == self.opposite_spec(),
    {
        match self {
            Direction::Up => Direction::Down,
            Direction::Down => Direction::Up,
            Direction::Left => Direction::Right,
            Direction::Right => Direction::Left,
        }
    }
}

/// The cell one step from `c` along `d` on a `width` by `height` grid whose
/// edges wrap around: stepping off one edge reappears at the opposite edge.
pub open spec fn step_spec(c: Cell, d: Direction, width: usize, height: usize) -> Cell
    recommends
        width > 0,
        height > 0,
        c.x < width,
        c.y < height,
{
    match d {
        Direction::Up => Cell { x: c.x, y: if c.y == 0 { (height - 1) as usize } else { (c.y - 1) as usize } },
        Direction::Down => Cell { x: c.x, y: if c.y + 1 == height { 0 } else { (c.y + 1) as usize } },
        Direction::Left => Cell { x: if c.x == 0 { (width - 1) as usize } else { (c.x - 1) as usize }, y: c.y },
        Direction::Right => Cell { x: if c.x + 1 == width { 0 } else { (c.x + 1) as usize }, y: c.y },
    }
}

/// Executable counterpart of [`step_spec`].
fn step(c: Cell, d: Direction, width: usize, height: usize) -> (r: Cell)
    requires
        width > 0,
        height > 0,
        c.x < width,
        c.y < height,
    ensures
        r == step_spec(c, d, width, height),
        r.x < width,
        r.y < height,
{
    match d {
        Direction::Up => Cell { x: c.x, y: if c.y == 0 { height - 1 } else { c.y - 1 } },
        Direction::Down => Cell { x: c.x, y: if c.y + 1 == height { 0 } else { c.y + 1 } },
        Direction::Left => Cell { x: if c.x == 0 { width - 1 } else { c.x - 1 }, y: c.y },
        Direction::Right => Cell { x: if c.x + 1 == width { 0 } else { c.x + 1 }, y: c.y },
    }
}

/// Whether `c` occurs among the first `n` cells of `cells`.
fn prefix_contains(cells: &Vec<Cell>, n: usize, c: Cell) -> (r: bool)
    requires
        n <= cells@.len(),
    ensures
        r == cells@.subrange(0, n as int).contains(c),
{
    let ghost prefix = cells@.subrange(0, n as int);
    let mut i: usize = 0;
    while i < n
        invariant
            i <= n,
            n <= cells@.len(),
            prefix == cells@.subrange(0, n as int),
            forall|j: int| 0 <= j < i ==> cells@[j] != c,
        decreases n - i,
    {
        if cells[i] == c {
            proof {
                assert(prefix[i as int] == c);
            }
            return true;
        }
        i += 1;
    }
    proof {
        assert forall|j: int| 0 <= j < prefix.len() implies prefix[j] != c by {
            assert(prefix[j] == cells@[j]);
        }
    }
    false
}

/// Whether `c` occurs in `cells`.
fn contains_cell(cells: &Vec<Cell>, c: Cell) -> (r: bool)
    ensures
        r == cells@.contains(c),
{
    let n = cells.len();
    let r = prefix_contains(cells, n, c);
    proof {
        assert(cells@.subrange(0, n as int) =~= cells@);
    }
    r
}

/// Collects every cell of the `width` by `height` grid that does not occur
/// in `body`, column by column.
fn free_cells(width: usize, height: usize, body: &Vec<Cell>) -> (r: Vec<Cell>)
    requires
        width > 0,
        height > 0,
    ensures
        forall|i: int|
            0 <= i < r@.len() ==> (#[trigger] r@[i]).x < width && r@[i].y < height
                && !body@.contains(r@[i]),
        forall|c: Cell| c.x < width && c.y < height && !body@.contains(c) ==> r@.contains(c),
{
    let mut r: Vec<Cell> = Vec::new();
    let mut x: usize = 0;
    while x < width
        invariant
            x <= width,
            forall|i: int|
                0 <= i < r@.len() ==> (#[trigger] r@[i]).x < width && r@[i].y < height
                    && !body@.contains(r@[i]),
            forall|c: Cell| c.x < x && c.y < height && !body@.contains(c) ==> r@.contains(c),
        decreases width - x,
    {
        let mut y: usize = 0;
        while y < height
            invariant
                y <= height,
                x < width,
                forall|i: int|
                    0 <= i < r@.len() ==> (#[trigger] r@[i]).x < width && r@[i].y < height
                        && !body@.contains(r@[i]),
                forall|c: Cell| c.x < x && c.y < height && !body@.contains(c) ==> r@.contains(c),
                forall|c: Cell| c.x == x && c.y < y && !body@.contains(c) ==> r@.contains(c),
            decreases height - y,
        {
            let cand = Cell { x, y };
            if !contains_cell(body, cand) {
                let ghost before = r@;
                r.push(cand);
                proof {
                    assert(r@[before.len() as int] == cand);
                    assert forall|c: Cell| before.contains(c) implies r@.contains(c) by {
                        let j = choose|j: int| 0 <= j < before.len() && before[j] == c;
                        assert(r@[j] == c);
                    }
                }
            }
            y += 1;
        }
        x += 1;
    }
    r
}

/// Picks a cell off the snake's body uniformly at random, if one is free;
/// reports that the board is full otherwise.
fn pick_free_cell(width: usize, height: usize, body: &Vec<Cell>) -> (r: Option<Cell>)
    requires
        width > 0,
        height > 0,
    ensures
        match r {
            Some(c) => c.x < width && c.y < height && !body@.contains(c),
            None => forall|c: Cell| c.x < width && c.y < height ==> body@.contains(c),
        },
{
    let free = free_cells(width, height, body);
    if free.len() == 0 {
        proof {
            assert forall|c: Cell| c.x < width && c.y < height implies body@.contains(c) by {
                if !body@.contains(c) {
                    assert(free@.contains(c));
                }
            }
        }
        None
    } else {
        let i = crate::rng::random_below(free.len());
        proof {
            assert(free@.contains(free@[i as int]));
        }
        Some(free[i])
    }
}

/// The ways a tick can fail.
#[derive(Clone, Copy, PartialEq, Eq, Structural, Debug)]
pub enum GameError {
    /// The next head cell is already occupied by the snake's body.
    Collision,
    /// The snake fills the whole grid, so no free cell is left for food.
    BoardFull,
}

/// What a successful tick did to the snake.
#[derive(Clone, Copy, PartialEq, Eq, Structural, Debug)]
pub enum AdvanceOutcome {
    /// The snake moved one cell; its length is unchanged.
    Moved,
    /// The snake ate the food and gained one cell.
    Grew,
}

/// All cells of `s` are pairwise distinct.
pub open spec fn pairwise_distinct(s: Seq<Cell>) -> bool {
    forall|i: int, j: int| 0 <= i < j < s.len() ==> s[i] != s[j]
}

/// Every cell of `s` lies on a `width` by `height` grid.
pub open spec fn all_in_range(s: Seq<Cell>, width: usize, height: usize) -> bool {
    forall|i: int| 0 <= i < s.len() ==> (#[trigger] s[i]).x < width && s[i].y < height
}

/// The heading after a direction change is requested: the request is taken,
/// unless it is the exact opposite of the current heading, which is ignored.
pub open spec fn next_direction(current: Direction, requested: Direction) -> Direction {
    if requested == current.opposite_spec() {
        current
    } else {
        requested
    }
}

/// The snake every game starts with: three cells in a vertical line with the
/// head at column 5, row 5, matching an initial heading of `Right`.
pub open spec fn start_body() -> Seq<Cell> {
    seq![Cell { x: 5, y: 5 }, Cell { x: 5, y: 4 }, Cell { x: 5, y: 3 }]
}

/// The whole state of one game: the snake's body (front = head, back =
/// tail), its heading, the food cell, the fixed grid size, the score, and
/// whether the game has ended.
pub struct GameState {
    body: Vec<Cell>,
    direction: Direction,
    food: Cell,
    width: usize,
    height: usize,
    score: usize,
    game_over: bool,
}

impl GameState {
    /// The snake's cells, front = head, back = tail.
    pub closed spec fn body_view(&self) -> Seq<Cell> {
        self.body@
    }

    /// The current heading.
    pub closed spec fn dir(&self) -> Direction {
        self.direction
    }

    /// The cell the food sits on.
    pub closed spec fn food_cell(&self) -> Cell {
        self.food
    }

    /// The number of columns of the grid.
    pub closed spec fn grid_width(&self) -> usize {
        self.width
    }

    /// The number of rows of the grid.
    pub closed spec fn grid_height(&self) -> usize {
        self.height
    }

    /// How many pieces of food the snake has eaten since the last reset.
    pub closed spec fn current_score(&self) -> usize {
        self.score
    }

    /// Whether the game is still running (not ended by collision or a full
    /// board).
    pub closed spec fn playing(&self) -> bool {
        !self.game_over
    }

    /// Every cell of the grid is occupied by the snake.
    pub open spec fn board_full(&self) -> bool {
        forall|c: Cell|
            c.x < self.grid_width() && c.y < self.grid_height() ==> self.body_view().contains(c)
    }

    /// Well-formedness of a game state: the grid is non-empty, the snake has
    /// at least one cell, its cells are pairwise distinct and on the grid,
    /// the food is on the grid and, while the game is running, not under the
    /// snake, and the score is below the snake's length (the snake gains one
    /// cell with every point).
    pub open spec fn wf(&self) -> bool {
        &&& self.grid_width() > 0
        &&& self.grid_height() > 0
        &&& self.body_view().len() >= 1
        &&& pairwise_distinct(self.body_view())
        &&& all_in_range(self.body_view(), self.grid_width(), self.grid_height())
        &&& self.food_cell().x < self.grid_width()
        &&& self.food_cell().y < self.grid_height()
        &&& (self.playing() ==> !self.body_view().contains(self.food_cell()))
        &&& self.current_score() < self.body_view().len()
    }

    /// The cell the head will move to on the next tick.
    pub open spec fn next_head(&self) -> Cell
        recommends
            self.wf(),
    {
        step_spec(self.body_view()[0], self.dir(), self.grid_width(), self.grid_height())
    }

    /// Whether the next tick grows the snake: the next head cell holds the
    /// food.
    pub open spec fn next_grows(&self) -> bool
        recommends
            self.wf(),
    {
        self.next_head() == self.food_cell()
    }

    /// The cells the next head may collide with: the whole body when the
    /// snake is about to grow, the body minus the tail cell it is about to
    /// vacate otherwise.
    pub open spec fn blocked_cells(&self) -> Seq<Cell>
        recommends
            self.wf(),
    {
        if self.next_grows() {
            self.body_view()
        } else {
            self.body_view().drop_last()
        }
    }

    /// Whether the next tick ends the game by self-collision.
    pub open spec fn next_collides(&self) -> bool
        recommends
            self.wf(),
    {
        self.blocked_cells().contains(self.next_head())
    }

    /// A fresh game on the fixed 20 by 20 grid: the starting snake, heading
    /// `Right`, food at column 10, row 10, score 0.
    pub fn new() -> (r: GameState)
        ensures
            r.wf(),
            r.grid_width() == 20,
            r.grid_height() == 20,
            r.body_view() == start_body(),
            r.dir() == Direction::Right,
            r.food_cell() == (Cell { x: 10, y: 10 }),
            r.current_score() == 0,
            r.playing(),
    {
        let mut body: Vec<Cell> = Vec::new();
        body.push(Cell { x: 5, y: 5 });
        body.push(Cell { x: 5, y: 4 });
        body.push(Cell { x: 5, y: 3 });
        proof {
            assert(body@ =~= start_body());
            assert(!start_body().contains(Cell { x: 10, y: 10 }));
        }
        GameState {
            body,
            direction: Direction::Right,
            food: Cell { x: 10, y: 10 },
            width: 20,
            height: 20,
            score: 0,
            game_over: false,
        }
    }

    /// One tick of the game. The head advances one cell along the current
    /// heading, wrapping around the grid edges. If the new head cell is
    /// occupied by the body — not counting the tail cell about to be vacated
    /// on a non-growing move — the game ends with `Collision` and the body,
    /// food and score are left as they were. Otherwise the new head joins
    /// the body; landing on the food keeps the tail (the snake grows), adds
    /// a point, and places new food on a free cell, while any other move
    /// drops the tail. When the grown snake fills the whole grid, no food
    /// can be placed and the game ends with `BoardFull`.
    pub fn update(&mut self) -> (r: Result<AdvanceOutcome, GameError>)
        requires
            old(self).wf(),
            old(self).playing(),
        ensures
            final(self).wf(),
            final(self).grid_width() == old(self).grid_width(),
            final(self).grid_height() == old(self).grid_height(),
            final(self).dir() == old(self).dir(),
            old(self).next_collides() ==> {
                &&& r == Err::<AdvanceOutcome, GameError>(GameError::Collision)
                &&& final(self).body_view() == old(self).body_view()
                &&& final(self).food_cell() == old(self).food_cell()
                &&& final(self).current_score() == old(self).current_score()
                &&& !final(self).playing()
            },
            !old(self).next_collides() && !old(self).next_grows() ==> {
                &&& r == Ok::<AdvanceOutcome, GameError>(AdvanceOutcome::Moved)
                &&& final(self).body_view() == seq![old(self).next_head()]
                    + old(self).body_view().drop_last()
                &&& final(self).body_view().len() == old(self).body_view().len()
                &&& final(self).food_cell() == old(self).food_cell()
                &&& final(self).current_score() == old(self).current_score()
                &&& final(self).playing()
            },
            !old(self).next_collides() && old(self).next_grows() ==> {
                &&& final(self).body_view() == seq![old(self).next_head()]
                    + old(self).body_view()
                &&& final(self).body_view().len() == old(self).body_view().len() + 1
                &&& final(self).current_score() == old(self).current_score() + 1
                &&& if final(self).board_full() {
                    &&& r == Err::<AdvanceOutcome, GameError>(GameError::BoardFull)
                    &&& final(self).food_cell() == old(self).food_cell()
                    &&& !final(self).playing()
                } else {
                    &&& r == Ok::<AdvanceOutcome, GameError>(AdvanceOutcome::Grew)
                    &&& final(self).food_cell().x < final(self).grid_width()
                    &&& final(self).food_cell().y < final(self).grid_height()
                    &&& !final(self).body_view().contains(final(self).food_cell())
                    &&& final(self).playing()
                }
            },
    {
        let ghost old_body = self.body@;
        let head = self.body[0];
        let new_head = step(head, self.direction, self.width, self.height);
        let growing = new_head == self.food;
        proof {
            assert(new_head == old(self).next_head());
            assert(growing == old(self).next_grows());
        }

        let len = self.body.len();
        let limit = if growing {
            len
        } else {
            len - 1
        };
        let collided = prefix_contains(&self.body, limit, new_head);
        proof {
            if growing {
                assert(old_body.subrange(0, len as int) =~= old_body);
            } else {
                assert(old_body.subrange(0, (len - 1) as int) =~= old_body.drop_last());
            }
            assert(collided == old(self).next_collides());
        }

        if collided {
            self.game_over = true;
            return Err(GameError::Collision);
        }

        self.body.insert(0, new_head);
        proof {
            assert(self.body@ =~= seq![new_head] + old_body);
        }

        if growing {
            proof {
                assert(!old_body.contains(new_head));
                assert forall|i: int, j: int| 0 <= i < j < self.body@.len() implies self.body@[i]
                    != self.body@[j] by {
                    if i == 0 {
                        assert(old_body.contains(old_body[j - 1]));
                    } else {
                        assert(self.body@[i] == old_body[i - 1]);
                        assert(self.body@[j] == old_body[j - 1]);
                    }
                }
            }
            self.score = self.score + 1;
            match pick_free_cell(self.width, self.height, &self.body) {
                Some(c) => {
                    self.food = c;
                    proof {
                        assert(!self.body_view().contains(c));
                        assert(!self.board_full());
                    }
                    Ok(AdvanceOutcome::Grew)
                },
                None => {
                    self.game_over = true;
                    Err(GameError::BoardFull)
                },
            }
        } else {
            self.body.pop();
            proof {
                assert(self.body@ =~= seq![new_head] + old_body.drop_last());
                let ghost dropped = old_body.drop_last();
                assert(!dropped.contains(new_head));
                assert forall|i: int, j: int| 0 <= i < j < self.body@.len() implies self.body@[i]
                    != self.body@[j] by {
                    if i == 0 {
                        assert(dropped.contains(dropped[j - 1]));
                    } else {
                        assert(self.body@[i] == dropped[i - 1]);
                        assert(self.body@[j] == dropped[j - 1]);
                        assert(dropped[i - 1] == old_body[i - 1]);
                        assert(dropped[j - 1] == old_body[j - 1]);
                    }
                }
                assert(!old_body.contains(old(self).food_cell()));
                assert forall|i: int| 0 <= i < self.body@.len() implies self.body@[i]
                    != old(self).food_cell() by {
                    if i == 0 {
                        assert(new_head != old(self).food_cell());
                    } else {
                        assert(self.body@[i] == old_body[i - 1]);
                        assert(old_body.contains(old_body[i - 1]));
                    }
                }
            }
            Ok(AdvanceOutcome::Moved)
        }
    }

    /// Sets the heading for the next tick to `requested`, unless `requested`
    /// is the exact opposite of the current heading; such a reversal is
    /// silently ignored. Nothing else changes.
    pub fn change_direction(&mut self, requested: Direction)
        ensures
            final(self).dir() == next_direction(old(self).dir(), requested),
            final(self).body_view() == old(self).body_view(),
            final(self).food_cell() == old(self).food_cell(),
            final(self).grid_width() == old(self).grid_width(),
            final(self).grid_height() == old(self).grid_height(),
            final(self).current_score() == old(self).current_score(),
            final(self).playing() == old(self).playing(),
            old(self).wf() ==> final(self).wf(),
    {
        if requested != self.direction.opposite() {
            self.direction = requested;
        }
    }

    /// Moves the food to a cell chosen uniformly at random among the cells
    /// the snake does not occupy. When no cell is free — the snake fills the
    /// grid — the food is left where it is and `BoardFull` is reported.
    pub fn spawn_food(&mut self) -> (r: Result<(), GameError>)
        requires
            old(self).wf(),
        ensures
            final(self).wf(),
            final(self).body_view() == old(self).body_view(),
            final(self).dir() == old(self).dir(),
            final(self).grid_width() == old(self).grid_width(),
            final(self).grid_height() == old(self).grid_height(),
            final(self).current_score() == old(self).current_score(),
            final(self).playing() == old(self).playing(),
            !old(self).board_full() ==> {
                &&& r == Ok::<(), GameError>(())
                &&& final(self).food_cell().x < final(self).grid_width()
                &&& final(self).food_cell().y < final(self).grid_height()
                &&& !final(self).body_view().contains(final(self).food_cell())
            },
            old(self).board_full() ==> {
                &&& r == Err::<(), GameError>(GameError::BoardFull)
                &&& final(self).food_cell() == old(self).food_cell()
            },
    {
        match pick_free_cell(self.width, self.height, &self.body) {
            Some(c) => {
                self.food = c;
                proof {
                    assert(!self.body_view().contains(c));
                    assert(!self.board_full());
                }
                Ok(())
            },
            None => {
                Err(GameError::BoardFull)
            },
        }
    }

    /// A fresh game on a `width` by `height` grid: the starting snake,
    /// heading `Right`, score 0, and food placed at random on a free cell.
    /// The grid must be large enough to hold the starting snake.
    pub fn with_grid(width: usize, height: usize) -> (r: GameState)
        requires
            width >= 6,
            height >= 6,
        ensures
            r.wf(),
            r.grid_width() == width,
            r.grid_height() == height,
            r.body_view() == start_body(),
            r.dir() == Direction::Right,
            r.current_score() == 0,
            r.playing(),
            r.food_cell().x < width,
            r.food_cell().y < height,
            !r.body_view().contains(r.food_cell()),
    {
        let mut body: Vec<Cell> = Vec::new();
        body.push(Cell { x: 5, y: 5 });
        body.push(Cell { x: 5, y: 4 });
        body.push(Cell { x: 5, y: 3 });
        proof {
            assert(body@ =~= start_body());
        }
        let food = match pick_free_cell(width, height, &body) {
            Some(c) => c,
            None => {
                proof {
                    assert(body@.contains(Cell { x: 0, y: 0 }));
                    assert(false);
                }
                Cell { x: 0, y: 0 }
            },
        };
        GameState {
            body,
            direction: Direction::Right,
            food,
            width,
            height,
            score: 0,
            game_over: false,
        }
    }

    /// Replaces the whole state with a fresh game on the same grid: the
    /// starting snake, heading `Right`, score 0, food placed at random on a
    /// free cell, and the game running again.
    pub fn reset(&mut self)
        requires
            old(self).grid_width() >= 6,
            old(self).grid_height() >= 6,
        ensures
            final(self).wf(),
            final(self).grid_width() == old(self).grid_width(),
            final(self).grid_height() == old(self).grid_height(),
            final(self).body_view() == start_body(),
            final(self).dir() == Direction::Right,
            final(self).current_score() == 0,
            final(self).playing(),
            final(self).food_cell().x < final(self).grid_width(),
            final(self).food_cell().y < final(self).grid_height(),
            !final(self).body_view().contains(final(self).food_cell()),
    {
        let width = self.width;
        let height = self.height;
        *self = GameState::with_grid(width, height);
    }

    /// A game built from explicit pieces, for drivers and tests that need a
    /// particular position: `Some` exactly when the pieces satisfy
    /// [`valid_parts`], with score 0 and the game running.
    pub fn from_parts(
        width: usize,
        height: usize,
        body: Vec<Cell>,
        direction: Direction,
        food: Cell,
    ) -> (r: Option<GameState>)
        ensures
            r is Some <==> valid_parts(width, height, body@, food),
            r matches Some(g) ==> {
                &&& g.wf()
                &&& g.grid_width() == width
                &&& g.grid_height() == height
                &&& g.body_view() == body@
                &&& g.dir() == direction
                &&& g.food_cell() == food
                &&& g.current_score() == 0
                &&& g.playing()
            },
    {
        if parts_ok(width, height, &body, food) {
            Some(
                GameState {
                    body,
                    direction,
                    food,
                    width,
                    height,
                    score: 0,
                    game_over: false,
                },
            )
        } else {
            None
        }
    }

    /// The snake's cells, head first, as a fresh vector.
    pub fn body(&self) -> (r: Vec<Cell>)
        ensures
            r@ == self.body_view(),
    {
        let mut r: Vec<Cell> = Vec::new();
        let mut i: usize = 0;
        while i < self.body.len()
            invariant
                i <= self.body@.len(),
                r@ == self.body@.subrange(0, i as int),
            decreases self.body@.len() - i,
        {
            r.push(self.body[i]);
            proof {
                assert(r@ =~= self.body@.subrange(0, i + 1));
            }
            i += 1;
        }
        proof {
            assert(r@ =~= self.body@);
        }
        r
    }

    /// The cell the snake's head sits on.
    pub fn head_position(&self) -> (r: Cell)
        requires
            self.wf(),
        ensures
            r == self.body_view()[0],
    {
        self.body[0]
    }

    /// The cell the food sits on.
    pub fn food(&self) -> (r: Cell)
        ensures
            r == self.food_cell(),
    {
        self.food
    }

    /// The current heading.
    pub fn direction(&self) -> (r: Direction)
        ensures
            r == self.dir(),
    {
        self.direction
    }

    /// The current score.
    pub fn score(&self) -> (r: usize)
        ensures
            r == self.current_score(),
    {
        self.score
    }

    /// The number of columns of the grid.
    pub fn width(&self) -> (r: usize)
        ensures
            r == self.grid_width(),
    {
        self.width
    }

    /// The number of rows of the grid.
    pub fn height(&self) -> (r: usize)
        ensures
            r == self.grid_height(),
    {
        self.height
    }

    /// Whether the game has ended, by self-collision or a full board.
    pub fn is_game_over(&self) -> (r: bool)
        ensures
            r == !self.playing(),
    {
        self.game_over
    }
}

/// Whether the given pieces form a well-formed running game: a non-empty
/// grid, a snake of at least one cell whose cells are pairwise distinct and
/// on the grid, and food on the grid but off the snake.
pub open spec fn valid_parts(width: usize, height: usize, body: Seq<Cell>, food: Cell) -> bool {
    &&& width > 0
    &&& height > 0
    &&& body.len() >= 1
    &&& pairwise_distinct(body)
    &&& all_in_range(body, width, height)
    &&& food.x < width
    &&& food.y < height
    &&& !body.contains(food)
}

/// Executable check of [`valid_parts`].
fn parts_ok(width: usize, height: usize, body: &Vec<Cell>, food: Cell) -> (r: bool)
    ensures
        r == valid_parts(width, height, body@, food),
{
    if width == 0 || height == 0 || body.len() == 0 {
        return false;
    }
    if food.x >= width || food.y >= height {
        return false;
    }
    let n = body.len();
    let mut i: usize = 0;
    while i < n
        invariant
            i <= n,
            n == body@.len(),
            width > 0,
            height > 0,
            n >= 1,
            forall|k: int| 0 <= k < i ==> (#[trigger] body@[k]).x < width && body@[k].y < height,
            forall|k: int| 0 <= k < i ==> body@[k] != food,
            forall|k: int, l: int| 0 <= k < i && k < l < n ==> body@[k] != body@[l],
        decreases n - i,
    {
        let c = body[i];
        if c.x >= width || c.y >= height {
            proof {
                assert(!(body@[i as int].x < width && body@[i as int].y < height));
            }
            return false;
        }
        if c == food {
            proof {
                assert(body@[i as int] == food);
            }
            return false;
        }
        let mut j: usize = i + 1;
        while j < n
            invariant
                i < j,
                j <= n,
                n == body@.len(),
                c == body@[i as int],
                forall|l: int| i < l < j ==> body@[l] != c,
            decreases n - j,
        {
            if body[j] == c {
                proof {
                    assert(body@[i as int] == body@[j as int]);
                    assert(!pairwise_distinct(body@));
                }
                return false;
            }
            j += 1;
        }
        i += 1;
    }
    proof {
        assert forall|k: int| 0 <= k < body@.len() implies body@[k] != food by {}
        assert(!body@.contains(food));
    }
    true
}

/// Law: every well-formed game state has a snake whose cells are pairwise
/// distinct — no two segments occupy the same grid cell.
pub proof fn lemma_body_cells_distinct(g: &GameState)
    requires
        g.wf(),
    ensures
        pairwise_distinct(g.body_view()),
{
}

/// Law: a request for the exact opposite of the current heading is ignored —
/// the heading stays as it was, and the next step from any head cell is the
/// step the unchanged heading takes.
pub proof fn lemma_opposite_request_ignored(c: Cell, d: Direction, width: usize, height: usize)
    requires
        width > 0,
        height > 0,
        c.x < width,
        c.y < height,
    ensures
        next_direction(d, d.opposite_spec()) == d,
        step_spec(c, next_direction(d, d.opposite_spec()), width, height) == step_spec(
            c,
            d,
            width,
            height,
        ),
{
}

/// Law: toroidal wrap on each of the four edges — a head on the rightmost
/// column moving `Right` lands on column 0 of the same row, and likewise
/// for the other three edges.
pub proof fn lemma_toroidal_wrap(c: Cell, width: usize, height: usize)
    requires
        width > 0,
        height > 0,
        c.x < width,
        c.y < height,
    ensures
        c.x == width - 1 ==> step_spec(c, Direction::Right, width, height) == (Cell {
            x: 0,
            y: c.y,
        }),
        c.x == 0 ==> step_spec(c, Direction::Left, width, height) == (Cell {
            x: (width - 1) as usize,
            y: c.y,
        }),
        c.y == height - 1 ==> step_spec(c, Direction::Down, width, height) == (Cell {
            x: c.x,
            y: 0,
        }),
        c.y == 0 ==> step_spec(c, Direction::Up, width, height) == (Cell {
            x: c.x,
            y: (height - 1) as usize,
        }),
{
}

} // verus!
