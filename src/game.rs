use vstd::prelude::*;
use vstd::arithmetic::div_mod::{lemma_fundamental_div_mod, lemma_mod_bound};
use vstd::set_lib::{lemma_int_range, lemma_len_subset, set_int_range};

use crate::position::{
    dir_of_icon, icon_of, lemma_reverse_involution, reverse_of, Dir, Position, HEIGHT, WIDTH,
};
use crate::random::{next_draw, seeded_rng};
use crate::snake::Snake;

verus! {

/// Cells on the board; also the capacity of each snake's trail buffer.
pub const CELLS: usize = WIDTH * HEIGHT;

/// Timer ticks skipped between two simulation steps.
pub const UPDATE_FREQUENCY: usize = 1;

/// Random draws tried for a food cell before the board is scanned for one.
pub const FOOD_DRAWS: usize = 64;

/// What occupies a board cell. A head is not marked on the grid: its cell
/// stays `Empty` and the snake records where it is.
#[derive(Debug, Clone, Copy, PartialEq, Eq, Structural)]
pub enum Cell {
    Empty,
    Wall,
    Food,
    Body,
    Body2,
}

/// The game phase. `Over` ends a one-player round; `Over1` and `Over2` end a
/// two-player round with player 1 or player 2 as the winner.
#[derive(Debug, Clone, Copy, PartialEq, Eq, Structural)]
pub enum Status {
    Normal,
    Over,
    Over1,
    Over2,
    Start,
}

/// A key code that is not a character.
#[derive(Debug, Clone, Copy, PartialEq, Eq, Structural)]
pub enum RawKey {
    ArrowUp,
    ArrowDown,
    ArrowLeft,
    ArrowRight,
    Key1,
    Key2,
    Other,
}

/// A decoded key event: a character, or a raw key code.
#[derive(Debug, Clone, Copy, PartialEq, Eq, Structural)]
pub enum KeyInput {
    RawKey(RawKey),
    Unicode(char),
}

/// The colour class a cell is drawn in.
#[derive(Debug, Clone, Copy, PartialEq, Eq, Structural)]
pub enum Tint {
    Blue,
    Magenta,
    Black,
    Brown,
    Red,
}

/// The header above the board.
#[derive(Debug, Clone, Copy, PartialEq, Eq, Structural)]
pub enum Header {
    /// The greeting shown before a mode is chosen.
    Welcome,
    /// The one-player score: the snake's length.
    Score(usize),
    /// Both players' lengths.
    Sizes(usize, usize),
    /// The winner of a two-player round.
    Winner(u8),
}

/// Player 1 steers with `w a s d`.
pub open spec fn wasd_dir(k: KeyInput) -> Option<Dir> {
    match k {
        KeyInput::Unicode(c) => if c == 'w' {
            Some(Dir::N)
        } else if c == 'a' {
            Some(Dir::W)
        } else if c == 's' {
            Some(Dir::S)
        } else if c == 'd' {
            Some(Dir::E)
        } else {
            None
        },
        KeyInput::RawKey(_) => None,
    }
}

/// Player 2 steers with the arrow keys.
pub open spec fn arrow_dir(k: KeyInput) -> Option<Dir> {
    match k {
        KeyInput::RawKey(RawKey::ArrowUp) => Some(Dir::N),
        KeyInput::RawKey(RawKey::ArrowDown) => Some(Dir::S),
        KeyInput::RawKey(RawKey::ArrowLeft) => Some(Dir::W),
        KeyInput::RawKey(RawKey::ArrowRight) => Some(Dir::E),
        _ => None,
    }
}

/// The mode a key selects: `1` one player (`false`), `2` two players (`true`).
pub open spec fn mode_choice(k: KeyInput) -> Option<bool> {
    match k {
        KeyInput::RawKey(RawKey::Key1) => Some(false),
        KeyInput::Unicode('1') => Some(false),
        KeyInput::RawKey(RawKey::Key2) => Some(true),
        KeyInput::Unicode('2') => Some(true),
        _ => None,
    }
}

/// The cell a board-template character stands for; `None` for a character
/// that templates do not use.
fn translate_icon(icon: char) -> (r: Option<Cell>)
    ensures
        r == if template_char(icon) {
            Some(cell_of_char(icon))
        } else {
            None
        },
{
    match icon {
        '#' => Some(Cell::Wall),
        ' ' => Some(Cell::Empty),
        '@' => Some(Cell::Food),
        '^' | 'v' | '<' | '>' => Some(Cell::Empty),
        _ => None,
    }
}

/// A direction key for player 1.
pub fn key2dir(key: KeyInput) -> (r: Option<Dir>)
    ensures
        r == wasd_dir(key),
{
    match key {
        KeyInput::RawKey(_) => None,
        KeyInput::Unicode(c) => match c {
            'w' => Some(Dir::N),
            'a' => Some(Dir::W),
            's' => Some(Dir::S),
            'd' => Some(Dir::E),
            _ => None,
        },
    }
}

/// A direction key for player 2.
pub fn key2dir2(key: KeyInput) -> (r: Option<Dir>)
    ensures
        r == arrow_dir(key),
{
    match key {
        KeyInput::RawKey(k) => match k {
            RawKey::ArrowUp => Some(Dir::N),
            RawKey::ArrowDown => Some(Dir::S),
            RawKey::ArrowLeft => Some(Dir::W),
            RawKey::ArrowRight => Some(Dir::E),
            _ => None,
        },
        KeyInput::Unicode(_) => None,
    }
}

/// The grid tag of a player's trail.
pub open spec fn tag_of(player: int) -> Cell {
    if player == 1 {
        Cell::Body
    } else {
        Cell::Body2
    }
}

/// The phase a round ends in when `player` runs into an obstacle.
pub open spec fn loss_status(two_player: bool, player: int) -> Status {
    if !two_player {
        Status::Over
    } else if player == 1 {
        Status::Over2
    } else {
        Status::Over1
    }
}

/// The heading a snake takes from a buffered key: the key's direction unless
/// it would turn the snake back onto itself.
pub open spec fn adopt(current: Dir, key: Option<Dir>) -> Dir {
    match key {
        Some(k) => if k != reverse_of(current) {
            k
        } else {
            current
        },
        None => current,
    }
}

/// The position one step from `p` towards `d`.
pub open spec fn step_to(p: Position, d: Dir) -> Position {
    Position { row: p.step(d).0 as i16, col: p.step(d).1 as i16 }
}

/// Inside the outer ring of the board, where food may be placed.
pub open spec fn interior(p: Position) -> bool {
    1 <= p.row <= HEIGHT - 2 && 1 <= p.col <= WIDTH - 2
}

/// The cell of a row-major grid at a position.
pub open spec fn at(grid: Seq<Cell>, p: Position) -> Cell {
    grid[p.index()]
}

/// The cells of `grid` that hold `tag` are exactly the entries of `live`,
/// each once, and the cell of `head` is free.
pub open spec fn cells_match(grid: Seq<Cell>, head: Position, live: Seq<Position>, tag: Cell) -> bool {
    &&& head.legal()
    &&& at(grid, head) == Cell::Empty
    &&& live.no_duplicates()
    &&& forall|k: int|
        0 <= k < live.len() ==> {
            &&& (#[trigger] live[k]).legal()
            &&& at(grid, live[k]) == tag
        }
    &&& forall|p: Position| p.legal() && #[trigger] at(grid, p) == tag ==> live.contains(p)
}

pub(crate) open spec fn trail_matches(grid: Seq<Cell>, s: Snake, tag: Cell) -> bool {
    cells_match(grid, s.pos, s.live(), tag)
}

/// The grid agrees with the snakes: every trail cell belongs to exactly one
/// buffer entry of its own player, and no cell is tagged for a player who is
/// not in the round.
pub(crate) open spec fn consistent(grid: Seq<Cell>, s1: Snake, s2: Snake, two_player: bool) -> bool {
    &&& trail_matches(grid, s1, Cell::Body)
    &&& two_player ==> trail_matches(grid, s2, Cell::Body2) && s1.pos != s2.pos
    &&& !two_player ==> forall|p: Position| p.legal() ==> #[trigger] at(grid, p) != Cell::Body2
}

/// A cell where food may appear: inside the wall ring, empty, and under
/// neither head of the round.
pub open spec fn spawn_ok(grid: Seq<Cell>, h1: Position, h2: Position, two_player: bool, p: Position) -> bool {
    &&& interior(p)
    &&& at(grid, p) == Cell::Empty
    &&& p != h1
    &&& !(two_player && p == h2)
}

/// `after` is `before` with food put on one free cell, if `before` has one.
pub open spec fn food_placed(
    before: Seq<Cell>,
    after: Seq<Cell>,
    h1: Position,
    h2: Position,
    two_player: bool,
) -> bool {
    &&& (exists|p: Position| spawn_ok(before, h1, h2, two_player, p)) ==> exists|p: Position|
        spawn_ok(before, h1, h2, two_player, p) && after == before.update(p.index(), Cell::Food)
    &&& !(exists|p: Position| spawn_ok(before, h1, h2, two_player, p)) ==> after == before
}

/// A draw scaled onto `1..=span`: the draw read as a fraction of 2^32, times `span`.
pub open spec fn scaled(draw: u32, span: int) -> int {
    1 + (draw as int * span) / 0x1_0000_0000
}

/// Scales a draw onto `1..=span`.
fn scale_draw(draw: u32, span: u64) -> (r: i16)
    requires
        1 <= span <= WIDTH,
    ensures
        r == scaled(draw, span as int),
        1 <= r <= span,
{
    let x = draw as u64;
    assert(x * span <= 0xffff_ffff * 80) by (nonlinear_arith)
        requires
            x <= 0xffff_ffff,
            span <= 80,
    ;
    let prod: u64 = x * span;
    let q: u64 = prod / 0x1_0000_0000u64;
    assert(q < span) by (nonlinear_arith)
        requires
            prod == x * span,
            x < 0x1_0000_0000,
            q == prod / 0x1_0000_0000,
            span >= 1,
    ;
    (q + 1) as i16
}

/// The food cell that a pair of draws picks: a row in `1..=HEIGHT-2` and a
/// column in `1..=WIDTH-2`, each drawn uniformly.
pub fn food_candidate(draw_row: u32, draw_col: u32) -> (r: Position)
    ensures
        r.row == scaled(draw_row, HEIGHT - 2),
        r.col == scaled(draw_col, WIDTH - 2),
        interior(r),
{
    let row = scale_draw(draw_row, (HEIGHT - 2) as u64);
    let col = scale_draw(draw_col, (WIDTH - 2) as u64);
    Position { row, col }
}

/// What a move of `player` onto the free cell `t` with heading `d` does to
/// the game: the old head's cell joins the trail; food there is eaten, grows
/// the snake by one and reappears on a free cell; otherwise the oldest trail
/// cell is cleared. The other player and the rest of the state stay as they were.
pub open spec fn moved(a: &SnakeGame, b: &SnakeGame, player: int, t: Position, d: Dir) -> bool {
    let h = a.head(player);
    let other = 3 - player;
    let pushed = a.trail(player).push(h);
    &&& b.head(player) == t
    &&& b.heading(player) == d
    &&& b.phase() == a.phase()
    &&& b.two_players() == a.two_players()
    &&& b.ticks() == a.ticks()
    &&& b.countdown_left() == a.countdown_left()
    &&& b.head(other) == a.head(other)
    &&& b.heading(other) == a.heading(other)
    &&& b.length(other) == a.length(other)
    &&& b.trail(other) == a.trail(other)
    &&& if a.cell_at(t) == Cell::Food {
        &&& b.length(player) == a.length(player) + 1
        &&& b.trail(player) == pushed
        &&& food_placed(
            a.grid().update(h.index(), tag_of(player)).update(t.index(), Cell::Empty),
            b.grid(),
            b.head(1),
            b.head(2),
            a.two_players(),
        )
    } else {
        &&& b.length(player) == a.length(player)
        &&& b.trail(player) == pushed.drop_first()
        &&& b.grid() == a.grid().update(h.index(), tag_of(player)).update(
            pushed[0].index(),
            Cell::Empty,
        )
    }
}

/// The two games agree on the board, both snakes, the phase and the mode.
pub open spec fn same_play(a: &SnakeGame, b: &SnakeGame) -> bool {
    &&& b.grid() == a.grid()
    &&& b.phase() == a.phase()
    &&& b.two_players() == a.two_players()
    &&& b.ticks() == a.ticks()
    &&& b.countdown_left() == a.countdown_left()
    &&& forall|q: int|
        q == 1 || q == 2 ==> {
            &&& #[trigger] b.head(q) == a.head(q)
            &&& b.heading(q) == a.heading(q)
            &&& b.length(q) == a.length(q)
            &&& b.trail(q) == a.trail(q)
        }
}

/// What one player's turn in a simulation step does, given the key buffered
/// for that player: the heading follows the key unless that would reverse
/// it; a step off the board does nothing; a step into a wall, a trail or the
/// other head ends the round; any other step is a move, made only while the
/// round is in play.
pub open spec fn resolved(a: &SnakeGame, b: &SnakeGame, player: int, key: Option<Dir>) -> bool {
    let d = adopt(a.heading(player), key);
    let t = step_to(a.head(player), d);
    if t.legal() && !a.blocked(player, t) && a.phase() == Status::Normal {
        moved(a, b, player, t, d)
    } else {
        &&& b.grid() == a.grid()
        &&& b.phase() == if t.legal() && a.blocked(player, t) {
            loss_status(a.two_players(), player)
        } else {
            a.phase()
        }
        &&& b.heading(player) == d
        &&& b.head(player) == a.head(player)
        &&& b.length(player) == a.length(player)
        &&& b.trail(player) == a.trail(player)
        &&& b.two_players() == a.two_players()
        &&& b.ticks() == a.ticks()
        &&& b.countdown_left() == a.countdown_left()
        &&& b.head(3 - player) == a.head(3 - player)
        &&& b.heading(3 - player) == a.heading(3 - player)
        &&& b.length(3 - player) == a.length(3 - player)
        &&& b.trail(3 - player) == a.trail(3 - player)
    }
}

/// One simulation step from `a` to `b`: in play, player 1's turn and then,
/// in a two-player round, player 2's turn on what player 1 left; out of play,
/// nothing moves. The buffered keys are spent either way.
pub open spec fn stepped(a: &SnakeGame, b: &SnakeGame) -> bool {
    &&& b.pending(1) is None
    &&& b.pending(2) is None
    &&& a.phase() != Status::Normal ==> same_play(a, b)
    &&& (a.phase() == Status::Normal && !a.two_players()) ==> resolved(a, b, 1, a.pending(1))
    &&& (a.phase() == Status::Normal && a.two_players()) ==> exists|mid: SnakeGame|
        #[trigger] resolved(a, &mid, 1, a.pending(1)) && resolved(&mid, b, 2, a.pending(2))
}

/// On the outermost ring of the board.
pub open spec fn on_border(p: Position) -> bool {
    p.row == 0 || p.row == HEIGHT - 1 || p.col == 0 || p.col == WIDTH - 1
}

/// Where player 1 starts, heading south.
pub open spec fn start1() -> Position {
    Position { row: 3, col: 6 }
}

/// Where player 2 starts, heading north.
pub open spec fn start2() -> Position {
    Position { row: 19, col: 6 }
}

/// Where the first food lies in the default layouts.
pub open spec fn start_food(two_player: bool) -> Position {
    if two_player {
        Position { row: 11, col: 73 }
    } else {
        Position { row: 19, col: 73 }
    }
}

/// A cell of the default layout: a wall ring around an empty field with one food.
pub open spec fn layout_cell(two_player: bool, p: Position) -> Cell {
    if on_border(p) {
        Cell::Wall
    } else if p == start_food(two_player) {
        Cell::Food
    } else {
        Cell::Empty
    }
}

/// The position of grid index `i`.
pub open spec fn position_of(i: int) -> Position {
    Position { row: (i / WIDTH as int) as i16, col: (i % WIDTH as int) as i16 }
}

/// Characters of a board template line, one per cell.
pub open spec fn template_char(c: char) -> bool {
    c == '#' || c == ' ' || c == '@' || dir_of_icon(c) is Some
}

/// The cell a template character stands for; a head's cell is empty.
pub open spec fn cell_of_char(c: char) -> Cell {
    if c == '#' {
        Cell::Wall
    } else if c == '@' {
        Cell::Food
    } else {
        Cell::Empty
    }
}

/// The head glyphs of a player: `>` and `v` for player 1 (`first`), `<`
/// and `^` for player 2.
pub open spec fn player_glyph(c: char, first: bool) -> bool {
    if first {
        c == '>' || c == 'v'
    } else {
        c == '<' || c == '^'
    }
}

/// Indices of one player's head glyphs in `s`, in order.
pub open spec fn markers(s: Seq<char>, first: bool) -> Seq<int>
    decreases s.len(),
{
    if s.len() == 0 {
        Seq::empty()
    } else if player_glyph(s.last(), first) {
        markers(s.drop_last(), first).push(s.len() - 1)
    } else {
        markers(s.drop_last(), first)
    }
}

/// Template index of a position: lines of `WIDTH` cells, each ended by a newline.
pub open spec fn template_index(p: Position) -> int {
    p.row * (WIDTH + 1) + p.col
}

/// The position at template index `i`.
pub open spec fn template_position(i: int) -> Position {
    Position { row: (i / (WIDTH as int + 1)) as i16, col: (i % (WIDTH as int + 1)) as i16 }
}

/// A board template: `HEIGHT` lines of `WIDTH` template characters joined by
/// newlines, with exactly one head glyph of player 1 and, for a two-player
/// round, exactly one of player 2.
pub open spec fn template_ok(s: Seq<char>) -> bool {
    &&& s.len() == HEIGHT * (WIDTH + 1) - 1
    &&& forall|i: int|
        0 <= i < s.len() ==> if i % (WIDTH as int + 1) == WIDTH {
            #[trigger] s[i] == '\n'
        } else {
            template_char(s[i])
        }
    &&& markers(s, true).len() == 1
    &&& markers(s, false).len() <= 1
}

/// The glyph and colour class of a position: a head shows its heading, or
/// `X` once its player has lost; then trails, food, walls and blanks.
pub open spec fn glyph_of(g: &SnakeGame, p: Position) -> (char, Tint) {
    if p == g.head(1) {
        (
            if g.phase() == Status::Over || g.phase() == Status::Over2 {
                'X'
            } else {
                icon_of(g.heading(1))
            },
            Tint::Blue,
        )
    } else if g.two_players() && p == g.head(2) {
        (
            if g.phase() == Status::Over1 {
                'X'
            } else {
                icon_of(g.heading(2))
            },
            Tint::Magenta,
        )
    } else {
        match g.cell_at(p) {
            Cell::Body => ('o', Tint::Blue),
            Cell::Body2 => ('o', Tint::Magenta),
            Cell::Empty => (' ', Tint::Black),
            Cell::Wall => ('#', Tint::Brown),
            Cell::Food => ('@', Tint::Red),
        }
    }
}

/// The header of a phase: a greeting before play, the lengths during play
/// and after a one-player round, the winner after a two-player round.
pub open spec fn header_of(g: &SnakeGame) -> Header {
    match g.phase() {
        Status::Start => Header::Welcome,
        Status::Over1 => Header::Winner(1),
        Status::Over2 => Header::Winner(2),
        _ => if g.two_players() {
            Header::Sizes(g.length(1) as usize, g.length(2) as usize)
        } else {
            Header::Score(g.length(1) as usize)
        },
    }
}

/// Walks the board's positions in row-major order.
pub struct RowColIter {
    row: usize,
    col: usize,
}

impl RowColIter {
    pub closed spec fn at_row(&self) -> int {
        self.row as int
    }

    pub closed spec fn at_col(&self) -> int {
        self.col as int
    }

    pub open spec fn valid(&self) -> bool {
        &&& 0 <= self.at_col() < WIDTH
        &&& 0 <= self.at_row() <= HEIGHT
        &&& self.at_row() == HEIGHT ==> self.at_col() == 0
    }

    /// The next position, or `None` after the last one.
    pub fn next(&mut self) -> (r: Option<Position>)
        requires
            old(self).valid(),
        ensures
            final(self).valid(),
            old(self).at_row() < HEIGHT ==> {
                &&& r == Some(Position { row: old(self).at_row() as i16, col: old(self).at_col() as i16 })
                &&& if old(self).at_col() + 1 == WIDTH {
                    final(self).at_row() == old(self).at_row() + 1 && final(self).at_col() == 0
                } else {
                    final(self).at_row() == old(self).at_row() && final(self).at_col() == old(self).at_col()
                        + 1
                }
            },
            old(self).at_row() == HEIGHT ==> r is None && *final(self) == *old(self),
    {
        if self.row < HEIGHT {
            let result = Some(Position { row: self.row as i16, col: self.col as i16 });
            self.col = self.col + 1;
            if self.col == WIDTH {
                self.col = 0;
                self.row = self.row + 1;
            }
            result
        } else {
            None
        }
    }
}

/// The whole board, row by row: the state a simulation step reads and writes.
pub struct SnakeGame {
    pub(crate) cells: Vec<Cell>,
    pub(crate) snake: Snake,
    pub(crate) snake2: Snake,
    pub(crate) status: Status,
    pub(crate) last_key: Option<Dir>,
    pub(crate) last_key2: Option<Dir>,
    pub(crate) countdown: usize,
    pub(crate) total_ticks: usize,
    pub(crate) two_player: bool,
}

impl SnakeGame {
    pub(crate) open spec fn sn(&self, player: int) -> Snake {
        if player == 1 {
            self.snake
        } else {
            self.snake2
        }
    }

    pub open spec fn cell_at(&self, p: Position) -> Cell {
        at(self.grid(), p)
    }

    pub closed spec fn grid(&self) -> Seq<Cell> {
        self.cells@
    }

    pub closed spec fn phase(&self) -> Status {
        self.status
    }

    pub closed spec fn two_players(&self) -> bool {
        self.two_player
    }

    pub closed spec fn head(&self, player: int) -> Position {
        self.sn(player).pos
    }

    pub closed spec fn heading(&self, player: int) -> Dir {
        self.sn(player).dir
    }

    pub closed spec fn length(&self, player: int) -> nat {
        self.sn(player).size as nat
    }

    /// The cells a player's snake has left behind and still covers, oldest first.
    pub closed spec fn trail(&self, player: int) -> Seq<Position> {
        self.sn(player).live()
    }

    pub closed spec fn pending(&self, player: int) -> Option<Dir> {
        if player == 1 {
            self.last_key
        } else {
            self.last_key2
        }
    }

    pub closed spec fn countdown_left(&self) -> nat {
        self.countdown as nat
    }

    pub closed spec fn ticks(&self) -> nat {
        self.total_ticks as nat
    }

    /// Everything but the countdown and the tick count agrees: the grid, both
    /// snakes, the phase, the buffered keys and the mode.
    pub closed spec fn board_eq(&self, o: &SnakeGame) -> bool {
        &&& self.cells@ == o.cells@
        &&& self.snake == o.snake
        &&& self.snake2 == o.snake2
        &&& self.status == o.status
        &&& self.last_key == o.last_key
        &&& self.last_key2 == o.last_key2
        &&& self.two_player == o.two_player
    }

    /// Players taking part in the round.
    pub open spec fn player_live(&self, player: int) -> bool {
        player == 1 || (player == 2 && self.two_players())
    }

    pub closed spec fn wf(&self) -> bool {
        &&& self.cells@.len() == CELLS
        &&& self.countdown <= UPDATE_FREQUENCY
        &&& self.total_ticks < usize::MAX
        &&& self.snake.wf()
        &&& self.snake.cap() == CELLS
        &&& self.snake2.wf()
        &&& self.snake2.cap() == CELLS
        &&& self.snake2.pos.legal()
        &&& consistent(self.cells@, self.snake, self.snake2, self.two_player)
    }

    /// A free cell where food may appear: inside the wall ring, empty, and not
    /// under a head.
    pub open spec fn spawnable(&self, p: Position) -> bool {
        spawn_ok(self.grid(), self.head(1), self.head(2), self.two_players(), p)
    }

    /// A cell `player` cannot enter: a wall, any trail, or, while the round
    /// is in play, the other head.
    pub open spec fn blocked(&self, player: int, t: Position) -> bool {
        let c = self.cell_at(t);
        c == Cell::Wall || c == Cell::Body || c == Cell::Body2 || (self.two_players() && self.phase()
            == Status::Normal && t == self.head(3 - player))
    }

    /// Moves `player`'s head onto the free cell `t`, heading `d`.
    fn move_to(&mut self, player: u8, t: Position, d: Dir)
        requires
            old(self).wf(),
            player == 1 || (player == 2 && old(self).two_player),
            t.legal(),
            t != old(self).sn(player as int).pos,
            old(self).status == Status::Normal,
            !old(self).blocked(player as int, t),
        ensures
            final(self).wf(),
            moved(old(self), final(self), player as int, t, d),
            final(self).last_key == old(self).last_key,
            final(self).last_key2 == old(self).last_key2,
    {
        broadcast use lemma_at_update;

        let ghost a = *self;
        let ghost pl = player as int;
        let ghost s0 = a.sn(pl);
        let ghost o = a.sn(3 - pl);
        let ghost tag2 = tag_of(3 - pl);
        let h = if player == 1 {
            self.snake.pos
        } else {
            self.snake2.pos
        };
        let tag = if player == 1 {
            Cell::Body
        } else {
            Cell::Body2
        };
        self.cells.set(index_of(h), tag);
        let ghost g1 = self.cells@;
        if player == 1 {
            self.snake.pos = t;
            self.snake.dir = d;
        } else {
            self.snake2.pos = t;
            self.snake2.dir = d;
        }
        proof {
            if a.two_player {
                lemma_frame_update(a.cells@, h, tag, o.pos, o.live(), tag2);
            } else {
                lemma_absent_update(a.cells@, h, tag, Cell::Body2);
            }
        }
        let ti = index_of(t);
        if self.cells[ti] == Cell::Food {
            self.cells.set(ti, Cell::Empty);
            let ghost g2 = self.cells@;
            proof {
                lemma_grow_room(a.cells@, h, s0.live(), tag, t);
                lemma_step_grow(a.cells@, h, s0.live(), tag, t);
                if a.two_player {
                    lemma_frame_update(g1, t, Cell::Empty, o.pos, o.live(), tag2);
                } else {
                    lemma_absent_update(g1, t, Cell::Empty, Cell::Body2);
                }
            }
            self.new_food();
            proof {
                let g3 = self.cells@;
                if g3 != g2 {
                    let f = choose|f: Position|
                        spawn_ok(g2, self.snake.pos, self.snake2.pos, self.two_player, f) && g3
                            == g2.update(f.index(), Cell::Food);
                    lemma_frame_update(g2, f, Cell::Food, t, s0.live().push(h), tag);
                    if a.two_player {
                        lemma_frame_update(g2, f, Cell::Food, o.pos, o.live(), tag2);
                    } else {
                        lemma_absent_update(g2, f, Cell::Food, Cell::Body2);
                    }
                }
            }
            if player == 1 {
                self.snake.advance(h, true);
            } else {
                self.snake2.advance(h, true);
            }
        } else {
            proof {
                lemma_step_plain(a.cells@, h, s0.live(), tag, t);
            }
            let vacated = if player == 1 {
                self.snake.advance(h, false)
            } else {
                self.snake2.advance(h, false)
            };
            proof {
                assert(self.sn(pl).live() == s0.live().push(h).drop_first());
                assert(vacated == Some(s0.live().push(h)[0]));
                assert(self.sn(pl).pos == t);
            }
            if let Some(v) = vacated {
                proof {
                    if a.two_player {
                        lemma_frame_update(g1, v, Cell::Empty, o.pos, o.live(), tag2);
                    } else {
                        lemma_absent_update(g1, v, Cell::Empty, Cell::Body2);
                    }
                }
                self.cells.set(index_of(v), Cell::Empty);
            }
        }
    }

    /// One player's turn: adopt the buffered heading if allowed, then move,
    /// stop at the edge, or end the round on an obstacle.
    fn resolve_move(&mut self, player: u8)
        requires
            old(self).wf(),
            player == 1 || (player == 2 && old(self).two_player),
        ensures
            final(self).wf(),
            resolved(old(self), final(self), player as int, old(self).pending(player as int)),
            final(self).last_key == old(self).last_key,
            final(self).last_key2 == old(self).last_key2,
    {
        let ghost a = *self;
        let key = if player == 1 {
            self.last_key
        } else {
            self.last_key2
        };
        let current = if player == 1 {
            self.snake.dir
        } else {
            self.snake2.dir
        };
        let dir = match key {
            Some(k) => if k != current.reverse() {
                k
            } else {
                current
            },
            None => current,
        };
        let pos = if player == 1 {
            self.snake.pos
        } else {
            self.snake2.pos
        };
        if player == 1 {
            self.snake.dir = dir;
        } else {
            self.snake2.dir = dir;
        }
        let neighbor = pos.neighbor(dir);
        assert(neighbor == step_to(a.head(player as int), dir));
        if neighbor.is_legal() {
            let c = self.cell(neighbor);
            let other_head = if player == 1 {
                self.snake2.pos
            } else {
                self.snake.pos
            };
            if c == Cell::Wall || c == Cell::Body || c == Cell::Body2 || (self.two_player
                && self.status == Status::Normal && neighbor == other_head) {
                self.status = if !self.two_player {
                    Status::Over
                } else if player == 1 {
                    Status::Over2
                } else {
                    Status::Over1
                };
            } else if self.status == Status::Normal {
                self.move_to(player, neighbor, dir);
            }
        }
    }

    /// One simulation step: each player's turn in order, then the buffered
    /// keys are dropped. Nothing moves once the round is over.
    pub fn update(&mut self)
        requires
            old(self).wf(),
        ensures
            final(self).wf(),
            stepped(old(self), final(self)),
    {
        if self.status == Status::Normal {
            let ghost a = *self;
            self.resolve_move(1);
            let ghost mid = *self;
            if self.two_player {
                self.resolve_move(2);
                assert(resolved(&a, &mid, 1, a.pending(1)));
            }
        }
        self.last_key = None;
        self.last_key2 = None;
    }

    /// A timer tick: counts the tick, and when the countdown has run out
    /// runs one simulation step. Reports whether a step ran.
    pub fn tick(&mut self) -> (r: bool)
        requires
            old(self).wf(),
        ensures
            final(self).wf(),
            final(self).ticks() == if old(self).ticks() + 1 == usize::MAX {
                0
            } else {
                old(self).ticks() + 1
            },
            r == (old(self).countdown_left() == 0),
            !r ==> final(self).board_eq(old(self)),
            !r ==> final(self).countdown_left() == old(self).countdown_left() - 1,
            r ==> final(self).countdown_left() == UPDATE_FREQUENCY,
            r ==> exists|start: SnakeGame|
                #[trigger] start.board_eq(old(self)) && stepped(&start, final(self)),
    {
        self.total_ticks = if self.total_ticks + 1 == usize::MAX {
            0
        } else {
            self.total_ticks + 1
        };
        if self.countdown_complete() {
            let ghost start = *self;
            self.update();
            assert(start.board_eq(old(self)));
            true
        } else {
            false
        }
    }

    /// The snakes are fresh: no trail, no length, no buffered key.
    pub open spec fn fresh_snakes(&self) -> bool {
        &&& self.length(1) == 0
        &&& self.length(2) == 0
        &&& self.trail(1).len() == 0
        &&& self.trail(2).len() == 0
        &&& self.pending(1) is None
        &&& self.pending(2) is None
    }

    /// The default layout for one or two players, as at the start of a round.
    pub open spec fn laid_out(&self, two_player: bool) -> bool {
        &&& self.two_players() == two_player
        &&& forall|p: Position| p.legal() ==> #[trigger] at(self.grid(), p) == layout_cell(two_player, p)
        &&& self.head(1) == start1()
        &&& self.heading(1) == Dir::S
        &&& self.head(2) == start2()
        &&& self.heading(2) == Dir::N
        &&& self.fresh_snakes()
    }

    /// The layout that template `s` describes: its cells, player 1's head at
    /// its `>` or `v`, and player 2's head, if any, at its `<` or `^`.
    pub open spec fn laid_out_from(&self, s: Seq<char>) -> bool {
        let m1 = markers(s, true);
        let m2 = markers(s, false);
        &&& self.two_players() == (m2.len() == 1)
        &&& forall|p: Position| p.legal() ==> #[trigger] at(self.grid(), p) == cell_of_char(s[template_index(p)])
        &&& self.head(1) == template_position(m1[0])
        &&& dir_of_icon(s[m1[0]]) == Some(self.heading(1))
        &&& m2.len() == 1 ==> self.head(2) == template_position(m2[0]) && dir_of_icon(s[m2[0]]) == Some(
            self.heading(2),
        )
        &&& self.fresh_snakes()
    }

    /// Lays out the default board for one or two players and starts the round.
    fn reset(&mut self, two: bool)
        requires
            old(self).countdown <= UPDATE_FREQUENCY,
            old(self).total_ticks < usize::MAX,
        ensures
            final(self).wf(),
            final(self).laid_out(two),
            final(self).phase() == Status::Normal,
            final(self).ticks() == old(self).ticks(),
            final(self).countdown_left() == old(self).countdown_left(),
    {
        let food = if two {
            Position { row: 11, col: 73 }
        } else {
            Position { row: 19, col: 73 }
        };
        let mut cells: Vec<Cell> = Vec::new();
        let mut i: usize = 0;
        while i < CELLS
            invariant
                i <= CELLS,
                cells@.len() == i,
                food == start_food(two),
                forall|j: int| 0 <= j < i ==> #[trigger] cells@[j] == layout_cell(two, position_of(j)),
            decreases CELLS - i,
        {
            let p = Position { row: (i / WIDTH) as i16, col: (i % WIDTH) as i16 };
            let edge = p.row == 0 || p.row == (HEIGHT - 1) as i16 || p.col == 0 || p.col == (WIDTH
                - 1) as i16;
            let c = if edge {
                Cell::Wall
            } else if p == food {
                Cell::Food
            } else {
                Cell::Empty
            };
            cells.push(c);
            i = i + 1;
        }
        self.cells = cells;
        self.snake = Snake::new(Position { row: 3, col: 6 }, Dir::S, CELLS);
        self.snake2 = Snake::new(Position { row: 19, col: 6 }, Dir::N, CELLS);
        self.two_player = two;
        self.status = Status::Normal;
        self.last_key = None;
        self.last_key2 = None;
        assert forall|p: Position| p.legal() implies #[trigger] at(self.cells@, p) == layout_cell(two, p) by {
            assert(position_of(p.index()) == p);
        }
    }

    /// A game showing the two-player layout, waiting in `Start` for a choice
    /// of mode.
    pub fn new() -> (r: SnakeGame)
        ensures
            r.wf(),
            r.phase() == Status::Start,
            r.laid_out(true),
            r.ticks() == 0,
            r.countdown_left() == UPDATE_FREQUENCY,
    {
        let mut game = SnakeGame {
            cells: Vec::new(),
            snake: Snake::new(Position { row: 0, col: 0 }, Dir::S, CELLS),
            snake2: Snake::new(Position { row: 0, col: 0 }, Dir::N, CELLS),
            status: Status::Normal,
            last_key: None,
            last_key2: None,
            countdown: UPDATE_FREQUENCY,
            total_ticks: 0,
            two_player: true,
        };
        game.reset(true);
        game.status = Status::Start;
        game
    }

    /// A game in play on the board that `template` draws (see `template_ok`):
    /// `#` a wall, a space an empty cell, `@` food, `>` or `v` player 1's head
    /// and `<` or `^` player 2's head, each glyph giving its heading. `None`
    /// when the template is malformed.
    pub fn from_template(template: &str) -> (r: Option<SnakeGame>)
        ensures
            r is Some <==> template_ok(template@),
            r matches Some(g) ==> {
                &&& g.wf()
                &&& g.laid_out_from(template@)
                &&& g.phase() == Status::Normal
                &&& g.ticks() == 0
                &&& g.countdown_left() == UPDATE_FREQUENCY
            },
    {
        let ghost s = template@;
        let n = template.unicode_len();
        if n != HEIGHT * (WIDTH + 1) - 1 {
            return None;
        }
        let mut cells: Vec<Cell> = Vec::new();
        let mut found1: Vec<usize> = Vec::new();
        let mut found2: Vec<usize> = Vec::new();
        let mut i: usize = 0;
        let mut row: usize = 0;
        let mut col: usize = 0;
        while i < n
            invariant
                s == template@,
                n == s.len(),
                n == HEIGHT * (WIDTH + 1) - 1,
                i <= n,
                col <= WIDTH,
                row < HEIGHT,
                i == row * 81 + col,
                cells@.len() == row * 80 + col,
                forall|j: int|
                    0 <= j < i ==> if j % (WIDTH as int + 1) == WIDTH {
                        #[trigger] s[j] == '\n'
                    } else {
                        template_char(s[j])
                    },
                forall|p: Position|
                    p.legal() && p.index() < cells@.len() ==> #[trigger] cells@[p.index()] == cell_of_char(
                        s[template_index(p)],
                    ),
                found1@.len() == markers(s.take(i as int), true).len(),
                forall|k: int|
                    0 <= k < found1@.len() ==> found1@[k] == #[trigger] markers(s.take(i as int), true)[k],
                found2@.len() == markers(s.take(i as int), false).len(),
                forall|k: int|
                    0 <= k < found2@.len() ==> found2@[k] == #[trigger] markers(s.take(i as int), false)[k],
            decreases n - i,
        {
            let c = template.get_char(i);
            assert(i as int % 81 == col);
            proof {
                let t1 = s.take(i + 1);
                assert(t1.drop_last() =~= s.take(i as int));
                assert(t1.last() == c);
            }
            if col == WIDTH {
                if c != '\n' {
                    return None;
                }
                col = 0;
                row = row + 1;
            } else {
                let cell = match translate_icon(c) {
                    Some(cell) => cell,
                    None => {
                        return None;
                    },
                };
                if c == '>' || c == 'v' {
                    found1.push(i);
                } else if c == '<' || c == '^' {
                    found2.push(i);
                }
                let ghost before = cells@;
                cells.push(cell);
                assert forall|p: Position|
                    p.legal() && p.index() < cells@.len() implies #[trigger] cells@[p.index()]
                    == cell_of_char(s[template_index(p)]) by {
                    if p.index() < before.len() {
                        assert(cells@[p.index()] == before[p.index()]);
                    } else {
                        assert(p.row == row && p.col == col);
                    }
                }
                col = col + 1;
            }
            i = i + 1;
        }
        assert(s.take(n as int) =~= s);
        proof {
            lemma_markers(s, true);
            lemma_markers(s, false);
        }
        if found1.len() != 1 || found2.len() > 1 {
            return None;
        }
        proof {
            assert(found1@[0] == markers(s, true)[0]);
            lemma_template_position(s, found1@[0] as int);
            if found2.len() == 1 {
                assert(found2@[0] == markers(s, false)[0]);
                lemma_template_position(s, found2@[0] as int);
            }
        }
        let m0 = found1[0];
        let first = Position { row: (m0 / (WIDTH + 1)) as i16, col: (m0 % (WIDTH + 1)) as i16 };
        let dir1 = match Dir::from_icon(template.get_char(m0)) {
            Some(d) => d,
            None => Dir::S,
        };
        let two = found2.len() == 1;
        let (second, dir2) = if two {
            let m1 = found2[0];
            let d = match Dir::from_icon(template.get_char(m1)) {
                Some(d) => d,
                None => Dir::N,
            };
            (Position { row: (m1 / (WIDTH + 1)) as i16, col: (m1 % (WIDTH + 1)) as i16 }, d)
        } else {
            (Position { row: 19, col: 6 }, Dir::N)
        };
        Some(
            SnakeGame {
                cells,
                snake: Snake::new(first, dir1, CELLS),
                snake2: Snake::new(second, dir2, CELLS),
                status: Status::Normal,
                last_key: None,
                last_key2: None,
                countdown: UPDATE_FREQUENCY,
                total_ticks: 0,
                two_player: two,
            },
        )
    }

    /// A key event. During play, direction keys are buffered for their
    /// player, the latest one winning; otherwise `1` or `2` starts a one- or
    /// two-player round. Other keys are ignored.
    pub fn key(&mut self, k: KeyInput)
        requires
            old(self).wf(),
        ensures
            final(self).wf(),
            old(self).phase() == Status::Normal ==> {
                &&& same_play(old(self), final(self))
                &&& final(self).pending(1) == if wasd_dir(k) is Some {
                    wasd_dir(k)
                } else {
                    old(self).pending(1)
                }
                &&& final(self).pending(2) == if arrow_dir(k) is Some {
                    arrow_dir(k)
                } else {
                    old(self).pending(2)
                }
            },
            old(self).phase() != Status::Normal ==> match mode_choice(k) {
                Some(two) => {
                    &&& final(self).laid_out(two)
                    &&& final(self).phase() == Status::Normal
                    &&& final(self).ticks() == old(self).ticks()
                    &&& final(self).countdown_left() == old(self).countdown_left()
                },
                None => final(self).board_eq(old(self)) && final(self).ticks() == old(self).ticks()
                    && final(self).countdown_left() == old(self).countdown_left(),
            },
    {
        if self.status == Status::Normal {
            let d1 = key2dir(k);
            if d1.is_some() {
                self.last_key = d1;
            }
            let d2 = key2dir2(k);
            if d2.is_some() {
                self.last_key2 = d2;
            }
        } else {
            match k {
                KeyInput::RawKey(RawKey::Key1) | KeyInput::Unicode('1') => self.reset(false),
                KeyInput::RawKey(RawKey::Key2) | KeyInput::Unicode('2') => self.reset(true),
                _ => {},
            }
        }
    }

    /// The glyph and colour class to draw at a legal position.
    pub fn icon_color(&self, p: Position) -> (r: (char, Tint))
        requires
            self.wf(),
            p.legal(),
        ensures
            r == glyph_of(self, p),
    {
        if p == self.snake.pos {
            let icon = match self.status {
                Status::Over | Status::Over2 => 'X',
                _ => self.snake.icon(),
            };
            (icon, Tint::Blue)
        } else if self.two_player && p == self.snake2.pos {
            let icon = match self.status {
                Status::Over1 => 'X',
                _ => self.snake2.icon(),
            };
            (icon, Tint::Magenta)
        } else {
            match self.cell(p) {
                Cell::Body => ('o', Tint::Blue),
                Cell::Body2 => ('o', Tint::Magenta),
                Cell::Empty => (' ', Tint::Black),
                Cell::Wall => ('#', Tint::Brown),
                Cell::Food => ('@', Tint::Red),
            }
        }
    }

    /// The header to draw above the board.
    pub fn header(&self) -> (r: Header)
        ensures
            r == header_of(self),
    {
        match self.status {
            Status::Start => Header::Welcome,
            Status::Over1 => Header::Winner(1),
            Status::Over2 => Header::Winner(2),
            _ => if self.two_player {
                Header::Sizes(self.snake.size, self.snake2.size)
            } else {
                Header::Score(self.snake.size)
            },
        }
    }

    /// All board positions, row by row, starting at the top left.
    pub fn cell_pos_iter(&self) -> (r: RowColIter)
        ensures
            r.valid(),
            r.at_row() == 0,
            r.at_col() == 0,
    {
        RowColIter { row: 0, col: 0 }
    }

    /// The length of `player`'s snake (its score).
    pub fn score(&self, player: u8) -> (r: usize)
        requires
            player == 1 || player == 2,
        ensures
            r == self.length(player as int),
    {
        if player == 1 {
            self.snake.size
        } else {
            self.snake2.size
        }
    }

    /// Where `player`'s head is.
    pub fn head_position(&self, player: u8) -> (r: Position)
        requires
            player == 1 || player == 2,
        ensures
            r == self.head(player as int),
    {
        if player == 1 {
            self.snake.pos
        } else {
            self.snake2.pos
        }
    }

    /// Which way `player`'s snake is heading.
    pub fn head_dir(&self, player: u8) -> (r: Dir)
        requires
            player == 1 || player == 2,
        ensures
            r == self.heading(player as int),
    {
        if player == 1 {
            self.snake.dir
        } else {
            self.snake2.dir
        }
    }

    /// Whether the round has two players.
    pub fn is_two_player(&self) -> (r: bool)
        ensures
            r == self.two_players(),
    {
        self.two_player
    }

    /// Whether food may appear at `p`.
    fn is_spawnable(&self, p: Position) -> (r: bool)
        requires
            self.cells@.len() == CELLS,
            interior(p),
        ensures
            r == self.spawnable(p),
    {
        self.cells[index_of(p)] == Cell::Empty && p != self.snake.pos && !(self.two_player && p
            == self.snake2.pos)
    }

    /// A free cell for food: first up to `FOOD_DRAWS` random picks from a
    /// generator seeded with the tick count, then the first free cell in
    /// row-major order. `None` only when no cell is free.
    fn spawn_spot(&self) -> (r: Option<Position>)
        requires
            self.cells@.len() == CELLS,
        ensures
            r matches Some(p) ==> self.spawnable(p),
            r is None ==> forall|p: Position| !#[trigger] self.spawnable(p),
    {
        let mut rng = seeded_rng(self.total_ticks as u64);
        let mut tries: usize = 0;
        while tries < FOOD_DRAWS
            invariant
                tries <= FOOD_DRAWS,
                self.cells@.len() == CELLS,
            decreases FOOD_DRAWS - tries,
        {
            let draw_row = next_draw(&mut rng);
            let draw_col = next_draw(&mut rng);
            let p = food_candidate(draw_row, draw_col);
            if self.is_spawnable(p) {
                return Some(p);
            }
            tries = tries + 1;
        }
        let mut row: i16 = 1;
        while row <= (HEIGHT - 2) as i16
            invariant
                1 <= row <= HEIGHT - 1,
                self.cells@.len() == CELLS,
                forall|q: Position| q.row < row ==> !#[trigger] self.spawnable(q),
            decreases HEIGHT - row,
        {
            let mut col: i16 = 1;
            while col <= (WIDTH - 2) as i16
                invariant
                    1 <= row <= HEIGHT - 2,
                    1 <= col <= WIDTH - 1,
                    self.cells@.len() == CELLS,
                    forall|q: Position|
                        q.row < row || (q.row == row && q.col < col) ==> !#[trigger] self.spawnable(q),
                decreases WIDTH - col,
            {
                let p = Position { row, col };
                if self.is_spawnable(p) {
                    return Some(p);
                }
                col = col + 1;
            }
            row = row + 1;
        }
        None
    }

    /// Puts food on a free cell, if there is one; nothing else changes.
    fn new_food(&mut self)
        requires
            old(self).cells@.len() == CELLS,
        ensures
            final(self).cells@.len() == CELLS,
            food_placed(
                old(self).cells@,
                final(self).cells@,
                old(self).snake.pos,
                old(self).snake2.pos,
                old(self).two_player,
            ),
            final(self).snake == old(self).snake,
            final(self).snake2 == old(self).snake2,
            final(self).status == old(self).status,
            final(self).last_key == old(self).last_key,
            final(self).last_key2 == old(self).last_key2,
            final(self).countdown == old(self).countdown,
            final(self).total_ticks == old(self).total_ticks,
            final(self).two_player == old(self).two_player,
    {
        let ghost before = self.cells@;
        match self.spawn_spot() {
            Some(p) => {
                assert(spawn_ok(before, self.snake.pos, self.snake2.pos, self.two_player, p));
                self.cells.set(index_of(p), Cell::Food);
            },
            None => {
                assert forall|p: Position|
                    !spawn_ok(before, self.snake.pos, self.snake2.pos, self.two_player, p) by {
                    assert(!self.spawnable(p));
                }
            },
        }
    }

    /// The cell at a legal position.
    pub fn cell(&self, p: Position) -> (r: Cell)
        requires
            self.wf(),
            p.legal(),
        ensures
            r == self.cell_at(p),
    {
        self.cells[index_of(p)]
    }

    pub fn status(&self) -> (r: Status)
        ensures
            r == self.phase(),
    {
        self.status
    }

    /// Counts the countdown down by one; when it has run out, resets it and
    /// reports that a simulation step is due.
    pub fn countdown_complete(&mut self) -> (r: bool)
        ensures
            r == (old(self).countdown_left() == 0),
            r ==> final(self).countdown_left() == UPDATE_FREQUENCY,
            !r ==> final(self).countdown_left() == old(self).countdown_left() - 1,
            final(self).board_eq(old(self)),
            final(self).ticks() == old(self).ticks(),
            old(self).wf() ==> final(self).wf(),
    {
        if self.countdown == 0 {
            self.countdown = UPDATE_FREQUENCY;
            true
        } else {
            self.countdown = self.countdown - 1;
            false
        }
    }
}

/// Reading a grid after one cell of it was overwritten.
pub broadcast proof fn lemma_at_update(grid: Seq<Cell>, q: Position, c: Cell, p: Position)
    requires
        grid.len() == CELLS,
        q.legal(),
        p.legal(),
    ensures
        #[trigger] at(grid.update(q.index(), c), p) == if p == q {
            c
        } else {
            at(grid, p)
        },
{
    if p != q {
        lemma_index_injective(p, q);
    }
}

/// Distinct legal positions are at most as many as the cells of the board.
proof fn lemma_distinct_bound(s: Seq<Position>)
    requires
        s.no_duplicates(),
        forall|k: int| 0 <= k < s.len() ==> (#[trigger] s[k]).legal(),
    ensures
        s.len() <= CELLS,
{
    let idx = s.map_values(|p: Position| p.index());
    assert forall|i: int, j: int| 0 <= i < idx.len() && 0 <= j < idx.len() && i != j implies idx[i]
        != idx[j] by {
        lemma_index_injective(s[i], s[j]);
    }
    idx.unique_seq_to_set();
    lemma_int_range(0, CELLS as int);
    assert forall|x: int| idx.to_set().contains(x) implies set_int_range(0, CELLS as int).contains(x) by {
        let k = choose|k: int| 0 <= k < idx.len() && idx[k] == x;
        assert(s[k].legal());
    }
    lemma_len_subset(idx.to_set(), set_int_range(0, CELLS as int));
}

/// Overwriting a cell that neither held `tag` nor gets it, away from the
/// head, keeps a trail consistent with the grid.
proof fn lemma_frame_update(grid: Seq<Cell>, q: Position, c: Cell, head: Position, live: Seq<Position>, tag: Cell)
    requires
        grid.len() == CELLS,
        cells_match(grid, head, live, tag),
        q.legal(),
        q != head,
        at(grid, q) != tag,
        c != tag,
    ensures
        cells_match(grid.update(q.index(), c), head, live, tag),
{
    broadcast use lemma_at_update;

    let g2 = grid.update(q.index(), c);
    assert forall|k: int| 0 <= k < live.len() implies (#[trigger] live[k]).legal() && at(g2, live[k])
        == tag by {
        assert(live[k] != q);
    }
    assert forall|p: Position| p.legal() && #[trigger] at(g2, p) == tag implies live.contains(p) by {
        assert(at(grid, p) == tag);
    }
}

/// A grid without `tag` keeps none after a write of another value.
proof fn lemma_absent_update(grid: Seq<Cell>, q: Position, c: Cell, tag: Cell)
    requires
        grid.len() == CELLS,
        q.legal(),
        c != tag,
        forall|p: Position| p.legal() ==> #[trigger] at(grid, p) != tag,
    ensures
        forall|p: Position| p.legal() ==> #[trigger] at(grid.update(q.index(), c), p) != tag,
{
    broadcast use lemma_at_update;

    assert forall|p: Position| p.legal() implies #[trigger] at(grid.update(q.index(), c), p) != tag by {
        assert(at(grid, p) != tag);
    }
}

/// The head's old cell is not on the trail, so the trail with it appended
/// still has no repeats.
proof fn lemma_push_head(grid: Seq<Cell>, head: Position, live: Seq<Position>, tag: Cell)
    requires
        cells_match(grid, head, live, tag),
        tag != Cell::Empty,
    ensures
        !live.contains(head),
        live.push(head).no_duplicates(),
        forall|k: int| 0 <= k < live.push(head).len() ==> (#[trigger] live.push(head)[k]).legal(),
{
    if live.contains(head) {
        let k = choose|k: int| 0 <= k < live.len() && live[k] == head;
        assert(at(grid, live[k]) == tag);
    }
    let pushed = live.push(head);
    assert forall|i: int, j: int| 0 <= i < pushed.len() && 0 <= j < pushed.len() && i != j implies pushed[i]
        != pushed[j] by {
        if i < live.len() && j < live.len() {
            assert(live[i] != live[j]);
        } else if i < live.len() {
            assert(live.contains(live[i]));
        } else {
            assert(live.contains(live[j]));
        }
    }
    assert forall|k: int| 0 <= k < pushed.len() implies (#[trigger] pushed[k]).legal() by {
        if k < live.len() {
            assert(live[k].legal());
        }
    }
}

/// A trail has room for two more cells: the head's and the one it moves to.
proof fn lemma_grow_room(grid: Seq<Cell>, head: Position, live: Seq<Position>, tag: Cell, t: Position)
    requires
        cells_match(grid, head, live, tag),
        tag != Cell::Empty,
        t.legal(),
        t != head,
        at(grid, t) != tag,
    ensures
        live.len() + 2 <= CELLS,
{
    lemma_push_head(grid, head, live, tag);
    let pushed = live.push(head);
    let both = pushed.push(t);
    assert(!pushed.contains(t)) by {
        if pushed.contains(t) {
            let k = choose|k: int| 0 <= k < pushed.len() && pushed[k] == t;
            if k < live.len() {
                assert(at(grid, live[k]) == tag);
            }
        }
    }
    assert forall|i: int, j: int| 0 <= i < both.len() && 0 <= j < both.len() && i != j implies both[i]
        != both[j] by {
        if i < pushed.len() && j < pushed.len() {
            assert(pushed[i] != pushed[j]);
        } else if i < pushed.len() {
            assert(pushed.contains(pushed[i]));
        } else {
            assert(pushed.contains(pushed[j]));
        }
    }
    assert forall|k: int| 0 <= k < both.len() implies (#[trigger] both[k]).legal() by {
        if k < pushed.len() {
            assert(pushed[k].legal());
        }
    }
    lemma_distinct_bound(both);
}

/// A step onto a free cell without growing: the old head's cell joins the
/// trail and the oldest trail cell is cleared.
proof fn lemma_step_plain(grid: Seq<Cell>, head: Position, live: Seq<Position>, tag: Cell, t: Position)
    requires
        grid.len() == CELLS,
        cells_match(grid, head, live, tag),
        tag != Cell::Empty,
        t.legal(),
        t != head,
        at(grid, t) == Cell::Empty,
    ensures
        ({
            let pushed = live.push(head);
            let g1 = grid.update(head.index(), tag);
            &&& pushed[0].legal()
            &&& at(g1, pushed[0]) == tag
            &&& pushed[0] != t
            &&& cells_match(g1.update(pushed[0].index(), Cell::Empty), t, pushed.drop_first(), tag)
        }),
{
    broadcast use lemma_at_update;

    lemma_push_head(grid, head, live, tag);
    let pushed = live.push(head);
    let v = pushed[0];
    let g1 = grid.update(head.index(), tag);
    let g2 = g1.update(v.index(), Cell::Empty);
    let rest = pushed.drop_first();
    assert forall|k: int| 0 <= k < pushed.len() implies at(g1, #[trigger] pushed[k]) == tag by {
        if k < live.len() {
            assert(live[k] != head);
            assert(at(grid, live[k]) == tag);
        }
    }
    assert(pushed[0].legal());
    assert(at(g1, v) == tag);
    assert(rest.no_duplicates()) by {
        assert forall|i: int, j: int| 0 <= i < rest.len() && 0 <= j < rest.len() && i != j implies rest[i]
            != rest[j] by {
            assert(pushed[i + 1] != pushed[j + 1]);
        }
    }
    assert forall|k: int| 0 <= k < rest.len() implies (#[trigger] rest[k]).legal() && at(g2, rest[k]) == tag by {
        assert(pushed[k + 1].legal());
        assert(pushed[k + 1] != pushed[0]);
        assert(at(g1, pushed[k + 1]) == tag);
    }
    assert forall|p: Position| p.legal() && #[trigger] at(g2, p) == tag implies rest.contains(p) by {
        assert(p != v);
        assert(at(g1, p) == tag);
        let j: int = if p == head {
            live.len() as int
        } else {
            assert(at(grid, p) == tag);
            choose|j: int| 0 <= j < live.len() && live[j] == p
        };
        assert(pushed[j] == p);
        assert(j != 0);
        assert(rest[j - 1] == p);
    }
    assert(at(g2, t) == Cell::Empty);
}

/// A step onto food: the old head's cell joins the trail, the eaten cell is
/// cleared, and nothing leaves the trail.
proof fn lemma_step_grow(grid: Seq<Cell>, head: Position, live: Seq<Position>, tag: Cell, t: Position)
    requires
        grid.len() == CELLS,
        cells_match(grid, head, live, tag),
        tag != Cell::Empty,
        tag != Cell::Food,
        t.legal(),
        t != head,
        at(grid, t) == Cell::Food,
    ensures
        cells_match(
            grid.update(head.index(), tag).update(t.index(), Cell::Empty),
            t,
            live.push(head),
            tag,
        ),
{
    broadcast use lemma_at_update;

    lemma_push_head(grid, head, live, tag);
    let pushed = live.push(head);
    let g1 = grid.update(head.index(), tag);
    let g2 = g1.update(t.index(), Cell::Empty);
    assert forall|k: int| 0 <= k < pushed.len() implies (#[trigger] pushed[k]).legal() && at(g2, pushed[k])
        == tag by {
        if k < live.len() {
            assert(live[k] != head);
            assert(at(grid, live[k]) == tag);
        }
    }
    assert forall|p: Position| p.legal() && #[trigger] at(g2, p) == tag implies pushed.contains(p) by {
        if p == head {
            assert(pushed[live.len() as int] == p);
        } else {
            assert(at(grid, p) == tag);
            let j = choose|j: int| 0 <= j < live.len() && live[j] == p;
            assert(pushed[j] == p);
        }
    }
}

/// A player's head glyphs sit at indices inside the text.
proof fn lemma_markers(s: Seq<char>, first: bool)
    ensures
        forall|k: int|
            0 <= k < markers(s, first).len() ==> 0 <= #[trigger] markers(s, first)[k] < s.len()
                && player_glyph(s[markers(s, first)[k]], first) && dir_of_icon(s[markers(s, first)[k]]) is Some,
    decreases s.len(),
{
    if s.len() > 0 {
        let d = s.drop_last();
        lemma_markers(d, first);
        assert forall|k: int| 0 <= k < markers(d, first).len() implies s[#[trigger] markers(d, first)[k]]
            == d[markers(d, first)[k]] by {}
    }
}

/// A head glyph of a well-formed template lies on a legal position, and the
/// template index of that position is the glyph's index.
proof fn lemma_template_position(s: Seq<char>, m: int)
    requires
        s.len() == HEIGHT * (WIDTH + 1) - 1,
        0 <= m < s.len(),
        dir_of_icon(s[m]) is Some,
        forall|j: int|
            0 <= j < s.len() ==> if j % (WIDTH as int + 1) == WIDTH {
                #[trigger] s[j] == '\n'
            } else {
                template_char(s[j])
            },
    ensures
        template_position(m).legal(),
        template_index(template_position(m)) == m,
{
    assert(s[m] != '\n');
    lemma_fundamental_div_mod(m, 81);
    lemma_mod_bound(m, 81);
}

/// Row-major index of a legal position.
fn index_of(p: Position) -> (r: usize)
    requires
        p.legal(),
    ensures
        r == p.index(),
        r < CELLS,
{
    (p.row as usize) * WIDTH + (p.col as usize)
}

/// Distinct legal positions have distinct indices.
proof fn lemma_index_injective(p: Position, q: Position)
    requires
        p.legal(),
        q.legal(),
        p != q,
    ensures
        p.index() != q.index(),
{
}

} // verus!

verus! {

/// In every well-formed game, which every constructor and every step
/// produces, a cell holds a player's trail tag exactly when that cell is an
/// entry of the player's trail buffer; no entry repeats; the buffer holds as
/// many entries as the snake is long; and a one-player board has no cell of
/// the second player's tag.
pub proof fn lemma_trails_match_grid(g: &SnakeGame, player: int)
    requires
        g.wf(),
        g.player_live(player),
    ensures
        forall|p: Position|
            p.legal() ==> (#[trigger] g.cell_at(p) == tag_of(player) <==> g.trail(player).contains(p)),
        g.trail(player).no_duplicates(),
        g.trail(player).len() == g.length(player),
        !g.two_players() ==> forall|p: Position| p.legal() ==> #[trigger] g.cell_at(p) != Cell::Body2,
{
    let s = g.sn(player);
    assert forall|p: Position| p.legal() implies (#[trigger] g.cell_at(p) == tag_of(player) <==> g.trail(
        player,
    ).contains(p)) by {
        if g.trail(player).contains(p) {
            let k = choose|k: int| 0 <= k < s.live().len() && s.live()[k] == p;
            assert(at(g.cells@, s.live()[k]) == tag_of(player));
        }
    }
}

/// A buffered key never turns a snake back onto itself: a key for the
/// reverse heading is ignored, and after a step each player's heading is
/// not the reverse of what it was before.
pub proof fn lemma_no_reversal(a: &SnakeGame, b: &SnakeGame, player: int)
    requires
        stepped(a, b),
        player == 1 || player == 2,
    ensures
        forall|d: Dir| #[trigger] adopt(d, Some(reverse_of(d))) == d,
        b.heading(player) != reverse_of(a.heading(player)),
{
    assert forall|d: Dir| #[trigger] adopt(d, Some(reverse_of(d))) == d by {
        lemma_reverse_involution(d);
    }
    lemma_reverse_involution(a.heading(player));
    lemma_adopt_not_reverse(a.heading(player), a.pending(player));
    if a.phase() == Status::Normal && a.two_players() {
        let mid = choose|mid: SnakeGame|
            #[trigger] resolved(a, &mid, 1, a.pending(1)) && resolved(&mid, b, 2, a.pending(2));
        assert(mid.heading(1) == adopt(a.heading(1), a.pending(1)));
        assert(mid.heading(2) == a.heading(2));
        lemma_adopt_not_reverse(mid.heading(2), a.pending(2));
        assert(b.heading(2) == adopt(mid.heading(2), a.pending(2)));
        assert(b.heading(1) == mid.heading(1));
    } else if a.phase() == Status::Normal {
        assert(b.heading(1) == adopt(a.heading(1), a.pending(1)));
        assert(b.heading(2) == a.heading(2));
    } else {
        assert(b.head(player) == a.head(player));
    }
}

/// The heading taken from a key is never the reverse of the current one.
proof fn lemma_adopt_not_reverse(current: Dir, key: Option<Dir>)
    ensures
        adopt(current, key) != reverse_of(current),
{
    lemma_reverse_involution(current);
}

/// Eating: a move onto food makes the snake one longer, appends the old
/// head's cell to its trail, and, when the board has a free cell for it,
/// puts exactly one new food elsewhere: the food cells afterwards are the
/// new one and the old ones but the eaten one.
pub proof fn lemma_eating_grows(a: &SnakeGame, b: &SnakeGame, player: int, t: Position, d: Dir)
    requires
        a.wf(),
        a.player_live(player),
        t.legal(),
        moved(a, b, player, t, d),
        a.cell_at(t) == Cell::Food,
        exists|f: Position|
            spawn_ok(
                a.grid().update(a.head(player).index(), tag_of(player)).update(t.index(), Cell::Empty),
                b.head(1),
                b.head(2),
                a.two_players(),
                f,
            ),
    ensures
        b.length(player) == a.length(player) + 1,
        b.trail(player) == a.trail(player).push(a.head(player)),
        exists|f: Position|
            f != t && f.legal() && forall|q: Position|
                q.legal() ==> (#[trigger] b.cell_at(q) == Cell::Food <==> (q == f || (a.cell_at(q)
                    == Cell::Food && q != t))),
{
    broadcast use lemma_at_update;

    let h = a.head(player);
    let eaten = a.grid().update(h.index(), tag_of(player)).update(t.index(), Cell::Empty);
    let f = choose|f: Position|
        spawn_ok(eaten, b.head(1), b.head(2), a.two_players(), f) && b.grid() == eaten.update(
            f.index(),
            Cell::Food,
        );
    assert(f != t);
    assert(f.legal());
    assert forall|q: Position| q.legal() implies (#[trigger] b.cell_at(q) == Cell::Food <==> (q == f || (
    a.cell_at(q) == Cell::Food && q != t))) by {
        assert(at(a.cells@, h) == Cell::Empty);
        assert(h.legal());
        assert(at(b.grid(), q) == if q == f {
            Cell::Food
        } else {
            at(eaten, q)
        });
    }
    assert(f != t && f.legal() && forall|q: Position|
        q.legal() ==> (#[trigger] b.cell_at(q) == Cell::Food <==> (q == f || (a.cell_at(q) == Cell::Food
            && q != t))));
}

/// Collisions: a turn into a wall, a trail or the other head ends the round
/// in the phase that names the other player (or `Over` alone), and the head
/// stays where it was; a one-player step into an obstacle thus ends in
/// `Over`. Once the round is out of play, a step changes nothing on the board.
pub proof fn lemma_collision_ends_round(a: &SnakeGame, b: &SnakeGame)
    requires
        stepped(a, b),
    ensures
        forall|c: SnakeGame, e: SnakeGame, player: int, key: Option<Dir>|
            #[trigger] resolved(&c, &e, player, key) && c.phase() == Status::Normal && step_to(
                c.head(player),
                adopt(c.heading(player), key),
            ).legal() && c.blocked(player, step_to(c.head(player), adopt(c.heading(player), key)))
                ==> e.phase() == loss_status(c.two_players(), player) && e.head(player) == c.head(
                player,
            ) && e.grid() == c.grid(),
        ({
            let t = step_to(a.head(1), adopt(a.heading(1), a.pending(1)));
            a.phase() == Status::Normal && !a.two_players() && t.legal() && a.blocked(1, t) ==> b.phase()
                == Status::Over && b.head(1) == a.head(1)
        }),
        a.phase() != Status::Normal ==> same_play(a, b),
{
}

} // verus!
