//! The tic-tac-toe game: board, turns, win and draw detection, and the bot.
use vstd::prelude::*;
use vstd::string::*;

verus! {

#[derive(Clone, Copy, Debug, PartialEq, Eq, Structural)]
pub enum Player {
    X,
    O,
}

impl Player {
    /// The opponent.
    pub fn other(self) -> (r: Player)
        ensures
            r != self,
    {
        match self {
            Player::X => Player::O,
            Player::O => Player::X,
        }
    }

    /// The player's mark, `"X"` or `"O"`.
    pub fn to_string(self) -> (r: &'static str)
        ensures
            r@ == mark(self),
    {
        proof {
            reveal_strlit("X");
            reveal_strlit("O");
        }
        match self {
            Player::X => "X",
            Player::O => "O",
        }
    }
}

pub open spec fn mark(p: Player) -> Seq<char> {
    match p {
        Player::X => seq!['X'],
        Player::O => seq!['O'],
    }
}

#[derive(Clone, Copy, Debug, PartialEq, Eq, Structural)]
pub enum Cell {
    Empty,
    Occupied(Player),
}

#[derive(Clone, Copy, Debug, PartialEq, Eq, Structural)]
pub enum GameMode {
    TwoPlayer,
    VsBot,
}

#[derive(Clone, Copy, Debug, PartialEq, Eq, Structural)]
pub enum GameState {
    Playing,
    Won(Player),
    Draw,
}

/// The cells of a board, row by row.
pub type Board = Seq<Seq<Cell>>;

pub open spec fn board_view(b: [[Cell; 3]; 3]) -> Board {
    b@.map_values(|row: [Cell; 3]| row@)
}

pub open spec fn at(b: Board, r: int, c: int) -> Cell {
    b[r][c]
}

/// `p` holds the three cells (r0, c0), (r1, c1), (r2, c2).
pub open spec fn owns(b: Board, p: Player, r0: int, c0: int, r1: int, c1: int, r2: int, c2: int) -> bool {
    at(b, r0, c0) == Cell::Occupied(p) && at(b, r1, c1) == Cell::Occupied(p) && at(b, r2, c2) == Cell::Occupied(p)
}

/// `p` holds a full row, column or diagonal.
pub open spec fn wins(b: Board, p: Player) -> bool {
    ||| owns(b, p, 0, 0, 0, 1, 0, 2)
    ||| owns(b, p, 1, 0, 1, 1, 1, 2)
    ||| owns(b, p, 2, 0, 2, 1, 2, 2)
    ||| owns(b, p, 0, 0, 1, 0, 2, 0)
    ||| owns(b, p, 0, 1, 1, 1, 2, 1)
    ||| owns(b, p, 0, 2, 1, 2, 2, 2)
    ||| owns(b, p, 0, 0, 1, 1, 2, 2)
    ||| owns(b, p, 0, 2, 1, 1, 2, 0)
}

/// No cell is empty.
pub open spec fn full(b: Board) -> bool {
    forall|r: int, c: int| 0 <= r < 3 && 0 <= c < 3 ==> at(b, r, c) != Cell::Empty
}

/// `b` with cell (r, c) taken by `p`.
pub open spec fn place(b: Board, r: int, c: int, p: Player) -> Board {
    b.update(r, b[r].update(c, Cell::Occupied(p)))
}

/// Placing `p` on the empty cell (r, c) completes a line for `p`.
pub open spec fn winning_cell(b: Board, p: Player, r: int, c: int) -> bool {
    0 <= r < 3 && 0 <= c < 3 && at(b, r, c) == Cell::Empty && wins(place(b, r, c, p), p)
}

/// The state a board is in after a move: a win for X, else for O, else a
/// draw when full, else `s` (unchanged).
pub open spec fn judged(b: Board, s: GameState) -> GameState {
    if wins(b, Player::X) {
        GameState::Won(Player::X)
    } else if wins(b, Player::O) {
        GameState::Won(Player::O)
    } else if full(b) {
        GameState::Draw
    } else {
        s
    }
}

pub open spec fn empty_board() -> Board {
    Seq::new(3, |i: int| Seq::new(3, |j: int| Cell::Empty))
}

/// What a game is: the board, whose turn it is, the state, the mode and the
/// status line shown to the players.
pub struct GameView {
    pub board: Board,
    pub current_player: Player,
    pub game_state: GameState,
    pub game_mode: GameMode,
    pub status: Seq<char>,
}

pub struct TicTacToe {
    board: [[Cell; 3]; 3],
    current_player: Player,
    game_state: GameState,
    game_mode: GameMode,
    status_message: String,
}

impl View for TicTacToe {
    type V = GameView;

    closed spec fn view(&self) -> GameView {
        GameView {
            board: board_view(self.board),
            current_player: self.current_player,
            game_state: self.game_state,
            game_mode: self.game_mode,
            status: self.status_message@,
        }
    }
}

/// A consistent game: a finished game shows why it finished, and a game in
/// play has no complete line and an empty cell.
pub open spec fn game_ok(g: GameView) -> bool {
    &&& g.game_state matches GameState::Won(p) ==> wins(g.board, p)
    &&& g.game_state == GameState::Draw ==> full(g.board)
    &&& g.game_state == GameState::Playing ==> !wins(g.board, Player::X) && !wins(g.board, Player::O) && !full(g.board)
}

/// The status line after a move that left the game in `s` with `next` to play.
pub open spec fn status_after_move(s: GameState, mode: GameMode, next: Player) -> Seq<char> {
    match s {
        GameState::Won(Player::X) => "Player X wins!"@,
        GameState::Won(Player::O) => "Player O wins!"@,
        GameState::Draw => "It's a draw!"@,
        GameState::Playing => if mode == GameMode::VsBot && next == Player::O {
            "Bot is thinking..."@
        } else if mode == GameMode::VsBot {
            "Your turn"@
        } else if next == Player::X {
            "Player X turn"@
        } else {
            "Player O turn"@
        },
    }
}

/// The status line of a new game.
pub open spec fn status_new_game(mode: GameMode) -> Seq<char> {
    if mode == GameMode::VsBot { "Your turn (X)"@ } else { "Player X's turn"@ }
}

/// The game after the current player takes the empty cell (r, c).
pub open spec fn after_move(g: GameView, r: int, c: int) -> GameView {
    let b = place(g.board, r, c, g.current_player);
    let s = judged(b, g.game_state);
    let next = if s == GameState::Playing { g.current_player.other_spec() } else { g.current_player };
    GameView {
        board: b,
        current_player: next,
        game_state: s,
        game_mode: g.game_mode,
        status: status_after_move(s, g.game_mode, next),
    }
}

impl Player {
    pub open spec fn other_spec(self) -> Player {
        match self {
            Player::X => Player::O,
            Player::O => Player::X,
        }
    }
}

/// A move on (r, c) is taken: the game is in play and the cell is empty.
pub open spec fn move_allowed(g: GameView, r: int, c: int) -> bool {
    g.game_state == GameState::Playing && at(g.board, r, c) == Cell::Empty
}

/// The first winning cell for `p` in row-major order.
pub open spec fn first_winning(b: Board, p: Player, k: int) -> Option<(usize, usize)>
    decreases 9 - k,
{
    if k >= 9 || k < 0 {
        None
    } else if winning_cell(b, p, k / 3, k % 3) {
        Some(((k / 3) as usize, (k % 3) as usize))
    } else {
        first_winning(b, p, k + 1)
    }
}

/// The first empty cell among `cells`.
pub open spec fn first_empty(b: Board, cells: Seq<(int, int)>) -> Option<(int, int)>
    decreases cells.len(),
{
    if cells.len() == 0 {
        None
    } else if at(b, cells[0].0, cells[0].1) == Cell::Empty {
        Some(cells[0])
    } else {
        first_empty(b, cells.drop_first())
    }
}

/// The cell the bot plays on `b`: a winning cell for O, else one that blocks X,
/// else the center, a corner, a side.
pub open spec fn bot_choice(b: Board) -> Option<(int, int)> {
    match first_winning(b, Player::O, 0) {
        Some((r, c)) => Some((r as int, c as int)),
        None => match first_winning(b, Player::X, 0) {
            Some((r, c)) => Some((r as int, c as int)),
            None => first_empty(b, seq![(1, 1), (0, 0), (0, 2), (2, 0), (2, 2), (0, 1), (1, 0), (1, 2), (2, 1)]),
        },
    }
}

/// The board cell under the point (x, y): cells are 60 pixels wide, 5 apart,
/// from (80, 100).
pub open spec fn cell_hit(x: int, y: int, r: int, c: int) -> bool {
    0 <= r < 3 && 0 <= c < 3 && 80 + c * 65 <= x < 80 + c * 65 + 60 && 100 + r * 65 <= y < 100 + r * 65 + 60
}

pub open spec fn button_hit(x: int, y: int, bx: int, by: int, bw: int, bh: int) -> bool {
    bx <= x < bx + bw && by <= y < by + bh
}

fn same_cell(a: Cell, b: Cell) -> (r: bool)
    ensures
        r == (a == b),
{
    match (a, b) {
        (Cell::Empty, Cell::Empty) => true,
        (Cell::Occupied(p), Cell::Occupied(q)) => p == q,
        _ => false,
    }
}

fn is_empty(c: Cell) -> (r: bool)
    ensures
        r == (c == Cell::Empty),
{
    match c {
        Cell::Empty => true,
        Cell::Occupied(_) => false,
    }
}

/// Whether `player` holds a full line on `board`.
pub fn check_win_on_board(board: &[[Cell; 3]; 3], player: Player) -> (r: bool)
    ensures
        r == wins(board_view(*board), player),
{
    let t = Cell::Occupied(player);
    let b = board;
    (same_cell(b[0][0], t) && same_cell(b[0][1], t) && same_cell(b[0][2], t))
        || (same_cell(b[1][0], t) && same_cell(b[1][1], t) && same_cell(b[1][2], t))
        || (same_cell(b[2][0], t) && same_cell(b[2][1], t) && same_cell(b[2][2], t))
        || (same_cell(b[0][0], t) && same_cell(b[1][0], t) && same_cell(b[2][0], t))
        || (same_cell(b[0][1], t) && same_cell(b[1][1], t) && same_cell(b[2][1], t))
        || (same_cell(b[0][2], t) && same_cell(b[1][2], t) && same_cell(b[2][2], t))
        || (same_cell(b[0][0], t) && same_cell(b[1][1], t) && same_cell(b[2][2], t))
        || (same_cell(b[0][2], t) && same_cell(b[1][1], t) && same_cell(b[2][0], t))
}

/// Whether no cell of `board` is empty.
pub fn board_full(board: &[[Cell; 3]; 3]) -> (r: bool)
    ensures
        r == full(board_view(*board)),
{
    let mut row: usize = 0;
    while row < 3
        invariant
            row <= 3,
            forall|r: int, c: int| 0 <= r < row && 0 <= c < 3 ==> at(board_view(*board), r, c) != Cell::Empty,
        decreases 3 - row,
    {
        let mut col: usize = 0;
        while col < 3
            invariant
                row < 3,
                col <= 3,
                forall|r: int, c: int| 0 <= r < row && 0 <= c < 3 ==> at(board_view(*board), r, c) != Cell::Empty,
                forall|c: int| 0 <= c < col ==> at(board_view(*board), row as int, c) != Cell::Empty,
            decreases 3 - col,
        {
            if is_empty(board[row][col]) {
                assert(at(board_view(*board), row as int, col as int) == Cell::Empty);
                return false;
            }
            col = col + 1;
        }
        row = row + 1;
    }
    true
}

fn put(board: &mut [[Cell; 3]; 3], row: usize, col: usize, p: Player)
    requires
        row < 3,
        col < 3,
    ensures
        board_view(*final(board)) == place(board_view(*old(board)), row as int, col as int, p),
{
    let mut line = board[row];
    line[col] = Cell::Occupied(p);
    board[row] = line;
    assert(board_view(*board) =~= place(board_view(*old(board)), row as int, col as int, p));
}

impl TicTacToe {
    /// A new two-player game with X to play.
    pub fn new(_args: Option<String>) -> (r: TicTacToe)
        ensures
            r@.board == empty_board(),
            r@.current_player == Player::X,
            r@.game_state == GameState::Playing,
            r@.game_mode == GameMode::TwoPlayer,
            r@.status == "Player X's turn"@,
            game_ok(r@),
    {
        let row = [Cell::Empty, Cell::Empty, Cell::Empty];
        let board = [row, row, row];
        assert(row@ =~= Seq::new(3, |j: int| Cell::Empty));
        assert(board_view(board) =~= empty_board());
        let r = TicTacToe {
            board,
            current_player: Player::X,
            game_state: GameState::Playing,
            game_mode: GameMode::TwoPlayer,
            status_message: String::from_str("Player X's turn"),
        };
        assert(!full(board_view(r.board))) by {
            assert(at(board_view(r.board), 0, 0) == Cell::Empty);
        }
        r
    }

    /// The cell at (row, col).
    pub fn cell(&self, row: usize, col: usize) -> (c: Cell)
        requires
            row < 3,
            col < 3,
        ensures
            c == at(self@.board, row as int, col as int),
    {
        self.board[row][col]
    }

    pub fn current_player(&self) -> (p: Player)
        ensures
            p == self@.current_player,
    {
        self.current_player
    }

    pub fn game_state(&self) -> (s: GameState)
        ensures
            s == self@.game_state,
    {
        self.game_state
    }

    pub fn game_mode(&self) -> (m: GameMode)
        ensures
            m == self@.game_mode,
    {
        self.game_mode
    }

    /// The status line shown to the players.
    pub fn status_message(&self) -> (s: &str)
        ensures
            s@ == self@.status,
    {
        self.status_message.as_str()
    }

    /// Whether `player` holds a full line.
    pub fn check_win(&self, player: Player) -> (r: bool)
        ensures
            r == wins(self@.board, player),
    {
        check_win_on_board(&self.board, player)
    }

    /// Whether every cell is taken.
    pub fn is_board_full(&self) -> (r: bool)
        ensures
            r == full(self@.board),
    {
        board_full(&self.board)
    }

    /// Ends the game when X or O holds a line (X checked first) or the board
    /// is full.
    pub fn check_game_state(&mut self)
        ensures
            final(self)@ == (GameView { game_state: judged(old(self)@.board, old(self)@.game_state), ..old(self)@ }),
    {
        if self.check_win(Player::X) {
            self.game_state = GameState::Won(Player::X);
        } else if self.check_win(Player::O) {
            self.game_state = GameState::Won(Player::O);
        } else if self.is_board_full() {
            self.game_state = GameState::Draw;
        }
    }
}


/// A new game in the same mode.
pub open spec fn new_game_view(g: GameView) -> GameView {
    GameView {
        board: empty_board(),
        current_player: Player::X,
        game_state: GameState::Playing,
        game_mode: g.game_mode,
        status: status_new_game(g.game_mode),
    }
}

/// The game after the current player tries cell (r, c): the move when it is
/// allowed, the same game otherwise.
pub open spec fn move_view(g: GameView, r: int, c: int) -> GameView {
    if move_allowed(g, r, c) { after_move(g, r, c) } else { g }
}

/// The game after the bot's turn: when O is to play in a game in play, O
/// takes the cell `bot_choice` picks.
pub open spec fn bot_view(g: GameView) -> GameView {
    if g.game_state == GameState::Playing && g.current_player == Player::O {
        match bot_choice(g.board) {
            Some((r, c)) => move_view(g, r, c),
            None => g,
        }
    } else {
        g
    }
}

/// The first cell (row-major from index `k`) under the point (x, y).
pub open spec fn first_hit(x: int, y: int, k: int) -> Option<(int, int)>
    decreases 9 - k,
{
    if k >= 9 || k < 0 {
        None
    } else if cell_hit(x, y, k / 3, k % 3) {
        Some((k / 3, k % 3))
    } else {
        first_hit(x, y, k + 1)
    }
}

/// The game after a click at (x, y) on the board: ignored when the game is
/// over or it is the bot's turn; else a move on the cell clicked, if any.
pub open spec fn cell_click_view(g: GameView, x: int, y: int) -> GameView {
    if g.game_state != GameState::Playing || (g.game_mode == GameMode::VsBot && g.current_player == Player::O) {
        g
    } else {
        match first_hit(x, y, 0) {
            Some((r, c)) => move_view(g, r, c),
            None => g,
        }
    }
}

/// The game after a click at (x, y) anywhere in the window: the mode buttons
/// start a new game in that mode, the new-game button a new game; else a
/// board click, after which the bot plays when it is its turn.
pub open spec fn click_view(g: GameView, x: int, y: int) -> GameView {
    if button_hit(x, y, 50, 50, 80, 30) {
        new_game_view(GameView { game_mode: GameMode::TwoPlayer, ..g })
    } else if button_hit(x, y, 140, 50, 80, 30) {
        new_game_view(GameView { game_mode: GameMode::VsBot, ..g })
    } else if button_hit(x, y, 80, 350, 100, 30) {
        new_game_view(g)
    } else {
        let g1 = cell_click_view(g, x, y);
        if g1.game_mode == GameMode::VsBot && g1.current_player == Player::O && g1.game_state == GameState::Playing {
            bot_view(g1)
        } else {
            g1
        }
    }
}

fn status_line(s: GameState, mode: GameMode, next: Player) -> (r: String)
    ensures
        r@ == status_after_move(s, mode, next),
{
    match s {
        GameState::Won(Player::X) => String::from_str("Player X wins!"),
        GameState::Won(Player::O) => String::from_str("Player O wins!"),
        GameState::Draw => String::from_str("It's a draw!"),
        GameState::Playing => {
            if mode == GameMode::VsBot && next == Player::O {
                String::from_str("Bot is thinking...")
            } else if mode == GameMode::VsBot {
                String::from_str("Your turn")
            } else if next == Player::X {
                String::from_str("Player X turn")
            } else {
                String::from_str("Player O turn")
            }
        },
    }
}

impl TicTacToe {
    /// The current player takes cell (row, col) if the game is in play and the
    /// cell is empty; the game is then judged, the turn passes when it goes
    /// on, and the status line is updated. Returns whether the move was made.
    pub fn make_move(&mut self, row: usize, col: usize) -> (r: bool)
        requires
            row < 3,
            col < 3,
        ensures
            r == move_allowed(old(self)@, row as int, col as int),
            final(self)@ == move_view(old(self)@, row as int, col as int),
    {
        if self.game_state != GameState::Playing || !is_empty(self.board[row][col]) {
            return false;
        }
        let ghost g = self@;
        put(&mut self.board, row, col, self.current_player);
        self.check_game_state();
        if self.game_state == GameState::Playing {
            self.current_player = self.current_player.other();
        }
        self.status_message = status_line(self.game_state, self.game_mode, self.current_player);
        assert(self@ == after_move(g, row as int, col as int));
        true
    }

    /// The first cell, in row-major order, where `player` would complete a line.
    pub fn find_winning_move(&self, player: Player) -> (r: Option<(usize, usize)>)
        ensures
            r == first_winning(self@.board, player, 0),
    {
        let mut k: usize = 0;
        while k < 9
            invariant
                k <= 9,
                first_winning(self@.board, player, 0) == first_winning(self@.board, player, k as int),
            decreases 9 - k,
        {
            let row = k / 3;
            let col = k % 3;
            if is_empty(self.board[row][col]) {
                let mut test_board = self.board;
                put(&mut test_board, row, col, player);
                if check_win_on_board(&test_board, player) {
                    return Some((row, col));
                }
            }
            k = k + 1;
        }
        None
    }

    /// The bot's turn: when O is to play in a game in play, O takes a winning
    /// cell, else a cell that blocks X, else the center, a corner, a side.
    pub fn make_bot_move(&mut self)
        ensures
            final(self)@ == bot_view(old(self)@),
    {
        if self.game_state != GameState::Playing || self.current_player != Player::O {
            return;
        }
        proof {
            lemma_first_winning(self@.board, Player::O, 0);
            lemma_first_winning(self@.board, Player::X, 0);
        }
        if let Some((row, col)) = self.find_winning_move(Player::O) {
            self.make_move(row, col);
            return;
        }
        if let Some((row, col)) = self.find_winning_move(Player::X) {
            self.make_move(row, col);
            return;
        }
        let order: [(usize, usize); 9] = [(1, 1), (0, 0), (0, 2), (2, 0), (2, 2), (0, 1), (1, 0), (1, 2), (2, 1)];
        let ghost cells: Seq<(int, int)> = seq![(1, 1), (0, 0), (0, 2), (2, 0), (2, 2), (0, 1), (1, 0), (1, 2), (2, 1)];
        let mut i: usize = 0;
        assert(cells.subrange(0, 9) =~= cells);
        while i < 9
            invariant
                i <= 9,
                cells == seq![(1int, 1int), (0, 0), (0, 2), (2, 0), (2, 2), (0, 1), (1, 0), (1, 2), (2, 1)],
                order@ == seq![(1usize, 1usize), (0, 0), (0, 2), (2, 0), (2, 2), (0, 1), (1, 0), (1, 2), (2, 1)],
                first_empty(self@.board, cells) == first_empty(self@.board, cells.subrange(i as int, 9)),
                *self == *old(self),
                old(self)@.game_state == GameState::Playing,
                old(self)@.current_player == Player::O,
                first_winning(old(self)@.board, Player::O, 0) is None,
                first_winning(old(self)@.board, Player::X, 0) is None,
            decreases 9 - i,
        {
            let (row, col) = order[i];
            let ghost rest = cells.subrange(i as int, 9);
            assert(rest.drop_first() =~= cells.subrange(i + 1, 9));
            assert(rest[0] == cells[i as int]);
            assert(row == cells[i as int].0 && col == cells[i as int].1);
            assert(row < 3 && col < 3);
            if is_empty(self.board[row][col]) {
                self.make_move(row, col);
                return;
            }
            i = i + 1;
        }
    }

    /// Starts a new game in the current mode.
    pub fn new_game(&mut self)
        ensures
            final(self)@ == new_game_view(old(self)@),
    {
        let row = [Cell::Empty, Cell::Empty, Cell::Empty];
        self.board = [row, row, row];
        assert(row@ =~= Seq::new(3, |j: int| Cell::Empty));
        assert(board_view(self.board) =~= empty_board());
        self.current_player = Player::X;
        self.game_state = GameState::Playing;
        self.status_message = if self.game_mode == GameMode::VsBot {
            String::from_str("Your turn (X)")
        } else {
            String::from_str("Player X's turn")
        };
    }

    /// Switches to `mode` and starts a new game.
    pub fn set_game_mode(&mut self, mode: GameMode)
        ensures
            final(self)@ == new_game_view(GameView { game_mode: mode, ..old(self)@ }),
    {
        self.game_mode = mode;
        self.new_game();
    }

    /// A click at (x, y) on the board (see `cell_click_view`); returns whether a move was made.
    pub fn handle_cell_click(&mut self, x: usize, y: usize) -> (r: bool)
        ensures
            final(self)@ == cell_click_view(old(self)@, x as int, y as int),
            r == (final(self)@ != old(self)@),
    {
        if self.game_state != GameState::Playing {
            return false;
        }
        if self.game_mode == GameMode::VsBot && self.current_player == Player::O {
            return false;
        }
        let mut k: usize = 0;
        while k < 9
            invariant
                k <= 9,
                first_hit(x as int, y as int, 0) == first_hit(x as int, y as int, k as int),
                *self == *old(self),
                old(self)@.game_state == GameState::Playing,
                !(old(self)@.game_mode == GameMode::VsBot && old(self)@.current_player == Player::O),
            decreases 9 - k,
        {
            let row = k / 3;
            let col = k % 3;
            let cell_x = 80 + col * 65;
            let cell_y = 100 + row * 65;
            assert(first_hit(x as int, y as int, k as int) == if cell_hit(x as int, y as int, row as int, col as int) {
                Some((row as int, col as int))
            } else {
                first_hit(x as int, y as int, k + 1)
            });
            if x >= cell_x && x < cell_x + 60 && y >= cell_y && y < cell_y + 60 {
                assert(cell_hit(x as int, y as int, row as int, col as int));
                let moved = self.make_move(row, col);
                proof {
                    if moved {
                        lemma_move_changes(old(self)@, row as int, col as int);
                    }
                }
                return moved;
            }
            k = k + 1;
        }
        false
    }

    /// Whether (x, y) lies in the button at (btn_x, btn_y) of the given size.
    pub fn is_button_clicked(&self, x: usize, y: usize, btn_x: usize, btn_y: usize, btn_width: usize, btn_height: usize) -> (r: bool)
        requires
            btn_x + btn_width <= usize::MAX,
            btn_y + btn_height <= usize::MAX,
        ensures
            r == button_hit(x as int, y as int, btn_x as int, btn_y as int, btn_width as int, btn_height as int),
    {
        x >= btn_x && x < btn_x + btn_width && y >= btn_y && y < btn_y + btn_height
    }

    /// A click at (x, y) in the game window (see `click_view`).
    pub fn handle_mouse_click(&mut self, x: usize, y: usize)
        ensures
            final(self)@ == click_view(old(self)@, x as int, y as int),
    {
        if self.is_button_clicked(x, y, 50, 50, 80, 30) {
            self.set_game_mode(GameMode::TwoPlayer);
            return;
        }
        if self.is_button_clicked(x, y, 140, 50, 80, 30) {
            self.set_game_mode(GameMode::VsBot);
            return;
        }
        if self.is_button_clicked(x, y, 80, 350, 100, 30) {
            self.new_game();
            return;
        }
        self.handle_cell_click(x, y);
        if self.game_mode == GameMode::VsBot && self.current_player == Player::O && self.game_state == GameState::Playing {
            self.make_bot_move();
        }
    }
}

proof fn lemma_first_winning(b: Board, p: Player, k: int)
    ensures
        first_winning(b, p, k) matches Some((r, c)) ==> r < 3 && c < 3 && winning_cell(b, p, r as int, c as int),
    decreases 9 - k,
{
    if 0 <= k < 9 {
        lemma_first_winning(b, p, k + 1);
    }
}

/// A move that is made changes the game (the cell it takes was empty).
proof fn lemma_move_changes(g: GameView, r: int, c: int)
    requires
        0 <= r < 3,
        0 <= c < 3,
        move_allowed(g, r, c),
        g.board.len() == 3,
        forall|i: int| 0 <= i < 3 ==> (#[trigger] g.board[i]).len() == 3,
    ensures
        move_view(g, r, c) != g,
{
    assert(at(move_view(g, r, c).board, r, c) != at(g.board, r, c));
}


/// Three rows of three cells.
pub open spec fn board_ok(b: Board) -> bool {
    b.len() == 3 && forall|i: int| 0 <= i < 3 ==> (#[trigger] b[i]).len() == 3
}

/// Every game's board has three rows of three cells.
pub proof fn lemma_board_shape(t: &TicTacToe)
    ensures
        board_ok(t@.board),
{
}

proof fn lemma_at_place(b: Board, r: int, c: int, p: Player)
    requires
        board_ok(b),
        0 <= r < 3,
        0 <= c < 3,
    ensures
        board_ok(place(b, r, c, p)),
        forall|i: int, j: int| 0 <= i < 3 && 0 <= j < 3 ==> #[trigger] at(place(b, r, c, p), i, j)
            == if i == r && j == c { Cell::Occupied(p) } else { at(b, i, j) },
{
}

/// Taking a cell for `p` gives no line to the other player.
proof fn lemma_place_no_line(b: Board, r: int, c: int, p: Player)
    requires
        board_ok(b),
        0 <= r < 3,
        0 <= c < 3,
        !wins(b, p.other_spec()),
    ensures
        !wins(place(b, r, c, p), p.other_spec()),
{
    lemma_at_place(b, r, c, p);
}

/// Moves keep a game consistent: a game that ends shows its winning line or
/// full board, and a game that goes on has neither.
pub proof fn lemma_move_keeps_game_ok(g: GameView, r: int, c: int)
    requires
        board_ok(g.board),
        game_ok(g),
        0 <= r < 3,
        0 <= c < 3,
    ensures
        game_ok(move_view(g, r, c)),
        board_ok(move_view(g, r, c).board),
{
    lemma_at_place(g.board, r, c, g.current_player);
}

/// A new game is consistent.
pub proof fn lemma_new_game_ok(g: GameView)
    ensures
        game_ok(new_game_view(g)),
        board_ok(new_game_view(g).board),
{
    let b = empty_board();
    assert(at(b, 0, 0) == Cell::Empty);
    assert(!wins(b, Player::X));
    assert(!wins(b, Player::O));
}

/// The bot's turn keeps a game consistent.
pub proof fn lemma_bot_keeps_game_ok(g: GameView)
    requires
        board_ok(g.board),
        game_ok(g),
    ensures
        game_ok(bot_view(g)),
        board_ok(bot_view(g).board),
{
    if g.game_state == GameState::Playing && g.current_player == Player::O {
        lemma_first_winning(g.board, Player::O, 0);
        lemma_first_winning(g.board, Player::X, 0);
        match bot_choice(g.board) {
            Some((r, c)) => {
                lemma_first_empty_in_board(g.board, seq![(1, 1), (0, 0), (0, 2), (2, 0), (2, 2), (0, 1), (1, 0), (1, 2), (2, 1)]);
                lemma_move_keeps_game_ok(g, r, c);
            },
            None => {},
        }
    }
}

proof fn lemma_first_empty_in_board(b: Board, cells: Seq<(int, int)>)
    requires
        forall|i: int| 0 <= i < cells.len() ==> 0 <= (#[trigger] cells[i]).0 < 3 && 0 <= cells[i].1 < 3,
    ensures
        first_empty(b, cells) matches Some((r, c)) ==> 0 <= r < 3 && 0 <= c < 3,
    decreases cells.len(),
{
    if cells.len() > 0 {
        assert(cells[0].0 < 3);
        lemma_first_empty_in_board(b, cells.drop_first());
    }
}

/// Every click keeps a game consistent.
pub proof fn lemma_click_keeps_game_ok(g: GameView, x: int, y: int)
    requires
        board_ok(g.board),
        game_ok(g),
    ensures
        game_ok(click_view(g, x, y)),
{
    lemma_new_game_ok(g);
    lemma_new_game_ok(GameView { game_mode: GameMode::TwoPlayer, ..g });
    lemma_new_game_ok(GameView { game_mode: GameMode::VsBot, ..g });
    lemma_first_hit_in_board(x, y, 0);
    let g1 = cell_click_view(g, x, y);
    match first_hit(x, y, 0) {
        Some((r, c)) => lemma_move_keeps_game_ok(g, r, c),
        None => {},
    }
    lemma_bot_keeps_game_ok(g1);
}

proof fn lemma_first_hit_in_board(x: int, y: int, k: int)
    ensures
        first_hit(x, y, k) matches Some((r, c)) ==> 0 <= r < 3 && 0 <= c < 3,
    decreases 9 - k,
{
    if 0 <= k < 9 {
        lemma_first_hit_in_board(x, y, k + 1);
    }
}

/// A move never changes a cell that is already taken.
pub proof fn lemma_move_keeps_marks(g: GameView, r: int, c: int, r2: int, c2: int)
    requires
        board_ok(g.board),
        0 <= r < 3,
        0 <= c < 3,
        0 <= r2 < 3,
        0 <= c2 < 3,
        at(g.board, r2, c2) != Cell::Empty,
    ensures
        at(move_view(g, r, c).board, r2, c2) == at(g.board, r2, c2),
{
    lemma_at_place(g.board, r, c, g.current_player);
}

/// When O can complete a line, the bot's turn wins the game for O.
pub proof fn lemma_bot_takes_win(g: GameView)
    requires
        board_ok(g.board),
        game_ok(g),
        g.game_state == GameState::Playing,
        g.current_player == Player::O,
        first_winning(g.board, Player::O, 0) is Some,
    ensures
        bot_view(g).game_state == GameState::Won(Player::O),
{
    lemma_first_winning(g.board, Player::O, 0);
    let (r, c) = first_winning(g.board, Player::O, 0).unwrap();
    lemma_place_no_line(g.board, r as int, c as int, Player::O);
}

/// When O cannot complete a line but X could, the bot takes the cell X needs.
pub proof fn lemma_bot_blocks(g: GameView)
    requires
        board_ok(g.board),
        g.game_state == GameState::Playing,
        g.current_player == Player::O,
        first_winning(g.board, Player::O, 0) is None,
        first_winning(g.board, Player::X, 0) matches Some((r, c)),
    ensures
        first_winning(g.board, Player::X, 0) matches Some((r, c))
            && at(bot_view(g).board, r as int, c as int) == Cell::Occupied(Player::O),
{
    lemma_first_winning(g.board, Player::X, 0);
    let (r, c) = first_winning(g.board, Player::X, 0).unwrap();
    lemma_at_place(g.board, r as int, c as int, Player::O);
}

} // verus!
