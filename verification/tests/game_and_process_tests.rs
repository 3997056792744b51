use goofy_os::process::{
    kill_process, Process, ProcessError, ProcessManager, ProcessState, ProcessType, RegisterState, DEFAULT_RFLAGS,
};
use goofy_os::tictactoe::{board_full, check_win_on_board, Cell, GameMode, GameState, Player, TicTacToe};

fn click_cell(g: &mut TicTacToe, row: usize, col: usize) {
    g.handle_mouse_click(80 + col * 65 + 10, 100 + row * 65 + 10);
}

#[test]
fn new_game_is_empty() {
    let g = TicTacToe::new(None);
    for r in 0..3 {
        for c in 0..3 {
            assert_eq!(g.cell(r, c), Cell::Empty);
        }
    }
    assert_eq!(g.current_player(), Player::X);
    assert_eq!(g.game_state(), GameState::Playing);
    assert_eq!(g.game_mode(), GameMode::TwoPlayer);
    assert_eq!(g.status_message(), "Player X's turn");
    assert_eq!(Player::X.to_string(), "X");
    assert_eq!(Player::O.other(), Player::X);
}

#[test]
fn moves_alternate_and_occupied_cells_are_refused() {
    let mut g = TicTacToe::new(None);
    assert!(g.make_move(0, 0));
    assert_eq!(g.cell(0, 0), Cell::Occupied(Player::X));
    assert_eq!(g.current_player(), Player::O);
    assert_eq!(g.status_message(), "Player O turn");
    assert!(!g.make_move(0, 0));
    assert_eq!(g.current_player(), Player::O);
}

#[test]
fn a_row_wins() {
    let mut g = TicTacToe::new(None);
    for (r, c) in [(0, 0), (1, 0), (0, 1), (1, 1), (0, 2)] {
        assert!(g.make_move(r, c));
    }
    assert_eq!(g.game_state(), GameState::Won(Player::X));
    assert_eq!(g.status_message(), "Player X wins!");
    assert!(g.check_win(Player::X));
    assert!(!g.make_move(2, 2));
}

#[test]
fn a_full_board_without_line_is_a_draw() {
    let mut g = TicTacToe::new(None);
    for (r, c) in [(0, 0), (0, 1), (0, 2), (1, 1), (1, 0), (1, 2), (2, 1), (2, 0), (2, 2)] {
        assert!(g.make_move(r, c));
    }
    assert_eq!(g.game_state(), GameState::Draw);
    assert_eq!(g.status_message(), "It's a draw!");
    assert!(g.is_board_full());
}

#[test]
fn bot_takes_a_win_then_blocks() {
    let mut g = TicTacToe::new(None);
    g.set_game_mode(GameMode::VsBot);
    assert_eq!(g.game_mode(), GameMode::VsBot);
    // X in a corner: the bot answers in the centre
    click_cell(&mut g, 0, 0);
    assert_eq!(g.cell(1, 1), Cell::Occupied(Player::O));
    assert_eq!(g.current_player(), Player::X);
    assert_eq!(g.status_message(), "Your turn");
    // X threatens the top row: the bot blocks it
    click_cell(&mut g, 0, 1);
    assert_eq!(g.cell(0, 2), Cell::Occupied(Player::O));
    assert_eq!(g.find_winning_move(Player::O), Some((2, 0)));
}

#[test]
fn bot_move_wins_when_it_can() {
    let mut g = TicTacToe::new(None);
    for (r, c) in [(0, 0), (1, 0), (0, 1), (1, 1), (2, 2)] {
        assert!(g.make_move(r, c));
    }
    assert_eq!(g.current_player(), Player::O);
    g.make_bot_move();
    assert_eq!(g.cell(1, 2), Cell::Occupied(Player::O));
    assert_eq!(g.game_state(), GameState::Won(Player::O));
}

#[test]
fn buttons_start_new_games() {
    let mut g = TicTacToe::new(None);
    click_cell(&mut g, 2, 2);
    assert_eq!(g.cell(2, 2), Cell::Occupied(Player::X));
    g.handle_mouse_click(150, 60); // vs-bot button
    assert_eq!(g.game_mode(), GameMode::VsBot);
    assert_eq!(g.cell(2, 2), Cell::Empty);
    g.handle_mouse_click(60, 60); // two-player button
    assert_eq!(g.game_mode(), GameMode::TwoPlayer);
    click_cell(&mut g, 1, 1);
    g.handle_mouse_click(90, 360); // new game
    assert_eq!(g.cell(1, 1), Cell::Empty);
    assert!(g.is_button_clicked(90, 360, 80, 350, 100, 30));
    assert!(!g.is_button_clicked(180, 360, 80, 350, 100, 30));
}

#[test]
fn board_helpers() {
    let x = Cell::Occupied(Player::X);
    let o = Cell::Occupied(Player::O);
    let b = [[x, o, x], [o, x, o], [o, x, o]];
    assert!(!check_win_on_board(&b, Player::X));
    assert!(board_full(&b));
    let d = [[x, o, Cell::Empty], [o, x, Cell::Empty], [o, Cell::Empty, x]];
    assert!(check_win_on_board(&d, Player::X));
    assert!(!board_full(&d));
}

fn user_process(sp: u64, ip: u64, frame: u64) -> Process {
    Process {
        pid: 0,
        state: ProcessState::Ready,
        process_type: ProcessType::User,
        page_table_frame: frame,
        stack_pointer: sp,
        instruction_pointer: ip,
        registers: RegisterState::new(),
        has_saved_state: false,
    }
}

#[test]
fn pointer_validation() {
    assert_eq!(ProcessError::validate_stack_pointer(0, ProcessType::User), Err(ProcessError::InvalidStackPointer));
    assert_eq!(ProcessError::validate_stack_pointer(0x7000_0008, ProcessType::User), Err(ProcessError::InvalidStackPointer));
    assert_eq!(ProcessError::validate_stack_pointer(0x7000_0000, ProcessType::User), Ok(()));
    assert_eq!(
        ProcessError::validate_stack_pointer(0xFFFF_8000_0000_0000, ProcessType::User),
        Err(ProcessError::InvalidStackPointer)
    );
    assert_eq!(ProcessError::validate_stack_pointer(0xFFFF_8000_0000_0000, ProcessType::Kernel), Ok(()));
    assert_eq!(ProcessError::validate_instruction_pointer(0x800, ProcessType::Kernel), Err(ProcessError::InvalidInstructionPointer));
    assert_eq!(ProcessError::validate_instruction_pointer(0x40_1234, ProcessType::User), Ok(()));
    assert_eq!(ProcessError::validate_rflags(DEFAULT_RFLAGS), Ok(()));
    assert_eq!(ProcessError::validate_rflags(0x200), Err(ProcessError::InvalidStateTransition));
    assert_eq!(ProcessError::validate_rflags(0x202 | 0x8), Err(ProcessError::InvalidStateTransition));
    assert_eq!(ProcessError::validate_page_table_frame(0x5000), Ok(()));
    assert_eq!(ProcessError::validate_page_table_frame(0x5001), Err(ProcessError::OutOfMemory));
    assert_eq!(ProcessError::validate_page_table_frame(0), Err(ProcessError::OutOfMemory));
}

#[test]
fn registers_start_cleared() {
    let r = RegisterState::new();
    assert_eq!(r.rflags, 0x202);
    assert_eq!((r.rax, r.rip, r.rsp), (0, 0, 0));
}

#[test]
fn process_table() {
    let mut pm = ProcessManager::new(0x12_3456);
    assert!(!pm.has_running_processes());
    assert_eq!(pm.register_process(user_process(0x7000_0000, 0x40_0000, 0x8000)), Ok(1));
    assert_eq!(pm.register_process(user_process(0x7000_0001, 0x40_0000, 0x8000)), Err(ProcessError::InvalidStackPointer));
    assert_eq!(pm.register_process(user_process(0x7000_0000, 0x40_0000, 0x8001)), Err(ProcessError::OutOfMemory));
    assert_eq!(pm.create_kernel_process(0xFFFF_8000_0010_0000, 0xFFFF_8000_0020_0000), Ok(2));
    let kp = pm.get_process(2).unwrap();
    assert_eq!(kp.page_table_frame, 0x12_3000);
    assert_eq!(kp.registers.rip, 0xFFFF_8000_0010_0000);
    assert!(pm.has_running_processes());
    assert_eq!(pm.schedule_next().map(|p| p.pid), Some(1));
    assert_eq!(pm.get_next_ready_process(), Some(1));
    pm.set_current_pid(1);
    assert_eq!(pm.get_current_pid(), 1);
    assert_eq!(pm.get_next_ready_process(), Some(2));
    assert_eq!(pm.get_current_process().map(|p| p.pid), Some(1));
    let removed = pm.remove_current().unwrap();
    assert_eq!(removed.pid, 1);
    assert!(pm.get_process(1).is_none());
    assert_eq!(pm.get_current_pid(), 0);
}

#[test]
fn killing_a_process() {
    let mut p = user_process(0x7000_0000, 0x40_0000, 0x8000);
    p.state = ProcessState::Running;
    kill_process(&mut p).unwrap();
    assert_eq!(p.state, ProcessState::Terminated);
    assert_eq!(p.validate(), Ok(()));
}
