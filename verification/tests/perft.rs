use chess_engine::board::Board;

/// Counts leaf nodes at `depth` by making and unmaking every legal move.
fn perft(board: &mut Board, depth: u32) -> u64 {
    if depth == 0 {
        return 1;
    }

    let moves = board.generate_legal_moves();
    let mut nodes = 0;

    for mv in moves {
        board.make_move(mv);
        nodes += perft(board, depth - 1);
        board.undo_move();
    }

    nodes
}

fn setup_board(fen: &str) -> Board {
    let mut board = Board::new();
    board.move_gen.generate_moves();
    board.from_fen(fen);
    board.init();
    board
}

#[test]
fn perft_starting_position() {
    let mut board = setup_board("rnbqkbnr/pppppppp/8/8/8/8/PPPPPPPP/RNBQKBNR w KQkq - 0 1");

    assert_eq!(perft(&mut board, 1), 20);
    assert_eq!(perft(&mut board, 2), 400);
    assert_eq!(perft(&mut board, 3), 8_902);
    assert_eq!(perft(&mut board, 4), 197_281);
}

#[test]
fn perft_kiwipete() {
    let mut board =
        setup_board("r3k2r/p1ppqpb1/bn2pnp1/3PN3/1p2P3/2N2Q1p/PPPBBPPP/R3K2R w KQkq - 0 1");

    assert_eq!(perft(&mut board, 1), 48);
    assert_eq!(perft(&mut board, 2), 2_039);
    assert_eq!(perft(&mut board, 3), 97_862);
}

#[test]
fn perft_position_3() {
    let mut board = setup_board("8/2p5/3p4/KP5r/1R3p1k/8/4P1P1/8 w - - 0 1");

    assert_eq!(perft(&mut board, 1), 14);
    assert_eq!(perft(&mut board, 2), 191);
    assert_eq!(perft(&mut board, 3), 2_812);
    assert_eq!(perft(&mut board, 4), 43_238);
}

#[test]
fn perft_position_4() {
    let mut board = setup_board("r3k2r/Pppp1ppp/1b3nbN/nP6/BBP1P3/q4N2/Pp1P2PP/R2Q1RK1 w kq - 0 1");

    assert_eq!(perft(&mut board, 1), 6);
    assert_eq!(perft(&mut board, 2), 264);
    assert_eq!(perft(&mut board, 3), 9_467);
}
