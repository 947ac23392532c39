use chess_engine::bitboard::BitBoard;
use chess_engine::board::from_fen::parse_fen;
use chess_engine::board::Board;
use chess_engine::computer::evaluator::Evaluator;
use chess_engine::computer::negamax::{past_limit, Search};
use chess_engine::history::{HistoryManager, Undo};
use chess_engine::computer::tt::{Bound, TTEntry, TranspositionTable};
use chess_engine::dto::{CommandError, GameState, Legality, MoveInfo, MoveType, PieceKindDto, PromotionPiece};
use chess_engine::game::Game;
use chess_engine::movegen::{Move, MoveFlag};
use chess_engine::types::{Color, PieceKind};

const KIWIPETE: &str = "r3k2r/p1ppqpb1/bn2pnp1/3PN3/1p2P3/2N2Q1p/PPPBBPPP/R3K2R w KQkq - 0 1";

fn setup_board(fen: &str) -> Board {
    let mut board = Board::new();
    board.from_fen(fen);
    board.move_gen.generate_moves();
    board.init();
    board
}

fn request(from: &str, to: &str, promotion: Option<PromotionPiece>) -> MoveInfo {
    MoveInfo { from: from.to_string(), to: to.to_string(), promotion }
}

#[test]
fn fen_fields_of_the_starting_position() {
    let f = parse_fen("rnbqkbnr/pppppppp/8/8/8/8/PPPPPPPP/RNBQKBNR w KQkq - 0 1").unwrap();
    assert_eq!(f.player_turn, 0);
    assert_eq!(f.castling_rights, 0x0F);
    assert_eq!(f.en_passant_square, 64);
    assert_eq!(f.halfmove_clock, 0);
    assert_eq!(f.fullmove_clock, 1);
    assert_eq!(f.pieces[0][0].0, 0x0000_0000_0000_FF00);
    assert_eq!(f.pieces[1][5].0, 1u64 << 60);
}

#[test]
fn fen_fields_of_kiwipete_and_en_passant() {
    let f = parse_fen(KIWIPETE).unwrap();
    assert_eq!(f.castling_rights, 0x0F);
    let f = parse_fen("rnbqkbnr/ppp1p1pp/8/3pPp2/8/8/PPPP1PPP/RNBQKBNR w Kq f6 4 3").unwrap();
    assert_eq!(f.en_passant_square, 45);
    assert_eq!(f.castling_rights, 0x08 | 0x01);
    assert_eq!(f.halfmove_clock, 4);
    assert_eq!(f.fullmove_clock, 3);
}

#[test]
fn fen_rejects_malformed_text() {
    assert!(parse_fen("").is_none());
    assert!(parse_fen("8/8/8 w - - 0 1").is_none());
    assert!(parse_fen("9/8/8/8/8/8/8/8 w - - 0 1").is_none());
    assert!(parse_fen("8/8/8/8/8/8/8/8 x - - 0 1").is_none());
    assert!(parse_fen("8/8/8/8/8/8/8/7X w - - 0 1").is_none());
    assert!(parse_fen("8/8/8/8/8/8/8/8 w - e 0 1").is_none());
    assert!(parse_fen("8/8/8/8/8/8/8/8 w - - 256 1").is_none());
    assert!(parse_fen("8/8/8/8/8/8/8/8 w KX - 0 1").is_none());
}

#[test]
fn make_then_undo_restores_every_position() {
    let mut board = setup_board(KIWIPETE);
    let before = (board.pieces, board.castling_rights, board.en_passant_square, board.halfmove_clock,
        board.zobrist_hash, board.player_turn);
    for mv in board.generate_legal_moves() {
        board.make_move(mv);
        assert_ne!(board.player_turn, before.5);
        board.undo_move();
        let after = (board.pieces, board.castling_rights, board.en_passant_square, board.halfmove_clock,
            board.zobrist_hash, board.player_turn);
        assert_eq!(before, after);
    }
}

#[test]
fn every_generated_move_leaves_the_king_safe() {
    let mut board = setup_board(KIWIPETE);
    let mover = board.player_turn;
    for mv in board.generate_legal_moves() {
        board.make_move(mv);
        board.player_turn = mover;
        assert!(!board.check_for_check().is_check);
        board.player_turn = 1 - mover;
        board.undo_move();
    }
}

#[test]
fn null_move_round_trip() {
    let mut board = setup_board("rnbqkbnr/ppp1p1pp/8/3pPp2/8/8/PPPP1PPP/RNBQKBNR w KQkq f6 0 3");
    let hash = board.zobrist_hash;
    let ep = board.make_null_move();
    assert_eq!(ep, 45);
    assert_eq!(board.player_turn, 1);
    assert_eq!(board.en_passant_square, 64);
    assert_ne!(board.zobrist_hash, hash);
    board.undo_null_move(ep);
    assert_eq!(board.player_turn, 0);
    assert_eq!(board.en_passant_square, 45);
    assert_eq!(board.zobrist_hash, hash);
}

#[test]
fn table_gives_back_what_was_stored() {
    let mut tt = TranspositionTable::new(1);
    let mv = Move::new(12 | (28 << 6) | MoveFlag::DoublePush.bits(), 0xF0);
    let entry = TTEntry { key: 0xDEAD_BEEF, depth: 4, score: 37, bound: Bound::Exact, best_move: Some(mv) };
    assert!(tt.probe(0xDEAD_BEEF).is_none());
    tt.store(entry);
    let got = tt.probe(0xDEAD_BEEF).unwrap();
    assert_eq!(got.key, 0xDEAD_BEEF);
    assert_eq!(got.score, 37);
    assert_eq!(got.depth, 4);
    assert_eq!(got.bound, Bound::Exact);
    assert_eq!(got.best_move, Some(mv));
    assert!(tt.probe(0xDEAD_BEEE).is_none());
    // A shallower search does not replace a deeper one.
    tt.store(TTEntry { key: 0xDEAD_BEEF, depth: 2, score: -5, bound: Bound::Upper, best_move: None });
    assert_eq!(tt.probe(0xDEAD_BEEF).unwrap().score, 37);
    tt.store(TTEntry { key: 0xDEAD_BEEF, depth: 6, score: -5, bound: Bound::Lower, best_move: None });
    assert_eq!(tt.probe(0xDEAD_BEEF).unwrap().score, -5);
}

#[test]
fn lmr_reduction_matches_the_logarithm_formula() {
    let mut board = setup_board(KIWIPETE);
    let search = Search::new(&mut board);
    for d in 0..256i32 {
        for m in 0..256i32 {
            let expected = if d < 3 || m < 3 {
                0
            } else {
                ((d as f64).ln() * (m as f64).ln() / 1.75) as i32
            };
            assert_eq!(search.get_lmr_reduction(d, m), expected, "depth {} move {}", d, m);
        }
    }
    assert_eq!(search.get_lmr_reduction(-4, 10), 0);
    assert_eq!(search.get_lmr_reduction(1000, 1000), search.get_lmr_reduction(255, 255));
    assert_eq!(search.get_lmr_reduction(10, 10), 3);
}

#[test]
fn square_names() {
    let board = Board::new();
    assert_eq!(board.index_to_notation(0), "a1");
    assert_eq!(board.index_to_notation(28), "e4");
    assert_eq!(board.index_to_notation(63), "h8");
    assert_eq!(board.index_to_notation(64), "");
    assert_eq!(board.notation_to_index("e4"), 28);
    assert_eq!(board.notation_to_index("h8"), 63);
    assert_eq!(board.notation_to_index("i1"), 64);
    assert_eq!(board.notation_to_index("a9"), 64);
}

#[test]
fn bit_counts() {
    assert_eq!(BitBoard(0).count(), 0);
    assert_eq!(BitBoard(0xFF).count(), 8);
    assert_eq!(BitBoard(u64::MAX).count(), 64);
    assert_eq!(BitBoard(0x8000_0000_0000_0001).count(), 2);
}

#[test]
fn game_states() {
    let board = setup_board("7k/5Q2/6K1/8/8/8/8/8 b - - 0 1");
    assert_eq!(board.get_game_state(), GameState::Stalemate);
    assert!(!board.any_legal_move_exists());
    let board = setup_board("R6k/6pp/8/8/8/8/8/4K3 b - - 0 1");
    assert_eq!(board.get_game_state(), GameState::Checkmate);
    let board = setup_board(KIWIPETE);
    assert_eq!(board.get_game_state(), GameState::InProgress);
    assert!(board.any_legal_move_exists());
}

#[test]
fn interface_move_is_played_and_reported() {
    let mut game = Game::new();
    game.init();
    let r = game.board.parse_react_move(request("e2", "e4", None)).unwrap();
    match r {
        Legality::Legal(resp) => {
            assert_eq!(resp.move_type, MoveType::Normal);
            assert_eq!(resp.condition, GameState::InProgress);
            assert!(resp.winner.is_none());
            assert_eq!(resp.changes.len(), 2);
            assert_eq!(resp.changes[0].square, "e2");
            assert!(resp.changes[0].piece.is_none());
            assert_eq!(resp.changes[1].square, "e4");
            let p = resp.changes[1].piece.unwrap();
            assert_eq!(p.kind, PieceKindDto::Pawn);
            assert_eq!(p.color, Color::White);
        }
        Legality::Illegal => panic!("e2e4 is legal"),
    }
    assert_eq!(game.board.player_turn, 1);
    assert_eq!(game.board.en_passant_square, 20);
}

#[test]
fn interface_move_errors() {
    let mut game = Game::new();
    game.init();
    assert_eq!(
        game.board.parse_react_move(request("e5", "e6", None)).unwrap_err(),
        CommandError::EmptySquare { square: 36 }
    );
    assert_eq!(
        game.board.parse_react_move(request("z2", "e4", None)).unwrap_err(),
        CommandError::InvalidSquareIndex { square: 64 }
    );
    assert_eq!(
        game.board.parse_react_move(request("e2", "e9", None)).unwrap_err(),
        CommandError::InvalidSquareIndex { square: 64 }
    );
    assert!(matches!(game.board.parse_react_move(request("e2", "e5", None)), Ok(Legality::Illegal)));
    assert_eq!(game.board.player_turn, 0);

    let mut board = setup_board("R6k/6pp/8/8/8/8/8/4K3 b - - 0 1");
    assert_eq!(
        board.parse_react_move(request("h8", "g8", None)).unwrap_err(),
        CommandError::GameAlreadyOver
    );
}

#[test]
fn interface_castling_and_promotion() {
    let mut board = setup_board("r3k2r/8/8/8/8/8/8/R3K2R w KQkq - 0 1");
    match board.parse_react_move(request("e1", "g1", None)).unwrap() {
        Legality::Legal(resp) => {
            assert_eq!(resp.move_type, MoveType::Castling);
            let squares: Vec<&str> = resp.changes.iter().map(|c| c.square.as_str()).collect();
            assert_eq!(squares, vec!["f1", "h1", "e1", "g1"]);
        }
        Legality::Illegal => panic!("castling is legal here"),
    }

    let mut board = setup_board("8/P7/8/8/8/8/8/4K2k w - - 0 1");
    match board.parse_react_move(request("a7", "a8", Some(PromotionPiece::Knight))).unwrap() {
        Legality::Legal(resp) => {
            // Promotions are reported as ordinary moves.
            assert_eq!(resp.move_type, MoveType::Normal);
            assert_eq!(resp.changes[1].square, "a8");
            assert_eq!(resp.changes[1].piece.unwrap().kind, PieceKindDto::Knight);
        }
        Legality::Illegal => panic!("promotion is legal here"),
    }
    assert_ne!(board.pieces[0][1].0 & (1u64 << 56), 0);
    assert_eq!(board.pieces[0][0].0 & (1u64 << 56), 0);
}

#[test]
fn restart_goes_back_to_the_start() {
    let mut game = Game::new();
    game.init();
    let _ = game.board.parse_react_move(request("e2", "e4", None));
    game.restart();
    game.board.init();
    let total: u32 = game.board.get_all_legal_moves(0, false).iter().map(|bb| bb.count()).sum();
    assert_eq!(total, 20);
    assert_eq!(game.board.player_turn, 0);
}

#[test]
fn handing_over_the_move_negates_the_evaluation() {
    for placement in [
        "r3k2r/p1ppqpb1/bn2pnp1/3PN3/1p2P3/2N2Q1p/PPPBBPPP/R3K2R",
        "8/2p5/3p4/KP5r/1R3p1k/8/4P1P1/8",
        "3k4/8/8/2P5/8/8/8/3K4",
    ] {
        let white = setup_board(&format!("{} w - - 0 1", placement));
        let black = setup_board(&format!("{} b - - 0 1", placement));
        let w = Evaluator::new(&white).static_eval();
        let b = Evaluator::new(&black).static_eval();
        assert_eq!(w, -b, "{}", placement);
    }
}

#[test]
fn undo_history_is_a_stack() {
    let mut h = HistoryManager::new();
    assert!(h.pop().is_none());
    let a = Undo::new(Move::new(12 | (28 << 6), 0xF0), 0x0F, 64, 0, 1);
    let b = Undo::new(Move::new(52 | (36 << 6), 0xF0), 0x0F, 20, 0, 2);
    assert!(h.last().is_none());
    h.push(a);
    h.push(b);
    assert_eq!(h.len(), 2);
    assert_eq!(h.last(), Some(b));
    assert_eq!(h.pop(), Some(b));
    assert_eq!(h.pop(), Some(a));
    assert!(h.pop().is_none());
}

#[test]
fn a_move_can_be_taken_back_once() {
    let mut board = setup_board(KIWIPETE);
    assert!(!board.can_undo());
    let mv = board.generate_legal_moves()[0];
    board.make_move(mv);
    assert!(board.can_undo());
    board.undo_move();
    assert!(!board.can_undo());
}

#[test]
fn answering_a_check() {
    let board = setup_board("4k3/8/8/8/8/1R6/8/r3K3 w - - 0 1");
    let info = board.check_for_check();
    assert!(board.validate_move_with_check(1, &info, PieceKind::Rook)); // block on b1
    assert!(board.validate_move_with_check(0, &info, PieceKind::Rook)); // take on a1
    assert!(!board.validate_move_with_check(10, &info, PieceKind::Rook)); // c2 does not block

    let board = setup_board("4k3/8/8/8/8/5n2/8/4K3 w - - 0 1");
    let info = board.check_for_check();
    assert_eq!(info.count, 1);
    assert!(!board.validate_move_with_check(13, &info, PieceKind::Queen));
    assert!(board.validate_move_with_check(21, &info, PieceKind::Queen)); // take the knight
    assert!(board.validate_move_with_check(3, &info, PieceKind::King));

    let board = setup_board("8/8/8/8/8/6n1/8/r6K w - - 0 1");
    let info = board.check_for_check();
    assert!(!board.validate_move_with_check(0, &info, PieceKind::Rook));
}

#[test]
fn words_and_bitboards_convert() {
    assert_eq!(BitBoard::from(0x8100u64), BitBoard(0x8100));
    assert_eq!(u64::from(BitBoard(42)), 42);
    let game = Game::default();
    assert_eq!(game.board.player_turn, 0);
    assert_eq!(game.board.castling_rights, 0x0F);
}

#[test]
fn timed_search_gives_a_legal_move() {
    let mut board = setup_board(KIWIPETE);
    let legal = board.generate_legal_moves();
    let mut search = Search::new(&mut board);
    let (mv, _) = search.find_best_move_timed(200);
    assert!(legal.contains(&mv));
    assert!(search.depth >= 1);
    let (mv, _) = search.find_best_move_timed(0);
    assert!(legal.contains(&mv));
}

#[test]
fn depth_search_records_its_depth() {
    let mut board = setup_board("7k/5ppp/8/8/8/8/8/R3K3 w - - 0 1");
    let mut search = Search::new(&mut board);
    let (mv, _) = search.find_best_move(2);
    assert_eq!(search.depth, 3);
    assert_eq!((mv.from(), mv.to()), (0, 56));
}

#[test]
fn no_check_reports_the_sentinels() {
    let board = setup_board(KIWIPETE);
    let info = board.check_for_check();
    assert!(!info.is_check);
    assert_eq!(info.count, 0);
    assert_eq!(info.check_square, [64, 64]);
    assert_eq!(info.piece_idx, [6, 6]);
}

#[test]
fn generated_moves_are_distinct() {
    for fen in [
        KIWIPETE,
        "r3k2r/Pppp1ppp/1b3nbN/nP6/BBP1P3/q4N2/Pp1P2PP/R2Q1RK1 w kq - 0 1",
        "8/2p5/3p4/KP5r/1R3p1k/8/4P1P1/8 w - - 0 1",
    ] {
        let board = setup_board(fen);
        let moves = board.generate_legal_moves();
        for i in 0..moves.len() {
            for j in (i + 1)..moves.len() {
                assert_ne!(moves[i], moves[j]);
            }
        }
    }
}

#[test]
fn every_pinned_piece_is_recorded() {
    // The white knight on e2 is pinned by the rook on e8; the bishop on c3 by the bishop on a5.
    let board = setup_board("4r2k/8/8/b7/8/2B5/4N3/4K3 w - - 0 1");
    let pins = board.compute_pinned_pieces(0);
    assert!(pins[12].is_some());
    assert!(pins[18].is_some());
    assert_eq!(pins.iter().filter(|p| p.is_some()).count(), 2);
}

#[test]
fn computer_moves_report_their_kind() {
    let mut board = setup_board("r3k2r/8/8/8/8/8/8/R3K2R w KQkq - 0 1");
    let mv = Move::new(4 | (6 << 6) | MoveFlag::KingCastle.bits(), 0xF5);
    board.make_move(mv);
    let resp = chess_engine::dto::build_response(mv, &mut board);
    assert_eq!(resp.move_type, MoveType::Castling);
}

#[test]
fn legal_moves_keep_one_piece_per_square() {
    let mut board = setup_board(KIWIPETE);
    for mv in board.generate_legal_moves() {
        board.make_move(mv);
        for sq in 0..64u32 {
            let mut n = 0;
            for c in 0..2 {
                for k in 0..6 {
                    if board.pieces[c][k].0 & (1u64 << sq) != 0 {
                        n += 1;
                    }
                }
            }
            assert!(n <= 1);
        }
        assert_eq!(board.pieces[0][5].count(), 1);
        assert_eq!(board.pieces[1][5].count(), 1);
        board.undo_move();
    }
}

#[test]
fn deeper_round_keeps_the_best_scored_move() {
    let mut board = setup_board("4k3/8/8/3q4/8/8/3R4/4K3 w - - 0 1");
    let mut search = Search::new(&mut board);
    let (best_move, score) = search.find_best_move(2);
    assert_eq!(best_move.from(), 11);
    assert_eq!(best_move.to(), 35);
    assert!(score > 300);
    assert_eq!(search.depth, 3);
}

#[test]
fn square_names_below_the_board_give_64() {
    let board = Board::new();
    assert_eq!(board.notation_to_index("A1"), 64);
    assert_eq!(board.notation_to_index("a0"), 64);
    assert_eq!(board.notation_to_index("a1"), 0);
    let mut game = Game::new();
    game.init();
    assert_eq!(
        game.board.parse_react_move(request("A1", "e4", None)).unwrap_err(),
        CommandError::InvalidSquareIndex { square: 64 }
    );
    assert_eq!(
        game.board.parse_react_move(request("e2", "e0", None)).unwrap_err(),
        CommandError::InvalidSquareIndex { square: 64 }
    );
}

#[test]
fn time_limit_is_reached_at_the_limit() {
    assert!(past_limit(5, 5));
    assert!(past_limit(6, 5));
    assert!(!past_limit(4, 5));
    assert!(past_limit(0, 0));
}

#[test]
fn no_time_gives_no_round() {
    let mut board = setup_board("7k/5ppp/8/8/8/8/8/R3K3 w - - 0 1");
    let mut search = Search::new(&mut board);
    let (best_move, score) = search.find_best_move_timed(0);
    assert_eq!(search.depth, 1);
    assert_eq!(score, 0);
    assert!(best_move.from() < 64);
}

#[test]
fn black_to_move_sees_its_missing_knight() {
    let black = setup_board("rnbqkb1r/pppppppp/8/8/8/8/PPPPPPPP/RNBQKBNR b KQkq - 0 1");
    let white = setup_board("rnbqkb1r/pppppppp/8/8/8/8/PPPPPPPP/RNBQKBNR w KQkq - 0 1");
    let black_score = Evaluator::new(&black).static_eval();
    let white_score = Evaluator::new(&white).static_eval();
    assert!(black_score < 0);
    assert!(white_score > 0);
    assert_eq!(black_score, -white_score);
}

#[test]
fn hash_after_moves_matches_a_fresh_board() {
    let mut board = setup_board("rnbqkbnr/pppppppp/8/8/8/8/PPPPPPPP/RNBQKBNR w KQkq - 0 1");
    let e2e4 = board.generate_legal_moves().into_iter().find(|m| m.from() == 12 && m.to() == 28).unwrap();
    board.make_move(e2e4);
    let fresh = setup_board("rnbqkbnr/pppppppp/8/8/4P3/8/PPPP1PPP/RNBQKBNR b KQkq e3 0 1");
    assert_eq!(board.zobrist_hash, fresh.zobrist_hash);
    let g8f6 = board.generate_legal_moves().into_iter().find(|m| m.from() == 62 && m.to() == 45).unwrap();
    board.make_move(g8f6);
    let fresh = setup_board("rnbqkb1r/pppppppp/5n2/8/4P3/8/PPPP1PPP/RNBQKBNR w KQkq - 1 2");
    assert_eq!(board.zobrist_hash, fresh.zobrist_hash);
    board.make_null_move();
    let fresh = setup_board("rnbqkb1r/pppppppp/5n2/8/4P3/8/PPPP1PPP/RNBQKBNR b KQkq - 1 2");
    assert_eq!(board.zobrist_hash, fresh.zobrist_hash);
}

#[test]
fn searching_counts_nodes() {
    let mut board = setup_board("7k/5ppp/8/8/8/8/8/R3K3 w - - 0 1");
    let mut search = Search::new(&mut board);
    assert_eq!(search.nodes_visited, 0);
    search.negamax(2, 0, i32::MIN + 1, i32::MAX);
    assert!(search.nodes_visited > 1);
}
