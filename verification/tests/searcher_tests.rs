use crust::engine::searcher::SearchState;
use crust::engine::Engine;
use crust::model::Board;
use std::time::{Duration, SystemTime};

#[test]
fn searcher_test_mate_in_1_1() {
    let mut engine = Engine::new();
    engine.board = Board::from_fen(String::from("k7/6R1/8/8/8/8/8/6KR w - - 0 1")).unwrap();

    let search = engine.search();
    assert_eq!("h1h8", search.to_notation())
}

#[test]
fn tests_perf_test_1() {
    let mut engine = Engine::new();
    engine.board = Board::from_fen(String::from(
        "r1bqkbnr/pppppppp/8/2P1P3/Pn1P4/3BBNN1/5PPP/RQ2R1K1 w k - 0 18",
    ))
    .unwrap();

    let start = SystemTime::now();
    let _ = engine.search();
    assert!(start.elapsed().unwrap() < Duration::from_secs(10))
}

/// A full-width negamax sharing the engine's quiescence leaf semantics,
/// with no pruning window at all.
fn minimax_quiesce(engine: &Engine, board: &Board, ply: u32) -> i32 {
    let mut best = board.evaluate(ply);
    for mv in board.gen_moves(true) {
        let child = board.make_move(&mv);
        let score = -minimax_quiesce(engine, &child, ply + 1);
        if score > best {
            best = score;
        }
    }
    best
}

fn minimax(engine: &Engine, board: &Board, depth: u32, ply: u32) -> i32 {
    let moves = board.gen_moves(false);
    if depth == 0 || moves.is_empty() {
        return minimax_quiesce(engine, board, ply);
    }
    let mut best = i32::MIN + 1;
    for mv in moves {
        let child = board.make_move(&mv);
        let score = -minimax(engine, &child, depth - 1, ply + 1);
        if score > best {
            best = score;
        }
    }
    best
}

#[test]
fn alpha_beta_matches_minimax() {
    let fens = [
        "k7/6R1/8/8/8/8/8/6KR w - - 0 1",
        "8/2p5/3p4/KP5r/1R3p1k/8/4P1P1/8 w - - 0 0",
        "rnbqkbnr/pppppppp/8/8/8/8/PPPPPPPP/RNBQKBNR w KQkq - 0 0",
    ];
    for fen in fens {
        let mut engine = Engine::new();
        engine.board = Board::from_fen(String::from(fen)).unwrap();
        for depth in 1..3u8 {
            let state = SearchState::initial(engine.board, depth);
            let pruned = engine.search_req(state).score;
            let full = minimax(&engine, &engine.board, depth as u32, 0);
            assert_eq!(pruned, full);
        }
    }
}

#[test]
fn search_result_shape() {
    let mut engine = Engine::new();
    engine.board = Board::from_fen(String::from("k7/6R1/8/8/8/8/8/6KR w - - 0 1")).unwrap();
    let state = SearchState::initial(engine.board, 1);
    let result = engine.search_req(state);
    // a mate in one found at depth 1 scores as the negated mate sentinel
    assert_eq!(-(i32::MIN + 10 + 1), result.score);
    assert_eq!("h1h8", result.moves[0].to_notation());
    assert!(result.evaluations >= 1);
    let flipped = result.flip();
    assert_eq!(i32::MIN + 10 + 1, flipped.score);
    assert_eq!(1, flipped.moves.len());
    let recounted = flipped.with_evaluation_count(7);
    assert_eq!(7, recounted.evaluations);
    assert_eq!(i32::MIN + 10 + 1, recounted.score);
}

#[test]
fn quiescence_capture_moves_only() {
    let mut board = Board::new();
    for notation in ["e2e4", "d7d5"] {
        let wire_move = crust::uci::Move::from_notation(notation).unwrap();
        let engine = Engine { board };
        let inner = engine.uci_move_to_inner_model(&wire_move);
        board = board.make_move(&inner);
    }
    // white to move: the only capture is the pawn taking on d5
    let captures = board.gen_moves(true);
    assert_eq!(1, captures.len());
    assert_eq!("e4d5", captures[0].to_notation());
    assert!(captures[0].is_capture(&board));
}

#[test]
fn evaluate_material_and_mate() {
    // the start position is materially balanced
    assert_eq!(0, Board::new().evaluate(0));
    // a lone extra queen scores nine hundred for whoever moves next
    let white_up = Board::from_fen(String::from("k7/8/8/8/8/8/8/KQ6 w - - 0 1")).unwrap();
    assert_eq!(900, white_up.evaluate(0));
    let black_down = Board::from_fen(String::from("k7/8/8/8/8/8/8/KQ6 b - - 0 1")).unwrap();
    assert_eq!(-900, black_down.evaluate(0));
    // a side with no legal moves scores the mate sentinel plus the depth
    let mated = Board::from_fen(String::from("k6R/6R1/8/8/8/8/8/6K1 b - - 0 1")).unwrap();
    assert!(mated.gen_moves(false).is_empty());
    assert_eq!(i32::MIN + 10, mated.evaluate(0));
    assert_eq!(i32::MIN + 13, mated.evaluate(3));
}

#[test]
fn order_puts_captures_first() {
    let mut board = Board::new();
    for notation in ["e2e4", "d7d5"] {
        let wire_move = crust::uci::Move::from_notation(notation).unwrap();
        let engine = Engine { board };
        let inner = engine.uci_move_to_inner_model(&wire_move);
        board = board.make_move(&inner);
    }
    let moves = board.gen_moves(false);
    let ordered = board.order(&moves);
    assert_eq!(moves.len(), ordered.len());
    // exactly one capture exists and it comes first
    assert!(ordered[0].is_capture(&board));
    assert_eq!("e4d5", ordered[0].to_notation());
    for mv in ordered.iter().skip(1) {
        assert!(!mv.is_capture(&board));
    }
    // the contents are unchanged: every ordered move is one of the inputs
    for mv in &ordered {
        assert!(moves.iter().any(|m| m == mv));
    }
}
