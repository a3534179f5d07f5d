use crust::model::pieces::{KNIGHT, QUEEN};
use crust::model::{Board, Move};
use crust::uci;
use crust::util::{self, ErrorKind};

fn boards_equal(a: &Board, b: &Board) -> bool {
    a.squares == b.squares
        && a.white_is_active == b.white_is_active
        && a.castle_white_king == b.castle_white_king
        && a.castle_white_queen == b.castle_white_queen
        && a.castle_black_king == b.castle_black_king
        && a.castle_black_queen == b.castle_black_queen
        && a.en_passant == b.en_passant
}

#[test]
fn fen_round_trip() {
    let fens = [
        "rnbqkbnr/pppppppp/8/8/8/8/PPPPPPPP/RNBQKBNR w KQkq - 0 1",
        "r3k2r/p1ppqpb1/bn2pnp1/3PN3/1p2P3/2N2Q1p/PPPBBPPP/R3K2R w KQkq - 0 0",
        "8/2p5/3p4/KP5r/1R3p1k/8/4P1P1/8 w - - 0 0",
        "k7/6R1/8/8/8/8/8/6KR w - - 0 1",
        "rnbqkbnr/pppppppp/8/8/4P3/8/PPPP1PPP/RNBQKBNR b KQkq e3 0 1",
    ];
    for fen in fens {
        let board = Board::from_fen(String::from(fen)).unwrap();
        let encoded = board.to_fen();
        let decoded = Board::from_fen(encoded).unwrap();
        assert!(boards_equal(&board, &decoded));
    }
}

#[test]
fn to_fen_start_board() {
    assert_eq!(
        "rnbqkbnr/pppppppp/8/8/8/8/PPPPPPPP/RNBQKBNR w KQkq - 0 0",
        Board::new().to_fen()
    );
}

#[test]
fn to_fen_after_double_push() {
    let board = Board::new();
    let mv = Move::regular(52, 36);
    let next = board.make_move(&mv);
    assert_eq!(
        "rnbqkbnr/pppppppp/8/8/4P3/8/PPPP1PPP/RNBQKBNR b KQkq e3 0 0",
        next.to_fen()
    );
}

#[test]
fn from_fen_rejects_malformed_records() {
    let bad = [
        // unrecognized placement symbol
        "rnbqkbnr/ppXppppp/8/8/8/8/PPPPPPPP/RNBQKBNR w KQkq - 0 1",
        // wrong total square count: a rank of nine
        "rnbqkbnr/pppppppp/9/8/8/8/PPPPPPPP/RNBQKBNR w KQkq - 0 1",
        // placement runs out before 64 squares
        "rnbqkbnr/pppppppp/8/8",
        // missing separator before the active color
        "rnbqkbnr/pppppppp/8/8/8/8/PPPPPPPP/RNBQKBNRw KQkq - 0 1",
        // unrecognized active color
        "rnbqkbnr/pppppppp/8/8/8/8/PPPPPPPP/RNBQKBNR x KQkq - 0 1",
        // unrecognized castling token
        "rnbqkbnr/pppppppp/8/8/8/8/PPPPPPPP/RNBQKBNR w KZkq - 0 1",
        // unrecognized en-passant square
        "rnbqkbnr/pppppppp/8/8/8/8/PPPPPPPP/RNBQKBNR w KQkq z9 0 1",
        // en-passant square cut short
        "rnbqkbnr/pppppppp/8/8/8/8/PPPPPPPP/RNBQKBNR w KQkq e",
    ];
    for fen in bad {
        let result = Board::from_fen(String::from(fen));
        assert!(result.is_err());
        assert_eq!(ErrorKind::InvalidInput, result.err().unwrap().kind);
    }
}

#[test]
fn square_notation_errors() {
    assert!(util::square_notation_to_index("i3").is_err());
    assert!(util::square_notation_to_index("a9").is_err());
    assert!(util::square_notation_to_index("a0").is_err());
    assert!(util::square_notation_to_index("a").is_err());
    assert!(util::square_notation_to_index("").is_err());
    assert_eq!(
        ErrorKind::InvalidInput,
        util::square_notation_to_index("4e").err().unwrap().kind
    );
    assert!(util::index_to_square_notation(64).is_err());
    assert_eq!("a8", util::index_to_square_notation(0).unwrap());
    assert_eq!("h1", util::index_to_square_notation(63).unwrap());
}

#[test]
fn move_notation_round_trip() {
    let mv = uci::Move::from_notation("e2e4").unwrap();
    assert_eq!(52, mv.from);
    assert_eq!(36, mv.to);
    assert_eq!(None, mv.promote_to);

    let promo = uci::Move::from_notation("a7a8q").unwrap();
    assert_eq!(8, promo.from);
    assert_eq!(0, promo.to);
    assert_eq!(Some(QUEEN), promo.promote_to);

    // the engine writes and reads 'k' for a knight promotion
    let knight = uci::Move::from_notation("a7a8k").unwrap();
    assert_eq!(Some(KNIGHT), knight.promote_to);
    let written = Move::promotion(8, 0, KNIGHT).to_notation();
    assert_eq!("a7a8k", written);

    assert!(uci::Move::from_notation("e2").is_err());
    assert!(uci::Move::from_notation("e2e9").is_err());
    assert!(uci::Move::from_notation("e2e4x").is_err());
    // over-long input is a wrong-length error, even with a valid prefix
    assert!(uci::Move::from_notation("e2e4qx").is_err());
    assert!(uci::Move::from_notation("e2e4 ").is_err());
    assert!(uci::Move::from_notation("e2e4q").is_ok());
}

#[test]
fn move_notation_output() {
    assert_eq!("e2e4", Move::regular(52, 36).to_notation());
    assert_eq!("e1g1", Move::castle(60, 62).to_notation());
    assert_eq!("a2a1r", Move::promotion(48, 56, crust::model::pieces::ROOK).to_notation());
    assert!(Move::regular(0, 0).is_null());
    assert!(!Move::regular(0, 1).is_null());
}

#[test]
fn error_constructors() {
    let error = util::invalid_input(String::from("bad input"));
    assert_eq!(ErrorKind::InvalidInput, error.kind);
    assert_eq!("bad input", error.message());
    let other = util::new(ErrorKind::InvalidInput, String::from("again"));
    assert_eq!("again", other.message());
}
