//! The position record codec: decoding a textual record (piece placement
//! by rank with digit run-lengths, active color, castling rights,
//! en-passant target) into a board, and encoding a board back into text.
//!
//! Encoding always produces a record that decodes to the same position;
//! that round trip is proved in `lemma_fen_round_trip`.

use vstd::prelude::*;
use crate::model::pieces::{
    self, Piece, spec_piece_notation, NONE, KING, PAWN, KNIGHT, BISHOP, ROOK, QUEEN, WHITE, BLACK,
};
use crate::model::{Board, BoardModel};
use crate::util::{
    Error, ErrorKind, invalid_input, valid_square_notation, square_of_notation, notation_of_square,
};

verus! {

broadcast use vstd::array::group_array_axioms, vstd::string::group_string_axioms;

/// The piece byte a placement character denotes, if any.
pub open spec fn piece_of_char(c: char) -> Option<u8> {
    if c == 'r' {
        Some(ROOK | BLACK)
    } else if c == 'n' {
        Some(KNIGHT | BLACK)
    } else if c == 'b' {
        Some(BISHOP | BLACK)
    } else if c == 'q' {
        Some(QUEEN | BLACK)
    } else if c == 'k' {
        Some(KING | BLACK)
    } else if c == 'p' {
        Some(PAWN | BLACK)
    } else if c == 'R' {
        Some(ROOK | WHITE)
    } else if c == 'N' {
        Some(KNIGHT | WHITE)
    } else if c == 'B' {
        Some(BISHOP | WHITE)
    } else if c == 'Q' {
        Some(QUEEN | WHITE)
    } else if c == 'K' {
        Some(KING | WHITE)
    } else if c == 'P' {
        Some(PAWN | WHITE)
    } else {
        None
    }
}

pub open spec fn is_digit_char(c: char) -> bool {
    '0' <= c <= '9'
}

pub open spec fn digit_val(c: char) -> int {
    c as int - '0' as int
}

/// Consumes the piece-placement field: placement characters fill squares
/// in row-major order, a digit skips that many squares, `/` separates
/// ranks, and the field ends once 64 squares are accounted for. Returns
/// the remaining text, the total square count, and the filled squares;
/// an unrecognized symbol, or text ending early, fails.
pub open spec fn parse_pieces(s: Seq<char>, cur: int, sq: Seq<u8>) -> Option<
    (Seq<char>, int, Seq<u8>),
>
    decreases s.len(),
{
    if s.len() == 0 {
        None
    } else {
        let c = s[0];
        let step: Option<(int, Seq<u8>)> = if piece_of_char(c) is Some {
            Some((cur + 1, sq.update(cur, piece_of_char(c)->0)))
        } else if is_digit_char(c) {
            Some((cur + digit_val(c), sq))
        } else if c == '/' {
            Some((cur, sq))
        } else {
            None
        };
        match step {
            None => None,
            Some((cur2, sq2)) => if cur2 >= 64 {
                Some((s.skip(1), cur2, sq2))
            } else {
                parse_pieces(s.skip(1), cur2, sq2)
            },
        }
    }
}

/// Consumes the active-color field: a space, `w` or `b`, and a space.
pub open spec fn parse_active(s: Seq<char>) -> Option<(Seq<char>, bool)> {
    if s.len() < 1 || s[0] != ' ' {
        None
    } else if s.len() < 2 || (s[1] != 'w' && s[1] != 'b') {
        None
    } else if s.len() < 3 || s[2] != ' ' {
        None
    } else {
        Some((s.skip(3), s[1] == 'w'))
    }
}

/// Consumes the castling-rights field up to the following space: each of
/// `KQkq` sets its flag, `-` sets nothing.
pub open spec fn parse_castling(s: Seq<char>, wk: bool, wq: bool, bk: bool, bq: bool) -> Option<
    (Seq<char>, bool, bool, bool, bool),
>
    decreases s.len(),
{
    if s.len() == 0 {
        None
    } else if s[0] == ' ' {
        Some((s.skip(1), wk, wq, bk, bq))
    } else if s[0] == 'K' {
        parse_castling(s.skip(1), true, wq, bk, bq)
    } else if s[0] == 'Q' {
        parse_castling(s.skip(1), wk, true, bk, bq)
    } else if s[0] == 'k' {
        parse_castling(s.skip(1), wk, wq, true, bq)
    } else if s[0] == 'q' {
        parse_castling(s.skip(1), wk, wq, bk, true)
    } else if s[0] == '-' {
        parse_castling(s.skip(1), wk, wq, bk, bq)
    } else {
        None
    }
}

/// Reads the en-passant field: `-` for none, else a square notation.
/// Anything after it is ignored.
pub open spec fn parse_en_passant(s: Seq<char>) -> Option<Option<usize>> {
    if s.len() == 0 {
        None
    } else if s[0] == '-' {
        Some(None)
    } else if s.len() < 2 || !valid_square_notation(s) {
        None
    } else {
        Some(Some(square_of_notation(s) as usize))
    }
}

/// The all-empty square array parsing starts from.
pub open spec fn empty_squares() -> Seq<u8> {
    Seq::new(64, |j: int| NONE)
}

/// The position a record denotes: the four fields in order, with exactly
/// 64 squares accounted for by the placement field.
pub open spec fn spec_parse_fen(s: Seq<char>) -> Option<BoardModel> {
    match parse_pieces(s, 0, empty_squares()) {
        None => None,
        Some((s1, cur, sq)) => if cur != 64 {
            None
        } else {
            match parse_active(s1) {
                None => None,
                Some((s2, white_is_active)) => match parse_castling(
                    s2,
                    false,
                    false,
                    false,
                    false,
                ) {
                    None => None,
                    Some((s3, wk, wq, bk, bq)) => match parse_en_passant(s3) {
                        None => None,
                        Some(en_passant) => Some(
                            BoardModel {
                                squares: sq,
                                white_is_active,
                                castle_white_king: wk,
                                castle_white_queen: wq,
                                castle_black_king: bk,
                                castle_black_queen: bq,
                                en_passant,
                            },
                        ),
                    },
                },
            }
        },
    }
}

/// The digit character of a run length in [1,8].
pub open spec fn digit_char(k: int) -> char {
    ((48 + k) as u8) as char
}

/// The encoding of one rank from `file` on, with `run` empty squares
/// pending: a pending run flushes as its digit before each piece and at
/// the rank's end.
pub open spec fn rank_chars(sq: Seq<u8>, rank: int, file: int, run: int) -> Seq<char>
    decreases 8 - file,
{
    if file < 0 || file >= 8 {
        if run > 0 {
            seq![digit_char(run)]
        } else {
            Seq::empty()
        }
    } else {
        let p = sq[rank * 8 + file];
        if p == NONE {
            rank_chars(sq, rank, file + 1, run + 1)
        } else {
            (if run > 0 {
                seq![digit_char(run)]
            } else {
                Seq::empty()
            }) + seq![spec_piece_notation(p)] + rank_chars(sq, rank, file + 1, 0)
        }
    }
}

/// The encoding of the ranks from `rank` down, separated by `/`.
pub open spec fn ranks_chars(sq: Seq<u8>, rank: int) -> Seq<char>
    decreases 8 - rank,
{
    if rank < 0 || rank >= 8 {
        Seq::empty()
    } else {
        rank_chars(sq, rank, 0, 0) + (if rank != 7 {
            seq!['/']
        } else {
            Seq::empty()
        }) + ranks_chars(sq, rank + 1)
    }
}

/// The castling-rights field: the set flags in `KQkq` order, or `-`.
pub open spec fn castling_chars(b: BoardModel) -> Seq<char> {
    if !b.castle_white_king && !b.castle_white_queen && !b.castle_black_king
        && !b.castle_black_queen {
        seq!['-']
    } else {
        (if b.castle_white_king {
            seq!['K']
        } else {
            Seq::empty()
        }) + (if b.castle_white_queen {
            seq!['Q']
        } else {
            Seq::empty()
        }) + (if b.castle_black_king {
            seq!['k']
        } else {
            Seq::empty()
        }) + (if b.castle_black_queen {
            seq!['q']
        } else {
            Seq::empty()
        })
    }
}

/// The en-passant field: the target's notation, or `-`.
pub open spec fn en_passant_chars(b: BoardModel) -> Seq<char> {
    match b.en_passant {
        Some(square) => notation_of_square(square as int),
        None => seq!['-'],
    }
}

/// The fields after the placement: active color, castling rights,
/// en-passant target, and fixed zero move counters.
pub open spec fn fields_chars(b: BoardModel) -> Seq<char> {
    seq![' '] + seq![
        if b.white_is_active {
            'w'
        } else {
            'b'
        },
    ] + seq![' '] + castling_chars(b) + seq![' '] + en_passant_chars(b) + seq![' ', '0', ' ', '0']
}

/// The full record of a position: placement, active color, castling
/// rights, en-passant target, and fixed zero move counters.
pub open spec fn spec_fen(b: BoardModel) -> Seq<char> {
    ranks_chars(b.squares, 0) + fields_chars(b)
}

/// A square byte a position can actually hold: empty, or one piece kind
/// with one color bit.
pub open spec fn valid_piece(p: u8) -> bool {
    p == NONE || p == (KING | WHITE) || p == (PAWN | WHITE) || p == (KNIGHT | WHITE) || p == (
    BISHOP | WHITE) || p == (ROOK | WHITE) || p == (QUEEN | WHITE) || p == (KING | BLACK) || p == (
    PAWN | BLACK) || p == (KNIGHT | BLACK) || p == (BISHOP | BLACK) || p == (ROOK | BLACK) || p == (
    QUEEN | BLACK)
}

pub open spec fn wf_squares(sq: Seq<u8>) -> bool {
    sq.len() == 64 && forall|j: int| 0 <= j < 64 ==> valid_piece(#[trigger] sq[j])
}

/// A reachable position: every square holds a valid piece byte and the
/// en-passant target, if set, is a board square.
pub open spec fn wf_board(b: BoardModel) -> bool {
    wf_squares(b.squares) && match b.en_passant {
        Some(square) => square < 64,
        None => true,
    }
}

proof fn lemma_skip_step(s: Seq<char>, i: int)
    requires
        0 <= i < s.len(),
    ensures
        s.skip(i).len() == s.len() - i,
        s.skip(i)[0] == s[i],
        s.skip(i).skip(1) == s.skip(i + 1),
{
    assert(s.skip(i).skip(1) =~= s.skip(i + 1));
}

impl Board {
    /// Decodes a position record. The decoded board is exactly what the
    /// record denotes; a malformed record (bad symbol, wrong square
    /// count, missing separator, unrecognized color, castling or
    /// en-passant token) is a recoverable input error.
    #[verifier::rlimit(60)]
    pub fn from_fen(fen: String) -> (r: Result<Board, Error>)
        ensures
            match r {
                Ok(board) => spec_parse_fen(fen@) == Some(board@),
                Err(e) => spec_parse_fen(fen@) is None && e.kind == ErrorKind::InvalidInput,
            },
    {
        let fen_str = fen.as_str();
        let n = fen_str.unicode_len();
        let ghost s = fen@;
        let ghost init_sq = empty_squares();
        let mut squares: [u8; 64] = [0;64];
        proof {
            assert(squares@ =~= init_sq);
        }
        let mut current: usize = 0;
        let mut i: usize = 0;
        let mut filled: bool = false;
        proof {
            assert(s.skip(0) =~= s);
        }
        loop
            invariant_except_break
                s == fen@,
                fen_str@ == s,
                n == s.len(),
                i <= n,
                current < 64,
                !filled,
                init_sq == empty_squares(),
                parse_pieces(s, 0, init_sq) == parse_pieces(
                    s.skip(i as int),
                    current as int,
                    squares@,
                ),
            ensures
                i <= n,
                filled ==> parse_pieces(s, 0, init_sq) == Some(
                    (s.skip(i as int), current as int, squares@),
                ),
                !filled ==> i == n && parse_pieces(s, 0, init_sq) is None,
            decreases n - i,
        {
            if i >= n {
                proof {
                    assert(s.skip(i as int).len() == 0);
                }
                break;
            }
            proof {
                lemma_skip_step(s, i as int);
            }
            let symbol = fen_str.get_char(i);
            if symbol == 'r' {
                squares[current] = pieces::rook(BLACK);
                current = current + 1;
            } else if symbol == 'n' {
                squares[current] = pieces::knight(BLACK);
                current = current + 1;
            } else if symbol == 'b' {
                squares[current] = pieces::bishop(BLACK);
                current = current + 1;
            } else if symbol == 'q' {
                squares[current] = pieces::quieen(BLACK);
                current = current + 1;
            } else if symbol == 'k' {
                squares[current] = pieces::king(BLACK);
                current = current + 1;
            } else if symbol == 'p' {
                squares[current] = pieces::pawn(BLACK);
                current = current + 1;
            } else if symbol == 'R' {
                squares[current] = pieces::rook(WHITE);
                current = current + 1;
            } else if symbol == 'N' {
                squares[current] = pieces::knight(WHITE);
                current = current + 1;
            } else if symbol == 'B' {
                squares[current] = pieces::bishop(WHITE);
                current = current + 1;
            } else if symbol == 'Q' {
                squares[current] = pieces::quieen(WHITE);
                current = current + 1;
            } else if symbol == 'K' {
                squares[current] = pieces::king(WHITE);
                current = current + 1;
            } else if symbol == 'P' {
                squares[current] = pieces::pawn(WHITE);
                current = current + 1;
            } else if symbol >= '0' && symbol <= '9' {
                let empty_count = (symbol as u32 - 48) as usize;
                current = current + empty_count;
            } else if symbol == '/' {
            } else {
                return Err(invalid_input(String::from_str("Unexpected symbol in pieces field")));
            }
            i = i + 1;
            if current >= 64 {
                filled = true;
                break;
            }
        }
        if !filled {
            return Err(invalid_input(String::from_str("Expected 64 squares in pieces field")));
        }
        if current != 64 {
            return Err(invalid_input(String::from_str("Expected exactly 64 squares")));
        }
        let ghost s1 = s.skip(i as int);
        if i >= n || fen_str.get_char(i) != ' ' {
            return Err(invalid_input(String::from_str("Expected space after pieces string")));
        }
        if i + 1 >= n {
            return Err(invalid_input(String::from_str("Expected active color after fen string")));
        }
        let active_char = fen_str.get_char(i + 1);
        let white_is_active = if active_char == 'w' {
            true
        } else if active_char == 'b' {
            false
        } else {
            return Err(invalid_input(String::from_str("Expected active color after fen string")));
        };
        if i + 2 >= n || fen_str.get_char(i + 2) != ' ' {
            return Err(invalid_input(String::from_str("Expected space after active color")));
        }
        i = i + 3;
        proof {
            assert(s1.skip(3) =~= s.skip(i as int));
            assert(parse_active(s1) == Some((s.skip(i as int), white_is_active)));
        }
        let ghost s2 = s.skip(i as int);
        let mut castle_white_king = false;
        let mut castle_white_queen = false;
        let mut castle_black_king = false;
        let mut castle_black_queen = false;
        loop
            invariant_except_break
                s == fen@,
                fen_str@ == s,
                n == s.len(),
                i <= n,
                init_sq == empty_squares(),
                parse_pieces(s, 0, init_sq) == Some((s1, 64int, squares@)),
                parse_active(s1) == Some((s2, white_is_active)),
                parse_castling(s2, false, false, false, false) == parse_castling(
                    s.skip(i as int),
                    castle_white_king,
                    castle_white_queen,
                    castle_black_king,
                    castle_black_queen,
                ),
            ensures
                i <= n,
                n == s.len(),
                parse_castling(s2, false, false, false, false) == Some(
                    (
                        s.skip(i as int),
                        castle_white_king,
                        castle_white_queen,
                        castle_black_king,
                        castle_black_queen,
                    ),
                ),
            decreases n - i,
        {
            if i >= n {
                proof {
                    assert(s.skip(i as int).len() == 0);
                }
                return Err(invalid_input(String::from_str("Expected castle state in fen string")));
            }
            proof {
                lemma_skip_step(s, i as int);
            }
            let symbol = fen_str.get_char(i);
            i = i + 1;
            if symbol == ' ' {
                break;
            } else if symbol == 'K' {
                castle_white_king = true;
            } else if symbol == 'k' {
                castle_black_king = true;
            } else if symbol == 'Q' {
                castle_white_queen = true;
            } else if symbol == 'q' {
                castle_black_queen = true;
            } else if symbol == '-' {
            } else {
                return Err(invalid_input(String::from_str("Expected castle state in fen string")));
            }
        }
        let ghost s3 = s.skip(i as int);
        if i >= n {
            return Err(invalid_input(String::from_str("Expected en passant in fen string")));
        }
        let ep_char = fen_str.get_char(i);
        let en_passant: Option<usize>;
        if ep_char == '-' {
            en_passant = None;
        } else {
            if i + 1 >= n {
                return Err(
                    invalid_input(String::from_str("Expected en passant rank in fen string")),
                );
            }
            let notation = fen_str.substring_char(i, i + 2);
            proof {
                assert(notation@ =~= s3.subrange(0, 2));
                assert(notation@[0] == s3[0] && notation@[1] == s3[1]);
            }
            match crate::util::square_notation_to_index(notation) {
                Ok(square) => {
                    en_passant = Some(square);
                    proof {
                        assert(valid_square_notation(s3));
                        assert(square_of_notation(s3) == square_of_notation(notation@));
                    }
                },
                Err(e) => {
                    proof {
                        assert(!valid_square_notation(s3));
                    }
                    return Err(e);
                },
            }
        }
        let board = Board {
            squares,
            white_is_active,
            castle_white_king,
            castle_white_queen,
            castle_black_king,
            castle_black_queen,
            en_passant,
        };
        proof {
            assert(spec_parse_fen(s) == Some(board@));
        }
        Ok(board)
    }
}

/// The characters an ASCII byte sequence spells.
pub open spec fn chars_of(bytes: Seq<u8>) -> Seq<char> {
    bytes.map_values(|b: u8| b as char)
}

proof fn lemma_chars_push(bytes: Seq<u8>, x: u8)
    ensures
        chars_of(bytes.push(x)) == chars_of(bytes).push(x as char),
{
    assert(chars_of(bytes.push(x)) =~= chars_of(bytes).push(x as char));
}

/// The notation byte of a piece: the ASCII code of its record character.
fn notation_byte(piece: u8) -> (r: u8)
    ensures
        r < 128,
        r as char == spec_piece_notation(piece),
{
    let low: u8 = if piece.is_king() {
        107
    } else if piece.is_queen() {
        113
    } else if piece.is_knight() {
        110
    } else if piece.is_rook() {
        114
    } else if piece.is_pawn() {
        112
    } else if piece.is_bishop() {
        98
    } else {
        45
    };
    if piece.is_color(WHITE) {
        match low {
            107 => 75,
            113 => 81,
            110 => 78,
            114 => 82,
            112 => 80,
            98 => 66,
            other => other,
        }
    } else {
        low
    }
}

pub open spec fn all_ascii(bytes: Seq<u8>) -> bool {
    forall|j: int| 0 <= j < bytes.len() ==> bytes[j] < 128
}

impl Board {
    /// Appends the castling-rights field of this position's record.
    fn push_castling(&self, bytes: &mut Vec<u8>)
        requires
            all_ascii(old(bytes)@),
        ensures
            all_ascii(final(bytes)@),
            chars_of(final(bytes)@) == chars_of(old(bytes)@) + castling_chars(self@),
    {
        let ghost b = self@;
        let ghost bytes_head = bytes@;
        if !self.castle_white_king && !self.castle_white_queen && !self.castle_black_king
            && !self.castle_black_queen {
            let ghost bytes0 = bytes@;
            bytes.push(45);
            proof {
                lemma_chars_push(bytes0, 45);
            }
        } else {
            if self.castle_white_king {
                let ghost bytes0 = bytes@;
                bytes.push(75);
                proof {
                    lemma_chars_push(bytes0, 75);
                }
            }
            if self.castle_white_queen {
                let ghost bytes0 = bytes@;
                bytes.push(81);
                proof {
                    lemma_chars_push(bytes0, 81);
                }
            }
            if self.castle_black_king {
                let ghost bytes0 = bytes@;
                bytes.push(107);
                proof {
                    lemma_chars_push(bytes0, 107);
                }
            }
            if self.castle_black_queen {
                let ghost bytes0 = bytes@;
                bytes.push(113);
                proof {
                    lemma_chars_push(bytes0, 113);
                }
            }
        }
        proof {
            assert(chars_of(bytes@) =~= chars_of(bytes_head) + castling_chars(b));
        }
    }

    /// Appends the en-passant field of this position's record.
    fn push_en_passant(&self, bytes: &mut Vec<u8>)
        requires
            match self.en_passant {
                Some(square) => square < 64,
                None => true,
            },
            all_ascii(old(bytes)@),
        ensures
            all_ascii(final(bytes)@),
            chars_of(final(bytes)@) == chars_of(old(bytes)@) + en_passant_chars(self@),
    {
        let ghost b = self@;
        match self.en_passant {
            Some(square) => {
                let ghost bytes0 = bytes@;
                let file_byte: u8 = 97 + (square % 8) as u8;
                let rank_byte: u8 = 56 - (square / 8) as u8;
                bytes.push(file_byte);
                bytes.push(rank_byte);
                proof {
                    lemma_chars_push(bytes0, file_byte);
                    lemma_chars_push(bytes0.push(file_byte), rank_byte);
                    assert(chars_of(bytes@) =~= chars_of(bytes0) + en_passant_chars(b));
                }
            },
            None => {
                let ghost bytes0 = bytes@;
                bytes.push(45);
                proof {
                    lemma_chars_push(bytes0, 45);
                    assert(chars_of(bytes@) =~= chars_of(bytes0) + en_passant_chars(b));
                }
            },
        }
    }

    /// Appends the post-placement fields of this position's record.
    #[verifier::rlimit(100)]
    fn push_record_fields(&self, bytes: &mut Vec<u8>)
        requires
            match self.en_passant {
                Some(square) => square < 64,
                None => true,
            },
            all_ascii(old(bytes)@),
        ensures
            all_ascii(final(bytes)@),
            chars_of(final(bytes)@) == chars_of(old(bytes)@) + fields_chars(self@),
    {
        let ghost b = self@;
        let ghost bytes_ranks = bytes@;
        bytes.push(32);
        if self.white_is_active {
            bytes.push(119);
        } else {
            bytes.push(98);
        }
        bytes.push(32);
        let ghost bytes_head = bytes@;
        proof {
            lemma_chars_push(bytes_ranks, 32);
            lemma_chars_push(bytes_ranks.push(32), if b.white_is_active {
                119
            } else {
                98
            });
            lemma_chars_push(
                bytes_ranks.push(32).push(
                    if b.white_is_active {
                        119
                    } else {
                        98
                    },
                ),
                32,
            );
        }
        self.push_castling(bytes);
        let ghost bytes_castle = bytes@;
        bytes.push(32);
        proof {
            lemma_chars_push(bytes_castle, 32);
        }
        self.push_en_passant(bytes);
        let ghost bytes_ep = bytes@;
        bytes.push(32);
        bytes.push(48);
        bytes.push(32);
        bytes.push(48);
        proof {
            lemma_chars_push(bytes_ep, 32);
            lemma_chars_push(bytes_ep.push(32), 48);
            lemma_chars_push(bytes_ep.push(32).push(48), 32);
            lemma_chars_push(bytes_ep.push(32).push(48).push(32), 48);
            assert(chars_of(bytes_head) =~= chars_of(bytes_ranks) + seq![' '] + seq![
                if b.white_is_active {
                    'w'
                } else {
                    'b'
                },
            ] + seq![' ']);
            assert(chars_of(bytes@) =~= chars_of(bytes_ep) + seq![' ', '0', ' ', '0']);
            assert(chars_of(bytes@) =~= chars_of(bytes_ranks) + fields_chars(b));
        }
    }

    /// Encodes this position as a record that decodes back to it; the
    /// move counters, which this engine does not track, encode as zero.
    #[verifier::rlimit(100)]
    pub fn to_fen(&self) -> (r: String)
        requires
            match self.en_passant {
                Some(square) => square < 64,
                None => true,
            },
        ensures
            r@ == spec_fen(self@),
    {
        let ghost b = self@;
        let ghost sq = self@.squares;
        let mut bytes: Vec<u8> = Vec::new();
        proof {
            assert(chars_of(bytes@) + ranks_chars(sq, 0) =~= ranks_chars(sq, 0));
        }
        for rank in 0..8usize
            invariant
                b == self@,
                sq == self@.squares,
                all_ascii(bytes@),
                chars_of(bytes@) + ranks_chars(sq, rank as int) == ranks_chars(sq, 0),
        {
            let ghost rank_tail = (if rank != 7 {
                seq!['/']
            } else {
                Seq::<char>::empty()
            }) + ranks_chars(sq, rank as int + 1);
            proof {
                assert(chars_of(bytes@) + ranks_chars(sq, rank as int) =~= chars_of(bytes@)
                    + rank_chars(sq, rank as int, 0, 0) + rank_tail);
            }
            let mut empty_count: usize = 0;
            for file in 0..8usize
                invariant
                    b == self@,
                    sq == self@.squares,
                    rank < 8,
                    empty_count <= file,
                    all_ascii(bytes@),
                    rank_tail == (if rank != 7 {
                        seq!['/']
                    } else {
                        Seq::<char>::empty()
                    }) + ranks_chars(sq, rank as int + 1),
                    chars_of(bytes@) + rank_chars(sq, rank as int, file as int, empty_count as int)
                        + rank_tail == ranks_chars(sq, 0),
            {
                let piece = self.squares[rank * 8 + file];
                if piece == NONE {
                    empty_count = empty_count + 1;
                } else {
                    let ghost bytes0 = bytes@;
                    if empty_count > 0 {
                        bytes.push(48 + empty_count as u8);
                        proof {
                            lemma_chars_push(bytes0, (48 + empty_count) as u8);
                        }
                    }
                    let ghost bytes1 = bytes@;
                    let notation = notation_byte(piece);
                    bytes.push(notation);
                    proof {
                        lemma_chars_push(bytes1, notation);
                        assert(chars_of(bytes@) + rank_chars(sq, rank as int, file as int + 1, 0)
                            + rank_tail =~= chars_of(bytes0) + rank_chars(
                            sq,
                            rank as int,
                            file as int,
                            empty_count as int,
                        ) + rank_tail);
                    }
                    empty_count = 0;
                }
            }
            if empty_count > 0 {
                let ghost bytes0 = bytes@;
                bytes.push(48 + empty_count as u8);
                proof {
                    lemma_chars_push(bytes0, (48 + empty_count) as u8);
                    assert(chars_of(bytes@) + rank_tail =~= chars_of(bytes0) + rank_chars(
                        sq,
                        rank as int,
                        8,
                        empty_count as int,
                    ) + rank_tail);
                }
            }
            if rank != 7 {
                let ghost bytes0 = bytes@;
                bytes.push(47);
                proof {
                    lemma_chars_push(bytes0, 47);
                    assert(chars_of(bytes@) + ranks_chars(sq, rank as int + 1) =~= chars_of(bytes0)
                        + seq!['/'] + ranks_chars(sq, rank as int + 1));
                }
            } else {
                proof {
                    assert(chars_of(bytes@) + ranks_chars(sq, rank as int + 1) =~= chars_of(bytes@)
                        + rank_tail);
                }
            }
        }
        self.push_record_fields(&mut bytes);
        proof {
            assert(chars_of(bytes@) =~= spec_fen(b));
        }
        let result = crate::util::ascii_chars(bytes);
        proof {
            assert(result@ =~= spec_fen(b));
        }
        result
    }
}

/// The first `cur` squares of `sq`, the rest still empty: the parser's
/// intermediate square state while walking an encoded placement.
pub open spec fn filled(sq: Seq<u8>, cur: int) -> Seq<u8> {
    Seq::new(64, |j: int| if j < cur { sq[j] } else { NONE })
}

proof fn lemma_code_bits(k: u8, c: u8)
    requires
        0 < k < 8,
        c == 8 || c == 16,
    ensures
        (k | c) & 7 == k,
        c == 8 ==> ((k | c) & 8) > 0 && ((k | c) & 16) == 0,
        c == 16 ==> ((k | c) & 16) > 0 && ((k | c) & 8) == 0,
        (k | c) != 0,
{
    assert((k | c) & 7 == k && (c == 8 ==> ((k | c) & 8) > 0 && ((k | c) & 16) == 0) && (c == 16
        ==> ((k | c) & 16) > 0 && ((k | c) & 8) == 0) && (k | c) != 0) by (bit_vector)
        requires
            0 < k < 8,
            c == 8 || c == 16,
    ;
}

/// A valid nonempty piece byte prints as a character that decodes back
/// to the same byte.
proof fn lemma_piece_roundtrip(p: u8)
    requires
        valid_piece(p),
        p != NONE,
    ensures
        piece_of_char(spec_piece_notation(p)) == Some(p),
{
    if p == (KING | WHITE) {
        lemma_code_bits(KING, WHITE);
    } else if p == (PAWN | WHITE) {
        lemma_code_bits(PAWN, WHITE);
    } else if p == (KNIGHT | WHITE) {
        lemma_code_bits(KNIGHT, WHITE);
    } else if p == (BISHOP | WHITE) {
        lemma_code_bits(BISHOP, WHITE);
    } else if p == (ROOK | WHITE) {
        lemma_code_bits(ROOK, WHITE);
    } else if p == (QUEEN | WHITE) {
        lemma_code_bits(QUEEN, WHITE);
    } else if p == (KING | BLACK) {
        lemma_code_bits(KING, BLACK);
    } else if p == (PAWN | BLACK) {
        lemma_code_bits(PAWN, BLACK);
    } else if p == (KNIGHT | BLACK) {
        lemma_code_bits(KNIGHT, BLACK);
    } else if p == (BISHOP | BLACK) {
        lemma_code_bits(BISHOP, BLACK);
    } else if p == (ROOK | BLACK) {
        lemma_code_bits(ROOK, BLACK);
    } else {
        lemma_code_bits(QUEEN, BLACK);
    }
}

/// Parsing the encoding of one rank (from `file` on, `run` empties
/// pending) advances the square count to the end of the rank, filling
/// exactly the rank's squares; on the last rank the placement field ends.
proof fn lemma_parse_rank(sq: Seq<u8>, rank: int, file: int, run: int, tail: Seq<char>)
    requires
        wf_squares(sq),
        0 <= rank < 8,
        0 <= file <= 8,
        0 <= run <= file,
        rank * 8 + file - run < 64,
        forall|j: int| rank * 8 + file - run <= j < rank * 8 + file ==> sq[j] == NONE,
    ensures
        ({
            let cur = rank * 8 + file - run;
            let next = (rank + 1) * 8;
            parse_pieces(rank_chars(sq, rank, file, run) + tail, cur, filled(sq, cur)) == (
            if next >= 64 {
                Some((tail, 64int, filled(sq, 64)))
            } else {
                parse_pieces(tail, next, filled(sq, next))
            })
        }),
    decreases 8 - file,
{
    let cur = rank * 8 + file - run;
    let next = (rank + 1) * 8;
    if file >= 8 {
        if run > 0 {
            let enc = seq![digit_char(run)] + tail;
            assert(rank_chars(sq, rank, file, run) + tail =~= enc);
            assert(enc[0] == digit_char(run));
            assert(piece_of_char(digit_char(run)) is None);
            assert(is_digit_char(digit_char(run)));
            assert(digit_val(digit_char(run)) == run);
            assert(enc.skip(1) =~= tail);
            assert(cur + run == next);
            if next >= 64 {
                assert(parse_pieces(enc, cur, filled(sq, cur)) == Some(
                    (tail, next, filled(sq, cur)),
                ));
                assert(filled(sq, cur) =~= filled(sq, 64));
            } else {
                assert(filled(sq, cur) =~= filled(sq, next));
            }
        } else {
            assert(rank_chars(sq, rank, file, run) + tail =~= tail);
            assert(cur == next && next < 64);
        }
    } else {
        let p = sq[rank * 8 + file];
        assert(valid_piece(p));
        if p == NONE {
            lemma_parse_rank(sq, rank, file + 1, run + 1, tail);
        } else {
            lemma_piece_roundtrip(p);
            let c = spec_piece_notation(p);
            let rest = seq![c] + rank_chars(sq, rank, file + 1, 0) + tail;
            let at_piece = rank * 8 + file;
            if run > 0 {
                let enc = seq![digit_char(run)] + rest;
                assert(rank_chars(sq, rank, file, run) + tail =~= enc);
                assert(piece_of_char(digit_char(run)) is None);
                assert(is_digit_char(digit_char(run)));
                assert(digit_val(digit_char(run)) == run);
                assert(enc.skip(1) =~= rest);
                assert(filled(sq, cur) =~= filled(sq, at_piece));
                assert(parse_pieces(enc, cur, filled(sq, cur)) == parse_pieces(
                    rest,
                    at_piece,
                    filled(sq, at_piece),
                ));
            } else {
                assert(rank_chars(sq, rank, file, run) + tail =~= rest);
            }
            // the notation character fills the square
            assert(rest[0] == c);
            assert(rest.skip(1) =~= rank_chars(sq, rank, file + 1, 0) + tail);
            assert(filled(sq, at_piece).update(at_piece, p) =~= filled(sq, at_piece + 1));
            if at_piece + 1 >= 64 {
                assert(rank == 7 && file == 7);
                assert(rank_chars(sq, rank, file + 1, 0) =~= Seq::<char>::empty());
                assert(rank_chars(sq, rank, file + 1, 0) + tail =~= tail);
                assert(filled(sq, at_piece + 1) =~= filled(sq, 64));
                assert(parse_pieces(rest, at_piece, filled(sq, at_piece)) == Some(
                    (tail, 64int, filled(sq, 64)),
                ));
            } else {
                lemma_parse_rank(sq, rank, file + 1, 0, tail);
            }
        }
    }
}

/// Parsing the encoding of the ranks from `rank` down fills the rest of
/// the board and ends the placement field exactly at the trailing text.
proof fn lemma_parse_ranks(sq: Seq<u8>, rank: int, tail: Seq<char>)
    requires
        wf_squares(sq),
        0 <= rank < 8,
    ensures
        parse_pieces(ranks_chars(sq, rank) + tail, rank * 8, filled(sq, rank * 8)) == Some(
            (tail, 64int, sq),
        ),
    decreases 8 - rank,
{
    if rank == 7 {
        lemma_parse_rank(sq, rank, 0, 0, tail);
        assert(ranks_chars(sq, rank) + tail =~= rank_chars(sq, rank, 0, 0) + tail);
        assert(filled(sq, 64) =~= sq);
    } else {
        let inner_tail = seq!['/'] + (ranks_chars(sq, rank + 1) + tail);
        lemma_parse_rank(sq, rank, 0, 0, inner_tail);
        assert(ranks_chars(sq, rank) + tail =~= rank_chars(sq, rank, 0, 0) + inner_tail);
        let next = (rank + 1) * 8;
        assert(piece_of_char('/') is None);
        assert(inner_tail[0] == '/');
        assert(inner_tail.skip(1) =~= ranks_chars(sq, rank + 1) + tail);
        assert(parse_pieces(inner_tail, next, filled(sq, next)) == parse_pieces(
            ranks_chars(sq, rank + 1) + tail,
            next,
            filled(sq, next),
        ));
        lemma_parse_ranks(sq, rank + 1, tail);
    }
}

proof fn lemma_parse_castling_of_encode(b: BoardModel, rest: Seq<char>)
    ensures
        parse_castling(castling_chars(b) + (seq![' '] + rest), false, false, false, false) == Some(
            (
                rest,
                b.castle_white_king,
                b.castle_white_queen,
                b.castle_black_king,
                b.castle_black_queen,
            ),
        ),
{
    let spaced = seq![' '] + rest;
    assert(spaced[0] == ' ');
    assert(spaced.skip(1) =~= rest);
    if !b.castle_white_king && !b.castle_white_queen && !b.castle_black_king
        && !b.castle_black_queen {
        let enc = castling_chars(b) + spaced;
        assert(enc =~= seq!['-'] + spaced);
        assert(enc.skip(1) =~= spaced);
    } else {
        let c4 = (if b.castle_black_queen {
            seq!['q']
        } else {
            Seq::<char>::empty()
        }) + spaced;
        let c3 = (if b.castle_black_king {
            seq!['k']
        } else {
            Seq::<char>::empty()
        }) + c4;
        let c2 = (if b.castle_white_queen {
            seq!['Q']
        } else {
            Seq::<char>::empty()
        }) + c3;
        let c1 = (if b.castle_white_king {
            seq!['K']
        } else {
            Seq::<char>::empty()
        }) + c2;
        assert(castling_chars(b) + spaced =~= c1);
        if b.castle_white_king {
            assert(c1[0] == 'K');
            assert(c1.skip(1) =~= c2);
        } else {
            assert(c1 =~= c2);
        }
        if b.castle_white_queen {
            assert(c2[0] == 'Q');
            assert(c2.skip(1) =~= c3);
        } else {
            assert(c2 =~= c3);
        }
        if b.castle_black_king {
            assert(c3[0] == 'k');
            assert(c3.skip(1) =~= c4);
        } else {
            assert(c3 =~= c4);
        }
        if b.castle_black_queen {
            assert(c4[0] == 'q');
            assert(c4.skip(1) =~= spaced);
        } else {
            assert(c4 =~= spaced);
        }
        let wk = b.castle_white_king;
        let wq = b.castle_white_queen;
        let bk = b.castle_black_king;
        let bq = b.castle_black_queen;
        assert(parse_castling(spaced, wk, wq, bk, bq) == Some((rest, wk, wq, bk, bq)));
        assert(parse_castling(c4, wk, wq, bk, false) == Some((rest, wk, wq, bk, bq)));
        assert(parse_castling(c3, wk, wq, false, false) == Some((rest, wk, wq, bk, bq)));
        assert(parse_castling(c2, wk, false, false, false) == Some((rest, wk, wq, bk, bq)));
        assert(parse_castling(c1, false, false, false, false) == Some((rest, wk, wq, bk, bq)));
    }
}

/// Decoding the encoding of any reachable position gives that position
/// back: the round trip of the record codec.
pub proof fn lemma_fen_round_trip(b: BoardModel)
    requires
        wf_board(b),
    ensures
        spec_parse_fen(spec_fen(b)) == Some(b),
{
    let s = spec_fen(b);
    let sq = b.squares;
    let active_seq: Seq<char> = seq![
        if b.white_is_active {
            'w'
        } else {
            'b'
        },
    ];
    let after_castling = en_passant_chars(b) + seq![' ', '0', ' ', '0'];
    let after_active = castling_chars(b) + (seq![' '] + after_castling);
    lemma_parse_ranks(sq, 0, fields_chars(b));
    assert(s =~= ranks_chars(sq, 0) + fields_chars(b));
    assert(empty_squares() =~= filled(sq, 0));
    assert(parse_pieces(s, 0, empty_squares()) == Some((fields_chars(b), 64int, sq)));
    let f = fields_chars(b);
    assert(f[0] == ' ' && f[1] == active_seq[0] && f[2] == ' ');
    assert(f[1] == 'w' || f[1] == 'b');
    assert(f.skip(3) =~= after_active);
    assert(parse_active(f) == Some((after_active, b.white_is_active)));
    lemma_parse_castling_of_encode(b, after_castling);
    match b.en_passant {
        Some(square) => {
            crate::util::lemma_square_notation_bijection(square as int);
            let notation = notation_of_square(square as int);
            assert(after_castling =~= notation + seq![' ', '0', ' ', '0']);
            assert(after_castling[0] == notation[0] && after_castling[1] == notation[1]);
            assert(valid_square_notation(after_castling));
            assert(square_of_notation(after_castling) == square as int);
            assert(after_castling[0] != '-');
            assert(parse_en_passant(after_castling) == Some(Some(square)));
        },
        None => {
            assert(after_castling[0] == '-');
            assert(parse_en_passant(after_castling) == Some(None::<usize>));
        },
    }
    assert(spec_parse_fen(s) == Some(b));
}

/// The squares of the standard starting position.
pub open spec fn start_squares() -> Seq<u8> {
    seq![
        ROOK | BLACK, KNIGHT | BLACK, BISHOP | BLACK, QUEEN | BLACK,
        KING | BLACK, BISHOP | BLACK, KNIGHT | BLACK, ROOK | BLACK,
        PAWN | BLACK, PAWN | BLACK, PAWN | BLACK, PAWN | BLACK,
        PAWN | BLACK, PAWN | BLACK, PAWN | BLACK, PAWN | BLACK,
        NONE, NONE, NONE, NONE, NONE, NONE, NONE, NONE,
        NONE, NONE, NONE, NONE, NONE, NONE, NONE, NONE,
        NONE, NONE, NONE, NONE, NONE, NONE, NONE, NONE,
        NONE, NONE, NONE, NONE, NONE, NONE, NONE, NONE,
        PAWN | WHITE, PAWN | WHITE, PAWN | WHITE, PAWN | WHITE,
        PAWN | WHITE, PAWN | WHITE, PAWN | WHITE, PAWN | WHITE,
        ROOK | WHITE, KNIGHT | WHITE, BISHOP | WHITE, QUEEN | WHITE,
        KING | WHITE, BISHOP | WHITE, KNIGHT | WHITE, ROOK | WHITE,
    ]
}

/// The standard starting position: both sides with all castling rights,
/// white to move, no en-passant target.
pub open spec fn start_board() -> BoardModel {
    BoardModel {
        squares: start_squares(),
        white_is_active: true,
        castle_white_king: true,
        castle_white_queen: true,
        castle_black_king: true,
        castle_black_queen: true,
        en_passant: None,
    }
}

/// The starting record decodes to the starting position.
#[verifier::rlimit(100)]
proof fn lemma_start_encode_is_record()
    ensures
        spec_fen(start_board()) == "rnbqkbnr/pppppppp/8/8/8/8/PPPPPPPP/RNBQKBNR w KQkq - 0 0"@,
{
    lemma_code_bits(KING, WHITE);
    lemma_code_bits(PAWN, WHITE);
    lemma_code_bits(KNIGHT, WHITE);
    lemma_code_bits(BISHOP, WHITE);
    lemma_code_bits(ROOK, WHITE);
    lemma_code_bits(QUEEN, WHITE);
    lemma_code_bits(KING, BLACK);
    lemma_code_bits(PAWN, BLACK);
    lemma_code_bits(KNIGHT, BLACK);
    lemma_code_bits(BISHOP, BLACK);
    lemma_code_bits(ROOK, BLACK);
    lemma_code_bits(QUEEN, BLACK);
    assert(spec_piece_notation(ROOK | BLACK) == 'r');
    assert(spec_piece_notation(KNIGHT | BLACK) == 'n');
    assert(spec_piece_notation(BISHOP | BLACK) == 'b');
    assert(spec_piece_notation(QUEEN | BLACK) == 'q');
    assert(spec_piece_notation(KING | BLACK) == 'k');
    assert(spec_piece_notation(PAWN | BLACK) == 'p');
    assert(spec_piece_notation(ROOK | WHITE) == 'R');
    assert(spec_piece_notation(KNIGHT | WHITE) == 'N');
    assert(spec_piece_notation(BISHOP | WHITE) == 'B');
    assert(spec_piece_notation(QUEEN | WHITE) == 'Q');
    assert(spec_piece_notation(KING | WHITE) == 'K');
    assert(spec_piece_notation(PAWN | WHITE) == 'P');
    assert(rank_chars(start_squares(), 0, 0, 0) =~= seq!['r', 'n', 'b', 'q', 'k', 'b', 'n', 'r'])
        by {
        reveal_with_fuel(rank_chars, 10);
    }
    assert(rank_chars(start_squares(), 1, 0, 0) =~= seq!['p', 'p', 'p', 'p', 'p', 'p', 'p', 'p'])
        by {
        reveal_with_fuel(rank_chars, 10);
    }
    assert(rank_chars(start_squares(), 2, 0, 0) =~= seq!['8']) by {
        reveal_with_fuel(rank_chars, 10);
    }
    assert(rank_chars(start_squares(), 3, 0, 0) =~= seq!['8']) by {
        reveal_with_fuel(rank_chars, 10);
    }
    assert(rank_chars(start_squares(), 4, 0, 0) =~= seq!['8']) by {
        reveal_with_fuel(rank_chars, 10);
    }
    assert(rank_chars(start_squares(), 5, 0, 0) =~= seq!['8']) by {
        reveal_with_fuel(rank_chars, 10);
    }
    assert(rank_chars(start_squares(), 6, 0, 0) =~= seq!['P', 'P', 'P', 'P', 'P', 'P', 'P', 'P'])
        by {
        reveal_with_fuel(rank_chars, 10);
    }
    assert(rank_chars(start_squares(), 7, 0, 0) =~= seq!['R', 'N', 'B', 'Q', 'K', 'B', 'N', 'R'])
        by {
        reveal_with_fuel(rank_chars, 10);
    }
    let sq = start_squares();
    let r7 = seq!['R', 'N', 'B', 'Q', 'K', 'B', 'N', 'R'];
    assert(ranks_chars(sq, 7) =~= r7) by {
        reveal_with_fuel(ranks_chars, 2);
    }
    let r6 = seq!['P', 'P', 'P', 'P', 'P', 'P', 'P', 'P', '/', 'R', 'N', 'B', 'Q', 'K', 'B', 'N', 'R'];
    assert(ranks_chars(sq, 6) =~= r6) by {
        reveal_with_fuel(ranks_chars, 2);
    }
    let r5 = seq!['8', '/'] + r6;
    assert(ranks_chars(sq, 5) =~= r5) by {
        reveal_with_fuel(ranks_chars, 2);
    }
    let r4 = seq!['8', '/'] + r5;
    assert(ranks_chars(sq, 4) =~= r4) by {
        reveal_with_fuel(ranks_chars, 2);
    }
    let r3 = seq!['8', '/'] + r4;
    assert(ranks_chars(sq, 3) =~= r3) by {
        reveal_with_fuel(ranks_chars, 2);
    }
    let r2 = seq!['8', '/'] + r3;
    assert(ranks_chars(sq, 2) =~= r2) by {
        reveal_with_fuel(ranks_chars, 2);
    }
    let r1 = seq!['p', 'p', 'p', 'p', 'p', 'p', 'p', 'p', '/'] + r2;
    assert(ranks_chars(sq, 1) =~= r1) by {
        reveal_with_fuel(ranks_chars, 2);
    }
    let r0 = seq!['r', 'n', 'b', 'q', 'k', 'b', 'n', 'r', '/'] + r1;
    assert(ranks_chars(sq, 0) =~= r0) by {
        reveal_with_fuel(ranks_chars, 2);
    }
    let fc = seq![' ', 'w', ' ', 'K', 'Q', 'k', 'q', ' ', '-', ' ', '0', ' ', '0'];
    assert(fields_chars(start_board()) =~= fc);
    assert(spec_fen(start_board()) =~= r0 + fc);
    reveal_strlit("rnbqkbnr/pppppppp/8/8/8/8/PPPPPPPP/RNBQKBNR w KQkq - 0 0");
    assert(("rnbqkbnr/pppppppp/8/8/8/8/PPPPPPPP/RNBQKBNR w KQkq - 0 0"@).len() == 56);
    assert((r0 + fc).len() == 56);
    assert((r0 + fc)[0] == 'r' && ("rnbqkbnr/pppppppp/8/8/8/8/PPPPPPPP/RNBQKBNR w KQkq - 0 0"@)[0] == 'r');
    assert((r0 + fc)[1] == 'n' && ("rnbqkbnr/pppppppp/8/8/8/8/PPPPPPPP/RNBQKBNR w KQkq - 0 0"@)[1] == 'n');
    assert((r0 + fc)[2] == 'b' && ("rnbqkbnr/pppppppp/8/8/8/8/PPPPPPPP/RNBQKBNR w KQkq - 0 0"@)[2] == 'b');
    assert((r0 + fc)[3] == 'q' && ("rnbqkbnr/pppppppp/8/8/8/8/PPPPPPPP/RNBQKBNR w KQkq - 0 0"@)[3] == 'q');
    assert((r0 + fc)[4] == 'k' && ("rnbqkbnr/pppppppp/8/8/8/8/PPPPPPPP/RNBQKBNR w KQkq - 0 0"@)[4] == 'k');
    assert((r0 + fc)[5] == 'b' && ("rnbqkbnr/pppppppp/8/8/8/8/PPPPPPPP/RNBQKBNR w KQkq - 0 0"@)[5] == 'b');
    assert((r0 + fc)[6] == 'n' && ("rnbqkbnr/pppppppp/8/8/8/8/PPPPPPPP/RNBQKBNR w KQkq - 0 0"@)[6] == 'n');
    assert((r0 + fc)[7] == 'r' && ("rnbqkbnr/pppppppp/8/8/8/8/PPPPPPPP/RNBQKBNR w KQkq - 0 0"@)[7] == 'r');
    assert((r0 + fc)[8] == '/' && ("rnbqkbnr/pppppppp/8/8/8/8/PPPPPPPP/RNBQKBNR w KQkq - 0 0"@)[8] == '/');
    assert((r0 + fc)[9] == 'p' && ("rnbqkbnr/pppppppp/8/8/8/8/PPPPPPPP/RNBQKBNR w KQkq - 0 0"@)[9] == 'p');
    assert((r0 + fc)[10] == 'p' && ("rnbqkbnr/pppppppp/8/8/8/8/PPPPPPPP/RNBQKBNR w KQkq - 0 0"@)[10] == 'p');
    assert((r0 + fc)[11] == 'p' && ("rnbqkbnr/pppppppp/8/8/8/8/PPPPPPPP/RNBQKBNR w KQkq - 0 0"@)[11] == 'p');
    assert((r0 + fc)[12] == 'p' && ("rnbqkbnr/pppppppp/8/8/8/8/PPPPPPPP/RNBQKBNR w KQkq - 0 0"@)[12] == 'p');
    assert((r0 + fc)[13] == 'p' && ("rnbqkbnr/pppppppp/8/8/8/8/PPPPPPPP/RNBQKBNR w KQkq - 0 0"@)[13] == 'p');
    assert((r0 + fc)[14] == 'p' && ("rnbqkbnr/pppppppp/8/8/8/8/PPPPPPPP/RNBQKBNR w KQkq - 0 0"@)[14] == 'p');
    assert((r0 + fc)[15] == 'p' && ("rnbqkbnr/pppppppp/8/8/8/8/PPPPPPPP/RNBQKBNR w KQkq - 0 0"@)[15] == 'p');
    assert((r0 + fc)[16] == 'p' && ("rnbqkbnr/pppppppp/8/8/8/8/PPPPPPPP/RNBQKBNR w KQkq - 0 0"@)[16] == 'p');
    assert((r0 + fc)[17] == '/' && ("rnbqkbnr/pppppppp/8/8/8/8/PPPPPPPP/RNBQKBNR w KQkq - 0 0"@)[17] == '/');
    assert((r0 + fc)[18] == '8' && ("rnbqkbnr/pppppppp/8/8/8/8/PPPPPPPP/RNBQKBNR w KQkq - 0 0"@)[18] == '8');
    assert((r0 + fc)[19] == '/' && ("rnbqkbnr/pppppppp/8/8/8/8/PPPPPPPP/RNBQKBNR w KQkq - 0 0"@)[19] == '/');
    assert((r0 + fc)[20] == '8' && ("rnbqkbnr/pppppppp/8/8/8/8/PPPPPPPP/RNBQKBNR w KQkq - 0 0"@)[20] == '8');
    assert((r0 + fc)[21] == '/' && ("rnbqkbnr/pppppppp/8/8/8/8/PPPPPPPP/RNBQKBNR w KQkq - 0 0"@)[21] == '/');
    assert((r0 + fc)[22] == '8' && ("rnbqkbnr/pppppppp/8/8/8/8/PPPPPPPP/RNBQKBNR w KQkq - 0 0"@)[22] == '8');
    assert((r0 + fc)[23] == '/' && ("rnbqkbnr/pppppppp/8/8/8/8/PPPPPPPP/RNBQKBNR w KQkq - 0 0"@)[23] == '/');
    assert((r0 + fc)[24] == '8' && ("rnbqkbnr/pppppppp/8/8/8/8/PPPPPPPP/RNBQKBNR w KQkq - 0 0"@)[24] == '8');
    assert((r0 + fc)[25] == '/' && ("rnbqkbnr/pppppppp/8/8/8/8/PPPPPPPP/RNBQKBNR w KQkq - 0 0"@)[25] == '/');
    assert((r0 + fc)[26] == 'P' && ("rnbqkbnr/pppppppp/8/8/8/8/PPPPPPPP/RNBQKBNR w KQkq - 0 0"@)[26] == 'P');
    assert((r0 + fc)[27] == 'P' && ("rnbqkbnr/pppppppp/8/8/8/8/PPPPPPPP/RNBQKBNR w KQkq - 0 0"@)[27] == 'P');
    assert((r0 + fc)[28] == 'P' && ("rnbqkbnr/pppppppp/8/8/8/8/PPPPPPPP/RNBQKBNR w KQkq - 0 0"@)[28] == 'P');
    assert((r0 + fc)[29] == 'P' && ("rnbqkbnr/pppppppp/8/8/8/8/PPPPPPPP/RNBQKBNR w KQkq - 0 0"@)[29] == 'P');
    assert((r0 + fc)[30] == 'P' && ("rnbqkbnr/pppppppp/8/8/8/8/PPPPPPPP/RNBQKBNR w KQkq - 0 0"@)[30] == 'P');
    assert((r0 + fc)[31] == 'P' && ("rnbqkbnr/pppppppp/8/8/8/8/PPPPPPPP/RNBQKBNR w KQkq - 0 0"@)[31] == 'P');
    assert((r0 + fc)[32] == 'P' && ("rnbqkbnr/pppppppp/8/8/8/8/PPPPPPPP/RNBQKBNR w KQkq - 0 0"@)[32] == 'P');
    assert((r0 + fc)[33] == 'P' && ("rnbqkbnr/pppppppp/8/8/8/8/PPPPPPPP/RNBQKBNR w KQkq - 0 0"@)[33] == 'P');
    assert((r0 + fc)[34] == '/' && ("rnbqkbnr/pppppppp/8/8/8/8/PPPPPPPP/RNBQKBNR w KQkq - 0 0"@)[34] == '/');
    assert((r0 + fc)[35] == 'R' && ("rnbqkbnr/pppppppp/8/8/8/8/PPPPPPPP/RNBQKBNR w KQkq - 0 0"@)[35] == 'R');
    assert((r0 + fc)[36] == 'N' && ("rnbqkbnr/pppppppp/8/8/8/8/PPPPPPPP/RNBQKBNR w KQkq - 0 0"@)[36] == 'N');
    assert((r0 + fc)[37] == 'B' && ("rnbqkbnr/pppppppp/8/8/8/8/PPPPPPPP/RNBQKBNR w KQkq - 0 0"@)[37] == 'B');
    assert((r0 + fc)[38] == 'Q' && ("rnbqkbnr/pppppppp/8/8/8/8/PPPPPPPP/RNBQKBNR w KQkq - 0 0"@)[38] == 'Q');
    assert((r0 + fc)[39] == 'K' && ("rnbqkbnr/pppppppp/8/8/8/8/PPPPPPPP/RNBQKBNR w KQkq - 0 0"@)[39] == 'K');
    assert((r0 + fc)[40] == 'B' && ("rnbqkbnr/pppppppp/8/8/8/8/PPPPPPPP/RNBQKBNR w KQkq - 0 0"@)[40] == 'B');
    assert((r0 + fc)[41] == 'N' && ("rnbqkbnr/pppppppp/8/8/8/8/PPPPPPPP/RNBQKBNR w KQkq - 0 0"@)[41] == 'N');
    assert((r0 + fc)[42] == 'R' && ("rnbqkbnr/pppppppp/8/8/8/8/PPPPPPPP/RNBQKBNR w KQkq - 0 0"@)[42] == 'R');
    assert((r0 + fc)[43] == ' ' && ("rnbqkbnr/pppppppp/8/8/8/8/PPPPPPPP/RNBQKBNR w KQkq - 0 0"@)[43] == ' ');
    assert((r0 + fc)[44] == 'w' && ("rnbqkbnr/pppppppp/8/8/8/8/PPPPPPPP/RNBQKBNR w KQkq - 0 0"@)[44] == 'w');
    assert((r0 + fc)[45] == ' ' && ("rnbqkbnr/pppppppp/8/8/8/8/PPPPPPPP/RNBQKBNR w KQkq - 0 0"@)[45] == ' ');
    assert((r0 + fc)[46] == 'K' && ("rnbqkbnr/pppppppp/8/8/8/8/PPPPPPPP/RNBQKBNR w KQkq - 0 0"@)[46] == 'K');
    assert((r0 + fc)[47] == 'Q' && ("rnbqkbnr/pppppppp/8/8/8/8/PPPPPPPP/RNBQKBNR w KQkq - 0 0"@)[47] == 'Q');
    assert((r0 + fc)[48] == 'k' && ("rnbqkbnr/pppppppp/8/8/8/8/PPPPPPPP/RNBQKBNR w KQkq - 0 0"@)[48] == 'k');
    assert((r0 + fc)[49] == 'q' && ("rnbqkbnr/pppppppp/8/8/8/8/PPPPPPPP/RNBQKBNR w KQkq - 0 0"@)[49] == 'q');
    assert((r0 + fc)[50] == ' ' && ("rnbqkbnr/pppppppp/8/8/8/8/PPPPPPPP/RNBQKBNR w KQkq - 0 0"@)[50] == ' ');
    assert((r0 + fc)[51] == '-' && ("rnbqkbnr/pppppppp/8/8/8/8/PPPPPPPP/RNBQKBNR w KQkq - 0 0"@)[51] == '-');
    assert((r0 + fc)[52] == ' ' && ("rnbqkbnr/pppppppp/8/8/8/8/PPPPPPPP/RNBQKBNR w KQkq - 0 0"@)[52] == ' ');
    assert((r0 + fc)[53] == '0' && ("rnbqkbnr/pppppppp/8/8/8/8/PPPPPPPP/RNBQKBNR w KQkq - 0 0"@)[53] == '0');
    assert((r0 + fc)[54] == ' ' && ("rnbqkbnr/pppppppp/8/8/8/8/PPPPPPPP/RNBQKBNR w KQkq - 0 0"@)[54] == ' ');
    assert((r0 + fc)[55] == '0' && ("rnbqkbnr/pppppppp/8/8/8/8/PPPPPPPP/RNBQKBNR w KQkq - 0 0"@)[55] == '0');
    assert(r0 + fc =~= "rnbqkbnr/pppppppp/8/8/8/8/PPPPPPPP/RNBQKBNR w KQkq - 0 0"@);
}

#[verifier::rlimit(100)]
proof fn lemma_start_record_parses()
    ensures
        spec_parse_fen("rnbqkbnr/pppppppp/8/8/8/8/PPPPPPPP/RNBQKBNR w KQkq - 0 0"@) == Some(
            start_board(),
        ),
{
    lemma_fen_round_trip(start_board());
    lemma_start_encode_is_record();
}

impl Board {
    /// The standard starting position, decoded from its record.
    pub fn new() -> (r: Board)
        ensures
            r@ == start_board(),
    {
        let record = String::from_str("rnbqkbnr/pppppppp/8/8/8/8/PPPPPPPP/RNBQKBNR w KQkq - 0 0");
        proof {
            lemma_start_record_parses();
        }
        match Board::from_fen(record) {
            Ok(board) => board,
            Err(_) => Board {
                squares: [0;64],
                white_is_active: true,
                castle_white_king: true,
                castle_white_queen: true,
                castle_black_king: true,
                castle_black_queen: true,
                en_passant: None,
            },
        }
    }
}

} // verus!
