//! Piece encoding: a square holds a single byte that packs a piece kind
//! (low three bits) with a color bit (8 for white, 16 for black); 0 is the
//! empty square.

use vstd::prelude::*;

verus! {

pub const NONE: u8 = 0;
pub const KING: u8 = 1;
pub const PAWN: u8 = 2;
pub const KNIGHT: u8 = 3;
pub const BISHOP: u8 = 4;
pub const ROOK: u8 = 5;
pub const QUEEN: u8 = 6;

pub const WHITE: u8 = 8;
pub const BLACK: u8 = 16;

/// Operations every square byte supports, stated over the two spec views
/// `spec_kind` (the low three bits) and `spec_has_color`.
pub trait Piece {
    /// The kind bits of the piece, without its color.
    spec fn spec_kind(&self) -> u8;

    /// Whether the piece carries the given color bit.
    spec fn spec_has_color(&self, color: u8) -> bool;

    /// The single character this piece prints as in a position record.
    spec fn spec_notation(&self) -> char;

    fn is_color(&self, color: u8) -> (r: bool)
        ensures
            r == self.spec_has_color(color),
    ;

    fn is_piece(&self, kind: u8) -> (r: bool)
        ensures
            r == (self.spec_kind() == kind),
    ;

    fn notation(&self) -> (r: char)
        ensures
            r == self.spec_notation(),
    ;

    fn without_color(&self) -> (r: u8)
        ensures
            r == self.spec_kind(),
    ;

    fn is(&self, kind: u8, color: u8) -> (r: bool)
        ensures
            r == (self.spec_kind() == kind && self.spec_has_color(color)),
    ;

    fn is_king(&self) -> (r: bool)
        ensures
            r == (self.spec_kind() == KING),
    ;

    fn is_pawn(&self) -> (r: bool)
        ensures
            r == (self.spec_kind() == PAWN),
    ;

    fn is_knight(&self) -> (r: bool)
        ensures
            r == (self.spec_kind() == KNIGHT),
    ;

    fn is_bishop(&self) -> (r: bool)
        ensures
            r == (self.spec_kind() == BISHOP),
    ;

    fn is_rook(&self) -> (r: bool)
        ensures
            r == (self.spec_kind() == ROOK),
    ;

    fn is_queen(&self) -> (r: bool)
        ensures
            r == (self.spec_kind() == QUEEN),
    ;
}

/// The notation character for each piece byte: lower case for black, upper
/// case for white, '-' for a byte that encodes no piece kind.
pub open spec fn spec_piece_notation(p: u8) -> char {
    let low = if p & 7 == KING {
        'k'
    } else if p & 7 == QUEEN {
        'q'
    } else if p & 7 == KNIGHT {
        'n'
    } else if p & 7 == ROOK {
        'r'
    } else if p & 7 == PAWN {
        'p'
    } else if p & 7 == BISHOP {
        'b'
    } else {
        '-'
    };
    if p & WHITE > 0 {
        spec_to_upper(low)
    } else {
        low
    }
}

/// Upper-casing restricted to the seven notation characters.
pub open spec fn spec_to_upper(c: char) -> char {
    if c == 'k' {
        'K'
    } else if c == 'q' {
        'Q'
    } else if c == 'n' {
        'N'
    } else if c == 'r' {
        'R'
    } else if c == 'p' {
        'P'
    } else if c == 'b' {
        'B'
    } else {
        c
    }
}

impl Piece for u8 {
    open spec fn spec_kind(&self) -> u8 {
        *self & 7
    }

    open spec fn spec_has_color(&self, color: u8) -> bool {
        *self & color > 0
    }

    open spec fn spec_notation(&self) -> char {
        spec_piece_notation(*self)
    }

    fn is_color(&self, color: u8) -> (r: bool) {
        (*self & color) > 0
    }

    fn is_piece(&self, kind: u8) -> (r: bool) {
        (*self & 0b00000111) == kind
    }

    fn notation(&self) -> (r: char) {
        let mut result = '-';
        if self.is_king() {
            result = 'k';
        }
        if self.is_queen() {
            result = 'q';
        }
        if self.is_knight() {
            result = 'n';
        }
        if self.is_rook() {
            result = 'r';
        }
        if self.is_pawn() {
            result = 'p';
        }
        if self.is_bishop() {
            result = 'b';
        }
        if self.is_color(WHITE) {
            match result {
                'k' => 'K',
                'q' => 'Q',
                'n' => 'N',
                'r' => 'R',
                'p' => 'P',
                'b' => 'B',
                other => other,
            }
        } else {
            result
        }
    }

    fn without_color(&self) -> (r: u8) {
        *self & 0b00000111
    }

    fn is(&self, kind: u8, color: u8) -> (r: bool) {
        self.is_color(color) && self.is_piece(kind)
    }

    fn is_king(&self) -> (r: bool) {
        self.is_piece(KING)
    }

    fn is_pawn(&self) -> (r: bool) {
        self.is_piece(PAWN)
    }

    fn is_knight(&self) -> (r: bool) {
        self.is_piece(KNIGHT)
    }

    fn is_bishop(&self) -> (r: bool) {
        self.is_piece(BISHOP)
    }

    fn is_rook(&self) -> (r: bool) {
        self.is_piece(ROOK)
    }

    fn is_queen(&self) -> (r: bool) {
        self.is_piece(QUEEN)
    }
}

/// Packs a piece kind together with a color bit.
pub fn new(kind: u8, color: u8) -> (r: u8)
    ensures
        r == kind | color,
{
    kind | color
}

pub fn pawn(color: u8) -> (r: u8)
    ensures
        r == PAWN | color,
{
    new(PAWN, color)
}

pub fn rook(color: u8) -> (r: u8)
    ensures
        r == ROOK | color,
{
    new(ROOK, color)
}

pub fn knight(color: u8) -> (r: u8)
    ensures
        r == KNIGHT | color,
{
    new(KNIGHT, color)
}

pub fn bishop(color: u8) -> (r: u8)
    ensures
        r == BISHOP | color,
{
    new(BISHOP, color)
}

pub fn quieen(color: u8) -> (r: u8)
    ensures
        r == QUEEN | color,
{
    new(QUEEN, color)
}

pub fn king(color: u8) -> (r: u8)
    ensures
        r == KING | color,
{
    new(KING, color)
}

} // verus!
