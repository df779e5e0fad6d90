//! The board model: colours, pieces, tiles and the 8x8 board with its
//! cached king squares.

use vstd::prelude::*;

verus! {

/// A square of the board as `(row, column)`. Row 0 is the eighth rank
/// (Black's back rank), row 7 the first rank; column 0 is the a-file.
pub type Square = (usize, usize);

/// The colour of a side, of a piece or of the background of a tile.
#[derive(Copy, Clone, PartialEq, Eq, Structural, Debug)]
pub enum Colour {
    White,
    Black,
}

/// The kind of piece on a tile. Pawns, rooks and kings carry a flag that is
/// `true` once the piece has moved.
#[derive(Copy, Clone, PartialEq, Eq, Structural, Debug)]
pub enum Type {
    Empty,
    Pawn(bool),
    Rook(bool),
    Knight,
    Bishop,
    Queen,
    King(bool),
}

/// A piece: its kind and its colour. A piece of kind `Empty` stands for no
/// piece; its colour plays no part in the rules.
#[derive(Copy, Clone, PartialEq, Eq, Structural, Debug)]
pub struct Piece {
    pub piece_type: Type,
    pub colour: Colour,
}

/// A tile has a cosmetic background colour and holds a piece, which may be
/// of type `Empty`.
#[derive(Copy, Clone, PartialEq, Eq, Structural, Debug)]
pub struct Tile {
    pub piece: Piece,
    pub colour: Colour,
}

/// The 8x8 grid of tiles with the cached squares of the two kings.
#[derive(Copy, Clone, PartialEq, Eq, Debug)]
pub struct Board {
    pub tiles: [[Tile; 8]; 8],
    pub kingpos_w: Square,
    pub kingpos_b: Square,
}

/// Why a move is turned down.
#[derive(Copy, Clone, PartialEq, Eq, Structural, Debug)]
pub enum Error {
    Length,
    Empty,
    IllegalMove,
    OutOfBounds,
    EnemyMove,
    TeamDmg,
    Check,
}

/// Whether `(row, col)` lies on the board.
pub open spec fn on_board(row: int, col: int) -> bool {
    0 <= row < 8 && 0 <= col < 8
}

/// The colour that moves when `is_white` is set, and the other one otherwise.
pub open spec fn side_colour(is_white: bool) -> Colour {
    if is_white {
        Colour::White
    } else {
        Colour::Black
    }
}

/// The background of a tile: dark where row and column have the same parity.
pub open spec fn tile_colour(row: int, col: int) -> Colour {
    if (row + col) % 2 == 0 {
        Colour::Black
    } else {
        Colour::White
    }
}

/// The piece kind that starts on column `col` of either back rank.
pub open spec fn back_rank_type(col: int) -> Type {
    if col == 0 || col == 7 {
        Type::Rook(false)
    } else if col == 1 || col == 6 {
        Type::Knight
    } else if col == 2 || col == 5 {
        Type::Bishop
    } else if col == 3 {
        Type::Queen
    } else {
        Type::King(false)
    }
}

/// The piece that stands on `(row, col)` when a game begins. Black fills
/// rows 0 and 1, White rows 6 and 7; an empty tile holds an `Empty` piece
/// coloured white.
pub open spec fn initial_piece(row: int, col: int) -> Piece {
    if row == 0 {
        Piece { piece_type: back_rank_type(col), colour: Colour::Black }
    } else if row == 1 {
        Piece { piece_type: Type::Pawn(false), colour: Colour::Black }
    } else if row == 6 {
        Piece { piece_type: Type::Pawn(false), colour: Colour::White }
    } else if row == 7 {
        Piece { piece_type: back_rank_type(col), colour: Colour::White }
    } else {
        Piece { piece_type: Type::Empty, colour: Colour::White }
    }
}

impl Colour {
    /// The other colour.
    pub open spec fn other(self) -> Colour {
        match self {
            Colour::White => Colour::Black,
            Colour::Black => Colour::White,
        }
    }
}

impl Type {
    /// The same kind of piece with its has-moved flag set. Kinds without a
    /// flag are unchanged.
    pub open spec fn moved(self) -> Type {
        match self {
            Type::Pawn(_) => Type::Pawn(true),
            Type::Rook(_) => Type::Rook(true),
            Type::King(_) => Type::King(true),
            other => other,
        }
    }
}

impl Board {
    /// The cached king squares lie on the board.
    pub open spec fn wf(self) -> bool {
        &&& on_board(self.kingpos_w.0 as int, self.kingpos_w.1 as int)
        &&& on_board(self.kingpos_b.0 as int, self.kingpos_b.1 as int)
    }

    /// The piece on `(row, col)`.
    pub open spec fn piece_at(self, row: int, col: int) -> Piece {
        self.tiles[row][col].piece
    }

    /// Whether `(row, col)` holds no piece.
    pub open spec fn vacant(self, row: int, col: int) -> bool {
        self.tiles[row][col].piece.piece_type == Type::Empty
    }

    /// The cached square of the king of the given side.
    pub open spec fn king_square(self, is_white: bool) -> Square {
        if is_white {
            self.kingpos_w
        } else {
            self.kingpos_b
        }
    }

    /// Each cached king square holds a king of its colour.
    pub open spec fn kings_in_sync(self) -> bool {
        &&& self.wf()
        &&& self.piece_at(self.kingpos_w.0 as int, self.kingpos_w.1 as int).piece_type is King
        &&& self.piece_at(self.kingpos_w.0 as int, self.kingpos_w.1 as int).colour
            == Colour::White
        &&& self.piece_at(self.kingpos_b.0 as int, self.kingpos_b.1 as int).piece_type is King
        &&& self.piece_at(self.kingpos_b.0 as int, self.kingpos_b.1 as int).colour
            == Colour::Black
    }

    /// The position from which a game starts.
    pub open spec fn is_initial(self) -> bool {
        &&& forall|row: int, col: int|
            on_board(row, col) ==> #[trigger] self.tiles[row][col] == (Tile {
                piece: initial_piece(row, col),
                colour: tile_colour(row, col),
            })
        &&& self.kingpos_w == (7usize, 4usize)
        &&& self.kingpos_b == (0usize, 4usize)
    }

    /// One row of the starting position.
    fn starting_row(row: usize) -> (tiles: [Tile; 8])
        requires
            row < 8,
        ensures
            forall|col: int|
                0 <= col < 8 ==> #[trigger] tiles[col] == (Tile {
                    piece: initial_piece(row as int, col),
                    colour: tile_colour(row as int, col),
                }),
    {
        let blank = Tile {
            piece: Piece { piece_type: Type::Empty, colour: Colour::White },
            colour: Colour::White,
        };
        let mut tiles = [blank;8];
        let mut col: usize = 0;
        while col < 8
            invariant
                row < 8,
                col <= 8,
                forall|k: int|
                    0 <= k < col ==> #[trigger] tiles[k] == (Tile {
                        piece: initial_piece(row as int, k),
                        colour: tile_colour(row as int, k),
                    }),
            decreases 8 - col,
        {
            let colour = if (row + col) % 2 == 0 {
                Colour::Black
            } else {
                Colour::White
            };
            let officer = if col == 0 || col == 7 {
                Type::Rook(false)
            } else if col == 1 || col == 6 {
                Type::Knight
            } else if col == 2 || col == 5 {
                Type::Bishop
            } else if col == 3 {
                Type::Queen
            } else {
                Type::King(false)
            };
            let piece = if row == 0 {
                Piece { piece_type: officer, colour: Colour::Black }
            } else if row == 1 {
                Piece { piece_type: Type::Pawn(false), colour: Colour::Black }
            } else if row == 6 {
                Piece { piece_type: Type::Pawn(false), colour: Colour::White }
            } else if row == 7 {
                Piece { piece_type: officer, colour: Colour::White }
            } else {
                Piece { piece_type: Type::Empty, colour: Colour::White }
            };
            tiles[col] = Tile { piece, colour };
            col += 1;
        }
        tiles
    }

    /// The board at the start of a game.
    pub fn new() -> (board: Self)
        ensures
            board.is_initial(),
            board.wf(),
            board.kings_in_sync(),
    {
        let blank = Tile {
            piece: Piece { piece_type: Type::Empty, colour: Colour::White },
            colour: Colour::White,
        };
        let mut tiles = [[blank;8];8];
        let mut row: usize = 0;
        while row < 8
            invariant
                row <= 8,
                forall|r: int, c: int|
                    0 <= r < row && 0 <= c < 8 ==> #[trigger] tiles[r][c] == (Tile {
                        piece: initial_piece(r, c),
                        colour: tile_colour(r, c),
                    }),
            decreases 8 - row,
        {
            tiles[row] = Self::starting_row(row);
            row += 1;
        }
        Board { tiles, kingpos_w: (7, 4), kingpos_b: (0, 4) }
    }
}

/// The name of a colour.
pub open spec fn colour_name(colour: Colour) -> Seq<char> {
    match colour {
        Colour::White => "White"@,
        Colour::Black => "Black"@,
    }
}

/// The name of a kind of piece.
pub open spec fn kind_name(kind: Type) -> Seq<char> {
    match kind {
        Type::Empty => "Empty"@,
        Type::Pawn(_) => "Pawn"@,
        Type::Rook(_) => "Rook"@,
        Type::Knight => "Knight"@,
        Type::Bishop => "Bishop"@,
        Type::Queen => "Queen"@,
        Type::King(_) => "King"@,
    }
}

impl Colour {
    /// The name of the colour.
    pub fn ctos(&self) -> (name: &'static str)
        ensures
            name@ == colour_name(*self),
    {
        match self {
            Colour::White => "White",
            Colour::Black => "Black",
        }
    }
}

impl Type {
    /// The name of the kind of piece.
    pub fn ttos(&self) -> (name: &'static str)
        ensures
            name@ == kind_name(*self),
    {
        match self {
            Type::Empty => "Empty",
            Type::Pawn(_) => "Pawn",
            Type::Rook(_) => "Rook",
            Type::Knight => "Knight",
            Type::Bishop => "Bishop",
            Type::Queen => "Queen",
            Type::King(_) => "King",
        }
    }
}

} // verus!
