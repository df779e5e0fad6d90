use c_chess::types::{Board, Colour, Piece, Tile, Type};

#[test]
fn new_board_has_the_starting_position() {
    let board = Board::new();
    let officers = [
        Type::Rook(false),
        Type::Knight,
        Type::Bishop,
        Type::Queen,
        Type::King(false),
        Type::Bishop,
        Type::Knight,
        Type::Rook(false),
    ];
    for col in 0..8 {
        assert_eq!(
            board.tiles[0][col].piece,
            Piece { piece_type: officers[col], colour: Colour::Black }
        );
        assert_eq!(
            board.tiles[1][col].piece,
            Piece { piece_type: Type::Pawn(false), colour: Colour::Black }
        );
        assert_eq!(
            board.tiles[6][col].piece,
            Piece { piece_type: Type::Pawn(false), colour: Colour::White }
        );
        assert_eq!(
            board.tiles[7][col].piece,
            Piece { piece_type: officers[col], colour: Colour::White }
        );
        for row in 2..6 {
            assert_eq!(
                board.tiles[row][col].piece,
                Piece { piece_type: Type::Empty, colour: Colour::White }
            );
        }
    }
    assert_eq!(board.kingpos_w, (7, 4));
    assert_eq!(board.kingpos_b, (0, 4));
}

#[test]
fn new_board_alternates_tile_colours() {
    let board = Board::new();
    for row in 0..8 {
        for col in 0..8 {
            let expected = if (row + col) % 2 == 0 { Colour::Black } else { Colour::White };
            assert_eq!(board.tiles[row][col].colour, expected);
        }
    }
    assert_eq!(board.tiles[0][0].colour, Colour::Black);
    assert_eq!(board.tiles[7][0].colour, Colour::White);
}

#[test]
fn boards_are_plain_values() {
    let board = Board::new();
    let mut copy = board;
    copy.tiles[4][4] = Tile {
        piece: Piece { piece_type: Type::Queen, colour: Colour::Black },
        colour: Colour::Black,
    };
    assert_ne!(copy, board);
    assert_eq!(board, Board::new());
}

#[test]
fn colours_and_kinds_have_names() {
    assert_eq!(Colour::White.ctos(), "White");
    assert_eq!(Colour::Black.ctos(), "Black");
    assert_eq!(Type::Empty.ttos(), "Empty");
    assert_eq!(Type::Pawn(true).ttos(), "Pawn");
    assert_eq!(Type::Rook(false).ttos(), "Rook");
    assert_eq!(Type::Knight.ttos(), "Knight");
    assert_eq!(Type::Bishop.ttos(), "Bishop");
    assert_eq!(Type::Queen.ttos(), "Queen");
    assert_eq!(Type::King(false).ttos(), "King");
}
