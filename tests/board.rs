use std::convert::TryFrom;

use stackboard::{Board, Error, Position};

#[test]
fn position_notation() -> Result<(), Error> {
    Position::try_from("i1")?;
    Position::try_from("i2")?;
    Position::try_from("i3")?;
    Position::try_from("i4")?;
    Position::try_from("j1")?;
    Position::try_from("j2")?;
    Position::try_from("j3")?;
    Position::try_from("j4")?;
    Position::try_from("k1")?;
    Position::try_from("k2")?;
    Position::try_from("k3")?;
    Position::try_from("k4")?;
    Position::try_from("l1")?;
    Position::try_from("l2")?;
    Position::try_from("l3")?;
    Position::try_from("l4")?;
    assert!(Position::try_from("r3").is_err());
    assert!(Position::try_from("I2").is_err());
    assert!(Position::try_from("dafd").is_err());
    assert!(Position::try_from("x").is_err());
    Ok(())
}

#[test]
fn position_coords() -> Result<(), Error> {
    assert_eq!(Position::from_coords(1, 1)?, Position::i1);
    assert_eq!(Position::from_coords(2, 1)?, Position::j1);
    assert_eq!(Position::from_coords(3, 1)?, Position::k1);
    assert_eq!(Position::from_coords(4, 1)?, Position::l1);
    assert_eq!(Position::from_coords(2, 2)?, Position::j2);
    assert_eq!(Position::from_coords(2, 3)?, Position::j3);
    assert_eq!(Position::from_coords(2, 4)?, Position::j4);
    assert!(Position::from_coords(5, 1).is_err());
    assert!(Position::from_coords(1, 0).is_err());
    assert_eq!(Position::k2.up(), Some(Position::k3));
    assert_eq!(Position::k4.up(), None);
    assert_eq!(Position::k2.down(), Some(Position::k1));
    assert_eq!(Position::k1.down(), None);
    assert_eq!(Position::k2.left(), Some(Position::j2));
    assert_eq!(Position::i2.left(), None);
    assert_eq!(Position::k2.right(), Some(Position::l2));
    assert_eq!(Position::l4.right(), None);
    assert_eq!(Position::k2.upleft(), Some(Position::j3));
    assert_eq!(Position::i3.upleft(), None);
    assert_eq!(Position::k2.downleft(), Some(Position::j1));
    assert_eq!(Position::l1.downleft(), None);
    assert_eq!(Position::k2.upright(), Some(Position::l3));
    assert_eq!(Position::l3.upright(), None);
    assert_eq!(Position::k2.downright(), Some(Position::l1));
    assert_eq!(Position::j1.downright(), None);
    Ok(())
}

#[test]
fn board_interpret() -> Result<(), Error> {
    Board::interpret("r3i1")?;
    Board::interpret("y4k3")?;
    Board::interpret("r3i1")?;
    assert!(Board::interpret("r3i1 ").is_err());
    assert!(Board::interpret("x").is_err());
    Ok(())
}

#[test]
fn board_notation() -> Result<(), Error> {
    Board::try_from("r3i1")?;
    Board::try_from("r3i1 y4k3")?;
    assert!(Board::try_from("r3i1 r3i1").is_err());
    assert!(Board::try_from("r3i1 y4k3 ").is_err());
    Ok(())
}

#[test]
fn board_place() -> Result<(), Error> {
    let mut board = Board::try_from("r1j3 g1k4 b1j2 y1k2")?;
    board.play("y1l4")?;
    board.play("r2j3")?;
    board.play("r3j3")?;
    board.play("b4j3")?;
    assert!(board.play("g3l4").is_err());
    Ok(())
}
