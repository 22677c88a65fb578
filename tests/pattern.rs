use std::convert::TryFrom;

use stackboard::{
    AdjacentColors, AdjacentT2, Board, Color, Corner, Diagonal, DiagonalStacks, Error, Line, Mask,
    MaskSet, Pattern, Position, Square, Stack, Surround, Tier,
};

fn mask(cells: &[Position]) -> Mask {
    let mut m = Mask::new();
    for p in cells {
        m.insert(*p);
    }
    m
}

fn masks(list: &[&[Position]]) -> MaskSet {
    let mut set = MaskSet::new();
    for cells in list {
        set.insert(mask(cells));
    }
    set
}

#[test]
fn color_fit() -> Result<(), Error> {
    let board = Board::try_from("r3i2 r1i3 g2j4 y1j1 r4k1")?;
    assert_eq!(Color::Red.fit(&board), masks(&[
        &[Position::i2],
        &[Position::i3],
        &[Position::k1],
    ]));
    assert_eq!(Color::Green.fit(&board), masks(&[
        &[Position::j4],
    ]));
    assert_eq!(Color::Yellow.fit(&board), masks(&[
        &[Position::j1],
    ]));
    assert_eq!(Color::Blue.fit(&board).len(), 0);
    Ok(())
}

#[test]
fn tier_fit() -> Result<(), Error> {
    let board = Board::try_from("r3i2 r1i3 g2j4 y1j1 r4k1")?;
    assert_eq!(Tier::First.fit(&board), masks(&[
        &[Position::i3],
        &[Position::j1],
    ]));
    assert_eq!(Tier::Second.fit(&board), masks(&[
        &[Position::j4],
    ]));
    assert_eq!(Tier::Third.fit(&board), masks(&[
        &[Position::i2],
    ]));
    assert_eq!(Tier::Fourth.fit(&board), masks(&[
        &[Position::k1],
    ]));
    Ok(())
}

#[test]
fn stack_fit() -> Result<(), Error> {
    let board = Board::try_from("g2j2 g2k3 y3i1 r1i2 g2k4 y3k2")?;
    assert_eq!(Stack::try_from("g2")?.fit(&board), masks(&[
        &[Position::j2],
        &[Position::k3],
        &[Position::k4],
    ]));
    assert_eq!(Stack::try_from("y3")?.fit(&board), masks(&[
        &[Position::i1],
        &[Position::k2],
    ]));
    assert_eq!(Stack::try_from("r1")?.fit(&board), masks(&[
        &[Position::i2],
    ]));
    assert_eq!(Stack::try_from("b2")?.fit(&board).len(), 0);
    Ok(())
}

#[test]
fn adjacent_colors_fit() -> Result<(), Error> {
    //    g1 y1 y2
    // r2 b3
    // b2 g4 b3 r2
    // g1 b3 y2
    let board = Board::try_from("g1i1 b2i2 r2i3 b3j1 g4j2 b3j3 g1j4 y2k1 b3k2 y1k4 r2l2 y2l4")?;
    let gb = AdjacentColors(Color::Green, Color::Blue);
    assert_eq!(gb.fit(&board), masks(&[
        &[Position::i1, Position::j1],
        &[Position::i1, Position::i2],
        &[Position::i2, Position::j2],
        &[Position::j1, Position::j2],
        &[Position::j2, Position::k2],
        &[Position::j2, Position::j3],
        &[Position::j3, Position::j4],
    ]));
    Ok(())
}

#[test]
fn diagonal_fit() -> Result<(), Error> {
    //    g1 r1
    // r2 r3    b1
    // r2 r4 b3
    //    b3 r2 b2
    let board = Board::try_from("r2i2 r2i3 b3j1 r4j2 r3j3 g1j4 r2k1 b3k2 r1k4 b2l1 b1l3")?;
    let rdiag = Diagonal(Color::Red);
    assert_eq!(rdiag.fit(&board), masks(&[
        &[Position::i2, Position::j3, Position::k4],
        &[Position::i3, Position::j2, Position::k1],
    ]));
    let bdiag = Diagonal(Color::Blue);
    assert_eq!(bdiag.fit(&board), masks(&[
        &[Position::j1, Position::k2, Position::l3],
    ]));
    let ydiag = Diagonal(Color::Yellow);
    assert_eq!(ydiag.fit(&board).len(), 0);
    Ok(())
}

#[test]
fn line_fit() -> Result<(), Error> {
    // b1 g1 r1
    // r2 r3 r1
    // r2 r4 r3
    //    b3 r2 b2
    let board = Board::try_from("r2i2 r2i3 b1i4 b3j1 r4j2 r3j3 g1j4 r2k1 r3k2 r1k3 r1k4 b2l1")?;
    assert_eq!(Line(Color::Red).fit(&board), masks(&[
        &[Position::i2, Position::j2, Position::k2],
        &[Position::i3, Position::j3, Position::k3],
        &[Position::k1, Position::k2, Position::k3],
        &[Position::k2, Position::k3, Position::k4],
    ]));
    assert_eq!(Line(Color::Green).fit(&board).len(), 0);
    assert_eq!(Line(Color::Blue).fit(&board).len(), 0);
    assert_eq!(Line(Color::Yellow).fit(&board).len(), 0);
    Ok(())
}

#[test]
fn corner_fit() -> Result<(), Error> {
    // r1 g1 r1
    // r2 r3 r1
    // r2 r4 b3
    //    b3 b2 b2
    let board = Board::try_from("r2i2 r2i3 r1i4 b3j1 r4j2 r3j3 g1j4 b2k1 b3k2 r1k3 r1k4 b2l1")?;
    assert_eq!(Corner(Color::Red).fit(&board), masks(&[
        &[Position::i2, Position::i3, Position::j2],
        &[Position::i3, Position::i4, Position::j3],
        &[Position::i3, Position::i2, Position::j3],
        &[Position::j2, Position::i2, Position::j3],
        &[Position::j3, Position::j2, Position::i3],
        &[Position::j3, Position::k3, Position::j2],
        &[Position::k3, Position::j3, Position::k4],
    ]));
    assert_eq!(Corner(Color::Blue).fit(&board), masks(&[
        &[Position::j1, Position::k1, Position::k2],
        &[Position::k1, Position::k2, Position::l1],
    ]));
    assert_eq!(Corner(Color::Green).fit(&board).len(), 0);
    assert_eq!(Corner(Color::Yellow).fit(&board).len(), 0);
    Ok(())
}

#[test]
fn square_fit() -> Result<(), Error> {
    // r1 r1 r1 r3
    // r2 r3 r1 y4
    // r2 b4 b3
    //    b3 b2 b2
    let board = Board::try_from("r2i2 r2i3 r1i4 b3j1 b4j2 r3j3 r1j4 b2k1 b3k2 r1k3 r1k4 b2l1 y4l3 r3l4")?;
    assert_eq!(Square(Color::Red).fit(&board), masks(&[
        &[Position::i3, Position::i4, Position::j3, Position::j4],
        &[Position::j3, Position::j4, Position::k3, Position::k4],
    ]));
    assert_eq!(Square(Color::Blue).fit(&board), masks(&[
        &[Position::j1, Position::j2, Position::k1, Position::k2],
    ]));
    assert_eq!(Square(Color::Green).fit(&board).len(), 0);
    assert_eq!(Square(Color::Yellow).fit(&board).len(), 0);
    Ok(())
}

#[test]
fn adjacent_t2_fit() -> Result<(), Error> {
    // r1 r2 r1 r3
    // r2 r2 r1 y4
    // r2 b4 b3
    //    b3 b2 b2
    let board = Board::try_from("r2i2 r2i3 r1i4 b3j1 b4j2 r2j3 r2j4 b2k1 b3k2 r1k3 r1k4 b2l1 y4l3 r3l4")?;
    assert_eq!(AdjacentT2(Color::Red).fit(&board), masks(&[
        &[Position::i2, Position::i3],
        &[Position::i3, Position::j3],
        &[Position::j3, Position::j4],
    ]));
    assert_eq!(AdjacentT2(Color::Blue).fit(&board), masks(&[
        &[Position::l1, Position::k1],
    ]));
    assert_eq!(AdjacentT2(Color::Green).fit(&board).len(), 0);
    assert_eq!(AdjacentT2(Color::Yellow).fit(&board).len(), 0);
    Ok(())
}

#[test]
fn diagonal_stacks_fit() -> Result<(), Error> {
    // r2 r2 r1 r3
    // g2 g2 r1 y4
    // g2 b4 g3
    //    r3 b2 b2
    let board = Board::try_from("g2i2 g2i3 r2i4 r3j1 b4j2 g2j3 r2j4 b2k1 g3k2 r1k3 r1k4 b2l1 y4l3 r3l4")?;
    let red_green_set = masks(&[
        &[Position::i2, Position::j1],
        &[Position::i3, Position::j4],
        &[Position::i4, Position::j3],
        &[Position::j1, Position::k2],
    ]);
    assert_eq!(DiagonalStacks(Color::Red, Color::Green).fit(&board), red_green_set);
    assert_eq!(DiagonalStacks(Color::Green, Color::Red).fit(&board), red_green_set);
    assert_eq!(DiagonalStacks(Color::Blue, Color::Green).fit(&board), masks(&[
        &[Position::i3, Position::j2],
        &[Position::k2, Position::l1],
    ]));
    assert_eq!(DiagonalStacks(Color::Yellow, Color::Green).fit(&board), masks(&[
        &[Position::k2, Position::l3],
    ]));
    assert_eq!(DiagonalStacks(Color::Yellow, Color::Red).fit(&board).len(), 0);
    Ok(())
}

#[test]
fn surround_fit() -> Result<(), Error> {
    // r2 r2 r1 r3
    // g2 g2 r1 y4
    // g2 b4 g3
    // y4 r3 b2 y3
    let board = Board::try_from("y4i1 g2i2 g2i3 r2i4 r3j1 b4j2 g2j3 r2j4 b2k1 g3k2 r1k3 r1k4 y3l1 y4l3 r3l4")?;
    assert_eq!(Surround(Color::Red, Color::Green).fit(&board), masks(&[
        &[Position::i2, Position::k2],
    ]));
    assert_eq!(Surround(Color::Green, Color::Red).fit(&board), masks(&[
        &[Position::j1, Position::k3],
    ]));
    assert_eq!(Surround(Color::Yellow, Color::Red).fit(&board), masks(&[
        &[Position::j1],
        &[Position::k3, Position::k4, Position::l4],
    ]));
    Ok(())
}
