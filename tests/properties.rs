use std::convert::TryFrom;

use stackboard::{
    AdjacentColors, AdjacentT2, Board, Color, Corner, Diagonal, DiagonalStacks, Error, Line, Mask,
    MaskSet, Orientations, Pattern, Position, Square, Stack, Surround, Tier,
};

fn mask(cells: &[Position]) -> Mask {
    let mut m = Mask::new();
    for p in cells {
        m.insert(*p);
    }
    m
}

fn masks(list: &[&[Position]]) -> MaskSet {
    let mut set = MaskSet::new();
    for cells in list {
        set.insert(mask(cells));
    }
    set
}

fn all_positions() -> Vec<Position> {
    (0..16).map(Position::from_index).collect()
}

#[test]
fn label_round_trip_for_every_cell() {
    for p in all_positions() {
        let label = format!("{:?}", p);
        assert_eq!(Position::try_from(label.as_str()), Ok(p));
        let (x, y) = p.to_coords();
        assert_eq!(Position::from_coords(x, y), Ok(p));
    }
}

#[test]
fn out_of_bounds_coordinates() {
    assert_eq!(Position::from_coords(0, 1), Err(Error::OutOfBounds));
    assert_eq!(Position::from_coords(4, 5), Err(Error::OutOfBounds));
    assert_eq!(Position::from_coords(255, 255), Err(Error::OutOfBounds));
}

#[test]
fn neighbours_missing_exactly_at_edges() {
    for p in all_positions() {
        let (x, y) = p.to_coords();
        assert_eq!(p.up().is_none(), y == 4);
        assert_eq!(p.down().is_none(), y == 1);
        assert_eq!(p.left().is_none(), x == 1);
        assert_eq!(p.right().is_none(), x == 4);
        assert_eq!(p.upleft().is_none(), x == 1 || y == 4);
        assert_eq!(p.downleft().is_none(), x == 1 || y == 1);
        assert_eq!(p.upright().is_none(), x == 4 || y == 4);
        assert_eq!(p.downright().is_none(), x == 4 || y == 1);
    }
    assert_eq!(Position::i1.upright(), Some(Position::j2));
    assert_eq!(Position::l4.downleft(), Some(Position::k3));
}

#[test]
fn stacking_rule_on_every_cell() {
    for p in all_positions() {
        let mut board = Board::new();
        let second = Stack { color: Color::Blue, tier: Tier::Second };
        assert_eq!(board.place(p, second), Err(Error::IllegalMove));
        assert_eq!(board.get(&p), None);
        assert_eq!(board.place(p, Stack { color: Color::Red, tier: Tier::First }), Ok(()));
        assert_eq!(board.place(p, second), Ok(()));
        assert_eq!(board.get(&p), Some(&second));
        assert_eq!(board.place(p, Stack { color: Color::Green, tier: Tier::Second }), Err(Error::IllegalMove));
        assert_eq!(board.get(&p), Some(&second));
    }
}

#[test]
fn play_reports_bad_notation_and_illegal_moves() {
    let mut board = Board::new();
    assert_eq!(board.play("r1"), Err(Error::InvalidNotation));
    assert_eq!(board.play("r2i1"), Err(Error::IllegalMove));
    assert_eq!(board.play("r1i1"), Ok(()));
    assert_eq!(board.get(&Position::i1), Some(&Stack { color: Color::Red, tier: Tier::First }));
    assert_eq!(board.play("g5i1"), Err(Error::InvalidNotation));
}

#[test]
fn interpret_gives_cell_and_stack() {
    assert_eq!(
        Board::interpret("y4k3"),
        Ok((Position::k3, Stack { color: Color::Yellow, tier: Tier::Fourth }))
    );
    assert_eq!(Board::interpret("k3y4"), Err(Error::InvalidNotation));
    assert_eq!(Board::interpret("é3i1"), Err(Error::InvalidNotation));
}

#[test]
fn batch_rejects_shared_cell_whatever_the_tiers() {
    assert!(Board::try_from("r1i1 g2i1").is_err());
    assert!(Board::try_from("r4k2 b1j1 y3k2").is_err());
    let placements = [
        (Position::i1, Stack { color: Color::Red, tier: Tier::First }),
        (Position::i1, Stack { color: Color::Green, tier: Tier::Second }),
    ];
    assert_eq!(Board::from_batch(&placements).err(), Some(Error::InvalidNotation));
}

#[test]
fn batch_loads_without_stacking_rule() -> Result<(), Error> {
    let board = Board::try_from("r4k2 b3j1")?;
    assert_eq!(board.get(&Position::k2), Some(&Stack { color: Color::Red, tier: Tier::Fourth }));
    assert_eq!(board.get(&Position::j1), Some(&Stack { color: Color::Blue, tier: Tier::Third }));
    assert_eq!(board.get(&Position::i1), None);
    assert!(Board::try_from("").is_err());
    assert!(Board::try_from("r4k2  b3j1").is_err());
    assert!(Board::try_from(" r4k2").is_err());
    Ok(())
}

#[test]
fn color_fit_on_sample_board() -> Result<(), Error> {
    let board = Board::try_from("r3i2 r1i3 g2j4 y1j1 r4k1")?;
    let red = Color::Red.fit(&board);
    assert_eq!(red, masks(&[&[Position::i2], &[Position::i3], &[Position::k1]]));
    assert_eq!(red.len(), 3);
    Ok(())
}

#[test]
fn line_masks_touch_only_the_colour() -> Result<(), Error> {
    let board = Board::try_from("r1i2 r1j2 r1k2 g1l2 r1l3 b1i1")?;
    let found = Line(Color::Red).fit(&board);
    assert!(found.contains(&mask(&[Position::i2, Position::j2, Position::k2])));
    assert!(!found.contains(&mask(&[Position::j2, Position::k2, Position::l2])));
    assert_eq!(found, masks(&[&[Position::i2, Position::j2, Position::k2]]));
    Ok(())
}

#[test]
fn adjacent_colors_symmetric() -> Result<(), Error> {
    let board = Board::try_from("g1i1 b2i2 r2i3 b3j1 g4j2 b3j3 g1j4 y2k1 b3k2 y1k4 r2l2 y2l4")?;
    let gb = AdjacentColors(Color::Green, Color::Blue).fit(&board);
    let bg = AdjacentColors(Color::Blue, Color::Green).fit(&board);
    assert_eq!(gb, bg);
    assert_eq!(gb.len(), 7);
    Ok(())
}

#[test]
fn surround_without_neighbours_is_empty() -> Result<(), Error> {
    let board = Board::try_from("r2j2 g1l4 r1l1 g1l2")?;
    let found = Surround(Color::Red, Color::Green).fit(&board);
    assert!(found.is_empty());
    assert_eq!(found.len(), 0);
    assert_eq!(Surround(Color::Red, Color::Green).fit_at(&Position::j2, &board), None);
    Ok(())
}

#[test]
fn surround_keeps_only_matching_neighbours() -> Result<(), Error> {
    let board = Board::try_from("r3j2 g1i1 b1i2 g2k3 y1k1 r3l4 g1l3")?;
    let found = Surround(Color::Red, Color::Green).fit(&board);
    assert_eq!(
        found,
        masks(&[&[Position::i1, Position::k3], &[Position::k3, Position::l3]])
    );
    Ok(())
}

#[test]
fn fit_twice_gives_the_same_set() -> Result<(), Error> {
    let board = Board::try_from("r2i2 r2i3 r1i4 b3j1 r4j2 r3j3 g1j4 b2k1 b3k2 r1k3 r1k4 b2l1")?;
    assert_eq!(Corner(Color::Red).fit(&board), Corner(Color::Red).fit(&board));
    assert_eq!(Square(Color::Blue).fit(&board), Square(Color::Blue).fit(&board));
    assert_eq!(Diagonal(Color::Red).fit(&board), Diagonal(Color::Red).fit(&board));
    assert_eq!(AdjacentT2(Color::Red).fit(&board), AdjacentT2(Color::Red).fit(&board));
    assert_eq!(
        DiagonalStacks(Color::Red, Color::Blue).fit(&board),
        DiagonalStacks(Color::Red, Color::Blue).fit(&board)
    );
    assert_eq!(Tier::Third.fit(&board), Tier::Third.fit(&board));
    Ok(())
}

#[test]
fn fit_at_orientations() -> Result<(), Error> {
    let board = Board::try_from("r1i1 r1j1 r1k1 r1i2 r1i3")?;
    let line = Line(Color::Red);
    assert_eq!(line.fit_at(&Position::i1, &board), Some(mask(&[Position::i1, Position::j1, Position::k1])));
    assert_eq!(line.fit_at_90deg(&Position::i1, &board), Some(mask(&[Position::i1, Position::i2, Position::i3])));
    assert_eq!(line.fit_at_180deg(&Position::i1, &board), None);
    assert_eq!(line.fit_at(&Position::j1, &board), None);
    Ok(())
}

#[test]
fn mask_and_mask_set_basics() {
    let mut m = Mask::new();
    assert!(m.is_empty());
    m.insert(Position::k3);
    m.insert(Position::k3);
    assert!(m.contains(&Position::k3));
    assert!(!m.contains(&Position::k2));
    assert_eq!(mask(&[Position::i1, Position::l4]), mask(&[Position::l4, Position::i1]));
    let a = masks(&[&[Position::i1], &[Position::j2, Position::i1], &[Position::i1]]);
    let b = masks(&[&[Position::i1, Position::j2], &[Position::i1]]);
    assert_eq!(a, b);
    assert_eq!(a.len(), 2);
    assert!(a.contains(&mask(&[Position::i1])));
    assert_ne!(a, masks(&[&[Position::i1]]));
    assert!(MaskSet::new().is_empty());
}

#[test]
fn error_messages() {
    assert_eq!(Error::InvalidNotation.message(), "Failed to parse notation");
    assert_eq!(Error::IllegalMove.message(), "Illegal player move");
    assert_eq!(Error::OutOfBounds.message(), "Index out of bounds");
}

#[test]
fn color_fit_mask_checks_every_cell() -> Result<(), Error> {
    let board = Board::try_from("r1i1 r1j1 g1k1")?;
    let both = mask(&[Position::i1, Position::j1]);
    assert_eq!(Color::Red.fit_mask(both, &board), Some(both));
    assert_eq!(Color::Red.fit_mask(mask(&[Position::i1, Position::k1]), &board), None);
    assert_eq!(Color::Red.fit_mask(mask(&[Position::i1, Position::l1]), &board), None);
    Ok(())
}

#[test]
fn surround_fit_at_ignores_the_tier() -> Result<(), Error> {
    let board = Board::try_from("r1i1 g1i2 r2l4")?;
    let s = Surround(Color::Red, Color::Green);
    assert_eq!(s.fit_at(&Position::i1, &board), Some(mask(&[Position::i2])));
    assert_eq!(s.fit_at(&Position::l4, &board), None);
    assert_eq!(s.fit_at(&Position::i2, &board), None);
    assert!(s.fit(&board).is_empty());
    Ok(())
}

#[test]
fn mask_positions_in_index_order() {
    let m = mask(&[Position::l4, Position::i2, Position::j1]);
    assert_eq!(m.positions(), vec![Position::i2, Position::j1, Position::l4]);
    assert_eq!(Mask::new().positions(), Vec::<Position>::new());
}

#[test]
fn mask_set_listing_and_union() {
    let a = masks(&[&[Position::l4], &[Position::i1, Position::i2]]);
    let b = masks(&[&[Position::i1], &[Position::l4]]);
    let listed = a.masks();
    assert_eq!(listed, vec![mask(&[Position::i1, Position::i2]), mask(&[Position::l4])]);
    let both = a.union(&b);
    assert_eq!(both, masks(&[&[Position::i1], &[Position::l4], &[Position::i1, Position::i2]]));
    assert_eq!(both.len(), 3);
    assert_eq!(a.union(&MaskSet::new()), a);
}
