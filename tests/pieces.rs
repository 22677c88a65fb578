use std::convert::TryFrom;

use stackboard::{Color, Error, Stack, Tier, TierLevel};

#[test]
fn color_notation() -> Result<(), Error> {
    Color::try_from("r")?;
    Color::try_from("g")?;
    Color::try_from("b")?;
    Color::try_from("y")?;
    assert!(Color::try_from("R").is_err());
    assert!(Color::try_from("G").is_err());
    assert!(Color::try_from("B").is_err());
    assert!(Color::try_from("Y").is_err());
    assert!(Color::try_from("x").is_err());
    assert!(Color::try_from("sdfsf").is_err());
    assert!(Color::try_from("red").is_err());
    Ok(())
}

#[test]
fn tier_notation() -> Result<(), Error> {
    Tier::try_from("1")?;
    Tier::try_from("2")?;
    Tier::try_from("3")?;
    Tier::try_from("4")?;
    assert!(Tier::try_from("5").is_err());
    assert!(Tier::try_from("0").is_err());
    assert!(Tier::try_from("sdfsf").is_err());
    Ok(())
}

#[test]
fn tier_level_is_on_top_of() {
    assert!(Tier::First.is_on_top_of(&None));
    assert!(Tier::Second.is_on_top_of(&Tier::First));
    assert!(Tier::Third.is_on_top_of(&Tier::Second));
    assert!(Tier::Fourth.is_on_top_of(&Tier::Third));
    assert_eq!(Tier::First.is_on_top_of(&Tier::First), false);
    assert_eq!(Tier::Third.is_on_top_of(&Tier::First), false);
    assert!(Stack::try_from("r4")
        .unwrap()
        .is_on_top_of(&Stack::try_from("g3").unwrap()));
}

#[test]
fn stack_notation() -> Result<(), Error> {
    Stack::try_from("r3")?;
    Stack::try_from("g1")?;
    assert!(Stack::try_from("r0").is_err());
    assert!(Stack::try_from("e3").is_err());
    assert!(Stack::try_from("sdfsf").is_err());
    assert!(Stack::try_from("x").is_err());
    Ok(())
}
