use vstd::prelude::*;
use vstd::string::StrSliceExecFns;

use crate::error::Error;

verus! {

/// The colour of a stack.
#[derive(Debug, Clone, Copy, PartialEq, Eq, Structural, Hash)]
pub enum Color {
    Red,
    Green,
    Blue,
    Yellow,
}

/// The colour that a one-character symbol stands for: `r`, `g`, `b` or `y`
/// (lower case only).
pub open spec fn color_of_symbol(c: char) -> Option<Color> {
    if c == 'r' {
        Some(Color::Red)
    } else if c == 'g' {
        Some(Color::Green)
    } else if c == 'b' {
        Some(Color::Blue)
    } else if c == 'y' {
        Some(Color::Yellow)
    } else {
        None
    }
}

/// The colour written by `s`, which must be exactly one symbol.
pub open spec fn parse_color(s: Seq<char>) -> Option<Color> {
    if s.len() == 1 {
        color_of_symbol(s[0])
    } else {
        None
    }
}

/// Turns an optional decoded value into the result of a decoding call.
pub open spec fn decoded<T>(o: Option<T>) -> Result<T, Error> {
    match o {
        Some(v) => Ok(v),
        None => Err(Error::InvalidNotation),
    }
}

impl<'a> TryFrom<&'a str> for Color {
    type Error = Error;

    fn try_from(notation: &'a str) -> (r: Result<Self, Self::Error>) {
        if notation.unicode_len() != 1 {
            Err(Error::InvalidNotation)
        } else {
            match notation.get_char(0) {
                'r' => Ok(Color::Red),
                'g' => Ok(Color::Green),
                'b' => Ok(Color::Blue),
                'y' => Ok(Color::Yellow),
                _ => Err(Error::InvalidNotation),
            }
        }
    }
}

impl<'a> vstd::std_specs::convert::TryFromSpecImpl<&'a str> for Color {
    open spec fn obeys_try_from_spec() -> bool {
        true
    }

    open spec fn try_from_spec(notation: &'a str) -> Result<Self, Error> {
        decoded(parse_color(notation@))
    }
}

/// The height of a stack; `First` is the lowest.
#[derive(Debug, Clone, Copy, PartialEq, Eq, Structural, Hash, PartialOrd, Ord)]
pub enum Tier {
    First,
    Second,
    Third,
    Fourth,
}

/// The tier that a digit stands for: `1` to `4`.
pub open spec fn tier_of_digit(c: char) -> Option<Tier> {
    if c == '1' {
        Some(Tier::First)
    } else if c == '2' {
        Some(Tier::Second)
    } else if c == '3' {
        Some(Tier::Third)
    } else if c == '4' {
        Some(Tier::Fourth)
    } else {
        None
    }
}

/// The tier written by `s`, which must be exactly one digit.
pub open spec fn parse_tier(s: Seq<char>) -> Option<Tier> {
    if s.len() == 1 {
        tier_of_digit(s[0])
    } else {
        None
    }
}

impl<'a> TryFrom<&'a str> for Tier {
    type Error = Error;

    fn try_from(notation: &'a str) -> (r: Result<Self, Self::Error>) {
        if notation.unicode_len() != 1 {
            Err(Error::InvalidNotation)
        } else {
            match notation.get_char(0) {
                '1' => Ok(Tier::First),
                '2' => Ok(Tier::Second),
                '3' => Ok(Tier::Third),
                '4' => Ok(Tier::Fourth),
                _ => Err(Error::InvalidNotation),
            }
        }
    }
}

impl<'a> vstd::std_specs::convert::TryFromSpecImpl<&'a str> for Tier {
    open spec fn obeys_try_from_spec() -> bool {
        true
    }

    open spec fn try_from_spec(notation: &'a str) -> Result<Self, Error> {
        decoded(parse_tier(notation@))
    }
}

impl Tier {
    /// The height of the tier as a number: 1 for `First` up to 4 for `Fourth`.
    pub open spec fn height(self) -> nat {
        match self {
            Tier::First => 1,
            Tier::Second => 2,
            Tier::Third => 3,
            Tier::Fourth => 4,
        }
    }
}

/// Anything that has a height on the board: a tier, a stack, or an
/// optional occupant (where an empty cell has height 0).
pub trait Height {
    /// The height, as a number between 0 and 4.
    spec fn spec_level(&self) -> nat;

    fn level(&self) -> (r: u8)
        ensures
            r as nat == self.spec_level(),
            r <= 4,
    ;
}

/// Comparison of heights: the stacking rule of the board.
pub trait TierLevel: Height {
    /// Whether `self` sits exactly one level above `previous`.
    fn is_on_top_of<T: Height>(&self, previous: &T) -> (r: bool)
        ensures
            r == (self.spec_level() == previous.spec_level() + 1),
    {
        let below = previous.level();
        self.level() == below + 1
    }
}

impl TierLevel for Tier {}

impl Height for Tier {
    open spec fn spec_level(&self) -> nat {
        self.height()
    }

    fn level(&self) -> (r: u8) {
        proof {
            assert(self.spec_level() == self.height());
        }
        match *self {
            Tier::First => 1,
            Tier::Second => 2,
            Tier::Third => 3,
            Tier::Fourth => 4,
        }
    }
}

/// A piece on the board: a colour at some tier.
#[derive(Debug, Clone, Copy, PartialEq, Eq, Structural, Hash)]
pub struct Stack {
    pub color: Color,
    pub tier: Tier,
}

impl TierLevel for Stack {}

impl Height for Stack {
    open spec fn spec_level(&self) -> nat {
        self.tier.height()
    }

    fn level(&self) -> (r: u8) {
        self.tier.level()
    }
}

impl<'a> TierLevel for Option<&'a Stack> {}

impl<'a> Height for Option<&'a Stack> {
    open spec fn spec_level(&self) -> nat {
        match self {
            Some(stack) => stack.tier.height(),
            None => 0,
        }
    }

    fn level(&self) -> (r: u8) {
        match self {
            Some(stack) => stack.tier.level(),
            None => 0,
        }
    }
}

/// The stack written by `s`: a colour symbol followed by a tier digit.
pub open spec fn parse_stack(s: Seq<char>) -> Option<Stack> {
    if s.len() == 2 {
        match (color_of_symbol(s[0]), tier_of_digit(s[1])) {
            (Some(color), Some(tier)) => Some(Stack { color, tier }),
            _ => None,
        }
    } else {
        None
    }
}

impl<'a> TryFrom<&'a str> for Stack {
    type Error = Error;

    fn try_from(notation: &'a str) -> (r: Result<Self, Self::Error>) {
        if notation.unicode_len() != 2 {
            Err(Error::InvalidNotation)
        } else {
            let color = match Color::try_from(notation.substring_char(0, 1)) {
                Ok(c) => c,
                Err(e) => return Err(e),
            };
            let tier = match Tier::try_from(notation.substring_char(1, 2)) {
                Ok(t) => t,
                Err(e) => return Err(e),
            };
            Ok(Stack { color, tier })
        }
    }
}

impl<'a> vstd::std_specs::convert::TryFromSpecImpl<&'a str> for Stack {
    open spec fn obeys_try_from_spec() -> bool {
        true
    }

    open spec fn try_from_spec(notation: &'a str) -> Result<Self, Error> {
        decoded(parse_stack(notation@))
    }
}

} // verus!
