//! What is to become of an icon.

use vstd::prelude::*;

verus! {

/// How an icon is painted.
#[derive(Clone, Copy, Debug, PartialEq, Eq)]
pub enum PaintDecision {
    /// The icon stays as it is, for the reason given.
    Original(&'static str),
    /// The icon was handed in as a symbolic one and takes the ink of the theme.
    Symbolic,
    /// The icon has one tone and takes the ink of the theme.
    Monotone,
    /// The icon has two tones, and takes the ink of the theme and a weaker one.
    Duotone { low: u8, high: u8, high_is_primary: bool },
}

/// A decision as a mathematical value: a reason is a sequence of characters, a tone a number.
pub enum Verdict {
    Original(Seq<char>),
    Symbolic,
    Monotone,
    Duotone { low: int, high: int, high_is_primary: bool },
}

impl View for PaintDecision {
    type V = Verdict;

    open spec fn view(&self) -> Verdict {
        match self {
            PaintDecision::Original(reason) => Verdict::Original(reason@),
            PaintDecision::Symbolic => Verdict::Symbolic,
            PaintDecision::Monotone => Verdict::Monotone,
            PaintDecision::Duotone { low, high, high_is_primary } => Verdict::Duotone {
                low: *low as int,
                high: *high as int,
                high_is_primary: *high_is_primary,
            },
        }
    }
}

impl Verdict {
    /// The name of a decision: the reason where the icon stays as it is.
    pub open spec fn name(self) -> Seq<char> {
        match self {
            Verdict::Original(reason) => reason,
            Verdict::Symbolic => "symbolic-explicit"@,
            Verdict::Monotone => "monotone"@,
            Verdict::Duotone { .. } => "duotone"@,
        }
    }
}

impl PaintDecision {
    /// A short name for the decision: the reason where the icon stays as it is.
    pub fn label(self) -> (name: &'static str)
        ensures
            name@ == self@.name(),
    {
        match self {
            PaintDecision::Original(reason) => reason,
            PaintDecision::Symbolic => "symbolic-explicit",
            PaintDecision::Monotone => "monotone",
            PaintDecision::Duotone { .. } => "duotone",
        }
    }
}

} // verus!
