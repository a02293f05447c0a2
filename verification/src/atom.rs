//! Pattern atoms: the executable form and its mathematical view.

use vstd::prelude::*;

verus! {

/// One compiled unit of a pattern, as the matcher reads it.
#[derive(Debug, PartialEq, Eq)]
pub enum PatternKind {
    /// Exactly this character.
    SingleChar(char),
    /// Any one character.
    AnyChar,
    /// One ASCII digit.
    Digit,
    /// One alphanumeric character.
    AlphaNumeric,
    /// One character that is among `literal`, or that is not when
    /// `is_complement` is set.
    CharSet { literal: String, is_complement: bool },
    /// A run of one or more of this character.
    OneOrMore(char),
    /// A run of at most one of this character.
    ZeroOrOne(char),
    /// Start of input; holds the position of this atom in its sequence.
    StartAnchor(usize),
    /// End of input; holds the position of this atom in its sequence.
    EndAnchor(usize),
}

/// The mathematical view of a [`PatternKind`]: what the contracts of the
/// compiler and of the matcher speak of.
pub enum Atom {
    /// Exactly this character.
    LiteralChar(char),
    /// Any one character.
    Wildcard,
    /// One ASCII digit.
    DigitClass,
    /// One alphanumeric character.
    AlphaNumericClass,
    /// One character that is among `literal`, or that is not when
    /// `negated` is set.
    CharacterSet { literal: Seq<char>, negated: bool },
    /// A run of one or more of this character.
    OneOrMore(char),
    /// A run of at most one of this character.
    ZeroOrOne(char),
    /// Start of input; holds the position of this atom in its sequence.
    StartAnchor(nat),
    /// End of input; holds the position of this atom in its sequence.
    EndAnchor(nat),
}

impl View for PatternKind {
    type V = Atom;

    open spec fn view(&self) -> Atom {
        match *self {
            PatternKind::SingleChar(c) => Atom::LiteralChar(c),
            PatternKind::AnyChar => Atom::Wildcard,
            PatternKind::Digit => Atom::DigitClass,
            PatternKind::AlphaNumeric => Atom::AlphaNumericClass,
            PatternKind::CharSet { literal, is_complement } => Atom::CharacterSet {
                literal: literal@,
                negated: is_complement,
            },
            PatternKind::OneOrMore(c) => Atom::OneOrMore(c),
            PatternKind::ZeroOrOne(c) => Atom::ZeroOrOne(c),
            PatternKind::StartAnchor(i) => Atom::StartAnchor(i as nat),
            PatternKind::EndAnchor(i) => Atom::EndAnchor(i as nat),
        }
    }
}

impl DeepView for PatternKind {
    type V = Atom;

    open spec fn deep_view(&self) -> Atom {
        self.view()
    }
}

} // verus!
