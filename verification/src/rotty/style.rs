//! Colours and text attributes.
//!
//! Colours are plain data. Attribute sets are crossterm's own bitset,
//! carried through as it is and spoken of by the set of attributes it holds.

use vstd::prelude::*;
use crossterm::style::Attribute;
use crossterm::style::Attributes;

verus! {

/// A terminal colour.
#[derive(Clone, Copy, Debug, PartialEq, Eq, Hash, Structural)]
pub enum Color {
    /// The terminal's own default.
    Reset,
    Black,
    DarkGrey,
    Red,
    DarkRed,
    Green,
    DarkGreen,
    Yellow,
    DarkYellow,
    Blue,
    DarkBlue,
    Magenta,
    DarkMagenta,
    Cyan,
    DarkCyan,
    White,
    Grey,
    /// A colour by its red, green and blue parts.
    Rgb { r: u8, g: u8, b: u8 },
    /// A colour of the 256-colour palette.
    AnsiValue(u8),
}

/// crossterm's `Attribute`, an enum of names without fields, taken as it is
/// declared, so that an attribute can be named.
#[verifier::external_type_specification]
pub struct ExAttribute(Attribute);

/// crossterm's `Attributes`, a bitset whose bits are private.
#[verifier::external_type_specification]
#[verifier::external_body]
pub struct ExAttributes(Attributes);

/// The attributes that a bitset holds.
pub uninterp spec fn attribute_set(attrs: Attributes) -> Set<Attribute>;

/// `Attributes::none` of crossterm returns the bitset with no bit set: it
/// holds no attribute.
pub assume_specification[ Attributes::none ]() -> (attrs: Attributes)
    ensures
        attribute_set(attrs) == Set::<Attribute>::empty(),
;

/// `Attributes::with` of crossterm returns a copy of the bitset in which the
/// attribute's own bit is set as well: it holds what the bitset held, and the
/// attribute.
pub assume_specification[ Attributes::with ](attrs: Attributes, attribute: Attribute) -> (with:
    Attributes)
    ensures
        attribute_set(with) == attribute_set(attrs).insert(attribute),
;

/// `Attributes::extend` of crossterm sets in the bitset every bit that is
/// set in the other: it then holds what either held.
pub assume_specification[ Attributes::extend ](attrs: &mut Attributes, attributes: Attributes)
    ensures
        attribute_set(*final(attrs)) == attribute_set(*old(attrs)).union(
            attribute_set(attributes),
        ),
;

/// Whether two bitsets hold the same attributes.
///
/// Trusted: the `==` that crossterm derives for `Attributes` compares the
/// bits, and every attribute has a bit of its own, so two bitsets are equal
/// exactly when they hold the same attributes.
#[verifier::external_body]
pub(crate) fn same_attributes(a: &Attributes, b: &Attributes) -> (same: bool)
    ensures
        same == (attribute_set(*a) == attribute_set(*b)),
{
    a == b
}

} // verus!
