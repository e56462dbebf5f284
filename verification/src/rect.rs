//! A rectangle given by its two side lengths.

use vstd::prelude::*;

verus! {

/// A rectangle with unsigned side lengths. Every pair of lengths is a valid
/// rectangle, a side of length zero included.
#[derive(Debug)]
pub struct Rect {
    pub width: u32,
    pub height: u32,
}

impl Rect {
    /// The area as a mathematical integer: the product of the two sides.
    pub open spec fn spec_area(&self) -> int {
        self.width * self.height
    }

    /// Whether `other` fits strictly inside `self` on both axes.
    pub open spec fn spec_can_hold(&self, other: &Rect) -> bool {
        self.width > other.width && self.height > other.height
    }

    /// The square whose sides both measure `size`.
    pub fn square(size: u32) -> (sq: Self)
        ensures
            sq.width == size,
            sq.height == size,
    {
        Self { width: size, height: size }
    }

    /// Whether the rectangle has a width other than zero.
    pub fn width(&self) -> (wide: bool)
        ensures
            wide == (self.width > 0),
    {
        self.width > 0
    }

    /// The area of the rectangle. The product has to fit the result type.
    pub fn area(&self) -> (a: u32)
        requires
            self.spec_area() <= u32::MAX,
        ensures
            a == self.spec_area(),
    {
        self.width * self.height
    }

    /// Whether `other` fits strictly inside `self`: narrower and lower.
    #[verifier::when_used_as_spec(spec_can_hold)]
    pub fn can_hold(&self, other: &Rect) -> (fits: bool)
        ensures
            fits == self.spec_can_hold(other),
    {
        self.width > other.width && self.height > other.height
    }
}

/// The area of `rect`. The product has to fit the result type.
pub fn area(rect: &Rect) -> (a: u32)
    requires
        rect.spec_area() <= u32::MAX,
    ensures
        a == rect.spec_area(),
{
    rect.width * rect.height
}

/// Asking for the area again gives the same number: any two values that
/// calls of `area` on one rectangle return are equal.
pub proof fn lemma_area_repeatable(rect: Rect, first: u32, second: u32)
    requires
        first == rect.spec_area(),
        second == rect.spec_area(),
    ensures
        first == second,
{
}

/// Asking again whether one rectangle holds another gives the same answer.
pub proof fn lemma_can_hold_repeatable(rect: Rect, other: Rect, first: bool, second: bool)
    requires
        first == rect.spec_can_hold(&other),
        second == rect.spec_can_hold(&other),
    ensures
        first == second,
{
}

} // verus!
