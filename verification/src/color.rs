use vstd::prelude::*;

verus! {

/// A colour as red, green and blue components.
#[derive(Clone, Copy, Debug, Eq, PartialEq)]
pub struct Rgb<T> {
    pub r: T,
    pub g: T,
    pub b: T,
}

impl<T> Rgb<T> {
    /// Builds a colour from its components.
    pub fn new(r: T, g: T, b: T) -> (c: Rgb<T>)
        ensures
            c == (Rgb { r, g, b }),
    {
        Rgb { r, g, b }
    }
}

/// A colour as red, green, blue and alpha components.
#[derive(Clone, Copy, Debug, Eq, PartialEq)]
pub struct Rgba<T> {
    pub r: T,
    pub g: T,
    pub b: T,
    pub a: T,
}

impl<T> Rgba<T> {
    /// Builds a colour from its components.
    pub fn new(r: T, g: T, b: T, a: T) -> (c: Rgba<T>)
        ensures
            c == (Rgba { r, g, b, a }),
    {
        Rgba { r, g, b, a }
    }
}

} // verus!
