use vstd::prelude::*;

verus! {

/// One integer rectangle of the headless projection: origin, then extent.
#[derive(Clone, Copy, Debug, PartialEq, Eq, Structural)]
pub struct HeadlessRect {
    pub x: i32,
    pub y: i32,
    pub width: i32,
    pub height: i32,
}

impl HeadlessRect {
    /// Builds a rectangle from its origin and extent.
    pub fn new(x: i32, y: i32, width: i32, height: i32) -> (rect: Self)
        ensures
            rect == (HeadlessRect { x, y, width, height }),
    {
        HeadlessRect { x, y, width, height }
    }

    /// Returns the horizontal origin.
    pub fn x(self) -> (x: i32)
        ensures
            x == self.x,
    {
        self.x
    }

    /// Returns the vertical origin.
    pub fn y(self) -> (y: i32)
        ensures
            y == self.y,
    {
        self.y
    }

    /// Returns the horizontal extent.
    pub fn width(self) -> (width: i32)
        ensures
            width == self.width,
    {
        self.width
    }

    /// Returns the vertical extent.
    pub fn height(self) -> (height: i32)
        ensures
            height == self.height,
    {
        self.height
    }
}

/// The logical headless surface.
#[derive(Clone, Copy, Debug, PartialEq, Eq, Structural)]
pub struct HeadlessSurface {
    pub width: i32,
    pub height: i32,
}

impl HeadlessSurface {
    /// Builds a surface of the given extent.
    pub fn new(width: i32, height: i32) -> (surface: Self)
        ensures
            surface == (HeadlessSurface { width, height }),
    {
        HeadlessSurface { width, height }
    }

    /// Returns the surface width.
    pub fn width(self) -> (width: i32)
        ensures
            width == self.width,
    {
        self.width
    }

    /// Returns the surface height.
    pub fn height(self) -> (height: i32)
        ensures
            height == self.height,
    {
        self.height
    }
}

/// The closed semantic role vocabulary of the fixed projection.
#[derive(Clone, Copy, Debug, PartialEq, Eq, Structural)]
pub enum HeadlessSemanticRole {
    /// An interactive control.
    Control,
}

/// The closed semantic action vocabulary of the fixed projection.
#[derive(Clone, Copy, Debug, PartialEq, Eq, Structural)]
pub enum HeadlessSemanticAction {
    /// Activation of a control.
    Activate,
}

} // verus!
