use vstd::prelude::*;
use vstd::std_specs::cmp::{PartialOrdIs, PartialOrdSpec};
use vstd::std_specs::ops::{AddSpec, DivSpec, MulSpec, SubSpec};

verus! {

/// A pair of coordinates.
#[derive(Clone, Copy, Debug, Eq, Hash, PartialEq)]
pub struct XY<T> {
    pub x: T,
    pub y: T,
}

/// Builds an `XY` from its two coordinates.
pub fn xy<T>(x: T, y: T) -> (r: XY<T>)
    ensures
        r == (XY { x, y }),
{
    XY { x, y }
}

impl<T: Copy + core::ops::Add<Output = T> + core::ops::Mul<Output = T>> XY<T> {
    /// Whether the dot product of `self` and `rhs` can be computed in `T` without panicking.
    pub open spec fn dot_req(self, rhs: XY<T>) -> bool {
        &&& T::obeys_mul_spec()
        &&& self.x.mul_req(rhs.x)
        &&& self.y.mul_req(rhs.y)
        &&& self.x.mul_spec(rhs.x).add_req(self.y.mul_spec(rhs.y))
    }

    /// The dot product, computed with `T`'s own arithmetic.
    pub open spec fn dot_spec(self, rhs: XY<T>) -> T {
        self.x.mul_spec(rhs.x).add_spec(self.y.mul_spec(rhs.y))
    }

    /// The dot product `x * rhs.x + y * rhs.y`.
    pub fn dot(&self, rhs: &XY<T>) -> (r: T)
        requires
            self.dot_req(*rhs),
        ensures
            T::obeys_add_spec() ==> r == self.dot_spec(*rhs),
    {
        self.x * rhs.x + self.y * rhs.y
    }
}

impl<T: core::ops::Add<Output = T> + Copy> core::ops::Add for XY<T> {
    type Output = XY<T>;

    fn add(self, rhs: Self) -> (r: Self::Output) {
        xy(self.x + rhs.x, self.y + rhs.y)
    }
}

impl<T: core::ops::Add<Output = T> + Copy> vstd::std_specs::ops::AddSpecImpl for XY<T> {
    open spec fn obeys_add_spec() -> bool {
        T::obeys_add_spec()
    }

    open spec fn add_req(self, rhs: Self) -> bool {
        self.x.add_req(rhs.x) && self.y.add_req(rhs.y)
    }

    open spec fn add_spec(self, rhs: Self) -> Self::Output {
        XY { x: self.x.add_spec(rhs.x), y: self.y.add_spec(rhs.y) }
    }
}

impl<T: core::ops::Sub<Output = T> + Copy> core::ops::Sub for XY<T> {
    type Output = XY<T>;

    fn sub(self, rhs: Self) -> (r: Self::Output) {
        xy(self.x - rhs.x, self.y - rhs.y)
    }
}

impl<T: core::ops::Sub<Output = T> + Copy> vstd::std_specs::ops::SubSpecImpl for XY<T> {
    open spec fn obeys_sub_spec() -> bool {
        T::obeys_sub_spec()
    }

    open spec fn sub_req(self, rhs: Self) -> bool {
        self.x.sub_req(rhs.x) && self.y.sub_req(rhs.y)
    }

    open spec fn sub_spec(self, rhs: Self) -> Self::Output {
        XY { x: self.x.sub_spec(rhs.x), y: self.y.sub_spec(rhs.y) }
    }
}

impl<T: core::ops::Mul<Output = T> + Copy> core::ops::Mul<T> for XY<T> {
    type Output = XY<T>;

    fn mul(self, rhs: T) -> (r: Self::Output) {
        xy(self.x * rhs, self.y * rhs)
    }
}

impl<T: core::ops::Mul<Output = T> + Copy> vstd::std_specs::ops::MulSpecImpl<T> for XY<T> {
    open spec fn obeys_mul_spec() -> bool {
        T::obeys_mul_spec()
    }

    open spec fn mul_req(self, rhs: T) -> bool {
        self.x.mul_req(rhs) && self.y.mul_req(rhs)
    }

    open spec fn mul_spec(self, rhs: T) -> Self::Output {
        XY { x: self.x.mul_spec(rhs), y: self.y.mul_spec(rhs) }
    }
}

impl<T: core::ops::Div<Output = T> + Copy> core::ops::Div<T> for XY<T> {
    type Output = XY<T>;

    fn div(self, rhs: T) -> (r: Self::Output) {
        xy(self.x / rhs, self.y / rhs)
    }
}

impl<T: core::ops::Div<Output = T> + Copy> vstd::std_specs::ops::DivSpecImpl<T> for XY<T> {
    open spec fn obeys_div_spec() -> bool {
        T::obeys_div_spec()
    }

    open spec fn div_req(self, rhs: T) -> bool {
        self.x.div_req(rhs) && self.y.div_req(rhs)
    }

    open spec fn div_spec(self, rhs: T) -> Self::Output {
        XY { x: self.x.div_spec(rhs), y: self.y.div_spec(rhs) }
    }
}

/// A triple of coordinates.
#[derive(Clone, Copy, Debug, Eq, Hash, PartialEq)]
pub struct XYZ<T> {
    pub x: T,
    pub y: T,
    pub z: T,
}

/// Builds an `XYZ` from its three coordinates.
pub fn xyz<T>(x: T, y: T, z: T) -> (r: XYZ<T>)
    ensures
        r == (XYZ { x, y, z }),
{
    XYZ { x, y, z }
}

impl<T: Copy> XYZ<T> {
    /// Drops the `z` coordinate.
    pub fn xy(&self) -> (r: XY<T>)
        ensures
            r == (XY { x: self.x, y: self.y }),
    {
        XY { x: self.x, y: self.y }
    }
}

impl<T: Copy + core::ops::Add<Output = T> + core::ops::Mul<Output = T>> XYZ<T> {
    /// Whether the dot product of `self` and `rhs` can be computed in `T` without panicking.
    pub open spec fn dot_req(self, rhs: XYZ<T>) -> bool {
        &&& T::obeys_mul_spec()
        &&& T::obeys_add_spec()
        &&& self.x.mul_req(rhs.x)
        &&& self.y.mul_req(rhs.y)
        &&& self.z.mul_req(rhs.z)
        &&& self.x.mul_spec(rhs.x).add_req(self.y.mul_spec(rhs.y))
        &&& self.x.mul_spec(rhs.x).add_spec(self.y.mul_spec(rhs.y)).add_req(self.z.mul_spec(rhs.z))
    }

    /// The dot product, computed with `T`'s own arithmetic.
    pub open spec fn dot_spec(self, rhs: XYZ<T>) -> T {
        self.x.mul_spec(rhs.x).add_spec(self.y.mul_spec(rhs.y)).add_spec(self.z.mul_spec(rhs.z))
    }

    /// The dot product `x * rhs.x + y * rhs.y + z * rhs.z`.
    pub fn dot(&self, rhs: &XYZ<T>) -> (r: T)
        requires
            self.dot_req(*rhs),
        ensures
            r == self.dot_spec(*rhs),
    {
        self.x * rhs.x + self.y * rhs.y + self.z * rhs.z
    }
}

impl<T: core::ops::Add<Output = T> + Copy> core::ops::Add for XYZ<T> {
    type Output = XYZ<T>;

    fn add(self, rhs: Self) -> (r: Self::Output) {
        xyz(self.x + rhs.x, self.y + rhs.y, self.z + rhs.z)
    }
}

impl<T: core::ops::Add<Output = T> + Copy> vstd::std_specs::ops::AddSpecImpl for XYZ<T> {
    open spec fn obeys_add_spec() -> bool {
        T::obeys_add_spec()
    }

    open spec fn add_req(self, rhs: Self) -> bool {
        self.x.add_req(rhs.x) && self.y.add_req(rhs.y) && self.z.add_req(rhs.z)
    }

    open spec fn add_spec(self, rhs: Self) -> Self::Output {
        XYZ { x: self.x.add_spec(rhs.x), y: self.y.add_spec(rhs.y), z: self.z.add_spec(rhs.z) }
    }
}

impl<T: core::ops::Sub<Output = T> + Copy> core::ops::Sub for XYZ<T> {
    type Output = XYZ<T>;

    fn sub(self, rhs: Self) -> (r: Self::Output) {
        xyz(self.x - rhs.x, self.y - rhs.y, self.z - rhs.z)
    }
}

impl<T: core::ops::Sub<Output = T> + Copy> vstd::std_specs::ops::SubSpecImpl for XYZ<T> {
    open spec fn obeys_sub_spec() -> bool {
        T::obeys_sub_spec()
    }

    open spec fn sub_req(self, rhs: Self) -> bool {
        self.x.sub_req(rhs.x) && self.y.sub_req(rhs.y) && self.z.sub_req(rhs.z)
    }

    open spec fn sub_spec(self, rhs: Self) -> Self::Output {
        XYZ { x: self.x.sub_spec(rhs.x), y: self.y.sub_spec(rhs.y), z: self.z.sub_spec(rhs.z) }
    }
}

impl<T: core::ops::Mul<Output = T> + Copy> core::ops::Mul<T> for XYZ<T> {
    type Output = XYZ<T>;

    fn mul(self, rhs: T) -> (r: Self::Output) {
        xyz(self.x * rhs, self.y * rhs, self.z * rhs)
    }
}

impl<T: core::ops::Mul<Output = T> + Copy> vstd::std_specs::ops::MulSpecImpl<T> for XYZ<T> {
    open spec fn obeys_mul_spec() -> bool {
        T::obeys_mul_spec()
    }

    open spec fn mul_req(self, rhs: T) -> bool {
        self.x.mul_req(rhs) && self.y.mul_req(rhs) && self.z.mul_req(rhs)
    }

    open spec fn mul_spec(self, rhs: T) -> Self::Output {
        XYZ { x: self.x.mul_spec(rhs), y: self.y.mul_spec(rhs), z: self.z.mul_spec(rhs) }
    }
}

impl<T: core::ops::Div<Output = T> + Copy> core::ops::Div<T> for XYZ<T> {
    type Output = XYZ<T>;

    fn div(self, rhs: T) -> (r: Self::Output) {
        xyz(self.x / rhs, self.y / rhs, self.z / rhs)
    }
}

impl<T: core::ops::Div<Output = T> + Copy> vstd::std_specs::ops::DivSpecImpl<T> for XYZ<T> {
    open spec fn obeys_div_spec() -> bool {
        T::obeys_div_spec()
    }

    open spec fn div_req(self, rhs: T) -> bool {
        self.x.div_req(rhs) && self.y.div_req(rhs) && self.z.div_req(rhs)
    }

    open spec fn div_spec(self, rhs: T) -> Self::Output {
        XYZ { x: self.x.div_spec(rhs), y: self.y.div_spec(rhs), z: self.z.div_spec(rhs) }
    }
}

/// A line segment from `from` to `to`.
#[derive(Debug)]
pub struct Line<T> {
    pub from: XY<T>,
    pub to: XY<T>,
}

/// A width and a height.
#[derive(Clone, Copy, Debug, PartialEq)]
pub struct Rectangle<T> {
    pub width: T,
    pub height: T,
}

/// The rectangle of cells from `from` to `to`, both corners included.
#[derive(Clone, Copy, Debug, PartialEq)]
pub struct XYRectangle<T> {
    pub from: XY<T>,
    pub to: XY<T>,
}

impl XYRectangle<u32> {
    /// The number of columns, `to.x - from.x + 1`.
    pub open spec fn width_spec(self) -> int {
        self.to.x - self.from.x + 1
    }

    /// The number of rows, `to.y - from.y + 1`.
    pub open spec fn height_spec(self) -> int {
        self.to.y - self.from.y + 1
    }

    /// The number of columns; `from.x` must not exceed `to.x`, and the count must fit in a `u32`.
    pub fn width(&self) -> (r: u32)
        requires
            self.from.x <= self.to.x,
            self.width_spec() <= u32::MAX,
        ensures
            r == self.width_spec(),
    {
        self.to.x - self.from.x + 1
    }

    /// The number of rows; `from.y` must not exceed `to.y`, and the count must fit in a `u32`.
    pub fn height(&self) -> (r: u32)
        requires
            self.from.y <= self.to.y,
            self.height_spec() <= u32::MAX,
        ensures
            r == self.height_spec(),
    {
        self.to.y - self.from.y + 1
    }

    /// Grows the rectangle by `cell_count` cells on every side, stopping at the bounds of `u32`.
    pub fn expand(&self, cell_count: u32) -> (r: XYRectangle<u32>)
        ensures
            r.from.x == (if self.from.x >= cell_count { self.from.x - cell_count } else { 0 }),
            r.from.y == (if self.from.y >= cell_count { self.from.y - cell_count } else { 0 }),
            r.to.x == (if self.to.x + cell_count <= u32::MAX { self.to.x + cell_count } else { u32::MAX as int }),
            r.to.y == (if self.to.y + cell_count <= u32::MAX { self.to.y + cell_count } else { u32::MAX as int }),
    {
        XYRectangle {
            from: xy(self.from.x.saturating_sub(cell_count), self.from.y.saturating_sub(cell_count)),
            to: xy(self.to.x.saturating_add(cell_count), self.to.y.saturating_add(cell_count)),
        }
    }
}

impl<T: PartialOrd> XYRectangle<T> {
    /// Whether `position` lies in the rectangle, by `T`'s ordering.
    pub open spec fn contains_spec(self, position: XY<T>) -> bool {
        !(position.x.is_lt(&self.from.x) || position.x.is_gt(&self.to.x)
            || position.y.is_lt(&self.from.y) || position.y.is_gt(&self.to.y))
    }

    /// Whether the two rectangles share at least one cell, by `T`'s ordering.
    pub open spec fn overlaps_spec(self, other: XYRectangle<T>) -> bool {
        &&& self.from.x.is_le(&other.to.x)
        &&& self.to.x.is_ge(&other.from.x)
        &&& self.from.y.is_le(&other.to.y)
        &&& self.to.y.is_ge(&other.from.y)
    }

    /// Whether `position` lies in the rectangle, borders included.
    pub fn contains(&self, position: XY<T>) -> (r: bool)
        ensures
            T::obeys_partial_cmp_spec() ==> r == self.contains_spec(position),
    {
        !(position.x < self.from.x || position.x > self.to.x || position.y < self.from.y
            || position.y > self.to.y)
    }

    /// Whether the two rectangles share at least one cell.
    pub fn overlaps(&self, other: XYRectangle<T>) -> (r: bool)
        ensures
            T::obeys_partial_cmp_spec() ==> r == self.overlaps_spec(other),
    {
        (self.from.x <= other.to.x && self.to.x >= other.from.x) && (self.from.y <= other.to.y
            && self.to.y >= other.from.y)
    }
}


impl XYRectangle<u32> {
    /// The number of cells of the rectangle, column by column; zero when `from` lies after
    /// `to` on either axis.
    pub open spec fn cell_count(self) -> int {
        if self.from.x <= self.to.x && self.from.y <= self.to.y {
            (self.to.x - self.from.x + 1) * (self.to.y - self.from.y + 1)
        } else {
            0
        }
    }

    /// The `k`th cell of the rectangle, column by column.
    pub open spec fn cell_at(self, k: int) -> XY<u32> {
        let h = self.to.y - self.from.y + 1;
        XY { x: (self.from.x + k / h) as u32, y: (self.from.y + k % h) as u32 }
    }

    /// Every cell of the rectangle, column by column, from `from` to `to`.
    pub fn iter(&self) -> (r: Vec<XY<u32>>)
        requires
            self.cell_count() <= usize::MAX,
        ensures
            r@.len() == self.cell_count(),
            forall|k: int| 0 <= k < r@.len() ==> #[trigger] r@[k] == self.cell_at(k),
    {
        let mut out: Vec<XY<u32>> = Vec::new();
        if self.from.x > self.to.x || self.from.y > self.to.y {
            return out;
        }
        let ghost w = self.to.x - self.from.x + 1;
        let ghost h = self.to.y - self.from.y + 1;
        proof {
            assert(w <= usize::MAX && h <= usize::MAX) by (nonlinear_arith)
                requires
                    w >= 1,
                    h >= 1,
                    w * h <= usize::MAX,
            ;
        }
        let width = (self.to.x - self.from.x) as usize + 1;
        let height = (self.to.y - self.from.y) as usize + 1;
        let mut dx: usize = 0;
        while dx < width
            invariant
                self.cell_count() <= usize::MAX,
                self.from.x <= self.to.x,
                self.from.y <= self.to.y,
                w == self.to.x - self.from.x + 1,
                h == self.to.y - self.from.y + 1,
                width == w,
                height == h,
                self.cell_count() == w * h,
                dx <= width,
                out@.len() == dx * height,
                forall|k: int| 0 <= k < out@.len() ==> #[trigger] out@[k] == self.cell_at(k),
            decreases width - dx,
        {
            let mut dy: usize = 0;
            while dy < height
                invariant
                    self.cell_count() <= usize::MAX,
                    self.from.x <= self.to.x,
                    self.from.y <= self.to.y,
                    w == self.to.x - self.from.x + 1,
                    h == self.to.y - self.from.y + 1,
                    width == w,
                    height == h,
                    self.cell_count() == w * h,
                    dx < width,
                    dy <= height,
                    out@.len() == dx * height + dy,
                    forall|k: int| 0 <= k < out@.len() ==> #[trigger] out@[k] == self.cell_at(k),
                decreases height - dy,
            {
                proof {
                    crate::grid::lemma_row_major(height as int, dy as int, dx as int);
                    assert(dx * height + dy < width * height) by (nonlinear_arith)
                        requires
                            dx < width,
                            dy < height,
                    ;
                }
                let x = self.from.x + dx as u32;
                let y = self.from.y + dy as u32;
                out.push(XY { x, y });
                dy += 1;
            }
            proof {
                assert((dx + 1) * height == dx * height + height) by (nonlinear_arith);
            }
            dx += 1;
        }
        out
    }
}

impl XYRectangle<u64> {
    /// The number of cells of the rectangle, column by column; zero when `from` lies after
    /// `to` on either axis.
    pub open spec fn cell_count(self) -> int {
        if self.from.x <= self.to.x && self.from.y <= self.to.y {
            (self.to.x - self.from.x + 1) * (self.to.y - self.from.y + 1)
        } else {
            0
        }
    }

    /// The `k`th cell of the rectangle, column by column.
    pub open spec fn cell_at(self, k: int) -> XY<u64> {
        let h = self.to.y - self.from.y + 1;
        XY { x: (self.from.x + k / h) as u64, y: (self.from.y + k % h) as u64 }
    }

    /// Every cell of the rectangle, column by column, from `from` to `to`.
    pub fn iter(&self) -> (r: Vec<XY<u64>>)
        requires
            self.cell_count() <= usize::MAX,
        ensures
            r@.len() == self.cell_count(),
            forall|k: int| 0 <= k < r@.len() ==> #[trigger] r@[k] == self.cell_at(k),
    {
        let mut out: Vec<XY<u64>> = Vec::new();
        if self.from.x > self.to.x || self.from.y > self.to.y {
            return out;
        }
        let ghost w = self.to.x - self.from.x + 1;
        let ghost h = self.to.y - self.from.y + 1;
        proof {
            assert(w <= usize::MAX && h <= usize::MAX) by (nonlinear_arith)
                requires
                    w >= 1,
                    h >= 1,
                    w * h <= usize::MAX,
            ;
        }
        let width = (self.to.x - self.from.x) as usize + 1;
        let height = (self.to.y - self.from.y) as usize + 1;
        let mut dx: usize = 0;
        while dx < width
            invariant
                self.cell_count() <= usize::MAX,
                self.from.x <= self.to.x,
                self.from.y <= self.to.y,
                w == self.to.x - self.from.x + 1,
                h == self.to.y - self.from.y + 1,
                width == w,
                height == h,
                self.cell_count() == w * h,
                dx <= width,
                out@.len() == dx * height,
                forall|k: int| 0 <= k < out@.len() ==> #[trigger] out@[k] == self.cell_at(k),
            decreases width - dx,
        {
            let mut dy: usize = 0;
            while dy < height
                invariant
                    self.cell_count() <= usize::MAX,
                    self.from.x <= self.to.x,
                    self.from.y <= self.to.y,
                    w == self.to.x - self.from.x + 1,
                    h == self.to.y - self.from.y + 1,
                    width == w,
                    height == h,
                    self.cell_count() == w * h,
                    dx < width,
                    dy <= height,
                    out@.len() == dx * height + dy,
                    forall|k: int| 0 <= k < out@.len() ==> #[trigger] out@[k] == self.cell_at(k),
                decreases height - dy,
            {
                proof {
                    crate::grid::lemma_row_major(height as int, dy as int, dx as int);
                    assert(dx * height + dy < width * height) by (nonlinear_arith)
                        requires
                            dx < width,
                            dy < height,
                    ;
                }
                let x = self.from.x + dx as u64;
                let y = self.from.y + dy as u64;
                out.push(XY { x, y });
                dy += 1;
            }
            proof {
                assert((dx + 1) * height == dx * height + height) by (nonlinear_arith);
            }
            dx += 1;
        }
        out
    }
}

impl XYRectangle<usize> {
    /// The number of cells of the rectangle, column by column; zero when `from` lies after
    /// `to` on either axis.
    pub open spec fn cell_count(self) -> int {
        if self.from.x <= self.to.x && self.from.y <= self.to.y {
            (self.to.x - self.from.x + 1) * (self.to.y - self.from.y + 1)
        } else {
            0
        }
    }

    /// The `k`th cell of the rectangle, column by column.
    pub open spec fn cell_at(self, k: int) -> XY<usize> {
        let h = self.to.y - self.from.y + 1;
        XY { x: (self.from.x + k / h) as usize, y: (self.from.y + k % h) as usize }
    }

    /// Every cell of the rectangle, column by column, from `from` to `to`.
    pub fn iter(&self) -> (r: Vec<XY<usize>>)
        requires
            self.cell_count() <= usize::MAX,
        ensures
            r@.len() == self.cell_count(),
            forall|k: int| 0 <= k < r@.len() ==> #[trigger] r@[k] == self.cell_at(k),
    {
        let mut out: Vec<XY<usize>> = Vec::new();
        if self.from.x > self.to.x || self.from.y > self.to.y {
            return out;
        }
        let ghost w = self.to.x - self.from.x + 1;
        let ghost h = self.to.y - self.from.y + 1;
        proof {
            assert(w <= usize::MAX && h <= usize::MAX) by (nonlinear_arith)
                requires
                    w >= 1,
                    h >= 1,
                    w * h <= usize::MAX,
            ;
        }
        let width = (self.to.x - self.from.x) as usize + 1;
        let height = (self.to.y - self.from.y) as usize + 1;
        let mut dx: usize = 0;
        while dx < width
            invariant
                self.cell_count() <= usize::MAX,
                self.from.x <= self.to.x,
                self.from.y <= self.to.y,
                w == self.to.x - self.from.x + 1,
                h == self.to.y - self.from.y + 1,
                width == w,
                height == h,
                self.cell_count() == w * h,
                dx <= width,
                out@.len() == dx * height,
                forall|k: int| 0 <= k < out@.len() ==> #[trigger] out@[k] == self.cell_at(k),
            decreases width - dx,
        {
            let mut dy: usize = 0;
            while dy < height
                invariant
                    self.cell_count() <= usize::MAX,
                    self.from.x <= self.to.x,
                    self.from.y <= self.to.y,
                    w == self.to.x - self.from.x + 1,
                    h == self.to.y - self.from.y + 1,
                    width == w,
                    height == h,
                    self.cell_count() == w * h,
                    dx < width,
                    dy <= height,
                    out@.len() == dx * height + dy,
                    forall|k: int| 0 <= k < out@.len() ==> #[trigger] out@[k] == self.cell_at(k),
                decreases height - dy,
            {
                proof {
                    crate::grid::lemma_row_major(height as int, dy as int, dx as int);
                    assert(dx * height + dy < width * height) by (nonlinear_arith)
                        requires
                            dx < width,
                            dy < height,
                    ;
                }
                let x = self.from.x + dx as usize;
                let y = self.from.y + dy as usize;
                out.push(XY { x, y });
                dy += 1;
            }
            proof {
                assert((dx + 1) * height == dx * height + height) by (nonlinear_arith);
            }
            dx += 1;
        }
        out
    }
}


/// Law: two rectangles overlap each other or neither overlaps the other, for any `T` whose
/// ordering behaves as an order.
pub proof fn law_overlaps_symmetric<T: PartialOrd>(a: XYRectangle<T>, b: XYRectangle<T>)
    requires
        vstd::laws_cmp::obeys_partial_cmp_spec_properties::<T>(),
    ensures
        a.overlaps_spec(b) == b.overlaps_spec(a),
{
    reveal(vstd::laws_cmp::obeys_partial_cmp_spec_properties);
    reveal(vstd::laws_eq::obeys_eq_spec_properties);
    assert(a.from.x.is_le(&b.to.x) == b.to.x.is_ge(&a.from.x));
    assert(a.to.x.is_ge(&b.from.x) == b.from.x.is_le(&a.to.x));
    assert(a.from.y.is_le(&b.to.y) == b.to.y.is_ge(&a.from.y));
    assert(a.to.y.is_ge(&b.from.y) == b.from.y.is_le(&a.to.y));
}

/// Law: two rectangles of cells, each with its `from` corner at or before its `to` corner,
/// overlap exactly when some cell lies in both.
pub proof fn law_overlaps_iff_common_cell(a: XYRectangle<u32>, b: XYRectangle<u32>)
    requires
        a.from.x <= a.to.x && a.from.y <= a.to.y,
        b.from.x <= b.to.x && b.from.y <= b.to.y,
    ensures
        a.overlaps_spec(b) <==> exists|p: XY<u32>| #[trigger] a.contains_spec(p) && b.contains_spec(p),
{
    if a.overlaps_spec(b) {
        let p = XY {
            x: if a.from.x >= b.from.x { a.from.x } else { b.from.x },
            y: if a.from.y >= b.from.y { a.from.y } else { b.from.y },
        };
        assert(a.contains_spec(p) && b.contains_spec(p));
    }
    if exists|p: XY<u32>| #[trigger] a.contains_spec(p) && b.contains_spec(p) {
        let p = choose|p: XY<u32>| #[trigger] a.contains_spec(p) && b.contains_spec(p);
        assert(a.overlaps_spec(b));
    }
}

/// Law: expanding a rectangle keeps every cell it contained.
pub proof fn law_expand_keeps_cells(rectangle: XYRectangle<u32>, cell_count: u32, position: XY<u32>)
    requires
        rectangle.contains_spec(position),
    ensures
        ({
            let e = XYRectangle {
                from: XY {
                    x: (if rectangle.from.x >= cell_count { rectangle.from.x - cell_count } else { 0 }) as u32,
                    y: (if rectangle.from.y >= cell_count { rectangle.from.y - cell_count } else { 0 }) as u32,
                },
                to: XY {
                    x: (if rectangle.to.x + cell_count <= u32::MAX { rectangle.to.x + cell_count } else { u32::MAX as int }) as u32,
                    y: (if rectangle.to.y + cell_count <= u32::MAX { rectangle.to.y + cell_count } else { u32::MAX as int }) as u32,
                },
            };
            e.contains_spec(position)
        }),
{
}

/// Law: every cell that `iter` lists lies within the rectangle.
pub proof fn law_iter_cells_contained(rectangle: XYRectangle<u32>, k: int)
    requires
        0 <= k < rectangle.cell_count(),
    ensures
        rectangle.contains_spec(rectangle.cell_at(k)),
{
    let w = rectangle.to.x - rectangle.from.x + 1;
    let h = rectangle.to.y - rectangle.from.y + 1;
    vstd::arithmetic::div_mod::lemma_fundamental_div_mod(k, h);
    vstd::arithmetic::div_mod::lemma_mod_pos_bound(k, h);
    vstd::arithmetic::div_mod::lemma_div_pos_is_pos(k, h);
    let q = k / h;
    if q >= w {
        assert(h * q >= h * w) by (nonlinear_arith)
            requires
                q >= w,
                h > 0,
        ;
        assert(h * w == w * h) by (nonlinear_arith);
    }
}


impl<T> From<XY<T>> for [T; 2] {
    /// The coordinates as an array `[x, y]`.
    fn from(position: XY<T>) -> (r: [T; 2]) {
        [position.x, position.y]
    }
}

impl<T> vstd::std_specs::convert::FromSpecImpl<XY<T>> for [T; 2] {
    open spec fn obeys_from_spec() -> bool {
        true
    }

    open spec fn from_spec(v: XY<T>) -> [T; 2] {
        [v.x, v.y]
    }
}

impl<T> From<XYZ<T>> for [T; 3] {
    /// The coordinates as an array `[x, y, z]`.
    fn from(position: XYZ<T>) -> (r: [T; 3]) {
        [position.x, position.y, position.z]
    }
}

impl<T> vstd::std_specs::convert::FromSpecImpl<XYZ<T>> for [T; 3] {
    open spec fn obeys_from_spec() -> bool {
        true
    }

    open spec fn from_spec(v: XYZ<T>) -> [T; 3] {
        [v.x, v.y, v.z]
    }
}

} // verus!
