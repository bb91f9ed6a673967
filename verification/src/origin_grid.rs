use vstd::prelude::*;
use vstd::std_specs::cmp::PartialEqSpec;

use crate::geometry::{xy, XYRectangle, XY};
use crate::grid::{index_of, offset_spec, position_of, Grid};
use crate::text::{decimal, push_decimal};

verus! {

/// `position` shifted by `origin`, computed without bounds.
pub open spec fn shift(position: XY<u32>, origin: XY<u32>) -> XY<int> {
    XY { x: position.x + origin.x, y: position.y + origin.y }
}

/// Whether `position` shifted by `origin` is still a `u32` position.
pub open spec fn shift_fits(position: XY<u32>, origin: XY<u32>) -> bool {
    position.x + origin.x <= u32::MAX && position.y + origin.y <= u32::MAX
}

/// `position` shifted by `origin`, as a `u32` position.
pub open spec fn shifted(position: XY<u32>, origin: XY<u32>) -> XY<u32> {
    XY { x: (position.x + origin.x) as u32, y: (position.y + origin.y) as u32 }
}

/// `position` relative to `origin`.
pub open spec fn unshifted(position: XY<u32>, origin: XY<u32>) -> XY<u32> {
    XY { x: (position.x - origin.x) as u32, y: (position.y - origin.y) as u32 }
}

/// The message of the error that `rectangle` returns for an empty grid.
pub open spec fn empty_rectangle_message(width: u32, height: u32) -> Seq<char> {
    "XYRectangle cannot be computed for an OriginGrid with width ("@ + decimal(width as nat)
        + ") == 0 or height ("@ + decimal(height as nat) + ") == 0"@
}

/// A grid whose top-left cell sits at `origin` rather than at `(0, 0)`.
#[derive(Clone, Debug, PartialEq)]
pub struct OriginGrid<T> {
    origin: XY<u32>,
    grid: Grid<T>,
}

impl<T> OriginGrid<T> {
    /// The position of the top-left cell.
    pub closed spec fn spec_origin(&self) -> XY<u32> {
        self.origin
    }

    /// The cells, as a grid anchored at `(0, 0)`.
    pub closed spec fn spec_grid(&self) -> Grid<T> {
        self.grid
    }

    /// The underlying grid is well formed.
    pub open spec fn wf(&self) -> bool {
        self.spec_grid().wf()
    }

    /// Whether `position` is one of the cells, in the grid's own coordinates.
    pub open spec fn contains_spec(&self, position: XY<u32>) -> bool {
        &&& self.spec_origin().x <= position.x
        &&& self.spec_origin().y <= position.y
        &&& position.x - self.spec_origin().x < self.spec_grid().spec_width()
        &&& position.y - self.spec_origin().y < self.spec_grid().spec_height()
    }

    /// The cell at `position`, in the grid's own coordinates.
    pub open spec fn cell(&self, position: XY<u32>) -> T {
        self.spec_grid().cell(unshifted(position, self.spec_origin()))
    }

    /// The position of the cell stored at `index`.
    pub open spec fn position_at(&self, index: int) -> XY<int> {
        shift(position_of(self.spec_grid().spec_width(), index), self.spec_origin())
    }

    /// The position of the top-left cell.
    pub fn origin(&self) -> (r: &XY<u32>)
        ensures
            *r == self.spec_origin(),
    {
        &self.origin
    }

    /// The number of columns.
    pub fn width(&self) -> (r: u32)
        ensures
            r == self.spec_grid().spec_width(),
    {
        self.grid.width()
    }

    /// The number of rows.
    pub fn height(&self) -> (r: u32)
        ensures
            r == self.spec_grid().spec_height(),
    {
        self.grid.height()
    }

    /// Anchors `grid` at `origin`.
    pub fn new(origin: XY<u32>, grid: Grid<T>) -> (r: OriginGrid<T>)
        ensures
            r.spec_origin() == origin,
            r.spec_grid() == grid,
    {
        OriginGrid { origin, grid }
    }

    /// A grid covering `rectangle` whose every cell is a clone of `element`.
    pub fn from_rectangle(rectangle: XYRectangle<u32>, element: T) -> (r: OriginGrid<T>)
        where
            T: Clone,
        requires
            rectangle.from.x <= rectangle.to.x,
            rectangle.from.y <= rectangle.to.y,
            rectangle.width_spec() <= u32::MAX,
            rectangle.height_spec() <= u32::MAX,
            rectangle.width_spec() * rectangle.height_spec() <= usize::MAX,
        ensures
            r.wf(),
            r.spec_origin() == rectangle.from,
            r.spec_grid().spec_width() == rectangle.width_spec(),
            r.spec_grid().spec_height() == rectangle.height_spec(),
            forall|i: int|
                0 <= i < r.spec_grid().cells().len() ==> cloned(
                    element,
                    #[trigger] r.spec_grid().cells()[i],
                ),
    {
        OriginGrid {
            origin: rectangle.from,
            grid: Grid::from_element(rectangle.width(), rectangle.height(), element),
        }
    }

    /// The rectangle that the grid covers; an error for a grid without cells.
    pub fn rectangle(&self) -> (r: Result<XYRectangle<u32>, String>)
        requires
            self.spec_grid().spec_width() > 0 && self.spec_grid().spec_height() > 0 ==> shift_fits(
                XY {
                    x: (self.spec_grid().spec_width() - 1) as u32,
                    y: (self.spec_grid().spec_height() - 1) as u32,
                },
                self.spec_origin(),
            ),
        ensures
            self.spec_grid().spec_width() == 0 || self.spec_grid().spec_height() == 0 ==> (r matches Err(
                message,
            ) && message@ == empty_rectangle_message(
                self.spec_grid().spec_width(),
                self.spec_grid().spec_height(),
            )),
            self.spec_grid().spec_width() > 0 && self.spec_grid().spec_height() > 0 ==> r == Ok::<
                XYRectangle<u32>,
                String,
            >(
                XYRectangle {
                    from: self.spec_origin(),
                    to: shifted(
                        XY {
                            x: (self.spec_grid().spec_width() - 1) as u32,
                            y: (self.spec_grid().spec_height() - 1) as u32,
                        },
                        self.spec_origin(),
                    ),
                },
            ),
    {
        let width = self.width();
        let height = self.height();
        if width == 0 || height == 0 {
            let mut message = String::from_str(
                "XYRectangle cannot be computed for an OriginGrid with width (",
            );
            push_decimal(&mut message, width as u64);
            message.append(") == 0 or height (");
            push_decimal(&mut message, height as u64);
            message.append(") == 0");
            return Err(message);
        }
        Ok(XYRectangle { from: self.origin, to: self.origin + xy(width - 1, height - 1) })
    }

    /// The row-major index of `position`, measured from the origin.
    pub fn index(&self, position: XY<u32>) -> (r: usize)
        requires
            self.spec_origin().x <= position.x,
            self.spec_origin().y <= position.y,
            index_of(self.spec_grid().spec_width(), unshifted(position, self.spec_origin()))
                <= usize::MAX,
        ensures
            r == index_of(self.spec_grid().spec_width(), unshifted(position, self.spec_origin())),
    {
        self.grid.index(position - self.origin)
    }

    /// The position of the cell stored at `index`.
    pub fn xy(&self, index: usize) -> (r: XY<u32>)
        requires
            self.spec_grid().spec_width() > 0,
            (index as int) / (self.spec_grid().spec_width() as int) <= u32::MAX,
            shift_fits(position_of(self.spec_grid().spec_width(), index as int), self.spec_origin()),
        ensures
            r == shifted(position_of(self.spec_grid().spec_width(), index as int), self.spec_origin()),
    {
        self.grid.xy(index) + xy(self.origin.x, self.origin.y)
    }

    /// Whether `position` is one of the cells.
    pub fn in_bounds(&self, position: XY<u32>) -> (r: bool)
        ensures
            r == self.contains_spec(position),
    {
        if self.origin.x > position.x || self.origin.y > position.y {
            return false;
        }
        self.grid.in_bounds(position - self.origin)
    }

    /// Where `position` moved by `offset` lands, if that is one of the cells.
    pub open spec fn offset_spec(&self, position: XY<u32>, offset: XY<i32>) -> Option<XY<u32>> {
        match offset_spec(
            self.spec_grid().spec_width(),
            self.spec_grid().spec_height(),
            unshifted(position, self.spec_origin()),
            offset,
        ) {
            Some(local) => Some(shifted(local, self.spec_origin())),
            None => None,
        }
    }

    /// Whether the cell that `offset` reaches from `position`, if any, has a `u32` position.
    pub open spec fn offset_fits(&self, position: XY<u32>, offset: XY<i32>) -> bool {
        match offset_spec(
            self.spec_grid().spec_width(),
            self.spec_grid().spec_height(),
            unshifted(position, self.spec_origin()),
            offset,
        ) {
            Some(local) => shift_fits(local, self.spec_origin()),
            None => true,
        }
    }

    /// The cells that `offsets` reach from `position`, in order, skipping those off the grid.
    pub open spec fn offsets_spec(&self, position: XY<u32>, offsets: Seq<XY<i32>>) -> Seq<XY<u32>>
        decreases offsets.len(),
    {
        if offsets.len() == 0 {
            Seq::empty()
        } else {
            let before = self.offsets_spec(position, offsets.drop_last());
            match self.offset_spec(position, offsets.last()) {
                Some(target) => before.push(target),
                None => before,
            }
        }
    }

    /// Moves `position` by `offset`; `None` where that leaves the grid.
    pub fn offset(&self, position: XY<u32>, offset: XY<i32>) -> (r: Option<XY<u32>>)
        requires
            self.spec_origin().x <= position.x,
            self.spec_origin().y <= position.y,
            self.offset_fits(position, offset),
        ensures
            r == self.offset_spec(position, offset),
    {
        match self.grid.offset(position - self.origin, offset) {
            Some(local) => Some(local + self.origin),
            None => None,
        }
    }

    /// The cells that `offsets` reach from `position`, in the order of `offsets`.
    pub fn offsets(&self, position: XY<u32>, offsets: &[XY<i32>]) -> (r: Vec<XY<u32>>)
        requires
            self.spec_origin().x <= position.x,
            self.spec_origin().y <= position.y,
            forall|k: int| 0 <= k < offsets@.len() ==> self.offset_fits(position, #[trigger] offsets@[k]),
        ensures
            r@ == self.offsets_spec(position, offsets@),
    {
        let mut out: Vec<XY<u32>> = Vec::new();
        let mut i: usize = 0;
        while i < offsets.len()
            invariant
                i <= offsets@.len(),
                self.spec_origin().x <= position.x,
                self.spec_origin().y <= position.y,
                forall|k: int| 0 <= k < offsets@.len() ==> self.offset_fits(position, #[trigger] offsets@[k]),
                out@ == self.offsets_spec(position, offsets@.take(i as int)),
            decreases offsets@.len() - i,
        {
            proof {
                assert(offsets@.take(i + 1).drop_last() =~= offsets@.take(i as int));
            }
            if let Some(target) = self.offset(position, offsets[i]) {
                out.push(target);
            }
            i += 1;
        }
        proof {
            assert(offsets@.take(offsets@.len() as int) =~= offsets@);
        }
        out
    }

    /// Every position of the grid, row by row.
    pub fn iter(&self) -> (r: Vec<XY<u32>>)
        requires
            self.wf(),
            self.spec_grid().cells().len() > 0 ==> shift_fits(
                XY {
                    x: (self.spec_grid().spec_width() - 1) as u32,
                    y: (self.spec_grid().spec_height() - 1) as u32,
                },
                self.spec_origin(),
            ),
        ensures
            r@.len() == self.spec_grid().cells().len(),
            forall|i: int|
                0 <= i < r@.len() ==> #[trigger] r@[i] == shifted(
                    position_of(self.spec_grid().spec_width(), i),
                    self.spec_origin(),
                ),
    {
        let origin = self.origin;
        let local = self.grid.iter();
        let mut out: Vec<XY<u32>> = Vec::new();
        let mut i: usize = 0;
        while i < local.len()
            invariant
                self.wf(),
                origin == self.spec_origin(),
                local@.len() == self.spec_grid().cells().len(),
                forall|k: int|
                    0 <= k < local@.len() ==> #[trigger] local@[k] == position_of(
                        self.spec_grid().spec_width(),
                        k,
                    ),
                self.spec_grid().cells().len() > 0 ==> shift_fits(
                    XY {
                        x: (self.spec_grid().spec_width() - 1) as u32,
                        y: (self.spec_grid().spec_height() - 1) as u32,
                    },
                    self.spec_origin(),
                ),
                i <= local@.len(),
                out@.len() == i,
                forall|k: int|
                    0 <= k < i ==> #[trigger] out@[k] == shifted(
                        position_of(self.spec_grid().spec_width(), k),
                        self.spec_origin(),
                    ),
            decreases local@.len() - i,
        {
            proof {
                crate::grid::lemma_position_in_grid(self.spec_grid(), i as int);
            }
            out.push(local[i] + origin);
            i += 1;
        }
        out
    }

    /// The cell at `position`, which must lie at or after the origin and within the storage.
    pub fn get(&self, position: XY<u32>) -> (r: &T)
        requires
            self.spec_origin().x <= position.x,
            self.spec_origin().y <= position.y,
            index_of(self.spec_grid().spec_width(), unshifted(position, self.spec_origin()))
                < self.spec_grid().cells().len(),
        ensures
            *r == self.cell(position),
    {
        self.grid.get(position - self.origin)
    }

    /// Replaces the cell at `position`, which must lie at or after the origin and within the
    /// storage.
    pub fn set(&mut self, position: XY<u32>, value: T)
        requires
            old(self).spec_origin().x <= position.x,
            old(self).spec_origin().y <= position.y,
            index_of(old(self).spec_grid().spec_width(), unshifted(position, old(self).spec_origin()))
                < old(self).spec_grid().cells().len(),
        ensures
            final(self).spec_origin() == old(self).spec_origin(),
            final(self).spec_grid().spec_width() == old(self).spec_grid().spec_width(),
            final(self).spec_grid().spec_height() == old(self).spec_grid().spec_height(),
            final(self).spec_grid().cells() == old(self).spec_grid().cells().update(
                index_of(old(self).spec_grid().spec_width(), unshifted(position, old(self).spec_origin())),
                value,
            ),
    {
        let local = position - self.origin;
        self.grid.set(local, value);
    }
}


impl<T> OriginGrid<T> {
    /// Whether the cell at the unbounded position `p` belongs to the grid.
    pub open spec fn covers(&self, p: XY<int>) -> bool {
        &&& self.spec_origin().x <= p.x < self.spec_origin().x + self.spec_grid().spec_width()
        &&& self.spec_origin().y <= p.y < self.spec_origin().y + self.spec_grid().spec_height()
    }

    /// The cell at the unbounded position `p`, which the grid must cover.
    pub open spec fn cell_at(&self, p: XY<int>) -> T {
        self.spec_grid().cells()[(p.x - self.spec_origin().x) + (p.y - self.spec_origin().y)
            * self.spec_grid().spec_width()]
    }

    /// A grid of the same size and origin whose cells are `function` applied to each position
    /// and cell.
    pub fn map<U, F: Fn(XY<u32>, &T) -> U>(&self, function: F) -> (r: OriginGrid<U>)
        requires
            self.wf(),
            forall|i: int|
                0 <= i < self.spec_grid().cells().len() ==> shift_fits(
                    #[trigger] position_of(self.spec_grid().spec_width(), i),
                    self.spec_origin(),
                ),
            forall|i: int|
                0 <= i < self.spec_grid().cells().len() ==> call_requires(
                    function,
                    (
                        shifted(position_of(self.spec_grid().spec_width(), i), self.spec_origin()),
                        &#[trigger] self.spec_grid().cells()[i],
                    ),
                ),
        ensures
            r.wf(),
            r.spec_origin() == self.spec_origin(),
            r.spec_grid().spec_width() == self.spec_grid().spec_width(),
            r.spec_grid().spec_height() == self.spec_grid().spec_height(),
            forall|i: int|
                0 <= i < r.spec_grid().cells().len() ==> call_ensures(
                    function,
                    (
                        shifted(position_of(self.spec_grid().spec_width(), i), self.spec_origin()),
                        &self.spec_grid().cells()[i],
                    ),
                    #[trigger] r.spec_grid().cells()[i],
                ),
    {
        let origin = self.origin;
        let width = self.grid.width();
        let height = self.grid.height();
        let positions = self.grid.iter();
        let mut elements: Vec<U> = Vec::new();
        let mut i: usize = 0;
        while i < positions.len()
            invariant
                self.wf(),
                origin == self.spec_origin(),
                width == self.spec_grid().spec_width(),
                height == self.spec_grid().spec_height(),
                positions@.len() == self.spec_grid().cells().len(),
                forall|k: int|
                    0 <= k < positions@.len() ==> #[trigger] positions@[k] == position_of(width, k),
                forall|k: int|
                    0 <= k < self.spec_grid().cells().len() ==> shift_fits(
                        #[trigger] position_of(width, k),
                        origin,
                    ),
                forall|k: int|
                    0 <= k < self.spec_grid().cells().len() ==> call_requires(
                        function,
                        (shifted(position_of(width, k), origin), &#[trigger] self.spec_grid().cells()[k]),
                    ),
                i <= positions@.len(),
                elements@.len() == i,
                forall|k: int|
                    0 <= k < i ==> call_ensures(
                        function,
                        (shifted(position_of(width, k), origin), &self.spec_grid().cells()[k]),
                        #[trigger] elements@[k],
                    ),
            decreases positions@.len() - i,
        {
            let p = positions[i];
            proof {
                crate::grid::lemma_position_in_grid(self.spec_grid(), i as int);
                assert(shift_fits(position_of(width, i as int), origin));
            }
            let value = self.grid.get(p);
            let mapped = function(p + origin, value);
            elements.push(mapped);
            i += 1;
        }
        let grid = Grid::from_vec(width, height, elements);
        OriginGrid { origin, grid }
    }
}


/// The smaller of two coordinates.
fn min_u32(a: u32, b: u32) -> (r: u32)
    ensures
        r == (if a <= b { a } else { b }),
{
    if a <= b {
        a
    } else {
        b
    }
}

/// The larger of two coordinates.
fn max_u32(a: u32, b: u32) -> (r: u32)
    ensures
        r == (if a >= b { a } else { b }),
{
    if a >= b {
        a
    } else {
        b
    }
}

/// Whether `inner` lies entirely within `outer`.
pub open spec fn encloses<T>(outer: OriginGrid<T>, inner: OriginGrid<T>) -> bool {
    &&& outer.spec_origin().x <= inner.spec_origin().x
    &&& outer.spec_origin().y <= inner.spec_origin().y
    &&& inner.spec_origin().x + inner.spec_grid().spec_width() <= outer.spec_origin().x
        + outer.spec_grid().spec_width()
    &&& inner.spec_origin().y + inner.spec_grid().spec_height() <= outer.spec_origin().y
        + outer.spec_grid().spec_height()
}

/// Copies every cell of `source` into `out`, which must enclose it.
fn copy_into<T: Copy>(out: &mut OriginGrid<T>, source: &OriginGrid<T>)
    requires
        old(out).wf(),
        source.wf(),
        encloses(*old(out), *source),
        source.spec_origin().x + source.spec_grid().spec_width() <= u32::MAX,
        source.spec_origin().y + source.spec_grid().spec_height() <= u32::MAX,
    ensures
        final(out).wf(),
        final(out).spec_origin() == old(out).spec_origin(),
        final(out).spec_grid().spec_width() == old(out).spec_grid().spec_width(),
        final(out).spec_grid().spec_height() == old(out).spec_grid().spec_height(),
        forall|i: int|
            0 <= i < final(out).spec_grid().cells().len() ==> #[trigger] final(out).spec_grid().cells()[i]
                == (if source.covers(old(out).position_at(i)) {
                source.cell_at(old(out).position_at(i))
            } else {
                old(out).spec_grid().cells()[i]
            }),
{
    let ghost before = *out;
    let ghost ow = out.spec_grid().spec_width();
    let ghost oh = out.spec_grid().spec_height();
    let ghost oo = out.spec_origin();
    let ghost so = source.spec_origin();
    let sw = source.width();
    let sh = source.height();
    let sx = source.origin.x;
    let sy = source.origin.y;
    let mut ly: u32 = 0;
    while ly < sh
        invariant
            source.wf(),
            out.wf(),
            out.spec_origin() == oo,
            out.spec_grid().spec_width() == ow,
            out.spec_grid().spec_height() == oh,
            before.spec_origin() == oo,
            before.spec_grid().spec_width() == ow,
            before.spec_grid().spec_height() == oh,
            before.wf(),
            encloses(before, *source),
            so == source.spec_origin(),
            sx == so.x,
            sy == so.y,
            sw == source.spec_grid().spec_width(),
            sh == source.spec_grid().spec_height(),
            sx + sw <= u32::MAX,
            sy + sh <= u32::MAX,
            ly <= sh,
            forall|i: int|
                0 <= i < out.spec_grid().cells().len() ==> #[trigger] out.spec_grid().cells()[i]
                    == if source.covers(before.position_at(i)) && before.position_at(i).y - sy < ly {
                    source.cell_at(before.position_at(i))
                } else {
                    before.spec_grid().cells()[i]
                },
        decreases sh - ly,
    {
        let mut lx: u32 = 0;
        while lx < sw
            invariant
                source.wf(),
                out.wf(),
                out.spec_origin() == oo,
                out.spec_grid().spec_width() == ow,
                out.spec_grid().spec_height() == oh,
                before.spec_origin() == oo,
                before.spec_grid().spec_width() == ow,
                before.spec_grid().spec_height() == oh,
                before.wf(),
                encloses(before, *source),
                so == source.spec_origin(),
                sx == so.x,
                sy == so.y,
                sw == source.spec_grid().spec_width(),
                sh == source.spec_grid().spec_height(),
                sx + sw <= u32::MAX,
                sy + sh <= u32::MAX,
                ly < sh,
                lx <= sw,
                forall|i: int|
                    0 <= i < out.spec_grid().cells().len() ==> #[trigger] out.spec_grid().cells()[i]
                        == if source.covers(before.position_at(i)) && (before.position_at(i).y - sy
                        < ly || (before.position_at(i).y - sy == ly && before.position_at(i).x - sx
                        < lx)) {
                        source.cell_at(before.position_at(i))
                    } else {
                        before.spec_grid().cells()[i]
                    },
            decreases sw - lx,
        {
            let q = XY { x: sx + lx, y: sy + ly };
            let ghost qi = XY { x: q.x as int, y: q.y as int };
            let ghost k = (q.x - oo.x) + (q.y - oo.y) * ow;
            let ghost local = XY { x: (q.x - oo.x) as u32, y: (q.y - oo.y) as u32 };
            proof {
                crate::grid::lemma_row_bound(sw as int, sh as int, lx as int, ly as int);
                crate::grid::lemma_row_bound(ow as int, oh as int, local.x as int, local.y as int);
                assert(k == index_of(ow, local));
            }
            let value = *source.get(q);
            out.set(q, value);
            proof {
                assert forall|i: int| 0 <= i < out.spec_grid().cells().len() implies #[trigger] out.spec_grid().cells()[i]
                    == if source.covers(before.position_at(i)) && (before.position_at(i).y - sy < ly || (
                    before.position_at(i).y - sy == ly && before.position_at(i).x - sx < lx + 1)) {
                    source.cell_at(before.position_at(i))
                } else {
                    before.spec_grid().cells()[i]
                } by {
                    crate::grid::lemma_position_bounds(ow, oh, i);
                    if i == k {
                        assert(position_of(ow, i) == local);
                        assert(before.position_at(i) == qi);
                    } else {
                        assert(before.position_at(i) != qi);
                    }
                }
            }
            lx += 1;
        }
        ly += 1;
    }
}

impl<T: Copy + Default + Ord> OriginGrid<T> {
    /// The smallest grid enclosing both grids, holding the cells of `other` where it lies,
    /// the cells of `self` elsewhere within `self`, and `T::default()` in the remaining cells.
    pub fn paste(&self, other: &OriginGrid<T>) -> (r: OriginGrid<T>)
        requires
            self.wf(),
            other.wf(),
            self.spec_origin().x + self.spec_grid().spec_width() <= u32::MAX,
            self.spec_origin().y + self.spec_grid().spec_height() <= u32::MAX,
            other.spec_origin().x + other.spec_grid().spec_width() <= u32::MAX,
            other.spec_origin().y + other.spec_grid().spec_height() <= u32::MAX,
            paste_width(*self, *other) * paste_height(*self, *other) <= usize::MAX,
        ensures
            r.wf(),
            r.spec_origin() == paste_origin(*self, *other),
            r.spec_grid().spec_width() == paste_width(*self, *other),
            r.spec_grid().spec_height() == paste_height(*self, *other),
            forall|i: int|
                0 <= i < r.spec_grid().cells().len() ==> ({
                    let p = r.position_at(i);
                    if other.covers(p) {
                        #[trigger] r.spec_grid().cells()[i] == other.cell_at(p)
                    } else if self.covers(p) {
                        r.spec_grid().cells()[i] == self.cell_at(p)
                    } else {
                        call_ensures(T::default, (), r.spec_grid().cells()[i])
                    }
                }),
    {
        let min = xy(min_u32(self.origin.x, other.origin.x), min_u32(self.origin.y, other.origin.y));
        let max_plus_one = xy(
            max_u32(self.origin.x + self.width(), other.origin.x + other.width()),
            max_u32(self.origin.y + self.height(), other.origin.y + other.height()),
        );

        let mut out = OriginGrid {
            origin: min,
            grid: Grid::default(max_plus_one.x - min.x, max_plus_one.y - min.y),
        };
        let ghost blank = out;
        copy_into(&mut out, self);
        let ghost middle = out;
        copy_into(&mut out, other);
        proof {
            assert forall|i: int| 0 <= i < out.spec_grid().cells().len() implies {
                let p = out.position_at(i);
                if other.covers(p) {
                    #[trigger] out.spec_grid().cells()[i] == other.cell_at(p)
                } else if self.covers(p) {
                    out.spec_grid().cells()[i] == self.cell_at(p)
                } else {
                    call_ensures(T::default, (), out.spec_grid().cells()[i])
                }
            } by {
                assert(middle.position_at(i) == out.position_at(i));
                assert(blank.position_at(i) == out.position_at(i));
                assert(middle.spec_grid().cells()[i] == middle.spec_grid().cells()[i]);
                assert(blank.spec_grid().cells()[i] == blank.spec_grid().cells()[i]);
            }
        }
        out
    }
}

/// The origin of the grid that `paste` builds.
pub open spec fn paste_origin<T>(a: OriginGrid<T>, b: OriginGrid<T>) -> XY<u32> {
    XY {
        x: if a.spec_origin().x <= b.spec_origin().x { a.spec_origin().x } else { b.spec_origin().x },
        y: if a.spec_origin().y <= b.spec_origin().y { a.spec_origin().y } else { b.spec_origin().y },
    }
}

/// The width of the grid that `paste` builds.
pub open spec fn paste_width<T>(a: OriginGrid<T>, b: OriginGrid<T>) -> int {
    let ra = a.spec_origin().x + a.spec_grid().spec_width();
    let rb = b.spec_origin().x + b.spec_grid().spec_width();
    (if ra >= rb { ra } else { rb }) - paste_origin(a, b).x
}

/// The height of the grid that `paste` builds.
pub open spec fn paste_height<T>(a: OriginGrid<T>, b: OriginGrid<T>) -> int {
    let ra = a.spec_origin().y + a.spec_grid().spec_height();
    let rb = b.spec_origin().y + b.spec_grid().spec_height();
    (if ra >= rb { ra } else { rb }) - paste_origin(a, b).y
}


impl<T: PartialEq> OriginGrid<T> {
    /// Whether the cell stored at `k` differs from `zero`.
    pub open spec fn marked(&self, zero: T, k: int) -> bool {
        0 <= k < self.spec_grid().cells().len() && !self.spec_grid().cells()[k].eq_spec(&zero)
    }

    /// `from` and `to` are the corners of the smallest rectangle holding every cell stored
    /// before `n` that differs from `zero`.
    pub open spec fn marked_bounds(&self, zero: T, n: int, from: XY<u32>, to: XY<u32>) -> bool {
        &&& forall|k: int|
            0 <= k < n && #[trigger] self.marked(zero, k) ==> {
                let p = self.position_at(k);
                from.x <= p.x <= to.x && from.y <= p.y <= to.y
            }
        &&& exists|k: int| 0 <= k < n && #[trigger] self.marked(zero, k) && self.position_at(k).x == from.x
        &&& exists|k: int| 0 <= k < n && #[trigger] self.marked(zero, k) && self.position_at(k).y == from.y
        &&& exists|k: int| 0 <= k < n && #[trigger] self.marked(zero, k) && self.position_at(k).x == to.x
        &&& exists|k: int| 0 <= k < n && #[trigger] self.marked(zero, k) && self.position_at(k).y == to.y
    }

    /// What `crop` returns when cells equal to `zero` count as empty: `None` when every cell
    /// is empty, else the smallest grid holding every non-empty cell, with the cells of `self`.
    pub open spec fn crop_result(&self, zero: T, r: Option<OriginGrid<T>>) -> bool {
        &&& r is None <==> (forall|k: int| 0 <= k < self.spec_grid().cells().len() ==> !#[trigger] self.marked(zero, k))
        &&& r matches Some(c) ==> {
            &&& c.wf()
            &&& self.marked_bounds(
                zero,
                self.spec_grid().cells().len() as int,
                c.spec_origin(),
                XY {
                    x: (c.spec_origin().x + c.spec_grid().spec_width() - 1) as u32,
                    y: (c.spec_origin().y + c.spec_grid().spec_height() - 1) as u32,
                },
            )
            &&& c.spec_grid().spec_width() > 0
            &&& c.spec_grid().spec_height() > 0
            &&& forall|j: int|
                0 <= j < c.spec_grid().cells().len() ==> #[trigger] c.spec_grid().cells()[j]
                    == self.cell_at(c.position_at(j))
        }
    }
}

/// Fills every cell of `out` with the cell of `source` at the same position; `source` must
/// enclose `out`.
fn copy_window<T: Copy>(out: &mut OriginGrid<T>, source: &OriginGrid<T>)
    requires
        old(out).wf(),
        source.wf(),
        encloses(*source, *old(out)),
        source.spec_origin().x + source.spec_grid().spec_width() <= u32::MAX + 1,
        source.spec_origin().y + source.spec_grid().spec_height() <= u32::MAX + 1,
    ensures
        final(out).wf(),
        final(out).spec_origin() == old(out).spec_origin(),
        final(out).spec_grid().spec_width() == old(out).spec_grid().spec_width(),
        final(out).spec_grid().spec_height() == old(out).spec_grid().spec_height(),
        forall|j: int|
            0 <= j < final(out).spec_grid().cells().len() ==> #[trigger] final(out).spec_grid().cells()[j]
                == source.cell_at(old(out).position_at(j)),
{
    let ghost before = *out;
    let ow = out.width();
    let ghost oh = out.spec_grid().spec_height();
    let origin = out.origin;
    let positions = out.grid.iter();
    let mut j: usize = 0;
    while j < positions.len()
        invariant
            source.wf(),
            out.wf(),
            before.wf(),
            encloses(*source, before),
            source.spec_origin().x + source.spec_grid().spec_width() <= u32::MAX + 1,
            source.spec_origin().y + source.spec_grid().spec_height() <= u32::MAX + 1,
            out.spec_origin() == before.spec_origin(),
            out.spec_grid().spec_width() == before.spec_grid().spec_width(),
            out.spec_grid().spec_height() == before.spec_grid().spec_height(),
            origin == before.spec_origin(),
            ow == before.spec_grid().spec_width(),
            oh == before.spec_grid().spec_height(),
            positions@.len() == before.spec_grid().cells().len(),
            forall|k: int| 0 <= k < positions@.len() ==> #[trigger] positions@[k] == position_of(ow, k),
            j <= positions@.len(),
            forall|k: int|
                0 <= k < out.spec_grid().cells().len() ==> #[trigger] out.spec_grid().cells()[k]
                    == if k < j {
                    source.cell_at(before.position_at(k))
                } else {
                    before.spec_grid().cells()[k]
                },
        decreases positions@.len() - j,
    {
        let local = positions[j];
        proof {
            crate::grid::lemma_position_bounds(ow, oh, j as int);
        }
        let p = local + origin;
        let ghost pi = before.position_at(j as int);
        let ghost si = (pi.x - source.spec_origin().x) + (pi.y - source.spec_origin().y)
            * source.spec_grid().spec_width();
        proof {
            crate::grid::lemma_row_bound(
                source.spec_grid().spec_width() as int,
                source.spec_grid().spec_height() as int,
                pi.x - source.spec_origin().x,
                pi.y - source.spec_origin().y,
            );
            assert(p.x == pi.x && p.y == pi.y);
            assert(index_of(source.spec_grid().spec_width(), unshifted(p, source.spec_origin())) == si);
        }
        let value = *source.get(p);
        out.grid.set(local, value);
        j += 1;
    }
}

impl<T: Copy + Default + PartialEq> OriginGrid<T> {
    /// The smallest grid holding every cell that differs from `T::default()`, or `None` when
    /// there is no such cell.
    pub fn crop(&self) -> (r: Option<OriginGrid<T>>)
        requires
            self.wf(),
            self.spec_grid().cells().len() > 0 ==> shift_fits(
                XY {
                    x: (self.spec_grid().spec_width() - 1) as u32,
                    y: (self.spec_grid().spec_height() - 1) as u32,
                },
                self.spec_origin(),
            ),
        ensures
            exists|zero: T|
                #[trigger] call_ensures(T::default, (), zero) && (T::obeys_eq_spec()
                    ==> self.crop_result(zero, r)),
    {
        let zero = T::default();
        let origin = self.origin;
        let w = self.grid.width();
        let ghost h = self.spec_grid().spec_height();
        let positions = self.grid.iter();
        let mut min_max: Option<(XY<u32>, XY<u32>)> = None;
        let mut i: usize = 0;
        while i < positions.len()
            invariant
                self.wf(),
                origin == self.spec_origin(),
                w == self.spec_grid().spec_width(),
                h == self.spec_grid().spec_height(),
                positions@.len() == self.spec_grid().cells().len(),
                forall|k: int| 0 <= k < positions@.len() ==> #[trigger] positions@[k] == position_of(w, k),
                self.spec_grid().cells().len() > 0 ==> shift_fits(
                    XY { x: (w - 1) as u32, y: (h - 1) as u32 },
                    origin,
                ),
                i <= positions@.len(),
                min_max matches Some((mn, mx)) ==> {
                    &&& origin.x <= mn.x <= mx.x < origin.x + w
                    &&& origin.y <= mn.y <= mx.y < origin.y + h
                },
                T::obeys_eq_spec() ==> (min_max is None <==> forall|k: int|
                    0 <= k < i ==> !#[trigger] self.marked(zero, k)),
                T::obeys_eq_spec() ==> (min_max matches Some((mn, mx)) ==> self.marked_bounds(
                    zero,
                    i as int,
                    mn,
                    mx,
                )),
            decreases positions@.len() - i,
        {
            let local = positions[i];
            proof {
                crate::grid::lemma_position_bounds(w, h, i as int);
            }
            let p = local + origin;
            let value = *self.grid.get(local);
            if value != zero {
                let ghost old_min_max = min_max;
                match min_max {
                    Some((mn, mx)) => {
                        let new_min = xy(min_u32(mn.x, p.x), min_u32(mn.y, p.y));
                        let new_max = xy(max_u32(mx.x, p.x), max_u32(mx.y, p.y));
                        min_max = Some((new_min, new_max));
                        proof {
                            if T::obeys_eq_spec() {
                                assert(self.marked(zero, i as int));
                                assert forall|k: int| 0 <= k < i + 1 && #[trigger] self.marked(zero, k) implies {
                                    let q = self.position_at(k);
                                    new_min.x <= q.x <= new_max.x && new_min.y <= q.y <= new_max.y
                                } by {
                                    if k < i {
                                        assert(self.marked(zero, k));
                                    }
                                }
                                if p.x < mn.x {
                                    assert(self.position_at(i as int).x == new_min.x);
                                }
                                if p.y < mn.y {
                                    assert(self.position_at(i as int).y == new_min.y);
                                }
                                if p.x > mx.x {
                                    assert(self.position_at(i as int).x == new_max.x);
                                }
                                if p.y > mx.y {
                                    assert(self.position_at(i as int).y == new_max.y);
                                }
                                assert(self.marked_bounds(zero, i + 1, new_min, new_max));
                            }
                        }
                    },
                    None => {
                        min_max = Some((p, p));
                        proof {
                            if T::obeys_eq_spec() {
                                assert(self.marked(zero, i as int));
                                assert(self.position_at(i as int).x == p.x);
                                assert forall|k: int| 0 <= k < i + 1 && #[trigger] self.marked(zero, k) implies {
                                    let q = self.position_at(k);
                                    p.x <= q.x <= p.x && p.y <= q.y <= p.y
                                } by {
                                    if k < i {
                                        assert(!self.marked(zero, k));
                                    }
                                }
                                assert(self.marked_bounds(zero, i + 1, p, p));
                            }
                        }
                    },
                }
            } else {
                proof {
                    if T::obeys_eq_spec() {
                        assert(!self.marked(zero, i as int));
                        if let Some((mn, mx)) = min_max {
                            assert(self.marked_bounds(zero, i + 1, mn, mx));
                        }
                    }
                }
            }
            i += 1;
        }

        let (min, max) = match min_max {
            Some(bounds) => bounds,
            None => {
                return None;
            },
        };

        let bw = (max.x - min.x) + 1;
        let bh = (max.y - min.y) + 1;
        proof {
            assert(bw * bh <= w * h) by (nonlinear_arith)
                requires
                    0 < bw <= w,
                    0 < bh <= h,
            ;
            assert(self.grid.cells().len() <= usize::MAX) by {
                assert(self.grid.cells().len() == w * h);
            }
            assert(w * h > 0) by (nonlinear_arith)
                requires
                    w > 0,
                    h > 0,
            ;
        }
        let mut out = OriginGrid { origin: min, grid: Grid::default(bw, bh) };
        copy_window(&mut out, self);
        proof {
            if T::obeys_eq_spec() {
                assert(self.crop_result(zero, Some(out)));
            }
        }
        Some(out)
    }
}


/// Law: the grid that `from_rectangle` builds for a rectangle covers exactly that rectangle, so
/// `rectangle` gives it back: the grid is not empty, its last cell fits in `u32` positions, and
/// that last cell is the rectangle's `to` corner.
pub proof fn law_rectangle_round_trip<T>(rectangle: XYRectangle<u32>, grid: OriginGrid<T>)
    requires
        rectangle.from.x <= rectangle.to.x,
        rectangle.from.y <= rectangle.to.y,
        grid.spec_origin() == rectangle.from,
        grid.spec_grid().spec_width() == rectangle.width_spec(),
        grid.spec_grid().spec_height() == rectangle.height_spec(),
    ensures
        grid.spec_grid().spec_width() > 0,
        grid.spec_grid().spec_height() > 0,
        shift_fits(
            XY {
                x: (grid.spec_grid().spec_width() - 1) as u32,
                y: (grid.spec_grid().spec_height() - 1) as u32,
            },
            grid.spec_origin(),
        ),
        shifted(
            XY {
                x: (grid.spec_grid().spec_width() - 1) as u32,
                y: (grid.spec_grid().spec_height() - 1) as u32,
            },
            grid.spec_origin(),
        ) == rectangle.to,
{
}

/// Law: in an anchored grid, the position of the cell stored at the index of a covered
/// position is that position again (`xy(index(p)) == p`).
pub proof fn law_xy_of_index<T>(grid: OriginGrid<T>, position: XY<u32>)
    requires
        grid.contains_spec(position),
    ensures
        shift_fits(
            position_of(
                grid.spec_grid().spec_width(),
                index_of(grid.spec_grid().spec_width(), unshifted(position, grid.spec_origin())),
            ),
            grid.spec_origin(),
        ),
        shifted(
            position_of(
                grid.spec_grid().spec_width(),
                index_of(grid.spec_grid().spec_width(), unshifted(position, grid.spec_origin())),
            ),
            grid.spec_origin(),
        ) == position,
{
    crate::grid::law_xy_of_index(
        grid.spec_grid().spec_width(),
        grid.spec_grid().spec_height(),
        unshifted(position, grid.spec_origin()),
    );
}

/// Law: the position of a cell stored in an anchored grid lies in the grid.
pub proof fn law_position_covered<T>(grid: OriginGrid<T>, i: int)
    requires
        grid.wf(),
        0 <= i < grid.spec_grid().cells().len(),
    ensures
        grid.covers(grid.position_at(i)),
{
    crate::grid::lemma_position_in_grid(grid.spec_grid(), i);
}

} // verus!
