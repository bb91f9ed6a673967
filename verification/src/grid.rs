use vstd::prelude::*;
use vstd::std_specs::ops::AddSpec;
use vstd::std_specs::ops::SubSpec;
use vstd::std_specs::cmp::PartialOrdSpec;

use crate::geometry::{xy, XY};

verus! {

/// The position of the cell stored at `index` in a row-major grid `width` cells wide.
pub open spec fn position_of(width: u32, index: int) -> XY<u32> {
    XY { x: (index % (width as int)) as u32, y: (index / (width as int)) as u32 }
}

/// The row-major index of `position` in a grid `width` cells wide.
pub open spec fn index_of(width: u32, position: XY<u32>) -> int {
    position.x + position.y * width
}

/// Where `position` moved by `offset` lands, if that is a cell of a `width` by `height` grid.
pub open spec fn offset_spec(width: u32, height: u32, position: XY<u32>, offset: XY<i32>) -> Option<
    XY<u32>,
> {
    let nx = position.x + offset.x;
    let ny = position.y + offset.y;
    if 0 <= nx < width && 0 <= ny < height {
        Some(XY { x: nx as u32, y: ny as u32 })
    } else {
        None
    }
}

/// The cells that `offsets` reach from `position`, in the order of `offsets`, skipping those
/// that leave the grid.
pub open spec fn offsets_spec(width: u32, height: u32, position: XY<u32>, offsets: Seq<XY<i32>>) -> Seq<
    XY<u32>,
>
    decreases offsets.len(),
{
    if offsets.len() == 0 {
        Seq::empty()
    } else {
        let before = offsets_spec(width, height, position, offsets.drop_last());
        match offset_spec(width, height, position, offsets.last()) {
            Some(target) => before.push(target),
            None => before,
        }
    }
}

/// In a grid `width` cells wide, the cell in column `x` of row `y` is stored at `y * width + x`.
pub proof fn lemma_row_major(width: int, x: int, y: int)
    requires
        0 <= x < width,
        0 <= y,
    ensures
        (y * width + x) % width == x,
        (y * width + x) / width == y,
{
    vstd::arithmetic::div_mod::lemma_fundamental_div_mod_converse(y * width + x, width, y, x);
}

/// A cell of row `y < height` in a grid `width` cells wide is stored before `width * height`.
pub proof fn lemma_row_bound(width: int, height: int, x: int, y: int)
    requires
        0 <= x < width <= u32::MAX,
        0 <= y < height <= u32::MAX,
    ensures
        y * width + x < width * height,
        y * width + x < height * width,
        position_of(width as u32, y * width + x) == (XY { x: x as u32, y: y as u32 }),
{
    assert(y * width + x < width * height) by (nonlinear_arith)
        requires
            0 <= x < width,
            0 <= y < height,
    ;
    assert(width * height == height * width) by (nonlinear_arith);
    lemma_row_major(width, x, y);
}

/// Moving to the next row advances the storage index by one row.
proof fn lemma_next_row(width: int, y: int)
    ensures
        (y + 1) * width == y * width + width,
        width * y == y * width,
{
    assert((y + 1) * width == y * width + width) by (nonlinear_arith);
    assert(width * y == y * width) by (nonlinear_arith);
}

/// The cell stored at index `i < width * height` lies within the grid, and its position gives
/// back `i`.
pub proof fn lemma_position_bounds(width: u32, height: u32, i: int)
    requires
        0 <= i < width * height,
    ensures
        width > 0,
        (position_of(width, i).x as int) == i % (width as int),
        (position_of(width, i).y as int) == i / (width as int),
        position_of(width, i).x < width,
        position_of(width, i).y < height,
        index_of(width, position_of(width, i)) == i,
{
    let w = width as int;
    let h = height as int;
    if w == 0 {
        assert(w * h == 0);
    }
    vstd::arithmetic::div_mod::lemma_fundamental_div_mod(i, w);
    vstd::arithmetic::div_mod::lemma_mod_pos_bound(i, w);
    vstd::arithmetic::div_mod::lemma_div_pos_is_pos(i, w);
    let q = i / w;
    let r = i % w;
    if q >= h {
        assert(w * q >= w * h) by (nonlinear_arith)
            requires
                q >= h,
                w > 0,
        ;
    }
    assert(q * w == w * q) by (nonlinear_arith);
}

/// In a well-formed grid, the cell stored at `i` has a position within the grid.
pub proof fn lemma_position_in_grid<T>(grid: Grid<T>, i: int)
    requires
        grid.wf(),
        0 <= i < grid.cells().len(),
    ensures
        grid.spec_width() > 0,
        position_of(grid.spec_width(), i).x < grid.spec_width(),
        position_of(grid.spec_width(), i).y < grid.spec_height(),
        index_of(grid.spec_width(), position_of(grid.spec_width(), i)) == i,
{
    lemma_position_bounds(grid.spec_width(), grid.spec_height(), i);
}

/// Law: in a grid `width` cells wide, the position of the cell stored at the index of an
/// in-bounds position is that position again (`xy(index(p)) == p`).
pub proof fn law_xy_of_index(width: u32, height: u32, position: XY<u32>)
    requires
        position.x < width,
        position.y < height,
    ensures
        0 <= index_of(width, position) < width * height,
        position_of(width, index_of(width, position)) == position,
{
    lemma_row_bound(width as int, height as int, position.x as int, position.y as int);
}

/// Law: in a grid of `width * height` cells, the index of the position of the cell stored at
/// `i` is `i` again (`index(xy(i)) == i`), and that position is in bounds.
pub proof fn law_index_of_xy(width: u32, height: u32, i: int)
    requires
        0 <= i < width * height,
    ensures
        position_of(width, i).x < width,
        position_of(width, i).y < height,
        index_of(width, position_of(width, i)) == i,
{
    lemma_position_bounds(width, height, i);
}

/// Law: moving back by the opposite offset undoes a move that stays in the grid.
pub proof fn law_offset_round_trip(width: u32, height: u32, position: XY<u32>, offset: XY<i32>)
    requires
        offset.x != i32::MIN,
        offset.y != i32::MIN,
        offset_spec(width, height, position, offset) is Some,
        position.x < width,
        position.y < height,
    ensures
        offset_spec(
            width,
            height,
            offset_spec(width, height, position, offset)->0,
            XY { x: (-offset.x) as i32, y: (-offset.y) as i32 },
        ) == Some(position),
{
}

/// Whether moving `position` by `offset` stays inside a `width` by `height` grid.
pub open spec fn lands(width: u32, height: u32, position: XY<u32>, offset: XY<i32>) -> bool {
    &&& 0 <= position.x + offset.x < width
    &&& 0 <= position.y + offset.y < height
}

/// The cell that moving `position` by `offset` reaches.
pub open spec fn landing(position: XY<u32>, offset: XY<i32>) -> XY<u32> {
    XY { x: (position.x + offset.x) as u32, y: (position.y + offset.y) as u32 }
}

/// How many of `offsets` move `position` to a cell of the grid.
pub open spec fn landing_count(width: u32, height: u32, position: XY<u32>, offsets: Seq<XY<i32>>) -> nat
    decreases offsets.len(),
{
    if offsets.len() == 0 {
        0
    } else {
        landing_count(width, height, position, offsets.drop_last()) + if lands(
            width,
            height,
            position,
            offsets.last(),
        ) {
            1nat
        } else {
            0nat
        }
    }
}

/// Whether `cell` is where one of `offsets` moves `position` inside the grid.
pub open spec fn reached_by(width: u32, height: u32, position: XY<u32>, offsets: Seq<XY<i32>>, cell: XY<u32>) -> bool {
    exists|k: int|
        0 <= k < offsets.len() && #[trigger] lands(width, height, position, offsets[k]) && cell == landing(
            position,
            offsets[k],
        )
}

/// Law: the cells that `offsets` reach from `position` are exactly the cells of the grid that
/// one of them moves it to. Every offset that lands in the grid gives its cell, whatever the
/// offsets before it did; every cell listed is where some offset lands; and there is one cell
/// per offset that lands.
pub proof fn law_offsets_reach_every_landing(width: u32, height: u32, position: XY<u32>, offsets: Seq<XY<i32>>)
    ensures
        forall|k: int|
            0 <= k < offsets.len() && #[trigger] lands(width, height, position, offsets[k]) ==> offsets_spec(
                width,
                height,
                position,
                offsets,
            ).contains(landing(position, offsets[k])),
        forall|j: int|
            0 <= j < offsets_spec(width, height, position, offsets).len() ==> reached_by(
                width,
                height,
                position,
                offsets,
                #[trigger] offsets_spec(width, height, position, offsets)[j],
            ),
        offsets_spec(width, height, position, offsets).len() == landing_count(width, height, position, offsets),
    decreases offsets.len(),
{
    if offsets.len() > 0 {
        let rest = offsets.drop_last();
        law_offsets_reach_every_landing(width, height, position, rest);
        let before = offsets_spec(width, height, position, rest);
        let after = offsets_spec(width, height, position, offsets);
        let last = offsets.last();
        assert(last == offsets[offsets.len() - 1]);
        assert forall|k: int|
            0 <= k < offsets.len() && #[trigger] lands(width, height, position, offsets[k]) implies after.contains(
                landing(position, offsets[k]),
            ) by {
            if k < offsets.len() - 1 {
                assert(rest[k] == offsets[k]);
                assert(lands(width, height, position, rest[k]));
                assert(before.contains(landing(position, rest[k])));
                let j = choose|j: int| 0 <= j < before.len() && before[j] == landing(position, rest[k]);
                assert(after[j] == before[j]);
            } else {
                assert(after[after.len() - 1] == landing(position, last));
            }
        }
        assert forall|j: int| 0 <= j < after.len() implies reached_by(width, height, position, offsets, #[trigger] after[j]) by {
            if j < before.len() {
                assert(after[j] == before[j]);
                assert(reached_by(width, height, position, rest, before[j]));
                let k = choose|k: int|
                    0 <= k < rest.len() && #[trigger] lands(width, height, position, rest[k]) && before[j]
                        == landing(position, rest[k]);
                assert(rest[k] == offsets[k]);
                assert(lands(width, height, position, offsets[k]));
            } else {
                let k = offsets.len() - 1;
                assert(offset_spec(width, height, position, last) is Some);
                assert(after == before.push(landing(position, last)));
                assert(lands(width, height, position, offsets[k]));
                assert(after[j] == landing(position, offsets[k]));
            }
        }
    } else {
        assert(offsets_spec(width, height, position, offsets).len() == 0);
    }
}

/// Law: a move lands, if anywhere, on a cell of the grid.
pub proof fn law_offset_in_bounds(width: u32, height: u32, position: XY<u32>, offset: XY<i32>)
    ensures
        offset_spec(width, height, position, offset) matches Some(target) ==> target.x < width
            && target.y < height,
{
}

/// A rectangular grid of `width * height` cells, stored row by row.
#[derive(Clone, Debug, PartialEq)]
pub struct Grid<T> {
    width: u32,
    height: u32,
    elements: Vec<T>,
}

impl<T> Grid<T> {
    /// The number of columns.
    pub closed spec fn spec_width(&self) -> u32 {
        self.width
    }

    /// The number of rows.
    pub closed spec fn spec_height(&self) -> u32 {
        self.height
    }

    /// The cells, row by row.
    pub closed spec fn cells(&self) -> Seq<T> {
        self.elements@
    }

    /// A grid holds exactly `width * height` cells.
    pub open spec fn wf(&self) -> bool {
        self.cells().len() == self.spec_width() * self.spec_height()
    }

    /// The cell at `position`.
    pub open spec fn cell(&self, position: XY<u32>) -> T {
        self.cells()[index_of(self.spec_width(), position)]
    }

    /// Whether `position` is one of the grid's cells.
    pub open spec fn in_bounds_spec(&self, position: XY<u32>) -> bool {
        position.x < self.spec_width() && position.y < self.spec_height()
    }

    /// The number of columns.
    pub fn width(&self) -> (r: u32)
        ensures
            r == self.spec_width(),
    {
        self.width
    }

    /// The number of rows.
    pub fn height(&self) -> (r: u32)
        ensures
            r == self.spec_height(),
    {
        self.height
    }

    /// Wraps `elements`, which must hold exactly `width * height` cells, row by row.
    pub fn from_vec(width: u32, height: u32, elements: Vec<T>) -> (r: Grid<T>)
        requires
            elements.len() == width * height,
        ensures
            r.wf(),
            r.spec_width() == width,
            r.spec_height() == height,
            r.cells() == elements@,
    {
        Grid { width, height, elements }
    }

    /// Builds a grid whose cell at each position is `function` applied to that position.
    pub fn from_fn<F: Fn(XY<u32>) -> T>(width: u32, height: u32, function: F) -> (r: Grid<T>)
        requires
            width * height <= usize::MAX,
            forall|p: XY<u32>| p.x < width && p.y < height ==> #[trigger] call_requires(function, (p,)),
        ensures
            r.wf(),
            r.spec_width() == width,
            r.spec_height() == height,
            forall|i: int|
                0 <= i < r.cells().len() ==> call_ensures(
                    function,
                    (position_of(width, i),),
                    #[trigger] r.cells()[i],
                ),
    {
        let mut elements: Vec<T> = Vec::new();
        let mut y: u32 = 0;
        while y < height
            invariant
                y <= height,
                width * height <= usize::MAX,
                elements.len() == y * width,
                forall|p: XY<u32>| p.x < width && p.y < height ==> #[trigger] call_requires(function, (p,)),
                forall|i: int|
                    0 <= i < elements.len() ==> call_ensures(
                        function,
                        (position_of(width, i),),
                        #[trigger] elements@[i],
                    ),
            decreases height - y,
        {
            let mut x: u32 = 0;
            while x < width
                invariant
                    x <= width,
                    y < height,
                    width * height <= usize::MAX,
                    elements.len() == y * width + x,
                    forall|p: XY<u32>| p.x < width && p.y < height ==> #[trigger] call_requires(function, (p,)),
                    forall|i: int|
                        0 <= i < elements.len() ==> call_ensures(
                            function,
                            (position_of(width, i),),
                            #[trigger] elements@[i],
                        ),
                decreases width - x,
            {
                proof {
                    lemma_row_bound(width as int, height as int, x as int, y as int);
                }
                assert(call_requires(function, (XY { x, y },)));
                let value = function(xy(x, y));
                elements.push(value);
                x += 1;
            }
            proof {
                lemma_next_row(width as int, y as int);
            }
            y += 1;
        }
        proof {
            lemma_next_row(width as int, height as int);
        }
        Grid { width, height, elements }
    }

    /// The row-major index of `position`, `x + y * width`.
    pub fn index(&self, position: XY<u32>) -> (r: usize)
        requires
            index_of(self.spec_width(), position) <= usize::MAX,
        ensures
            r == index_of(self.spec_width(), position),
    {
        proof {
            assert(position.y * self.width <= index_of(self.spec_width(), position));
        }
        (position.x as usize) + (position.y as usize) * self.width as usize
    }

    /// The position of the cell stored at `index`: `(index % width, index / width)`.
    pub fn xy(&self, index: usize) -> (r: XY<u32>)
        requires
            self.spec_width() > 0,
            (index as int) / (self.spec_width() as int) <= u32::MAX,
        ensures
            r == position_of(self.spec_width(), index as int),
    {
        let w = self.width as usize;
        xy((index % w) as u32, (index / w) as u32)
    }

    /// Whether `position` is one of the grid's cells.
    pub fn in_bounds(&self, position: XY<u32>) -> (r: bool)
        ensures
            r == self.in_bounds_spec(position),
    {
        position.x < self.width && position.y < self.height
    }

    /// Whether `position` lies on the first or last row or column.
    pub fn is_border(&self, position: XY<u32>) -> (r: bool)
        requires
            position.x != 0 && position.y != 0 ==> self.spec_width() > 0,
            position.x != 0 && position.y != 0 && position.x != self.spec_width() - 1
                ==> self.spec_height() > 0,
        ensures
            r == (position.x == 0 || position.y == 0 || position.x == self.spec_width() - 1
                || position.y == self.spec_height() - 1),
    {
        position.x == 0 || position.y == 0 || position.x == self.width - 1 || position.y
            == self.height - 1
    }

    /// A grid of the same size whose cells are `function` applied to each position and cell.
    pub fn map<U, F: Fn(XY<u32>, &T) -> U>(&self, function: F) -> (r: Grid<U>)
        requires
            self.wf(),
            forall|i: int|
                0 <= i < self.cells().len() ==> call_requires(
                    function,
                    (position_of(self.spec_width(), i), &#[trigger] self.cells()[i]),
                ),
        ensures
            r.wf(),
            r.spec_width() == self.spec_width(),
            r.spec_height() == self.spec_height(),
            forall|i: int|
                0 <= i < r.cells().len() ==> call_ensures(
                    function,
                    (position_of(self.spec_width(), i), &self.cells()[i]),
                    #[trigger] r.cells()[i],
                ),
    {
        let width = self.width;
        let height = self.height;
        let mut elements: Vec<U> = Vec::new();
        let mut index: usize = 0;
        let mut y: u32 = 0;
        while y < height
            invariant
                y <= height,
                width == self.spec_width(),
                height == self.spec_height(),
                self.wf(),
                index == y * width,
                elements.len() == index,
                forall|i: int|
                    0 <= i < self.cells().len() ==> call_requires(
                        function,
                        (position_of(width, i), &#[trigger] self.cells()[i]),
                    ),
                forall|i: int|
                    0 <= i < elements.len() ==> call_ensures(
                        function,
                        (position_of(width, i), &self.cells()[i]),
                        #[trigger] elements@[i],
                    ),
            decreases height - y,
        {
            let mut x: u32 = 0;
            while x < width
                invariant
                    x <= width,
                    y < height,
                    width == self.spec_width(),
                    height == self.spec_height(),
                    self.wf(),
                    index == y * width + x,
                    elements.len() == index,
                    forall|i: int|
                        0 <= i < self.cells().len() ==> call_requires(
                            function,
                            (position_of(width, i), &#[trigger] self.cells()[i]),
                        ),
                    forall|i: int|
                        0 <= i < elements.len() ==> call_ensures(
                            function,
                            (position_of(width, i), &self.cells()[i]),
                            #[trigger] elements@[i],
                        ),
                decreases width - x,
            {
                proof {
                    lemma_row_bound(width as int, height as int, x as int, y as int);
                }
                assert(self.elements@.len() == self.elements.len());
                assert(call_requires(function, (position_of(width, index as int), &self.cells()[index as int])));
                let value = function(XY { x, y }, &self.elements[index]);
                elements.push(value);
                index += 1;
                x += 1;
            }
            proof {
                lemma_next_row(width as int, y as int);
            }
            y += 1;
        }
        proof {
            lemma_next_row(width as int, height as int);
        }
        Grid { width, height, elements }
    }

    /// Moves `position` by `offset`; `None` where that leaves the grid.
    pub fn offset(&self, position: XY<u32>, offset: XY<i32>) -> (r: Option<XY<u32>>)
        ensures
            r == offset_spec(self.spec_width(), self.spec_height(), position, offset),
    {
        let nx: i64 = (position.x as i64) + (offset.x as i64);
        let ny: i64 = (position.y as i64) + (offset.y as i64);

        if nx < 0 || nx > u32::MAX as i64 || ny < 0 || ny > u32::MAX as i64 {
            return None;
        }
        let nx = nx as u32;
        let ny = ny as u32;

        if !self.in_bounds(xy(nx, ny)) {
            return None;
        }

        Some(xy(nx, ny))
    }

    /// The cells that `offsets` reach from `position`, in the order of `offsets`.
    pub fn offsets(&self, position: XY<u32>, offsets: &[XY<i32>]) -> (r: Vec<XY<u32>>)
        ensures
            r@ == offsets_spec(self.spec_width(), self.spec_height(), position, offsets@),
    {
        let mut out: Vec<XY<u32>> = Vec::new();
        let mut i: usize = 0;
        while i < offsets.len()
            invariant
                i <= offsets@.len(),
                out@ == offsets_spec(
                    self.spec_width(),
                    self.spec_height(),
                    position,
                    offsets@.take(i as int),
                ),
            decreases offsets@.len() - i,
        {
            proof {
                assert(offsets@.take(i + 1).drop_last() =~= offsets@.take(i as int));
            }
            if let Some(target) = self.offset(position, offsets[i]) {
                out.push(target);
            }
            i += 1;
        }
        proof {
            assert(offsets@.take(offsets@.len() as int) =~= offsets@);
        }
        out
    }

    /// The neighbouring cells that share a side with `position`.
    pub fn neighbours_4(&self, position: XY<u32>) -> (r: Vec<XY<u32>>)
        ensures
            r@ == offsets_spec(
                self.spec_width(),
                self.spec_height(),
                position,
                seq![
                    XY { x: 1i32, y: 0i32 },
                    XY { x: 0i32, y: 1i32 },
                    XY { x: -1i32, y: 0i32 },
                    XY { x: 0i32, y: -1i32 },
                ],
            ),
    {
        let offsets: Vec<XY<i32>> = vec![xy(1, 0), xy(0, 1), xy(-1, 0), xy(0, -1)];
        proof {
            assert(offsets@ =~= seq![
                XY { x: 1i32, y: 0i32 },
                XY { x: 0i32, y: 1i32 },
                XY { x: -1i32, y: 0i32 },
                XY { x: 0i32, y: -1i32 },
            ]);
        }
        self.offsets(position, offsets.as_slice())
    }

    /// The neighbouring cells that share a side or a corner with `position`.
    pub fn neighbours_8(&self, position: XY<u32>) -> (r: Vec<XY<u32>>)
        ensures
            r@ == offsets_spec(
                self.spec_width(),
                self.spec_height(),
                position,
                seq![
                    XY { x: 1i32, y: 0i32 },
                    XY { x: 1i32, y: 1i32 },
                    XY { x: 0i32, y: 1i32 },
                    XY { x: -1i32, y: 1i32 },
                    XY { x: -1i32, y: 0i32 },
                    XY { x: -1i32, y: -1i32 },
                    XY { x: 0i32, y: -1i32 },
                    XY { x: 1i32, y: -1i32 },
                ],
            ),
    {
        let offsets: Vec<XY<i32>> = vec![
            xy(1, 0),
            xy(1, 1),
            xy(0, 1),
            xy(-1, 1),
            xy(-1, 0),
            xy(-1, -1),
            xy(0, -1),
            xy(1, -1),
        ];
        proof {
            assert(offsets@ =~= seq![
                XY { x: 1i32, y: 0i32 },
                XY { x: 1i32, y: 1i32 },
                XY { x: 0i32, y: 1i32 },
                XY { x: -1i32, y: 1i32 },
                XY { x: -1i32, y: 0i32 },
                XY { x: -1i32, y: -1i32 },
                XY { x: 0i32, y: -1i32 },
                XY { x: 1i32, y: -1i32 },
            ]);
        }
        self.offsets(position, offsets.as_slice())
    }

    /// Every position of the grid, row by row.
    pub fn iter(&self) -> (r: Vec<XY<u32>>)
        requires
            self.wf(),
        ensures
            r@.len() == self.cells().len(),
            forall|i: int| 0 <= i < r@.len() ==> #[trigger] r@[i] == position_of(self.spec_width(), i),
    {
        let width = self.width;
        let height = self.height;
        let mut out: Vec<XY<u32>> = Vec::new();
        let mut y: u32 = 0;
        while y < height
            invariant
                y <= height,
                width == self.spec_width(),
                height == self.spec_height(),
                self.wf(),
                out.len() == y * width,
                forall|i: int| 0 <= i < out@.len() ==> #[trigger] out@[i] == position_of(width, i),
            decreases height - y,
        {
            let mut x: u32 = 0;
            while x < width
                invariant
                    x <= width,
                    y < height,
                    width == self.spec_width(),
                    height == self.spec_height(),
                    self.wf(),
                    out.len() == y * width + x,
                    forall|i: int| 0 <= i < out@.len() ==> #[trigger] out@[i] == position_of(width, i),
                decreases width - x,
            {
                proof {
                    lemma_row_bound(width as int, height as int, x as int, y as int);
                }
                out.push(XY { x, y });
                x += 1;
            }
            proof {
                lemma_next_row(width as int, y as int);
            }
            y += 1;
        }
        proof {
            lemma_next_row(width as int, height as int);
        }
        out
    }

    /// The cell at `position`; its index `x + y * width` must lie within the grid's storage.
    pub fn get(&self, position: XY<u32>) -> (r: &T)
        requires
            index_of(self.spec_width(), position) < self.cells().len(),
        ensures
            *r == self.cell(position),
    {
        proof {
            assert(self.elements@.len() == self.elements.len());
        }
        let i = self.index(position);
        &self.elements[i]
    }

    /// Replaces the cell at `position`; its index `x + y * width` must lie within the grid's
    /// storage.
    pub fn set(&mut self, position: XY<u32>, value: T)
        requires
            index_of(old(self).spec_width(), position) < old(self).cells().len(),
        ensures
            final(self).spec_width() == old(self).spec_width(),
            final(self).spec_height() == old(self).spec_height(),
            final(self).cells() == old(self).cells().update(
                index_of(old(self).spec_width(), position),
                value,
            ),
    {
        proof {
            assert(self.elements@.len() == self.elements.len());
        }
        let i = self.index(position);
        self.elements.set(i, value);
    }
}

impl<T: Default> Grid<T> {
    /// A grid whose every cell is `T::default()`.
    pub fn default(width: u32, height: u32) -> (r: Grid<T>)
        requires
            width * height <= usize::MAX,
        ensures
            r.wf(),
            r.spec_width() == width,
            r.spec_height() == height,
            forall|i: int| 0 <= i < r.cells().len() ==> call_ensures(T::default, (), #[trigger] r.cells()[i]),
    {
        let n: usize = width as usize * height as usize;
        let mut elements: Vec<T> = Vec::new();
        let mut i: usize = 0;
        while i < n
            invariant
                i <= n,
                elements.len() == i,
                forall|k: int| 0 <= k < elements.len() ==> call_ensures(T::default, (), #[trigger] elements@[k]),
            decreases n - i,
        {
            elements.push(T::default());
            i += 1;
        }
        Grid { elements, width, height }
    }
}

/// Whether `a` compares greater than `b`.
pub open spec fn compares_greater<T: PartialOrd>(a: T, b: T) -> bool {
    a.partial_cmp_spec(&b) == Some(core::cmp::Ordering::Greater)
}

/// Whether `a` and `b` can be compared.
pub open spec fn comparable<T: PartialOrd>(a: T, b: T) -> bool {
    a.partial_cmp_spec(&b) is Some
}

/// The position, among the first `n` of `cells`, of the one that a scan keeps as their
/// minimum: the first, replaced by each later one than which the kept one compares greater.
pub open spec fn scan_min<T: PartialOrd>(cells: Seq<T>, n: nat) -> nat
    decreases n,
{
    if n <= 1 {
        0
    } else {
        let k = scan_min(cells, (n - 1) as nat);
        if compares_greater(cells[k as int], cells[n - 1]) {
            (n - 1) as nat
        } else {
            k
        }
    }
}

/// The position, among the first `n` of `cells`, of the one that a scan keeps as their
/// maximum: the first, replaced by each later one unless the kept one compares greater.
pub open spec fn scan_max<T: PartialOrd>(cells: Seq<T>, n: nat) -> nat
    decreases n,
{
    if n <= 1 {
        0
    } else {
        let k = scan_max(cells, (n - 1) as nat);
        if compares_greater(cells[k as int], cells[n - 1]) {
            k
        } else {
            (n - 1) as nat
        }
    }
}

/// Whether every comparison of the scan for the minimum of the first `n` of `cells` is defined.
pub open spec fn scan_min_defined<T: PartialOrd>(cells: Seq<T>, n: nat) -> bool
    decreases n,
{
    n <= 1 || (scan_min_defined(cells, (n - 1) as nat) && comparable(
        cells[scan_min(cells, (n - 1) as nat) as int],
        cells[n - 1],
    ))
}

/// Whether every comparison of the scan for the maximum of the first `n` of `cells` is defined.
pub open spec fn scan_max_defined<T: PartialOrd>(cells: Seq<T>, n: nat) -> bool
    decreases n,
{
    n <= 1 || (scan_max_defined(cells, (n - 1) as nat) && comparable(
        cells[scan_max(cells, (n - 1) as nat) as int],
        cells[n - 1],
    ))
}

/// Whether comparisons of `T` follow `partial_cmp_spec`.
pub open spec fn ordered<T: PartialOrd>() -> bool {
    T::obeys_partial_cmp_spec()
}

/// The cell that a scan of all `cells` keeps as their minimum.
pub open spec fn least_cell<T: PartialOrd>(cells: Seq<T>) -> T {
    cells[scan_min(cells, cells.len()) as int]
}

/// The cell that a scan of all `cells` keeps as their maximum.
pub open spec fn greatest_cell<T: PartialOrd>(cells: Seq<T>) -> T {
    cells[scan_max(cells, cells.len()) as int]
}

/// The position that a scan of the first `i` of `cells` keeps as their minimum.
pub open spec fn kept_min<T: PartialOrd>(cells: Seq<T>, i: usize) -> usize {
    scan_min(cells, i as nat) as usize
}

/// The position that a scan of the first `i` of `cells` keeps as their maximum.
pub open spec fn kept_max<T: PartialOrd>(cells: Seq<T>, i: usize) -> usize {
    scan_max(cells, i as nat) as usize
}

/// A scan of `n > 0` cells keeps one of them.
proof fn lemma_scan_in_range<T: PartialOrd>(cells: Seq<T>, n: nat)
    requires
        n > 0,
    ensures
        scan_min(cells, n) < n,
        scan_max(cells, n) < n,
    decreases n,
{
    if n > 1 {
        lemma_scan_in_range(cells, (n - 1) as nat);
    }
}

/// One more step of a scan over `i < cells.len()` cells, and what the scan of all of them keeps.
proof fn lemma_scan_step<T: PartialOrd>(cells: Seq<T>, i: usize)
    requires
        0 < i <= cells.len() <= usize::MAX,
    ensures
        kept_min(cells, i) < i,
        kept_max(cells, i) < i,
        i < cells.len() ==> kept_min(cells, (i + 1) as usize) == (if compares_greater(cells[kept_min(cells, i) as int], cells[i as int]) {
            i
        } else {
            kept_min(cells, i)
        }),
        i < cells.len() ==> kept_max(cells, (i + 1) as usize) == (if compares_greater(cells[kept_max(cells, i) as int], cells[i as int]) {
            kept_max(cells, i)
        } else {
            i
        }),
        i == cells.len() ==> least_cell(cells) == cells[kept_min(cells, i) as int],
        i == cells.len() ==> greatest_cell(cells) == cells[kept_max(cells, i) as int],
{
    lemma_scan_in_range(cells, i as nat);
    if i < cells.len() {
        let next = (i + 1) as usize;
        assert(next as nat == i as nat + 1);
        assert((next as nat - 1) as nat == i as nat);
    }
}

/// Comparing `cells` by `compares_greater` is a strict weak order: no cell compares greater
/// than itself, and both comparing greater and not comparing greater carry over.
pub open spec fn strict_weak_order<T: PartialOrd>(cells: Seq<T>) -> bool {
    &&& forall|i: int| 0 <= i < cells.len() ==> !#[trigger] compares_greater(cells[i], cells[i])
    &&& forall|i: int, j: int, k: int|
        0 <= i < cells.len() && 0 <= j < cells.len() && 0 <= k < cells.len() && #[trigger] compares_greater(
            cells[i],
            cells[j],
        ) && #[trigger] compares_greater(cells[j], cells[k]) ==> compares_greater(cells[i], cells[k])
    &&& forall|i: int, j: int, k: int|
        0 <= i < cells.len() && 0 <= j < cells.len() && 0 <= k < cells.len() && !#[trigger] compares_greater(
            cells[i],
            cells[j],
        ) && !#[trigger] compares_greater(cells[j], cells[k]) ==> !compares_greater(cells[i], cells[k])
}

/// No cell among the first `n` compares less than the one a scan keeps as their minimum, nor
/// greater than the one it keeps as their maximum.
proof fn lemma_scan_extremes<T: PartialOrd>(cells: Seq<T>, n: nat)
    requires
        0 < n <= cells.len(),
        strict_weak_order(cells),
    ensures
        forall|k: int| 0 <= k < n ==> !compares_greater(cells[scan_min(cells, n) as int], #[trigger] cells[k]),
        forall|k: int| 0 <= k < n ==> !compares_greater(#[trigger] cells[k], cells[scan_max(cells, n) as int]),
    decreases n,
{
    lemma_scan_in_range(cells, n);
    if n > 1 {
        let m = (n - 1) as nat;
        lemma_scan_extremes(cells, m);
        lemma_scan_in_range(cells, m);
        let lo = scan_min(cells, m) as int;
        let hi = scan_max(cells, m) as int;
        let x = n - 1;
        assert forall|k: int| 0 <= k < n implies !compares_greater(cells[scan_min(cells, n) as int], #[trigger] cells[k]) by {
            assert(!compares_greater(cells[x], cells[x]));
            if k < m {
                assert(!compares_greater(cells[lo], cells[k]));
                if compares_greater(cells[lo], cells[x]) && compares_greater(cells[x], cells[k]) {
                    assert(compares_greater(cells[lo], cells[k]));
                }
            }
        }
        assert forall|k: int| 0 <= k < n implies !compares_greater(#[trigger] cells[k], cells[scan_max(cells, n) as int]) by {
            assert(!compares_greater(cells[x], cells[x]));
            assert(!compares_greater(cells[hi], cells[hi]));
            if k < m {
                assert(!compares_greater(cells[k], cells[hi]));
                if !compares_greater(cells[k], cells[hi]) && !compares_greater(cells[hi], cells[x]) {
                    assert(!compares_greater(cells[k], cells[x]));
                }
            } else {
                if compares_greater(cells[hi], cells[x]) && compares_greater(cells[x], cells[hi]) {
                    assert(compares_greater(cells[hi], cells[hi]));
                }
            }
        }
    }
}

/// Law: where the cells are compared by a strict weak order, the cell that `min` gives is one
/// of them and no cell compares less than it, and the cell that `max` gives is one of them and
/// no cell compares greater than it.
pub proof fn law_scan_finds_extremes<T: PartialOrd>(cells: Seq<T>)
    requires
        cells.len() > 0,
        strict_weak_order(cells),
    ensures
        exists|k: int| 0 <= k < cells.len() && cells[k] == least_cell(cells),
        exists|k: int| 0 <= k < cells.len() && cells[k] == greatest_cell(cells),
        forall|k: int| 0 <= k < cells.len() ==> !compares_greater(least_cell(cells), #[trigger] cells[k]),
        forall|k: int| 0 <= k < cells.len() ==> !compares_greater(#[trigger] cells[k], greatest_cell(cells)),
{
    lemma_scan_in_range(cells, cells.len());
    lemma_scan_extremes(cells, cells.len());
    assert(cells[scan_min(cells, cells.len()) as int] == least_cell(cells));
    assert(cells[scan_max(cells, cells.len()) as int] == greatest_cell(cells));
}

impl<T: PartialOrd + Copy> Grid<T> {
    /// The least cell: the first cell, replaced in turn by each later cell that compares less
    /// than the one kept; every comparison made must be defined.
    pub fn min(&self) -> (r: T)
        requires
            self.wf(),
            self.cells().len() > 0,
            scan_min_defined(self.cells(), self.cells().len()),
        ensures
            ordered::<T>() ==> r == least_cell(self.cells()),
    {
        let mut best: usize = 0;
        let mut i: usize = 1;
        proof {
            assert(self.cells().len() == self.elements.len());
            lemma_scan_step(self.cells(), i);
        }
        while i < self.elements.len()
            invariant
                self.elements@ == self.cells(),
                1 <= i <= self.cells().len() <= usize::MAX,
                ordered::<T>() ==> best == kept_min(self.cells(), i),
                best < i,
            decreases self.cells().len() - i,
        {
            proof {
                lemma_scan_step(self.cells(), i);
            }
            if self.elements[best] > self.elements[i] {
                best = i;
            }
            i += 1;
        }
        proof {
            lemma_scan_step(self.cells(), i);
        }
        self.elements[best]
    }

    /// The greatest cell: the first cell, replaced in turn by each later cell unless the one
    /// kept compares greater; every comparison made must be defined.
    pub fn max(&self) -> (r: T)
        requires
            self.wf(),
            self.cells().len() > 0,
            scan_max_defined(self.cells(), self.cells().len()),
        ensures
            ordered::<T>() ==> r == greatest_cell(self.cells()),
    {
        let mut best: usize = 0;
        let mut i: usize = 1;
        proof {
            assert(self.cells().len() == self.elements.len());
            lemma_scan_step(self.cells(), i);
        }
        while i < self.elements.len()
            invariant
                self.elements@ == self.cells(),
                1 <= i <= self.cells().len() <= usize::MAX,
                ordered::<T>() ==> best == kept_max(self.cells(), i),
                best < i,
            decreases self.cells().len() - i,
        {
            proof {
                lemma_scan_step(self.cells(), i);
            }
            if !(self.elements[best] > self.elements[i]) {
                best = i;
            }
            i += 1;
        }
        proof {
            lemma_scan_step(self.cells(), i);
        }
        self.elements[best]
    }
}

impl<T: Clone> Grid<T> {
    /// A grid whose every cell is a clone of `element`.
    pub fn from_element(width: u32, height: u32, element: T) -> (r: Grid<T>)
        requires
            width * height <= usize::MAX,
        ensures
            r.wf(),
            r.spec_width() == width,
            r.spec_height() == height,
            forall|i: int| 0 <= i < r.cells().len() ==> cloned(element, #[trigger] r.cells()[i]),
    {
        let n: usize = width as usize * height as usize;
        Grid { elements: vec![element; n], width, height }
    }
}

} // verus!

verus! {

impl<T: core::ops::Add<Output = T> + Copy> core::ops::Add for Grid<T> {
    type Output = Grid<T>;

    /// Adds the two grids cell by cell; they must have the same dimensions.
    fn add(self, rhs: Self) -> (r: Grid<T>)
        ensures
            r.wf(),
            r.spec_width() == self.spec_width(),
            r.spec_height() == self.spec_height(),
            T::obeys_add_spec() ==> forall|i: int|
                0 <= i < r.cells().len() ==> #[trigger] r.cells()[i] == self.cells()[i].add_spec(
                    rhs.cells()[i],
                ),
    {
        let n = self.elements.len();
        let mut elements: Vec<T> = Vec::new();
        let mut i: usize = 0;
        while i < n
            invariant
                n == self.cells().len(),
                self.cells().len() == rhs.cells().len(),
                forall|k: int| 0 <= k < n ==> (#[trigger] self.cells()[k]).add_req(rhs.cells()[k]),
                i <= n,
                elements.len() == i,
                T::obeys_add_spec() ==> forall|k: int|
                    0 <= k < i ==> #[trigger] elements@[k] == self.cells()[k].add_spec(
                        rhs.cells()[k],
                    ),
            decreases n - i,
        {
            let value = self.elements[i] + rhs.elements[i];
            elements.push(value);
            i += 1;
        }
        Grid { width: self.width, height: self.height, elements }
    }
}

impl<T: core::ops::Add<Output = T> + Copy> vstd::std_specs::ops::AddSpecImpl for Grid<T> {
    /// Grids are compared by their cells, which `==` on a `Grid` value does not reach.
    open spec fn obeys_add_spec() -> bool {
        false
    }

    /// Both grids are well formed, have the same dimensions, and every pair of cells can be
    /// added.
    open spec fn add_req(self, rhs: Self) -> bool {
        &&& self.wf()
        &&& rhs.wf()
        &&& self.spec_width() == rhs.spec_width()
        &&& self.spec_height() == rhs.spec_height()
        &&& forall|k: int|
            0 <= k < self.cells().len() ==> (#[trigger] self.cells()[k]).add_req(rhs.cells()[k])
    }

    /// A grid of the same dimensions whose every cell is the sum of the two cells there.
    open spec fn add_spec(self, rhs: Self) -> Self::Output {
        choose|g: Grid<T>|
            {
                &&& g.wf()
                &&& g.spec_width() == self.spec_width()
                &&& g.spec_height() == self.spec_height()
                &&& forall|i: int|
                    0 <= i < g.cells().len() ==> #[trigger] g.cells()[i] == self.cells()[i].add_spec(
                        rhs.cells()[i],
                    )
            }
    }
}

impl<T: core::ops::Sub<Output = T> + Copy> core::ops::Sub for Grid<T> {
    type Output = Grid<T>;

    /// Subtracts `rhs` from `self` cell by cell; they must have the same dimensions.
    fn sub(self, rhs: Self) -> (r: Grid<T>)
        ensures
            r.wf(),
            r.spec_width() == self.spec_width(),
            r.spec_height() == self.spec_height(),
            T::obeys_sub_spec() ==> forall|i: int|
                0 <= i < r.cells().len() ==> #[trigger] r.cells()[i] == self.cells()[i].sub_spec(
                    rhs.cells()[i],
                ),
    {
        let n = self.elements.len();
        let mut elements: Vec<T> = Vec::new();
        let mut i: usize = 0;
        while i < n
            invariant
                n == self.cells().len(),
                self.cells().len() == rhs.cells().len(),
                forall|k: int| 0 <= k < n ==> (#[trigger] self.cells()[k]).sub_req(rhs.cells()[k]),
                i <= n,
                elements.len() == i,
                T::obeys_sub_spec() ==> forall|k: int|
                    0 <= k < i ==> #[trigger] elements@[k] == self.cells()[k].sub_spec(
                        rhs.cells()[k],
                    ),
            decreases n - i,
        {
            let value = self.elements[i] - rhs.elements[i];
            elements.push(value);
            i += 1;
        }
        Grid { width: self.width, height: self.height, elements }
    }
}

impl<T: core::ops::Sub<Output = T> + Copy> vstd::std_specs::ops::SubSpecImpl for Grid<T> {
    /// Grids are compared by their cells, which `==` on a `Grid` value does not reach.
    open spec fn obeys_sub_spec() -> bool {
        false
    }

    /// Both grids are well formed, have the same dimensions, and every pair of cells can be
    /// subtracted.
    open spec fn sub_req(self, rhs: Self) -> bool {
        &&& self.wf()
        &&& rhs.wf()
        &&& self.spec_width() == rhs.spec_width()
        &&& self.spec_height() == rhs.spec_height()
        &&& forall|k: int|
            0 <= k < self.cells().len() ==> (#[trigger] self.cells()[k]).sub_req(rhs.cells()[k])
    }

    /// A grid of the same dimensions whose every cell is the difference of the two cells there.
    open spec fn sub_spec(self, rhs: Self) -> Self::Output {
        choose|g: Grid<T>|
            {
                &&& g.wf()
                &&& g.spec_width() == self.spec_width()
                &&& g.spec_height() == self.spec_height()
                &&& forall|i: int|
                    0 <= i < g.cells().len() ==> #[trigger] g.cells()[i] == self.cells()[i].sub_spec(
                        rhs.cells()[i],
                    )
            }
    }
}

} // verus!
