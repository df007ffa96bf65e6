//! The density map: density and steepness samples over a grid.

use vstd::prelude::*;

verus! {

/// Error thrown during density map creation or patching.
#[derive(Clone, Copy, Debug, PartialEq, Eq, Structural)]
pub enum DensityMapError {
    /// Wrong data length: `(provided, expected)`.
    WrongDataLength(usize, usize),
}

/// The grid cell `(x, y)` of a row-major buffer of width `w`.
pub open spec fn cell_at(data: Seq<u8>, w: int, x: int, y: int) -> int {
    data[y * w + x] as int
}

/// The cell value, with everything outside the grid reading as zero.
pub open spec fn raw_value_spec(data: Seq<u8>, w: int, h: int, x: int, y: int) -> int {
    if 0 <= x < w && 0 <= y < h {
        cell_at(data, w, x, y)
    } else {
        0
    }
}

/// Absolute difference.
pub open spec fn abs_diff(a: int, b: int) -> int {
    if a >= b {
        a - b
    } else {
        b - a
    }
}

/// The six pairwise absolute differences between the four corners of the
/// two-by-two block whose top-left corner is `(x, y)`; cells outside the grid
/// read as zero. The true block steepness is this numerator over `12 * 255`.
pub open spec fn block_steepness(data: Seq<u8>, w: int, h: int, x: int, y: int) -> int {
    let a = raw_value_spec(data, w, h, x, y);
    let b = raw_value_spec(data, w, h, x + 1, y);
    let c = raw_value_spec(data, w, h, x + 1, y + 1);
    let d = raw_value_spec(data, w, h, x, y + 1);
    abs_diff(a, b) + abs_diff(c, d) + abs_diff(a, c) + abs_diff(b, d) + abs_diff(a, d) + abs_diff(
        b,
        c,
    )
}

/// The steepness numerator of the cell `(col, row)`: the sum over the four
/// two-by-two blocks containing the cell. Each block contributes its six
/// pairwise absolute corner differences over `12 * 255`, so the steepness
/// value (usually in `[0, 1]`, up to 2 on extreme checkerboards) is this
/// numerator divided by 3060.
pub open spec fn cell_steepness(data: Seq<u8>, w: int, h: int, col: int, row: int) -> int {
    block_steepness(data, w, h, col - 1, row - 1) + block_steepness(data, w, h, col - 1, row)
        + block_steepness(data, w, h, col, row - 1) + block_steepness(data, w, h, col, row)
}

/// Density map that contains a density and a steepness sample per grid cell.
///
/// Densities are numerators over 255 (the raw bytes); steepness values are
/// numerators over 3060.
#[derive(Clone, Debug)]
pub struct DensityMap {
    /// Grid width (unscaled).
    pub width: usize,
    /// Grid height (unscaled).
    pub height: usize,
    /// Upsampling factor for output coordinates.
    pub scale: usize,
    /// Density numerators, row-major, `width * height` entries.
    pub data: Vec<u8>,
    /// Steepness numerators, row-major, `width * height` entries.
    pub steepness: Vec<u16>,
}

impl DensityMap {
    /// Buffers match the grid shape.
    pub open spec fn wf(self) -> bool {
        &&& self.data@.len() == self.width * self.height
        &&& self.steepness@.len() == self.data@.len()
    }

    /// Every steepness sample is the steepness of the current density data:
    /// holds for freshly created and patched maps, but not for cropped ones,
    /// whose border steepness intentionally keeps what the surrounding data
    /// gave it.
    pub open spec fn steepness_consistent(self) -> bool {
        forall|x: int, y: int|
            0 <= x < self.width && 0 <= y < self.height ==> #[trigger] self.steepness@[y * (
            self.width as int) + x] as int == cell_steepness(
                self.data@,
                self.width as int,
                self.height as int,
                x,
                y,
            )
    }

    /// Returns the scale factor.
    pub fn scale(&self) -> (r: usize)
        ensures
            r == self.scale,
    {
        self.scale
    }

    /// Returns the scaled width.
    pub fn width(&self) -> (r: usize)
        requires
            self.width * (if self.scale > 1 { self.scale as int } else { 1 }) <= usize::MAX,
        ensures
            r == self.width * (if self.scale > 1 { self.scale as int } else { 1 }),
    {
        if self.scale > 1 {
            self.width * self.scale
        } else {
            self.width
        }
    }

    /// Returns the scaled height.
    pub fn height(&self) -> (r: usize)
        requires
            self.height * (if self.scale > 1 { self.scale as int } else { 1 }) <= usize::MAX,
        ensures
            r == self.height * (if self.scale > 1 { self.scale as int } else { 1 }),
    {
        if self.scale > 1 {
            self.height * self.scale
        } else {
            self.height
        }
    }

    /// Returns the unscaled width.
    pub fn unscaled_width(&self) -> (r: usize)
        ensures
            r == self.width,
    {
        self.width
    }

    /// Returns the unscaled height.
    pub fn unscaled_height(&self) -> (r: usize)
        ensures
            r == self.height,
    {
        self.height
    }

    /// Returns the density buffer (numerators over 255).
    pub fn values(&self) -> (r: &Vec<u8>)
        ensures
            r@ == self.data@,
    {
        &self.data
    }

    /// Returns the steepness buffer (numerators over 3060).
    pub fn steepness_values(&self) -> (r: &Vec<u16>)
        ensures
            r@ == self.steepness@,
    {
        &self.steepness
    }

    /// Create a new density map from raw bytes; the steepness buffer is
    /// computed from the data. Fails exactly when the buffer does not match
    /// the grid shape.
    pub fn new(width: usize, height: usize, scale: usize, data: Vec<u8>) -> (r: Result<
        DensityMap,
        DensityMapError,
    >)
        requires
            width * height <= usize::MAX,
        ensures
            r is Err <==> data@.len() != width * height,
            r is Err ==> r->Err_0 == DensityMapError::WrongDataLength(
                data@.len() as usize,
                (width * height) as usize,
            ),
            r is Ok ==> {
                let m = r->Ok_0;
                &&& m.width == width
                &&& m.height == height
                &&& m.scale == scale
                &&& m.data@ == data@
                &&& m.wf()
                &&& m.steepness_consistent()
            },
    {
        let expected: usize = width * height;
        if data.len() != expected {
            return Err(DensityMapError::WrongDataLength(data.len(), expected));
        }
        let steepness = compute_steepness(width, height, &data);
        Ok(DensityMap { width, height, scale, data, steepness })
    }

    /// Returns the density numerator at a point in scaled coordinates, or
    /// zero out of range. The point is mapped to a grid cell by dividing by
    /// the scale, rounding towards zero.
    pub fn value_at_point(&self, x: i64, y: i64) -> (r: u8)
        requires
            self.wf(),
        ensures
            r as int == self.spec_value_at_point(x as int, y as int),
    {
        let (cx, cy) = scale_down(x, y, self.scale);
        if 0 <= cx && cx < self.width as i128 && 0 <= cy && cy < self.height as i128 {
            proof {
                lemma_row_major_bound(cx as int, cy as int, self.width as int, self.height as int);
            }
            let idx = grid_index(cx as u128, cy as u128, self.width, self.data.len());
            self.data[idx]
        } else {
            0
        }
    }

    /// Ghost mirror of [`DensityMap::value_at_point`].
    pub open spec fn spec_value_at_point(self, x: int, y: int) -> int {
        let s = if self.scale > 1 {
            self.scale as int
        } else {
            1
        };
        raw_value_spec(
            self.data@,
            self.width as int,
            self.height as int,
            crate::scalar::div_trunc(x, s),
            crate::scalar::div_trunc(y, s),
        )
    }

    /// Returns the steepness numerator at a point in scaled coordinates, or
    /// zero out of range.
    pub fn steepness_at_point(&self, x: i64, y: i64) -> (r: u16)
        requires
            self.wf(),
        ensures
            r as int == self.spec_steepness_at_point(x as int, y as int),
    {
        let (cx, cy) = scale_down(x, y, self.scale);
        if 0 <= cx && cx < self.width as i128 && 0 <= cy && cy < self.height as i128 {
            proof {
                lemma_row_major_bound(cx as int, cy as int, self.width as int, self.height as int);
            }
            let idx = grid_index(cx as u128, cy as u128, self.width, self.steepness.len());
            self.steepness[idx]
        } else {
            0
        }
    }

    /// Ghost mirror of [`DensityMap::steepness_at_point`].
    pub open spec fn spec_steepness_at_point(self, x: int, y: int) -> int {
        let s = if self.scale > 1 {
            self.scale as int
        } else {
            1
        };
        let cx = crate::scalar::div_trunc(x, s);
        let cy = crate::scalar::div_trunc(y, s);
        if 0 <= cx < self.width && 0 <= cy < self.height {
            self.steepness@[cy * self.width + cx] as int
        } else {
            0
        }
    }

    /// The steepness buffer as visualization bytes: each numerator over 3060
    /// scaled to the byte range, saturating (steepness can exceed one whole
    /// unit on extreme checkerboards).
    pub fn steepness_bytes(&self) -> (r: Vec<u8>)
        ensures
            r@.len() == self.steepness@.len(),
            forall|i: int|
                0 <= i < r@.len() ==> #[trigger] r@[i] as int == (if self.steepness@[i] / 12
                    > 255 {
                    255int
                } else {
                    self.steepness@[i] as int / 12
                }),
    {
        let n = self.steepness.len();
        let mut r: Vec<u8> = Vec::new();
        let mut i: usize = 0;
        while i < n
            invariant
                n == self.steepness@.len(),
                i <= n,
                r@.len() == i,
                forall|l: int|
                    0 <= l < i ==> #[trigger] r@[l] as int == (if self.steepness@[l] / 12 > 255 {
                        255int
                    } else {
                        self.steepness@[l] as int / 12
                    }),
            decreases n - i,
        {
            let v = self.steepness[i] / 12;
            let b: u8 = if v > 255 {
                255
            } else {
                v as u8
            };
            r.push(b);
            i = i + 1;
        }
        r
    }

    /// Returns all cells as `(col, row, density, steepness)` tuples, row by
    /// row.
    pub fn value_steepness_iter(&self) -> (r: Vec<(usize, usize, u8, u16)>)
        requires
            self.wf(),
        ensures
            r@.len() == self.data@.len(),
            forall|i: int|
                0 <= i < r@.len() ==> #[trigger] r@[i] == (
                    (i % (self.width as int)) as usize,
                    (i / (self.width as int)) as usize,
                    self.data@[i],
                    self.steepness@[i],
                ),
    {
        let n = self.data.len();
        let mut r: Vec<(usize, usize, u8, u16)> = Vec::new();
        let mut i: usize = 0;
        while i < n
        invariant
            self.wf(),
            n == self.data@.len(),
            i <= n,
            r@.len() == i,
            forall|j: int|
                0 <= j < i ==> #[trigger] r@[j] == (
                    (j % (self.width as int)) as usize,
                    (j / (self.width as int)) as usize,
                    self.data@[j],
                    self.steepness@[j],
                ),
        decreases n - i,
        {
            proof {
                if self.width == 0 {
                    assert(self.width * self.height == 0) by (nonlinear_arith)
                        requires self.width == 0;
                }
            }
            let x = i % self.width;
            let y = i / self.width;
            r.push((x, y, self.data[i], self.steepness[i]));
            i = i + 1;
        }
        r
    }

    /// Returns a new field restricted to the given rectangle (clamped to the
    /// grid), scale preserved. Steepness samples are copied, not recomputed:
    /// cells at the new border keep the steepness the surrounding data gave
    /// them.
    pub fn crop(&self, col: usize, row: usize, width: usize, height: usize) -> (r: DensityMap)
        requires
            self.wf(),
        ensures
            crop_of(r, *self, col as int, row as int, width as int, height as int),
    {
        let n = self.data.len();
        let fx: usize = if col <= self.width { col } else { self.width };
        let fy: usize = if row <= self.height { row } else { self.height };
        let sum_x: u128 = col as u128 + width as u128;
        let sum_y: u128 = row as u128 + height as u128;
        let tx: usize = if sum_x <= self.width as u128 { col + width } else { self.width };
        let ty: usize = if sum_y <= self.height as u128 { row + height } else { self.height };
        let w: usize = tx - fx;
        let h: usize = ty - fy;
        let mut data: Vec<u8> = Vec::new();
        let mut steepness: Vec<u16> = Vec::new();
        let mut y: usize = 0;
        proof {
            assert(0int * (w as int) == 0) by (nonlinear_arith);
        }
        while y < h
        invariant
            self.wf(),
            n == self.data@.len(),
            fx + w <= self.width,
            fy + h <= self.height,
            y <= h,
            data@.len() == y * w,
            steepness@.len() == y * w,
            forall|xx: int, yy: int|
                0 <= xx < w && 0 <= yy < y ==> #[trigger] cell_at(data@, w as int, xx, yy)
                    == cell_at(self.data@, self.width as int, fx + xx, fy + yy),
            forall|xx: int, yy: int|
                0 <= xx < w && 0 <= yy < y ==> #[trigger] steepness@[yy * (w as int) + xx]
                    == self.steepness@[(fy + yy) * (self.width as int) + (fx + xx)],
        decreases h - y,
        {
            let mut x: usize = 0;
            while x < w
            invariant
                self.wf(),
                n == self.data@.len(),
                fx + w <= self.width,
                fy + h <= self.height,
                y < h,
                x <= w,
                data@.len() == y * w + x,
                steepness@.len() == y * w + x,
                forall|xx: int, yy: int|
                    0 <= xx < w && 0 <= yy < y ==> #[trigger] cell_at(data@, w as int, xx, yy)
                        == cell_at(self.data@, self.width as int, fx + xx, fy + yy),
                forall|xx: int, yy: int|
                    0 <= xx < w && 0 <= yy < y ==> #[trigger] steepness@[yy * (w as int) + xx]
                        == self.steepness@[(fy + yy) * (self.width as int) + (fx + xx)],
                forall|xx: int|
                    0 <= xx < x ==> #[trigger] data@[y as int * w + xx] == self.data@[(fy
                        + y as int) * (self.width as int) + (fx + xx)],
                forall|xx: int|
                    0 <= xx < x ==> #[trigger] steepness@[y as int * w + xx] == self.steepness@[(
                    fy + y as int) * (self.width as int) + (fx + xx)],
            decreases w - x,
            {
                proof {
                    lemma_row_major_bound(
                        fx + x as int,
                        fy + y as int,
                        self.width as int,
                        self.height as int,
                    );
                }
                let src = grid_index((fx + x) as u128, (fy + y) as u128, self.width, n);
                let ghost pre_d = data@;
                let ghost pre_s = steepness@;
                data.push(self.data[src]);
                steepness.push(self.steepness[src]);
                proof {
                    assert forall|xx: int, yy: int| 0 <= xx < w && 0 <= yy < y implies #[trigger]
                        cell_at(data@, w as int, xx, yy) == cell_at(
                        self.data@,
                        self.width as int,
                        fx + xx,
                        fy + yy,
                    ) by {
                        lemma_row_major_bound(xx, yy, w as int, y as int);
                        assert(yy * w + xx < y * w + x) by (nonlinear_arith)
                            requires 0 <= xx < w, 0 <= yy < y, x >= 0;
                        assert(data@[yy * (w as int) + xx] == pre_d[yy * (w as int) + xx]);
                        assert(cell_at(data@, w as int, xx, yy) == cell_at(pre_d, w as int, xx, yy));
                    }
                    assert forall|xx: int, yy: int| 0 <= xx < w && 0 <= yy < y implies #[trigger]
                        steepness@[yy * (w as int) + xx] == self.steepness@[(fy + yy) * (
                    self.width as int) + (fx + xx)] by {
                        lemma_row_major_bound(xx, yy, w as int, y as int);
                        assert(yy * w + xx < y * w + x) by (nonlinear_arith)
                            requires 0 <= xx < w, 0 <= yy < y, x >= 0;
                        assert(steepness@[yy * w + xx] == pre_s[yy * w + xx]);
                    }
                }
                x = x + 1;
            }
            proof {
                assert((y + 1) * w == y * w + w) by (nonlinear_arith);
                assert forall|xx: int, yy: int| 0 <= xx < w && 0 <= yy < y + 1 implies #[trigger]
                    cell_at(data@, w as int, xx, yy) == cell_at(
                    self.data@,
                    self.width as int,
                    fx + xx,
                    fy + yy,
                ) by {
                    if yy < y {
                        lemma_row_major_bound(xx, yy, w as int, y as int);
                        assert(yy * w + xx < y * w) by (nonlinear_arith)
                            requires 0 <= xx < w, 0 <= yy < y;
                    }
                }
                assert forall|xx: int, yy: int| 0 <= xx < w && 0 <= yy < y + 1 implies #[trigger]
                    steepness@[yy * (w as int) + xx] == self.steepness@[(fy + yy) * (
                self.width as int) + (fx + xx)] by {
                    if yy < y {
                        lemma_row_major_bound(xx, yy, w as int, y as int);
                        assert(yy * w + xx < y * w) by (nonlinear_arith)
                            requires 0 <= xx < w, 0 <= yy < y;
                    }
                }
            }
            y = y + 1;
        }
        proof {
            assert(h * w == w * h) by (nonlinear_arith);
        }
        DensityMap { width: w, height: h, scale: self.scale, data, steepness }
    }

    /// Apply new raw bytes to a rectangle of the field. Replaces the whole
    /// field when the rectangle covers it; otherwise overwrites the rectangle
    /// in place and recomputes steepness within the rectangle padded by one
    /// cell on each side. Fails exactly when the buffer does not match the
    /// rectangle; the rectangle itself must lie within the field.
    pub fn change(
        &mut self,
        col: usize,
        row: usize,
        width: usize,
        height: usize,
        data: Vec<u8>,
    ) -> (r: Result<(), DensityMapError>)
        requires
            old(self).wf(),
            old(self).steepness_consistent(),
            col + width <= old(self).width,
            row + height <= old(self).height,
        ensures
            r is Err <==> data@.len() != width * height,
            r is Err ==> *final(self) == *old(self) && r->Err_0
                == DensityMapError::WrongDataLength(
                data@.len() as usize,
                (width * height) as usize,
            ),
            r is Ok ==> {
                &&& final(self).width == old(self).width
                &&& final(self).height == old(self).height
                &&& final(self).scale == old(self).scale
                &&& final(self).wf()
                &&& final(self).steepness_consistent()
                &&& forall|x: int, y: int|
                    0 <= x < final(self).width && 0 <= y < final(self).height ==> #[trigger] cell_at(
                        final(self).data@,
                        final(self).width as int,
                        x,
                        y,
                    ) == patched_cell(
                        old(self).data@,
                        final(self).width as int,
                        data@,
                        col as int,
                        row as int,
                        width as int,
                        height as int,
                        x,
                        y,
                    )
            },
    {
        let w = self.width;
        let h = self.height;
        let n = self.data.len();
        proof {
            assert(width * height <= w * h) by (nonlinear_arith)
                requires 0 <= width <= w, 0 <= height <= h;
        }
        let expected: usize = width * height;
        if col == 0 && row == 0 && width == w && height == h {
            let ghost patch = data@;
            match DensityMap::new(width, height, self.scale, data) {
                Ok(m) => {
                    *self = m;
                    proof {
                        assert forall|x: int, y: int| 0 <= x < w && 0 <= y < h implies #[trigger]
                            cell_at(self.data@, w as int, x, y) == patched_cell(
                            old(self).data@,
                            w as int,
                            patch,
                            col as int,
                            row as int,
                            width as int,
                            height as int,
                            x,
                            y,
                        ) by {
                            assert(cell_at(self.data@, w as int, x, y) == patch[y * (w as int)
                                + x]);
                        }
                    }
                    Ok(())
                },
                Err(e) => Err(e),
            }
        } else if data.len() != expected {
            Err(DensityMapError::WrongDataLength(data.len(), expected))
        } else {
            let ghost d0 = self.data@;
            let ghost s0 = self.steepness@;
            let mut dy: usize = 0;
            while dy < height
            invariant
                self.width == w,
                self.height == h,
                self.scale == old(self).scale,
                self.steepness@ == s0,
                self.data@.len() == w * h,
                n == w * h,
                data@.len() == width * height,
                col + width <= w,
                row + height <= h,
                dy <= height,
                forall|x: int, y: int|
                    0 <= x < w && 0 <= y < h ==> #[trigger] cell_at(self.data@, w as int, x, y)
                        == (if col <= x < col + width && row <= y < row + dy {
                        data@[(y - row) * (width as int) + (x - col)] as int
                    } else {
                        cell_at(d0, w as int, x, y)
                    }),
            decreases height - dy,
            {
                let mut dx: usize = 0;
                while dx < width
                invariant
                    self.width == w,
                    self.height == h,
                    self.scale == old(self).scale,
                    self.steepness@ == s0,
                    self.data@.len() == w * h,
                    n == w * h,
                    data@.len() == width * height,
                    col + width <= w,
                    row + height <= h,
                    dy < height,
                    dx <= width,
                    forall|x: int, y: int|
                        0 <= x < w && 0 <= y < h ==> #[trigger] cell_at(self.data@, w as int, x, y)
                            == (if col <= x < col + width && row <= y < row + height && ((y - row)
                            < dy || ((y - row) == dy && (x - col) < dx)) {
                            data@[(y - row) * (width as int) + (x - col)] as int
                        } else {
                            cell_at(d0, w as int, x, y)
                        }),
                decreases width - dx,
                {
                    proof {
                        lemma_row_major_bound(dx as int, dy as int, width as int, height as int);
                        lemma_row_major_bound(
                            (col + dx) as int,
                            (row + dy) as int,
                            w as int,
                            h as int,
                        );
                    }
                    let v = data[grid_index(dx as u128, dy as u128, width, data.len())];
                    let idx = grid_index((col + dx) as u128, (row + dy) as u128, w, n);
                    let ghost pre = self.data@;
                    self.data[idx] = v;
                    proof {
                        assert forall|x: int, y: int| 0 <= x < w && 0 <= y < h implies #[trigger]
                            cell_at(self.data@, w as int, x, y) == (if col <= x < col + width && row
                            <= y < row + height && ((y - row) < dy || ((y - row) == dy && (x - col)
                            < dx + 1)) {
                            data@[(y - row) * (width as int) + (x - col)] as int
                        } else {
                            cell_at(d0, w as int, x, y)
                        }) by {
                            lemma_row_major_bound(x, y, w as int, h as int);
                            if y * w + x == idx {
                                lemma_row_major_injective(
                                    x,
                                    y,
                                    (col + dx) as int,
                                    (row + dy) as int,
                                    w as int,
                                );
                                assert(cell_at(self.data@, w as int, x, y) == v);
                            } else {
                                assert(self.data@[y * (w as int) + x] == pre[y * (w as int) + x]);
                                assert(cell_at(self.data@, w as int, x, y) == cell_at(
                                    pre,
                                    w as int,
                                    x,
                                    y,
                                ));
                            }
                        }
                    }
                    dx = dx + 1;
                }
                dy = dy + 1;
            }
            let ghost d1 = self.data@;
            let fx: usize = if col >= 1 {
                col - 1
            } else {
                col
            };
            let fy: usize = if row >= 1 {
                row - 1
            } else {
                row
            };
            let sum_x: u128 = col as u128 + width as u128 + 1;
            let sum_y: u128 = row as u128 + height as u128 + 1;
            let tx: usize = if sum_x <= w as u128 {
                col + width + 1
            } else {
                w
            };
            let ty: usize = if sum_y <= h as u128 {
                row + height + 1
            } else {
                h
            };
            let mut ry: usize = fy;
            while ry < ty
            invariant
                self.width == w,
                self.height == h,
                self.scale == old(self).scale,
                self.data@ == d1,
                self.data@.len() == w * h,
                self.steepness@.len() == w * h,
                s0.len() == w * h,
                fy <= ry <= ty,
                fx <= tx <= w,
                ty <= h,
                forall|x: int, y: int|
                    0 <= x < w && 0 <= y < h ==> #[trigger] self.steepness@[y * (w as int) + x]
                        as int == (if fx <= x < tx && fy <= y < ry {
                        cell_steepness(d1, w as int, h as int, x, y)
                    } else {
                        s0[y * (w as int) + x] as int
                    }),
            decreases ty - ry,
            {
                let mut rx: usize = fx;
                while rx < tx
                invariant
                    self.width == w,
                    self.height == h,
                    self.scale == old(self).scale,
                    self.data@ == d1,
                    self.data@.len() == w * h,
                    self.steepness@.len() == w * h,
                    s0.len() == w * h,
                    fy <= ry < ty,
                    fx <= rx <= tx,
                    tx <= w,
                    ty <= h,
                    forall|x: int, y: int|
                        0 <= x < w && 0 <= y < h ==> #[trigger] self.steepness@[y * (w as int) + x]
                            as int == (if fx <= x < tx && (fy <= y < ry || (y == ry && fx <= x
                            < rx)) {
                            cell_steepness(d1, w as int, h as int, x, y)
                        } else {
                            s0[y * (w as int) + x] as int
                        }),
                decreases tx - rx,
                {
                    let s = compute_cell_steepness(rx, ry, w, h, &self.data);
                    proof {
                        lemma_row_major_bound(rx as int, ry as int, w as int, h as int);
                    }
                    let idx = grid_index(rx as u128, ry as u128, w, self.steepness.len());
                    let ghost pre = self.steepness@;
                    self.steepness[idx] = s;
                    proof {
                        assert forall|x: int, y: int| 0 <= x < w && 0 <= y < h implies #[trigger]
                            self.steepness@[y * (w as int) + x] as int == (if fx <= x < tx && (fy
                            <= y < ry || (y == ry && fx <= x < rx + 1)) {
                            cell_steepness(d1, w as int, h as int, x, y)
                        } else {
                            s0[y * (w as int) + x] as int
                        }) by {
                            lemma_row_major_bound(x, y, w as int, h as int);
                            if y * w + x == idx {
                                lemma_row_major_injective(x, y, rx as int, ry as int, w as int);
                            } else {
                                assert(self.steepness@[y * (w as int) + x] == pre[y * (w as int)
                                    + x]);
                            }
                        }
                    }
                    rx = rx + 1;
                }
                ry = ry + 1;
            }
            proof {
                assert forall|x: int, y: int| 0 <= x < w && 0 <= y < h implies #[trigger]
                    self.steepness@[y * (w as int) + x] as int == cell_steepness(
                    d1,
                    w as int,
                    h as int,
                    x,
                    y,
                ) by {
                    if fx <= x < tx && fy <= y < ty {
                    } else {
                        assert(s0[y * (w as int) + x] as int == cell_steepness(
                            d0,
                            w as int,
                            h as int,
                            x,
                            y,
                        ));
                        assert forall|nx: int, ny: int|
                            x - 1 <= nx <= x + 1 && y - 1 <= ny <= y + 1 implies #[trigger]
                            raw_value_spec(d0, w as int, h as int, nx, ny) == raw_value_spec(
                            d1,
                            w as int,
                            h as int,
                            nx,
                            ny,
                        ) by {
                            if 0 <= nx < w && 0 <= ny < h {
                                assert(!(col <= nx < col + width && row <= ny < row + height));
                                assert(cell_at(d1, w as int, nx, ny) == cell_at(
                                    d0,
                                    w as int,
                                    nx,
                                    ny,
                                ));
                            }
                        }
                        lemma_cell_steepness_local(d0, d1, w as int, h as int, x, y);
                    }
                }
                assert forall|x: int, y: int| 0 <= x < w && 0 <= y < h implies #[trigger] cell_at(
                    self.data@,
                    w as int,
                    x,
                    y,
                ) == patched_cell(
                    old(self).data@,
                    w as int,
                    data@,
                    col as int,
                    row as int,
                    width as int,
                    height as int,
                    x,
                    y,
                ) by {}
            }
            Ok(())
        }
    }
}

/// `r` is the crop of `m` to the given rectangle, clamped to the grid: the
/// restricted window of both the density and the steepness buffers, scale
/// preserved.
pub open spec fn crop_of(r: DensityMap, m: DensityMap, col: int, row: int, width: int, height: int)
    -> bool {
    let fx = if col <= m.width {
        col
    } else {
        m.width as int
    };
    let fy = if row <= m.height {
        row
    } else {
        m.height as int
    };
    let tx = if col + width <= m.width {
        col + width
    } else {
        m.width as int
    };
    let ty = if row + height <= m.height {
        row + height
    } else {
        m.height as int
    };
    &&& r.wf()
    &&& r.scale == m.scale
    &&& r.width == tx - fx
    &&& r.height == ty - fy
    &&& forall|x: int, y: int|
        0 <= x < r.width && 0 <= y < r.height ==> #[trigger] cell_at(r.data@, r.width as int, x, y)
            == cell_at(m.data@, m.width as int, fx + x, fy + y)
    &&& forall|x: int, y: int|
        0 <= x < r.width && 0 <= y < r.height ==> #[trigger] r.steepness@[y * (r.width as int) + x]
            == m.steepness@[(fy + y) * (m.width as int) + (fx + x)]
}

/// One cell of `old_data` after a `pw` by `ph` patch has been written at
/// `(col, row)`: the patch value inside the rectangle, the old value outside.
pub open spec fn patched_cell(
    old_data: Seq<u8>,
    w: int,
    patch: Seq<u8>,
    col: int,
    row: int,
    pw: int,
    ph: int,
    x: int,
    y: int,
) -> int {
    if col <= x < col + pw && row <= y < row + ph {
        patch[(y - row) * pw + (x - col)] as int
    } else {
        cell_at(old_data, w, x, y)
    }
}

/// Distinct in-bounds cells have distinct row-major indices.
pub proof fn lemma_row_major_injective(x1: int, y1: int, x2: int, y2: int, w: int)
    requires
        0 <= x1 < w,
        0 <= x2 < w,
        0 <= y1,
        0 <= y2,
        y1 * w + x1 == y2 * w + x2,
    ensures
        x1 == x2,
        y1 == y2,
{
    if y1 < y2 {
        assert(y1 * w + x1 < y2 * w + x2) by (nonlinear_arith)
            requires 0 <= x1 < w, 0 <= x2, y1 < y2;
    }
    if y2 < y1 {
        assert(y2 * w + x2 < y1 * w + x1) by (nonlinear_arith)
            requires 0 <= x2 < w, 0 <= x1, y2 < y1;
    }
}

/// The steepness of a cell depends only on the three-by-three data
/// neighborhood around it.
pub proof fn lemma_cell_steepness_local(
    d1: Seq<u8>,
    d2: Seq<u8>,
    w: int,
    h: int,
    cx: int,
    cy: int,
)
    requires
        forall|x: int, y: int|
            cx - 1 <= x <= cx + 1 && cy - 1 <= y <= cy + 1 ==> #[trigger] raw_value_spec(
                d1,
                w,
                h,
                x,
                y,
            ) == raw_value_spec(d2, w, h, x, y),
    ensures
        cell_steepness(d1, w, h, cx, cy) == cell_steepness(d2, w, h, cx, cy),
{
    assert(raw_value_spec(d1, w, h, cx - 1, cy - 1) == raw_value_spec(d2, w, h, cx - 1, cy - 1));
    assert(raw_value_spec(d1, w, h, cx, cy - 1) == raw_value_spec(d2, w, h, cx, cy - 1));
    assert(raw_value_spec(d1, w, h, cx + 1, cy - 1) == raw_value_spec(d2, w, h, cx + 1, cy - 1));
    assert(raw_value_spec(d1, w, h, cx - 1, cy) == raw_value_spec(d2, w, h, cx - 1, cy));
    assert(raw_value_spec(d1, w, h, cx, cy) == raw_value_spec(d2, w, h, cx, cy));
    assert(raw_value_spec(d1, w, h, cx + 1, cy) == raw_value_spec(d2, w, h, cx + 1, cy));
    assert(raw_value_spec(d1, w, h, cx - 1, cy + 1) == raw_value_spec(d2, w, h, cx - 1, cy + 1));
    assert(raw_value_spec(d1, w, h, cx, cy + 1) == raw_value_spec(d2, w, h, cx, cy + 1));
    assert(raw_value_spec(d1, w, h, cx + 1, cy + 1) == raw_value_spec(d2, w, h, cx + 1, cy + 1));
}

/// `(x, y)` within a `w` by `h` grid gives a row-major index below `w * h`.
pub proof fn lemma_row_major_bound(x: int, y: int, w: int, h: int)
    requires
        0 <= x < w,
        0 <= y < h,
    ensures
        0 <= y * w + x < w * h,
{
    assert(y * w + x < w * h) by (nonlinear_arith)
        requires 0 <= x < w, 0 <= y < h;
    assert(y * w >= 0) by (nonlinear_arith)
        requires y >= 0, w > 0;
}

/// Row-major index of an in-bounds cell of a buffer of `len` entries.
fn grid_index(x: u128, y: u128, w: usize, len: usize) -> (r: usize)
    requires
        y * w + x < len,
    ensures
        r == y * w + x,
{
    (y * (w as u128) + x) as usize
}

/// Maps a point in scaled coordinates to its grid cell, dividing each
/// component by the scale (at least one), rounding towards zero.
fn scale_down(x: i64, y: i64, scale: usize) -> (r: (i128, i128))
    ensures
        ({
            let s = if scale > 1 { scale as int } else { 1 };
            r.0 == crate::scalar::div_trunc(x as int, s) && r.1 == crate::scalar::div_trunc(
                y as int,
                s,
            )
        }),
{
    let s: i128 = if scale > 1 {
        scale as i128
    } else {
        1
    };
    let cx = crate::scalar::div_trunc_i128(x as i128, s);
    let cy = crate::scalar::div_trunc_i128(y as i128, s);
    (cx, cy)
}

/// The value of the cell `(x, y)`, reading zero outside the grid.
fn raw_value(x: i128, y: i128, w: usize, h: usize, data: &Vec<u8>) -> (r: u8)
    requires
        data@.len() == w * h,
    ensures
        r as int == raw_value_spec(data@, w as int, h as int, x as int, y as int),
{
    if 0 <= x && x < w as i128 && 0 <= y && y < h as i128 {
        proof {
            lemma_row_major_bound(x as int, y as int, w as int, h as int);
        }
        let idx = grid_index(x as u128, y as u128, w, data.len());
        data[idx]
    } else {
        0
    }
}

/// Absolute difference of two bytes.
fn byte_abs_diff(a: u8, b: u8) -> (r: u8)
    ensures
        r as int == abs_diff(a as int, b as int),
{
    if a >= b {
        a - b
    } else {
        b - a
    }
}

/// The six pairwise absolute corner differences of one two-by-two block.
fn compute_block(x: i128, y: i128, w: usize, h: usize, data: &Vec<u8>) -> (r: u16)
    requires
        data@.len() == w * h,
        -2 <= x <= 0x2_0000_0000_0000_0000,
        -2 <= y <= 0x2_0000_0000_0000_0000,
    ensures
        r as int == block_steepness(data@, w as int, h as int, x as int, y as int),
        r <= 1530,
{
    let a = raw_value(x, y, w, h, data);
    let b = raw_value(x + 1, y, w, h, data);
    let c = raw_value(x + 1, y + 1, w, h, data);
    let d = raw_value(x, y + 1, w, h, data);
    let ab = byte_abs_diff(a, b) as u16;
    let cd = byte_abs_diff(c, d) as u16;
    let ac = byte_abs_diff(a, c) as u16;
    let bd = byte_abs_diff(b, d) as u16;
    let ad = byte_abs_diff(a, d) as u16;
    let bc = byte_abs_diff(b, c) as u16;
    ab + cd + ac + bd + ad + bc
}

/// The steepness numerator of one cell: the sum over its four blocks.
pub fn compute_cell_steepness(col: usize, row: usize, w: usize, h: usize, data: &Vec<u8>) -> (r:
    u16)
    requires
        data@.len() == w * h,
        col < w,
        row < h,
    ensures
        r as int == cell_steepness(data@, w as int, h as int, col as int, row as int),
        r <= 6120,
{
    let cx = col as i128;
    let cy = row as i128;
    let b0 = compute_block(cx - 1, cy - 1, w, h, data);
    let b1 = compute_block(cx - 1, cy, w, h, data);
    let b2 = compute_block(cx, cy - 1, w, h, data);
    let b3 = compute_block(cx, cy, w, h, data);
    b0 + b1 + b2 + b3
}

/// The whole steepness buffer of a density buffer.
fn compute_steepness(w: usize, h: usize, data: &Vec<u8>) -> (r: Vec<u16>)
    requires
        data@.len() == w * h,
    ensures
        r@.len() == data@.len(),
        forall|x: int, y: int|
            0 <= x < w && 0 <= y < h ==> #[trigger] r@[y * w + x] as int == cell_steepness(
                data@,
                w as int,
                h as int,
                x,
                y,
            ),
{
    let mut r: Vec<u16> = Vec::new();
    let mut row: usize = 0;
    while row < h
        invariant
            data@.len() == w * h,
            row <= h,
            r@.len() == row * w,
            forall|x: int, y: int|
                0 <= x < w && 0 <= y < row ==> #[trigger] r@[y * w + x] as int == cell_steepness(
                    data@,
                    w as int,
                    h as int,
                    x,
                    y,
                ),
        decreases h - row,
    {
        let mut col: usize = 0;
        while col < w
            invariant
                data@.len() == w * h,
                row < h,
                col <= w,
                r@.len() == row * w + col,
                forall|x: int, y: int|
                    0 <= x < w && 0 <= y < row ==> #[trigger] r@[y * w + x] as int
                        == cell_steepness(data@, w as int, h as int, x, y),
                forall|x: int|
                    0 <= x < col ==> #[trigger] r@[row as int * w + x] as int == cell_steepness(
                        data@,
                        w as int,
                        h as int,
                        x,
                        row as int,
                    ),
            decreases w - col,
        {
            proof {
                lemma_row_major_bound(col as int, row as int, w as int, h as int);
            }
            let s = compute_cell_steepness(col, row, w, h, data);
            let ghost pre = r@;
            r.push(s);
            proof {
                assert forall|x: int, y: int| 0 <= x < w && 0 <= y < row implies #[trigger] r@[y
                    * w + x] as int == cell_steepness(data@, w as int, h as int, x, y) by {
                    lemma_row_major_bound(x, y, w as int, row as int);
                    assert(y * w + x < row * w + col) by (nonlinear_arith)
                        requires 0 <= x < w, 0 <= y < row, col >= 0;
                    assert(y * w + x < pre.len());
                    assert(pre[y * w + x] as int == cell_steepness(data@, w as int, h as int, x, y));
                    assert(r@[y * w + x] == pre[y * w + x]);
                }
            }
            col = col + 1;
        }
        proof {
            assert((row + 1) * w == row * w + w) by (nonlinear_arith);
            assert forall|x: int, y: int| 0 <= x < w && 0 <= y < row + 1 implies #[trigger] r@[y
                * w + x] as int == cell_steepness(data@, w as int, h as int, x, y) by {
                if y < row {
                    lemma_row_major_bound(x, y, w as int, row as int);
                    assert(y * w + x < row * w) by (nonlinear_arith)
                        requires 0 <= x < w, 0 <= y < row;
                }
            }
        }
        row = row + 1;
    }
    proof {
        assert(h * w == w * h) by (nonlinear_arith);
    }
    r
}

} // verus!
