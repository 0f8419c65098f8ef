//! Elevation samples read from a raster grid held in memory.
use crate::arith::{div_floor, floor_div};
use crate::geometry::{ProjPoint, COORD_LIMIT, POINT_LIMIT};
use vstd::prelude::*;

verus! {

/// The raster's no-data marker, in millimetres.
pub const NODATA_MM: i64 = -32_767_000;

/// Distance from the no-data marker within which a raw value counts as no data.
pub const NODATA_TOLERANCE_MM: i64 = 100;

/// Largest magnitude of a pixel side, in millimetres.
pub const PIXEL_LIMIT: i64 = 1_000_000_000;

/// Largest magnitude of a stored elevation, in millimetres.
pub const ELEVATION_LIMIT: i64 = 1_000_000_000;

/// Largest magnitude of a point at which the grid is sampled.
pub const SAMPLE_LIMIT: i64 = 1_000_000_000_000_000;

/// An elevation in millimetres, or the explicit absence of one.
#[derive(Clone, Copy, Debug, PartialEq, Eq)]
pub enum ElevationSample {
    Value(i64),
    Unavailable,
}

/// One band of an elevation raster with its affine placement: pixel `(col, row)` covers
/// `origin + (col, row) * pixel size`, stored row by row.
#[derive(Clone, Debug)]
pub struct ElevationGrid {
    pub origin_x: i64,
    pub origin_y: i64,
    pub pixel_width: i64,
    pub pixel_height: i64,
    pub columns: usize,
    pub rows: usize,
    pub cells: Vec<i64>,
}

pub open spec fn abs(v: int) -> int {
    if v >= 0 {
        v
    } else {
        -v
    }
}

/// What a raw stored value means.
pub open spec fn classify_spec(raw: int) -> ElevationSample {
    if abs(raw - NODATA_MM) < NODATA_TOLERANCE_MM {
        ElevationSample::Unavailable
    } else {
        ElevationSample::Value(raw as i64)
    }
}

/// `floor(a / b)` for a non-zero divisor of either sign.
pub open spec fn floor_ratio(a: int, b: int) -> int {
    if b > 0 {
        div_floor(a, b)
    } else {
        div_floor(-a, -b)
    }
}

impl ElevationGrid {
    pub open spec fn wf(&self) -> bool {
        &&& self.cells.len() == self.columns * self.rows
        &&& 0 < abs(self.pixel_width as int) <= PIXEL_LIMIT
        &&& 0 < abs(self.pixel_height as int) <= PIXEL_LIMIT
        &&& -COORD_LIMIT <= self.origin_x <= COORD_LIMIT
        &&& -COORD_LIMIT <= self.origin_y <= COORD_LIMIT
        &&& forall|i: int|
            0 <= i < self.cells.len() ==> -ELEVATION_LIMIT <= #[trigger] self.cells[i]
                <= ELEVATION_LIMIT
    }

    pub open spec fn column_of(&self, x: int) -> int {
        floor_ratio(x - self.origin_x, self.pixel_width as int)
    }

    pub open spec fn row_of(&self, y: int) -> int {
        floor_ratio(y - self.origin_y, self.pixel_height as int)
    }

    /// The sample at `(x, y)`: unavailable outside the grid, else the classified cell.
    pub open spec fn sample_spec(&self, x: int, y: int) -> ElevationSample {
        let c = self.column_of(x);
        let r = self.row_of(y);
        if c < 0 || r < 0 || c >= self.columns || r >= self.rows {
            ElevationSample::Unavailable
        } else {
            classify_spec(self.cells[r * self.columns + c] as int)
        }
    }

    /// Distance between the centre and the four points of the slope estimate: two pixels.
    pub open spec fn probe_distance(&self) -> int {
        2 * abs(self.pixel_width as int)
    }

    /// Elevation differences east minus west and north minus south around `p`, when all
    /// four samples are available.
    pub open spec fn gradient_spec(&self, p: ProjPoint) -> Option<(int, int)> {
        let sd = self.probe_distance();
        let e = self.sample_spec(p.x + sd, p.y as int);
        let w = self.sample_spec(p.x - sd, p.y as int);
        let n = self.sample_spec(p.x as int, p.y + sd);
        let s = self.sample_spec(p.x as int, p.y - sd);
        if e is Value && w is Value && n is Value && s is Value {
            Some(
                (
                    e->Value_0 - w->Value_0,
                    n->Value_0 - s->Value_0,
                ),
            )
        } else {
            None
        }
    }

    /// A grid from its parts, or `None` when the parts do not describe a usable grid
    /// (cell count, zero or oversized pixels, coordinates out of range).
    pub fn from_parts(
        origin_x: i64,
        origin_y: i64,
        pixel_width: i64,
        pixel_height: i64,
        columns: usize,
        rows: usize,
        cells: Vec<i64>,
    ) -> (r: Option<ElevationGrid>)
        ensures
            r matches Some(g) ==> g.wf() && g.origin_x == origin_x && g.origin_y == origin_y
                && g.pixel_width == pixel_width && g.pixel_height == pixel_height && g.columns
                == columns && g.rows == rows && g.cells@ == cells@,
            r is None ==> !((ElevationGrid {
                origin_x,
                origin_y,
                pixel_width,
                pixel_height,
                columns,
                rows,
                cells,
            }).wf()),
    {
        let g = ElevationGrid {
            origin_x,
            origin_y,
            pixel_width,
            pixel_height,
            columns,
            rows,
            cells,
        };
        if g.is_usable() {
            Some(g)
        } else {
            None
        }
    }

    /// Whether the grid is well formed and within the ranges the sampler computes with.
    pub fn is_usable(&self) -> (r: bool)
        ensures
            r == self.wf(),
    {
        let pw = self.pixel_width;
        let ph = self.pixel_height;
        if pw == 0 || pw < -PIXEL_LIMIT || pw > PIXEL_LIMIT {
            return false;
        }
        if ph == 0 || ph < -PIXEL_LIMIT || ph > PIXEL_LIMIT {
            return false;
        }
        if self.origin_x < -COORD_LIMIT || self.origin_x > COORD_LIMIT || self.origin_y
            < -COORD_LIMIT || self.origin_y > COORD_LIMIT {
            return false;
        }
        match self.columns.checked_mul(self.rows) {
            None => {
                return false;
            },
            Some(total) => {
                if total != self.cells.len() {
                    return false;
                }
            },
        }
        let mut i: usize = 0;
        while i < self.cells.len()
            invariant
                0 <= i <= self.cells.len(),
                forall|j: int|
                    0 <= j < i ==> -ELEVATION_LIMIT <= #[trigger] self.cells[j] <= ELEVATION_LIMIT,
            decreases self.cells.len() - i,
        {
            if self.cells[i] < -ELEVATION_LIMIT || self.cells[i] > ELEVATION_LIMIT {
                assert(!(-ELEVATION_LIMIT <= self.cells[i as int] <= ELEVATION_LIMIT));
                return false;
            }
            i = i + 1;
        }
        true
    }

    fn pixel_index(offset: i64, size: i64) -> (r: i128)
        requires
            size != 0,
            -2 * SAMPLE_LIMIT <= offset <= 2 * SAMPLE_LIMIT,
        ensures
            r == floor_ratio(offset as int, size as int),
    {
        if size > 0 {
            floor_div(offset as i128, size as i128)
        } else {
            floor_div(-(offset as i128), -(size as i128))
        }
    }

    /// Elevation at the projected point `(x, y)`.
    pub fn sample(&self, x: i64, y: i64) -> (r: ElevationSample)
        requires
            self.wf(),
            -SAMPLE_LIMIT <= x <= SAMPLE_LIMIT,
            -SAMPLE_LIMIT <= y <= SAMPLE_LIMIT,
        ensures
            r == self.sample_spec(x as int, y as int),
    {
        let c = Self::pixel_index(x - self.origin_x, self.pixel_width);
        let r = Self::pixel_index(y - self.origin_y, self.pixel_height);
        if c < 0 || r < 0 || c >= self.columns as i128 || r >= self.rows as i128 {
            return ElevationSample::Unavailable;
        }
        let cu = c as usize;
        let ru = r as usize;
        assert(ru * self.columns + cu < self.columns * self.rows) by (nonlinear_arith)
            requires
                ru < self.rows,
                cu < self.columns,
        ;
        classify(self.cells[ru * self.columns + cu])
    }

    /// Elevation differences (east minus west, north minus south) two pixels around `p`,
    /// or `None` when any of the four samples is unavailable.
    pub fn gradient(&self, p: ProjPoint) -> (r: Option<(i64, i64)>)
        requires
            self.wf(),
            -POINT_LIMIT <= p.x <= POINT_LIMIT,
            -POINT_LIMIT <= p.y <= POINT_LIMIT,
        ensures
            r matches Some(g) ==> self.gradient_spec(p) == Some((g.0 as int, g.1 as int)),
            r is None ==> self.gradient_spec(p) is None,
            r matches Some(g) ==> -2 * ELEVATION_LIMIT <= g.0 <= 2 * ELEVATION_LIMIT && -2
                * ELEVATION_LIMIT <= g.1 <= 2 * ELEVATION_LIMIT,
    {
        let w = self.pixel_width;
        assert(-PIXEL_LIMIT <= w <= PIXEL_LIMIT);
        let aw: i64 = if w > 0 {
            w
        } else {
            -w
        };
        let sd: i64 = 2 * aw;
        assert(sd == self.probe_distance() && 0 < sd <= 2 * PIXEL_LIMIT);
        let e = self.sample(p.x + sd, p.y);
        let wv = self.sample(p.x - sd, p.y);
        let n = self.sample(p.x, p.y + sd);
        let s = self.sample(p.x, p.y - sd);
        proof {
            self.lemma_sample_bounded(p.x + sd, p.y as int);
            self.lemma_sample_bounded(p.x - sd, p.y as int);
            self.lemma_sample_bounded(p.x as int, p.y + sd);
            self.lemma_sample_bounded(p.x as int, p.y - sd);
        }
        match (e, wv, n, s) {
            (
                ElevationSample::Value(a),
                ElevationSample::Value(b),
                ElevationSample::Value(c),
                ElevationSample::Value(d),
            ) => Some((a - b, c - d)),
            _ => None,
        }
    }

    proof fn lemma_sample_bounded(&self, x: int, y: int)
        requires
            self.wf(),
        ensures
            self.sample_spec(x, y) matches ElevationSample::Value(v) ==> -ELEVATION_LIMIT <= v
                <= ELEVATION_LIMIT,
    {
        let c = self.column_of(x);
        let r = self.row_of(y);
        if !(c < 0 || r < 0 || c >= self.columns || r >= self.rows) {
            assert(r * self.columns + c < self.columns * self.rows) by (nonlinear_arith)
                requires
                    0 <= r < self.rows,
                    0 <= c < self.columns,
            ;
            assert(0 <= r * self.columns + c) by (nonlinear_arith)
                requires
                    0 <= r,
                    0 <= c,
                    self.columns >= 0,
            ;
            assert(-ELEVATION_LIMIT <= self.cells[r * self.columns + c] <= ELEVATION_LIMIT);
        }
    }
}

/// Reads a raw stored value: within the tolerance of the no-data marker it is no elevation.
pub fn classify(raw: i64) -> (r: ElevationSample)
    ensures
        r == classify_spec(raw as int),
        abs(raw - NODATA_MM) < NODATA_TOLERANCE_MM ==> r == ElevationSample::Unavailable,
        abs(raw - NODATA_MM) >= NODATA_TOLERANCE_MM ==> r == ElevationSample::Value(raw),
{
    let d: i128 = raw as i128 - NODATA_MM as i128;
    if -(NODATA_TOLERANCE_MM as i128) < d && d < NODATA_TOLERANCE_MM as i128 {
        ElevationSample::Unavailable
    } else {
        ElevationSample::Value(raw)
    }
}

} // verus!
