//! The sweep generator: swath lines across the bounding rectangle, candidate points along
//! them, and the waypoints placed at candidates inside the search polygon.
use crate::arith::{
    combination, div_floor, floor_div, floor_root, floor_sqrt, lemma_scaled_norm_dominates,
    scaled_combination, scaled_root, scaled_sqrt, ROOT_SCALE,
};
use crate::geometry::{within, ring_within, ProjPoint, COORD_LIMIT, POINT_LIMIT};
use crate::orientation::{edge_dx, edge_dy, edge_sq};
use crate::elevation::{ElevationGrid, PIXEL_LIMIT};
use crate::geometry::{covers, ring_covers, ring_pairs, TEST_LIMIT};
use crate::passes::{alternating, lemma_boustrophedon, order_passes, serpentine, stations_rising};
use crate::waypoint::POSITION_LIMIT;
use crate::slope::{
    displace, displaced, gradient_in_range, gradient_view, half_width, half_width_of,
    stride_of, stride_quarters,
};
use crate::waypoint::{CoverageRect, Waypoint};
use vstd::prelude::*;

verus! {

/// Largest number of candidate points visited on one swath line of the terrain sweep.
pub const STEP_CAP: u64 = 10_000;

/// Layout of the swath lines, fixed for the whole request.
#[derive(Clone, Copy, Debug)]
pub struct SweepFrame {
    /// Middle of the bounding rectangle's extent.
    pub center: ProjPoint,
    /// Sweep direction, the vector of the rectangle's longest edge.
    pub dx: i64,
    pub dy: i64,
    /// `ROOT_SCALE` times the length of `(dx, dy)`, rounded down.
    pub norm: i128,
    /// Diagonal of the extent, in millimetres.
    pub width: i64,
    /// Distance between swath lines, in millimetres.
    pub spacing: i64,
    /// Lines run from index `-half_lines` to `half_lines`.
    pub half_lines: i64,
}

pub open spec fn min_x(s: Seq<ProjPoint>) -> int
    decreases s.len(),
{
    if s.len() <= 1 {
        if s.len() == 1 { s[0].x as int } else { 0 }
    } else {
        let m = min_x(s.drop_last());
        if s.last().x < m { s.last().x as int } else { m }
    }
}

pub open spec fn max_x(s: Seq<ProjPoint>) -> int
    decreases s.len(),
{
    if s.len() <= 1 {
        if s.len() == 1 { s[0].x as int } else { 0 }
    } else {
        let m = max_x(s.drop_last());
        if s.last().x > m { s.last().x as int } else { m }
    }
}

pub open spec fn min_y(s: Seq<ProjPoint>) -> int
    decreases s.len(),
{
    if s.len() <= 1 {
        if s.len() == 1 { s[0].y as int } else { 0 }
    } else {
        let m = min_y(s.drop_last());
        if s.last().y < m { s.last().y as int } else { m }
    }
}

pub open spec fn max_y(s: Seq<ProjPoint>) -> int
    decreases s.len(),
{
    if s.len() <= 1 {
        if s.len() == 1 { s[0].y as int } else { 0 }
    } else {
        let m = max_y(s.drop_last());
        if s.last().y > m { s.last().y as int } else { m }
    }
}

/// The frame of a request: extent of the rectangle `mbr`, its edge `k` as sweep direction,
/// and `ceil(diagonal / spacing)` lines centred on the extent's middle.
pub open spec fn frame_spec(mbr: Seq<ProjPoint>, k: int, spacing: int) -> SweepFrame {
    let ex = max_x(mbr) - min_x(mbr);
    let ey = max_y(mbr) - min_y(mbr);
    let width = floor_sqrt(ex * ex + ey * ey);
    let dx = edge_dx(mbr, k);
    let dy = edge_dy(mbr, k);
    SweepFrame {
        center: ProjPoint {
            x: div_floor(min_x(mbr) + max_x(mbr), 2) as i64,
            y: div_floor(min_y(mbr) + max_y(mbr), 2) as i64,
        },
        dx: dx as i64,
        dy: dy as i64,
        norm: scaled_sqrt(dx * dx + dy * dy) as i128,
        width: width as i64,
        spacing: spacing as i64,
        half_lines: ((width + spacing - 1) / spacing / 2) as i64,
    }
}

pub open spec fn frame_wf(f: SweepFrame) -> bool {
    &&& within(f.center, COORD_LIMIT as int)
    &&& -2 * COORD_LIMIT <= f.dx <= 2 * COORD_LIMIT
    &&& -2 * COORD_LIMIT <= f.dy <= 2 * COORD_LIMIT
    &&& (f.dx != 0 || f.dy != 0)
    &&& f.norm == scaled_sqrt(f.dx * f.dx + f.dy * f.dy)
    &&& f.norm < 0x4000_0000_0000_0000
    &&& 0 <= f.width <= 3 * COORD_LIMIT
    &&& 0 < f.spacing <= COORD_LIMIT
    &&& f.half_lines == (f.width + f.spacing - 1) / (f.spacing as int) / 2
}

/// Candidate point of line `i` at station `t4` (quarter millimetres from the line's middle):
/// the frame's centre, moved `i` spacings across the sweep and `t4 / 4` millimetres along it.
pub open spec fn line_point(f: SweepFrame, i: int, t4: int) -> ProjPoint {
    let off4 = 4 * i * f.spacing;
    ProjPoint {
        x: (f.center.x + combination(t4, -off4, f.dx as int, f.dy as int, 4 * f.norm)) as i64,
        y: (f.center.y + combination(off4, t4, f.dx as int, f.dy as int, 4 * f.norm)) as i64,
    }
}

/// Corner `(xl, yl)` of a square around `p`, given in axes turned a quarter turn from the
/// sweep direction.
pub open spec fn corner(f: SweepFrame, p: ProjPoint, xl: int, yl: int) -> ProjPoint {
    ProjPoint {
        x: (p.x + combination(-yl, -xl, f.dx as int, f.dy as int, f.norm as int)) as i64,
        y: (p.y + combination(xl, -yl, f.dx as int, f.dy as int, f.norm as int)) as i64,
    }
}

/// The photo square of half side `hw` around `p`.
pub open spec fn rect_spec(f: SweepFrame, p: ProjPoint, hw: int) -> CoverageRect {
    CoverageRect {
        coords: [
            corner(f, p, -hw, hw),
            corner(f, p, -hw, -hw),
            corner(f, p, hw, -hw),
            corner(f, p, hw, hw),
            corner(f, p, -hw, hw),
        ],
        center: p,
    }
}

proof fn lemma_frame_facts(f: SweepFrame)
    requires
        frame_wf(f),
    ensures
        f.norm >= ROOT_SCALE * f.dx,
        f.norm >= -ROOT_SCALE * f.dx,
        f.norm >= ROOT_SCALE * f.dy,
        f.norm >= -ROOT_SCALE * f.dy,
        f.norm > 0,
        0 <= f.half_lines * f.spacing <= f.width + f.spacing,
{
    lemma_scaled_norm_dominates(f.dx as int, f.dy as int);
    let k = ROOT_SCALE as int;
    if f.dx != 0 {
        assert(k * f.dx > 0 || -k * f.dx > 0) by (nonlinear_arith)
            requires
                f.dx != 0,
                k > 0,
        ;
    } else {
        assert(k * f.dy > 0 || -k * f.dy > 0) by (nonlinear_arith)
            requires
                f.dy != 0,
                k > 0,
        ;
    }
    let sp = f.spacing as int;
    let n = (f.width + sp - 1) / sp;
    vstd::arithmetic::div_mod::lemma_fundamental_div_mod(f.width + sp - 1, sp);
    assert(0 <= n * sp <= f.width + sp - 1) by (nonlinear_arith)
        requires
            n == (f.width + sp - 1) / sp,
            f.width + sp - 1 == sp * n + (f.width + sp - 1) % sp,
            0 <= (f.width + sp - 1) % sp,
            f.width + sp - 1 >= 0,
            sp > 0,
    ;
    assert(0 <= (n / 2) * sp <= n * sp) by (nonlinear_arith)
        requires
            n * sp >= 0,
            n >= 0,
            sp > 0,
    ;
}

/// Evaluates `line_point` for a line of the frame and a station within the line.
pub fn point_on_line(f: &SweepFrame, i: i64, t4: i64) -> (r: ProjPoint)
    requires
        frame_wf(*f),
        -f.half_lines <= i <= f.half_lines,
        -4 * f.width <= t4 <= 4 * f.width,
    ensures
        r == line_point(*f, i as int, t4 as int),
        within(r, 30_000_000_000_000),
{
    proof {
        lemma_frame_facts(*f);
        let sp = f.spacing as int;
        let h = f.half_lines as int;
        assert(-(f.width + sp) <= i * sp <= f.width + sp) by (nonlinear_arith)
            requires
                -h <= i <= h,
                sp > 0,
                0 <= h * sp <= f.width + sp,
        ;
    }
    let off4: i128 = 4 * ((i as i128) * (f.spacing as i128));
    assert(off4 == 4 * i * f.spacing) by (nonlinear_arith)
        requires
            off4 == 4 * (i * f.spacing),
    ;
    let den: i128 = 4 * f.norm;
    let ax = scaled_combination(t4 as i128, -off4, f.dx as i128, f.dy as i128, den);
    let ay = scaled_combination(off4, t4 as i128, f.dx as i128, f.dy as i128, den);
    ProjPoint { x: f.center.x + ax, y: f.center.y + ay }
}

/// Evaluates `rect_spec`.
pub fn coverage_rect(f: &SweepFrame, p: ProjPoint, hw: i64) -> (r: CoverageRect)
    requires
        frame_wf(*f),
        within(p, POINT_LIMIT as int),
        0 <= hw <= 5 * COORD_LIMIT,
    ensures
        r == rect_spec(*f, p, hw as int),
{
    proof {
        lemma_frame_facts(*f);
    }
    let c0 = corner_of(f, p, -hw, hw);
    let c1 = corner_of(f, p, -hw, -hw);
    let c2 = corner_of(f, p, hw, -hw);
    let c3 = corner_of(f, p, hw, hw);
    let r = CoverageRect { coords: [c0, c1, c2, c3, c0], center: p };
    assert(r.coords@ =~= rect_spec(*f, p, hw as int).coords@);
    r
}

fn corner_of(f: &SweepFrame, p: ProjPoint, xl: i64, yl: i64) -> (r: ProjPoint)
    requires
        frame_wf(*f),
        within(p, POINT_LIMIT as int),
        -5 * COORD_LIMIT <= xl <= 5 * COORD_LIMIT,
        -5 * COORD_LIMIT <= yl <= 5 * COORD_LIMIT,
    ensures
        r == corner(*f, p, xl as int, yl as int),
{
    proof {
        lemma_frame_facts(*f);
    }
    let ax = scaled_combination(-(yl as i128), -(xl as i128), f.dx as i128, f.dy as i128, f.norm);
    let ay = scaled_combination(xl as i128, -(yl as i128), f.dx as i128, f.dy as i128, f.norm);
    ProjPoint { x: p.x + ax, y: p.y + ay }
}


/// The waypoint placed at the candidate of line `i` at station `t4`, on a gradient `g` taken
/// across a baseline of `s` millimetres.
pub open spec fn waypoint_spec(
    f: SweepFrame,
    footprint: int,
    alt: int,
    s: int,
    g: Option<(int, int)>,
    i: int,
    t4: int,
) -> Waypoint {
    let p = line_point(f, i, t4);
    Waypoint {
        coverage_rect: rect_spec(f, p, half_width(footprint, s, g)),
        position: displaced(p, alt, g),
        bearing_millideg: 0,
        altitude_mm: alt as u64,
        line: i as i64,
        station: t4 as i64,
    }
}

pub open spec fn inside(poly: Seq<ProjPoint>, p: ProjPoint) -> bool {
    ring_covers(ring_pairs(poly), p.x as int, p.y as int)
}

/// Half the number of candidates of a fixed-resolution line: candidates lie a quarter
/// spacing apart over twice the diagonal.
pub open spec fn fixed_half(f: SweepFrame) -> int {
    8 * f.width / (f.spacing as int) / 2
}

/// Waypoints of the first `n` candidates of line `i` at fixed resolution.
pub open spec fn fixed_prefix(
    poly: Seq<ProjPoint>,
    f: SweepFrame,
    footprint: int,
    alt: int,
    i: int,
    n: int,
) -> Seq<Waypoint>
    decreases n,
{
    if n <= 0 {
        Seq::empty()
    } else {
        let prev = fixed_prefix(poly, f, footprint, alt, i, n - 1);
        let t4 = (n - 1 - fixed_half(f)) * f.spacing;
        if inside(poly, line_point(f, i, t4)) {
            prev.push(waypoint_spec(f, footprint, alt, 4, None, i, t4))
        } else {
            prev
        }
    }
}

/// Line `i` at fixed resolution: every candidate inside the polygon, in order.
pub open spec fn fixed_line(
    poly: Seq<ProjPoint>,
    f: SweepFrame,
    footprint: int,
    alt: int,
    i: int,
) -> Seq<Waypoint> {
    fixed_prefix(poly, f, footprint, alt, i, 2 * fixed_half(f) + 1)
}

/// The walk along line `i` from `d4` quarter millimetres past the line's start, with
/// `budget` candidates left: the waypoints placed, and whether the budget ran out first.
/// Inside the polygon a waypoint is placed and the walk moves on by the slope-shortened
/// stride; outside it moves on by a quarter spacing.
pub open spec fn walk(
    poly: Seq<ProjPoint>,
    f: SweepFrame,
    footprint: int,
    alt: int,
    grid: ElevationGrid,
    i: int,
    d4: int,
    budget: nat,
) -> (Seq<Waypoint>, bool)
    decreases budget,
{
    if d4 >= 8 * f.width {
        (Seq::empty(), false)
    } else if budget == 0 {
        (Seq::empty(), true)
    } else {
        let t4 = d4 - 4 * f.width;
        let p = line_point(f, i, t4);
        if inside(poly, p) {
            let g = grid.gradient_spec(p);
            let s = 2 * grid.probe_distance();
            let rest = walk(
                poly,
                f,
                footprint,
                alt,
                grid,
                i,
                d4 + stride_quarters(f.spacing as int, s, g),
                (budget - 1) as nat,
            );
            (seq![waypoint_spec(f, footprint, alt, s, g, i, t4)] + rest.0, rest.1)
        } else {
            walk(poly, f, footprint, alt, grid, i, d4 + f.spacing, (budget - 1) as nat)
        }
    }
}

/// All lines of the fixed-resolution sweep, from index `-half_lines` up.
pub open spec fn fixed_lines(
    poly: Seq<ProjPoint>,
    f: SweepFrame,
    footprint: int,
    alt: int,
) -> Seq<Seq<Waypoint>> {
    Seq::new(
        (2 * f.half_lines + 1) as nat,
        |k: int| fixed_line(poly, f, footprint, alt, k - f.half_lines),
    )
}

/// All lines of the terrain sweep, from index `-half_lines` up.
pub open spec fn terrain_lines(
    poly: Seq<ProjPoint>,
    f: SweepFrame,
    footprint: int,
    alt: int,
    grid: ElevationGrid,
) -> Seq<Seq<Waypoint>> {
    Seq::new(
        (2 * f.half_lines + 1) as nat,
        |k: int| walk(poly, f, footprint, alt, grid, k - f.half_lines, 0, STEP_CAP as nat).0,
    )
}

/// How many of the first `n` lines of the terrain sweep ran out of candidates.
pub open spec fn truncated_lines(
    poly: Seq<ProjPoint>,
    f: SweepFrame,
    footprint: int,
    alt: int,
    grid: ElevationGrid,
    n: int,
) -> nat
    decreases n,
{
    if n <= 0 {
        0
    } else {
        truncated_lines(poly, f, footprint, alt, grid, n - 1) + if walk(
            poly,
            f,
            footprint,
            alt,
            grid,
            n - 1 - f.half_lines,
            0,
            STEP_CAP as nat,
        ).1 {
            1nat
        } else {
            0nat
        }
    }
}

/// What a sweep needs of its inputs.
pub open spec fn sweep_ready(poly: Seq<ProjPoint>, f: SweepFrame, footprint: int, alt: int) -> bool {
    &&& ring_within(poly, COORD_LIMIT as int)
    &&& frame_wf(f)
    &&& 0 < footprint <= COORD_LIMIT
    &&& 0 <= alt <= COORD_LIMIT
}

proof fn lemma_ring_testable(poly: Seq<ProjPoint>)
    requires
        ring_within(poly, COORD_LIMIT as int),
    ensures
        ring_within(poly, TEST_LIMIT as int),
{
    assert forall|i: int| 0 <= i < poly.len() implies within(#[trigger] poly[i], TEST_LIMIT as int) by {
        assert(within(poly[i], COORD_LIMIT as int));
    }
}

fn make_waypoint(
    f: &SweepFrame,
    footprint: i64,
    alt: i64,
    s: i64,
    g: Option<(i64, i64)>,
    i: i64,
    t4: i64,
) -> (r: Waypoint)
    requires
        frame_wf(*f),
        0 < footprint <= COORD_LIMIT,
        0 <= alt <= COORD_LIMIT,
        0 < s <= 4 * PIXEL_LIMIT,
        gradient_in_range(g),
        -f.half_lines <= i <= f.half_lines,
        -4 * f.width <= t4 <= 4 * f.width,
    ensures
        r == waypoint_spec(*f, footprint as int, alt as int, s as int, gradient_view(g), i as int, t4 as int),
        within(r.position, POSITION_LIMIT as int),
        r.station == t4,
{
    let p = point_on_line(f, i, t4);
    let hw = half_width_of(footprint, s, g);
    let rect = coverage_rect(f, p, hw);
    let position = displace(p, alt, g);
    Waypoint {
        coverage_rect: rect,
        position,
        bearing_millideg: 0,
        altitude_mm: alt as u64,
        line: i,
        station: t4,
    }
}

proof fn lemma_fixed_span(f: SweepFrame)
    requires
        frame_wf(f),
    ensures
        0 <= fixed_half(f) * f.spacing <= 4 * f.width,
        fixed_half(f) >= 0,
{
    let sp = f.spacing as int;
    let np = 8 * f.width / sp;
    vstd::arithmetic::div_mod::lemma_fundamental_div_mod(8 * f.width, sp);
    assert(0 <= np * sp <= 8 * f.width) by (nonlinear_arith)
        requires
            np == 8 * f.width / sp,
            8 * f.width == sp * np + (8 * f.width) % sp,
            0 <= (8 * f.width) % sp,
            f.width >= 0,
            sp > 0,
    ;
    assert(0 <= 2 * ((np / 2) * sp) <= np * sp) by (nonlinear_arith)
        requires
            np * sp >= 0,
            np >= 0,
            sp > 0,
    ;
}

/// Line `i` at fixed resolution.
pub fn fixed_line_of(
    poly: &Vec<ProjPoint>,
    f: &SweepFrame,
    footprint: i64,
    alt: i64,
    i: i64,
) -> (r: Vec<Waypoint>)
    requires
        sweep_ready(poly@, *f, footprint as int, alt as int),
        -f.half_lines <= i <= f.half_lines,
    ensures
        r@ == fixed_line(poly@, *f, footprint as int, alt as int, i as int),
        stations_rising(r@),
        forall|t: int| 0 <= t < r.len() ==> within(#[trigger] r[t].position, POSITION_LIMIT as int),
{
    proof {
        lemma_fixed_span(*f);
        lemma_ring_testable(poly@);
    }
    let h: i64 = 8 * f.width / f.spacing / 2;
    let mut out: Vec<Waypoint> = Vec::new();
    let mut n: i64 = 0;
    while n < 2 * h + 1
        invariant
            sweep_ready(poly@, *f, footprint as int, alt as int),
            ring_within(poly@, TEST_LIMIT as int),
            -f.half_lines <= i <= f.half_lines,
            h == fixed_half(*f),
            0 <= h * f.spacing <= 4 * f.width,
            0 <= n <= 2 * h + 1,
            out@ == fixed_prefix(poly@, *f, footprint as int, alt as int, i as int, n as int),
            stations_rising(out@),
            forall|t: int| 0 <= t < out.len() ==> #[trigger] out[t].station < (n - h) * f.spacing,
            forall|t: int| 0 <= t < out.len() ==> within(#[trigger] out[t].position, POSITION_LIMIT as int),
        decreases 2 * h + 1 - n,
    {
        let j: i64 = n - h;
        assert(-4 * f.width <= j * f.spacing <= 4 * f.width) by (nonlinear_arith)
            requires
                -h <= j <= h,
                f.spacing > 0,
                0 <= h * f.spacing <= 4 * f.width,
        ;
        let t4: i64 = j * f.spacing;
        let p = point_on_line(f, i, t4);
        if covers(poly, p) {
            let w = make_waypoint(f, footprint, alt, 4, None, i, t4);
            out.push(w);
        }
        assert((n - h) * f.spacing < (n + 1 - h) * f.spacing) by (nonlinear_arith)
            requires
                f.spacing > 0,
        ;
        n = n + 1;
    }
    out
}

/// Line `i` of the terrain sweep: its waypoints, and whether it ran out of candidates.
pub fn terrain_line_of(
    poly: &Vec<ProjPoint>,
    f: &SweepFrame,
    footprint: i64,
    alt: i64,
    grid: &ElevationGrid,
    i: i64,
) -> (r: (Vec<Waypoint>, bool))
    requires
        sweep_ready(poly@, *f, footprint as int, alt as int),
        grid.wf(),
        -f.half_lines <= i <= f.half_lines,
    ensures
        (r.0@, r.1) == walk(poly@, *f, footprint as int, alt as int, *grid, i as int, 0, STEP_CAP as nat),
        stations_rising(r.0@),
        forall|t: int| 0 <= t < r.0.len() ==> within(#[trigger] r.0[t].position, POSITION_LIMIT as int),
{
    proof {
        lemma_ring_testable(poly@);
    }
    let pw = grid.pixel_width;
    let apw: i64 = if pw > 0 {
        pw
    } else {
        -pw
    };
    let s: i64 = 4 * apw;
    let limit: i64 = 8 * f.width;
    let mut out: Vec<Waypoint> = Vec::new();
    let mut d4: i64 = 0;
    let mut steps: u64 = 0;
    while d4 < limit && steps < STEP_CAP
        invariant
            sweep_ready(poly@, *f, footprint as int, alt as int),
            ring_within(poly@, TEST_LIMIT as int),
            grid.wf(),
            -f.half_lines <= i <= f.half_lines,
            s == 2 * grid.probe_distance(),
            0 < s <= 4 * PIXEL_LIMIT,
            limit == 8 * f.width,
            0 <= d4 <= 8 * f.width + 4 * f.spacing,
            steps <= STEP_CAP,
            out@ + walk(poly@, *f, footprint as int, alt as int, *grid, i as int, d4 as int, (STEP_CAP - steps) as nat).0
                == walk(poly@, *f, footprint as int, alt as int, *grid, i as int, 0, STEP_CAP as nat).0,
            walk(poly@, *f, footprint as int, alt as int, *grid, i as int, d4 as int, (STEP_CAP - steps) as nat).1
                == walk(poly@, *f, footprint as int, alt as int, *grid, i as int, 0, STEP_CAP as nat).1,
            stations_rising(out@),
            forall|t: int| 0 <= t < out.len() ==> #[trigger] out[t].station <= d4 - 4 * f.width,
            forall|t: int| 0 <= t < out.len() ==> within(#[trigger] out[t].position, POSITION_LIMIT as int),
        decreases STEP_CAP - steps,
    {
        let t4: i64 = d4 - 4 * f.width;
        let p = point_on_line(f, i, t4);
        if covers(poly, p) {
            let g = grid.gradient(p);
            let w = make_waypoint(f, footprint, alt, s, g, i, t4);
            let ghost before = out@;
            out.push(w);
            proof {
                assert(out@ =~= before + seq![w]);
            }
            let stride = stride_of(f.spacing, s, g);
            d4 = d4 + stride;
        } else {
            d4 = d4 + f.spacing;
        }
        steps = steps + 1;
    }
    proof {
        assert(out@ + Seq::<Waypoint>::empty() =~= out@);
    }
    (out, d4 < limit)
}

/// The fixed-resolution sweep, used for a whole request when no elevation data can be read.
#[verifier::rlimit(40)]
pub fn fixed_sweep(poly: &Vec<ProjPoint>, f: &SweepFrame, footprint: i64, alt: i64) -> (r: Vec<
    Waypoint,
>)
    requires
        sweep_ready(poly@, *f, footprint as int, alt as int),
    ensures
        r@ == serpentine(fixed_lines(poly@, *f, footprint as int, alt as int)),
        alternating(fixed_lines(poly@, *f, footprint as int, alt as int)),
        forall|t: int| 0 <= t < r.len() ==> within(#[trigger] r[t].position, POSITION_LIMIT as int),
{
    let h = f.half_lines;
    let ghost all = fixed_lines(poly@, *f, footprint as int, alt as int);
    let mut lines: Vec<Vec<Waypoint>> = Vec::new();
    let mut k: i64 = 0;
    while k < 2 * h + 1
        invariant
            sweep_ready(poly@, *f, footprint as int, alt as int),
            h == f.half_lines,
            h >= 0,
            all == fixed_lines(poly@, *f, footprint as int, alt as int),
            0 <= k <= 2 * h + 1,
            lines@.map_values(|l: Vec<Waypoint>| l@) =~= all.take(k as int),
            forall|j: int| 0 <= j < k ==> stations_rising(#[trigger] all[j]),
            forall|j: int, t: int|
                0 <= j < lines.len() && 0 <= t < lines[j].len() ==> within(
                    #[trigger] lines[j][t].position,
                    POSITION_LIMIT as int,
                ),
        decreases 2 * h + 1 - k,
    {
        let line = fixed_line_of(poly, f, footprint, alt, k - h);
        let ghost before = lines@;
        lines.push(line);
        proof {
            assert(lines@.map_values(|l: Vec<Waypoint>| l@) =~= before.map_values(
                |l: Vec<Waypoint>| l@,
            ).push(line@));
            assert(all.take(k as int + 1) =~= all.take(k as int).push(all[k as int]));
            assert(lines@.map_values(|l: Vec<Waypoint>| l@)[k as int] == line@);
            assert(all[k as int] == line@);
        }
        k = k + 1;
    }
    assert(all.take(2 * h + 1) =~= all);
    proof {
        lemma_boustrophedon(all);
    }
    order_passes(&lines)
}

/// The terrain sweep, used for a whole request when elevation data is at hand: its
/// waypoints, and how many lines ran out of candidates.
#[verifier::rlimit(40)]
pub fn terrain_sweep(
    poly: &Vec<ProjPoint>,
    f: &SweepFrame,
    footprint: i64,
    alt: i64,
    grid: &ElevationGrid,
) -> (r: (Vec<Waypoint>, u64))
    requires
        sweep_ready(poly@, *f, footprint as int, alt as int),
        grid.wf(),
    ensures
        r.0@ == serpentine(terrain_lines(poly@, *f, footprint as int, alt as int, *grid)),
        alternating(terrain_lines(poly@, *f, footprint as int, alt as int, *grid)),
        forall|t: int| 0 <= t < r.0.len() ==> within(#[trigger] r.0[t].position, POSITION_LIMIT as int),
        r.1 == truncated_lines(poly@, *f, footprint as int, alt as int, *grid, 2 * f.half_lines + 1),
{
    let h = f.half_lines;
    let ghost all = terrain_lines(poly@, *f, footprint as int, alt as int, *grid);
    let mut lines: Vec<Vec<Waypoint>> = Vec::new();
    let mut cut: u64 = 0;
    let mut k: i64 = 0;
    while k < 2 * h + 1
        invariant
            sweep_ready(poly@, *f, footprint as int, alt as int),
            grid.wf(),
            h == f.half_lines,
            h >= 0,
            all == terrain_lines(poly@, *f, footprint as int, alt as int, *grid),
            0 <= k <= 2 * h + 1,
            lines@.map_values(|l: Vec<Waypoint>| l@) =~= all.take(k as int),
            forall|j: int| 0 <= j < k ==> stations_rising(#[trigger] all[j]),
            forall|j: int, t: int|
                0 <= j < lines.len() && 0 <= t < lines[j].len() ==> within(
                    #[trigger] lines[j][t].position,
                    POSITION_LIMIT as int,
                ),
            cut == truncated_lines(poly@, *f, footprint as int, alt as int, *grid, k as int),
            cut <= k,
        decreases 2 * h + 1 - k,
    {
        let (line, truncated) = terrain_line_of(poly, f, footprint, alt, grid, k - h);
        let ghost before = lines@;
        lines.push(line);
        proof {
            assert(lines@.map_values(|l: Vec<Waypoint>| l@) =~= before.map_values(
                |l: Vec<Waypoint>| l@,
            ).push(line@));
            assert(all.take(k as int + 1) =~= all.take(k as int).push(all[k as int]));
            assert(lines@.map_values(|l: Vec<Waypoint>| l@)[k as int] == line@);
            assert(all[k as int] == line@);
        }
        if truncated {
            cut = cut + 1;
        }
        k = k + 1;
    }
    assert(all.take(2 * h + 1) =~= all);
    proof {
        lemma_boustrophedon(all);
    }
    (order_passes(&lines), cut)
}


proof fn lemma_extent(s: Seq<ProjPoint>)
    requires
        s.len() >= 1,
        ring_within(s, COORD_LIMIT as int),
    ensures
        -COORD_LIMIT <= min_x(s) <= max_x(s) <= COORD_LIMIT,
        -COORD_LIMIT <= min_y(s) <= max_y(s) <= COORD_LIMIT,
    decreases s.len(),
{
    assert(within(s[s.len() - 1], COORD_LIMIT as int));
    assert(within(s[0], COORD_LIMIT as int));
    if s.len() > 1 {
        let t = s.drop_last();
        assert forall|i: int| 0 <= i < t.len() implies within(#[trigger] t[i], COORD_LIMIT as int) by {
            assert(t[i] == s[i]);
            assert(within(s[i], COORD_LIMIT as int));
        }
        lemma_extent(t);
    }
}

/// Smallest and largest coordinates of a non-empty ring.
pub fn extent(ring: &Vec<ProjPoint>) -> (r: (i64, i64, i64, i64))
    requires
        ring.len() >= 1,
    ensures
        r.0 == min_x(ring@) && r.1 == max_x(ring@) && r.2 == min_y(ring@) && r.3 == max_y(ring@),
{
    let mut lx = ring[0].x;
    let mut hx = ring[0].x;
    let mut ly = ring[0].y;
    let mut hy = ring[0].y;
    let mut i: usize = 1;
    proof {
        assert(ring@.take(1).len() == 1);
    }
    while i < ring.len()
        invariant
            1 <= i <= ring.len(),
            lx == min_x(ring@.take(i as int)),
            hx == max_x(ring@.take(i as int)),
            ly == min_y(ring@.take(i as int)),
            hy == max_y(ring@.take(i as int)),
        decreases ring.len() - i,
    {
        let p = ring[i];
        proof {
            assert(ring@.take(i as int + 1).drop_last() =~= ring@.take(i as int));
            assert(ring@.take(i as int + 1).last() == p);
        }
        if p.x < lx {
            lx = p.x;
        }
        if p.x > hx {
            hx = p.x;
        }
        if p.y < ly {
            ly = p.y;
        }
        if p.y > hy {
            hy = p.y;
        }
        i = i + 1;
    }
    assert(ring@.take(ring.len() as int) =~= ring@);
    (lx, hx, ly, hy)
}

/// The frame of a request from the bounding rectangle, its chosen edge `k` and the spacing.
pub fn sweep_frame(mbr: &Vec<ProjPoint>, k: usize, spacing: i64) -> (r: SweepFrame)
    requires
        ring_within(mbr@, COORD_LIMIT as int),
        0 <= k < mbr.len() - 1,
        edge_sq(mbr@, k as int) > 0,
        0 < spacing <= COORD_LIMIT,
    ensures
        r == frame_spec(mbr@, k as int, spacing as int),
        frame_wf(r),
{
    proof {
        lemma_extent(mbr@);
        assert(within(mbr@[k as int], COORD_LIMIT as int));
        assert(within(mbr@[k as int + 1], COORD_LIMIT as int));
    }
    let (lx, hx, ly, hy) = extent(mbr);
    let ex: i128 = hx as i128 - lx as i128;
    let ey: i128 = hy as i128 - ly as i128;
    assert(0 <= ex * ex <= 4_000_000_000_000_000_000_000_000 && 0 <= ey * ey
        <= 4_000_000_000_000_000_000_000_000) by (nonlinear_arith)
        requires
            0 <= ex <= 2_000_000_000_000,
            0 <= ey <= 2_000_000_000_000,
    ;
    let width_u = floor_root((ex * ex + ey * ey) as u128);
    proof {
        crate::arith::lemma_floor_sqrt_exists((ex * ex + ey * ey) as int);
        let w = width_u as int;
        assert(w <= 3_000_000_000_000) by (nonlinear_arith)
            requires
                w * w <= 8_000_000_000_000_000_000_000_000,
                w >= 0,
        ;
    }
    let width: i64 = width_u as i64;
    let dx: i64 = mbr[k + 1].x - mbr[k].x;
    let dy: i64 = mbr[k + 1].y - mbr[k].y;
    assert(0 <= dx * dx <= 4_000_000_000_000_000_000_000_000 && 0 <= dy * dy
        <= 4_000_000_000_000_000_000_000_000) by (nonlinear_arith)
        requires
            -2_000_000_000_000 <= dx <= 2_000_000_000_000,
            -2_000_000_000_000 <= dy <= 2_000_000_000_000,
    ;
    let q: u128 = ((dx as i128) * (dx as i128) + (dy as i128) * (dy as i128)) as u128;
    let norm = scaled_root(q);
    let cx = floor_div(lx as i128 + hx as i128, 2);
    let cy = floor_div(ly as i128 + hy as i128, 2);
    let half: i64 = (width + spacing - 1) / spacing / 2;
    proof {
        vstd::arithmetic::div_mod::lemma_fundamental_div_mod(lx + hx, 2);
        vstd::arithmetic::div_mod::lemma_fundamental_div_mod(ly + hy, 2);
        assert(-COORD_LIMIT <= cx <= COORD_LIMIT);
        assert(-COORD_LIMIT <= cy <= COORD_LIMIT);
        assert(dx == edge_dx(mbr@, k as int) && dy == edge_dy(mbr@, k as int));
        let ex2 = edge_dx(mbr@, k as int);
        let ey2 = edge_dy(mbr@, k as int);
        assert(edge_sq(mbr@, k as int) == ex2 * ex2 + ey2 * ey2);
        assert(ex2 == 0 && ey2 == 0 ==> ex2 * ex2 + ey2 * ey2 == 0) by (nonlinear_arith);
    }
    SweepFrame {
        center: ProjPoint { x: cx as i64, y: cy as i64 },
        dx,
        dy,
        norm: norm as i128,
        width,
        spacing,
        half_lines: half,
    }
}

} // verus!
