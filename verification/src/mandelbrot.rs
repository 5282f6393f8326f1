//! The Mandelbrot engine: viewport-to-grid mapping, resumable per-cell
//! escape-time state, and the materialized pixel grid.
//!
//! The engine owns a grid of per-cell `(iterations_completed, z)` states and
//! a same-sized pixel grid.  Each call to [`Mandelbrot::run_iterations`]
//! advances every cell's escape-time recurrence by at most the given budget,
//! tracks the frame-wide iteration ceiling, and then recolors every pixel
//! with the configured strategy.  Because each call continues from the
//! stored state, splitting a budget over several calls ends in exactly the
//! state a single call with the whole budget reaches
//! ([`lemma_advance_grid_split`]).

use crate::color_scale::{apply_color, color_at, color_fn_valid, ColorFn};
use crate::complex_number::{cadd, cdiv_scalar, cmul, cmul_scalar, cnorm_sqr, ComplexNumber};
use crate::fixed::{f_from_int, fsub, Fixed, SCALE};
use crate::pixel::Pixel;
use vstd::prelude::*;

verus! {

/// The section of the complex plane to compute values and pixels for:
/// `top_left` is the plane coordinate of pixel (0,0), `width` and `height`
/// the extents in plane units.
pub struct Viewport {
    /// The plane coordinate of the top-left grid cell.
    pub top_left: ComplexNumber,
    /// Width of the region in plane units.
    pub width: Fixed,
    /// Height of the region in plane units.
    pub height: Fixed,
}

/// Everything the engine needs: pixel dimensions as `(width, height)`, the
/// viewport to cover, and the coloring strategy applied after each
/// iteration batch.
pub struct MandelbrotConfig {
    /// The pixel dimensions `(width, height)` of the grid.
    pub dimensions: (u32, u32),
    /// The viewport to cover.
    pub viewport: Viewport,
    /// The coloring strategy.
    pub color_fn: ColorFn,
}

/// The all-zero escape state a cell starts from.
pub open spec fn zero_cell() -> (u32, ComplexNumber) {
    (0u32, ComplexNumber { r: Fixed { raw: 0 }, i: Fixed { raw: 0 } })
}

/// The default pixel every cell starts from: opaque black.
pub open spec fn default_pixel() -> Pixel {
    Pixel { r: 0, g: 0, b: 0, a: 255 }
}

/// Whether an iterate has left the escape radius: `|z| >= 2`, tested
/// exactly on the squared magnitude.
pub open spec fn escaped(z: ComplexNumber) -> bool {
    cnorm_sqr(z).raw >= 4 * SCALE
}

/// One escape-time step: `z * z + c`.
pub open spec fn cell_step(z: ComplexNumber, c: ComplexNumber) -> ComplexNumber {
    cadd(cmul(z, z), c)
}

/// A cell state advanced by at most `n` further steps: the recurrence
/// `z -> z * z + c` runs while the iterate stays inside the escape radius
/// and budget remains, accumulating the completed count.
pub open spec fn advance_cell(st: (u32, ComplexNumber), c: ComplexNumber, n: nat) -> (
    u32,
    ComplexNumber,
)
    decreases n,
{
    if n == 0 || escaped(st.1) {
        st
    } else {
        advance_cell(((st.0 + 1) as u32, cell_step(st.1, c)), c, (n - 1) as nat)
    }
}

/// The per-axis step vectors of a configuration: the plane offset of one
/// column and of one row (rows move the imaginary part downward).
pub open spec fn expected_steps(cfg: MandelbrotConfig) -> (ComplexNumber, ComplexNumber) {
    (
        cdiv_scalar(
            ComplexNumber { r: cfg.viewport.width, i: Fixed { raw: 0 } },
            f_from_int(cfg.dimensions.0 as int),
        ),
        cdiv_scalar(
            ComplexNumber { r: Fixed { raw: 0 }, i: fsub(Fixed { raw: 0 }, cfg.viewport.height) },
            f_from_int(cfg.dimensions.1 as int),
        ),
    )
}

/// The plane coordinate of grid cell `(r, c)`:
/// `top_left + step_col * c + step_row * r`.
pub open spec fn cell_coord(
    top_left: ComplexNumber,
    steps: (ComplexNumber, ComplexNumber),
    r: int,
    c: int,
) -> ComplexNumber {
    cadd(cadd(top_left, cmul_scalar(steps.0, f_from_int(c))), cmul_scalar(steps.1, f_from_int(r)))
}

/// Every cell of a state grid advanced by at most `n` further steps at its
/// own plane coordinate.
pub open spec fn advance_grid(
    vals: Seq<Seq<(u32, ComplexNumber)>>,
    top_left: ComplexNumber,
    steps: (ComplexNumber, ComplexNumber),
    n: nat,
) -> Seq<Seq<(u32, ComplexNumber)>> {
    Seq::new(
        vals.len(),
        |r: int|
            Seq::new(
                vals[r].len(),
                |c: int| advance_cell(vals[r][c], cell_coord(top_left, steps, r, c), n),
            ),
    )
}

/// The largest completed count in a row of cell states.
pub open spec fn row_max(row: Seq<(u32, ComplexNumber)>) -> u32
    decreases row.len(),
{
    if row.len() == 0 {
        0
    } else {
        let m = row_max(row.drop_last());
        if row.last().0 > m {
            row.last().0
        } else {
            m
        }
    }
}

/// The largest completed count in a whole state grid: the frame-wide
/// iteration ceiling.
pub open spec fn grid_max(vals: Seq<Seq<(u32, ComplexNumber)>>) -> u32
    decreases vals.len(),
{
    if vals.len() == 0 {
        0
    } else {
        let m = grid_max(vals.drop_last());
        if row_max(vals.last()) > m {
            row_max(vals.last())
        } else {
            m
        }
    }
}

/// Every cell of a state grid colored by the strategy under the grid's own
/// iteration ceiling.
pub open spec fn colored_grid(cf: ColorFn, vals: Seq<Seq<(u32, ComplexNumber)>>) -> Seq<
    Seq<Pixel>,
> {
    Seq::new(
        vals.len(),
        |r: int|
            Seq::new(
                vals[r].len(),
                |c: int| color_at(cf, vals[r][c].0, vals[r][c].1, grid_max(vals)),
            ),
    )
}

/// The all-zero state grid of the given dimensions.
pub open spec fn initial_values(w: int, h: int) -> Seq<Seq<(u32, ComplexNumber)>> {
    Seq::new(h as nat, |r: int| Seq::new(w as nat, |c: int| zero_cell()))
}

/// The all-default pixel grid of the given dimensions.
pub open spec fn initial_pixels(w: int, h: int) -> Seq<Seq<Pixel>> {
    Seq::new(h as nat, |r: int| Seq::new(w as nat, |c: int| default_pixel()))
}

/// Progress of a single cell: the completed count never shrinks and grows
/// by at most the budget, a cell already escaped stays put, and a cell that
/// has not escaped after the call has used its whole budget.
pub proof fn lemma_advance_cell_progress(st: (u32, ComplexNumber), c: ComplexNumber, n: nat)
    requires
        st.0 + n <= u32::MAX,
    ensures
        st.0 <= advance_cell(st, c, n).0 <= st.0 + n,
        escaped(st.1) ==> advance_cell(st, c, n) == st,
        escaped(advance_cell(st, c, n).1) || advance_cell(st, c, n).0 == st.0 + n,
    decreases n,
{
    if n == 0 || escaped(st.1) {
    } else {
        lemma_advance_cell_progress(((st.0 + 1) as u32, cell_step(st.1, c)), c, (n - 1) as nat);
    }
}

/// Resumability of a single cell: advancing by `a` and then by `b` steps
/// ends in exactly the state that advancing by `a + b` steps reaches.
pub proof fn lemma_advance_cell_split(st: (u32, ComplexNumber), c: ComplexNumber, a: nat, b: nat)
    requires
        st.0 + a + b <= u32::MAX,
    ensures
        advance_cell(advance_cell(st, c, a), c, b) == advance_cell(st, c, (a + b) as nat),
    decreases a,
{
    if a == 0 || escaped(st.1) {
    } else {
        lemma_advance_cell_split(((st.0 + 1) as u32, cell_step(st.1, c)), c, (a - 1) as nat, b);
    }
}

/// Resumability of the whole grid: for any split `n = a + b` of an
/// iteration budget, advancing every cell by `a` and then by `b` steps
/// yields exactly the state grid of a single advance by `n`.  Together with
/// the contract of [`Mandelbrot::run_iterations`] — which also recolors the
/// pixel grid as a pure function of the state grid — this says that two
/// successive calls with budgets `a` and `b` leave the engine with the same
/// value and pixel grids as one call with budget `a + b`.
pub proof fn lemma_advance_grid_split(
    vals: Seq<Seq<(u32, ComplexNumber)>>,
    top_left: ComplexNumber,
    steps: (ComplexNumber, ComplexNumber),
    a: nat,
    b: nat,
)
    requires
        forall|r: int, c: int|
            0 <= r < vals.len() && 0 <= c < vals[r].len() ==> (#[trigger] vals[r][c]).0 + a + b
                <= u32::MAX,
    ensures
        advance_grid(advance_grid(vals, top_left, steps, a), top_left, steps, b) == advance_grid(
            vals,
            top_left,
            steps,
            (a + b) as nat,
        ),
{
    let ga = advance_grid(vals, top_left, steps, a);
    let gab = advance_grid(ga, top_left, steps, b);
    let gn = advance_grid(vals, top_left, steps, (a + b) as nat);
    assert forall|r: int| 0 <= r < vals.len() implies gab[r] =~= gn[r] by {
        assert forall|c: int| 0 <= c < vals[r].len() implies gab[r][c] == gn[r][c] by {
            lemma_advance_cell_split(vals[r][c], cell_coord(top_left, steps, r, c), a, b);
        }
    }
    assert(gab =~~= gn);
}


/// Escape monotonicity of the whole grid: across one advance by `n`
/// further steps, every cell's completed count never shrinks and grows by
/// at most `n`.  Applied to successive calls of
/// [`Mandelbrot::run_iterations`], whose contract says the state grid
/// advances exactly this way, the counts are non-decreasing across calls
/// and bounded by the cumulative budget supplied so far.
pub proof fn lemma_advance_grid_monotone(
    vals: Seq<Seq<(u32, ComplexNumber)>>,
    top_left: ComplexNumber,
    steps: (ComplexNumber, ComplexNumber),
    n: nat,
)
    requires
        forall|r: int, c: int|
            0 <= r < vals.len() && 0 <= c < vals[r].len() ==> (#[trigger] vals[r][c]).0 + n
                <= u32::MAX,
    ensures
        forall|r: int, c: int|
            0 <= r < vals.len() && 0 <= c < vals[r].len() ==> ((#[trigger] vals[r][c]).0
                <= advance_grid(vals, top_left, steps, n)[r][c].0 <= vals[r][c].0 + n),
{
    assert forall|r: int, c: int|
        0 <= r < vals.len() && 0 <= c < vals[r].len() implies ((#[trigger] vals[r][c]).0
        <= advance_grid(vals, top_left, steps, n)[r][c].0 <= vals[r][c].0 + n) by {
        lemma_advance_cell_progress(vals[r][c], cell_coord(top_left, steps, r, c), n);
    }
}

/// Every cell's completed count is bounded by the row maximum.
proof fn lemma_row_max_ge(row: Seq<(u32, ComplexNumber)>, k: int)
    requires
        0 <= k < row.len(),
    ensures
        row[k].0 <= row_max(row),
    decreases row.len(),
{
    if k < row.len() - 1 {
        lemma_row_max_ge(row.drop_last(), k);
    }
}

/// A bound on every completed count of a row bounds the row maximum.
proof fn lemma_row_max_le(row: Seq<(u32, ComplexNumber)>, b: u32)
    requires
        forall|k: int| 0 <= k < row.len() ==> (#[trigger] row[k]).0 <= b,
    ensures
        row_max(row) <= b,
    decreases row.len(),
{
    if row.len() > 0 {
        lemma_row_max_le(row.drop_last(), b);
    }
}

/// Every cell's completed count is bounded by the grid maximum.
proof fn lemma_grid_max_ge(vals: Seq<Seq<(u32, ComplexNumber)>>, r: int, c: int)
    requires
        0 <= r < vals.len(),
        0 <= c < vals[r].len(),
    ensures
        vals[r][c].0 <= grid_max(vals),
    decreases vals.len(),
{
    if r == vals.len() - 1 {
        lemma_row_max_ge(vals[r], c);
    } else {
        lemma_grid_max_ge(vals.drop_last(), r, c);
    }
}

/// A bound on every completed count of a grid bounds the grid maximum.
proof fn lemma_grid_max_le(vals: Seq<Seq<(u32, ComplexNumber)>>, b: u32)
    requires
        forall|r: int, c: int|
            0 <= r < vals.len() && 0 <= c < vals[r].len() ==> (#[trigger] vals[r][c]).0 <= b,
    ensures
        grid_max(vals) <= b,
    decreases vals.len(),
{
    if vals.len() > 0 {
        lemma_row_max_le(vals.last(), b);
        lemma_grid_max_le(vals.drop_last(), b);
    }
}


/// Extending a row prefix by one cell updates its maximum as expected.
proof fn lemma_row_max_push(row: Seq<(u32, ComplexNumber)>, k: int)
    requires
        0 <= k < row.len(),
    ensures
        row_max(row.take(k + 1)) == if row[k].0 > row_max(row.take(k)) {
            row[k].0
        } else {
            row_max(row.take(k))
        },
{
    assert(row.take(k + 1).drop_last() =~= row.take(k));
    assert(row.take(k + 1).last() == row[k]);
}

/// Extending a grid prefix by one row updates its maximum as expected.
proof fn lemma_grid_max_push(vals: Seq<Seq<(u32, ComplexNumber)>>, k: int)
    requires
        0 <= k < vals.len(),
    ensures
        grid_max(vals.take(k + 1)) == if row_max(vals[k]) > grid_max(vals.take(k)) {
            row_max(vals[k])
        } else {
            grid_max(vals.take(k))
        },
{
    assert(vals.take(k + 1).drop_last() =~= vals.take(k));
    assert(vals.take(k + 1).last() == vals[k]);
}

/// Runs up to `limit` further escape-time steps on a single coordinate,
/// continuing from the stored `(completed, z)` state: while `|z| < 2` and
/// budget remains, `z` becomes `z * z + c`.  Returns the accumulated count
/// and the final iterate.
pub fn iterate_coordinate(
    current_coord: (u32, ComplexNumber),
    c: ComplexNumber,
    limit: u32,
) -> (res: (u32, ComplexNumber))
    requires
        current_coord.0 + limit <= u32::MAX,
    ensures
        res == advance_cell(current_coord, c, limit as nat),
{
    let (finished_iters, z0) = current_coord;
    let mut count: u32 = 0;
    let mut z: ComplexNumber = z0;
    while count < limit
        invariant_except_break
            count <= limit,
            finished_iters + limit <= u32::MAX,
            advance_cell((finished_iters, z0), c, limit as nat) == advance_cell(
                ((finished_iters + count) as u32, z),
                c,
                (limit - count) as nat,
            ),
        ensures
            count <= limit,
            finished_iters + count <= u32::MAX,
            advance_cell((finished_iters, z0), c, limit as nat) == ((finished_iters + count) as u32, z),
        decreases limit - count,
    {
        let ns: Fixed = z.norm_sqr();
        if ns.raw >= 17179869184i64 {
            proof {
                assert(escaped(z));
            }
            break;
        }
        z = z.mul(z).add(c);
        count = count + 1;
    }
    (finished_iters + count, z)
}

/// Reset idempotence: an engine that has been reset shows exactly the value
/// and pixel grids of a freshly constructed engine over a configuration
/// with the same dimensions — both are the all-zero state grid and the
/// all-default pixel grid.  The premises are exactly what
/// [`Mandelbrot::reset`] and [`Mandelbrot::new`] ensure.
pub proof fn lemma_reset_matches_new(a: Mandelbrot, b: Mandelbrot)
    requires
        a.cfg().dimensions == b.cfg().dimensions,
        a.value_grid() == initial_values(
            a.cfg().dimensions.0 as int,
            a.cfg().dimensions.1 as int,
        ),
        a.pixel_grid() == initial_pixels(
            a.cfg().dimensions.0 as int,
            a.cfg().dimensions.1 as int,
        ),
        b.value_grid() == initial_values(
            b.cfg().dimensions.0 as int,
            b.cfg().dimensions.1 as int,
        ),
        b.pixel_grid() == initial_pixels(
            b.cfg().dimensions.0 as int,
            b.cfg().dimensions.1 as int,
        ),
    ensures
        a.value_grid() == b.value_grid(),
        a.pixel_grid() == b.pixel_grid(),
{
}


/// What well-formedness guarantees about the cells, stated over the public
/// views so that callers outside this module can use it: the state grid has
/// the configured dimensions, and every cell's completed count is bounded
/// by the cumulative budget run so far — and sits exactly at that budget
/// unless the cell escaped.  Together with the contract of
/// [`Mandelbrot::run_iterations`] and [`lemma_advance_grid_monotone`], this
/// makes escape monotonicity usable on an opaque engine: across successive
/// calls every cell's count is non-decreasing and bounded by the cumulative
/// iteration budget.
pub proof fn lemma_inv_cell_bounds(m: Mandelbrot)
    requires
        m.inv(),
    ensures
        m.value_grid().len() == m.cfg().dimensions.1 as int,
        forall|r: int|
            0 <= r < m.value_grid().len() ==> (#[trigger] m.value_grid()[r]).len()
                == m.cfg().dimensions.0 as int,
        forall|r: int, c: int|
            0 <= r < m.value_grid().len() && 0 <= c < m.value_grid()[r].len() ==> ((
            #[trigger] m.value_grid()[r][c]).0 <= m.iters() && (escaped(m.value_grid()[r][c].1)
                || m.value_grid()[r][c].0 == m.iters())),
{
    assert forall|r: int|
        0 <= r < m.value_grid().len() implies (#[trigger] m.value_grid()[r]).len()
        == m.cfg().dimensions.0 as int by {
        assert(m.value_grid()[r] == m.values@[r]@);
    }
    assert forall|r: int, c: int|
        0 <= r < m.value_grid().len() && 0 <= c < m.value_grid()[r].len() implies ((
    #[trigger] m.value_grid()[r][c]).0 <= m.iters() && (escaped(m.value_grid()[r][c].1)
        || m.value_grid()[r][c].0 == m.iters())) by {
        assert(m.value_grid()[r] == m.values@[r]@);
        assert(m.value_grid()[r][c] == m.values@[r]@[c]);
    }
}

/// The Mandelbrot engine: a configuration, the per-cell escape states, the
/// materialized pixel grid, the precomputed per-axis step vectors, and the
/// cumulative iteration budget run so far.
pub struct Mandelbrot {
    config: MandelbrotConfig,
    pixels: Vec<Vec<Pixel>>,
    values: Vec<Vec<(u32, ComplexNumber)>>,
    steps: (ComplexNumber, ComplexNumber),
    iterations: u32,
}

impl Mandelbrot {
    /// The configuration the engine was built from.
    pub closed spec fn cfg(self) -> MandelbrotConfig {
        self.config
    }

    /// The cumulative iteration budget run so far.
    pub closed spec fn iters(self) -> u32 {
        self.iterations
    }

    /// The stored per-axis step vectors.
    pub closed spec fn step_vectors(self) -> (ComplexNumber, ComplexNumber) {
        self.steps
    }

    /// The per-cell escape states as a mathematical grid.
    pub closed spec fn value_grid(self) -> Seq<Seq<(u32, ComplexNumber)>> {
        self.values@.map_values(|row: Vec<(u32, ComplexNumber)>| row@)
    }

    /// The pixel grid as a mathematical grid.
    pub closed spec fn pixel_grid(self) -> Seq<Seq<Pixel>> {
        self.pixels@.map_values(|row: Vec<Pixel>| row@)
    }

    /// Well-formedness: the grids match the configured dimensions, the step
    /// vectors match the configuration, the coloring strategy can color
    /// every cell, and every cell's count is bounded by the cumulative
    /// budget and sits at that budget unless the cell escaped.
    pub closed spec fn inv(self) -> bool {
        &&& color_fn_valid(self.config.color_fn)
        &&& self.steps == expected_steps(self.config)
        &&& self.values@.len() == self.config.dimensions.1 as int
        &&& self.pixels@.len() == self.config.dimensions.1 as int
        &&& (forall|r: int|
            0 <= r < self.values@.len() ==> (#[trigger] self.values@[r])@.len()
                == self.config.dimensions.0 as int)
        &&& (forall|r: int|
            0 <= r < self.pixels@.len() ==> (#[trigger] self.pixels@[r])@.len()
                == self.config.dimensions.0 as int)
        &&& (forall|r: int, c: int|
            0 <= r < self.values@.len() && 0 <= c < self.values@[r]@.len() ==> ((
            #[trigger] self.values@[r]@[c]).0 <= self.iterations && (escaped(
                self.values@[r]@[c].1,
            ) || self.values@[r]@[c].0 == self.iterations)))
    }

    /// Builds an engine from a configuration: step vectors are computed
    /// from the viewport and dimensions, the state grid starts all-zero,
    /// the pixel grid all-default, and no iterations have run.
    pub fn new(config: MandelbrotConfig) -> (m: Mandelbrot)
        requires
            color_fn_valid(config.color_fn),
        ensures
            m.inv(),
            m.cfg() == config,
            m.iters() == 0,
            m.step_vectors() == expected_steps(config),
            m.value_grid() == initial_values(
                config.dimensions.0 as int,
                config.dimensions.1 as int,
            ),
            m.pixel_grid() == initial_pixels(
                config.dimensions.0 as int,
                config.dimensions.1 as int,
            ),
    {
        let w: u32 = config.dimensions.0;
        let h: u32 = config.dimensions.1;
        let w_c: ComplexNumber = ComplexNumber::new(config.viewport.width, Fixed::from_int(0));
        let h_c: ComplexNumber = ComplexNumber::new(
            Fixed::from_int(0),
            Fixed::from_int(0).sub(config.viewport.height),
        );
        let steps: (ComplexNumber, ComplexNumber) = (
            w_c.div(Fixed::from_u32(w)),
            h_c.div(Fixed::from_u32(h)),
        );
        let w_us: usize = w as usize;
        let h_us: usize = h as usize;
        let mut pixels: Vec<Vec<Pixel>> = Vec::new();
        let mut values: Vec<Vec<(u32, ComplexNumber)>> = Vec::new();
        let mut r: usize = 0;
        while r < h_us
            invariant
                r <= h_us,
                pixels@.len() == r as int,
                values@.len() == r as int,
                w_us == w as int,
                forall|k: int|
                    0 <= k < r as int ==> (#[trigger] pixels@[k])@ == Seq::new(
                        w as nat,
                        |c: int| default_pixel(),
                    ),
                forall|k: int|
                    0 <= k < r as int ==> (#[trigger] values@[k])@ == Seq::new(
                        w as nat,
                        |c: int| zero_cell(),
                    ),
            decreases h_us - r,
        {
            let mut prow: Vec<Pixel> = Vec::new();
            let mut vrow: Vec<(u32, ComplexNumber)> = Vec::new();
            let mut cc: usize = 0;
            while cc < w_us
                invariant
                    cc <= w_us,
                    w_us == w as int,
                    prow@.len() == cc as int,
                    vrow@.len() == cc as int,
                    forall|j: int| 0 <= j < cc as int ==> #[trigger] prow@[j] == default_pixel(),
                    forall|j: int| 0 <= j < cc as int ==> #[trigger] vrow@[j] == zero_cell(),
                decreases w_us - cc,
            {
                prow.push(Pixel::new(0, 0, 0));
                vrow.push((0, ComplexNumber::new(Fixed::from_int(0), Fixed::from_int(0))));
                cc = cc + 1;
            }
            proof {
                assert(prow@ =~= Seq::new(w as nat, |c: int| default_pixel()));
                assert(vrow@ =~= Seq::new(w as nat, |c: int| zero_cell()));
            }
            pixels.push(prow);
            values.push(vrow);
            r = r + 1;
        }
        let m = Mandelbrot { config, pixels, values, steps, iterations: 0 };
        proof {
            assert(m.value_grid() =~~= initial_values(w as int, h as int));
            assert(m.pixel_grid() =~~= initial_pixels(w as int, h as int));
        }
        m
    }


    /// Runs the given number of further iterations across all cells, then
    /// recolors every pixel: each cell's state advances by at most
    /// `num_iters` steps at its plane coordinate, and the pixel grid becomes
    /// the configured coloring of the new state grid under its own
    /// frame-wide ceiling.
    #[verifier::loop_isolation(false)]
    #[verifier::rlimit(60)]
    pub fn run_iterations(&mut self, num_iters: u32)
        requires
            old(self).inv(),
            old(self).iters() + num_iters <= u32::MAX,
        ensures
            final(self).inv(),
            final(self).cfg() == old(self).cfg(),
            final(self).step_vectors() == old(self).step_vectors(),
            final(self).iters() == old(self).iters() + num_iters,
            final(self).value_grid() == advance_grid(
                old(self).value_grid(),
                old(self).cfg().viewport.top_left,
                old(self).step_vectors(),
                num_iters as nat,
            ),
            final(self).pixel_grid() == colored_grid(
                old(self).cfg().color_fn,
                final(self).value_grid(),
            ),
    {
        let w: u32 = self.config.dimensions.0;
        let h: u32 = self.config.dimensions.1;
        let d_w: ComplexNumber = self.steps.0;
        let d_h: ComplexNumber = self.steps.1;
        let coordinate: ComplexNumber = self.config.viewport.top_left;
        let w_us: usize = w as usize;
        let h_us: usize = h as usize;
        self.iterations = self.iterations + num_iters;
        let ghost vals0: Seq<Seq<(u32, ComplexNumber)>> = old(self).value_grid();
        let ghost target: Seq<Seq<(u32, ComplexNumber)>> = advance_grid(
            vals0,
            coordinate,
            (d_w, d_h),
            num_iters as nat,
        );
        let mut max_iterations: u32 = 0;
        let mut r: usize = 0;
        while r < h_us
            invariant
                r <= h_us,
                self.config == old(self).config,
                self.steps == old(self).steps,
                self.pixels == old(self).pixels,
                self.iterations == old(self).iterations + num_iters,
                self.values@.len() == h as int,
                forall|k: int|
                    0 <= k < h as int ==> (#[trigger] self.values@[k])@.len() == w as int,
                forall|rr: int| 0 <= rr < r as int ==> (#[trigger] self.values@[rr])@ == target[rr],
                forall|rr: int|
                    (r as int) <= rr < (h as int) ==> (#[trigger] self.values@[rr])@ == vals0[rr],
                max_iterations == grid_max(self.value_grid().take(r as int)),
            decreases h_us - r,
        {
            let mut cc: usize = 0;
            while cc < w_us
                invariant
                    cc <= w_us,
                    r < h_us,
                    self.config == old(self).config,
                    self.steps == old(self).steps,
                    self.pixels == old(self).pixels,
                    self.iterations == old(self).iterations + num_iters,
                    self.values@.len() == h as int,
                    forall|k: int|
                        0 <= k < h as int ==> (#[trigger] self.values@[k])@.len() == w as int,
                    forall|rr: int|
                        0 <= rr < r as int ==> (#[trigger] self.values@[rr])@ == target[rr],
                    forall|rr: int|
                        (r as int) < rr < (h as int) ==> (#[trigger] self.values@[rr])@ == vals0[rr],
                    forall|j: int|
                        0 <= j < cc as int ==> (#[trigger] self.values@[r as int]@[j]) == target[r as int][j],
                    forall|j: int|
                        (cc as int) <= j < (w as int) ==> (#[trigger] self.values@[r as int]@[j]) == vals0[r as int][j],
                    max_iterations == ({
                        let gm = grid_max(self.value_grid().take(r as int));
                        let rm = row_max(self.values@[r as int]@.take(cc as int));
                        if rm > gm {
                            rm
                        } else {
                            gm
                        }
                    }),
                decreases w_us - cc,
            {
                let cell: (u32, ComplexNumber) = self.values[r][cc];
                proof {
                    assert(cell == vals0[r as int][cc as int]);
                }
                let coord: ComplexNumber = coordinate.add(
                    d_w.mul_scalar(Fixed::from_u32(cc as u32)),
                ).add(d_h.mul_scalar(Fixed::from_u32(r as u32)));
                let newcell: (u32, ComplexNumber) = iterate_coordinate(cell, coord, num_iters);
                let ghost grid_before = self.value_grid();
                let ghost row_before = self.values@[r as int]@;
                self.values[r][cc] = newcell;
                if newcell.0 > max_iterations {
                    max_iterations = newcell.0;
                }
                proof {
                    assert(coord == cell_coord(coordinate, (d_w, d_h), r as int, cc as int));
                    assert(self.values@[r as int]@ =~= row_before.update(cc as int, newcell));
                    assert(newcell == target[r as int][cc as int]);
                    assert(self.value_grid().take(r as int) =~~= grid_before.take(r as int));
                    assert(self.values@[r as int]@.take(cc as int) =~= row_before.take(cc as int));
                    lemma_row_max_push(self.values@[r as int]@, cc as int);
                }
                cc = cc + 1;
            }
            proof {
                assert(self.values@[r as int]@.take(w as int) =~= self.values@[r as int]@);
                assert(self.values@[r as int]@ =~= target[r as int]);
                lemma_grid_max_push(self.value_grid(), r as int);
                assert(self.value_grid().take(r as int + 1).drop_last() =~= self.value_grid().take(
                    r as int,
                ));
            }
            r = r + 1;
        }
        proof {
            assert(self.value_grid().take(h as int) =~= self.value_grid());
            assert(self.value_grid() =~~= target);
            assert forall|rr: int, cc2: int|
                0 <= rr < h as int && 0 <= cc2 < w as int implies {
                &&& (#[trigger] self.value_grid()[rr][cc2]).0 <= self.iterations
                &&& (escaped(self.value_grid()[rr][cc2].1) || self.value_grid()[rr][cc2].0
                    == self.iterations)
            } by {
                let st = vals0[rr][cc2];
                let co = cell_coord(coordinate, (d_w, d_h), rr, cc2);
                lemma_advance_cell_progress(st, co, num_iters as nat);
                if escaped(st.1) {
                } else {
                    assert(st.0 == old(self).iterations);
                }
            }
            lemma_grid_max_le(self.value_grid(), self.iterations);
            assert forall|rr: int, cc2: int|
                0 <= rr < h as int && 0 <= cc2 < w as int implies (escaped(
                (#[trigger] self.value_grid()[rr][cc2]).1,
            ) || self.value_grid()[rr][cc2].0 == max_iterations) by {
                if !escaped(self.value_grid()[rr][cc2].1) {
                    lemma_grid_max_ge(self.value_grid(), rr, cc2);
                }
            }
        }
        let cf: ColorFn = self.config.color_fn;
        let ghost vals1: Seq<Seq<(u32, ComplexNumber)>> = self.value_grid();
        let ghost pix_target: Seq<Seq<Pixel>> = colored_grid(cf, vals1);
        let mut r2: usize = 0;
        while r2 < h_us
            invariant
                r2 <= h_us,
                self.config == old(self).config,
                self.steps == old(self).steps,
                self.iterations == old(self).iterations + num_iters,
                self.value_grid() == vals1,
                self.values@.len() == h as int,
                forall|k: int|
                    0 <= k < h as int ==> (#[trigger] self.values@[k])@.len() == w as int,
                self.pixels@.len() == h as int,
                forall|k: int|
                    0 <= k < h as int ==> (#[trigger] self.pixels@[k])@.len() == w as int,
                forall|rr: int|
                    0 <= rr < r2 as int ==> (#[trigger] self.pixels@[rr])@ == pix_target[rr],
                max_iterations == grid_max(vals1),
                forall|rr: int, cc2: int|
                    0 <= rr < h as int && 0 <= cc2 < w as int ==> (escaped(
                        (#[trigger] vals1[rr][cc2]).1,
                    ) || vals1[rr][cc2].0 == max_iterations),
            decreases h_us - r2,
        {
            let mut cc: usize = 0;
            while cc < w_us
                invariant
                    cc <= w_us,
                    r2 < h_us,
                    self.config == old(self).config,
                    self.steps == old(self).steps,
                    self.iterations == old(self).iterations + num_iters,
                    self.value_grid() == vals1,
                    self.values@.len() == h as int,
                    forall|k: int|
                        0 <= k < h as int ==> (#[trigger] self.values@[k])@.len() == w as int,
                    self.pixels@.len() == h as int,
                    forall|k: int|
                        0 <= k < h as int ==> (#[trigger] self.pixels@[k])@.len() == w as int,
                    forall|rr: int|
                        0 <= rr < r2 as int ==> (#[trigger] self.pixels@[rr])@ == pix_target[rr],
                    forall|j: int|
                        0 <= j < cc as int ==> (#[trigger] self.pixels@[r2 as int]@[j])
                            == pix_target[r2 as int][j],
                    max_iterations == grid_max(vals1),
                    forall|rr: int, cc2: int|
                        0 <= rr < h as int && 0 <= cc2 < w as int ==> (escaped(
                            (#[trigger] vals1[rr][cc2]).1,
                        ) || vals1[rr][cc2].0 == max_iterations),
                decreases w_us - cc,
            {
                let cell: (u32, ComplexNumber) = self.values[r2][cc];
                proof {
                    assert(cell == vals1[r2 as int][cc as int]);
                }
                let px: Pixel = apply_color(&cf, cell.0, cell.1, max_iterations);
                let ghost prow_before = self.pixels@[r2 as int]@;
                self.pixels[r2][cc] = px;
                proof {
                    assert(self.pixels@[r2 as int]@ =~= prow_before.update(cc as int, px));
                    assert(self.value_grid() =~~= vals1);
                }
                cc = cc + 1;
            }
            proof {
                assert(self.pixels@[r2 as int]@ =~= pix_target[r2 as int]);
            }
            r2 = r2 + 1;
        }
        proof {
            assert(self.pixel_grid() =~~= pix_target);
            assert forall|rr: int, cc2: int|
                0 <= rr < self.values@.len() && 0 <= cc2 < self.values@[rr]@.len() implies ((
            #[trigger] self.values@[rr]@[cc2]).0 <= self.iterations && (escaped(
                self.values@[rr]@[cc2].1,
            ) || self.values@[rr]@[cc2].0 == self.iterations)) by {
                assert(self.values@[rr]@[cc2] == vals1[rr][cc2]);
                assert(vals1[rr][cc2] == advance_cell(
                    vals0[rr][cc2],
                    cell_coord(coordinate, (d_w, d_h), rr, cc2),
                    num_iters as nat,
                ));
                let st = vals0[rr][cc2];
                let co = cell_coord(coordinate, (d_w, d_h), rr, cc2);
                lemma_advance_cell_progress(st, co, num_iters as nat);
                if !escaped(st.1) {
                    assert(st.0 == old(self).iterations);
                }
            }
        }
    }

    /// Returns every cell to the freshly constructed state: all-zero escape
    /// states, all-default pixels, and a zero iteration counter.  The grids
    /// keep their allocation and the step vectors are untouched.
    #[verifier::loop_isolation(false)]
    pub fn reset(&mut self)
        requires
            old(self).inv(),
        ensures
            final(self).inv(),
            final(self).cfg() == old(self).cfg(),
            final(self).step_vectors() == old(self).step_vectors(),
            final(self).iters() == 0,
            final(self).value_grid() == initial_values(
                old(self).cfg().dimensions.0 as int,
                old(self).cfg().dimensions.1 as int,
            ),
            final(self).pixel_grid() == initial_pixels(
                old(self).cfg().dimensions.0 as int,
                old(self).cfg().dimensions.1 as int,
            ),
    {
        let w: u32 = self.config.dimensions.0;
        let h: u32 = self.config.dimensions.1;
        let w_us: usize = w as usize;
        let h_us: usize = h as usize;
        let mut r: usize = 0;
        while r < h_us
            invariant
                r <= h_us,
                self.config == old(self).config,
                self.steps == old(self).steps,
                self.values@.len() == h as int,
                self.pixels@.len() == h as int,
                forall|k: int|
                    0 <= k < h as int ==> (#[trigger] self.values@[k])@.len() == w as int,
                forall|k: int|
                    0 <= k < h as int ==> (#[trigger] self.pixels@[k])@.len() == w as int,
                forall|rr: int|
                    0 <= rr < r as int ==> (#[trigger] self.values@[rr])@ == Seq::new(
                        w as nat,
                        |c: int| zero_cell(),
                    ),
                forall|rr: int|
                    0 <= rr < r as int ==> (#[trigger] self.pixels@[rr])@ == Seq::new(
                        w as nat,
                        |c: int| default_pixel(),
                    ),
            decreases h_us - r,
        {
            let mut cc: usize = 0;
            while cc < w_us
                invariant
                    cc <= w_us,
                    r < h_us,
                    self.config == old(self).config,
                    self.steps == old(self).steps,
                    self.values@.len() == h as int,
                    self.pixels@.len() == h as int,
                    forall|k: int|
                        0 <= k < h as int ==> (#[trigger] self.values@[k])@.len() == w as int,
                    forall|k: int|
                        0 <= k < h as int ==> (#[trigger] self.pixels@[k])@.len() == w as int,
                    forall|rr: int|
                        0 <= rr < r as int ==> (#[trigger] self.values@[rr])@ == Seq::new(
                            w as nat,
                            |c: int| zero_cell(),
                        ),
                    forall|rr: int|
                        0 <= rr < r as int ==> (#[trigger] self.pixels@[rr])@ == Seq::new(
                            w as nat,
                            |c: int| default_pixel(),
                        ),
                    forall|j: int|
                        0 <= j < cc as int ==> (#[trigger] self.values@[r as int]@[j])
                            == zero_cell(),
                    forall|j: int|
                        0 <= j < cc as int ==> (#[trigger] self.pixels@[r as int]@[j])
                            == default_pixel(),
                decreases w_us - cc,
            {
                let ghost vrow_before = self.values@[r as int]@;
                let ghost prow_before = self.pixels@[r as int]@;
                self.pixels[r][cc] = Pixel::new(0, 0, 0);
                self.values[r][cc] = (0, ComplexNumber::new(Fixed::from_int(0), Fixed::from_int(0)));
                proof {
                    assert(self.pixels@[r as int]@ =~= prow_before.update(
                        cc as int,
                        default_pixel(),
                    ));
                    assert(self.values@[r as int]@ =~= vrow_before.update(cc as int, zero_cell()));
                }
                cc = cc + 1;
            }
            proof {
                assert(self.values@[r as int]@ =~= Seq::new(w as nat, |c: int| zero_cell()));
                assert(self.pixels@[r as int]@ =~= Seq::new(w as nat, |c: int| default_pixel()));
            }
            r = r + 1;
        }
        self.iterations = 0;
        proof {
            assert(self.value_grid() =~~= initial_values(w as int, h as int));
            assert(self.pixel_grid() =~~= initial_pixels(w as int, h as int));
        }
    }
    /// A reference to the current state of the pixel grid.
    pub fn get_pixels(&self) -> (px: &Vec<Vec<Pixel>>)
        ensures
            px@.map_values(|row: Vec<Pixel>| row@) == self.pixel_grid(),
    {
        &self.pixels
    }
}

} // verus!
