use vstd::prelude::*;

use crate::problem::{ConvolutionProblem, MatrixLayout};

verus! {

/// Number of parallel lanes in one cube, per axis.
#[derive(Clone, Copy, Debug)]
pub struct CubeDim {
    pub x: u32,
    pub y: u32,
    pub z: u32,
}

/// Number of cubes in the launch grid, per axis.
#[derive(Clone, Copy, Debug)]
pub struct CubeCount {
    pub x: u32,
    pub y: u32,
    pub z: u32,
}

/// Policy choices that override what the problem asks for.
#[derive(Clone, Copy, Debug)]
pub struct AdvancedConfig {
    pub enforced_lhs_layout: Option<MatrixLayout>,
    pub enforced_rhs_layout: Option<MatrixLayout>,
}

/// Tile geometry and vector widths of one kernel launch, derived from a problem.
#[derive(Clone, Copy, Debug)]
pub struct Config {
    pub problem: ConvolutionProblem,
    /// Rows of the output handled by one cube.
    pub tile_m: usize,
    /// Output channels handled by one cube.
    pub tile_n: usize,
    /// Reduction step.
    pub tile_k: usize,
    /// Cubes needed along the rows.
    pub cubes_m: usize,
    /// Cubes needed along the output channels.
    pub cubes_n: usize,
    pub plane_dim: u32,
    pub lhs_layout: MatrixLayout,
    pub rhs_layout: MatrixLayout,
    pub lhs_line_size: u8,
    pub rhs_line_size: u8,
    pub out_line_size: u8,
}

/// What a device offers that a kernel variant may need.
#[derive(Clone, Copy, Debug)]
pub struct DeviceProperties {
    /// Lanes per plane, when the device reports it.
    pub plane_dim: Option<u32>,
    /// Whether the element types of the kernel are supported.
    pub types_supported: bool,
    /// Whether cooperative matrix instructions are available.
    pub cmma_supported: bool,
}

/// Why a device cannot run the kernel.
#[derive(Clone, Copy, Debug, PartialEq, Eq, Structural)]
pub enum MatmulAvailabilityError {
    PlaneDimUnknown,
    PlaneDimUnsupported { plane_dim: u32 },
    TypesUnavailable,
    CmmaInstructionUnavailable,
}

/// The only plane width the kernel is written for.
pub const REQUIRED_PLANE_DIM: u32 = 32;

pub open spec fn is_pow2_u8(l: u8) -> bool {
    l == 1 || l == 2 || l == 4 || l == 8 || l == 16 || l == 32 || l == 64 || l == 128
}

/// A line size is usable on an extent when it is a power of two that divides it.
pub open spec fn valid_line(l: u8, extent: nat) -> bool {
    is_pow2_u8(l) && extent % (l as nat) == 0
}

pub open spec fn ceil_div_spec(a: nat, d: nat) -> nat
    recommends
        d > 0,
{
    if a % d == 0 {
        a / d
    } else {
        a / d + 1
    }
}

pub open spec fn max1(a: nat) -> nat {
    if a == 0 {
        1
    } else {
        a
    }
}

/// Contiguous extent of the left operand, an `m x k` matrix.
pub open spec fn lhs_extent(p: ConvolutionProblem, layout: MatrixLayout) -> nat {
    match layout {
        MatrixLayout::RowMajor => p.k as nat,
        MatrixLayout::ColMajor => p.m as nat,
    }
}

/// Contiguous extent of the right operand, a `k x n` matrix.
pub open spec fn rhs_extent(p: ConvolutionProblem, layout: MatrixLayout) -> nat {
    match layout {
        MatrixLayout::RowMajor => p.n as nat,
        MatrixLayout::ColMajor => p.k as nat,
    }
}

pub open spec fn pick_line(l: u8, extent: nat) -> u8 {
    if valid_line(l, extent) {
        l
    } else {
        1
    }
}

pub open spec fn pick_layout(enforced: Option<MatrixLayout>, asked: MatrixLayout) -> MatrixLayout {
    match enforced {
        Some(l) => l,
        None => asked,
    }
}

/// The configuration that `make_config` derives.
pub open spec fn derived_config(
    p: ConvolutionProblem,
    cube_dim: CubeDim,
    cube_count: CubeCount,
    advanced: AdvancedConfig,
) -> Config {
    let lhs_layout = pick_layout(advanced.enforced_lhs_layout, p.lhs_layout);
    let rhs_layout = pick_layout(advanced.enforced_rhs_layout, p.rhs_layout);
    let lhs_line = pick_line(p.lhs_line_size, lhs_extent(p, lhs_layout));
    let tile_m = max1(ceil_div_spec(p.m as nat, max1(cube_count.x as nat)));
    let tile_n = max1(ceil_div_spec(p.n as nat, max1(cube_count.y as nat)));
    Config {
        problem: p,
        tile_m: tile_m as usize,
        tile_n: tile_n as usize,
        tile_k: if p.k as nat % (lhs_line as nat) == 0 { lhs_line as usize } else { 1 },
        cubes_m: ceil_div_spec(p.m as nat, tile_m) as usize,
        cubes_n: ceil_div_spec(p.n as nat, tile_n) as usize,
        plane_dim: cube_dim.x,
        lhs_layout,
        rhs_layout,
        lhs_line_size: lhs_line,
        rhs_line_size: pick_line(p.rhs_line_size, rhs_extent(p, rhs_layout)),
        out_line_size: pick_line(p.out_line_size, p.n as nat),
    }
}

/// Internal consistency of a configuration: the tiles are non-empty and no larger than the
/// problem, the reduction step partitions `k`, the grid has just enough cubes to cover the
/// output, and each line
/// size is a power of two dividing its operand's contiguous extent.
pub open spec fn config_valid(c: Config) -> bool {
    let p = c.problem;
    &&& c.tile_m > 0 && c.tile_m <= max1(p.m as nat)
    &&& c.tile_n > 0 && c.tile_n <= max1(p.n as nat)
    &&& c.tile_k > 0 && p.k % c.tile_k == 0
    &&& c.cubes_m == ceil_div_spec(p.m as nat, c.tile_m as nat)
    &&& c.cubes_n == ceil_div_spec(p.n as nat, c.tile_n as nat)
    &&& valid_line(c.lhs_line_size, lhs_extent(p, c.lhs_layout))
    &&& valid_line(c.rhs_line_size, rhs_extent(p, c.rhs_layout))
    &&& valid_line(c.out_line_size, p.n as nat)
}

fn is_pow2(l: u8) -> (r: bool)
    ensures
        r == is_pow2_u8(l),
{
    l == 1 || l == 2 || l == 4 || l == 8 || l == 16 || l == 32 || l == 64 || l == 128
}

fn line_fits(l: u8, extent: usize) -> (r: bool)
    ensures
        r == valid_line(l, extent as nat),
{
    is_pow2(l) && extent % (l as usize) == 0
}

/// What a rounded-up quotient guarantees: it covers `a`, with less than one `d` to spare,
/// and exceeds `a` only where `a` is zero.
pub proof fn lemma_ceil_div(a: nat, d: nat)
    requires
        d > 0,
    ensures
        ceil_div_spec(a, d) * d >= a,
        ceil_div_spec(a, d) > 0 ==> (ceil_div_spec(a, d) - 1) * d < a,
        a > 0 ==> ceil_div_spec(a, d) > 0,
        ceil_div_spec(a, d) <= a,
{
    let q = a / d;
    vstd::arithmetic::div_mod::lemma_fundamental_div_mod(a as int, d as int);
    vstd::arithmetic::div_mod::lemma_mod_pos_bound(a as int, d as int);
    assert(q * d <= a) by (nonlinear_arith)
        requires
            a == d * q + a % d,
            a % d >= 0,
    ;
    assert(q <= a) by (nonlinear_arith)
        requires
            q * d <= a,
            d >= 1,
            q >= 0,
    ;
    if a % d == 0 {
        assert((q - 1) * d == q * d - d) by (nonlinear_arith);
        if a > 0 {
            assert(q > 0) by (nonlinear_arith)
                requires
                    a == d * q,
                    a > 0,
                    d > 0,
            ;
        }
    } else {
        assert(d >= 2);
        assert(q < a) by (nonlinear_arith)
            requires
                q * d <= a,
                d >= 2,
                a > 0,
        ;
        assert((q + 1) * d == q * d + d) by (nonlinear_arith);
    }
}

fn ceil_div(a: usize, d: usize) -> (r: usize)
    requires
        d > 0,
    ensures
        r == ceil_div_spec(a as nat, d as nat),
{
    proof {
        lemma_ceil_div(a as nat, d as nat);
    }
    if a % d == 0 {
        a / d
    } else {
        a / d + 1
    }
}

fn layout_or(enforced: Option<MatrixLayout>, asked: MatrixLayout) -> (r: MatrixLayout)
    ensures
        r == pick_layout(enforced, asked),
{
    match enforced {
        Some(l) => l,
        None => asked,
    }
}

fn extent_of(rows: usize, cols: usize, layout: MatrixLayout) -> (r: usize)
    ensures
        r == (match layout {
            MatrixLayout::RowMajor => cols,
            MatrixLayout::ColMajor => rows,
        }),
{
    match layout {
        MatrixLayout::RowMajor => cols,
        MatrixLayout::ColMajor => rows,
    }
}

fn line_or_scalar(l: u8, extent: usize) -> (r: u8)
    ensures
        r == pick_line(l, extent as nat),
{
    if line_fits(l, extent) {
        l
    } else {
        1
    }
}

/// Derives the launch configuration of `problem` on the given grid: one tile per cube
/// along the output rows (`cube_count.x`) and channels (`cube_count.y`), a reduction step
/// equal to the left operand's line size when it divides `k`, and each line size kept
/// when it is usable on its operand, else narrowed to a single element.
pub fn make_config(
    problem: &ConvolutionProblem,
    cube_dim: &CubeDim,
    cube_count: &CubeCount,
    advanced_config: &AdvancedConfig,
) -> (r: Config)
    ensures
        r == derived_config(*problem, *cube_dim, *cube_count, *advanced_config),
        config_valid(r),
{
    let p = *problem;
    let lhs_layout = layout_or(advanced_config.enforced_lhs_layout, p.lhs_layout);
    let rhs_layout = layout_or(advanced_config.enforced_rhs_layout, p.rhs_layout);
    let lhs_line = line_or_scalar(p.lhs_line_size, extent_of(p.m, p.k, lhs_layout));
    let rhs_line = line_or_scalar(p.rhs_line_size, extent_of(p.k, p.n, rhs_layout));
    let out_line = line_or_scalar(p.out_line_size, p.n);
    let count_x: usize = if cube_count.x == 0 { 1 } else { cube_count.x as usize };
    let count_y: usize = if cube_count.y == 0 { 1 } else { cube_count.y as usize };
    let tm = ceil_div(p.m, count_x);
    let tile_m: usize = if tm == 0 { 1 } else { tm };
    let tn = ceil_div(p.n, count_y);
    let tile_n: usize = if tn == 0 { 1 } else { tn };
    let tile_k: usize = if p.k % (lhs_line as usize) == 0 { lhs_line as usize } else { 1 };
    let cubes_m = ceil_div(p.m, tile_m);
    let cubes_n = ceil_div(p.n, tile_n);
    proof {
        lemma_ceil_div(p.m as nat, count_x as nat);
        lemma_ceil_div(p.n as nat, count_y as nat);
    }
    Config {
        problem: p,
        tile_m,
        tile_n,
        tile_k,
        cubes_m,
        cubes_n,
        plane_dim: cube_dim.x,
        lhs_layout,
        rhs_layout,
        lhs_line_size: lhs_line,
        rhs_line_size: rhs_line,
        out_line_size: out_line,
    }
}

/// A derived configuration is always accepted: whatever the problem, grid and policy,
/// `make_config` yields a configuration that `check_config` passes.
pub proof fn lemma_derived_config_valid(
    p: ConvolutionProblem,
    cube_dim: CubeDim,
    cube_count: CubeCount,
    advanced: AdvancedConfig,
)
    ensures
        config_valid(derived_config(p, cube_dim, cube_count, advanced)),
{
    let c = derived_config(p, cube_dim, cube_count, advanced);
    lemma_ceil_div(p.m as nat, max1(cube_count.x as nat));
    lemma_ceil_div(p.n as nat, max1(cube_count.y as nat));
    lemma_ceil_div(p.m as nat, c.tile_m as nat);
    lemma_ceil_div(p.n as nat, c.tile_n as nat);
}

/// Tells whether `config` is internally consistent (see `config_valid`).
pub fn check_config(config: &Config) -> (r: bool)
    ensures
        r == config_valid(*config),
{
    let p = config.problem;
    let max_m: usize = if p.m == 0 { 1 } else { p.m };
    let max_n: usize = if p.n == 0 { 1 } else { p.n };
    config.tile_m > 0 && config.tile_m <= max_m
        && config.tile_n > 0 && config.tile_n <= max_n
        && config.tile_k > 0 && p.k % config.tile_k == 0
        && config.cubes_m == ceil_div(p.m, config.tile_m)
        && config.cubes_n == ceil_div(p.n, config.tile_n)
        && line_fits(config.lhs_line_size, extent_of(p.m, p.k, config.lhs_layout))
        && line_fits(config.rhs_line_size, extent_of(p.k, p.n, config.rhs_layout))
        && line_fits(config.out_line_size, p.n)
}

/// Checks that a device offers what the kernel needs: a known plane width of
/// `REQUIRED_PLANE_DIM` lanes, the element types, and cooperative matrix instructions,
/// reporting the first missing one in that order.
pub fn check_availability(device: &DeviceProperties) -> (r: Result<(), MatmulAvailabilityError>)
    ensures
        device.plane_dim is None ==> r == Err::<(), _>(MatmulAvailabilityError::PlaneDimUnknown),
        device.plane_dim is Some && device.plane_dim->0 != REQUIRED_PLANE_DIM ==> r == Err::<(), _>(
            MatmulAvailabilityError::PlaneDimUnsupported { plane_dim: device.plane_dim->0 },
        ),
        device.plane_dim == Some(REQUIRED_PLANE_DIM) && !device.types_supported ==> r == Err::<(), _>(
            MatmulAvailabilityError::TypesUnavailable,
        ),
        device.plane_dim == Some(REQUIRED_PLANE_DIM) && device.types_supported
            && !device.cmma_supported ==> r == Err::<(), _>(
            MatmulAvailabilityError::CmmaInstructionUnavailable,
        ),
        r is Ok <==> (device.plane_dim == Some(REQUIRED_PLANE_DIM) && device.types_supported
            && device.cmma_supported),
{
    match device.plane_dim {
        None => Err(MatmulAvailabilityError::PlaneDimUnknown),
        Some(plane_dim) => {
            if plane_dim != REQUIRED_PLANE_DIM {
                Err(MatmulAvailabilityError::PlaneDimUnsupported { plane_dim })
            } else if !device.types_supported {
                Err(MatmulAvailabilityError::TypesUnavailable)
            } else if !device.cmma_supported {
                Err(MatmulAvailabilityError::CmmaInstructionUnavailable)
            } else {
                Ok(())
            }
        },
    }
}

} // verus!
