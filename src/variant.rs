use vstd::prelude::*;

use crate::config::{
    config_valid, derived_config, AdvancedConfig, Config, CubeCount, CubeDim, DeviceProperties,
    MatmulAvailabilityError, REQUIRED_PLANE_DIM,
};
use crate::kernel::{bias_term, bounded, conv_value, dot, problem_matches, tensors_match, InputShape, MAX_REDUCTION};
use crate::problem::ConvolutionProblem;
use crate::tile::{in_tile, BiasLoader};

verus! {

/// Configuration protocol of a convolution kernel variant.
pub trait ConvolutionKernel {
    /// Tells whether the configuration leads to a valid computation.
    fn check_config(config: &Config) -> (r: bool)
        ensures
            r == config_valid(*config),
    ;

    /// Checks that the device offers what the variant uses.
    fn check_availability(device: &DeviceProperties) -> (r: Result<(), MatmulAvailabilityError>)
        ensures
            r is Ok <==> (device.plane_dim == Some(REQUIRED_PLANE_DIM) && device.types_supported
                && device.cmma_supported),
    ;

    /// Derives the configuration of a problem on a grid.
    fn make_config(
        problem: &ConvolutionProblem,
        cube_dim: &CubeDim,
        cube_count: &CubeCount,
        advanced_config: &AdvancedConfig,
    ) -> (r: Config)
        ensures
            r == derived_config(*problem, *cube_dim, *cube_count, *advanced_config),
            config_valid(r),
    ;
}

/// The work of one cube: seeding, reduction and commit of one output tile.
pub trait Convolution: ConvolutionKernel {
    /// Seeds, reduces over `k_range` and commits the tile at `(x_offset, y_offset)`.
    fn execute(
        config: &Config,
        s: &InputShape,
        input: &Vec<i64>,
        weight: &Vec<i64>,
        acc_loader: &BiasLoader,
        x_offset: usize,
        y_offset: usize,
        acc: &mut Vec<i64>,
        out: &mut Vec<i64>,
        k_range: (usize, usize),
    )
        requires
            config_valid(*config),
            problem_matches(config.problem, *s),
            input@.len() == s.batch * s.height * s.width * s.channels,
            weight@.len() == config.problem.n * config.problem.k,
            old(out)@.len() == config.problem.m * config.problem.n,
            bounded(input@),
            bounded(weight@),
            bounded(acc_loader.values@),
            config.problem.k <= MAX_REDUCTION,
            acc_loader.values@.len() == config.tile_n,
            old(acc)@.len() == config.tile_m * config.tile_n,
            k_range.0 <= k_range.1 <= config.problem.k,
            (k_range.1 - k_range.0) % (config.tile_k as int) == 0,
        ensures
            final(out)@.len() == old(out)@.len(),
            forall|r: int, o: int|
                0 <= r < config.problem.m && 0 <= o < config.problem.n ==> #[trigger] final(out)@[r
                    * config.problem.n + o] == if in_tile(
                    x_offset as int,
                    y_offset as int,
                    config.tile_m as int,
                    config.tile_n as int,
                    r,
                    o,
                ) {
                    acc_loader.values@[o - y_offset] + dot(
                        config.problem,
                        *s,
                        input@,
                        weight@,
                        r,
                        o,
                        k_range.0 as int,
                        k_range.1 as int,
                    )
                } else {
                    old(out)@[r * config.problem.n + o] as int
                },
    ;

    /// The seeds of the tile whose first output channel is `n_offset`.
    fn init_bias_loader(config: &Config, bias: &Vec<i64>, n_offset: usize) -> (l: BiasLoader)
        requires
            config.problem.has_bias ==> bias@.len() == config.problem.n,
        ensures
            l.values@.len() == config.tile_n,
            forall|j: int|
                0 <= j < config.tile_n ==> l.values@[j] == bias_term(config.problem, bias@, n_offset + j),
    ;

    /// A zero accumulator of one tile.
    fn init_accumulator(config: &Config) -> (acc: Vec<i64>)
        requires
            config.tile_m * config.tile_n <= usize::MAX,
        ensures
            acc@.len() == config.tile_m * config.tile_n,
            forall|e: int| 0 <= e < acc@.len() ==> acc@[e] == 0,
    ;
}

/// Launch of a convolution variant over its whole grid.
pub trait ConvolutionLaunch: ConvolutionKernel {
    /// Runs every cube of the configuration's grid; each output entry ends as the
    /// convolution's value at its position.
    fn launch_unchecked(
        config: &Config,
        s: &InputShape,
        input: &Vec<i64>,
        weight: &Vec<i64>,
        bias: &Vec<i64>,
        out: &mut Vec<i64>,
    )
        requires
            config_valid(*config),
            tensors_match(config.problem, *s, input@, weight@, bias@, old(out)@.len()),
            bounded(input@),
            bounded(weight@),
            bounded(bias@),
            config.problem.k <= MAX_REDUCTION,
        ensures
            final(out)@.len() == old(out)@.len(),
            forall|r: int, o: int|
                0 <= r < config.problem.m && 0 <= o < config.problem.n ==> #[trigger] final(out)@[r
                    * config.problem.n + o] == conv_value(config.problem, *s, input@, weight@, bias@, r, o),
    ;
}

/// Convolution as an implicit matrix multiplication, one output tile per cube.
pub struct ImplicitGemmConvolution;

impl ConvolutionKernel for ImplicitGemmConvolution {
    fn check_config(config: &Config) -> (r: bool) {
        crate::config::check_config(config)
    }

    fn check_availability(device: &DeviceProperties) -> (r: Result<(), MatmulAvailabilityError>) {
        crate::config::check_availability(device)
    }

    fn make_config(
        problem: &ConvolutionProblem,
        cube_dim: &CubeDim,
        cube_count: &CubeCount,
        advanced_config: &AdvancedConfig,
    ) -> (r: Config) {
        crate::config::make_config(problem, cube_dim, cube_count, advanced_config)
    }
}

impl Convolution for ImplicitGemmConvolution {
    fn execute(
        config: &Config,
        s: &InputShape,
        input: &Vec<i64>,
        weight: &Vec<i64>,
        acc_loader: &BiasLoader,
        x_offset: usize,
        y_offset: usize,
        acc: &mut Vec<i64>,
        out: &mut Vec<i64>,
        k_range: (usize, usize),
    ) {
        crate::convolution::execute(config, s, input, weight, acc_loader, x_offset, y_offset, acc, out, k_range)
    }

    fn init_bias_loader(config: &Config, bias: &Vec<i64>, n_offset: usize) -> (l: BiasLoader) {
        crate::tile::init_bias_loader(&config.problem, bias, n_offset, config.tile_n)
    }

    fn init_accumulator(config: &Config) -> (acc: Vec<i64>) {
        crate::tile::init_accumulator(config.tile_m, config.tile_n)
    }
}

impl ConvolutionLaunch for ImplicitGemmConvolution {
    fn launch_unchecked(
        config: &Config,
        s: &InputShape,
        input: &Vec<i64>,
        weight: &Vec<i64>,
        bias: &Vec<i64>,
        out: &mut Vec<i64>,
    ) {
        crate::convolution::launch(config, s, input, weight, bias, out)
    }
}

} // verus!
