use burn_conv::config::{
    check_availability, check_config, make_config, AdvancedConfig, CubeCount, CubeDim,
    DeviceProperties, MatmulAvailabilityError,
};
use burn_conv::convolution::{execute, launch};
use burn_conv::kernel::{lhs_at, rhs_at, InputShape};
use burn_conv::variant::{Convolution, ConvolutionKernel, ConvolutionLaunch, ImplicitGemmConvolution};
use burn_conv::problem::{ConvOptions, ConvolutionProblem, MatrixLayout};
use burn_conv::tile::{
    accumulate, fill_accumulator, init_accumulator, init_bias_loader, unload,
};

fn options(stride: usize, padding: usize, dilation: usize) -> ConvOptions {
    ConvOptions {
        stride: [stride, stride],
        padding: [padding, padding],
        dilation: [dilation, dilation],
        groups: 1,
    }
}

fn out_extent(size: usize, kernel: usize, stride: usize, padding: usize, dilation: usize) -> usize {
    (size + 2 * padding - dilation * (kernel - 1) - 1) / stride + 1
}

fn problem(shape: &InputShape, out_channels: usize, kernel: (u32, u32), opts: ConvOptions, has_bias: bool) -> ConvolutionProblem {
    let out_y = out_extent(shape.height, kernel.0 as usize, opts.stride[0], opts.padding[0], opts.dilation[0]);
    let out_x = out_extent(shape.width, kernel.1 as usize, opts.stride[1], opts.padding[1], opts.dilation[1]);
    ConvolutionProblem {
        m: shape.batch * out_y * out_x,
        n: out_channels,
        k: kernel.0 as usize * kernel.1 as usize * shape.channels,
        lhs_layout: MatrixLayout::RowMajor,
        rhs_layout: MatrixLayout::ColMajor,
        lhs_line_size: 1,
        rhs_line_size: 1,
        out_line_size: 1,
        kernel_size: kernel,
        options: opts,
        out_shape_y: out_y,
        out_shape_x: out_x,
        has_bias,
    }
}

fn grid(x: u32, y: u32) -> CubeCount {
    CubeCount { x, y, z: 1 }
}

fn dim() -> CubeDim {
    CubeDim { x: 32, y: 4, z: 1 }
}

fn no_policy() -> AdvancedConfig {
    AdvancedConfig { enforced_lhs_layout: None, enforced_rhs_layout: None }
}

fn run(shape: &InputShape, p: &ConvolutionProblem, count: CubeCount, input: &Vec<i64>, weight: &Vec<i64>, bias: &Vec<i64>) -> Vec<i64> {
    let config = make_config(p, &dim(), &count, &no_policy());
    assert!(check_config(&config));
    let mut out = vec![0i64; p.m * p.n];
    launch(&config, shape, input, weight, bias, &mut out);
    out
}

#[test]
fn end_to_end_three_by_three_input() {
    let shape = InputShape { batch: 1, height: 3, width: 3, channels: 1 };
    let p = problem(&shape, 1, (2, 2), options(1, 0, 1), false);
    assert_eq!((p.out_shape_y, p.out_shape_x), (2, 2));
    let input: Vec<i64> = (1..=9).collect();
    let weight = vec![1, 0, 0, 1];
    for count in [grid(1, 1), grid(2, 1), grid(4, 1), grid(3, 2)] {
        let out = run(&shape, &p, count, &input, &weight, &vec![]);
        assert_eq!(out, vec![6, 8, 12, 14]);
    }
}

#[test]
fn padding_reads_give_zero() {
    let shape = InputShape { batch: 1, height: 1, width: 1, channels: 1 };
    let p = problem(&shape, 1, (3, 3), options(1, 1, 1), false);
    assert_eq!((p.out_shape_y, p.out_shape_x), (1, 1));
    let input = vec![5];
    let weight: Vec<i64> = (1..=9).collect();
    let out = run(&shape, &p, grid(1, 1), &input, &weight, &vec![]);
    assert_eq!(out, vec![25]);
    for c in 0..9 {
        let v = lhs_at(&p, &shape, &input, 0, c);
        assert_eq!(v, if c == 4 { 5 } else { 0 });
    }
}

#[test]
fn bias_is_added_per_output_channel() {
    let shape = InputShape { batch: 1, height: 3, width: 3, channels: 1 };
    let p = problem(&shape, 2, (2, 2), options(1, 0, 1), true);
    let input: Vec<i64> = (1..=9).collect();
    let weight = vec![1, 0, 0, 1, 0, 1, 1, 0];
    let bias = vec![100, -7];
    let out = run(&shape, &p, grid(2, 2), &input, &weight, &bias);
    // output row r, channel o at index r * 2 + o
    assert_eq!(out, vec![106, 6 - 7, 108, 8 - 7, 112, 12 - 7, 114, 14 - 7]);
}

#[test]
fn multi_channel_batched_strided_dilated() {
    let shape = InputShape { batch: 2, height: 4, width: 5, channels: 2 };
    let opts = ConvOptions { stride: [2, 1], padding: [1, 0], dilation: [1, 2], groups: 1 };
    let p = problem(&shape, 3, (2, 2), opts, true);
    let len = 2 * 4 * 5 * 2;
    let input: Vec<i64> = (0..len as i64).map(|v| (v * 7) % 11 - 5).collect();
    let weight: Vec<i64> = (0..(3 * p.k) as i64).map(|v| (v * 5) % 7 - 3).collect();
    let bias = vec![1, -2, 3];
    // direct convolution, channels-last
    let mut expected = vec![0i64; p.m * p.n];
    for b in 0..2 {
        for oy in 0..p.out_shape_y {
            for ox in 0..p.out_shape_x {
                for o in 0..3 {
                    let mut sum = bias[o];
                    for ky in 0..2 {
                        for kx in 0..2 {
                            for ci in 0..2 {
                                let iy = (oy * 2 + ky) as i64 - 1;
                                let ix = (ox + kx * 2) as i64;
                                if iy >= 0 && iy < 4 && ix < 5 {
                                    let iv = input[((b * 4 + iy as usize) * 5 + ix as usize) * 2 + ci];
                                    let wv = weight[o * p.k + (ky * 2 + kx) * 2 + ci];
                                    sum += iv * wv;
                                }
                            }
                        }
                    }
                    let r = (b * p.out_shape_y + oy) * p.out_shape_x + ox;
                    expected[r * 3 + o] = sum;
                }
            }
        }
    }
    for count in [grid(1, 1), grid(3, 2), grid(7, 3), grid(0, 0)] {
        assert_eq!(run(&shape, &p, count, &input, &weight, &bias), expected);
    }
}

#[test]
fn matmul_problem_keeps_dimensions() {
    let shape = InputShape { batch: 2, height: 5, width: 5, channels: 3 };
    let mut p = problem(&shape, 8, (3, 3), options(1, 1, 1), true);
    p.lhs_line_size = 4;
    p.rhs_line_size = 2;
    p.out_line_size = 8;
    let mm = p.as_matmul_problem();
    assert_eq!((mm.m, mm.n, mm.k), (50, 8, 27));
    assert_eq!((mm.lhs_line_size, mm.rhs_line_size, mm.out_line_size), (4, 2, 8));
    assert_eq!(mm.lhs_layout, MatrixLayout::RowMajor);
    assert_eq!(mm.rhs_layout, MatrixLayout::ColMajor);
    assert!(mm.batches.0.is_empty() && mm.batches.1.is_empty());
}

#[test]
fn derived_configs_pass_the_check() {
    let shape = InputShape { batch: 3, height: 6, width: 7, channels: 4 };
    for line in [0u8, 1, 2, 3, 4, 8, 12, 16, 128, 255] {
        let mut p = problem(&shape, 6, (3, 2), options(1, 0, 1), false);
        p.lhs_line_size = line;
        p.rhs_line_size = line;
        p.out_line_size = line;
        for count in [grid(0, 0), grid(1, 1), grid(5, 4), grid(1000, 1000)] {
            let policy = AdvancedConfig {
                enforced_lhs_layout: Some(MatrixLayout::ColMajor),
                enforced_rhs_layout: None,
            };
            for adv in [no_policy(), policy] {
                let config = make_config(&p, &dim(), &count, &adv);
                assert!(check_config(&config));
            }
        }
    }
}

#[test]
fn make_config_picks_tiles_and_lines() {
    let shape = InputShape { batch: 1, height: 3, width: 3, channels: 4 };
    let mut p = problem(&shape, 6, (1, 1), options(1, 0, 1), false);
    // m = 9, n = 6, k = 4
    p.lhs_line_size = 4;
    p.rhs_line_size = 3;
    p.out_line_size = 2;
    let config = make_config(&p, &dim(), &grid(2, 4), &no_policy());
    assert_eq!((config.tile_m, config.cubes_m), (5, 2));
    assert_eq!((config.tile_n, config.cubes_n), (2, 3));
    assert_eq!(config.tile_k, 4);
    assert_eq!((config.lhs_line_size, config.rhs_line_size, config.out_line_size), (4, 1, 2));
    assert_eq!(config.plane_dim, 32);
}

#[test]
fn check_config_rejects_inconsistent_configs() {
    let shape = InputShape { batch: 1, height: 3, width: 3, channels: 4 };
    let p = problem(&shape, 6, (1, 1), options(1, 0, 1), false);
    let good = make_config(&p, &dim(), &grid(2, 2), &no_policy());
    assert!(check_config(&good));
    let mut c = good;
    c.tile_k = 3;
    assert!(!check_config(&c));
    let mut c = good;
    c.tile_m = 0;
    assert!(!check_config(&c));
    let mut c = good;
    c.cubes_n = c.cubes_n + 1;
    assert!(!check_config(&c));
    let mut c = good;
    c.out_line_size = 4;
    assert!(!check_config(&c));
    let mut c = good;
    c.lhs_line_size = 3;
    assert!(!check_config(&c));
}

#[test]
fn accumulator_without_bias_starts_at_zero() {
    let shape = InputShape { batch: 1, height: 2, width: 2, channels: 1 };
    let p = problem(&shape, 3, (1, 1), options(1, 0, 1), false);
    let loader = init_bias_loader(&p, &vec![9, 9, 9], 0, 2);
    let mut acc = vec![7i64; 6];
    fill_accumulator(&loader, &mut acc);
    assert_eq!(acc, vec![0; 6]);
    assert_eq!(init_accumulator(2, 3), vec![0; 6]);
}

#[test]
fn accumulator_with_bias_is_broadcast() {
    let shape = InputShape { batch: 1, height: 2, width: 2, channels: 1 };
    let p = problem(&shape, 3, (1, 1), options(1, 0, 1), true);
    let bias = vec![3, -2, 11];
    let loader = init_bias_loader(&p, &bias, 1, 3);
    assert_eq!(loader.values, vec![-2, 11, 0]);
    let mut acc = init_accumulator(2, 3);
    fill_accumulator(&loader, &mut acc);
    assert_eq!(acc, vec![-2, 11, 0, -2, 11, 0]);
}

#[test]
fn cube_tiles_do_not_overlap() {
    let shape = InputShape { batch: 1, height: 4, width: 4, channels: 1 };
    let p = problem(&shape, 3, (1, 1), options(1, 0, 1), false);
    // m = 16, n = 3
    let config = make_config(&p, &dim(), &grid(3, 2), &no_policy());
    let input: Vec<i64> = (1..=16).collect();
    let weight = vec![1, 2, 3];
    let cubes = config.cubes_m * config.cubes_n;
    let mut owner = vec![usize::MAX; p.m * p.n];
    for q in 0..cubes {
        let x = (q / config.cubes_n) * config.tile_m;
        let y = (q % config.cubes_n) * config.tile_n;
        let loader = init_bias_loader(&p, &vec![], y, config.tile_n);
        let mut acc = init_accumulator(config.tile_m, config.tile_n);
        let sentinel = i64::MIN;
        let mut out = vec![sentinel; p.m * p.n];
        execute(&config, &shape, &input, &weight, &loader, x, y, &mut acc, &mut out, (0, p.k));
        for (i, v) in out.iter().enumerate() {
            if *v != sentinel {
                assert_eq!(owner[i], usize::MAX, "entry {} written twice", i);
                owner[i] = q;
                let (r, o) = (i / p.n, i % p.n);
                assert_eq!(*v, input[r] * weight[o]);
            }
        }
    }
    assert!(owner.iter().all(|q| *q != usize::MAX));
}

#[test]
fn unload_clips_partial_tiles() {
    let shape = InputShape { batch: 1, height: 1, width: 3, channels: 1 };
    let p = problem(&shape, 2, (1, 1), options(1, 0, 1), false);
    // m = 3, n = 2; a 2 x 2 tile at (2, 1) has one entry inside
    let acc = vec![10, 20, 30, 40];
    let mut out = vec![-1i64; 6];
    unload(&p, 2, 2, 1, &acc, &mut out);
    assert_eq!(out, vec![-1, -1, -1, -1, -1, 10]);
}

#[test]
fn accumulate_adds_products_over_a_range() {
    let shape = InputShape { batch: 1, height: 1, width: 1, channels: 3 };
    let p = problem(&shape, 1, (1, 1), options(1, 0, 1), false);
    let input = vec![2, 3, 4];
    let weight = vec![5, 6, 7];
    let mut acc = vec![1i64];
    accumulate(&p, &shape, &input, &weight, 1, 0, 0, 1, 3, &mut acc);
    assert_eq!(acc, vec![1 + 3 * 6 + 4 * 7]);
    assert_eq!(rhs_at(&p, &weight, 2, 0), 7);
}

#[test]
fn availability_errors() {
    let full = DeviceProperties { plane_dim: Some(32), types_supported: true, cmma_supported: true };
    assert_eq!(check_availability(&full), Ok(()));
    let unknown = DeviceProperties { plane_dim: None, ..full };
    assert_eq!(check_availability(&unknown), Err(MatmulAvailabilityError::PlaneDimUnknown));
    let narrow = DeviceProperties { plane_dim: Some(16), ..full };
    assert_eq!(
        check_availability(&narrow),
        Err(MatmulAvailabilityError::PlaneDimUnsupported { plane_dim: 16 })
    );
    let no_types = DeviceProperties { types_supported: false, ..full };
    assert_eq!(check_availability(&no_types), Err(MatmulAvailabilityError::TypesUnavailable));
    let no_cmma = DeviceProperties { cmma_supported: false, ..full };
    assert_eq!(
        check_availability(&no_cmma),
        Err(MatmulAvailabilityError::CmmaInstructionUnavailable)
    );
}

#[test]
fn implicit_gemm_variant_through_its_traits() {
    let shape = InputShape { batch: 1, height: 3, width: 3, channels: 1 };
    let p = problem(&shape, 1, (2, 2), options(1, 0, 1), true);
    let config = ImplicitGemmConvolution::make_config(&p, &dim(), &grid(2, 1), &no_policy());
    assert!(ImplicitGemmConvolution::check_config(&config));
    let full = DeviceProperties { plane_dim: Some(32), types_supported: true, cmma_supported: true };
    assert!(ImplicitGemmConvolution::check_availability(&full).is_ok());
    let input: Vec<i64> = (1..=9).collect();
    let weight = vec![1, 0, 0, 1];
    let bias = vec![-1];
    let mut out = vec![0i64; 4];
    ImplicitGemmConvolution::launch_unchecked(&config, &shape, &input, &weight, &bias, &mut out);
    assert_eq!(out, vec![5, 7, 11, 13]);
    let loader = ImplicitGemmConvolution::init_bias_loader(&config, &bias, 0);
    let mut acc = ImplicitGemmConvolution::init_accumulator(&config);
    let mut partial = vec![0i64; 4];
    ImplicitGemmConvolution::execute(&config, &shape, &input, &weight, &loader, 2, 0, &mut acc, &mut partial, (0, 4));
    assert_eq!(partial, vec![0, 0, 11, 13]);
}
