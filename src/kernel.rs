use vstd::prelude::*;
use vstd::arithmetic::div_mod::{lemma_mod_pos_bound, lemma_multiply_divide_lt};

use crate::problem::ConvolutionProblem;

verus! {

/// Largest magnitude of an input, weight or bias element: products and sums over a
/// reduction of at most `MAX_REDUCTION` terms then stay within `i64`.
pub const VALUE_BOUND: i64 = 1048576;

/// Largest reduction dimension `k` the kernel accepts.
pub const MAX_REDUCTION: usize = 1048576;

/// Shape of the input tensor, stored channels-last: `[batch, height, width, channels]`.
#[derive(Clone, Copy, Debug)]
pub struct InputShape {
    pub batch: usize,
    pub height: usize,
    pub width: usize,
    pub channels: usize,
}

/// The problem's logical dimensions agree with the input shape: `m` counts output
/// positions over the batch, `k` counts weight positions.
pub open spec fn problem_matches(p: ConvolutionProblem, s: InputShape) -> bool {
    &&& p.m == s.batch * p.out_shape_y * p.out_shape_x
    &&& p.k == p.kernel_size.0 * p.kernel_size.1 * s.channels
}

/// Tensors as the kernel reads them: input `[batch, height, width, channels]`, weight
/// `[n, kernel_h, kernel_w, channels]` (so row `o` of length `k`), bias `[n]`, and output
/// `[m, n]` (channels-last output positions).
pub open spec fn tensors_match(
    p: ConvolutionProblem,
    s: InputShape,
    input: Seq<i64>,
    weight: Seq<i64>,
    bias: Seq<i64>,
    out_len: nat,
) -> bool {
    &&& problem_matches(p, s)
    &&& input.len() == s.batch * s.height * s.width * s.channels
    &&& weight.len() == p.n * p.k
    &&& (p.has_bias ==> bias.len() == p.n)
    &&& out_len == p.m * p.n
}

pub open spec fn bounded(v: Seq<i64>) -> bool {
    forall|i: int| 0 <= i < v.len() ==> -VALUE_BOUND <= #[trigger] v[i] <= VALUE_BOUND
}

/// Batch index of output row `r`.
pub open spec fn row_batch(p: ConvolutionProblem, r: int) -> int {
    (r / p.out_shape_x as int) / p.out_shape_y as int
}

/// Output row (y) of output row `r`.
pub open spec fn row_y(p: ConvolutionProblem, r: int) -> int {
    (r / p.out_shape_x as int) % p.out_shape_y as int
}

/// Output column (x) of output row `r`.
pub open spec fn row_x(p: ConvolutionProblem, r: int) -> int {
    r % p.out_shape_x as int
}

/// Input channel of reduction index `c`.
pub open spec fn col_channel(s: InputShape, c: int) -> int {
    c % s.channels as int
}

/// Kernel column of reduction index `c`.
pub open spec fn col_kx(p: ConvolutionProblem, s: InputShape, c: int) -> int {
    (c / s.channels as int) % p.kernel_size.1 as int
}

/// Kernel row of reduction index `c`.
pub open spec fn col_ky(p: ConvolutionProblem, s: InputShape, c: int) -> int {
    (c / s.channels as int) / p.kernel_size.1 as int
}

/// Input row read for output row `r` and reduction index `c`; negative or past the
/// height inside the padding.
pub open spec fn input_y(p: ConvolutionProblem, s: InputShape, r: int, c: int) -> int {
    row_y(p, r) * p.options.stride[0] as int + col_ky(p, s, c) * p.options.dilation[0] as int
        - p.options.padding[0] as int
}

/// Input column read for output row `r` and reduction index `c`.
pub open spec fn input_x(p: ConvolutionProblem, s: InputShape, r: int, c: int) -> int {
    row_x(p, r) * p.options.stride[1] as int + col_kx(p, s, c) * p.options.dilation[1] as int
        - p.options.padding[1] as int
}

pub open spec fn input_index(s: InputShape, b: int, y: int, x: int, ch: int) -> int {
    ((b * s.height + y) * s.width + x) * s.channels + ch
}

/// Element `(r, c)` of the implicit left operand: the input value under the window,
/// or zero where the window lies in the padding.
pub open spec fn lhs_elem(p: ConvolutionProblem, s: InputShape, input: Seq<i64>, r: int, c: int) -> int {
    let y = input_y(p, s, r, c);
    let x = input_x(p, s, r, c);
    if 0 <= y < s.height && 0 <= x < s.width {
        input[input_index(s, row_batch(p, r), y, x, col_channel(s, c)) as int] as int
    } else {
        0
    }
}

/// Element `(c, o)` of the right operand: weight of output channel `o` at reduction index `c`.
pub open spec fn rhs_elem(p: ConvolutionProblem, weight: Seq<i64>, c: int, o: int) -> int {
    weight[o * p.k + c] as int
}

/// Sum over reduction indices `lo <= c < hi` of `lhs(r, c) * rhs(c, o)`.
pub open spec fn dot(
    p: ConvolutionProblem,
    s: InputShape,
    input: Seq<i64>,
    weight: Seq<i64>,
    r: int,
    o: int,
    lo: int,
    hi: int,
) -> int
    decreases hi - lo,
{
    if hi <= lo {
        0
    } else {
        dot(p, s, input, weight, r, o, lo, hi - 1) + lhs_elem(p, s, input, r, hi - 1) * rhs_elem(
            p,
            weight,
            hi - 1,
            o,
        )
    }
}

/// Seed of the accumulator for output channel `o`: its bias when the problem has one,
/// else zero.
pub open spec fn bias_term(p: ConvolutionProblem, bias: Seq<i64>, o: int) -> int {
    if p.has_bias && 0 <= o < p.n {
        bias[o] as int
    } else {
        0
    }
}

/// Value of the convolution at output row `r`, channel `o`.
pub open spec fn conv_value(
    p: ConvolutionProblem,
    s: InputShape,
    input: Seq<i64>,
    weight: Seq<i64>,
    bias: Seq<i64>,
    r: int,
    o: int,
) -> int {
    bias_term(p, bias, o) + dot(p, s, input, weight, r, o, 0, p.k as int)
}

proof fn lemma_split3(r: int, a: int, b: int, c: int)
    requires
        0 <= r < a * b * c,
        a >= 0,
        b >= 0,
        c >= 0,
    ensures
        b > 0,
        c > 0,
        0 <= r % c < c,
        0 <= (r / c) % b < b,
        0 <= (r / c) / b < a,
        r / c >= 0,
{
    assert(b > 0 && c > 0) by (nonlinear_arith)
        requires
            0 <= r < a * b * c,
            a >= 0,
            b >= 0,
            c >= 0,
    ;
    lemma_mod_pos_bound(r, c);
    assert(r < c * (a * b)) by (nonlinear_arith)
        requires
            r < a * b * c,
    ;
    lemma_multiply_divide_lt(r, c, a * b);
    vstd::arithmetic::div_mod::lemma_div_pos_is_pos(r, c);
    lemma_mod_pos_bound(r / c, b);
    assert(r / c < b * a) by (nonlinear_arith)
        requires
            r / c < a * b,
    ;
    lemma_multiply_divide_lt(r / c, b, a);
    vstd::arithmetic::div_mod::lemma_div_pos_is_pos(r / c, b);
}

proof fn lemma_index4(b: int, y: int, x: int, ch: int, nb: int, h: int, w: int, nc: int)
    requires
        0 <= b < nb,
        0 <= y < h,
        0 <= x < w,
        0 <= ch < nc,
    ensures
        0 <= b * h,
        0 <= b * h + y < nb * h,
        0 <= (b * h + y) * w,
        0 <= (b * h + y) * w + x < nb * h * w,
        nb * h * w <= nb * h * w * nc,
        nb * h <= nb * h * w * nc,
        0 <= ((b * h + y) * w + x) * nc,
        0 <= ((b * h + y) * w + x) * nc + ch < nb * h * w * nc,
{
    assert(0 <= b * h) by (nonlinear_arith)
        requires
            0 <= b,
            0 <= y < h,
    ;
    assert(nb * h * w <= nb * h * w * nc) by (nonlinear_arith)
        requires
            0 <= nb * h * w,
            1 <= nc,
    ;
    assert(nb * h <= nb * h * w) by (nonlinear_arith)
        requires
            0 <= nb * h,
            1 <= w,
    ;
    assert(0 <= (b * h + y) * w) by (nonlinear_arith)
        requires
            0 <= b * h + y,
            0 <= x < w,
    ;
    assert(0 <= ((b * h + y) * w + x) * nc) by (nonlinear_arith)
        requires
            0 <= (b * h + y) * w + x,
            0 <= ch < nc,
    ;
    assert(0 <= b * h + y < nb * h) by (nonlinear_arith)
        requires
            0 <= b < nb,
            0 <= y < h,
    ;
    assert(0 <= (b * h + y) * w + x < nb * h * w) by (nonlinear_arith)
        requires
            0 <= b * h + y < nb * h,
            0 <= x < w,
    ;
    assert(0 <= ((b * h + y) * w + x) * nc + ch < nb * h * w * nc) by (nonlinear_arith)
        requires
            0 <= (b * h + y) * w + x < nb * h * w,
            0 <= ch < nc,
    ;
}

/// Index `o * k + c` of a `[n, k]` row-major matrix stays inside it.
proof fn lemma_index2(o: int, c: int, n: int, k: int)
    requires
        0 <= o < n,
        0 <= c < k,
    ensures
        0 <= o * k,
        0 <= o * k + c < n * k,
{
    assert(0 <= o * k) by (nonlinear_arith)
        requires
            0 <= o,
            0 <= c < k,
    ;
    assert(0 <= o * k + c < n * k) by (nonlinear_arith)
        requires
            0 <= o < n,
            0 <= c < k,
    ;
}

/// Reads element `(r, c)` of the implicit left operand straight from the input tensor;
/// a read that falls in the padding gives zero and touches no memory.
pub fn lhs_at(p: &ConvolutionProblem, s: &InputShape, input: &Vec<i64>, r: usize, c: usize) -> (v: i64)
    requires
        problem_matches(*p, *s),
        input@.len() == s.batch * s.height * s.width * s.channels,
        r < p.m,
        c < p.k,
    ensures
        v == lhs_elem(*p, *s, input@, r as int, c as int),
        bounded(input@) ==> -VALUE_BOUND <= v <= VALUE_BOUND,
{
    proof {
        lemma_split3(r as int, s.batch as int, p.out_shape_y as int, p.out_shape_x as int);
        lemma_split3(c as int, p.kernel_size.0 as int, p.kernel_size.1 as int, s.channels as int);
    }
    let ox = r % p.out_shape_x;
    let t = r / p.out_shape_x;
    let oy = t % p.out_shape_y;
    let b = t / p.out_shape_y;
    let ch = c % s.channels;
    let u = c / s.channels;
    let kx = u % p.kernel_size.1 as usize;
    let ky = u / p.kernel_size.1 as usize;
    proof {
        assert(c < p.kernel_size.0 * (p.kernel_size.1 * s.channels)) by (nonlinear_arith)
            requires
                c < p.kernel_size.0 * p.kernel_size.1 * s.channels,
        ;
        assert(c < (p.kernel_size.0 * p.kernel_size.1) * s.channels) by (nonlinear_arith)
            requires
                c < p.kernel_size.0 * p.kernel_size.1 * s.channels,
        ;
    }
    let y = window_coord(oy, ky, p.options.stride[0], p.options.dilation[0], p.options.padding[0], s.height);
    let x = window_coord(ox, kx, p.options.stride[1], p.options.dilation[1], p.options.padding[1], s.width);
    match (y, x) {
        (Some(y), Some(x)) => {
            let len = input.len();
            proof {
                lemma_index4(b as int, y as int, x as int, ch as int, s.batch as int, s.height as int,
                    s.width as int, s.channels as int);
            }
            input[((b * s.height + y) * s.width + x) * s.channels + ch]
        },
        _ => 0,
    }
}

/// Input coordinate `pos * stride + kpos * dilation - padding` when it lies in `[0, extent)`.
fn window_coord(pos: usize, kpos: usize, stride: usize, dilation: usize, padding: usize, extent: usize) -> (r: Option<usize>)
    ensures
        ({
            let v = pos * stride + kpos * dilation - padding;
            &&& (0 <= v < extent) ==> r == Some(v as usize)
            &&& !(0 <= v < extent) ==> r is None
        }),
{
    proof {
        assert(pos * stride <= u64::MAX * u64::MAX) by (nonlinear_arith)
            requires
                pos <= u64::MAX,
                stride <= u64::MAX,
        ;
        assert(kpos * dilation <= u64::MAX * u64::MAX) by (nonlinear_arith)
            requires
                kpos <= u64::MAX,
                dilation <= u64::MAX,
        ;
    }
    let a = (pos as u128) * (stride as u128);
    let b = (kpos as u128) * (dilation as u128);
    match a.checked_add(b) {
        None => None,
        Some(sum) => {
            if sum >= padding as u128 && sum - (padding as u128) < extent as u128 {
                Some((sum - padding as u128) as usize)
            } else {
                None
            }
        },
    }
}

/// Reads element `(c, o)` of the right operand from the weight tensor.
pub fn rhs_at(p: &ConvolutionProblem, weight: &Vec<i64>, c: usize, o: usize) -> (v: i64)
    requires
        weight@.len() == p.n * p.k,
        c < p.k,
        o < p.n,
    ensures
        v == rhs_elem(*p, weight@, c as int, o as int),
        bounded(weight@) ==> -VALUE_BOUND <= v <= VALUE_BOUND,
{
    let len = weight.len();
    proof {
        lemma_index2(o as int, c as int, p.n as int, p.k as int);
    }
    weight[o * p.k + c]
}

} // verus!
