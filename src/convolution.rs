use vstd::prelude::*;
use vstd::arithmetic::div_mod::{
    lemma_fundamental_div_mod, lemma_fundamental_div_mod_converse, lemma_mod_pos_bound,
    lemma_multiply_divide_lt,
};

use crate::config::{config_valid, lemma_ceil_div, Config};
use crate::kernel::{
    bias_term, bounded, conv_value, dot, problem_matches, tensors_match, InputShape, MAX_REDUCTION,
    VALUE_BOUND,
};
use crate::problem::ConvolutionProblem;
use crate::tile::{
    acc_bound, accumulate, fill_accumulator, in_tile, init_accumulator, init_bias_loader,
    lemma_flat_unique, unload, BiasLoader,
};

verus! {

/// Sums over adjacent reduction ranges add up.
pub proof fn lemma_dot_split(
    p: ConvolutionProblem,
    s: InputShape,
    input: Seq<i64>,
    weight: Seq<i64>,
    r: int,
    o: int,
    lo: int,
    mid: int,
    hi: int,
)
    requires
        lo <= mid <= hi,
    ensures
        dot(p, s, input, weight, r, o, lo, mid) + dot(p, s, input, weight, r, o, mid, hi) == dot(
            p,
            s,
            input,
            weight,
            r,
            o,
            lo,
            hi,
        ),
    decreases hi - mid,
{
    if hi > mid {
        lemma_dot_split(p, s, input, weight, r, o, lo, mid, hi - 1);
    }
}

/// Computes one output tile of the convolution on one cube: seeds the accumulator from
/// `acc_loader`, adds the products over the reduction range `k_range` one step of
/// `config.tile_k` at a time, and commits the tile at `(x_offset, y_offset)` to `out`.
/// Every output entry of the tile ends as its seed plus its products over `k_range`;
/// every other entry keeps its value.
pub fn execute(
    config: &Config,
    s: &InputShape,
    input: &Vec<i64>,
    weight: &Vec<i64>,
    acc_loader: &BiasLoader,
    x_offset: usize,
    y_offset: usize,
    acc: &mut Vec<i64>,
    out: &mut Vec<i64>,
    k_range: (usize, usize),
)
    requires
        config_valid(*config),
        problem_matches(config.problem, *s),
        input@.len() == s.batch * s.height * s.width * s.channels,
        weight@.len() == config.problem.n * config.problem.k,
        old(out)@.len() == config.problem.m * config.problem.n,
        bounded(input@),
        bounded(weight@),
        bounded(acc_loader.values@),
        config.problem.k <= MAX_REDUCTION,
        acc_loader.values@.len() == config.tile_n,
        old(acc)@.len() == config.tile_m * config.tile_n,
        k_range.0 <= k_range.1 <= config.problem.k,
        (k_range.1 - k_range.0) % (config.tile_k as int) == 0,
    ensures
        final(out)@.len() == old(out)@.len(),
        forall|r: int, o: int|
            0 <= r < config.problem.m && 0 <= o < config.problem.n ==> #[trigger] final(out)@[r
                * config.problem.n + o] == if in_tile(
                x_offset as int,
                y_offset as int,
                config.tile_m as int,
                config.tile_n as int,
                r,
                o,
            ) {
                acc_loader.values@[o - y_offset] + dot(
                    config.problem,
                    *s,
                    input@,
                    weight@,
                    r,
                    o,
                    k_range.0 as int,
                    k_range.1 as int,
                )
            } else {
                old(out)@[r * config.problem.n + o] as int
            },
{
    let p = &config.problem;
    let tn = config.tile_n;
    let tk = config.tile_k;
    let ghost tm = config.tile_m as int;
    let ghost values = acc_loader.values@;
    fill_accumulator(acc_loader, acc);
    let (k_start, k_end) = k_range;
    let steps = (k_end - k_start) / tk;
    proof {
        lemma_fundamental_div_mod((k_end - k_start) as int, tk as int);
        assert(k_start + steps * tk == k_end) by (nonlinear_arith)
            requires
                k_end - k_start == tk * steps,
        ;
        assert forall|e: int| 0 <= e < acc@.len() implies -acc_bound(k_start as int) <= #[trigger] acc@[e]
            <= acc_bound(k_start as int) by {
            lemma_mod_pos_bound(e, tn as int);
            assert(VALUE_BOUND <= acc_bound(k_start as int)) by (nonlinear_arith);
        }
    }
    let mut t: usize = 0;
    while t < steps
        invariant
            config_valid(*config),
            p == &config.problem,
            tn == config.tile_n,
            tk == config.tile_k,
            tk > 0,
            problem_matches(*p, *s),
            input@.len() == s.batch * s.height * s.width * s.channels,
            weight@.len() == p.n * p.k,
            bounded(input@),
            bounded(weight@),
            p.k <= MAX_REDUCTION,
            k_start <= k_end <= p.k,
            k_start + steps * tk == k_end,
            t <= steps,
            acc@.len() == tm * tn,
            values == acc_loader.values@,
            forall|e: int|
                0 <= e < acc@.len() ==> -acc_bound(k_start + t * tk) <= #[trigger] acc@[e] <= acc_bound(
                    k_start + t * tk,
                ),
            forall|e: int|
                0 <= e < acc@.len() ==> #[trigger] acc@[e] == if x_offset + e / (tn as int) < p.m
                    && y_offset + e % (tn as int) < p.n {
                    values[e % (tn as int)] + dot(
                        *p,
                        *s,
                        input@,
                        weight@,
                        x_offset + e / (tn as int),
                        y_offset + e % (tn as int),
                        k_start as int,
                        k_start + t * tk,
                    )
                } else {
                    values[e % (tn as int)] as int
                },
        decreases steps - t,
    {
        proof {
            assert(k_start + t * tk + tk <= k_end) by (nonlinear_arith)
                requires
                    t < steps,
                    k_start + steps * tk == k_end,
                    tk > 0,
            ;
            assert(k_start + (t + 1) * tk == k_start + t * tk + tk) by (nonlinear_arith);
        }
        let lo = k_start + t * tk;
        let ghost before = acc@;
        accumulate(p, s, input, weight, tn, x_offset, y_offset, lo, lo + tk, acc);
        proof {
            assert forall|e: int| 0 <= e < acc@.len() implies #[trigger] acc@[e] == if x_offset + e / (
            tn as int) < p.m && y_offset + e % (tn as int) < p.n {
                values[e % (tn as int)] + dot(
                    *p,
                    *s,
                    input@,
                    weight@,
                    x_offset + e / (tn as int),
                    y_offset + e % (tn as int),
                    k_start as int,
                    k_start + (t + 1) * tk,
                )
            } else {
                values[e % (tn as int)] as int
            } by {
                assert(before[e] == if x_offset + e / (tn as int) < p.m && y_offset + e % (tn as int) < p.n {
                    values[e % (tn as int)] + dot(
                        *p,
                        *s,
                        input@,
                        weight@,
                        x_offset + e / (tn as int),
                        y_offset + e % (tn as int),
                        k_start as int,
                        k_start + t * tk,
                    )
                } else {
                    values[e % (tn as int)] as int
                });
                lemma_dot_split(
                    *p,
                    *s,
                    input@,
                    weight@,
                    x_offset + e / (tn as int),
                    y_offset + e % (tn as int),
                    k_start as int,
                    lo as int,
                    lo + tk,
                );
            }
        }
        t = t + 1;
    }
    proof {
        lemma_flat_unique(tm, 0, tn as int);
        assert(tm * tn + 0 == tm * tn);
    }
    let ghost acc_done = acc@;
    unload(p, tn, x_offset, y_offset, acc, out);
    proof {
        assert forall|r: int, o: int| 0 <= r < p.m && 0 <= o < p.n implies #[trigger] out@[r * p.n + o]
            == if in_tile(x_offset as int, y_offset as int, tm, tn as int, r, o) {
            values[o - y_offset] + dot(*p, *s, input@, weight@, r, o, k_start as int, k_end as int)
        } else {
            old(out)@[r * p.n + o] as int
        } by {
            if in_tile(x_offset as int, y_offset as int, tm, tn as int, r, o) {
                let e = (r - x_offset) * tn + (o - y_offset);
                lemma_flat_unique(r - x_offset, o - y_offset, tn as int);
                assert(0 <= e < tm * tn) by (nonlinear_arith)
                    requires
                        0 <= r - x_offset < tm,
                        0 <= o - y_offset < tn,
                        e == (r - x_offset) * tn + (o - y_offset),
                ;
                assert(acc_done[e] == values[o - y_offset] + dot(
                    *p,
                    *s,
                    input@,
                    weight@,
                    r,
                    o,
                    k_start as int,
                    k_start + steps * tk,
                ));
            }
        }
    }
}

/// First output row of the tile of cube `q` (cubes are numbered row by row over a grid of
/// `cubes_m x cubes_n`).
pub open spec fn cube_x(c: Config, q: int) -> int {
    ((q as int) / (c.cubes_n as int)) * c.tile_m
}

/// First output channel of the tile of cube `q`.
pub open spec fn cube_y(c: Config, q: int) -> int {
    ((q as int) % (c.cubes_n as int)) * c.tile_n
}

/// Output position `(r, o)` is written by cube `q`.
pub open spec fn written_by(c: Config, q: int, r: int, o: int) -> bool {
    in_tile(cube_x(c, q), cube_y(c, q), c.tile_m as int, c.tile_n as int, r, o)
}

/// A tile of width `t` starting at `i * t` holds exactly the positions whose quotient by `t`
/// is `i`.
proof fn lemma_tile_index(v: int, t: int, i: int)
    requires
        t > 0,
        i >= 0,
        v >= 0,
    ensures
        (i * t <= v < i * t + t) <==> v / t == i,
{
    lemma_fundamental_div_mod(v, t);
    lemma_mod_pos_bound(v, t);
    if i * t <= v < i * t + t {
        lemma_fundamental_div_mod_converse(v, t, i, v - i * t);
    }
    if v / t == i {
        assert(v == i * t + v % t) by (nonlinear_arith)
            requires
                v == t * (v / t) + v % t,
                v / t == i,
        ;
    }
}

/// Position `(r, o)` of the output lies in the tile of exactly the cube
/// `(r / tile_m) * cubes_n + o / tile_n`.
proof fn lemma_written_by(c: Config, q: int, r: int, o: int)
    requires
        config_valid(c),
        0 <= q < c.cubes_m * c.cubes_n,
        0 <= r < c.problem.m,
        0 <= o < c.problem.n,
    ensures
        written_by(c, q, r, o) <==> (r / (c.tile_m as int)) * c.cubes_n + o / (c.tile_n as int) == q,
        (r / (c.tile_m as int)) * c.cubes_n + o / (c.tile_n as int) < c.cubes_m * c.cubes_n,
{
    let tm = c.tile_m as int;
    let tn = c.tile_n as int;
    let cm = c.cubes_m as int;
    let cn = c.cubes_n as int;
    lemma_ceil_div(c.problem.m as nat, c.tile_m as nat);
    lemma_ceil_div(c.problem.n as nat, c.tile_n as nat);
    assert(cn > 0) by (nonlinear_arith)
        requires
            0 <= q < cm * cn,
            cm >= 0,
    ;
    lemma_mod_pos_bound(q, cn);
    vstd::arithmetic::div_mod::lemma_div_pos_is_pos(q, cn);
    vstd::arithmetic::div_mod::lemma_div_pos_is_pos(r, tm);
    vstd::arithmetic::div_mod::lemma_div_pos_is_pos(o, tn);
    lemma_tile_index(r, tm, q / cn);
    lemma_tile_index(o, tn, q % cn);
    assert(r < tm * cm) by (nonlinear_arith)
        requires
            r < c.problem.m,
            cm * tm >= c.problem.m,
    ;
    assert(o < tn * cn) by (nonlinear_arith)
        requires
            o < c.problem.n,
            cn * tn >= c.problem.n,
    ;
    lemma_multiply_divide_lt(r, tm, cm);
    lemma_multiply_divide_lt(o, tn, cn);
    lemma_flat_unique(r / tm, o / tn, cn);
    lemma_fundamental_div_mod(q, cn);
    assert(q == (q / cn) * cn + q % cn) by (nonlinear_arith)
        requires
            q == cn * (q / cn) + q % cn,
    ;
    assert((r / tm) * cn + o / tn < cm * cn) by (nonlinear_arith)
        requires
            0 <= r / tm < cm,
            0 <= o / tn < cn,
    ;
}

/// Output tiles of distinct cubes are disjoint: for a valid configuration, no output
/// position is written by two different cubes of its grid.
pub proof fn lemma_cube_tiles_disjoint(c: Config, q1: int, q2: int)
    requires
        config_valid(c),
        0 <= q1 < c.cubes_m * c.cubes_n,
        0 <= q2 < c.cubes_m * c.cubes_n,
        q1 != q2,
    ensures
        forall|r: int, o: int|
            0 <= r < c.problem.m && 0 <= o < c.problem.n ==> !(#[trigger] written_by(c, q1, r, o)
                && #[trigger] written_by(c, q2, r, o)),
{
    assert forall|r: int, o: int| 0 <= r < c.problem.m && 0 <= o < c.problem.n implies !(
    #[trigger] written_by(c, q1, r, o) && #[trigger] written_by(c, q2, r, o)) by {
        lemma_written_by(c, q1, r, o);
        lemma_written_by(c, q2, r, o);
    }
}

/// Runs the convolution over the whole grid of `config`: cube `q` computes the tile at
/// `(cube_x(q), cube_y(q))` over the full reduction range. Afterwards every output entry
/// holds the convolution's value at its position: its seed (bias or zero) plus its
/// products over all of `k`, with zero wherever the window lies in the padding.
pub fn launch(
    config: &Config,
    s: &InputShape,
    input: &Vec<i64>,
    weight: &Vec<i64>,
    bias: &Vec<i64>,
    out: &mut Vec<i64>,
)
    requires
        config_valid(*config),
        tensors_match(config.problem, *s, input@, weight@, bias@, old(out)@.len()),
        bounded(input@),
        bounded(weight@),
        bounded(bias@),
        config.problem.k <= MAX_REDUCTION,
    ensures
        final(out)@.len() == old(out)@.len(),
        forall|r: int, o: int|
            0 <= r < config.problem.m && 0 <= o < config.problem.n ==> #[trigger] final(out)@[r
                * config.problem.n + o] == conv_value(config.problem, *s, input@, weight@, bias@, r, o),
{
    let p = &config.problem;
    let ghost c = *config;
    let out_len = out.len();
    let cubes = cube_total(config);
    let mut q: usize = 0;
    while q < cubes
        invariant
            config_valid(c),
            c == *config,
            p == &config.problem,
            cubes == c.cubes_m * c.cubes_n,
            tensors_match(*p, *s, input@, weight@, bias@, out@.len()),
            out@.len() == old(out)@.len(),
            out_len == out@.len(),
            bounded(input@),
            bounded(weight@),
            bounded(bias@),
            p.k <= MAX_REDUCTION,
            q <= cubes,
            forall|r: int, o: int|
                0 <= r < p.m && 0 <= o < p.n ==> #[trigger] out@[r * p.n + o] == if (r / (c.tile_m as int))
                    * c.cubes_n + o / (c.tile_n as int) >= q {
                    old(out)@[r * p.n + o] as int
                } else {
                    conv_value(*p, *s, input@, weight@, bias@, r, o)
                },
        decreases cubes - q,
    {
        proof {
            lemma_ceil_div(p.m as nat, c.tile_m as nat);
            lemma_ceil_div(p.n as nat, c.tile_n as nat);
            assert(c.cubes_n > 0 && c.cubes_m > 0) by (nonlinear_arith)
                requires
                    0 <= q < c.cubes_m * c.cubes_n,
                    c.cubes_m >= 0,
                    c.cubes_n >= 0,
            ;
            lemma_mod_pos_bound(q as int, c.cubes_n as int);
            vstd::arithmetic::div_mod::lemma_div_pos_is_pos(q as int, c.cubes_n as int);
            assert(q < c.cubes_n * c.cubes_m) by (nonlinear_arith)
                requires q < c.cubes_m * c.cubes_n;
            lemma_multiply_divide_lt(q as int, c.cubes_n as int, c.cubes_m as int);
            assert(((q as int) / (c.cubes_n as int)) * c.tile_m < p.m) by (nonlinear_arith)
                requires
                    (q as int) / (c.cubes_n as int) <= c.cubes_m - 1,
                    (c.cubes_m - 1) * c.tile_m < p.m,
                    c.tile_m > 0,
            ;
            assert(((q as int) % (c.cubes_n as int)) * c.tile_n < p.n) by (nonlinear_arith)
                requires
                    (q as int) % (c.cubes_n as int) <= c.cubes_n - 1,
                    (c.cubes_n - 1) * c.tile_n < p.n,
                    c.tile_n > 0,
            ;
            assert(c.tile_m * c.tile_n <= p.m * p.n) by (nonlinear_arith)
                requires
                    0 < c.tile_m <= p.m,
                    0 < c.tile_n <= p.n,
            ;
        }
        let x_offset = (q / config.cubes_n) * config.tile_m;
        let y_offset = (q % config.cubes_n) * config.tile_n;
        let loader = init_bias_loader(p, bias, y_offset, config.tile_n);
        proof {
            assert forall|j: int| 0 <= j < loader.values@.len() implies -VALUE_BOUND <= #[trigger] loader.values@[j]
                <= VALUE_BOUND by {
                assert(loader.values@[j] == bias_term(*p, bias@, y_offset + j));
            }
        }
        let mut acc = init_accumulator(config.tile_m, config.tile_n);
        let ghost before = out@;
        execute(config, s, input, weight, &loader, x_offset, y_offset, &mut acc, out, (0, p.k));
        proof {
            assert forall|r: int, o: int| 0 <= r < p.m && 0 <= o < p.n implies #[trigger] out@[r * p.n + o]
                == if (r / (c.tile_m as int)) * c.cubes_n + o / (c.tile_n as int) >= q + 1 {
                old(out)@[r * p.n + o] as int
            } else {
                conv_value(*p, *s, input@, weight@, bias@, r, o)
            } by {
                assert(before[r * p.n + o] == if (r / (c.tile_m as int)) * c.cubes_n + o / (c.tile_n as int)
                    >= q {
                    old(out)@[r * p.n + o] as int
                } else {
                    conv_value(*p, *s, input@, weight@, bias@, r, o)
                });
                lemma_written_by(c, q as int, r, o);
                if written_by(c, q as int, r, o) {
                    assert(loader.values@[o - y_offset] == bias_term(*p, bias@, y_offset + (o - y_offset)));
                }
            }
        }
        q = q + 1;
    }
    proof {
        assert forall|r: int, o: int| 0 <= r < p.m && 0 <= o < p.n implies #[trigger] out@[r * p.n + o]
            == conv_value(*p, *s, input@, weight@, bias@, r, o) by {
            if c.cubes_m * c.cubes_n > 0 {
                lemma_written_by(c, 0, r, o);
            } else {
                lemma_ceil_div(p.m as nat, c.tile_m as nat);
                lemma_ceil_div(p.n as nat, c.tile_n as nat);
                assert(c.cubes_m * c.cubes_n > 0) by (nonlinear_arith)
                    requires
                        c.cubes_m > 0,
                        c.cubes_n > 0,
                ;
            }
        }
    }
}

/// Number of cubes in the grid of a valid configuration.
fn cube_total(config: &Config) -> (r: usize)
    requires
        config_valid(*config),
        config.problem.m * config.problem.n <= usize::MAX,
    ensures
        r == config.cubes_m * config.cubes_n,
{
    proof {
        lemma_ceil_div(config.problem.m as nat, config.tile_m as nat);
        lemma_ceil_div(config.problem.n as nat, config.tile_n as nat);
        assert(config.cubes_m * config.cubes_n <= config.problem.m * config.problem.n) by (nonlinear_arith)
            requires
                config.cubes_m <= config.problem.m,
                config.cubes_n <= config.problem.n,
                config.cubes_m >= 0,
                config.cubes_n >= 0,
        ;
    }
    config.cubes_m * config.cubes_n
}

} // verus!
