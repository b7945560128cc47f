use vstd::prelude::*;
use vstd::arithmetic::div_mod::{
    lemma_fundamental_div_mod, lemma_fundamental_div_mod_converse, lemma_mod_pos_bound,
};

use crate::kernel::{
    bias_term, bounded, dot, lhs_at, problem_matches, rhs_at, MAX_REDUCTION, VALUE_BOUND,
};
use crate::kernel::InputShape;
use crate::problem::ConvolutionProblem;

verus! {

/// Largest magnitude of one product of an input and a weight element.
pub open spec fn product_bound() -> int {
    VALUE_BOUND as int * VALUE_BOUND as int
}

/// Largest magnitude of an accumulator after the reduction indices below `k` were added.
pub open spec fn acc_bound(k: int) -> int {
    VALUE_BOUND as int + k * product_bound()
}

/// Output row `r`, channel `o` lies in the tile at `(x, y)` of `tm x tn` entries.
pub open spec fn in_tile(x: int, y: int, tm: int, tn: int, r: int, o: int) -> bool {
    x <= r < x + tm && y <= o < y + tn
}

/// Seeds of one tile's accumulator, one per output channel of the tile.
pub struct BiasLoader {
    pub values: Vec<i64>,
}

/// A `tile_m x tile_n` accumulator of zeros, row-major.
pub fn init_accumulator(tile_m: usize, tile_n: usize) -> (acc: Vec<i64>)
    requires
        tile_m * tile_n <= usize::MAX,
    ensures
        acc@.len() == tile_m * tile_n,
        forall|e: int| 0 <= e < acc@.len() ==> acc@[e] == 0,
{
    let len = tile_m * tile_n;
    let mut acc: Vec<i64> = Vec::new();
    let mut e: usize = 0;
    while e < len
        invariant
            e <= len,
            acc@.len() == e,
            forall|i: int| 0 <= i < e ==> acc@[i] == 0,
        decreases len - e,
    {
        acc.push(0);
        e = e + 1;
    }
    acc
}

/// Reads the seeds of the tile whose first output channel is `n_offset`: the bias of each
/// channel when the problem has one, zero otherwise and past the last channel.
pub fn init_bias_loader(p: &ConvolutionProblem, bias: &Vec<i64>, n_offset: usize, tile_n: usize) -> (l: BiasLoader)
    requires
        p.has_bias ==> bias@.len() == p.n,
    ensures
        l.values@.len() == tile_n,
        forall|j: int| 0 <= j < tile_n ==> l.values@[j] == bias_term(*p, bias@, n_offset + j),
{
    let mut values: Vec<i64> = Vec::new();
    let mut j: usize = 0;
    while j < tile_n
        invariant
            j <= tile_n,
            p.has_bias ==> bias@.len() == p.n,
            values@.len() == j,
            forall|i: int| 0 <= i < j ==> values@[i] == bias_term(*p, bias@, n_offset + i),
        decreases tile_n - j,
    {
        if p.has_bias && n_offset < p.n && j < p.n - n_offset {
            values.push(bias[n_offset + j]);
        } else {
            values.push(0);
        }
        j = j + 1;
    }
    BiasLoader { values }
}

/// Seeds every row of the accumulator with the loader's values, before any reduction.
pub fn fill_accumulator(loader: &BiasLoader, acc: &mut Vec<i64>)
    requires
        loader.values@.len() > 0,
    ensures
        final(acc)@.len() == old(acc)@.len(),
        forall|e: int|
            0 <= e < final(acc)@.len() ==> final(acc)@[e] == loader.values@[e % loader.values@.len() as int],
{
    let tn = loader.values.len();
    let len = acc.len();
    let mut e: usize = 0;
    while e < len
        invariant
            tn == loader.values@.len(),
            tn > 0,
            len == acc@.len(),
            e <= len,
            forall|i: int| 0 <= i < e ==> acc@[i] == loader.values@[i % tn as int],
        decreases len - e,
    {
        proof {
            lemma_mod_pos_bound(e as int, tn as int);
        }
        acc.set(e, loader.values[e % tn]);
        e = e + 1;
    }
}

/// What an accumulator holds once seeded from the bias loader of the tile whose first
/// output channel is `n_offset`, before any reduction: zero in every entry when the problem
/// has no bias, and otherwise the bias of each entry's channel, broadcast over the rows
/// (zero past the last channel).
pub proof fn lemma_seeded_accumulator(
    p: ConvolutionProblem,
    bias: Seq<i64>,
    n_offset: int,
    values: Seq<i64>,
    acc: Seq<i64>,
)
    requires
        values.len() > 0,
        forall|j: int| 0 <= j < values.len() ==> values[j] == bias_term(p, bias, n_offset + j),
        forall|e: int| 0 <= e < acc.len() ==> acc[e] == values[e % (values.len() as int)],
    ensures
        !p.has_bias ==> forall|e: int| 0 <= e < acc.len() ==> acc[e] == 0,
        p.has_bias ==> forall|e: int|
            0 <= e < acc.len() && 0 <= n_offset + e % (values.len() as int) < p.n ==> acc[e] == bias[n_offset
                + e % (values.len() as int)],
{
    assert forall|e: int| 0 <= e < acc.len() implies acc[e] == bias_term(
        p,
        bias,
        n_offset + e % (values.len() as int),
    ) by {
        lemma_mod_pos_bound(e, values.len() as int);
    }
}

/// Adds to each accumulator entry of the tile at `(x_offset, y_offset)` its products over
/// the reduction indices `k_lo <= c < k_hi`. Entry `e` stands for output row
/// `x_offset + e / tile_n` and channel `y_offset + e % tile_n`; entries past the problem's
/// rows or channels are left as they are.
pub fn accumulate(
    p: &ConvolutionProblem,
    s: &InputShape,
    input: &Vec<i64>,
    weight: &Vec<i64>,
    tile_n: usize,
    x_offset: usize,
    y_offset: usize,
    k_lo: usize,
    k_hi: usize,
    acc: &mut Vec<i64>,
)
    requires
        problem_matches(*p, *s),
        input@.len() == s.batch * s.height * s.width * s.channels,
        weight@.len() == p.n * p.k,
        bounded(input@),
        bounded(weight@),
        p.k <= MAX_REDUCTION,
        tile_n > 0,
        k_lo <= k_hi <= p.k,
        forall|e: int|
            0 <= e < old(acc)@.len() ==> -acc_bound(k_lo as int) <= #[trigger] old(acc)@[e] <= acc_bound(
                k_lo as int,
            ),
    ensures
        final(acc)@.len() == old(acc)@.len(),
        forall|e: int|
            0 <= e < final(acc)@.len() ==> #[trigger] final(acc)@[e] == if x_offset + e / (tile_n as int) < p.m
                && y_offset + e % (tile_n as int) < p.n {
                old(acc)@[e] + dot(
                    *p,
                    *s,
                    input@,
                    weight@,
                    x_offset + e / (tile_n as int),
                    y_offset + e % (tile_n as int),
                    k_lo as int,
                    k_hi as int,
                )
            } else {
                old(acc)@[e] as int
            },
        forall|e: int|
            0 <= e < final(acc)@.len() ==> -acc_bound(k_hi as int) <= #[trigger] final(acc)@[e]
                <= acc_bound(k_hi as int),
{
    let len = acc.len();
    let mut e: usize = 0;
    while e < len
        invariant
            problem_matches(*p, *s),
            input@.len() == s.batch * s.height * s.width * s.channels,
            weight@.len() == p.n * p.k,
            bounded(input@),
            bounded(weight@),
            p.k <= MAX_REDUCTION,
            tile_n > 0,
            k_lo <= k_hi <= p.k,
            len == acc@.len(),
            len == old(acc)@.len(),
            e <= len,
            forall|i: int| e <= i < len ==> acc@[i] == old(acc)@[i],
            forall|i: int|
                0 <= i < len ==> -acc_bound(k_lo as int) <= #[trigger] old(acc)@[i] <= acc_bound(
                    k_lo as int,
                ),
            forall|i: int|
                0 <= i < e ==> #[trigger] acc@[i] == if x_offset + i / (tile_n as int) < p.m
                    && y_offset + i % (tile_n as int) < p.n {
                    old(acc)@[i] + dot(
                        *p,
                        *s,
                        input@,
                        weight@,
                        x_offset + i / (tile_n as int),
                        y_offset + i % (tile_n as int),
                        k_lo as int,
                        k_hi as int,
                    )
                } else {
                    old(acc)@[i] as int
                },
            forall|i: int|
                0 <= i < e ==> -acc_bound(k_hi as int) <= #[trigger] acc@[i] <= acc_bound(
                    k_hi as int,
                ),
        decreases len - e,
    {
        let i = e / tile_n;
        let j = e % tile_n;
        proof {
            lemma_mod_pos_bound(e as int, tile_n as int);
            vstd::arithmetic::div_mod::lemma_div_pos_is_pos(e as int, tile_n as int);
        }
        if x_offset < p.m && i < p.m - x_offset && y_offset < p.n && j < p.n - y_offset {
            let r = x_offset + i;
            let o = y_offset + j;
            let mut sum: i64 = acc[e];
            let mut c: usize = k_lo;
            while c < k_hi
                invariant
                    problem_matches(*p, *s),
                    input@.len() == s.batch * s.height * s.width * s.channels,
                    weight@.len() == p.n * p.k,
                    bounded(input@),
                    bounded(weight@),
                    p.k <= MAX_REDUCTION,
                    k_lo <= c <= k_hi <= p.k,
                    r < p.m,
                    o < p.n,
                    sum == acc@[e as int] + dot(*p, *s, input@, weight@, r as int, o as int, k_lo as int, c as int),
                    -acc_bound(c as int) <= sum <= acc_bound(c as int),
                decreases k_hi - c,
            {
                let a = lhs_at(p, s, input, r, c);
                let b = rhs_at(p, weight, c, o);
                proof {
                    assert(-product_bound() <= a * b <= product_bound()) by (nonlinear_arith)
                        requires
                            -VALUE_BOUND <= a <= VALUE_BOUND,
                            -VALUE_BOUND <= b <= VALUE_BOUND,
                    ;
                    assert(acc_bound(c + 1) == acc_bound(c as int) + product_bound()) by (nonlinear_arith);
                    assert(acc_bound(c + 1) <= acc_bound(MAX_REDUCTION as int)) by (nonlinear_arith)
                        requires c + 1 <= MAX_REDUCTION;
                }
                sum = sum + a * b;
                c = c + 1;
            }
            acc.set(e, sum);
        } else {
            proof {
                assert(acc_bound(k_lo as int) <= acc_bound(k_hi as int)) by (nonlinear_arith)
                    requires k_lo <= k_hi;
            }
        }
        e = e + 1;
    }
}

/// Row-major coordinates are unique: `r * w + o` determines `r` and `o` when `o < w`.
pub proof fn lemma_flat_unique(r: int, o: int, w: int)
    requires
        0 <= o < w,
    ensures
        (r * w + o) / w == r,
        (r * w + o) % w == o,
{
    lemma_fundamental_div_mod_converse(r * w + o, w, r, o);
}

/// Writes the finished tile at `(x_offset, y_offset)` into the `[m, n]` output: each entry
/// of the tile that lies inside the output goes to its place; nothing else changes.
pub fn unload(p: &ConvolutionProblem, tile_n: usize, x_offset: usize, y_offset: usize, acc: &Vec<i64>, out: &mut Vec<i64>)
    requires
        tile_n > 0,
        (acc@.len() as int) % (tile_n as int) == 0,
        old(out)@.len() == p.m * p.n,
    ensures
        final(out)@.len() == old(out)@.len(),
        forall|r: int, o: int|
            0 <= r < p.m && 0 <= o < p.n ==> #[trigger] final(out)@[r * p.n + o] == if in_tile(
                x_offset as int,
                y_offset as int,
                (acc@.len() as int) / (tile_n as int),
                tile_n as int,
                r,
                o,
            ) {
                acc@[(r - x_offset) * tile_n + (o - y_offset)]
            } else {
                old(out)@[r * p.n + o]
            },
{
    let len = acc.len();
    let ghost tm: int = (len as int) / (tile_n as int);
    let ghost n = p.n as int;
    let ghost x = x_offset as int;
    let ghost y = y_offset as int;
    let ghost tn = tile_n as int;
    proof {
        lemma_fundamental_div_mod(len as int, tn);
    }
    let mut e: usize = 0;
    while e < len
        invariant
            tile_n > 0,
            len == acc@.len(),
            len == tm * tn,
            tn == tile_n,
            n == p.n,
            x == x_offset,
            y == y_offset,
            e <= len,
            out@.len() == p.m * p.n,
            out@.len() == old(out)@.len(),
            forall|r: int, o: int|
                0 <= r < p.m && 0 <= o < p.n ==> #[trigger] out@[r * n + o] == if in_tile(x, y, tm, tn, r, o)
                    && (r - x) * tn + (o - y) < e {
                    acc@[(r - x) * tn + (o - y)]
                } else {
                    old(out)@[r * n + o]
                },
        decreases len - e,
    {
        let i = e / tile_n;
        let j = e % tile_n;
        proof {
            lemma_mod_pos_bound(e as int, tn);
            vstd::arithmetic::div_mod::lemma_div_pos_is_pos(e as int, tn);
            lemma_fundamental_div_mod(e as int, tn);
        }
        let ghost prev = out@;
        if x_offset < p.m && i < p.m - x_offset && y_offset < p.n && j < p.n - y_offset {
            let r = x_offset + i;
            let o = y_offset + j;
            let out_len = out.len();
            proof {
                assert(e == i * tn + j) by (nonlinear_arith)
                    requires
                        e == tn * i + j,
                ;
                assert(i < tm) by (nonlinear_arith)
                    requires
                        e == i * tn + j,
                        e < tm * tn,
                        0 <= j < tn,
                ;
                assert(0 <= r * n + o < p.m * n) by (nonlinear_arith)
                    requires
                        0 <= r < p.m,
                        0 <= o < n,
                ;
                assert(r * n <= r * n + o);
            }
            out.set(r * p.n + o, acc[e]);
            proof {
                assert forall|r2: int, o2: int| 0 <= r2 < p.m && 0 <= o2 < p.n implies #[trigger] out@[r2 * n + o2]
                    == if in_tile(x, y, tm, tn, r2, o2) && (r2 - x) * tn + (o2 - y) < e + 1 {
                    acc@[(r2 - x) * tn + (o2 - y)]
                } else {
                    old(out)@[r2 * n + o2]
                } by {
                    assert(prev[r2 * n + o2] == if in_tile(x, y, tm, tn, r2, o2) && (r2 - x) * tn + (o2 - y) < e {
                        acc@[(r2 - x) * tn + (o2 - y)]
                    } else {
                        old(out)@[r2 * n + o2]
                    });
                    lemma_flat_unique(r2, o2, n);
                    lemma_flat_unique(r as int, o as int, n);
                    if in_tile(x, y, tm, tn, r2, o2) {
                        lemma_flat_unique(r2 - x, o2 - y, tn);
                    }
                    assert(0 <= r2 * n + o2 < p.m * n) by (nonlinear_arith)
                        requires
                            0 <= r2 < p.m,
                            0 <= o2 < n,
                    ;
                }
            }
        } else {
            proof {
                assert forall|r2: int, o2: int| 0 <= r2 < p.m && 0 <= o2 < p.n implies #[trigger] out@[r2 * n + o2]
                    == if in_tile(x, y, tm, tn, r2, o2) && (r2 - x) * tn + (o2 - y) < e + 1 {
                    acc@[(r2 - x) * tn + (o2 - y)]
                } else {
                    old(out)@[r2 * n + o2]
                } by {
                    assert(e == i * tn + j) by (nonlinear_arith)
                        requires
                            e == tn * i + j,
                    ;
                    if in_tile(x, y, tm, tn, r2, o2) {
                        lemma_flat_unique(r2 - x, o2 - y, tn);
                    }
                }
            }
        }
        e = e + 1;
    }
    proof {
        assert forall|r: int, o: int| 0 <= r < p.m && 0 <= o < p.n implies #[trigger] out@[r * p.n + o]
            == if in_tile(x, y, tm, tn, r, o) {
            acc@[(r - x) * tn + (o - y)]
        } else {
            old(out)@[r * p.n + o]
        } by {
            assert(out@[r * n + o] == out@[r * p.n + o]);
            if in_tile(x, y, tm, tn, r, o) {
                assert((r - x) * tn + (o - y) < tm * tn) by (nonlinear_arith)
                    requires
                        0 <= r - x < tm,
                        0 <= o - y < tn,
                ;
            }
        }
    }
}

} // verus!
