//! What restoring a unit means: weights blend the filtered samples in, and a
//! refinement takes every gain it tries.

use vstd::prelude::*;

use crate::arith::total;
use crate::sgr_search::error::{sample_error, squares, unit_error, ProjUnit};
use crate::sgr_search::refine::{round, walk, Probe};
use crate::sgr_search::{weight0, weight1, SgrParamsType};

verus! {

/// Without weights a unit is left as it is: its error is the squared
/// difference of its samples and the source.
pub proof fn no_weight_changes_nothing(unit: ProjUnit, params: SgrParamsType, n: int)
    requires
        0 <= n <= unit.src.len(),
    ensures
        total(squares(unit, 0, 0, params), n) == total(
            |i: int| (unit.dat[i] - unit.src[i]) * (unit.dat[i] - unit.src[i]),
            n,
        ),
        unit_error(unit, 0, 0, params) == total(squares(unit, 0, 0, params), unit.src.len() as int),
    decreases n,
{
    if n > 0 {
        no_weight_changes_nothing(unit, params, n - 1);
        let i = n - 1;
        assert(0 * (unit.flt0[i] - 16 * unit.dat[i]) == 0 && 0 * (unit.flt1[i] - 16 * unit.dat[i]) == 0);
    }
}

/// The full weight of a filter that runs, 128, takes its sample in place of the
/// unit's: the filtered sample has four fraction bits, rounded to the nearest.
/// A filter whose sample is the unit's own changes nothing at any weight.
pub proof fn full_weight_takes_the_filtered_sample(s: int, d: int, f: int, w: int, params: SgrParamsType)
    ensures
        params.first() ==> sample_error(s, d, f, 16 * d, 128, w, params) == (f + 8) / 16 - s,
        params.second() ==> sample_error(s, d, 16 * d, f, w, 128, params) == (f + 8) / 16 - s,
        sample_error(s, d, 16 * d, 16 * d, w, w, params) == d - s,
{
    assert(w * (16 * d - 16 * d) == 0) by (nonlinear_arith);
}

/// Weights blend: what both filters add is what each adds, and half a weight
/// adds half as much, each to within rounding.
pub proof fn weights_add_up(d: int, f0: int, f1: int, w0: int, w1: int, params: SgrParamsType)
    requires
        params.first(),
        params.second(),
    ensures
        ({
            let both = sample_error(0, d, f0, f1, w0, w1, params) - d;
            let first = sample_error(0, d, f0, f1, w0, 0, params) - d;
            let second = sample_error(0, d, f0, f1, 0, w1, params) - d;
            &&& -1 <= both - first - second <= 1
            &&& -1024 <= 2048 * both - (w0 * (f0 - 16 * d) + w1 * (f1 - 16 * d)) <= 1024
        }),
{
    assert(0 * (f0 - 16 * d) == 0 && 0 * (f1 - 16 * d) == 0);
}

/// The weights of a coded pair: the first is coded as it is, and what it, the
/// second and the second coded value make together is one, that is 128. A
/// filter that does not run has no weight.
pub proof fn coded_weights_make_one(x0: int, x1: int, params: SgrParamsType)
    requires
        params.wf(),
    ensures
        params.first() && params.second() ==> weight0(x0, params) == x0 && x0 + x1 + weight1(x0, x1, params) == 128,
        params.first() && !params.second() ==> weight0(x0, params) == x0 && weight1(x0, x1, params) == 0,
        !params.first() ==> weight0(x0, params) == 0 && x1 + weight1(x0, x1, params) == 128,
{
}

proof fn lemma_walk_gains(cost: spec_fn(int, int) -> int, q: Probe, p: int, by: int, again: bool)
    requires
        by != 0,
        p == 0 || p == 1,
    ensures
        ({
            let t = walk(cost, q, p, by, again);
            let m = q.moved(p, by, cost);
            let may = if by < 0 {
                (if p == 0 {
                    -96int
                } else {
                    -32
                }) <= q.at(p) + by
            } else {
                q.at(p) + by <= (if p == 0 {
                    31int
                } else {
                    95
                })
            };
            &&& t.1 <==> may && m.err <= q.err
            &&& t.0.err <= q.err
            &&& t.1 ==> t.0.err <= m.err
            &&& !t.1 ==> t.0 == q
        }),
    decreases
            if by < 0 {
                q.at(p) + 96
            } else {
                95 - q.at(p)
            },
{
    let m = q.moved(p, by, cost);
    let may = if by < 0 {
        (if p == 0 {
            -96int
        } else {
            -32
        }) <= q.at(p) + by
    } else {
        q.at(p) + by <= (if p == 0 {
            31int
        } else {
            95
        })
    };
    if may && m.err <= q.err && again {
        lemma_walk_gains(cost, m, p, by, again);
    }
}

/// A round of refinement at a distance takes the gains it tries: where the
/// first filter runs, it ends no worse than with its weight lowered by that
/// distance, and, where lowering it does not pay, no worse than with it
/// raised; where neither pays, the same holds of the second filter. Weights
/// are lowered to no less than -96 and -32, and raised to no more than 31 and
/// 95. A move that does not raise the error pays.
pub proof fn rounds_take_every_gain(
    cost: spec_fn(int, int) -> int,
    q: Probe,
    s: int,
    again: bool,
    params: SgrParamsType,
)
    requires
        s > 0,
        params.wf(),
    ensures
        ({
            let t = round(cost, q, s, again, params);
            let down0 = params.first() && -96 <= q.x0 - s && cost(q.x0 - s, q.x1) <= q.err;
            let up0 = params.first() && q.x0 + s <= 31 && cost(q.x0 + s, q.x1) <= q.err;
            let down1 = params.second() && -32 <= q.x1 - s && cost(q.x0, q.x1 - s) <= q.err;
            let up1 = params.second() && q.x1 + s <= 95 && cost(q.x0, q.x1 + s) <= q.err;
            &&& t.err <= q.err
            &&& down0 ==> t.err <= cost(q.x0 - s, q.x1)
            &&& !down0 && up0 ==> t.err <= cost(q.x0 + s, q.x1)
            &&& !down0 && !up0 && down1 ==> t.err <= cost(q.x0, q.x1 - s)
            &&& !down0 && !up0 && !down1 && up1 ==> t.err <= cost(q.x0, q.x1 + s)
            &&& !down0 && !up0 && !down1 && !up1 ==> t == q
        }),
{
    lemma_walk_gains(cost, q, 0, -s, again);
    lemma_walk_gains(cost, q, 0, s, again);
    let first = walk(cost, q, 0, s, again).0;
    lemma_walk_gains(cost, first, 1, -s, again);
    lemma_walk_gains(cost, first, 1, s, again);
    lemma_walk_gains(cost, q, 1, -s, again);
    lemma_walk_gains(cost, q, 1, s, again);
}

} // verus!
