//! The refinement of a coded pair by trying neighbours at halving distances.

use vstd::prelude::*;

use crate::arith::{max_int, min_int};
use crate::sgr_search::error::{
    coded_error, lemma_error_nonnegative, pair_error, pair_fits, ProjArgs, ProjPlanes, ProjUnit,
};
use crate::sgr_search::{
    weight0, weight1, SgrParamsType, SGRPROJ_PRJ_MAX0, SGRPROJ_PRJ_MAX1, SGRPROJ_PRJ_MIN0, SGRPROJ_PRJ_MIN1,
};

verus! {

/// A coded pair and its error.
pub struct Probe {
    pub x0: int,
    pub x1: int,
    pub err: int,
}

impl Probe {
    /// One of the two coded weights.
    pub open spec fn at(self, p: int) -> int {
        if p == 0 {
            self.x0
        } else {
            self.x1
        }
    }

    /// One weight moved, with the error there.
    pub open spec fn moved(self, p: int, by: int, cost: spec_fn(int, int) -> int) -> Probe {
        let x0 = if p == 0 {
            self.x0 + by
        } else {
            self.x0
        };
        let x1 = if p == 0 {
            self.x1
        } else {
            self.x1 + by
        };
        Probe { x0, x1, err: cost(x0, x1) }
    }
}

/// Smallest value of a coded weight.
pub open spec fn tap_min(p: int) -> int {
    if p == 0 {
        SGRPROJ_PRJ_MIN0 as int
    } else {
        SGRPROJ_PRJ_MIN1 as int
    }
}

/// Largest value of a coded weight.
pub open spec fn tap_max(p: int) -> int {
    if p == 0 {
        SGRPROJ_PRJ_MAX0 as int
    } else {
        SGRPROJ_PRJ_MAX1 as int
    }
}

/// A move does not cross the end of the range it goes toward.
pub open spec fn allowed(p: int, x: int, by: int) -> bool {
    if by < 0 {
        tap_min(p) <= x + by
    } else {
        x + by <= tap_max(p)
    }
}

/// Moves one weight by `by` where that does not raise the error, and as long
/// as it does not where `again` is set. Also says whether any move was made.
pub open spec fn walk(cost: spec_fn(int, int) -> int, q: Probe, p: int, by: int, again: bool) -> (Probe, bool)
    decreases
            if by < 0 {
                q.at(p) - tap_min(p)
            } else {
                tap_max(p) - q.at(p)
            },
    when by != 0
{
    let t = q.moved(p, by, cost);
    if !allowed(p, q.at(p), by) || t.err > q.err {
        (q, false)
    } else if again {
        (walk(cost, t, p, by, again).0, true)
    } else {
        (t, true)
    }
}

/// Tries one weight at distance `s`: downward first, upward only where
/// nothing was gained. Also says whether going down was gainful.
pub open spec fn tried(cost: spec_fn(int, int) -> int, q: Probe, p: int, s: int, again: bool) -> (Probe, bool) {
    let down = walk(cost, q, p, -s, again);
    if down.1 {
        down
    } else {
        (walk(cost, q, p, s, again).0, false)
    }
}

/// Tries the weights of the running filters at distance `s`. A gain below
/// the first weight leaves out the second.
pub open spec fn round(
    cost: spec_fn(int, int) -> int,
    q: Probe,
    s: int,
    again: bool,
    params: SgrParamsType,
) -> Probe {
    let first = if params.r[0] == 0 {
        (q, false)
    } else {
        tried(cost, q, 0, s, again)
    };
    if first.1 || params.r[1] == 0 {
        first.0
    } else {
        tried(cost, first.0, 1, s, again).0
    }
}

/// The refinement at distances `s`, `s / 2`, .. down to one. Only at the
/// first distance a gainful move is repeated.
pub open spec fn refined(
    cost: spec_fn(int, int) -> int,
    q: Probe,
    s: int,
    start: int,
    params: SgrParamsType,
) -> Probe
    decreases s,
{
    if s < 1 {
        q
    } else {
        refined(cost, round(cost, q, s, s == start, params), s / 2, start, params)
    }
}

/// Two probes differ at most in one weight, which stayed in its range or
/// came closer to it, and the second is no worse.
pub open spec fn improves(cost: spec_fn(int, int) -> int, q: Probe, t: Probe) -> bool {
    &&& t.err <= q.err
    &&& q.err == cost(q.x0, q.x1) ==> t.err == cost(t.x0, t.x1)
    &&& forall|p: int| 0 <= p < 2 ==> min_int(q.at(p), tap_min(p)) <= #[trigger] t.at(p) <= max_int(q.at(p), tap_max(p))
}

proof fn lemma_improves_joins(cost: spec_fn(int, int) -> int, a: Probe, b: Probe, c: Probe)
    requires
        improves(cost, a, b),
        improves(cost, b, c),
    ensures
        improves(cost, a, c),
{
    assert forall|p: int| 0 <= p < 2 implies min_int(a.at(p), tap_min(p)) <= #[trigger] c.at(p) <= max_int(
        a.at(p),
        tap_max(p),
    ) by {
        let _ = b.at(p);
    }
}

proof fn lemma_walk(cost: spec_fn(int, int) -> int, q: Probe, p: int, by: int, again: bool)
    requires
        by != 0,
        p == 0 || p == 1,
    ensures
        improves(cost, q, walk(cost, q, p, by, again).0),
        walk(cost, q, p, by, again).0.at(1 - p) == q.at(1 - p),
        !walk(cost, q, p, by, again).1 ==> walk(cost, q, p, by, again).0 == q,
    decreases
            if by < 0 {
                q.at(p) - tap_min(p)
            } else {
                tap_max(p) - q.at(p)
            },
{
    let t = q.moved(p, by, cost);
    if allowed(p, q.at(p), by) && t.err <= q.err {
        assert(improves(cost, q, t)) by {
            assert forall|k: int| 0 <= k < 2 implies min_int(q.at(k), tap_min(k)) <= #[trigger] t.at(k) <= max_int(
                q.at(k),
                tap_max(k),
            ) by {}
        }
        if again {
            lemma_walk(cost, t, p, by, again);
            lemma_improves_joins(cost, q, t, walk(cost, t, p, by, again).0);
        }
    }
}

/// Refining never raises the error, reports the error of the pair it ends
/// at, keeps each weight inside the range spanned by its start and the coded
/// range, and leaves the weight of a filter that is off alone.
pub proof fn refinement_never_raises_the_error(
    cost: spec_fn(int, int) -> int,
    q: Probe,
    s: int,
    start: int,
    params: SgrParamsType,
)
    ensures
        improves(cost, q, refined(cost, q, s, start, params)),
        params.r[0] == 0 ==> refined(cost, q, s, start, params).x0 == q.x0,
        params.r[1] == 0 ==> refined(cost, q, s, start, params).x1 == q.x1,
    decreases s,
{
    if s >= 1 {
        let again = s == start;
        let first = if params.r[0] == 0 {
            (q, false)
        } else {
            tried(cost, q, 0, s, again)
        };
        if params.r[0] != 0 {
            lemma_walk(cost, q, 0, -s, again);
            lemma_walk(cost, q, 0, s, again);
        }
        assert(improves(cost, q, first.0));
        let next = round(cost, q, s, again, params);
        if !(first.1 || params.r[1] == 0) {
            lemma_walk(cost, first.0, 1, -s, again);
            lemma_walk(cost, first.0, 1, s, again);
            lemma_improves_joins(cost, q, first.0, next);
        }
        refinement_never_raises_the_error(cost, next, s / 2, start, params);
        lemma_improves_joins(cost, q, next, refined(cost, next, s / 2, start, params));
    }
}

/// A weight lies between its start and the coded range.
pub open spec fn reachable(x: int, p: int, from: int) -> bool {
    min_int(from, tap_min(p)) <= x <= max_int(from, tap_max(p))
}

/// The error of every pair that refining `x0, x1` can reach is computed
/// without overflow.
pub open spec fn all_fit(wide: bool, unit: ProjUnit, x0: int, x1: int, params: SgrParamsType) -> bool {
    forall|a: int, b: int|
        reachable(a, 0, x0) && reachable(b, 1, x1) ==> #[trigger] pair_fits(wide, unit, a, b, params)
}

/// The error as a function of the coded pair.
pub open spec fn cost_of(unit: ProjUnit, params: SgrParamsType) -> spec_fn(int, int) -> int {
    |a: int, b: int| pair_error(unit, a, b, params)
}

fn walk_weight(
    args: &ProjArgs,
    xqd: &mut [i32; 2],
    err: &mut i64,
    p: usize,
    by: i32,
    again: bool,
    params: &SgrParamsType,
    Ghost(from): Ghost<(int, int)>,
) -> (gained: bool)
    requires
        p < 2,
        by != 0,
        args.inside(*params),
        all_fit(args.wide(), args.unit(), from.0, from.1, *params),
        reachable(old(xqd)[0] as int, 0, from.0),
        reachable(old(xqd)[1] as int, 1, from.1),
        i32::MIN <= min_int(old(xqd)[p as int] as int, tap_min(p as int)) + by,
        max_int(old(xqd)[p as int] as int, tap_max(p as int)) + by <= i32::MAX,
    ensures
        (Probe { x0: final(xqd)[0] as int, x1: final(xqd)[1] as int, err: *final(err) as int }, gained) == walk(
            cost_of(args.unit(), *params),
            (Probe { x0: old(xqd)[0] as int, x1: old(xqd)[1] as int, err: *old(err) as int }),
            p as int,
            by as int,
            again,
        ),
        reachable(final(xqd)[0] as int, 0, from.0),
        reachable(final(xqd)[1] as int, 1, from.1),
        forall|k: int|
            0 <= k < 2 ==> min_int(old(xqd)[k] as int, tap_min(k)) <= #[trigger] final(xqd)[k] <= max_int(
                old(xqd)[k] as int,
                tap_max(k),
            ),
{
    let lo: i32 = if p == 0 {
        SGRPROJ_PRJ_MIN0
    } else {
        SGRPROJ_PRJ_MIN1
    };
    let hi: i32 = if p == 0 {
        SGRPROJ_PRJ_MAX0
    } else {
        SGRPROJ_PRJ_MAX1
    };
    let ghost cost = cost_of(args.unit(), *params);
    let ghost q0 = Probe { x0: xqd[0] as int, x1: xqd[1] as int, err: *err as int };
    let ghost goal = walk(cost, q0, p as int, by as int, again);
    let mut gained: bool = false;
    let mut more: bool = true;
    while more
        invariant
            p < 2,
            by != 0,
            lo == tap_min(p as int),
            hi == tap_max(p as int),
            args.inside(*params),
            all_fit(args.wide(), args.unit(), from.0, from.1, *params),
            reachable(xqd[0] as int, 0, from.0),
            reachable(xqd[1] as int, 1, from.1),
            forall|k: int| 0 <= k < 2 ==> min_int(q0.at(k), tap_min(k)) <= #[trigger] xqd[k] <= max_int(
                q0.at(k),
                tap_max(k),
            ),
            i32::MIN <= min_int(q0.at(p as int), tap_min(p as int)) + by,
            max_int(q0.at(p as int), tap_max(p as int)) + by <= i32::MAX,
            cost == cost_of(args.unit(), *params),
            goal == walk(cost, q0, p as int, by as int, again),
            !gained && more ==> (Probe { x0: xqd[0] as int, x1: xqd[1] as int, err: *err as int }) == q0,
            gained && more ==> again && goal.1,
            more ==> walk(
                cost,
                (Probe { x0: xqd[0] as int, x1: xqd[1] as int, err: *err as int }),
                p as int,
                by as int,
                again,
            ).0 == goal.0,
            !more ==> (Probe { x0: xqd[0] as int, x1: xqd[1] as int, err: *err as int }, gained) == goal,
        decreases
                if !more {
                    0
                } else if by < 0 {
                    1 + max_int(xqd[p as int] - tap_min(p as int), 0)
                } else {
                    1 + max_int(tap_max(p as int) - xqd[p as int], 0)
                },
    {
        let x: i32 = xqd[p];
        let ghost q = Probe { x0: xqd[0] as int, x1: xqd[1] as int, err: *err as int };
        let blocked: bool = if by < 0 {
            x + by < lo
        } else {
            x + by > hi
        };
        if blocked {
            more = false;
        } else {
            let mut moved: [i32; 2] = *xqd;
            moved[p] = x + by;
            proof {
                assert(pair_fits(args.wide(), args.unit(), moved[0] as int, moved[1] as int, *params));
                assert(cost(moved[0] as int, moved[1] as int) == args.error(
                    moved[0] as int,
                    moved[1] as int,
                    *params,
                ));
            }
            let e: i64 = coded_error(args, &moved, params);
            if e > *err {
                more = false;
            } else {
                *xqd = moved;
                *err = e;
                gained = true;
                more = again;
            }
        }
    }
    gained
}

fn refine_round(
    args: &ProjArgs,
    xqd: &mut [i32; 2],
    err: &mut i64,
    s: i32,
    again: bool,
    params: &SgrParamsType,
    Ghost(from): Ghost<(int, int)>,
)
    requires
        1 <= s <= i32::MAX - 96,
        args.inside(*params),
        all_fit(args.wide(), args.unit(), from.0, from.1, *params),
        reachable(old(xqd)[0] as int, 0, from.0),
        reachable(old(xqd)[1] as int, 1, from.1),
        params.r[0] != 0 ==> i32::MIN <= from.0 - s && from.0 + s <= i32::MAX,
        params.r[1] != 0 ==> i32::MIN <= from.1 - s && from.1 + s <= i32::MAX,
    ensures
        (Probe { x0: final(xqd)[0] as int, x1: final(xqd)[1] as int, err: *final(err) as int }) == round(
            cost_of(args.unit(), *params),
            (Probe { x0: old(xqd)[0] as int, x1: old(xqd)[1] as int, err: *old(err) as int }),
            s as int,
            again,
            *params,
        ),
        reachable(final(xqd)[0] as int, 0, from.0),
        reachable(final(xqd)[1] as int, 1, from.1),
{
    if params.r[0] != 0 {
        if walk_weight(args, xqd, err, 0, -s, again, params, Ghost(from)) {
            return;
        }
        walk_weight(args, xqd, err, 0, s, again, params, Ghost(from));
    }
    if params.r[1] != 0 {
        if walk_weight(args, xqd, err, 1, -s, again, params, Ghost(from)) {
            return;
        }
        walk_weight(args, xqd, err, 1, s, again, params, Ghost(from));
    }
}

/// Refines a coded pair in place, where asked for, and returns its error,
/// which is never negative.
pub fn refine_weights(args: &ProjArgs, start_step: i32, xqd: &mut [i32; 2], do_refine: bool, params: &SgrParamsType) -> (err:
    i64)
    requires
        args.inside(*params),
        args.fits(old(xqd)[0] as int, old(xqd)[1] as int, *params),
        do_refine && start_step >= 1 ==> refinable(
            args.wide(),
            args.unit(),
            start_step as int,
            old(xqd)[0] as int,
            old(xqd)[1] as int,
            *params,
        ),
    ensures
        (Probe { x0: final(xqd)[0] as int, x1: final(xqd)[1] as int, err: err as int }) == searched(
            args.unit(),
            start_step as int,
            old(xqd)[0] as int,
            old(xqd)[1] as int,
            do_refine,
            *params,
        ),
        0 <= err,
{
    let ghost cost = cost_of(args.unit(), *params);
    let mut err: i64 = coded_error(args, xqd, params);
    let ghost from = (xqd[0] as int, xqd[1] as int);
    let ghost q0 = Probe { x0: xqd[0] as int, x1: xqd[1] as int, err: err as int };
    let ghost goal = refined(cost, q0, start_step as int, start_step as int, *params);
    proof {
        assert(cost(from.0, from.1) == args.error(from.0, from.1, *params));
        refinement_never_raises_the_error(cost, q0, start_step as int, start_step as int, *params);
        lemma_error_nonnegative(
            args.unit(),
            weight0(goal.x0, *params),
            weight1(goal.x0, goal.x1, *params),
            *params,
        );
    }
    if !do_refine {
        return err;
    }
    let mut s: i32 = start_step;
    while s >= 1
        invariant
            s <= start_step,
            args.inside(*params),
            start_step >= 1 ==> refinable(args.wide(), args.unit(), start_step as int, from.0, from.1, *params),
            reachable(xqd[0] as int, 0, from.0),
            reachable(xqd[1] as int, 1, from.1),
            cost == cost_of(args.unit(), *params),
            goal == refined(
                cost,
                (Probe { x0: xqd[0] as int, x1: xqd[1] as int, err: err as int }),
                s as int,
                start_step as int,
                *params,
            ),
        decreases s,
    {
        refine_round(args, xqd, &mut err, s, s == start_step, params, Ghost(from));
        s = s / 2;
    }
    err
}

/// The refinement reaches only pairs whose error can be computed, by moves
/// that do not overflow.
pub open spec fn refinable(
    wide: bool,
    unit: ProjUnit,
    start_step: int,
    x0: int,
    x1: int,
    params: SgrParamsType,
) -> bool {
    &&& start_step <= i32::MAX - 96
    &&& all_fit(wide, unit, x0, x1, params)
    &&& params.r[0] != 0 ==> i32::MIN <= x0 - start_step && x0 + start_step <= i32::MAX
    &&& params.r[1] != 0 ==> i32::MIN <= x1 - start_step && x1 + start_step <= i32::MAX
}

/// A coded pair and its error, refined where asked for.
pub open spec fn searched(
    unit: ProjUnit,
    start_step: int,
    x0: int,
    x1: int,
    do_refine: bool,
    params: SgrParamsType,
) -> Probe {
    let q = Probe { x0, x1, err: pair_error(unit, x0, x1, params) };
    if do_refine {
        refined(cost_of(unit, params), q, start_step, start_step, params)
    } else {
        q
    }
}

/// Refines a coded pair in place, where asked for, and returns its error.
pub fn finer_search_pixel_proj_error<'a>(
    planes: &ProjPlanes<'a>,
    src_origin: usize,
    width: usize,
    height: usize,
    src_stride: usize,
    dat_origin: usize,
    dat_stride: usize,
    flt0: &'a [i32],
    flt0_stride: usize,
    flt1: &'a [i32],
    flt1_stride: usize,
    start_step: i32,
    xqd: &mut [i32; 2],
    do_refine: bool,
    params: &SgrParamsType,
) -> (err: i64)
    requires
        (ProjArgs {
            planes: *planes,
            src_origin,
            width,
            height,
            src_stride,
            dat_origin,
            dat_stride,
            flt0,
            flt0_stride,
            flt1,
            flt1_stride,
        }).inside(*params),
        (ProjArgs {
            planes: *planes,
            src_origin,
            width,
            height,
            src_stride,
            dat_origin,
            dat_stride,
            flt0,
            flt0_stride,
            flt1,
            flt1_stride,
        }).fits(old(xqd)[0] as int, old(xqd)[1] as int, *params),
        do_refine && start_step >= 1 ==> refinable(
            *planes is Highbd,
            (ProjArgs {
                planes: *planes,
                src_origin,
                width,
                height,
                src_stride,
                dat_origin,
                dat_stride,
                flt0,
                flt0_stride,
                flt1,
                flt1_stride,
            }).unit(),
            start_step as int,
            old(xqd)[0] as int,
            old(xqd)[1] as int,
            *params,
        ),
    ensures
        (Probe { x0: final(xqd)[0] as int, x1: final(xqd)[1] as int, err: err as int }) == searched(
            (ProjArgs {
                planes: *planes,
                src_origin,
                width,
                height,
                src_stride,
                dat_origin,
                dat_stride,
                flt0,
                flt0_stride,
                flt1,
                flt1_stride,
            }).unit(),
            start_step as int,
            old(xqd)[0] as int,
            old(xqd)[1] as int,
            do_refine,
            *params,
        ),
{
    let args: ProjArgs<'a> = ProjArgs {
        planes: *planes,
        src_origin,
        width,
        height,
        src_stride,
        dat_origin,
        dat_stride,
        flt0,
        flt0_stride,
        flt1,
        flt1_stride,
    };
    refine_weights(&args, start_step, xqd, do_refine, params)
}

} // verus!
