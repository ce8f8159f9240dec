//! The requests of a searched block part it: they lie in it, apart from each
//! other, and together they fill it.

use vstd::prelude::*;

use crate::temporal_filtering::blocks::{quarter_requests, quarters, request, requests, FineMotion, TfPredictionRequest};
use crate::temporal_filtering::kernels::{is_split, TfKernelCtx};
use crate::tf_driver::ladder::{block_requests, fine_motion, kernel_view, searched_requests, TfSearchState};

verus! {

/// A request lies on the grid of 8x8 blocks of its 64x64 block.
pub open spec fn request_fits(r: TfPredictionRequest) -> bool {
    &&& r.bsize == 8 || r.bsize == 16 || r.bsize == 32 || r.bsize == 64
    &&& r.local_origin_x as int % 8 == 0
    &&& r.local_origin_y as int % 8 == 0
    &&& r.local_origin_x + r.bsize <= 64
    &&& r.local_origin_y + r.bsize <= 64
    &&& r.mi_size == r.bsize as int / 4
}

/// The request predicts sample `(x, y)` of the block.
pub open spec fn holds_sample(r: TfPredictionRequest, x: int, y: int) -> bool {
    &&& r.local_origin_x <= x < r.local_origin_x + r.bsize
    &&& r.local_origin_y <= y < r.local_origin_y + r.bsize
}

/// No sample is predicted by both requests.
pub open spec fn apart(a: TfPredictionRequest, b: TfPredictionRequest) -> bool {
    ||| a.local_origin_x + a.bsize <= b.local_origin_x
    ||| b.local_origin_x + b.bsize <= a.local_origin_x
    ||| a.local_origin_y + a.bsize <= b.local_origin_y
    ||| b.local_origin_y + b.bsize <= a.local_origin_y
}

/// Every request lies in its block, apart from the others.
pub open spec fn tiles(reqs: Seq<TfPredictionRequest>) -> bool {
    &&& forall|i: int| 0 <= i < reqs.len() ==> request_fits(#[trigger] reqs[i])
    &&& forall|i: int, j: int| 0 <= i < j < reqs.len() ==> apart(#[trigger] reqs[i], #[trigger] reqs[j])
}

/// One of the requests predicts sample `(x, y)`.
pub open spec fn filled(reqs: Seq<TfPredictionRequest>, x: int, y: int) -> bool {
    exists|i: int| 0 <= i < reqs.len() && holds_sample(#[trigger] reqs[i], x, y)
}

/// Which of the four squares of side `w` of a square of twice that side
/// sample `(x, y)` lies in.
spec fn square(x: int, y: int, w: int) -> int {
    (x / w) % 2 + 2 * ((y / w) % 2)
}

/// Every request lies in a square of side `w` that is at least `from` and
/// below `to`.
spec fn in_squares(reqs: Seq<TfPredictionRequest>, w: int, from: int, to: int) -> bool {
    forall|i: int|
        0 <= i < reqs.len() ==> {
            let r = #[trigger] reqs[i];
            &&& r.local_origin_x as int % w + r.bsize <= w
            &&& r.local_origin_y as int % w + r.bsize <= w
            &&& from <= square(r.local_origin_x as int, r.local_origin_y as int, w) < to
        }
}

proof fn lemma_join(a: Seq<TfPredictionRequest>, b: Seq<TfPredictionRequest>, w: int, n: int)
    requires
        w == 16 || w == 32,
        tiles(a),
        tiles(b),
        in_squares(a, w, 0, n),
        in_squares(b, w, n, n + 1),
    ensures
        tiles(a + b),
        in_squares(a + b, w, 0, n + 1),
        forall|x: int, y: int| filled(a, x, y) ==> #[trigger] filled(a + b, x, y),
        forall|x: int, y: int| filled(b, x, y) ==> #[trigger] filled(a + b, x, y),
{
    let c = a + b;
    assert forall|i: int| 0 <= i < c.len() implies c[i] == if i < a.len() {
        a[i]
    } else {
        b[i - a.len()]
    } by {}
    assert forall|i: int, j: int| 0 <= i < j < c.len() implies apart(#[trigger] c[i], #[trigger] c[j]) by {
        if i < a.len() && a.len() <= j {
            let (p, q) = (a[i], b[j - a.len()]);
            assert(square(p.local_origin_x as int, p.local_origin_y as int, w) < n);
            assert(square(q.local_origin_x as int, q.local_origin_y as int, w) == n);
            assert(request_fits(p) && request_fits(q));
        }
    }
    assert forall|x: int, y: int| filled(a, x, y) implies #[trigger] filled(c, x, y) by {
        let i = choose|i: int| 0 <= i < a.len() && holds_sample(#[trigger] a[i], x, y);
        assert(holds_sample(c[i], x, y));
    }
    assert forall|x: int, y: int| filled(b, x, y) implies #[trigger] filled(c, x, y) by {
        let i = choose|i: int| 0 <= i < b.len() && holds_sample(#[trigger] b[i], x, y);
        assert(holds_sample(c[i + a.len()], x, y));
    }
}

/// The request is of side `w` at `(x, y)`.
spec fn laid_at(r: TfPredictionRequest, x: int, y: int, w: int) -> bool {
    r.bsize == w && r.local_origin_x == x && r.local_origin_y == y && r.mi_size == w / 4
}

/// Where quarter `i` of 32x32 block `idx` starts in the 64x64 block.
spec fn corner(idx: int, i: int) -> (int, int) {
    (32 * (idx % 2) + 16 * (i % 2), 32 * (idx / 2) + 16 * (i / 2))
}

proof fn lemma_shape(ctx: TfKernelCtx, fine: FineMotion, idx: int, i: int, sb_x: int, sb_y: int)
    requires
        0 <= idx < 4,
        0 <= i < 4,
    ensures
        ({
            let reqs = quarter_requests(ctx, fine, idx, i, sb_x, sb_y);
            let (ox, oy) = corner(idx, i);
            if fine.split[idx][i] != 0 {
                &&& reqs.len() == 4
                &&& laid_at(reqs[0], ox, oy, 8)
                &&& laid_at(reqs[1], ox + 8, oy, 8)
                &&& laid_at(reqs[2], ox, oy + 8, 8)
                &&& laid_at(reqs[3], ox + 8, oy + 8, 8)
            } else {
                reqs.len() == 1 && laid_at(reqs[0], ox, oy, 16)
            }
        }),
{
}

proof fn lemma_square(idx: int, i: int, dx: int, dy: int)
    requires
        0 <= idx < 4,
        0 <= i < 4,
        0 <= dx < 16,
        0 <= dy < 16,
    ensures
        ({
            let (ox, oy) = corner(idx, i);
            &&& 0 <= ox <= 48 && 0 <= oy <= 48
            &&& (ox + dx) % 16 == dx && (oy + dy) % 16 == dy
            &&& (ox + dx) % 32 == 16 * (i % 2) + dx && (oy + dy) % 32 == 16 * (i / 2) + dy
            &&& square(ox + dx, oy + dy, 16) == i
            &&& square(ox + dx, oy + dy, 32) == idx
        }),
{
}

proof fn lemma_corner(x: int, y: int)
    requires
        0 <= x < 64,
        0 <= y < 64,
    ensures
        ({
            let (ox, oy) = corner(square(x, y, 32), square(x, y, 16));
            ox <= x < ox + 16 && oy <= y < oy + 16
        }),
{
}

proof fn lemma_quarter(ctx: TfKernelCtx, fine: FineMotion, idx: int, i: int, sb_x: int, sb_y: int)
    requires
        0 <= idx < 4,
        0 <= i < 4,
    ensures
        ({
            let reqs = quarter_requests(ctx, fine, idx, i, sb_x, sb_y);
            &&& tiles(reqs)
            &&& in_squares(reqs, 16, i, i + 1)
            &&& in_squares(reqs, 32, idx, idx + 1)
            &&& forall|x: int, y: int|
                0 <= x < 64 && 0 <= y < 64 && square(x, y, 32) == idx && square(x, y, 16) == i ==> #[trigger] filled(
                    reqs,
                    x,
                    y,
                )
        }),
{
    let reqs = quarter_requests(ctx, fine, idx, i, sb_x, sb_y);
    let (ox, oy) = corner(idx, i);
    lemma_shape(ctx, fine, idx, i, sb_x, sb_y);
    lemma_square(idx, i, 0, 0);
    lemma_square(idx, i, 8, 0);
    lemma_square(idx, i, 0, 8);
    lemma_square(idx, i, 8, 8);
    assert(0 <= i % 2 <= 1 && 0 <= i / 2 <= 1);
    assert(ox % 8 == 0 && oy % 8 == 0);
    assert forall|x: int, y: int|
        0 <= x < 64 && 0 <= y < 64 && square(x, y, 32) == idx && square(x, y, 16) == i implies #[trigger] filled(
        reqs,
        x,
        y,
    ) by {
        lemma_corner(x, y);
        if fine.split[idx][i] != 0 {
            if y < oy + 8 {
                assert(holds_sample(reqs[0], x, y) || holds_sample(reqs[1], x, y));
            } else {
                assert(holds_sample(reqs[2], x, y) || holds_sample(reqs[3], x, y));
            }
        } else {
            assert(holds_sample(reqs[0], x, y));
        }
    }
}

proof fn lemma_quarters(ctx: TfKernelCtx, fine: FineMotion, idx: int, n: int, sb_x: int, sb_y: int)
    requires
        0 <= idx < 4,
        0 <= n <= 4,
    ensures
        ({
            let reqs = quarters(ctx, fine, idx, n, sb_x, sb_y);
            &&& tiles(reqs)
            &&& in_squares(reqs, 16, 0, n)
            &&& in_squares(reqs, 32, idx, idx + 1)
            &&& forall|x: int, y: int|
                0 <= x < 64 && 0 <= y < 64 && square(x, y, 32) == idx && square(x, y, 16) < n ==> #[trigger] filled(
                    reqs,
                    x,
                    y,
                )
        }),
    decreases n,
{
    if n > 0 {
        lemma_quarters(ctx, fine, idx, n - 1, sb_x, sb_y);
        lemma_quarter(ctx, fine, idx, n - 1, sb_x, sb_y);
        let a = quarters(ctx, fine, idx, n - 1, sb_x, sb_y);
        let b = quarter_requests(ctx, fine, idx, n - 1, sb_x, sb_y);
        lemma_join(a, b, 16, n - 1);
        assert forall|x: int, y: int|
            0 <= x < 64 && 0 <= y < 64 && square(x, y, 32) == idx && square(x, y, 16) < n implies #[trigger] filled(
            a + b,
            x,
            y,
        ) by {
            if square(x, y, 16) < n - 1 {
                assert(filled(a, x, y));
            } else {
                assert(filled(b, x, y));
            }
        }
    }
}

proof fn lemma_block(ctx: TfKernelCtx, fine: FineMotion, idx: int, sb_x: int, sb_y: int)
    requires
        0 <= idx < 4,
    ensures
        ({
            let reqs = requests(ctx, fine, idx, sb_x, sb_y);
            &&& tiles(reqs)
            &&& in_squares(reqs, 32, idx, idx + 1)
            &&& forall|x: int, y: int|
                0 <= x < 64 && 0 <= y < 64 && square(x, y, 32) == idx ==> #[trigger] filled(reqs, x, y)
        }),
{
    let reqs = requests(ctx, fine, idx, sb_x, sb_y);
    if is_split(ctx, idx) {
        lemma_quarters(ctx, fine, idx, 4, sb_x, sb_y);
    } else {
        let r = reqs[0];
        assert(r.bsize == 32 && r.local_origin_x == 32 * (idx % 2) && r.local_origin_y == 32 * (idx / 2));
        assert forall|x: int, y: int|
            0 <= x < 64 && 0 <= y < 64 && square(x, y, 32) == idx implies #[trigger] filled(reqs, x, y) by {
            assert(holds_sample(reqs[0], x, y));
        }
    }
}

proof fn lemma_blocks(s: TfSearchState, n: int, sb_x: int, sb_y: int)
    requires
        0 <= n <= 4,
    ensures
        ({
            let reqs = block_requests(s, n, sb_x, sb_y);
            &&& tiles(reqs)
            &&& in_squares(reqs, 32, 0, n)
            &&& forall|x: int, y: int|
                0 <= x < 64 && 0 <= y < 64 && square(x, y, 32) < n ==> #[trigger] filled(reqs, x, y)
        }),
    decreases n,
{
    if n > 0 {
        let ctx = kernel_view(s, 0, 0, 0, false, [0u32, 0u32, 0u32]);
        lemma_blocks(s, n - 1, sb_x, sb_y);
        lemma_block(ctx, fine_motion(s), n - 1, sb_x, sb_y);
        let a = block_requests(s, n - 1, sb_x, sb_y);
        let b = requests(ctx, fine_motion(s), n - 1, sb_x, sb_y);
        lemma_join(a, b, 32, n - 1);
        assert forall|x: int, y: int| 0 <= x < 64 && 0 <= y < 64 && square(x, y, 32) < n implies #[trigger] filled(
            a + b,
            x,
            y,
        ) by {
            if square(x, y, 32) < n - 1 {
                assert(filled(a, x, y));
            } else {
                assert(filled(b, x, y));
            }
        }
    }
}

/// However a block is split, its predictions lie in it, none of its samples
/// is predicted twice, and every one is predicted.
pub proof fn requests_part_the_block(s: TfSearchState, whole: bool, sb_x: int, sb_y: int)
    ensures
        tiles(searched_requests(s, whole, sb_x, sb_y)),
        forall|x: int, y: int|
            0 <= x < 64 && 0 <= y < 64 ==> #[trigger] filled(searched_requests(s, whole, sb_x, sb_y), x, y),
{
    let reqs = searched_requests(s, whole, sb_x, sb_y);
    if whole {
        assert(reqs[0] == request(64, 0, 0, s.mv_64x64_x, s.mv_64x64_y, sb_x, sb_y));
        assert forall|x: int, y: int| 0 <= x < 64 && 0 <= y < 64 implies #[trigger] filled(reqs, x, y) by {
            assert(holds_sample(reqs[0], x, y));
        }
    } else {
        lemma_blocks(s, 4, sb_x, sb_y);
        assert forall|x: int, y: int| 0 <= x < 64 && 0 <= y < 64 implies #[trigger] filled(reqs, x, y) by {
            assert(square(x, y, 32) < 4);
        }
    }
}

} // verus!
