use vstd::prelude::*;
use crate::channel::{is_channel_plane, is_partial_sum, is_term};
use crate::layout::{full_rank, lemma_row_major_of_position, row_major};
use crate::sample::ZERO;

verus! {

/// Whether every result of the executable operation `op` is the value of
/// `value` on the same operands.
pub open spec fn computes<F: Fn(u32, u32) -> u32>(op: F, value: spec_fn(u32, u32) -> u32) -> bool {
    forall|a: u32, b: u32, r: u32| #[trigger] op.ensures((a, b), r) ==> r == value(a, b)
}

/// The product of `a`, `b` and `c`, taken from left to right.
pub open spec fn term(times: spec_fn(u32, u32) -> u32, a: u32, b: u32, c: u32) -> u32 {
    times(times(a, b), c)
}

/// The sum, from `ZERO` and in rising order of `t`, of the first `terms`
/// terms `U[i][t] * S[t] * Vt[t][j]`.
pub open spec fn partial_sum(
    times: spec_fn(u32, u32) -> u32,
    plus: spec_fn(u32, u32) -> u32,
    u: Seq<u32>,
    s: Seq<u32>,
    vt: Seq<u32>,
    width: int,
    stride: int,
    i: int,
    j: int,
    terms: nat,
) -> u32
    decreases terms,
{
    if terms == 0 {
        ZERO
    } else {
        let t = terms - 1;
        plus(
            partial_sum(times, plus, u, s, vt, width, stride, i, j, t as nat),
            term(times, u[row_major(stride, i, t)], s[t], vt[row_major(width, t, j)]),
        )
    }
}

/// The `width` by `height` channel rebuilt at rank `rank`, as a row-major
/// plane.
pub open spec fn channel_plane(
    times: spec_fn(u32, u32) -> u32,
    plus: spec_fn(u32, u32) -> u32,
    u: Seq<u32>,
    s: Seq<u32>,
    vt: Seq<u32>,
    width: int,
    height: int,
    rank: nat,
) -> Seq<u32> {
    Seq::new(
        (width * height) as nat,
        |k: int|
            partial_sum(
                times,
                plus,
                u,
                s,
                vt,
                width,
                full_rank(width, height),
                k / width,
                k % width,
                rank,
            ),
    )
}

/// With operations that compute functions, a partial sum is the value of
/// the sum under those functions.
pub proof fn lemma_partial_sum_is_determined<M: Fn(u32, u32) -> u32, A: Fn(u32, u32) -> u32>(
    times: M,
    plus: A,
    times_value: spec_fn(u32, u32) -> u32,
    plus_value: spec_fn(u32, u32) -> u32,
    u: Seq<u32>,
    s: Seq<u32>,
    vt: Seq<u32>,
    width: int,
    stride: int,
    i: int,
    j: int,
    terms: nat,
    acc: u32,
)
    requires
        computes(times, times_value),
        computes(plus, plus_value),
        is_partial_sum(times, plus, u, s, vt, width, stride, i, j, terms, acc),
    ensures
        acc == partial_sum(times_value, plus_value, u, s, vt, width, stride, i, j, terms),
    decreases terms,
{
    if terms > 0 {
        let t = terms - 1;
        let a = u[row_major(stride, i, t)];
        let b = s[t];
        let c = vt[row_major(width, t, j)];
        let (prev, p) = choose|prev: u32, p: u32|
            is_partial_sum(times, plus, u, s, vt, width, stride, i, j, t as nat, prev) && is_term(
                times,
                a,
                b,
                c,
                p,
            ) && #[trigger] plus.ensures((prev, p), acc);
        lemma_partial_sum_is_determined(
            times,
            plus,
            times_value,
            plus_value,
            u,
            s,
            vt,
            width,
            stride,
            i,
            j,
            t as nat,
            prev,
        );
        let q = choose|q: u32| #[trigger] times.ensures((a, b), q) && times.ensures((q, c), p);
        assert(p == term(times_value, a, b, c));
    }
}

/// With operations that compute functions, the plane that
/// `reconstruct_channel` returns is determined by its arguments: it is
/// `channel_plane` under those functions.
pub proof fn lemma_channel_plane_is_determined<M: Fn(u32, u32) -> u32, A: Fn(u32, u32) -> u32>(
    times: M,
    plus: A,
    times_value: spec_fn(u32, u32) -> u32,
    plus_value: spec_fn(u32, u32) -> u32,
    u: Seq<u32>,
    s: Seq<u32>,
    vt: Seq<u32>,
    width: int,
    height: int,
    rank: nat,
    plane: Seq<u32>,
)
    requires
        0 <= width,
        0 <= height,
        computes(times, times_value),
        computes(plus, plus_value),
        is_channel_plane(times, plus, u, s, vt, width, height, rank, plane),
    ensures
        plane == channel_plane(times_value, plus_value, u, s, vt, width, height, rank),
{
    let expected = channel_plane(times_value, plus_value, u, s, vt, width, height, rank);
    assert(0 <= width * height) by (nonlinear_arith)
        requires
            0 <= width,
            0 <= height,
    ;
    assert(width * height == height * width) by (nonlinear_arith);
    assert forall|k: int| 0 <= k < plane.len() implies plane[k] == expected[k] by {
        lemma_row_major_of_position(width, height, k);
        let i = k / width;
        let j = k % width;
        assert(plane[row_major(width, i, j)] == plane[k]);
        lemma_partial_sum_is_determined(
            times,
            plus,
            times_value,
            plus_value,
            u,
            s,
            vt,
            width,
            full_rank(width, height),
            i,
            j,
            rank,
            plane[k],
        );
    }
    assert(plane =~= expected);
}

/// Whether multiplying by `c` fixes `ZERO`, distributes over `plus` and can
/// be moved out of the middle factor of a term, as it does in exact
/// arithmetic.
pub open spec fn scales_through(
    times: spec_fn(u32, u32) -> u32,
    plus: spec_fn(u32, u32) -> u32,
    c: u32,
) -> bool {
    &&& times(c, ZERO) == ZERO
    &&& forall|a: u32, b: u32| #[trigger] times(c, plus(a, b)) == plus(times(c, a), times(c, b))
    &&& forall|a: u32, b: u32, d: u32| #[trigger]
        term(times, a, times(c, b), d) == times(c, term(times, a, b, d))
}

/// Scaling the first `terms` singular values by `c` scales a partial sum of
/// `terms` terms by `c`.
pub proof fn lemma_partial_sum_scales(
    times: spec_fn(u32, u32) -> u32,
    plus: spec_fn(u32, u32) -> u32,
    c: u32,
    u: Seq<u32>,
    s: Seq<u32>,
    scaled: Seq<u32>,
    vt: Seq<u32>,
    width: int,
    stride: int,
    i: int,
    j: int,
    terms: nat,
)
    requires
        scales_through(times, plus, c),
        forall|t: int| 0 <= t < terms ==> #[trigger] scaled[t] == times(c, s[t]),
    ensures
        partial_sum(times, plus, u, scaled, vt, width, stride, i, j, terms) == times(
            c,
            partial_sum(times, plus, u, s, vt, width, stride, i, j, terms),
        ),
    decreases terms,
{
    if terms > 0 {
        let t = terms - 1;
        lemma_partial_sum_scales(times, plus, c, u, s, scaled, vt, width, stride, i, j, t as nat);
        let a = u[row_major(stride, i, t)];
        let d = vt[row_major(width, t, j)];
        let before = partial_sum(times, plus, u, s, vt, width, stride, i, j, t as nat);
        assert(scaled[t] == times(c, s[t]));
        assert(term(times, a, times(c, s[t]), d) == times(c, term(times, a, s[t], d)));
        assert(times(c, plus(before, term(times, a, s[t], d))) == plus(
            times(c, before),
            times(c, term(times, a, s[t], d)),
        ));
    }
}

/// Scaling the first `rank` singular values by `c` scales every sample of
/// `channel_plane` by `c`.
pub proof fn lemma_channel_plane_scales(
    times: spec_fn(u32, u32) -> u32,
    plus: spec_fn(u32, u32) -> u32,
    c: u32,
    u: Seq<u32>,
    s: Seq<u32>,
    scaled: Seq<u32>,
    vt: Seq<u32>,
    width: int,
    height: int,
    rank: nat,
)
    requires
        scales_through(times, plus, c),
        forall|t: int| 0 <= t < rank ==> #[trigger] scaled[t] == times(c, s[t]),
    ensures
        channel_plane(times, plus, u, scaled, vt, width, height, rank).len() == channel_plane(
            times,
            plus,
            u,
            s,
            vt,
            width,
            height,
            rank,
        ).len(),
        forall|k: int|
            0 <= k < width * height ==> #[trigger] channel_plane(
                times,
                plus,
                u,
                scaled,
                vt,
                width,
                height,
                rank,
            )[k] == times(c, channel_plane(times, plus, u, s, vt, width, height, rank)[k]),
{
    assert forall|k: int| 0 <= k < width * height implies #[trigger] channel_plane(
        times,
        plus,
        u,
        scaled,
        vt,
        width,
        height,
        rank,
    )[k] == times(c, channel_plane(times, plus, u, s, vt, width, height, rank)[k]) by {
        lemma_partial_sum_scales(
            times,
            plus,
            c,
            u,
            s,
            scaled,
            vt,
            width,
            full_rank(width, height),
            k / width,
            k % width,
            rank,
        );
    }
}

/// Linearity in the singular values: of two planes that
/// `reconstruct_channel` returns for the same `u`, `vt`, size and rank, the
/// second for singular values that are `c` times those of the first, every
/// sample of the second is `c` times the sample of the first.
///
/// This holds of operations that compute functions through which scaling by
/// `c` passes exactly (`scales_through`); where products and sums round, it
/// holds only up to that rounding.
pub proof fn lemma_scaled_singular_values_scale_plane<
    M: Fn(u32, u32) -> u32,
    A: Fn(u32, u32) -> u32,
>(
    times: M,
    plus: A,
    times_value: spec_fn(u32, u32) -> u32,
    plus_value: spec_fn(u32, u32) -> u32,
    c: u32,
    u: Seq<u32>,
    s: Seq<u32>,
    scaled: Seq<u32>,
    vt: Seq<u32>,
    width: int,
    height: int,
    rank: nat,
    plane: Seq<u32>,
    scaled_plane: Seq<u32>,
)
    requires
        0 <= width,
        0 <= height,
        computes(times, times_value),
        computes(plus, plus_value),
        scales_through(times_value, plus_value, c),
        forall|t: int| 0 <= t < rank ==> #[trigger] scaled[t] == times_value(c, s[t]),
        is_channel_plane(times, plus, u, s, vt, width, height, rank, plane),
        is_channel_plane(times, plus, u, scaled, vt, width, height, rank, scaled_plane),
    ensures
        scaled_plane.len() == plane.len(),
        forall|k: int|
            0 <= k < plane.len() ==> #[trigger] scaled_plane[k] == times_value(c, plane[k]),
{
    lemma_channel_plane_is_determined(
        times,
        plus,
        times_value,
        plus_value,
        u,
        s,
        vt,
        width,
        height,
        rank,
        plane,
    );
    lemma_channel_plane_is_determined(
        times,
        plus,
        times_value,
        plus_value,
        u,
        scaled,
        vt,
        width,
        height,
        rank,
        scaled_plane,
    );
    lemma_channel_plane_scales(
        times_value,
        plus_value,
        c,
        u,
        s,
        scaled,
        vt,
        width,
        height,
        rank,
    );
}

} // verus!
