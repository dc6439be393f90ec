use vstd::prelude::*;
use crate::layout::{full_rank, lemma_row_major_in_bounds, row_major};
use crate::sample::ZERO;

verus! {

/// Whether `p` can come out of multiplying `a`, `b` and `c` from left to
/// right with `times`.
pub open spec fn is_term<M: Fn(u32, u32) -> u32>(times: M, a: u32, b: u32, c: u32, p: u32) -> bool {
    exists|q: u32| #[trigger] times.ensures((a, b), q) && times.ensures((q, c), p)
}

/// Whether `acc` can come out of accumulating, from `ZERO` and in rising
/// order of `t`, the first `terms` terms `U[i][t] * S[t] * Vt[t][j]`.
///
/// `u` is row-major with rows `stride` apart, `vt` row-major with rows
/// `width` apart.
pub open spec fn is_partial_sum<M: Fn(u32, u32) -> u32, A: Fn(u32, u32) -> u32>(
    times: M,
    plus: A,
    u: Seq<u32>,
    s: Seq<u32>,
    vt: Seq<u32>,
    width: int,
    stride: int,
    i: int,
    j: int,
    terms: nat,
    acc: u32,
) -> bool
    decreases terms,
{
    if terms == 0 {
        acc == ZERO
    } else {
        let t = terms - 1;
        exists|prev: u32, p: u32|
            is_partial_sum(times, plus, u, s, vt, width, stride, i, j, t as nat, prev) && is_term(
                times,
                u[row_major(stride, i, t)],
                s[t],
                vt[row_major(width, t, j)],
                p,
            ) && #[trigger] plus.ensures((prev, p), acc)
    }
}

/// Whether `plane` is a `width` by `height` channel rebuilt at rank `rank`
/// from the factors `u`, `s` and `vt`: row-major, and each entry a sum of
/// `rank` terms.
pub open spec fn is_channel_plane<M: Fn(u32, u32) -> u32, A: Fn(u32, u32) -> u32>(
    times: M,
    plus: A,
    u: Seq<u32>,
    s: Seq<u32>,
    vt: Seq<u32>,
    width: int,
    height: int,
    rank: nat,
    plane: Seq<u32>,
) -> bool {
    &&& plane.len() == width * height
    &&& forall|i: int, j: int|
        0 <= i < height && 0 <= j < width ==> is_partial_sum(
            times,
            plus,
            u,
            s,
            vt,
            width,
            full_rank(width, height),
            i,
            j,
            rank,
            #[trigger] plane[row_major(width, i, j)],
        )
}

/// Multiplies the truncated factors of one channel back into a dense
/// row-major plane: entry `(i, j)` is the sum over `t < rank` of
/// `U[i][t] * S[t] * Vt[t][j]`.
///
/// `u` holds `height` rows of `full_rank(width, height)` samples, `vt` holds
/// rows of `width` samples, and only the first `rank` columns of `u`,
/// samples of `s` and rows of `vt` are read. The products are taken with
/// `times` from left to right and summed with `plus` in rising order of `t`,
/// starting from `ZERO`.
pub fn reconstruct_channel<M: Fn(u32, u32) -> u32, A: Fn(u32, u32) -> u32>(
    u: &[u32],
    s: &[u32],
    vt: &[u32],
    width: u32,
    height: u32,
    rank: u32,
    times: M,
    plus: A,
) -> (plane: Vec<u32>)
    requires
        rank <= full_rank(width as int, height as int),
        u.len() >= height * full_rank(width as int, height as int),
        s.len() >= rank,
        vt.len() >= rank * width,
        width * height <= usize::MAX,
        forall|a: u32, b: u32| times.requires((a, b)),
        forall|a: u32, b: u32| plus.requires((a, b)),
    ensures
        is_channel_plane(
            times,
            plus,
            u@,
            s@,
            vt@,
            width as int,
            height as int,
            rank as nat,
            plane@,
        ),
        plane.len() == width * height,
        rank == 0 ==> forall|k: int| 0 <= k < plane.len() ==> plane[k] == ZERO,
{
    let m: usize = height as usize;
    let n: usize = width as usize;
    let terms: usize = rank as usize;
    let stride: usize = if m <= n {
        m
    } else {
        n
    };
    assert(m * n == width * height) by (nonlinear_arith)
        requires
            m == height,
            n == width,
    ;
    let mut plane: Vec<u32> = Vec::new();
    let mut i: usize = 0;
    while i < m
        invariant
            i <= m,
            m == height,
            n == width,
            terms == rank,
            stride == full_rank(width as int, height as int),
            terms <= stride,
            u.len() >= m * stride,
            s.len() >= terms,
            vt.len() >= terms * n,
            m * n == width * height,
            m * n <= usize::MAX,
            forall|a: u32, b: u32| times.requires((a, b)),
            forall|a: u32, b: u32| plus.requires((a, b)),
            plane.len() == i * n,
            terms == 0 ==> forall|k: int| 0 <= k < plane.len() ==> plane[k] == ZERO,
            forall|r: int, c: int|
                0 <= r < i && 0 <= c < n ==> is_partial_sum(
                    times,
                    plus,
                    u@,
                    s@,
                    vt@,
                    n as int,
                    stride as int,
                    r,
                    c,
                    terms as nat,
                    #[trigger] plane[row_major(n as int, r, c)],
                ),
        decreases m - i,
    {
        let mut j: usize = 0;
        while j < n
            invariant
                i < m,
                j <= n,
                terms <= stride,
                u.len() >= m * stride,
                s.len() >= terms,
                vt.len() >= terms * n,
                m * n <= usize::MAX,
                forall|a: u32, b: u32| times.requires((a, b)),
                forall|a: u32, b: u32| plus.requires((a, b)),
                plane.len() == i * n + j,
                terms == 0 ==> forall|k: int| 0 <= k < plane.len() ==> plane[k] == ZERO,
                forall|r: int, c: int|
                    (0 <= r < i && 0 <= c < n) || (r == i && 0 <= c < j) ==> is_partial_sum(
                        times,
                        plus,
                        u@,
                        s@,
                        vt@,
                        n as int,
                        stride as int,
                        r,
                        c,
                        terms as nat,
                        #[trigger] plane[row_major(n as int, r, c)],
                    ),
            decreases n - j,
        {
            let mut sum: u32 = ZERO;
            let mut t: usize = 0;
            while t < terms
                invariant
                    i < m,
                    j < n,
                    t <= terms,
                    terms <= stride,
                    u.len() >= m * stride,
                    s.len() >= terms,
                    vt.len() >= terms * n,
                    forall|a: u32, b: u32| times.requires((a, b)),
                    forall|a: u32, b: u32| plus.requires((a, b)),
                    terms == 0 ==> sum == ZERO,
                    is_partial_sum(
                        times,
                        plus,
                        u@,
                        s@,
                        vt@,
                        n as int,
                        stride as int,
                        i as int,
                        j as int,
                        t as nat,
                        sum,
                    ),
                decreases terms - t,
            {
                proof {
                    lemma_row_major_in_bounds(stride as int, m as int, i as int, t as int);
                    lemma_row_major_in_bounds(n as int, terms as int, t as int, j as int);
                }
                let term = times(times(u[i * stride + t], s[t]), vt[t * n + j]);
                sum = plus(sum, term);
                t += 1;
            }
            proof {
                lemma_row_major_in_bounds(n as int, m as int, i as int, j as int);
                assert forall|r: int, c: int|
                    (0 <= r < i && 0 <= c < n) || (r == i && 0 <= c < j) implies row_major(
                    n as int,
                    r,
                    c,
                ) < plane.len() by {
                    if r < i {
                        lemma_row_major_in_bounds(n as int, i as int, r, c);
                    }
                }
            }
            plane.push(sum);
            j += 1;
        }
        proof {
            assert((i + 1) * n == i * n + n) by (nonlinear_arith);
        }
        i += 1;
    }
    plane
}

} // verus!
