//! Replicate padding, the sliding-window traversal, and the filter entry point.

use vstd::prelude::*;

use crate::kind::{statistic_of, SpatialOpsError, StatisticOperations};
use crate::sample::NumOps;
use crate::stats::{find_contrast, find_gradient, find_max, find_mean, find_min};

verus! {

/// `v` moved into `0 .. n`: the nearest edge when it lies outside.
pub open spec fn clamp(v: int, n: int) -> int {
    if v < 0 {
        0
    } else if v >= n {
        n - 1
    } else {
        v
    }
}

/// Sample at column `px`, row `py` of the grid padded by `radius` on every
/// side, each border cell copying the nearest sample of the grid.
pub open spec fn padded_at<T>(
    input: Seq<T>,
    width: int,
    height: int,
    radius: int,
    px: int,
    py: int,
) -> T {
    input[clamp(py - radius, height) * width + clamp(px - radius, width)]
}

/// The `(2 * radius + 1)`-square window of the replicate-padded grid that
/// belongs to output pixel `(x, y)`, in row-major order.
pub open spec fn window<T>(
    input: Seq<T>,
    width: int,
    height: int,
    radius: int,
    x: int,
    y: int,
) -> Seq<T> {
    let side = 2 * radius + 1;
    Seq::new(
        (side * side) as nat,
        |k: int| padded_at(input, width, height, radius, x + k % side, y + k / side),
    )
}

/// Row-major index arithmetic: row `a`, column `b` of rows of length `n`.
pub proof fn lemma_row_major(a: int, b: int, n: int, m: int)
    requires
        0 <= a < m,
        0 <= b < n,
    ensures
        (a * n + b) / n == a,
        (a * n + b) % n == b,
        0 <= a * n + b < m * n,
        a * n + b < n * m,
        a * n + b + 1 <= m * n,
{
    assert(m * n == n * m) by (nonlinear_arith);
    vstd::arithmetic::div_mod::lemma_fundamental_div_mod_converse(a * n + b, n, a, b);
    assert(a * n + b < m * n) by (nonlinear_arith)
        requires
            0 <= a < m,
            0 <= b < n,
    ;
    assert(0 <= a * n) by (nonlinear_arith)
        requires
            0 <= a,
            0 <= n,
    ;
}

/// Each of two positive factors is at most their product.
pub proof fn lemma_factor_bound(a: int, b: int)
    requires
        a >= 1,
        b >= 1,
    ensures
        a <= a * b,
        b <= a * b,
{
    assert(a <= a * b && b <= a * b) by (nonlinear_arith)
        requires
            a >= 1,
            b >= 1,
    ;
}

fn clamp_index(v: usize, radius: usize, n: usize) -> (r: usize)
    requires
        n > 0,
    ensures
        r as int == clamp(v - radius, n as int),
{
    if v < radius {
        0
    } else if v - radius >= n {
        n - 1
    } else {
        v - radius
    }
}

/// Copies the grid into one enlarged by `radius` on every side, each border
/// cell holding the nearest sample of the grid.
pub fn pad_replicate<T: Copy>(input: &[T], width: usize, height: usize, radius: usize) -> (r:
    Vec<T>)
    requires
        width > 0,
        height > 0,
        input.len() == width * height,
        (width + 2 * radius) * (height + 2 * radius) <= usize::MAX,
    ensures
        r.len() == (width + 2 * radius) * (height + 2 * radius),
        forall|q: int|
            0 <= q < r.len() ==> #[trigger] r@[q] == padded_at(
                input@,
                width as int,
                height as int,
                radius as int,
                q % (width + 2 * radius) as int,
                q / (width + 2 * radius) as int,
            ),
{
    proof {
        lemma_factor_bound((width + 2 * radius) as int, (height + 2 * radius) as int);
    }
    let pw = width + 2 * radius;
    let ph = height + 2 * radius;
    let mut out: Vec<T> = Vec::new();
    let mut py: usize = 0;
    while py < ph
        invariant
            width > 0,
            height > 0,
            input.len() == width * height,
            pw == width + 2 * radius,
            ph == height + 2 * radius,
            pw * ph <= usize::MAX,
            py <= ph,
            out.len() == py * pw,
            forall|q: int|
                0 <= q < out.len() ==> #[trigger] out@[q] == padded_at(
                    input@,
                    width as int,
                    height as int,
                    radius as int,
                    q % pw as int,
                    q / pw as int,
                ),
        decreases ph - py,
    {
        let sy = clamp_index(py, radius, height);
        let mut px: usize = 0;
        while px < pw
            invariant
                width > 0,
                height > 0,
                input.len() == width * height,
                pw == width + 2 * radius,
                ph == height + 2 * radius,
                pw * ph <= usize::MAX,
                py < ph,
                px <= pw,
                sy as int == clamp(py - radius, height as int),
                out.len() == py * pw + px,
                forall|q: int|
                    0 <= q < out.len() ==> #[trigger] out@[q] == padded_at(
                        input@,
                        width as int,
                        height as int,
                        radius as int,
                        q % pw as int,
                        q / pw as int,
                    ),
            decreases pw - px,
        {
            let sx = clamp_index(px, radius, width);
            proof {
                lemma_row_major(sy as int, sx as int, width as int, height as int);
                lemma_row_major(py as int, px as int, pw as int, ph as int);
            }
            out.push(input[sy * width + sx]);
            px += 1;
        }
        proof {
            assert((py + 1) * pw == py * pw + pw) by (nonlinear_arith);
        }
        py += 1;
    }
    assert(ph * pw == pw * ph) by (nonlinear_arith);
    out
}

/// The `(2 * radius + 1)`-square window of an already padded grid, with rows
/// of `padded_width` samples, whose top-left corner is at column `x`, row `y`.
pub open spec fn padded_window<T>(padded: Seq<T>, padded_width: int, radius: int, x: int, y: int) -> Seq<T> {
    let side = 2 * radius + 1;
    Seq::new((side * side) as nat, |k: int| padded[(y + k / side) * padded_width + x + k % side])
}

/// The output grid holds, for every pixel, the statistic of its window.
pub open spec fn filtered<T: NumOps>(
    input: Seq<T>,
    output: Seq<T>,
    width: int,
    height: int,
    radius: int,
    op: StatisticOperations,
) -> bool {
    &&& output.len() == width * height
    &&& forall|i: int|
        0 <= i < width * height ==> #[trigger] output[i].as_int() == statistic_of(
            op,
            window(input, width, height, radius, i % width, i / width),
        )
}

/// Splitting a row-major index `k < n * m` into row `k / n` and column `k % n`.
pub proof fn lemma_split_index(k: int, n: int, m: int)
    requires
        n > 0,
        0 <= k < n * m,
    ensures
        0 <= k / n < m,
        0 <= k % n < n,
{
    vstd::arithmetic::div_mod::lemma_fundamental_div_mod(k, n);
    vstd::arithmetic::div_mod::lemma_mod_pos_bound(k, n);
    vstd::arithmetic::div_mod::lemma_div_pos_is_pos(k, n);
    let q = k / n;
    assert(q < m) by (nonlinear_arith)
        requires
            n > 0,
            k < n * m,
            n * q <= k,
    ;
}

/// Runs the window of every output pixel through `reducer`, which computes
/// the statistic `op`, and writes the results in row-major order.
pub fn spatial<T: NumOps, F: Fn(&[T]) -> T>(
    padded: &[T],
    out: &mut [T],
    radius: usize,
    width: usize,
    height: usize,
    op: StatisticOperations,
    reducer: F,
)
    requires
        forall|s: &[T]| s@.len() > 0 ==> #[trigger] reducer.requires((s,)),
        forall|s: &[T], r: T| #[trigger] reducer.ensures((s,), r) ==> r.as_int() == statistic_of(op, s@),
        width > 0,
        height > 0,
        old(out).len() == width * height,
        padded.len() == (width + 2 * radius) * (height + 2 * radius),
        (width + 2 * radius) * (height + 2 * radius) <= usize::MAX,
    ensures
        final(out).len() == old(out).len(),
        forall|i: int|
            0 <= i < width * height ==> #[trigger] final(out)@[i].as_int() == statistic_of(
                op,
                padded_window(padded@, (width + 2 * radius) as int, radius as int, i % width as int, i / width as int),
            ),
{
    proof {
        lemma_factor_bound((width + 2 * radius) as int, (height + 2 * radius) as int);
    }
    let pw = width + 2 * radius;
    let ph = height + 2 * radius;
    let side = 2 * radius + 1;
    let mut win: Vec<T> = Vec::new();
    let mut y: usize = 0;
    while y < height
        invariant
            width > 0,
            height > 0,
            out.len() == width * height,
            pw == width + 2 * radius,
            ph == height + 2 * radius,
            side == 2 * radius + 1,
            padded.len() == pw * ph,
            pw * ph <= usize::MAX,
            y <= height,
            forall|s: &[T]| s@.len() > 0 ==> #[trigger] reducer.requires((s,)),
            forall|s: &[T], r: T| #[trigger] reducer.ensures((s,), r) ==> r.as_int() == statistic_of(op, s@),
            forall|i: int|
                0 <= i < y * width ==> #[trigger] out@[i].as_int() == statistic_of(
                    op,
                    padded_window(padded@, pw as int, radius as int, i % width as int, i / width as int),
                ),
        decreases height - y,
    {
        let mut x: usize = 0;
        while x < width
            invariant
                width > 0,
                height > 0,
                out.len() == width * height,
                pw == width + 2 * radius,
                ph == height + 2 * radius,
                side == 2 * radius + 1,
                padded.len() == pw * ph,
                pw * ph <= usize::MAX,
                y < height,
                x <= width,
                forall|s: &[T]| s@.len() > 0 ==> #[trigger] reducer.requires((s,)),
                forall|s: &[T], r: T| #[trigger] reducer.ensures((s,), r) ==> r.as_int() == statistic_of(op, s@),
                forall|i: int|
                    0 <= i < y * width + x ==> #[trigger] out@[i].as_int() == statistic_of(
                        op,
                        padded_window(padded@, pw as int, radius as int, i % width as int, i / width as int),
                    ),
            decreases width - x,
        {
            win.clear();
            let mut dy: usize = 0;
            while dy < side
                invariant
                    pw == width + 2 * radius,
                    ph == height + 2 * radius,
                    side == 2 * radius + 1,
                    padded.len() == pw * ph,
                    pw * ph <= usize::MAX,
                    y < height,
                    x < width,
                    dy <= side,
                    win.len() == dy * side,
                    forall|k: int|
                        0 <= k < win.len() ==> #[trigger] win@[k] == padded@[(y + k / side as int) * pw + x + k % side as int],
                decreases side - dy,
            {
                let mut dx: usize = 0;
                while dx < side
                    invariant
                        pw == width + 2 * radius,
                        ph == height + 2 * radius,
                        side == 2 * radius + 1,
                        padded.len() == pw * ph,
                        pw * ph <= usize::MAX,
                        y < height,
                        x < width,
                        dy < side,
                        dx <= side,
                        win.len() == dy * side + dx,
                        forall|k: int|
                            0 <= k < win.len() ==> #[trigger] win@[k] == padded@[(y + k / side as int) * pw + x + k % side as int],
                    decreases side - dx,
                {
                    proof {
                        lemma_row_major(dy as int, dx as int, side as int, side as int);
                        lemma_row_major((y + dy) as int, (x + dx) as int, pw as int, ph as int);
                    }
                    win.push(padded[(y + dy) * pw + x + dx]);
                    dx += 1;
                }
                proof {
                    assert((dy + 1) * side == dy * side + side) by (nonlinear_arith);
                }
                dy += 1;
            }
            proof {
                assert(win@ =~= padded_window(padded@, pw as int, radius as int, x as int, y as int));
                assert(side * side >= 1) by (nonlinear_arith)
                    requires
                        side >= 1,
                ;
                lemma_row_major(y as int, x as int, width as int, height as int);
            }
            let window_samples = win.as_slice();
            proof {
                assert(reducer.requires((window_samples,)));
            }
            let value = reducer(window_samples);
            out[y * width + x] = value;
            x += 1;
        }
        proof {
            assert((y + 1) * width == y * width + width) by (nonlinear_arith);
        }
        y += 1;
    }
    assert(height * width == width * height) by (nonlinear_arith);
}

/// The number of samples of the grid padded by `radius` on every side.
pub open spec fn padded_len(width: int, height: int, radius: int) -> int {
    (width + 2 * radius) * (height + 2 * radius)
}

/// A window taken from the replicate-padded copy is the window of the grid.
proof fn lemma_padded_window<T>(
    padded: Seq<T>,
    input: Seq<T>,
    width: int,
    height: int,
    radius: int,
    x: int,
    y: int,
)
    requires
        width > 0,
        height > 0,
        radius >= 0,
        padded.len() == (width + 2 * radius) * (height + 2 * radius),
        forall|q: int|
            0 <= q < padded.len() ==> #[trigger] padded[q] == padded_at(
                input,
                width,
                height,
                radius,
                q % (width + 2 * radius),
                q / (width + 2 * radius),
            ),
        0 <= x < width,
        0 <= y < height,
    ensures
        padded_window(padded, width + 2 * radius, radius, x, y) =~= window(
            input,
            width,
            height,
            radius,
            x,
            y,
        ),
{
    let side = 2 * radius + 1;
    let pw = width + 2 * radius;
    let ph = height + 2 * radius;
    assert forall|k: int| 0 <= k < side * side implies padded_window(padded, pw, radius, x, y)[k]
        == window(input, width, height, radius, x, y)[k] by {
        lemma_split_index(k, side, side);
        lemma_row_major(y + k / side, x + k % side, pw, ph);
    }
}

/// Replaces every sample of `out_channel` with the chosen statistic of its
/// `(2 * radius + 1)`-square neighbourhood in `in_channel`, the grid being
/// extended past its edges by replicating the nearest edge sample.
///
/// Fails, leaving `out_channel` as it was, with `DimensionMismatch` when
/// either buffer does not hold `width * height` samples, and with
/// `RadiusTooLarge` when the padded grid would hold more than `usize::MAX`
/// samples.
pub fn spatial_ops<T: NumOps>(
    in_channel: &[T],
    out_channel: &mut [T],
    radius: usize,
    width: usize,
    height: usize,
    operations: StatisticOperations,
) -> (r: Result<(), SpatialOpsError>)
    ensures
        final(out_channel).len() == old(out_channel).len(),
        r is Err ==> final(out_channel)@ == old(out_channel)@,
        (r == Err::<(), SpatialOpsError>(SpatialOpsError::DimensionMismatch)) <==> (in_channel.len()
            != width * height || old(out_channel).len() != width * height),
        (r == Err::<(), SpatialOpsError>(SpatialOpsError::RadiusTooLarge)) <==> (in_channel.len()
            == width * height && old(out_channel).len() == width * height && padded_len(
            width as int,
            height as int,
            radius as int,
        ) > usize::MAX),
        r is Ok <==> (in_channel.len() == width * height && old(out_channel).len() == width
            * height && padded_len(width as int, height as int, radius as int) <= usize::MAX),
        r is Ok ==> filtered(
            in_channel@,
            final(out_channel)@,
            width as int,
            height as int,
            radius as int,
            operations,
        ),
{
    let n = match width.checked_mul(height) {
        Some(n) => n,
        None => {
            return Err(SpatialOpsError::DimensionMismatch);
        },
    };
    if in_channel.len() != n || out_channel.len() != n {
        return Err(SpatialOpsError::DimensionMismatch);
    }
    let pw = match radius.checked_mul(2) {
        Some(d) => width.checked_add(d),
        None => None,
    };
    let ph = match radius.checked_mul(2) {
        Some(d) => height.checked_add(d),
        None => None,
    };
    let fits = match (pw, ph) {
        (Some(a), Some(b)) => a.checked_mul(b).is_some(),
        _ => false,
    };
    if !fits {
        proof {
            let a = width + 2 * radius;
            let b = height + 2 * radius;
            if radius > 0 {
                assert(a <= a * b && b <= a * b) by (nonlinear_arith)
                    requires
                        a >= 1,
                        b >= 1,
                ;
            }
        }
        return Err(SpatialOpsError::RadiusTooLarge);
    }
    if width == 0 || height == 0 {
        proof {
            assert(width * height == 0) by (nonlinear_arith)
                requires
                    width == 0 || height == 0,
            ;
        }
        return Ok(());
    }
    let padded = pad_replicate(in_channel, width, height, radius);
    let p = padded.as_slice();
    // The statistic is resolved once here, not again for every window.
    match operations {
        StatisticOperations::Contrast => spatial(p, out_channel, radius, width, height, operations, find_contrast::<T>),
        StatisticOperations::Maximum => spatial(p, out_channel, radius, width, height, operations, find_max::<T>),
        StatisticOperations::Gradient => spatial(p, out_channel, radius, width, height, operations, find_gradient::<T>),
        StatisticOperations::Minimum => spatial(p, out_channel, radius, width, height, operations, find_min::<T>),
        StatisticOperations::Mean => spatial(p, out_channel, radius, width, height, operations, find_mean::<T>),
    }
    proof {
        let w = width as int;
        let h = height as int;
        assert forall|i: int| 0 <= i < w * h implies #[trigger] out_channel@[i].as_int()
            == statistic_of(operations, window(in_channel@, w, h, radius as int, i % w, i / w)) by {
            lemma_split_index(i, w, h);
            lemma_padded_window(padded@, in_channel@, w, h, radius as int, i % w, i / w);
        }
    }
    Ok(())
}

/// The filter is deterministic: for the same grid, radius and statistic,
/// any two outputs that meet its postcondition are identical.
pub proof fn lemma_filter_deterministic<T: NumOps>(
    input: Seq<T>,
    first: Seq<T>,
    second: Seq<T>,
    width: int,
    height: int,
    radius: int,
    op: StatisticOperations,
)
    requires
        filtered(input, first, width, height, radius, op),
        filtered(input, second, width, height, radius, op),
    ensures
        first == second,
{
    assert forall|i: int| 0 <= i < first.len() implies first[i] == second[i] by {
        T::lemma_as_int_injective(first[i], second[i]);
    }
    assert(first =~= second);
}

/// With radius zero each window is the pixel itself: minimum, maximum and
/// mean return the input sample, gradient and contrast return zero.
pub proof fn lemma_radius_zero<T: NumOps>(
    input: Seq<T>,
    width: int,
    height: int,
    x: int,
    y: int,
)
    requires
        input.len() == width * height,
        0 <= x < width,
        0 <= y < height,
    ensures
        window(input, width, height, 0, x, y) =~= seq![input[y * width + x]],
        statistic_of(StatisticOperations::Minimum, window(input, width, height, 0, x, y))
            == input[y * width + x].as_int(),
        statistic_of(StatisticOperations::Maximum, window(input, width, height, 0, x, y))
            == input[y * width + x].as_int(),
        statistic_of(StatisticOperations::Mean, window(input, width, height, 0, x, y))
            == input[y * width + x].as_int(),
        statistic_of(StatisticOperations::Gradient, window(input, width, height, 0, x, y)) == 0,
        statistic_of(StatisticOperations::Contrast, window(input, width, height, 0, x, y)) == 0,
{
    let w = window(input, width, height, 0, x, y);
    lemma_row_major(y, x, width, height);
    let side = 2 * (0 as int) + 1;
    assert(side * side == 1) by (nonlinear_arith)
        requires
            side == 1,
    ;
    assert(w.len() == 1);
    assert(0int % 1 == 0 && 0int / 1 == 0);
    assert(w[0] == input[y * width + x]);
    assert(w =~= seq![input[y * width + x]]);
    crate::stats::lemma_single_sample_window(input[y * width + x]);
}

} // verus!
