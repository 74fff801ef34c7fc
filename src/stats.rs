//! The five per-window statistics, their mathematical models, and the laws
//! that relate them.

use vstd::prelude::*;

use crate::sample::NumOps;

verus! {

pub open spec fn smaller(a: int, b: int) -> int {
    if a < b {
        a
    } else {
        b
    }
}

pub open spec fn larger(a: int, b: int) -> int {
    if a < b {
        b
    } else {
        a
    }
}

/// Running minimum of the values, seeded at the type's largest value.
pub open spec fn min_of<T: NumOps>(s: Seq<T>) -> int
    decreases s.len(),
{
    if s.len() == 0 {
        T::max_int()
    } else {
        smaller(min_of(s.drop_last()), s.last().as_int())
    }
}

/// Running maximum of the values, seeded at zero.
pub open spec fn max_of<T: NumOps>(s: Seq<T>) -> int
    decreases s.len(),
{
    if s.len() == 0 {
        0
    } else {
        larger(max_of(s.drop_last()), s.last().as_int())
    }
}

/// Sum of the values.
pub open spec fn sum_of<T: NumOps>(s: Seq<T>) -> int
    decreases s.len(),
{
    if s.len() == 0 {
        0
    } else {
        sum_of(s.drop_last()) + s.last().as_int()
    }
}

/// Spread between the largest and the smallest value.
pub open spec fn gradient_of<T: NumOps>(s: Seq<T>) -> int {
    max_of(s) - min_of(s)
}

/// The denominator of the contrast: `max + min + 1`, clamped at the type's
/// largest value.
pub open spec fn contrast_denominator<T: NumOps>(s: Seq<T>) -> int {
    smaller(max_of(s) + min_of(s) + 1, T::max_int())
}

/// `(max - min) / (max + min + 1)`, the sum clamped at the type's largest value.
pub open spec fn contrast_of<T: NumOps>(s: Seq<T>) -> int {
    gradient_of(s) / contrast_denominator(s)
}

/// Arithmetic mean of the values, truncated toward zero.
pub open spec fn mean_of<T: NumOps>(s: Seq<T>) -> int {
    sum_of(s) / (s.len() as int)
}

/// The minimum is at most every value and the maximum at least every value;
/// both lie in the type's range.
pub proof fn lemma_min_max_bound<T: NumOps>(s: Seq<T>)
    ensures
        forall|i: int| 0 <= i < s.len() ==> min_of(s) <= #[trigger] s[i].as_int() <= max_of(s),
        0 <= min_of(s) <= T::max_int(),
        0 <= max_of(s) <= T::max_int(),
        s.len() > 0 ==> min_of(s) <= max_of(s),
    decreases s.len(),
{
    T::lemma_max_int();
    if s.len() > 0 {
        lemma_min_max_bound(s.drop_last());
        T::lemma_range(s.last());
        assert forall|i: int| 0 <= i < s.len() implies min_of(s) <= #[trigger] s[i].as_int()
            <= max_of(s) by {
            if i < s.len() - 1 {
                assert(s[i] == s.drop_last()[i]);
            }
        }
    }
}

/// Sum of a sequence is bounded by its length times the type's largest value.
pub proof fn lemma_sum_bound<T: NumOps>(s: Seq<T>)
    ensures
        0 <= sum_of(s) <= s.len() * T::max_int(),
    decreases s.len(),
{
    if s.len() > 0 {
        lemma_sum_bound(s.drop_last());
        T::lemma_range(s.last());
        assert((s.len() - 1) * T::max_int() + T::max_int() == s.len() * T::max_int())
            by (nonlinear_arith);
    }
}

/// Smallest sample of the window; the type's largest value for an empty window.
pub fn find_min<T: NumOps>(data: &[T]) -> (r: T)
    ensures
        r.as_int() == min_of(data@),
{
    let mut minimum = T::max_val();
    let mut i: usize = 0;
    while i < data.len()
        invariant
            i <= data.len(),
            minimum.as_int() == min_of(data@.subrange(0, i as int)),
        decreases data.len() - i,
    {
        let datum = data[i];
        if datum.less_than(&minimum) {
            minimum = datum;
        }
        assert(data@.subrange(0, i + 1).drop_last() =~= data@.subrange(0, i as int));
        i += 1;
    }
    assert(data@.subrange(0, i as int) =~= data@);
    minimum
}

/// Largest sample of the window; zero for an empty window.
pub fn find_max<T: NumOps>(data: &[T]) -> (r: T)
    ensures
        r.as_int() == max_of(data@),
{
    let mut maximum = T::min_val();
    let mut i: usize = 0;
    while i < data.len()
        invariant
            i <= data.len(),
            maximum.as_int() == max_of(data@.subrange(0, i as int)),
        decreases data.len() - i,
    {
        let datum = data[i];
        if maximum.less_than(&datum) {
            maximum = datum;
        }
        assert(data@.subrange(0, i + 1).drop_last() =~= data@.subrange(0, i as int));
        i += 1;
    }
    assert(data@.subrange(0, i as int) =~= data@);
    maximum
}

/// Smallest and largest sample of the window, in one pass.
fn find_min_max<T: NumOps>(data: &[T]) -> (r: (T, T))
    ensures
        r.0.as_int() == min_of(data@),
        r.1.as_int() == max_of(data@),
{
    let mut minimum = T::max_val();
    let mut maximum = T::min_val();
    let mut i: usize = 0;
    while i < data.len()
        invariant
            i <= data.len(),
            minimum.as_int() == min_of(data@.subrange(0, i as int)),
            maximum.as_int() == max_of(data@.subrange(0, i as int)),
        decreases data.len() - i,
    {
        let datum = data[i];
        if datum.less_than(&minimum) {
            minimum = datum;
        }
        if maximum.less_than(&datum) {
            maximum = datum;
        }
        assert(data@.subrange(0, i + 1).drop_last() =~= data@.subrange(0, i as int));
        i += 1;
    }
    assert(data@.subrange(0, i as int) =~= data@);
    (minimum, maximum)
}

/// Largest minus smallest sample of a non-empty window.
pub fn find_gradient<T: NumOps>(data: &[T]) -> (r: T)
    requires
        data.len() > 0,
    ensures
        r.as_int() == gradient_of(data@),
{
    let (minimum, maximum) = find_min_max(data);
    proof {
        lemma_min_max_bound(data@);
    }
    maximum.sub(minimum)
}

/// `(max - min) / (max + min + 1)` of a non-empty window, where the
/// denominator saturates at the type's largest value, so that it is never
/// zero and never overflows.
pub fn find_contrast<T: NumOps>(data: &[T]) -> (r: T)
    requires
        data.len() > 0,
    ensures
        r.as_int() == contrast_of(data@),
{
    let (minimum, maximum) = find_min_max(data);
    proof {
        lemma_min_max_bound(data@);
        T::lemma_max_int();
    }
    let num = maximum.sub(minimum);
    let div = maximum.saturating_add(minimum).saturating_add(T::one());
    num.div(div)
}

/// Truncated arithmetic mean of a non-empty window, summed in a `u128`.
pub fn find_mean<T: NumOps>(data: &[T]) -> (r: T)
    requires
        data.len() > 0,
    ensures
        r.as_int() == mean_of(data@),
{
    let mut sum: u128 = 0;
    let mut i: usize = 0;
    proof {
        T::lemma_max_int();
    }
    while i < data.len()
        invariant
            i <= data.len(),
            1 <= T::max_int() <= u32::MAX,
            sum as int == sum_of(data@.subrange(0, i as int)),
        decreases data.len() - i,
    {
        let datum = data[i].to_u32();
        proof {
            let prefix = data@.subrange(0, i as int);
            lemma_sum_bound(prefix);
            let m = T::max_int();
            let n = i as int;
            assert(n <= u64::MAX);
            assert(n * m + m < 0x1_0000_0000_0000_0000_0000_0000_0000_0000) by (nonlinear_arith)
                requires
                    0 <= n <= u64::MAX,
                    1 <= m <= u32::MAX,
            ;
            assert(data@.subrange(0, i + 1).drop_last() =~= prefix);
            T::lemma_range(data@[i as int]);
        }
        sum = sum + datum as u128;
        i += 1;
    }
    assert(data@.subrange(0, i as int) =~= data@);
    let len = data.len() as u128;
    proof {
        lemma_sum_bound(data@);
        let m = T::max_int();
        let n = len as int;
        let t = sum as int;
        assert(t / n <= m) by (nonlinear_arith)
            requires
                0 <= t <= n * m,
                n > 0,
        ;
        assert(t / n >= 0) by (nonlinear_arith)
            requires
                0 <= t,
                n > 0,
        ;
    }
    let mean = sum / len;
    T::from_u32(mean as u32)
}

/// The minimum and the maximum of a non-empty sequence are values of it.
pub proof fn lemma_min_max_attained<T: NumOps>(s: Seq<T>)
    requires
        s.len() > 0,
    ensures
        exists|i: int| 0 <= i < s.len() && #[trigger] s[i].as_int() == min_of(s),
        exists|i: int| 0 <= i < s.len() && #[trigger] s[i].as_int() == max_of(s),
    decreases s.len(),
{
    let p = s.drop_last();
    let n = s.len() - 1;
    if s.len() == 1 {
        lemma_min_max_bound(s);
        assert(s[n].as_int() == min_of(s));
        assert(s[n].as_int() == max_of(s));
    } else {
        lemma_min_max_attained(p);
        let i = choose|i: int| 0 <= i < p.len() && #[trigger] p[i].as_int() == min_of(p);
        let j = choose|j: int| 0 <= j < p.len() && #[trigger] p[j].as_int() == max_of(p);
        assert(s[i] == p[i] && s[j] == p[j]);
        if min_of(s) == s[n].as_int() {
            assert(s[n].as_int() == min_of(s));
        } else {
            assert(s[i].as_int() == min_of(s));
        }
        if max_of(s) == s[n].as_int() {
            assert(s[n].as_int() == max_of(s));
        } else {
            assert(s[j].as_int() == max_of(s));
        }
    }
}

/// Removing one element takes its value off the sum.
pub proof fn lemma_sum_remove<T: NumOps>(s: Seq<T>, j: int)
    requires
        0 <= j < s.len(),
    ensures
        sum_of(s) == sum_of(s.remove(j)) + s[j].as_int(),
    decreases s.len(),
{
    if j == s.len() - 1 {
        assert(s.remove(j) =~= s.drop_last());
    } else {
        lemma_sum_remove(s.drop_last(), j);
        assert(s.remove(j).drop_last() =~= s.drop_last().remove(j));
        assert(s.remove(j).last() == s.last());
    }
}

/// Reordering the samples of a window changes none of the five statistics:
/// two windows with the same multiset of samples have the same minimum,
/// maximum, sum, gradient, contrast and mean.
pub proof fn lemma_order_independent<T: NumOps>(s: Seq<T>, t: Seq<T>)
    requires
        s.to_multiset() =~= t.to_multiset(),
    ensures
        s.len() == t.len(),
        min_of(s) == min_of(t),
        max_of(s) == max_of(t),
        sum_of(s) == sum_of(t),
        gradient_of(s) == gradient_of(t),
        contrast_of(s) == contrast_of(t),
        mean_of(s) == mean_of(t),
{
    broadcast use vstd::seq_lib::group_to_multiset_ensures;

    lemma_extremes_same_elements(s, t);
    lemma_extremes_same_elements(t, s);
    lemma_sum_same_elements(s, t);
}

proof fn lemma_extremes_same_elements<T: NumOps>(s: Seq<T>, t: Seq<T>)
    requires
        s.to_multiset() =~= t.to_multiset(),
    ensures
        s.len() == t.len(),
        min_of(t) <= min_of(s),
        max_of(s) <= max_of(t),
{
    broadcast use vstd::seq_lib::group_to_multiset_ensures;

    assert(s.len() == s.to_multiset().len());
    assert(t.len() == t.to_multiset().len());
    lemma_min_max_bound(s);
    lemma_min_max_bound(t);
    if s.len() > 0 {
        lemma_min_max_attained(s);
        let i = choose|i: int| 0 <= i < s.len() && #[trigger] s[i].as_int() == min_of(s);
        let k = choose|k: int| 0 <= k < s.len() && #[trigger] s[k].as_int() == max_of(s);
        assert(s.contains(s[i]));
        assert(t.to_multiset().count(s[i]) > 0);
        assert(t.contains(s[i]));
        assert(s.contains(s[k]));
        assert(t.to_multiset().count(s[k]) > 0);
        assert(t.contains(s[k]));
    }
}

proof fn lemma_sum_same_elements<T: NumOps>(s: Seq<T>, t: Seq<T>)
    requires
        s.to_multiset() =~= t.to_multiset(),
    ensures
        sum_of(s) == sum_of(t),
    decreases s.len(),
{
    broadcast use vstd::seq_lib::group_to_multiset_ensures;

    assert(s.len() == s.to_multiset().len());
    assert(t.len() == t.to_multiset().len());
    if s.len() > 0 {
        let n = s.len() - 1;
        let x = s[n];
        assert(s.contains(x));
        assert(t.to_multiset().count(x) > 0);
        assert(t.contains(x));
        let j = choose|j: int| 0 <= j < t.len() && t[j] == x;
        assert(s.drop_last() =~= s.remove(n));
        assert(s.remove(n).to_multiset() =~= s.to_multiset().remove(x));
        assert(t.remove(j).to_multiset() =~= t.to_multiset().remove(x));
        lemma_sum_same_elements(s.drop_last(), t.remove(j));
        lemma_sum_remove(t, j);
    }
}

/// The gradient of a non-empty window is its maximum minus its minimum, and
/// is never negative.
pub proof fn lemma_gradient_nonnegative<T: NumOps>(s: Seq<T>)
    requires
        s.len() > 0,
    ensures
        gradient_of(s) == max_of(s) - min_of(s),
        0 <= gradient_of(s) <= T::max_int(),
{
    lemma_min_max_bound(s);
}

/// The contrast denominator is at least one for every window, including
/// one where every sample holds the type's largest value, and the contrast
/// of a non-empty window is a value of the type.
pub proof fn lemma_contrast_defined<T: NumOps>(s: Seq<T>)
    requires
        s.len() > 0,
    ensures
        1 <= contrast_denominator(s) <= T::max_int(),
        0 <= contrast_of(s) <= T::max_int(),
{
    lemma_min_max_bound(s);
    T::lemma_max_int();
    let g = gradient_of(s);
    let d = contrast_denominator(s);
    assert(0 <= g / d <= g) by (nonlinear_arith)
        requires
            0 <= g,
            d >= 1,
    ;
}

/// A window whose samples all hold the value `v` has minimum, maximum and
/// mean `v`.
pub proof fn lemma_constant_window<T: NumOps>(s: Seq<T>, v: int)
    requires
        s.len() > 0,
        forall|i: int| 0 <= i < s.len() ==> #[trigger] s[i].as_int() == v,
    ensures
        min_of(s) == v,
        max_of(s) == v,
        mean_of(s) == v,
        gradient_of(s) == 0,
{
    lemma_min_max_bound(s);
    lemma_min_max_attained(s);
    lemma_constant_sum(s, v);
    let n = s.len() as int;
    assert((n * v) / n == v) by (nonlinear_arith)
        requires
            n > 0,
    ;
}

proof fn lemma_constant_sum<T: NumOps>(s: Seq<T>, v: int)
    requires
        forall|i: int| 0 <= i < s.len() ==> #[trigger] s[i].as_int() == v,
    ensures
        sum_of(s) == s.len() * v,
    decreases s.len(),
{
    if s.len() > 0 {
        let p = s.drop_last();
        assert forall|i: int| 0 <= i < p.len() implies #[trigger] p[i].as_int() == v by {
            assert(p[i] == s[i]);
        }
        lemma_constant_sum(p, v);
        assert((s.len() - 1) * v + v == s.len() * v) by (nonlinear_arith);
    }
}

/// A window of one sample: minimum, maximum and mean are that sample;
/// gradient and contrast are zero.
pub proof fn lemma_single_sample_window<T: NumOps>(x: T)
    ensures
        min_of(seq![x]) == x.as_int(),
        max_of(seq![x]) == x.as_int(),
        mean_of(seq![x]) == x.as_int(),
        gradient_of(seq![x]) == 0,
        contrast_of(seq![x]) == 0,
{
    let s = seq![x];
    lemma_constant_window(s, x.as_int());
    lemma_contrast_defined(s);
}

} // verus!
