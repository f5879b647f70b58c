use crate::decimal::{
    all_wf, checked_add, checked_div, checked_sub, compare, dec_le, dec_lt, difference_of, int_dec,
    quotient_of, sum_of, Dec,
};
use rust_decimal::Decimal;
use std::cmp::Ordering;
use crate::error::CoreError;
use vstd::prelude::*;

verus! {

/// The sum of `s`, added from the left starting at zero, or `None` where an
/// addition overflows.
pub open spec fn total_of(s: Seq<Dec>) -> Option<Dec>
    decreases s.len(),
{
    if s.len() == 0 {
        Some(int_dec(0))
    } else {
        match total_of(s.drop_last()) {
            Some(acc) => sum_of(acc, s.last()),
            None => None,
        }
    }
}

/// The sum of `s` divided by `length`.
pub open spec fn mean_of(s: Seq<Dec>, length: Dec) -> Result<Dec, CoreError> {
    if length.is_zero() {
        Err(CoreError::EmptySeries)
    } else {
        match total_of(s) {
            Some(t) => match quotient_of(t, length) {
                Some(q) => Ok(q),
                None => Err(CoreError::ArithmeticOverflow),
            },
            None => Err(CoreError::ArithmeticOverflow),
        }
    }
}

/// The relative change from `from` to `to`: `(to - from) / from`.
pub open spec fn change_of(from: Dec, to: Dec) -> Result<Dec, CoreError> {
    if from.is_zero() {
        Err(CoreError::DivisionByZero)
    } else {
        match difference_of(to, from) {
            Some(d) => match quotient_of(d, from) {
                Some(q) => Ok(q),
                None => Err(CoreError::ArithmeticOverflow),
            },
            None => Err(CoreError::ArithmeticOverflow),
        }
    }
}

/// The changes from `v[i]` to `w[i]` for `i < n`, or the first error.
pub open spec fn changes_of(v: Seq<Dec>, w: Seq<Dec>, n: nat) -> Result<Seq<Dec>, CoreError>
    decreases n,
{
    if n == 0 {
        Ok(Seq::empty())
    } else {
        match changes_of(v, w, (n - 1) as nat) {
            Ok(s) => match change_of(v[n - 1], w[n - 1]) {
                Ok(c) => Ok(s.push(c)),
                Err(e) => Err(e),
            },
            Err(e) => Err(e),
        }
    }
}

/// The length of the overlap of two series aligned at their ends.
pub open spec fn overlap(v1: Seq<Dec>, v2: Seq<Dec>) -> int {
    if v1.len() <= v2.len() {
        v1.len() as int
    } else {
        v2.len() as int
    }
}

/// The difference of the `i`-th values of the tails of `v1` and `v2` that
/// overlap.
pub open spec fn tail_difference(v1: Seq<Dec>, v2: Seq<Dec>, i: int) -> Option<Dec> {
    let n = overlap(v1, v2);
    difference_of(v1[v1.len() - n + i], v2[v2.len() - n + i])
}

/// Element-wise differences of two series aligned at their ends: as long
/// as the shorter one, dropping the leading values of the longer one.
pub open spec fn cross_of(v1: Seq<Dec>, v2: Seq<Dec>) -> Result<Seq<Dec>, CoreError> {
    let n = overlap(v1, v2);
    if n == 0 {
        Err(CoreError::MismatchedLength)
    } else if exists|i: int| 0 <= i < n && #[trigger] tail_difference(v1, v2, i) is None {
        Err(CoreError::ArithmeticOverflow)
    } else {
        Ok(Seq::new(n as nat, |i: int| tail_difference(v1, v2, i).unwrap()))
    }
}

/// Sum of `s[start..end]`.
pub(crate) fn total_range(s: &[Dec], start: usize, end: usize) -> (r: Option<Dec>)
    requires
        start <= end <= s@.len(),
        all_wf(s@),
    ensures
        r == total_of(s@.subrange(start as int, end as int)),
        r matches Some(d) ==> d.wf(),
{
    let mut acc = Dec::zero();
    let mut k: usize = start;
    assert(s@.subrange(start as int, start as int) =~= Seq::<Dec>::empty());
    while k < end
        invariant
            start <= k <= end <= s@.len(),
            all_wf(s@),
            acc.wf(),
            total_of(s@.subrange(start as int, k as int)) == Some(acc),
        decreases end - k,
    {
        assert(s@.subrange(start as int, k + 1).drop_last() =~= s@.subrange(start as int, k as int));
        match checked_add(acc, s[k]) {
            Some(d) => {
                acc = d;
            },
            None => {
                proof {
                    lemma_total_none_extends(s@, start as int, (k + 1) as int, end as int);
                }
                return None;
            },
        }
        k = k + 1;
    }
    Some(acc)
}

/// Once a running sum has overflowed, every longer prefix overflows too.
proof fn lemma_total_none_extends(s: Seq<Dec>, start: int, k: int, end: int)
    requires
        0 <= start <= k <= end <= s.len(),
        total_of(s.subrange(start, k)) is None,
    ensures
        total_of(s.subrange(start, end)) is None,
    decreases end - k,
{
    if k < end {
        assert(s.subrange(start, k + 1).drop_last() =~= s.subrange(start, k));
        lemma_total_none_extends(s, start, k + 1, end);
    }
}

/// The sum of `slices` divided by `length`: fails with `EmptySeries` when
/// `length` is zero.
pub fn mean(slices: &[Dec], length: &Dec) -> (r: Result<Dec, CoreError>)
    requires
        all_wf(slices@),
        length.wf(),
    ensures
        r == mean_of(slices@, *length),
        r matches Ok(d) ==> d.wf(),
{
    if length.zero_valued() {
        return Err(CoreError::EmptySeries);
    }
    assert(slices@.subrange(0, slices@.len() as int) =~= slices@);
    match total_range(slices, 0, slices.len()) {
        Some(t) => match checked_div(t, *length) {
            Some(q) => Ok(q),
            None => Err(CoreError::ArithmeticOverflow),
        },
        None => Err(CoreError::ArithmeticOverflow),
    }
}

/// The change from one value to the next, `(to - from) / from`.
pub(crate) fn change(from: Dec, to: Dec) -> (r: Result<Dec, CoreError>)
    requires
        from.wf(),
        to.wf(),
    ensures
        r == change_of(from, to),
        r matches Ok(d) ==> d.wf(),
{
    if from.zero_valued() {
        return Err(CoreError::DivisionByZero);
    }
    match checked_sub(to, from) {
        Some(d) => match checked_div(d, from) {
            Some(q) => Ok(q),
            None => Err(CoreError::ArithmeticOverflow),
        },
        None => Err(CoreError::ArithmeticOverflow),
    }
}

/// The relative changes from `v[i]` to `v_lag[i]` for each `i` below
/// `lag_length`.
pub fn calculate_return(v: &[Dec], v_lag: &[Dec], lag_length: usize) -> (r: Result<
    Vec<Dec>,
    CoreError,
>)
    requires
        lag_length <= v@.len(),
        lag_length <= v_lag@.len(),
        all_wf(v@),
        all_wf(v_lag@),
    ensures
        match r {
            Ok(x) => changes_of(v@, v_lag@, lag_length as nat) == Ok::<Seq<Dec>, CoreError>(x@),
            Err(e) => changes_of(v@, v_lag@, lag_length as nat) == Err::<Seq<Dec>, CoreError>(e),
        },
        r matches Ok(x) ==> all_wf(x@),
{
    let mut store: Vec<Dec> = Vec::new();
    let mut index: usize = 0;
    while index < lag_length
        invariant
            index <= lag_length <= v@.len(),
            lag_length <= v_lag@.len(),
            all_wf(v@),
            all_wf(v_lag@),
            all_wf(store@),
            changes_of(v@, v_lag@, index as nat) == Ok::<Seq<Dec>, CoreError>(store@),
        decreases lag_length - index,
    {
        match change(v[index], v_lag[index]) {
            Ok(c) => {
                store.push(c);
            },
            Err(e) => {
                proof {
                    lemma_changes_err_extends(v@, v_lag@, (index + 1) as nat, lag_length as nat);
                }
                return Err(e);
            },
        }
        index = index + 1;
    }
    Ok(store)
}

/// Once a change fails, the first failure is the result for every longer
/// prefix.
proof fn lemma_changes_err_extends(v: Seq<Dec>, w: Seq<Dec>, k: nat, n: nat)
    requires
        k <= n,
        changes_of(v, w, k) is Err,
    ensures
        changes_of(v, w, n) == changes_of(v, w, k),
    decreases n - k,
{
    if k < n {
        lemma_changes_err_extends(v, w, k, (n - 1) as nat);
    }
}

/// Element-wise differences of `v1` and `v2` aligned at their ends, as long
/// as the shorter series: the leading values of the longer one are dropped.
/// Fails with `MismatchedLength` when either series is empty.
pub fn create_indicator_cross_vec(v1: &[Dec], v2: &[Dec]) -> (r: Result<Vec<Dec>, CoreError>)
    requires
        all_wf(v1@),
        all_wf(v2@),
    ensures
        match r {
            Ok(x) => cross_of(v1@, v2@) == Ok::<Seq<Dec>, CoreError>(x@),
            Err(e) => cross_of(v1@, v2@) == Err::<Seq<Dec>, CoreError>(e),
        },
        r matches Ok(x) ==> all_wf(x@) && x@.len() == overlap(v1@, v2@),
{
    let n1 = v1.len();
    let n2 = v2.len();
    let n = if n1 <= n2 {
        n1
    } else {
        n2
    };
    if n == 0 {
        return Err(CoreError::MismatchedLength);
    }
    let off1 = n1 - n;
    let off2 = n2 - n;
    let mut crossed: Vec<Dec> = Vec::new();
    let mut index: usize = 0;
    while index < n
        invariant
            n1 == v1@.len(),
            n2 == v2@.len(),
            n == overlap(v1@, v2@),
            off1 + n == n1,
            off2 + n == n2,
            index <= n,
            all_wf(v1@),
            all_wf(v2@),
            all_wf(crossed@),
            crossed@.len() == index,
            forall|i: int|
                0 <= i < index ==> Some(#[trigger] crossed@[i]) == tail_difference(v1@, v2@, i),
        decreases n - index,
    {
        match checked_sub(v1[off1 + index], v2[off2 + index]) {
            Some(d) => {
                crossed.push(d);
            },
            None => {
                assert(tail_difference(v1@, v2@, index as int) is None);
                return Err(CoreError::ArithmeticOverflow);
            },
        }
        index = index + 1;
    }
    assert forall|i: int| 0 <= i < n implies !(#[trigger] tail_difference(v1@, v2@, i) is None) by {
        assert(Some(crossed@[i]) == tail_difference(v1@, v2@, i));
    }
    assert(crossed@ =~= Seq::new(n as nat, |i: int| tail_difference(v1@, v2@, i).unwrap()));
    Ok(crossed)
}

/// `a` and `b` have the same numeric value.
pub open spec fn same_value(a: Dec, b: Dec) -> bool {
    !dec_lt(a, b) && !dec_lt(b, a)
}

/// Some element of `v` has the value of `x`.
pub open spec fn holds_value(v: Seq<Dec>, x: Dec) -> bool {
    exists|j: int| 0 <= j < v.len() && same_value(#[trigger] v[j], x)
}

/// Whether some element of `v` has the value of `x`.
fn contains_value(v: &[Dec], x: Dec) -> (r: bool)
    requires
        all_wf(v@),
        x.wf(),
    ensures
        r == holds_value(v@, x),
{
    let mut j: usize = 0;
    while j < v.len()
        invariant
            j <= v@.len(),
            all_wf(v@),
            x.wf(),
            forall|k: int| 0 <= k < j ==> !same_value(#[trigger] v@[k], x),
        decreases v@.len() - j,
    {
        let equal = match compare(v[j], x) {
            Ordering::Equal => true,
            _ => false,
        };
        if equal {
            assert(same_value(v@[j as int], x));
            return true;
        }
        j = j + 1;
    }
    false
}

/// The values of `v1` that no element of `v2` has, each value once, in the
/// order of their first occurrence in `v1`. Values are compared numerically,
/// as decimal equality does (`2` and `2.0` are the same value). A set keyed
/// by `Dec` would compare mantissa and scale and tell `2` from `2.0`, so the
/// difference is taken by a scan that compares values.
pub fn remove_same_values_in_slice(v1: &[Dec], v2: &[Dec]) -> (r: Vec<Dec>)
    requires
        all_wf(v1@),
        all_wf(v2@),
    ensures
        forall|k: int|
            0 <= k < r@.len() ==> v1@.contains(#[trigger] r@[k]) && !holds_value(v2@, r@[k]),
        forall|i: int|
            0 <= i < v1@.len() && !holds_value(v2@, #[trigger] v1@[i]) ==> holds_value(r@, v1@[i]),
        forall|k: int, l: int|
            0 <= k < l < r@.len() ==> !same_value(#[trigger] r@[k], #[trigger] r@[l]),
{
    let mut out: Vec<Dec> = Vec::new();
    let mut i: usize = 0;
    while i < v1.len()
        invariant
            i <= v1@.len(),
            all_wf(v1@),
            all_wf(v2@),
            all_wf(out@),
            forall|k: int|
                0 <= k < out@.len() ==> v1@.contains(#[trigger] out@[k]) && !holds_value(
                    v2@,
                    out@[k],
                ),
            forall|m: int|
                0 <= m < i && !holds_value(v2@, #[trigger] v1@[m]) ==> holds_value(out@, v1@[m]),
            forall|k: int, l: int|
                0 <= k < l < out@.len() ==> !same_value(#[trigger] out@[k], #[trigger] out@[l]),
        decreases v1@.len() - i,
    {
        let x = v1[i];
        let in_second = contains_value(v2, x);
        let seen = contains_value(out.as_slice(), x);
        if !in_second && !seen {
            let ghost before = out@;
            out.push(x);
            proof {
                assert(v1@.contains(x)) by {
                    assert(v1@[i as int] == x);
                }
                assert forall|m: int|
                    0 <= m < i + 1 && !holds_value(v2@, #[trigger] v1@[m]) implies holds_value(
                    out@,
                    v1@[m],
                ) by {
                    if m < i {
                        let j = choose|j: int|
                            0 <= j < before.len() && same_value(#[trigger] before[j], v1@[m]);
                        assert(out@[j] == before[j]);
                    } else {
                        assert(out@[before.len() as int] == x);
                        assert(same_value(x, x));
                    }
                }
                assert forall|k: int, l: int|
                    0 <= k < l < out@.len() implies !same_value(
                    #[trigger] out@[k],
                    #[trigger] out@[l],
                ) by {
                    if l == before.len() {
                        assert(out@[k] == before[k]);
                        if same_value(out@[k], out@[l]) {
                            assert(same_value(before[k], x));
                        }
                    } else {
                        assert(out@[k] == before[k] && out@[l] == before[l]);
                    }
                }
            }
        } else {
            proof {
                assert forall|m: int|
                    0 <= m < i + 1 && !holds_value(v2@, #[trigger] v1@[m]) implies holds_value(
                    out@,
                    v1@[m],
                ) by {
                    if m == i {
                        assert(v1@[m] == x);
                    }
                }
            }
        }
        i = i + 1;
    }
    out
}

/// `s` is ordered by numeric value.
pub open spec fn sorted_by_value(s: Seq<Dec>) -> bool {
    forall|i: int, j: int| 0 <= i < j < s.len() ==> dec_le(#[trigger] s[i], #[trigger] s[j])
}

/// Relies on `slice::sort`, with `Decimal`'s ordering by numeric value: the
/// elements are rearranged into ascending order.
#[verifier::external_body]
fn sort_by_value(v: &mut Vec<Dec>)
    requires
        all_wf(old(v)@),
    ensures
        final(v)@.to_multiset() == old(v)@.to_multiset(),
        final(v)@.len() == old(v)@.len(),
        all_wf(final(v)@),
        sorted_by_value(final(v)@),
{
    let mut d: Vec<Decimal> = v.iter().map(|x| Decimal::from_i128_with_scale(x.mantissa, x.scale)).collect();
    d.sort();
    *v = d.iter().map(|x| Dec { mantissa: x.mantissa(), scale: x.scale() }).collect();
}

/// The middle value of the sorted elements, or the mean of the two middle
/// ones for an even count.
pub open spec fn median_of(s: Seq<Dec>) -> Result<Dec, CoreError> {
    let m = s.len() / 2;
    if s.len() == 0 {
        Err(CoreError::EmptySeries)
    } else if s.len() % 2 == 1 {
        Ok(s[m as int])
    } else {
        match sum_of(s[m - 1], s[m as int]) {
            Some(t) => match quotient_of(t, int_dec(2)) {
                Some(q) => Ok(q),
                None => Err(CoreError::ArithmeticOverflow),
            },
            None => Err(CoreError::ArithmeticOverflow),
        }
    }
}

/// Sorts `slices` by value and returns their median. Fails with
/// `EmptySeries` when there is none.
pub fn median(slices: &mut Vec<Dec>) -> (r: Result<Dec, CoreError>)
    requires
        all_wf(old(slices)@),
    ensures
        final(slices)@.to_multiset() == old(slices)@.to_multiset(),
        sorted_by_value(final(slices)@),
        r == median_of(final(slices)@),
{
    sort_by_value(slices);
    let n = slices.len();
    if n == 0 {
        return Err(CoreError::EmptySeries);
    }
    let m = n / 2;
    if n % 2 == 1 {
        return Ok(slices[m]);
    }
    match checked_add(slices[m - 1], slices[m]) {
        Some(t) => match checked_div(t, Dec::from_u64(2)) {
            Some(q) => Ok(q),
            None => Err(CoreError::ArithmeticOverflow),
        },
        None => Err(CoreError::ArithmeticOverflow),
    }
}

} // verus!
