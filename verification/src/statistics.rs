//! Descriptive statistics of integer samples.

use vstd::prelude::*;
use crate::basics::fits_i64;

verus! {

/// The smallest of the first `n` elements of `s`, for `n` of at least 1.
pub open spec fn min_upto(s: Seq<i64>, n: nat) -> i64
    decreases n,
{
    if n <= 1 {
        s[0]
    } else {
        let before = min_upto(s, (n - 1) as nat);
        if s[n - 1] < before {
            s[n - 1]
        } else {
            before
        }
    }
}

/// The largest of the first `n` elements of `s`, for `n` of at least 1.
pub open spec fn max_upto(s: Seq<i64>, n: nat) -> i64
    decreases n,
{
    if n <= 1 {
        s[0]
    } else {
        let before = max_upto(s, (n - 1) as nat);
        if s[n - 1] > before {
            s[n - 1]
        } else {
            before
        }
    }
}

/// The smallest element of a sequence that is not empty.
pub open spec fn min_of(s: Seq<i64>) -> i64 {
    min_upto(s, s.len())
}

/// The largest element of a sequence that is not empty.
pub open spec fn max_of(s: Seq<i64>) -> i64 {
    max_upto(s, s.len())
}

/// The smallest of the first `n` elements is one of them and none of them
/// is smaller.
pub proof fn lemma_min_is_least(s: Seq<i64>, n: nat)
    requires
        1 <= n <= s.len(),
    ensures
        exists|i: int| 0 <= i < n && s[i] == min_upto(s, n),
        forall|i: int| 0 <= i < n ==> min_upto(s, n) <= s[i],
    decreases n,
{
    if n > 1 {
        lemma_min_is_least(s, (n - 1) as nat);
        let before = min_upto(s, (n - 1) as nat);
        let i = choose|i: int| 0 <= i < n - 1 && s[i] == before;
        if s[n - 1] < before {
            assert(s[n - 1] == min_upto(s, n));
        } else {
            assert(s[i] == min_upto(s, n));
        }
    } else {
        assert(s[0] == min_upto(s, n));
    }
}

/// The largest of the first `n` elements is one of them and none of them
/// is larger.
pub proof fn lemma_max_is_greatest(s: Seq<i64>, n: nat)
    requires
        1 <= n <= s.len(),
    ensures
        exists|i: int| 0 <= i < n && s[i] == max_upto(s, n),
        forall|i: int| 0 <= i < n ==> s[i] <= max_upto(s, n),
    decreases n,
{
    if n > 1 {
        lemma_max_is_greatest(s, (n - 1) as nat);
        let before = max_upto(s, (n - 1) as nat);
        let i = choose|i: int| 0 <= i < n - 1 && s[i] == before;
        if s[n - 1] > before {
            assert(s[n - 1] == max_upto(s, n));
        } else {
            assert(s[i] == max_upto(s, n));
        }
    } else {
        assert(s[0] == max_upto(s, n));
    }
}

/// Returns the smallest element of `data`. Fails when `data` is empty.
pub fn get_min(data: &[i64]) -> (r: Result<i64, &'static str>)
    ensures
        match r {
            Ok(m) => data@.len() > 0 && m == min_of(data@) && data@.contains(m) && forall|i: int|
                0 <= i < data@.len() ==> m <= data@[i],
            Err(e) => data@.len() == 0 && e@ == "Vector or Array is empty"@,
        },
{
    if data.len() == 0 {
        return Err("Vector or Array is empty");
    }
    let mut min = data[0];
    let mut i: usize = 1;
    while i < data.len()
        invariant
            1 <= i <= data@.len(),
            min == min_upto(data@, i as nat),
        decreases data@.len() - i,
    {
        if data[i] < min {
            min = data[i];
        }
        i += 1;
    }
    proof {
        lemma_min_is_least(data@, data@.len());
    }
    Ok(min)
}

/// Returns the largest element of `data`. Fails when `data` is empty.
pub fn get_max(data: &[i64]) -> (r: Result<i64, &'static str>)
    ensures
        match r {
            Ok(m) => data@.len() > 0 && m == max_of(data@) && data@.contains(m) && forall|i: int|
                0 <= i < data@.len() ==> data@[i] <= m,
            Err(e) => data@.len() == 0 && e@ == "Vector or Array is empty"@,
        },
{
    if data.len() == 0 {
        return Err("Vector or Array is empty");
    }
    let mut max = data[0];
    let mut i: usize = 1;
    while i < data.len()
        invariant
            1 <= i <= data@.len(),
            max == max_upto(data@, i as nat),
        decreases data@.len() - i,
    {
        if data[i] > max {
            max = data[i];
        }
        i += 1;
    }
    proof {
        lemma_max_is_greatest(data@, data@.len());
    }
    Ok(max)
}

/// Returns the span of `data`: the difference between its largest and its
/// smallest element. Fails when `data` is empty.
pub fn get_span(data: &[i64]) -> (r: Result<i64, &'static str>)
    requires
        data@.len() > 0 ==> fits_i64(max_of(data@) - min_of(data@)),
    ensures
        match r {
            Ok(d) => data@.len() > 0 && d == max_of(data@) - min_of(data@),
            Err(e) => data@.len() == 0 && e@ == "Vector or Array is empty"@,
        },
{
    if data.len() == 0 {
        return Err("Vector or Array is empty");
    }
    Ok(get_max(data).unwrap() - get_min(data).unwrap())
}

} // verus!
