use vstd::prelude::*;

verus! {

/// The largest span a duration can hold, in nanoseconds: `i64::MAX` seconds
/// and 999 999 999 nanoseconds.
pub const MAX_NANOS: i128 = 9223372036854775807999999999;

/// The most negative span a duration can hold, in nanoseconds: `i64::MIN`
/// seconds and -999 999 999 nanoseconds.
pub const MIN_NANOS: i128 = -9223372036854775808999999999;

/// The time a tested block and its baseline took, in nanoseconds.
#[derive(Clone, Copy, Debug, PartialEq, Eq, Structural)]
pub struct TestResult {
    /// The duration of the tested block.
    pub duration: i128,
    /// The duration of the baseline block.
    pub baseline: i128,
}

/// A span that a duration can hold.
pub open spec fn in_range(n: int) -> bool {
    MIN_NANOS <= n <= MAX_NANOS
}

/// The sum of the durations, or of the baselines, of `rs`.
pub open spec fn total(rs: Seq<TestResult>, baseline: bool) -> int
    decreases rs.len(),
{
    if rs.len() == 0 {
        0
    } else {
        total(rs.drop_last(), baseline) + if baseline {
            rs.last().baseline as int
        } else {
            rs.last().duration as int
        }
    }
}

/// Every running sum, of the durations and of the baselines, is a span a
/// duration can hold.
pub open spec fn sums_in_range(rs: Seq<TestResult>) -> bool {
    forall|k: int|
        0 <= k <= rs.len() ==> in_range(#[trigger] total(rs.take(k), false)) && in_range(
            total(rs.take(k), true),
        )
}

impl TestResult {
    /// Adds up the results, durations with durations and baselines with
    /// baselines, as durations add: `None` if a running sum leaves the span
    /// a duration can hold.
    pub fn sum(results: &Vec<TestResult>) -> (r: Option<TestResult>)
        requires
            forall|i: int|
                0 <= i < results@.len() ==> in_range(#[trigger] results@[i].duration as int) && in_range(
                    results@[i].baseline as int,
                ),
        ensures
            r is Some <==> sums_in_range(results@),
            r matches Some(t) ==> t.duration == total(results@, false) && t.baseline == total(
                results@,
                true,
            ),
    {
        let mut acc = TestResult { duration: 0, baseline: 0 };
        let mut i: usize = 0;
        proof {
            assert(results@.take(0) =~= Seq::<TestResult>::empty());
        }
        while i < results.len()
            invariant
                i <= results@.len(),
                forall|j: int|
                    0 <= j < results@.len() ==> in_range(#[trigger] results@[j].duration as int) && in_range(
                        results@[j].baseline as int,
                    ),
                acc.duration == total(results@.take(i as int), false),
                acc.baseline == total(results@.take(i as int), true),
                forall|k: int|
                    0 <= k <= i ==> in_range(#[trigger] total(results@.take(k), false)) && in_range(
                        total(results@.take(k), true),
                    ),
            decreases results@.len() - i,
        {
            let r = results[i];
            let ghost next = results@.take(i + 1);
            proof {
                assert(next.drop_last() =~= results@.take(i as int));
                assert(next.last() == r);
            }
            let d = acc.duration + r.duration;
            let b = acc.baseline + r.baseline;
            if d < MIN_NANOS || d > MAX_NANOS || b < MIN_NANOS || b > MAX_NANOS {
                proof {
                    assert(!in_range(total(next, false)) || !in_range(total(next, true)));
                    let k = i + 1;
                    assert(0 <= k <= results@.len());
                    assert(!(in_range(total(results@.take(k), false)) && in_range(
                        total(results@.take(k), true),
                    )));
                    if sums_in_range(results@) {
                        assert(in_range(total(results@.take(k), false)));
                        assert(in_range(total(results@.take(k), true)));
                    }
                }
                return None;
            }
            acc = TestResult { duration: d, baseline: b };
            i = i + 1;
        }
        proof {
            assert(results@.take(results@.len() as int) =~= results@);
        }
        Some(acc)
    }
}

} // verus!
