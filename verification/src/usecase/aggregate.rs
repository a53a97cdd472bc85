//! Means over the measurements of a column.

use crate::domain::decimal::Decimal;
use crate::domain::perf::PerfRowView;
use vstd::prelude::*;

verus! {

/// The measurements that `pick` finds in `rows`, in the order of the rows;
/// a row in which it finds none adds nothing.
pub open spec fn measured(
    rows: Seq<PerfRowView>,
    pick: spec_fn(PerfRowView) -> Option<int>,
) -> Seq<int>
    decreases rows.len(),
{
    if rows.len() == 0 {
        Seq::empty()
    } else {
        let before = measured(rows.drop_last(), pick);
        match pick(rows.last()) {
            Some(v) => before.push(v),
            None => before,
        }
    }
}

/// The sum of `values`.
pub open spec fn total(values: Seq<int>) -> int
    decreases values.len(),
{
    if values.len() == 0 {
        0
    } else {
        total(values.drop_last()) + values.last()
    }
}

/// `a` divided by `n`, cut toward zero.
pub open spec fn quotient(a: int, n: int) -> int {
    if a >= 0 {
        a / n
    } else {
        -((-a) / n)
    }
}

/// The arithmetic mean of `values`, cut toward zero; of no values there is
/// no mean.
pub open spec fn mean(values: Seq<int>) -> Option<int> {
    if values.len() == 0 {
        None
    } else {
        Some(quotient(total(values), values.len() as int))
    }
}

/// A row's average throughput.
pub open spec fn avg_tps_of() -> spec_fn(PerfRowView) -> Option<int> {
    |row: PerfRowView| row.avg_tps
}

/// A row's latency.
pub open spec fn latency_of() -> spec_fn(PerfRowView) -> Option<int> {
    |row: PerfRowView| row.p95_latency_ms
}

/// A row's average throughput, if the row is of the release `tag`.
pub open spec fn avg_tps_of_release(tag: Seq<char>) -> spec_fn(PerfRowView) -> Option<int> {
    |row: PerfRowView|
        if row.release_tag == tag {
            row.avg_tps
        } else {
            None
        }
}

/// One more row adds what `pick` finds in it.
pub proof fn lemma_measured_push(
    rows: Seq<PerfRowView>,
    row: PerfRowView,
    pick: spec_fn(PerfRowView) -> Option<int>,
)
    ensures
        measured(rows.push(row), pick) == match pick(row) {
            Some(v) => measured(rows, pick).push(v),
            None => measured(rows, pick),
        },
{
    assert(rows.push(row).drop_last() =~= rows);
}

/// One more value adds itself to the sum.
pub proof fn lemma_total_push(values: Seq<int>, v: int)
    ensures
        total(values.push(v)) == total(values) + v,
{
    assert(values.push(v).drop_last() =~= values);
}

/// A mean of measurements that an `i64` holds is one that an `i64` holds.
pub proof fn lemma_mean_bounds(sum: int, n: int)
    requires
        n > 0,
        n * i64::MIN <= sum <= n * i64::MAX,
    ensures
        i64::MIN <= quotient(sum, n) <= i64::MAX,
{
    if sum >= 0 {
        assert(sum / n <= i64::MAX) by (nonlinear_arith)
            requires
                n > 0,
                0 <= sum <= n * i64::MAX,
        ;
        assert(sum / n >= 0) by (nonlinear_arith)
            requires
                n > 0,
                0 <= sum,
        ;
    } else {
        let a = -sum;
        assert(a / n <= -i64::MIN) by (nonlinear_arith)
            requires
                n > 0,
                0 <= a <= n * (-i64::MIN),
        ;
        assert(a / n >= 0) by (nonlinear_arith)
            requires
                n > 0,
                0 <= a,
        ;
    }
}

/// A running sum of measurements, each of which an `i64` holds, and their
/// count.
pub struct Tally {
    sum: i128,
    count: usize,
    values: Ghost<Seq<int>>,
}

impl Tally {
    /// Sum and count are those of the measurements taken in, and the sum is
    /// such as so many measurements can have.
    #[verifier::type_invariant]
    spec fn consistent(&self) -> bool {
        &&& self.count == self.values@.len()
        &&& self.sum == total(self.values@)
        &&& self.count * i64::MIN <= self.sum <= self.count * i64::MAX
    }

    /// The measurements taken in so far, in the order in which they came.
    pub closed spec fn values(&self) -> Seq<int> {
        self.values@
    }

    /// The tally of no measurements.
    pub fn new() -> (t: Tally)
        ensures
            t.values() == Seq::<int>::empty(),
    {
        Tally { sum: 0, count: 0, values: Ghost(Seq::empty()) }
    }

    /// Takes one more measurement in.
    pub fn add(&mut self, d: Decimal)
        requires
            old(self).values().len() < usize::MAX,
        ensures
            final(self).values() == old(self).values().push(d@),
    {
        proof {
            use_type_invariant(&*self);
            lemma_total_push(self.values@, d@);
            assert((self.count + 1) * i64::MIN == self.count * i64::MIN + i64::MIN)
                by (nonlinear_arith);
            assert((self.count + 1) * i64::MAX == self.count * i64::MAX + i64::MAX)
                by (nonlinear_arith);
            assert(self.count * i64::MAX <= usize::MAX * i64::MAX) by (nonlinear_arith)
                requires
                    self.count <= usize::MAX,
            ;
            assert(self.count * i64::MIN >= usize::MAX * i64::MIN) by (nonlinear_arith)
                requires
                    self.count <= usize::MAX,
            ;
        }
        *self = Tally {
            sum: self.sum + d.micros as i128,
            count: self.count + 1,
            values: Ghost(self.values@.push(d@)),
        };
    }

    /// The mean of what was taken in.
    pub fn mean(&self) -> (m: Option<Decimal>)
        ensures
            match m {
                Some(d) => mean(self.values()) == Some(d@),
                None => mean(self.values()) is None,
            },
    {
        proof {
            use_type_invariant(self);
        }
        if self.count == 0 {
            return None;
        }
        let n: i128 = self.count as i128;
        proof {
            lemma_mean_bounds(self.sum as int, n as int);
        }
        let q: i128 = if self.sum >= 0 {
            self.sum / n
        } else {
            -((-self.sum) / n)
        };
        Some(Decimal { micros: q as i64 })
    }
}

} // verus!
