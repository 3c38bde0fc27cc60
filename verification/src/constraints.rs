//! The constraint stage: policy checks over the measurements of one cycle.
//!
//! A constraint is handed the outcome of each measurement it reads, the index
//! of the cycle, and the instant to stamp its verdict with. A measurement
//! that failed fails the constraint with the same error, the first in the
//! order of the arguments; a measurement of another metric than the
//! constraint reads is a wiring fault, reported as an error and never as a
//! verdict.

use vstd::prelude::*;
use vstd::string::StringExecFns;
use crate::command::nfdc::PacketStatistics;
use crate::data::{named_view, Data, DataView, Metrics, Tasks, Validity};
use crate::double::{lemma_small_numbers, stands_for, Double};
use crate::series::series_view;
use crate::task::{
    evaluated_view, measured_view, wrong_dependencies, wrong_dependency, Error, Evaluated,
    Evaluation, Logging, Logs, LogsView, Measured, Measurement,
};
use crate::time::Time;

verus! {

/// Bytes that one entry of the content store takes.
pub const CS_ENTRY_SIZE: u64 = 8192;

/// The largest capacity, in entries, that the policy accepts.
pub const MAX_CAPACITY: u64 = 100_000;

/// The estimate of pending interests that no face may reach.
pub const PENDING_LIMIT: i128 = 100;

/// The least size, in bytes, that the smallest packet of a face may have.
pub const MIN_PACKET_SIZE: u64 = 10;

/// How many of the latest measurements of the store's usage are compared.
pub const USAGE_SAMPLES: usize = 5;

/// The standard deviation that the usage samples must stay below.
pub const USAGE_DEVIATION_LIMIT: u32 = 5;

/// The standard deviation that the sizes of the cached entries may reach.
pub const SIZE_DEVIATION_LIMIT: u32 = 5;

/// The mean size that the cached entries must reach.
pub const SIZE_MEAN_LEAST: u32 = 20;

/// The mean component count that packets must stay above.
pub const COMPONENTS_LOW: u32 = 3;

/// The mean component count that packets must stay below.
pub const COMPONENTS_HIGH: u32 = 12;

/// The bits of the double 3, the lower bound of the component counts.
pub const THREE: u64 = 0x4008_0000_0000_0000;

/// The bits of the double 5, the limit of the size deviation.
pub const FIVE: u64 = 0x4014_0000_0000_0000;

/// The bits of the double 12, the upper bound of the component counts.
pub const TWELVE: u64 = 0x4028_0000_0000_0000;

/// The bits of the double 20, the least mean size.
pub const TWENTY: u64 = 0x4034_0000_0000_0000;

/// The verdict `value` of `task` and the store that holds it.
pub open spec fn evaluated(value: bool, task: Tasks, index: u64, logs: LogsView, now: Time) -> (
    Evaluation,
    LogsView,
) {
    let evaluation = Evaluation { value, index, timestamp: now };
    (evaluation, logs.with_evaluation(evaluation, task))
}

/// The outcome of a constraint over one measurement: `verdict` tells the
/// verdict for a value of the metric that the constraint reads, and gives
/// nothing for a value of any other metric.
pub open spec fn constraint(
    task: Tasks,
    verdict: spec_fn(DataView) -> Option<bool>,
    measurement: Measured,
    index: u64,
    now: Time,
) -> Evaluated {
    match measurement {
        Err(e) => Err(e),
        Ok((m, logs)) => match verdict(m.data) {
            None => Err(wrong_dependency()),
            Some(value) => Ok(evaluated(value, task, index, logs, now)),
        },
    }
}

/// The outcome of a constraint over two measurements: `verdict` tells the
/// verdict for values of the two metrics that the constraint reads, and
/// gives nothing for any other pair.
pub open spec fn constraint_of_two(
    task: Tasks,
    verdict: spec_fn(DataView, DataView) -> Option<bool>,
    first: Measured,
    second: Measured,
    index: u64,
    now: Time,
) -> Evaluated {
    match (first, second) {
        (Err(e), _) => Err(e),
        (Ok(_), Err(e)) => Err(e),
        (Ok((a, a_logs)), Ok((b, b_logs))) => match verdict(a.data, b.data) {
            None => Err(wrong_dependencies()),
            Some(value) => Ok(evaluated(value, task, index, a_logs.merge(b_logs), now)),
        },
    }
}

/// Stamps the verdict and adds it to the store of the measurement read.
fn conclude(value: bool, task: Tasks, index: u64, logs: &Logs, now: Time) -> (r: Logging<Evaluation>)
    ensures
        (r.0, r.1@) == evaluated(value, task, index, logs@, now),
{
    let evaluation = Evaluation::at(value, index, now);
    Logging(evaluation, logs.with_evaluation(evaluation, task))
}

/// Stamps the verdict and adds it to the merged stores of the two
/// measurements read.
fn conclude_of_two(value: bool, task: Tasks, index: u64, first: &Logs, second: &Logs, now: Time)
    -> (r: Logging<Evaluation>)
    ensures
        (r.0, r.1@) == evaluated(value, task, index, first@.merge(second@), now),
{
    let evaluation = Evaluation::at(value, index, now);
    let mut logs = first.merge(second);
    logs.insert_evaluation(evaluation, task);
    Logging(evaluation, logs)
}

/// The replacement policy is least-recently-used.
pub open spec fn c1_verdict(data: DataView) -> Option<bool> {
    match data {
        DataView::M1(name) => Some(name == "lru"@),
        _ => None,
    }
}

/// The content store's replacement policy is `lru`.
pub fn c1(m1: &Result<Logging<Measurement>, Error>, index: u64, now: Time) -> (r: Result<
    Logging<Evaluation>,
    Error,
>)
    ensures
        evaluated_view(r) == constraint(
            Tasks::C1,
            |d: DataView| c1_verdict(d),
            measured_view(*m1),
            index,
            now,
        ),
{
    match m1 {
        Err(e) => Err(e.clone()),
        Ok(Logging(measurement, logs)) => match &measurement.data {
            Data::M1(name) => {
                let lru = String::from_str("lru");
                Ok(conclude(*name == lru, Tasks::C1, index, logs, now))
            },
            _ => Err(Error::wrong_dependency()),
        },
    }
}

/// The content store at full capacity takes no more than 80% of the host's
/// memory.
pub open spec fn c2_verdict(capacity: DataView, memory: DataView) -> Option<bool> {
    match (capacity, memory) {
        (DataView::M2(entries), DataView::M13(bytes)) => Some(
            entries * CS_ENTRY_SIZE * 100 <= bytes * 80,
        ),
        _ => None,
    }
}

/// The capacity of the content store, in bytes at 8192 an entry, is at most
/// 80% of the memory of the host.
pub fn c2(
    m2: &Result<Logging<Measurement>, Error>,
    m13: &Result<Logging<Measurement>, Error>,
    index: u64,
    now: Time,
) -> (r: Result<Logging<Evaluation>, Error>)
    ensures
        evaluated_view(r) == constraint_of_two(
            Tasks::C2,
            |a: DataView, b: DataView| c2_verdict(a, b),
            measured_view(*m2),
            measured_view(*m13),
            index,
            now,
        ),
{
    match (m2, m13) {
        (Err(e), _) => Err(e.clone()),
        (Ok(_), Err(e)) => Err(e.clone()),
        (Ok(Logging(capacity, first)), Ok(Logging(memory, second))) => match (
            &capacity.data,
            &memory.data,
        ) {
            (Data::M2(entries), Data::M13(bytes)) => {
                let entries: u128 = *entries as u128;
                let bytes: u128 = *bytes as u128;
                let entry: u128 = CS_ENTRY_SIZE as u128;
                let value = entries * entry * 100 <= bytes * 80;
                Ok(conclude_of_two(value, Tasks::C2, index, first, second, now))
            },
            _ => Err(Error::wrong_dependencies()),
        },
    }
}

/// The capacity is within what the policy accepts.
pub open spec fn c3_verdict(data: DataView) -> Option<bool> {
    match data {
        DataView::M2(entries) => Some(entries <= MAX_CAPACITY),
        _ => None,
    }
}

/// The capacity of the content store is at most 100,000 entries.
pub fn c3(m2: &Result<Logging<Measurement>, Error>, index: u64, now: Time) -> (r: Result<
    Logging<Evaluation>,
    Error,
>)
    ensures
        evaluated_view(r) == constraint(
            Tasks::C3,
            |d: DataView| c3_verdict(d),
            measured_view(*m2),
            index,
            now,
        ),
{
    match m2 {
        Err(e) => Err(e.clone()),
        Ok(Logging(measurement, logs)) => match &measurement.data {
            Data::M2(entries) => Ok(conclude(*entries <= MAX_CAPACITY, Tasks::C3, index, logs, now)),
            _ => Err(Error::wrong_dependency()),
        },
    }
}

/// The content store is used to at least 80% of its capacity.
pub open spec fn c4_verdict(capacity: DataView, usage: DataView) -> Option<bool> {
    match (capacity, usage) {
        (DataView::M2(entries), DataView::M3(used)) => Some(used * 100 >= entries * 80),
        _ => None,
    }
}

/// The entries held by the content store are at least 80% of its capacity.
pub fn c4(
    m2: &Result<Logging<Measurement>, Error>,
    m3: &Result<Logging<Measurement>, Error>,
    index: u64,
    now: Time,
) -> (r: Result<Logging<Evaluation>, Error>)
    ensures
        evaluated_view(r) == constraint_of_two(
            Tasks::C4,
            |a: DataView, b: DataView| c4_verdict(a, b),
            measured_view(*m2),
            measured_view(*m3),
            index,
            now,
        ),
{
    match (m2, m3) {
        (Err(e), _) => Err(e.clone()),
        (Ok(_), Err(e)) => Err(e.clone()),
        (Ok(Logging(capacity, first)), Ok(Logging(usage, second))) => match (
            &capacity.data,
            &usage.data,
        ) {
            (Data::M2(entries), Data::M3(used)) => {
                let entries: u128 = *entries as u128;
                let used: u128 = *used as u128;
                let value = used * 100 >= entries * 80;
                Ok(conclude_of_two(value, Tasks::C4, index, first, second, now))
            },
            _ => Err(Error::wrong_dependencies()),
        },
    }
}

/// The sum of the values.
pub open spec fn sum(xs: Seq<u64>) -> int
    decreases xs.len(),
{
    if xs.len() == 0 {
        0
    } else {
        sum(xs.drop_last()) + xs.last()
    }
}

/// The sum of the squares of the values.
pub open spec fn sum_of_squares(xs: Seq<u64>) -> int
    decreases xs.len(),
{
    if xs.len() == 0 {
        0
    } else {
        sum_of_squares(xs.drop_last()) + xs.last() * xs.last()
    }
}

/// Whether the sample standard deviation of the values is below `limit`.
///
/// Of `n` values with sum `S` and sum of squares `Q` the sample variance,
/// the one with `n - 1` for denominator, is `(Q - S * S / n) / (n - 1)`. It is
/// below the square of `limit` exactly where `n * Q - S * S` is below
/// `limit * limit * n * (n - 1)`, which is how it is stated here, in whole
/// numbers.
pub open spec fn deviation_below(xs: Seq<u64>, limit: int) -> bool {
    let n = xs.len() as int;
    n * sum_of_squares(xs) - sum(xs) * sum(xs) < limit * limit * n * (n - 1)
}

/// The values of the `count` latest entries of a series of the store's
/// usage, oldest first: nothing where the series is shorter, or where one of
/// those entries is no usage value.
pub open spec fn latest_usages(series: Seq<(u64, DataView)>, count: int) -> Option<Seq<u64>> {
    let from = series.len() - count;
    if from < 0 {
        None
    } else if forall|i: int| from <= i < series.len() ==> (#[trigger] series[i]).1 is M3 {
        Some(Seq::new(count as nat, |i: int| series[from + i].1->M3_0))
    } else {
        None
    }
}

/// Whether the usage has been steady: the five latest measurements of it
/// are there, and their sample standard deviation is below 5.
pub open spec fn usage_steady(series: Seq<(u64, DataView)>) -> bool {
    match latest_usages(series, USAGE_SAMPLES as int) {
        None => false,
        Some(xs) => deviation_below(xs, USAGE_DEVIATION_LIMIT as int),
    }
}

/// The outcome of the constraint on the steadiness of the usage. Before the
/// fifth cycle the verdict is false whatever usage was measured; from then
/// on it is read off the store that came with the measurement.
pub open spec fn c5_spec(measurement: Measured, index: u64, now: Time) -> Evaluated {
    match measurement {
        Err(e) => Err(e),
        Ok((m, logs)) => if !(m.data is M3) {
            Err(wrong_dependencies())
        } else if index < 4 {
            Ok(evaluated(false, Tasks::C5, index, logs, now))
        } else {
            Ok(
                evaluated(
                    usage_steady(logs.measurements_index[Metrics::M3]),
                    Tasks::C5,
                    index,
                    logs,
                    now,
                ),
            )
        },
    }
}

/// Before the fifth cycle there are not five measurements to compare: the
/// verdict is false whatever usage was measured and whatever the store
/// holds.
pub proof fn lemma_c5_needs_five_cycles(
    measurement: crate::task::MeasurementView,
    logs: LogsView,
    index: u64,
    now: Time,
)
    requires
        index < 4,
        measurement.data is M3,
    ensures
        c5_spec(Ok((measurement, logs)), index, now) is Ok,
        !c5_spec(Ok((measurement, logs)), index, now)->Ok_0.0.value,
{
}

/// No single square exceeds the sum of the squares.
proof fn lemma_square_within_sum(xs: Seq<u64>, i: int)
    requires
        0 <= i < xs.len(),
    ensures
        xs[i] * xs[i] <= sum_of_squares(xs),
        sum_of_squares(xs) >= 0,
    decreases xs.len(),
{
    lemma_sum_of_squares_grows(xs, xs.len() as int);
    if i < xs.len() - 1 {
        lemma_square_within_sum(xs.drop_last(), i);
    }
    assert(xs.last() * xs.last() >= 0) by (nonlinear_arith);
    lemma_sum_of_squares_grows(xs.drop_last(), xs.len() - 1);
    assert(xs.drop_last().take(xs.len() - 1) =~= xs.drop_last());
    assert(xs.take(xs.len() as int) =~= xs);
}

/// The sum of the squares of a prefix is not negative.
proof fn lemma_sum_of_squares_grows(xs: Seq<u64>, n: int)
    requires
        0 <= n <= xs.len(),
    ensures
        0 <= sum_of_squares(xs.take(n)),
    decreases n,
{
    if n > 0 {
        lemma_sum_of_squares_grows(xs, n - 1);
        assert(xs.take(n).drop_last() =~= xs.take(n - 1));
        assert(xs[n - 1] * xs[n - 1] >= 0) by (nonlinear_arith);
    }
}

/// The distance between two values.
fn distance(a: u64, b: u64) -> (d: u64)
    ensures
        d == if a >= b {
            a - b
        } else {
            b - a
        },
{
    if a >= b {
        a - b
    } else {
        b - a
    }
}

/// For five values, five times the sum of their squares less the square of
/// their sum is the sum of the squares of the ten distances between them.
proof fn lemma_five_values(xs: Seq<u64>, ds: Seq<u64>)
    requires
        xs.len() == 5,
        ds.len() == 10,
        ds[0] * ds[0] == (xs[0] - xs[1]) * (xs[0] - xs[1]),
        ds[1] * ds[1] == (xs[0] - xs[2]) * (xs[0] - xs[2]),
        ds[2] * ds[2] == (xs[0] - xs[3]) * (xs[0] - xs[3]),
        ds[3] * ds[3] == (xs[0] - xs[4]) * (xs[0] - xs[4]),
        ds[4] * ds[4] == (xs[1] - xs[2]) * (xs[1] - xs[2]),
        ds[5] * ds[5] == (xs[1] - xs[3]) * (xs[1] - xs[3]),
        ds[6] * ds[6] == (xs[1] - xs[4]) * (xs[1] - xs[4]),
        ds[7] * ds[7] == (xs[2] - xs[3]) * (xs[2] - xs[3]),
        ds[8] * ds[8] == (xs[2] - xs[4]) * (xs[2] - xs[4]),
        ds[9] * ds[9] == (xs[3] - xs[4]) * (xs[3] - xs[4]),
    ensures
        sum_of_squares(ds) == 5 * sum_of_squares(xs) - sum(xs) * sum(xs),
{
    let a = xs[0] as int;
    let b = xs[1] as int;
    let c = xs[2] as int;
    let d = xs[3] as int;
    let e = xs[4] as int;
    assert(sum(xs) == a + b + c + d + e && sum_of_squares(xs) == a * a + b * b + c * c + d * d + e
        * e) by {
        let x4 = xs.drop_last();
        let x3 = x4.drop_last();
        let x2 = x3.drop_last();
        let x1 = x2.drop_last();
        let x0 = x1.drop_last();
        assert(x0.len() == 0);
        assert(sum(x0) == 0 && sum_of_squares(x0) == 0);
        assert(sum(x1) == a && sum_of_squares(x1) == a * a);
        assert(sum(x2) == a + b && sum_of_squares(x2) == a * a + b * b);
        assert(sum(x3) == a + b + c && sum_of_squares(x3) == a * a + b * b + c * c);
        assert(sum(x4) == a + b + c + d && sum_of_squares(x4) == a * a + b * b + c * c + d * d);
    }
    let q = (a - b) * (a - b) + (a - c) * (a - c) + (a - d) * (a - d) + (a - e) * (a - e) + (b - c)
        * (b - c) + (b - d) * (b - d) + (b - e) * (b - e) + (c - d) * (c - d) + (c - e) * (c - e)
        + (d - e) * (d - e);
    assert(sum_of_squares(ds) == q) by {
        let d9 = ds.drop_last();
        let d8 = d9.drop_last();
        let d7 = d8.drop_last();
        let d6 = d7.drop_last();
        let d5 = d6.drop_last();
        let d4 = d5.drop_last();
        let d3 = d4.drop_last();
        let d2 = d3.drop_last();
        let d1 = d2.drop_last();
        let d0 = d1.drop_last();
        assert(d0.len() == 0);
        assert(sum_of_squares(d0) == 0);
        assert(sum_of_squares(d1) == ds[0] * ds[0]);
        assert(sum_of_squares(d2) == sum_of_squares(d1) + ds[1] * ds[1]);
        assert(sum_of_squares(d3) == sum_of_squares(d2) + ds[2] * ds[2]);
        assert(sum_of_squares(d4) == sum_of_squares(d3) + ds[3] * ds[3]);
        assert(sum_of_squares(d5) == sum_of_squares(d4) + ds[4] * ds[4]);
        assert(sum_of_squares(d6) == sum_of_squares(d5) + ds[5] * ds[5]);
        assert(sum_of_squares(d7) == sum_of_squares(d6) + ds[6] * ds[6]);
        assert(sum_of_squares(d8) == sum_of_squares(d7) + ds[7] * ds[7]);
        assert(sum_of_squares(d9) == sum_of_squares(d8) + ds[8] * ds[8]);
        assert(sum_of_squares(ds) == sum_of_squares(d9) + ds[9] * ds[9]);
    }
    let t = a + b + c + d + e;
    assert(t * t == a * t + b * t + c * t + d * t + e * t) by (nonlinear_arith)
        requires
            t == a + b + c + d + e,
    ;
    assert(a * t == a * a + a * b + a * c + a * d + a * e) by (nonlinear_arith)
        requires
            t == a + b + c + d + e,
    ;
    assert(b * t == a * b + b * b + b * c + b * d + b * e) by (nonlinear_arith)
        requires
            t == a + b + c + d + e,
    ;
    assert(c * t == a * c + b * c + c * c + c * d + c * e) by (nonlinear_arith)
        requires
            t == a + b + c + d + e,
    ;
    assert(d * t == a * d + b * d + c * d + d * d + d * e) by (nonlinear_arith)
        requires
            t == a + b + c + d + e,
    ;
    assert(e * t == a * e + b * e + c * e + d * e + e * e) by (nonlinear_arith)
        requires
            t == a + b + c + d + e,
    ;
    lemma_square_of_difference(a, b);
    lemma_square_of_difference(a, c);
    lemma_square_of_difference(a, d);
    lemma_square_of_difference(a, e);
    lemma_square_of_difference(b, c);
    lemma_square_of_difference(b, d);
    lemma_square_of_difference(b, e);
    lemma_square_of_difference(c, d);
    lemma_square_of_difference(c, e);
    lemma_square_of_difference(d, e);
}

/// The square of a difference, multiplied out.
proof fn lemma_square_of_difference(x: int, y: int)
    ensures
        (x - y) * (x - y) == x * x - 2 * (x * y) + y * y,
{
    assert((x - y) * (x - y) == x * x - 2 * (x * y) + y * y) by (nonlinear_arith);
}

/// Tells whether the sample standard deviation of five values is below
/// `limit`.
pub fn deviation_of_five_below(xs: &[u64; 5], limit: u32) -> (r: bool)
    ensures
        r == deviation_below(xs@, limit as int),
{
    let mut ds: Vec<u64> = Vec::new();
    ds.push(distance(xs[0], xs[1]));
    ds.push(distance(xs[0], xs[2]));
    ds.push(distance(xs[0], xs[3]));
    ds.push(distance(xs[0], xs[4]));
    ds.push(distance(xs[1], xs[2]));
    ds.push(distance(xs[1], xs[3]));
    ds.push(distance(xs[1], xs[4]));
    ds.push(distance(xs[2], xs[3]));
    ds.push(distance(xs[2], xs[4]));
    ds.push(distance(xs[3], xs[4]));
    proof {
        lemma_distance_squared(xs@[0], xs@[1], ds@[0]);
        lemma_distance_squared(xs@[0], xs@[2], ds@[1]);
        lemma_distance_squared(xs@[0], xs@[3], ds@[2]);
        lemma_distance_squared(xs@[0], xs@[4], ds@[3]);
        lemma_distance_squared(xs@[1], xs@[2], ds@[4]);
        lemma_distance_squared(xs@[1], xs@[3], ds@[5]);
        lemma_distance_squared(xs@[1], xs@[4], ds@[6]);
        lemma_distance_squared(xs@[2], xs@[3], ds@[7]);
        lemma_distance_squared(xs@[2], xs@[4], ds@[8]);
        lemma_distance_squared(xs@[3], xs@[4], ds@[9]);
        lemma_five_values(xs@, ds@);
    }
    let wide: u128 = limit as u128;
    assert(wide * wide <= 0xffff_ffff * 0xffff_ffff) by (nonlinear_arith)
        requires
            0 <= wide <= 0xffff_ffff,
    ;
    let bound: u128 = wide * wide * 20;
    assert(bound == limit * limit * 5 * (5 - 1)) by (nonlinear_arith)
        requires
            bound == wide * wide * 20,
            wide == limit,
    ;
    let mut total: u128 = 0;
    let mut i: usize = 0;
    proof {
        assert(ds@.take(0) =~= Seq::empty());
    }
    while i < ds.len()
        invariant
            i <= ds.len(),
            ds.len() == 10,
            xs.len() == 5,
            total == sum_of_squares(ds@.take(i as int)),
            total <= bound * i,
            bound <= 0xffff_ffff * 0xffff_ffff * 20,
            bound == limit * limit * 5 * (5 - 1),
            sum_of_squares(ds@) == 5 * sum_of_squares(xs@) - sum(xs@) * sum(xs@),
        decreases ds.len() - i,
    {
        let d: u128 = ds[i] as u128;
        assert(d * d <= 0xffff_ffff_ffff_ffff * 0xffff_ffff_ffff_ffff) by (nonlinear_arith)
            requires
                0 <= d <= 0xffff_ffff_ffff_ffff,
        ;
        let square: u128 = d * d;
        proof {
            assert(ds@.take(i + 1).drop_last() =~= ds@.take(i as int));
            lemma_square_within_sum(ds@, i as int);
        }
        if square >= bound {
            return false;
        }
        assert(bound * (i + 1) == bound * i + bound && bound * i <= bound * 10) by (nonlinear_arith)
            requires
                0 <= i < 10,
                0 <= bound,
        ;
        total = total + square;
        i += 1;
    }
    assert(ds@.take(ds.len() as int) =~= ds@);
    total < bound
}

/// The square of the distance of two values is the square of their
/// difference.
proof fn lemma_distance_squared(a: u64, b: u64, d: u64)
    requires
        d == if a >= b {
            a - b
        } else {
            b - a
        },
    ensures
        d * d == (a - b) * (a - b),
{
    assert(d * d == (a - b) * (a - b)) by (nonlinear_arith)
        requires
            d == a - b || d == b - a,
    ;
}

/// Reads the five latest usage values off a series.
fn read_latest_usages(series: &Vec<(u64, Data)>) -> (r: Option<[u64; 5]>)
    ensures
        match latest_usages(series_view(series@), USAGE_SAMPLES as int) {
            None => r is None,
            Some(xs) => r is Some && r->Some_0@ == xs,
        },
{
    let ghost view = series_view(series@);
    if series.len() < USAGE_SAMPLES {
        return None;
    }
    let from: usize = series.len() - USAGE_SAMPLES;
    let mut xs: Vec<u64> = Vec::new();
    let mut i: usize = from;
    while i < series.len()
        invariant
            from <= i <= series.len(),
            from == series.len() - USAGE_SAMPLES,
            view == series_view(series@),
            xs.len() == i - from,
            forall|j: int| from <= j < i ==> (#[trigger] view[j]).1 is M3,
            forall|j: int| 0 <= j < i - from ==> xs@[j] == view[from + j].1->M3_0,
        decreases series.len() - i,
    {
        assert(view[i as int].1 == series@[i as int].1@);
        match &series[i].1 {
            Data::M3(used) => {
                xs.push(*used);
            },
            _ => {
                return None;
            },
        }
        i += 1;
    }
    let five: [u64; 5] = [xs[0], xs[1], xs[2], xs[3], xs[4]];
    assert(five@ =~= latest_usages(view, USAGE_SAMPLES as int)->Some_0);
    Some(five)
}

/// The usage of the content store has been steady: over its five latest
/// measurements the sample standard deviation is below 5. Before the fifth
/// cycle, or with fewer than five measurements in the store, the verdict is
/// false. A measurement of another metric is an error in every cycle.
pub fn c5(m3: &Result<Logging<Measurement>, Error>, index: u64, now: Time) -> (r: Result<
    Logging<Evaluation>,
    Error,
>)
    ensures
        evaluated_view(r) == c5_spec(measured_view(*m3), index, now),
{
    match m3 {
        Err(e) => Err(e.clone()),
        Ok(Logging(measurement, logs)) => match &measurement.data {
            Data::M3(_) => {
                let value = if index < 4 {
                    false
                } else {
                    match read_latest_usages(logs.measurements_index(Metrics::M3)) {
                        None => false,
                        Some(xs) => deviation_of_five_below(&xs, USAGE_DEVIATION_LIMIT),
                    }
                };
                Ok(conclude(value, Tasks::C5, index, logs, now))
            },
            _ => Err(Error::wrong_dependencies()),
        },
    }
}

/// The spread of the sizes of the entries held is small: their standard
/// deviation is at most 5.
pub open spec fn c6_verdict(data: DataView) -> Option<bool> {
    match data {
        DataView::M4(s) => Some(s.std_dev.at_most_whole(SIZE_DEVIATION_LIMIT as int)),
        _ => None,
    }
}

/// The standard deviation of the size of the entries held is at most 5.
pub fn c6(m4: &Result<Logging<Measurement>, Error>, index: u64, now: Time) -> (r: Result<
    Logging<Evaluation>,
    Error,
>)
    ensures
        evaluated_view(r) == constraint(
            Tasks::C6,
            |d: DataView| c6_verdict(d),
            measured_view(*m4),
            index,
            now,
        ),
{
    match m4 {
        Err(e) => Err(e.clone()),
        Ok(Logging(measurement, logs)) => match &measurement.data {
            Data::M4(s) => {
                proof {
                    lemma_small_numbers();
                }
                let value = s.std_dev.at_most(&Double::from_bits(FIVE));
                Ok(conclude(value, Tasks::C6, index, logs, now))
            },
            _ => Err(Error::wrong_dependency()),
        },
    }
}

/// The entries held are large enough: their mean size is at least 20.
pub open spec fn c7_verdict(data: DataView) -> Option<bool> {
    match data {
        DataView::M4(s) => Some(s.avg.at_least_whole(SIZE_MEAN_LEAST as int)),
        _ => None,
    }
}

/// The mean size of the entries held is at least 20.
pub fn c7(m4: &Result<Logging<Measurement>, Error>, index: u64, now: Time) -> (r: Result<
    Logging<Evaluation>,
    Error,
>)
    ensures
        evaluated_view(r) == constraint(
            Tasks::C7,
            |d: DataView| c7_verdict(d),
            measured_view(*m4),
            index,
            now,
        ),
{
    match m4 {
        Err(e) => Err(e.clone()),
        Ok(Logging(measurement, logs)) => match &measurement.data {
            Data::M4(s) => {
                proof {
                    lemma_small_numbers();
                }
                let value = Double::from_bits(TWENTY).at_most(&s.avg);
                Ok(conclude(value, Tasks::C7, index, logs, now))
            },
            _ => Err(Error::wrong_dependency()),
        },
    }
}

/// Whether the estimate of every face is below the limit.
pub open spec fn pending_below(pending: Seq<(u64, i128)>, limit: i128) -> bool {
    forall|i: int| 0 <= i < pending.len() ==> (#[trigger] pending[i]).1 < limit
}

/// No face has too many interests pending.
pub open spec fn c8_verdict(data: DataView) -> Option<bool> {
    match data {
        DataView::M6(pending) => Some(pending_below(pending, PENDING_LIMIT)),
        _ => None,
    }
}

fn all_pending_below(pending: &Vec<(u64, i128)>, limit: i128) -> (r: bool)
    ensures
        r == pending_below(pending@, limit),
{
    let mut i: usize = 0;
    while i < pending.len()
        invariant
            i <= pending.len(),
            forall|j: int| 0 <= j < i ==> (#[trigger] pending@[j]).1 < limit,
        decreases pending.len() - i,
    {
        if pending[i].1 >= limit {
            return false;
        }
        i += 1;
    }
    true
}

/// On every face fewer than 100 interests are pending, by the estimate.
pub fn c8(m6: &Result<Logging<Measurement>, Error>, index: u64, now: Time) -> (r: Result<
    Logging<Evaluation>,
    Error,
>)
    ensures
        evaluated_view(r) == constraint(
            Tasks::C8,
            |d: DataView| c8_verdict(d),
            measured_view(*m6),
            index,
            now,
        ),
{
    match m6 {
        Err(e) => Err(e.clone()),
        Ok(Logging(measurement, logs)) => match &measurement.data {
            Data::M6(pending) => Ok(
                conclude(all_pending_below(pending, PENDING_LIMIT), Tasks::C8, index, logs, now),
            ),
            _ => Err(Error::wrong_dependency()),
        },
    }
}

/// Whether the smallest packet of every face has at least `least` bytes.
pub open spec fn minimum_at_least(stats: Seq<(u64, PacketStatistics)>, least: u64) -> bool {
    forall|i: int| 0 <= i < stats.len() ==> (#[trigger] stats[i]).1.min >= least
}

fn all_minimum_at_least(stats: &Vec<(u64, PacketStatistics)>, least: u64) -> (r: bool)
    ensures
        r == minimum_at_least(stats@, least),
{
    let mut i: usize = 0;
    while i < stats.len()
        invariant
            i <= stats.len(),
            forall|j: int| 0 <= j < i ==> (#[trigger] stats@[j]).1.min >= least,
        decreases stats.len() - i,
    {
        if stats[i].1.min < least {
            return false;
        }
        i += 1;
    }
    true
}

/// No face saw an interest of fewer than 10 bytes.
pub open spec fn c9_verdict(data: DataView) -> Option<bool> {
    match data {
        DataView::M7(stats) => Some(minimum_at_least(stats, MIN_PACKET_SIZE)),
        _ => None,
    }
}

/// On every face the smallest interest that came in has at least 10 bytes.
pub fn c9(m7: &Result<Logging<Measurement>, Error>, index: u64, now: Time) -> (r: Result<
    Logging<Evaluation>,
    Error,
>)
    ensures
        evaluated_view(r) == constraint(
            Tasks::C9,
            |d: DataView| c9_verdict(d),
            measured_view(*m7),
            index,
            now,
        ),
{
    match m7 {
        Err(e) => Err(e.clone()),
        Ok(Logging(measurement, logs)) => match &measurement.data {
            Data::M7(stats) => Ok(
                conclude(all_minimum_at_least(stats, MIN_PACKET_SIZE), Tasks::C9, index, logs, now),
            ),
            _ => Err(Error::wrong_dependency()),
        },
    }
}

/// No face sent a data packet of fewer than 10 bytes.
pub open spec fn c11_verdict(data: DataView) -> Option<bool> {
    match data {
        DataView::M8(stats) => Some(minimum_at_least(stats, MIN_PACKET_SIZE)),
        _ => None,
    }
}

/// On every face the smallest data packet that went out has at least 10
/// bytes.
pub fn c11(m8: &Result<Logging<Measurement>, Error>, index: u64, now: Time) -> (r: Result<
    Logging<Evaluation>,
    Error,
>)
    ensures
        evaluated_view(r) == constraint(
            Tasks::C11,
            |d: DataView| c11_verdict(d),
            measured_view(*m8),
            index,
            now,
        ),
{
    match m8 {
        Err(e) => Err(e.clone()),
        Ok(Logging(measurement, logs)) => match &measurement.data {
            Data::M8(stats) => Ok(
                conclude(all_minimum_at_least(stats, MIN_PACKET_SIZE), Tasks::C11, index, logs, now),
            ),
            _ => Err(Error::wrong_dependency()),
        },
    }
}

/// Whether the mean of every face that has one lies strictly between `low`
/// and `high`. A face whose mean is NaN saw no traffic and is passed over.
pub open spec fn averages_within(stats: Seq<(u64, PacketStatistics)>, low: int, high: int) -> bool {
    forall|i: int|
        0 <= i < stats.len() && !(#[trigger] stats[i]).1.avg.is_nan()
            ==> stats[i].1.avg.between_wholes(low, high)
}

/// A list in which every mean is NaN passes: no face is there to offend.
pub proof fn lemma_nan_averages_pass(stats: Seq<(u64, PacketStatistics)>, low: int, high: int)
    requires
        forall|i: int| 0 <= i < stats.len() ==> (#[trigger] stats[i]).1.avg.is_nan(),
    ensures
        averages_within(stats, low, high),
{
}

fn all_components_in_range(stats: &Vec<(u64, PacketStatistics)>) -> (r: bool)
    ensures
        r == averages_within(stats@, COMPONENTS_LOW as int, COMPONENTS_HIGH as int),
{
    proof {
        lemma_small_numbers();
    }
    let low = Double::from_bits(THREE);
    let high = Double::from_bits(TWELVE);
    let mut i: usize = 0;
    while i < stats.len()
        invariant
            i <= stats.len(),
            low.bits == THREE,
            high.bits == TWELVE,
            stands_for(THREE, 3),
            stands_for(TWELVE, 12),
            forall|j: int|
                0 <= j < i && !(#[trigger] stats@[j]).1.avg.is_nan()
                    ==> stats@[j].1.avg.between_wholes(3, 12),
        decreases stats.len() - i,
    {
        let avg = stats[i].1.avg;
        if !avg.nan() && !(low.less(&avg) && avg.less(&high)) {
            return false;
        }
        i += 1;
    }
    true
}

/// The interests of every face with traffic have, on average, more than 3
/// and fewer than 12 components.
pub open spec fn c10_verdict(data: DataView) -> Option<bool> {
    match data {
        DataView::M9(stats) => Some(
            averages_within(stats, COMPONENTS_LOW as int, COMPONENTS_HIGH as int),
        ),
        _ => None,
    }
}

/// On every face the mean component count of the interests that came in
/// lies strictly between 3 and 12, faces without such a mean aside.
pub fn c10(m9: &Result<Logging<Measurement>, Error>, index: u64, now: Time) -> (r: Result<
    Logging<Evaluation>,
    Error,
>)
    ensures
        evaluated_view(r) == constraint(
            Tasks::C10,
            |d: DataView| c10_verdict(d),
            measured_view(*m9),
            index,
            now,
        ),
{
    match m9 {
        Err(e) => Err(e.clone()),
        Ok(Logging(measurement, logs)) => match &measurement.data {
            Data::M9(stats) => {
                let value = all_components_in_range(stats);
                Ok(conclude(value, Tasks::C10, index, logs, now))
            },
            _ => Err(Error::wrong_dependency()),
        },
    }
}

/// The data packets of every face with traffic have, on average, more than
/// 3 and fewer than 12 components.
pub open spec fn c12_verdict(data: DataView) -> Option<bool> {
    match data {
        DataView::M10(stats) => Some(
            averages_within(stats, COMPONENTS_LOW as int, COMPONENTS_HIGH as int),
        ),
        _ => None,
    }
}

/// On every face the mean component count of the data packets that went out
/// lies strictly between 3 and 12, faces without such a mean aside.
pub fn c12(m10: &Result<Logging<Measurement>, Error>, index: u64, now: Time) -> (r: Result<
    Logging<Evaluation>,
    Error,
>)
    ensures
        evaluated_view(r) == constraint(
            Tasks::C12,
            |d: DataView| c12_verdict(d),
            measured_view(*m10),
            index,
            now,
        ),
{
    match m10 {
        Err(e) => Err(e.clone()),
        Ok(Logging(measurement, logs)) => match &measurement.data {
            Data::M10(stats) => {
                let value = all_components_in_range(stats);
                Ok(conclude(value, Tasks::C12, index, logs, now))
            },
            _ => Err(Error::wrong_dependency()),
        },
    }
}

/// Whether `now` lies strictly inside every validity interval.
pub open spec fn all_valid_at(validities: Seq<(Seq<char>, Validity)>, now: Time) -> bool {
    forall|i: int|
        0 <= i < validities.len() ==> (#[trigger] validities[i]).1.not_before.nanos < now.nanos
            < validities[i].1.not_after.nanos
}

fn every_certificate_valid(validities: &Vec<(String, Validity)>, now: Time) -> (r: bool)
    ensures
        r == all_valid_at(named_view(validities@), now),
{
    let ghost view = named_view(validities@);
    let mut i: usize = 0;
    while i < validities.len()
        invariant
            i <= validities.len(),
            view == named_view(validities@),
            forall|j: int|
                0 <= j < i ==> (#[trigger] view[j]).1.not_before.nanos < now.nanos
                    < view[j].1.not_after.nanos,
        decreases validities.len() - i,
    {
        let validity = validities[i].1;
        assert(view[i as int].1 == validity);
        if !(validity.not_before.earlier(&now) && now.earlier(&validity.not_after)) {
            return false;
        }
        i += 1;
    }
    true
}

/// Every certificate is valid at the instant of the evaluation.
pub open spec fn c13_verdict(data: DataView, now: Time) -> Option<bool> {
    match data {
        DataView::M11(validities) => Some(all_valid_at(validities, now)),
        _ => None,
    }
}

/// For every identity, the instant of the evaluation lies strictly inside
/// the validity interval of its certificate.
pub fn c13(m11: &Result<Logging<Measurement>, Error>, index: u64, now: Time) -> (r: Result<
    Logging<Evaluation>,
    Error,
>)
    ensures
        evaluated_view(r) == constraint(
            Tasks::C13,
            |d: DataView| c13_verdict(d, now),
            measured_view(*m11),
            index,
            now,
        ),
{
    match m11 {
        Err(e) => Err(e.clone()),
        Ok(Logging(measurement, logs)) => match &measurement.data {
            Data::M11(validities) => Ok(
                conclude(every_certificate_valid(validities, now), Tasks::C13, index, logs, now),
            ),
            _ => Err(Error::wrong_dependency()),
        },
    }
}

/// A default certificate is set.
pub open spec fn c14_verdict(data: DataView) -> Option<bool> {
    match data {
        DataView::M12(certificate) => Some(certificate is Some),
        _ => None,
    }
}

/// A default certificate is set.
pub fn c14(m12: &Result<Logging<Measurement>, Error>, index: u64, now: Time) -> (r: Result<
    Logging<Evaluation>,
    Error,
>)
    ensures
        evaluated_view(r) == constraint(
            Tasks::C14,
            |d: DataView| c14_verdict(d),
            measured_view(*m12),
            index,
            now,
        ),
{
    match m12 {
        Err(e) => Err(e.clone()),
        Ok(Logging(measurement, logs)) => match &measurement.data {
            Data::M12(certificate) => Ok(
                conclude(certificate.is_some(), Tasks::C14, index, logs, now),
            ),
            _ => Err(Error::wrong_dependency()),
        },
    }
}

/// No cached packet has a signature that does not verify.
pub open spec fn c15_verdict(data: DataView) -> Option<bool> {
    match data {
        DataView::M14(counts) => Some(counts.invalid == 0),
        _ => None,
    }
}

/// The content store holds no packet whose signature does not verify.
pub fn c15(m14: &Result<Logging<Measurement>, Error>, index: u64, now: Time) -> (r: Result<
    Logging<Evaluation>,
    Error,
>)
    ensures
        evaluated_view(r) == constraint(
            Tasks::C15,
            |d: DataView| c15_verdict(d),
            measured_view(*m14),
            index,
            now,
        ),
{
    match m14 {
        Err(e) => Err(e.clone()),
        Ok(Logging(measurement, logs)) => match &measurement.data {
            Data::M14(counts) => Ok(conclude(counts.invalid == 0, Tasks::C15, index, logs, now)),
            _ => Err(Error::wrong_dependency()),
        },
    }
}

} // verus!
