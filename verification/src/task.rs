//! Measurements, evaluations, and the store that logs them.
//!
//! The store holds, under every metric and under every task, a series by
//! cycle index and a series by instant, and beside them the duration of each
//! cycle. In every series the stamps strictly increase: an entry is recorded
//! only behind a tail that is older, so that no index and no instant is ever
//! written twice under one key. Two stores merge series by series, and a
//! merge can be repeated without effect. The table of a store is the same
//! content, grouped into dictionaries for writing out.

use vstd::prelude::*;
use vstd::string::StringExecFns;
use std::collections::HashMap;
use crate::command;
use crate::data::{Data, DataView, Metrics, Record, Tasks, METRICS, TASKS};
use crate::series::{
    append_newer, duplicate_series, extends, increasing, lemma_merge_series_commutes,
    lemma_merge_series_idempotent, lemma_merge_series_increasing, lemma_merge_series_keeps,
    merge_into, merge_series, push_newer, series_view, Stamp,
};
use crate::time::Time;

verus! {

/// Why a measurement or an evaluation could not be made.
#[derive(Debug, PartialEq, Eq)]
pub enum Error {
    /// A command that reports on the node failed.
    TaskError(command::Error),
    /// A command did not answer in time.
    TimeoutError,
    /// A computation was handed a value of another metric than the one it
    /// works on. The text says which kind of dependency was wrong.
    EvaluationError(String),
}

/// An error, its text taken by its characters.
pub enum ErrorView {
    TaskError(command::ErrorView),
    TimeoutError,
    EvaluationError(Seq<char>),
}

impl View for Error {
    type V = ErrorView;

    open spec fn view(&self) -> ErrorView {
        match self {
            Error::TaskError(e) => ErrorView::TaskError(e@),
            Error::TimeoutError => ErrorView::TimeoutError,
            Error::EvaluationError(text) => ErrorView::EvaluationError(text@),
        }
    }
}

impl Clone for Error {
    /// The same error with the same text.
    fn clone(&self) -> (r: Error)
        ensures
            r@ == self@,
    {
        match self {
            Error::TaskError(e) => Error::TaskError(e.clone()),
            Error::TimeoutError => Error::TimeoutError,
            Error::EvaluationError(text) => Error::EvaluationError(text.clone()),
        }
    }
}

/// The error of a computation that was handed the wrong value for its one
/// dependency.
pub open spec fn wrong_dependency() -> ErrorView {
    ErrorView::EvaluationError("Wrong dependency task provided"@)
}

/// The error of a computation that was handed a wrong value among its
/// several dependencies.
pub open spec fn wrong_dependencies() -> ErrorView {
    ErrorView::EvaluationError("Wrong dependency tasks provided"@)
}

impl ErrorView {
    /// The text by which the error is reported: that of the command that
    /// failed, a fixed text for a timeout, and the text that names the wrong
    /// dependency.
    pub open spec fn text(self) -> Seq<char> {
        match self {
            ErrorView::TaskError(e) => e.text(),
            ErrorView::TimeoutError => "future has timed out"@,
            ErrorView::EvaluationError(text) => text,
        }
    }
}

impl Error {
    /// The text by which the error is reported.
    pub fn message(&self) -> (text: String)
        ensures
            text@ == self@.text(),
    {
        match self {
            Error::TaskError(e) => e.message(),
            Error::TimeoutError => String::from_str("future has timed out"),
            Error::EvaluationError(text) => text.clone(),
        }
    }

    /// The error of a computation that was handed the wrong value for its one
    /// dependency.
    pub fn wrong_dependency() -> (e: Error)
        ensures
            e@ == wrong_dependency(),
    {
        Error::EvaluationError(String::from_str("Wrong dependency task provided"))
    }

    /// The error of a computation that was handed a wrong value among its
    /// several dependencies.
    pub fn wrong_dependencies() -> (e: Error)
        ensures
            e@ == wrong_dependencies(),
    {
        Error::EvaluationError(String::from_str("Wrong dependency tasks provided"))
    }
}

/// The value of a metric in one cycle.
#[derive(Debug, PartialEq)]
pub struct Measurement {
    pub data: Data,
    pub index: u64,
    pub timestamp: Time,
}

/// What a measurement is, apart from how its value is stored.
pub struct MeasurementView {
    pub data: DataView,
    pub index: u64,
    pub timestamp: Time,
}

impl View for Measurement {
    type V = MeasurementView;

    open spec fn view(&self) -> MeasurementView {
        MeasurementView { data: self.data@, index: self.index, timestamp: self.timestamp }
    }
}

impl Clone for Measurement {
    /// A copy with the same value, index and instant.
    fn clone(&self) -> (r: Measurement)
        ensures
            r@ == self@,
    {
        Measurement { data: self.data.clone(), index: self.index, timestamp: self.timestamp }
    }
}

impl Measurement {
    /// The measurement of `data` in cycle `index`, taken at `timestamp`.
    pub fn at(data: Data, index: u64, timestamp: Time) -> (m: Measurement)
        ensures
            m.data == data,
            m.index == index,
            m.timestamp == timestamp,
    {
        Measurement { data, index, timestamp }
    }

    /// The measurement of `data` in cycle `index`, stamped with the present
    /// instant.
    pub fn new(data: Data, index: u64) -> (m: Measurement)
        ensures
            m.data == data,
            m.index == index,
    {
        Measurement::at(data, index, Time::now())
    }
}

/// The verdict of a task in one cycle.
#[derive(Debug, Clone, Copy, PartialEq, Eq, Structural)]
pub struct Evaluation {
    pub value: bool,
    pub index: u64,
    pub timestamp: Time,
}

impl Evaluation {
    /// The verdict `evaluation` of cycle `index`, reached at `timestamp`.
    pub fn at(evaluation: bool, index: u64, timestamp: Time) -> (e: Evaluation)
        ensures
            e == (Evaluation { value: evaluation, index, timestamp }),
    {
        Evaluation { value: evaluation, index, timestamp }
    }

    /// The verdict `evaluation` of cycle `index`, stamped with the present
    /// instant.
    pub fn new(evaluation: bool, index: u64) -> (e: Evaluation)
        ensures
            e.value == evaluation,
            e.index == index,
    {
        Evaluation::at(evaluation, index, Time::now())
    }
}

/// What a store holds: under every metric and every task a series by cycle
/// index and a series by instant, and the duration of each cycle.
pub struct LogsView {
    pub measurements_index: Map<Metrics, Seq<(u64, DataView)>>,
    pub measurements_timestamp: Map<Metrics, Seq<(Time, DataView)>>,
    pub evaluations_index: Map<Tasks, Seq<(u64, bool)>>,
    pub evaluations_timestamp: Map<Tasks, Seq<(Time, bool)>>,
    pub duration_index: Map<u64, i64>,
}

impl LogsView {
    /// The store that holds nothing.
    pub open spec fn empty() -> LogsView {
        LogsView {
            measurements_index: Map::new(|m: Metrics| true, |m: Metrics| Seq::empty()),
            measurements_timestamp: Map::new(|m: Metrics| true, |m: Metrics| Seq::empty()),
            evaluations_index: Map::new(|t: Tasks| true, |t: Tasks| Seq::empty()),
            evaluations_timestamp: Map::new(|t: Tasks| true, |t: Tasks| Seq::empty()),
            duration_index: Map::empty(),
        }
    }

    /// Whether every metric and every task has its series.
    pub open spec fn complete(self) -> bool {
        &&& forall|m: Metrics| self.measurements_index.dom().contains(m)
        &&& forall|m: Metrics| self.measurements_timestamp.dom().contains(m)
        &&& forall|t: Tasks| self.evaluations_index.dom().contains(t)
        &&& forall|t: Tasks| self.evaluations_timestamp.dom().contains(t)
    }

    /// The store with `measurement` recorded under `metric`: at the end of
    /// the series by index where its index is newer than the tail of that
    /// series, and at the end of the series by instant where its instant is
    /// newer than the tail of that one. A series whose tail is not older
    /// stays as it is: no index and no instant is written twice.
    pub open spec fn with_measurement(self, measurement: MeasurementView, metric: Metrics)
        -> LogsView {
        LogsView {
            measurements_index: self.measurements_index.insert(
                metric,
                append_newer(
                    self.measurements_index[metric],
                    (measurement.index, measurement.data),
                ),
            ),
            measurements_timestamp: self.measurements_timestamp.insert(
                metric,
                append_newer(
                    self.measurements_timestamp[metric],
                    (measurement.timestamp, measurement.data),
                ),
            ),
            ..self
        }
    }

    /// The store with `evaluation` recorded under `task`: at the end of the
    /// series by index where its index is newer than the tail of that
    /// series, and at the end of the series by instant where its instant is
    /// newer than the tail of that one.
    pub open spec fn with_evaluation(self, evaluation: Evaluation, task: Tasks) -> LogsView {
        LogsView {
            evaluations_index: self.evaluations_index.insert(
                task,
                append_newer(self.evaluations_index[task], (evaluation.index, evaluation.value)),
            ),
            evaluations_timestamp: self.evaluations_timestamp.insert(
                task,
                append_newer(
                    self.evaluations_timestamp[task],
                    (evaluation.timestamp, evaluation.value),
                ),
            ),
            ..self
        }
    }

    /// The store with `duration` recorded for cycle `index`, in place of what
    /// was recorded for it before.
    pub open spec fn with_duration(self, duration: i64, index: u64) -> LogsView {
        LogsView { duration_index: self.duration_index.insert(index, duration), ..self }
    }

    /// The store after it has taken in `other`: each series merged with the
    /// series of the same key, and the durations of `other` laid over its own.
    pub open spec fn merge(self, other: LogsView) -> LogsView {
        LogsView {
            measurements_index: Map::new(
                |m: Metrics| true,
                |m: Metrics| merge_series(self.measurements_index[m], other.measurements_index[m]),
            ),
            measurements_timestamp: Map::new(
                |m: Metrics| true,
                |m: Metrics|
                    merge_series(self.measurements_timestamp[m], other.measurements_timestamp[m]),
            ),
            evaluations_index: Map::new(
                |t: Tasks| true,
                |t: Tasks| merge_series(self.evaluations_index[t], other.evaluations_index[t]),
            ),
            evaluations_timestamp: Map::new(
                |t: Tasks| true,
                |t: Tasks|
                    merge_series(self.evaluations_timestamp[t], other.evaluations_timestamp[t]),
            ),
            duration_index: self.duration_index.union_prefer_right(other.duration_index),
        }
    }

    /// Whether in every series by index the indices strictly increase, so
    /// that no index occurs twice under one key.
    pub open spec fn monotone_by_index(self) -> bool {
        &&& forall|m: Metrics| increasing(#[trigger] self.measurements_index[m])
        &&& forall|t: Tasks| increasing(#[trigger] self.evaluations_index[t])
    }

    /// Whether in every series by instant the instants strictly increase, so
    /// that no instant occurs twice under one key.
    pub open spec fn monotone_by_instant(self) -> bool {
        &&& forall|m: Metrics| increasing(#[trigger] self.measurements_timestamp[m])
        &&& forall|t: Tasks| increasing(#[trigger] self.evaluations_timestamp[t])
    }

    /// Whether merging `delta` into this store adds entries to the series of
    /// `metric`, by index or by instant.
    pub open spec fn extends_metric(self, delta: LogsView, metric: Metrics) -> bool {
        ||| extends(self.measurements_index[metric], delta.measurements_index[metric])
        ||| extends(self.measurements_timestamp[metric], delta.measurements_timestamp[metric])
    }

    /// Whether merging `delta` into this store adds entries to the series of
    /// `task`, by index or by instant.
    pub open spec fn extends_task(self, delta: LogsView, task: Tasks) -> bool {
        ||| extends(self.evaluations_index[task], delta.evaluations_index[task])
        ||| extends(self.evaluations_timestamp[task], delta.evaluations_timestamp[task])
    }
}

/// The entries of a series as a dictionary. Where a stamp occurs twice, the
/// later entry is the one kept.
pub open spec fn as_map<K, W>(s: Seq<(K, W)>) -> Map<K, W>
    decreases s.len(),
{
    if s.len() == 0 {
        Map::empty()
    } else {
        as_map(s.drop_last()).insert(s.last().0, s.last().1)
    }
}

/// The dictionary of a series whose stamps increase holds every entry of the
/// series under its stamp, and nothing else: nothing is lost in the table of
/// a store.
pub proof fn lemma_as_map_keeps_all<K: Stamp, W>(s: Seq<(K, W)>)
    requires
        increasing(s),
    ensures
        forall|i: int| 0 <= i < s.len() ==> as_map(s).contains_key((#[trigger] s[i]).0) && as_map(
            s,
        )[s[i].0] == s[i].1,
        forall|k: K| #[trigger]
            as_map(s).contains_key(k) ==> exists|i: int| 0 <= i < s.len() && (#[trigger] s[i]).0 == k,
    decreases s.len(),
{
    if s.len() > 0 {
        let front = s.drop_last();
        assert forall|i: int, j: int| 0 <= i < j < front.len() implies front[i].0.rank()
            < front[j].0.rank() by {
            assert(front[i] == s[i] && front[j] == s[j]);
        }
        lemma_as_map_keeps_all(front);
        assert forall|i: int| 0 <= i < s.len() implies as_map(s).contains_key((#[trigger] s[i]).0)
            && as_map(s)[s[i].0] == s[i].1 by {
            if i < s.len() - 1 {
                assert(front[i] == s[i]);
                assert(s[i].0.rank() < s[s.len() - 1].0.rank());
            }
        }
        assert forall|k: K| #[trigger] as_map(s).contains_key(k) implies exists|i: int|
            0 <= i < s.len() && (#[trigger] s[i]).0 == k by {
            if k == s.last().0 {
                assert(s[s.len() - 1].0 == k);
            } else {
                assert(as_map(front).contains_key(k));
                let i = choose|i: int| 0 <= i < front.len() && (#[trigger] front[i]).0 == k;
                assert(s[i].0 == k);
            }
        }
    }
}

/// What a table holds: the entries of a store, grouped under each key into a
/// dictionary by stamp.
pub struct TableView {
    pub measurements_index: Map<Metrics, Map<u64, DataView>>,
    pub measurements_timestamp: Map<Metrics, Map<Time, DataView>>,
    pub evaluations_index: Map<Tasks, Map<u64, bool>>,
    pub evaluations_timestamp: Map<Tasks, Map<Time, bool>>,
    pub duration_index: Map<u64, i64>,
}

impl LogsView {
    /// The table of the store.
    pub open spec fn to_table(self) -> TableView {
        TableView {
            measurements_index: Map::new(
                |m: Metrics| true,
                |m: Metrics| as_map(self.measurements_index[m]),
            ),
            measurements_timestamp: Map::new(
                |m: Metrics| true,
                |m: Metrics| as_map(self.measurements_timestamp[m]),
            ),
            evaluations_index: Map::new(
                |t: Tasks| true,
                |t: Tasks| as_map(self.evaluations_index[t]),
            ),
            evaluations_timestamp: Map::new(
                |t: Tasks| true,
                |t: Tasks| as_map(self.evaluations_timestamp[t]),
            ),
            duration_index: self.duration_index,
        }
    }
}

/// A stored dictionary, each value taken by what it stands for.
pub open spec fn values_view<K, V: DeepView>(m: Map<K, V>) -> Map<K, V::V> {
    Map::new(|k: K| m.contains_key(k), |k: K| m[k].deep_view())
}

/// A dictionary stored under nanosecond counts, as a dictionary of instants.
pub open spec fn instants_view<V: DeepView>(m: Map<i128, V>) -> Map<Time, V::V> {
    Map::new(|t: Time| m.contains_key(t.nanos), |t: Time| m[t.nanos].deep_view())
}

/// The store after it has taken in each of `deltas`, first to last.
pub open spec fn merge_all(store: LogsView, deltas: Seq<LogsView>) -> LogsView
    decreases deltas.len(),
{
    if deltas.len() == 0 {
        store
    } else {
        merge_all(store, deltas.drop_last()).merge(deltas.last())
    }
}

/// Merging is idempotent: a store that has taken in a delta is not changed
/// by taking in the same delta again.
pub proof fn lemma_merge_idempotent(store: LogsView, delta: LogsView)
    ensures
        store.merge(delta).merge(delta) == store.merge(delta),
{
    let once = store.merge(delta);
    let twice = once.merge(delta);
    assert forall|m: Metrics| #[trigger]
        twice.measurements_index[m] == once.measurements_index[m] by {
        lemma_merge_series_idempotent(store.measurements_index[m], delta.measurements_index[m]);
    }
    assert forall|m: Metrics| #[trigger]
        twice.measurements_timestamp[m] == once.measurements_timestamp[m] by {
        lemma_merge_series_idempotent(
            store.measurements_timestamp[m],
            delta.measurements_timestamp[m],
        );
    }
    assert forall|t: Tasks| #[trigger]
        twice.evaluations_index[t] == once.evaluations_index[t] by {
        lemma_merge_series_idempotent(store.evaluations_index[t], delta.evaluations_index[t]);
    }
    assert forall|t: Tasks| #[trigger]
        twice.evaluations_timestamp[t] == once.evaluations_timestamp[t] by {
        lemma_merge_series_idempotent(
            store.evaluations_timestamp[t],
            delta.evaluations_timestamp[t],
        );
    }
    assert(twice.measurements_index =~= once.measurements_index);
    assert(twice.measurements_timestamp =~= once.measurements_timestamp);
    assert(twice.evaluations_index =~= once.evaluations_index);
    assert(twice.evaluations_timestamp =~= once.evaluations_timestamp);
    assert(twice.duration_index =~= once.duration_index);
}

/// Two deltas that extend different keys of a store can be taken in either
/// order: under no metric and no task do both add entries, and for no cycle
/// do they record different durations.
pub proof fn lemma_merge_order_independent(store: LogsView, first: LogsView, second: LogsView)
    requires
        forall|m: Metrics| !(store.extends_metric(first, m) && store.extends_metric(second, m)),
        forall|t: Tasks| !(store.extends_task(first, t) && store.extends_task(second, t)),
        forall|i: u64|
            first.duration_index.contains_key(i) && second.duration_index.contains_key(i)
                ==> first.duration_index[i] == second.duration_index[i],
    ensures
        store.merge(first).merge(second) == store.merge(second).merge(first),
{
    let left = store.merge(first).merge(second);
    let right = store.merge(second).merge(first);
    assert forall|m: Metrics| #[trigger]
        left.measurements_index[m] == right.measurements_index[m] by {
        assert(!(store.extends_metric(first, m) && store.extends_metric(second, m)));
        lemma_merge_series_commutes(
            store.measurements_index[m],
            first.measurements_index[m],
            second.measurements_index[m],
        );
    }
    assert forall|m: Metrics| #[trigger]
        left.measurements_timestamp[m] == right.measurements_timestamp[m] by {
        assert(!(store.extends_metric(first, m) && store.extends_metric(second, m)));
        lemma_merge_series_commutes(
            store.measurements_timestamp[m],
            first.measurements_timestamp[m],
            second.measurements_timestamp[m],
        );
    }
    assert forall|t: Tasks| #[trigger]
        left.evaluations_index[t] == right.evaluations_index[t] by {
        assert(!(store.extends_task(first, t) && store.extends_task(second, t)));
        lemma_merge_series_commutes(
            store.evaluations_index[t],
            first.evaluations_index[t],
            second.evaluations_index[t],
        );
    }
    assert forall|t: Tasks| #[trigger]
        left.evaluations_timestamp[t] == right.evaluations_timestamp[t] by {
        assert(!(store.extends_task(first, t) && store.extends_task(second, t)));
        lemma_merge_series_commutes(
            store.evaluations_timestamp[t],
            first.evaluations_timestamp[t],
            second.evaluations_timestamp[t],
        );
    }
    assert(left.measurements_index =~= right.measurements_index);
    assert(left.measurements_timestamp =~= right.measurements_timestamp);
    assert(left.evaluations_index =~= right.evaluations_index);
    assert(left.evaluations_timestamp =~= right.evaluations_timestamp);
    assert(left.duration_index =~= right.duration_index);
}

/// Merging keeps the indices monotone: where the indices strictly increase
/// in every series of the store and of the delta, they do so in every series
/// of the merged store.
pub proof fn lemma_merge_monotone(store: LogsView, delta: LogsView)
    requires
        store.monotone_by_index(),
        delta.monotone_by_index(),
    ensures
        store.merge(delta).monotone_by_index(),
{
    let merged = store.merge(delta);
    assert forall|m: Metrics| increasing(#[trigger] merged.measurements_index[m]) by {
        lemma_merge_series_increasing(store.measurements_index[m], delta.measurements_index[m]);
    }
    assert forall|t: Tasks| increasing(#[trigger] merged.evaluations_index[t]) by {
        lemma_merge_series_increasing(store.evaluations_index[t], delta.evaluations_index[t]);
    }
}

/// Merging keeps the instants monotone, as it keeps the indices.
pub proof fn lemma_merge_monotone_by_instant(store: LogsView, delta: LogsView)
    requires
        store.monotone_by_instant(),
        delta.monotone_by_instant(),
    ensures
        store.merge(delta).monotone_by_instant(),
{
    let merged = store.merge(delta);
    assert forall|m: Metrics| increasing(#[trigger] merged.measurements_timestamp[m]) by {
        lemma_merge_series_increasing(
            store.measurements_timestamp[m],
            delta.measurements_timestamp[m],
        );
    }
    assert forall|t: Tasks| increasing(#[trigger] merged.evaluations_timestamp[t]) by {
        lemma_merge_series_increasing(
            store.evaluations_timestamp[t],
            delta.evaluations_timestamp[t],
        );
    }
}

/// After any sequence of merges of deltas with monotone indices into a store
/// with monotone indices, the indices of every series strictly increase:
/// none occurs twice.
pub proof fn lemma_merges_monotone(store: LogsView, deltas: Seq<LogsView>)
    requires
        store.monotone_by_index(),
        forall|i: int| 0 <= i < deltas.len() ==> (#[trigger] deltas[i]).monotone_by_index(),
    ensures
        merge_all(store, deltas).monotone_by_index(),
    decreases deltas.len(),
{
    if deltas.len() > 0 {
        let front = deltas.drop_last();
        assert forall|i: int| 0 <= i < front.len() implies (#[trigger] front[i]).monotone_by_index() by {
            assert(front[i] == deltas[i]);
        }
        lemma_merges_monotone(store, front);
        lemma_merge_monotone(merge_all(store, front), deltas.last());
    }
}

impl LogsView {
    /// Whether `later` holds everything this store holds, and in the same
    /// places: every series of this store stands at the front of the series
    /// of the same key in `later`, and every cycle with a duration here has
    /// one there.
    pub open spec fn kept_in(self, later: LogsView) -> bool {
        &&& forall|m: Metrics| #[trigger]
            self.measurements_index[m].is_prefix_of(later.measurements_index[m])
        &&& forall|m: Metrics| #[trigger]
            self.measurements_timestamp[m].is_prefix_of(later.measurements_timestamp[m])
        &&& forall|t: Tasks| #[trigger]
            self.evaluations_index[t].is_prefix_of(later.evaluations_index[t])
        &&& forall|t: Tasks| #[trigger]
            self.evaluations_timestamp[t].is_prefix_of(later.evaluations_timestamp[t])
        &&& forall|i: u64|
            self.duration_index.contains_key(i) ==> later.duration_index.contains_key(i)
    }
}

/// The store only grows: merging never loses an entry of the receiver and
/// never moves one.
pub proof fn lemma_merge_keeps(store: LogsView, delta: LogsView)
    ensures
        store.kept_in(store.merge(delta)),
{
    let merged = store.merge(delta);
    assert forall|m: Metrics| #[trigger]
        store.measurements_index[m].is_prefix_of(merged.measurements_index[m]) by {
        lemma_merge_series_keeps(store.measurements_index[m], delta.measurements_index[m]);
    }
    assert forall|m: Metrics| #[trigger]
        store.measurements_timestamp[m].is_prefix_of(merged.measurements_timestamp[m]) by {
        lemma_merge_series_keeps(store.measurements_timestamp[m], delta.measurements_timestamp[m]);
    }
    assert forall|t: Tasks| #[trigger]
        store.evaluations_index[t].is_prefix_of(merged.evaluations_index[t]) by {
        lemma_merge_series_keeps(store.evaluations_index[t], delta.evaluations_index[t]);
    }
    assert forall|t: Tasks| #[trigger]
        store.evaluations_timestamp[t].is_prefix_of(merged.evaluations_timestamp[t]) by {
        lemma_merge_series_keeps(store.evaluations_timestamp[t], delta.evaluations_timestamp[t]);
    }
}

/// What holds everything of a store that holds everything of another holds
/// everything of that other.
pub proof fn lemma_kept_in_chain(first: LogsView, second: LogsView, third: LogsView)
    requires
        first.kept_in(second),
        second.kept_in(third),
    ensures
        first.kept_in(third),
{
    assert forall|m: Metrics| #[trigger]
        first.measurements_index[m].is_prefix_of(third.measurements_index[m]) by {
        assert(first.measurements_index[m].is_prefix_of(second.measurements_index[m]));
        assert(second.measurements_index[m].is_prefix_of(third.measurements_index[m]));
    }
    assert forall|m: Metrics| #[trigger]
        first.measurements_timestamp[m].is_prefix_of(third.measurements_timestamp[m]) by {
        assert(first.measurements_timestamp[m].is_prefix_of(second.measurements_timestamp[m]));
        assert(second.measurements_timestamp[m].is_prefix_of(third.measurements_timestamp[m]));
    }
    assert forall|t: Tasks| #[trigger]
        first.evaluations_index[t].is_prefix_of(third.evaluations_index[t]) by {
        assert(first.evaluations_index[t].is_prefix_of(second.evaluations_index[t]));
        assert(second.evaluations_index[t].is_prefix_of(third.evaluations_index[t]));
    }
    assert forall|t: Tasks| #[trigger]
        first.evaluations_timestamp[t].is_prefix_of(third.evaluations_timestamp[t]) by {
        assert(first.evaluations_timestamp[t].is_prefix_of(second.evaluations_timestamp[t]));
        assert(second.evaluations_timestamp[t].is_prefix_of(third.evaluations_timestamp[t]));
    }
}

/// The empty store is monotone.
pub proof fn lemma_empty_monotone()
    ensures
        LogsView::empty().monotone_by_index(),
        LogsView::empty().monotone_by_instant(),
{
}

/// The log store: every measurement and every evaluation made so far, under
/// its metric or task, once by cycle index and once by instant, and how long
/// each cycle took.
#[derive(Debug, PartialEq)]
pub struct Logs {
    measurements_index: Vec<Vec<(u64, Data)>>,
    measurements_timestamp: Vec<Vec<(Time, Data)>>,
    evaluations_index: Vec<Vec<(u64, bool)>>,
    evaluations_timestamp: Vec<Vec<(Time, bool)>>,
    duration_index: HashMap<u64, i64>,
}

impl View for Logs {
    type V = LogsView;

    closed spec fn view(&self) -> LogsView {
        LogsView {
            measurements_index: Map::new(
                |m: Metrics| true,
                |m: Metrics| series_view(self.measurements_index@[m.ordinal()]@),
            ),
            measurements_timestamp: Map::new(
                |m: Metrics| true,
                |m: Metrics| series_view(self.measurements_timestamp@[m.ordinal()]@),
            ),
            evaluations_index: Map::new(
                |t: Tasks| true,
                |t: Tasks| series_view(self.evaluations_index@[t.ordinal()]@),
            ),
            evaluations_timestamp: Map::new(
                |t: Tasks| true,
                |t: Tasks| series_view(self.evaluations_timestamp@[t.ordinal()]@),
            ),
            duration_index: self.duration_index@,
        }
    }
}

/// A store has a series for every metric and for every task, be it empty.
pub proof fn lemma_store_complete(logs: Logs)
    ensures
        logs@.complete(),
{
}

/// Whether in every series of a list the stamps strictly increase.
pub open spec fn all_increasing<K: Stamp, V: DeepView>(slots: Seq<Vec<(K, V)>>) -> bool {
    forall|i: int| 0 <= i < slots.len() ==> increasing(series_view((#[trigger] slots[i])@))
}

/// A list of `n` empty series.
fn empty_slots<K: Stamp, V: DeepView>(n: usize) -> (slots: Vec<Vec<(K, V)>>)
    ensures
        slots.len() == n,
        forall|i: int| 0 <= i < n ==> (#[trigger] slots[i])@.len() == 0,
        all_increasing(slots@),
{
    let mut slots: Vec<Vec<(K, V)>> = Vec::new();
    let mut i: usize = 0;
    while i < n
        invariant
            i <= n,
            slots.len() == i,
            forall|j: int| 0 <= j < i ==> (#[trigger] slots[j])@.len() == 0,
        decreases n - i,
    {
        slots.push(Vec::new());
        i += 1;
    }
    slots
}

impl Logs {
    #[verifier::type_invariant]
    spec fn well_formed(&self) -> bool {
        &&& self.measurements_index.len() == METRICS
        &&& self.measurements_timestamp.len() == METRICS
        &&& self.evaluations_index.len() == TASKS
        &&& self.evaluations_timestamp.len() == TASKS
        &&& all_increasing(self.measurements_index@)
        &&& all_increasing(self.measurements_timestamp@)
        &&& all_increasing(self.evaluations_index@)
        &&& all_increasing(self.evaluations_timestamp@)
    }

    /// Shows what holds of every store: in each of its series the stamps
    /// strictly increase, so that under one key no index and no instant
    /// occurs twice. Nothing is computed.
    pub fn monotone(&self)
        ensures
            self@.monotone_by_index(),
            self@.monotone_by_instant(),
    {
        proof {
            use_type_invariant(self);
            assert forall|m: Metrics| increasing(#[trigger] self@.measurements_index[m]) by {
                assert(increasing(series_view(self.measurements_index@[m.ordinal()]@)));
            }
            assert forall|m: Metrics| increasing(#[trigger] self@.measurements_timestamp[m]) by {
                assert(increasing(series_view(self.measurements_timestamp@[m.ordinal()]@)));
            }
            assert forall|t: Tasks| increasing(#[trigger] self@.evaluations_index[t]) by {
                assert(increasing(series_view(self.evaluations_index@[t.ordinal()]@)));
            }
            assert forall|t: Tasks| increasing(#[trigger] self@.evaluations_timestamp[t]) by {
                assert(increasing(series_view(self.evaluations_timestamp@[t.ordinal()]@)));
            }
        }
    }

    /// The store that holds nothing.
    pub fn new() -> (logs: Logs)
        ensures
            logs@ == LogsView::empty(),
    {
        let logs = Logs {
            measurements_index: empty_slots(METRICS),
            measurements_timestamp: empty_slots(METRICS),
            evaluations_index: empty_slots(TASKS),
            evaluations_timestamp: empty_slots(TASKS),
            duration_index: HashMap::new(),
        };
        proof {
            let v = logs@;
            let e = LogsView::empty();
            assert(v.measurements_index =~= e.measurements_index) by {
                assert forall|m: Metrics| #[trigger] v.measurements_index[m] =~= Seq::empty() by {
                    assert(logs.measurements_index[m.ordinal()]@.len() == 0);
                }
            }
            assert(v.measurements_timestamp =~= e.measurements_timestamp) by {
                assert forall|m: Metrics| #[trigger]
                    v.measurements_timestamp[m] =~= Seq::empty() by {
                    assert(logs.measurements_timestamp[m.ordinal()]@.len() == 0);
                }
            }
            assert(v.evaluations_index =~= e.evaluations_index) by {
                assert forall|t: Tasks| #[trigger] v.evaluations_index[t] =~= Seq::empty() by {
                    assert(logs.evaluations_index[t.ordinal()]@.len() == 0);
                }
            }
            assert(v.evaluations_timestamp =~= e.evaluations_timestamp) by {
                assert forall|t: Tasks| #[trigger]
                    v.evaluations_timestamp[t] =~= Seq::empty() by {
                    assert(logs.evaluations_timestamp[t.ordinal()]@.len() == 0);
                }
            }
        }
        logs
    }

    /// Records `measurement` under `metric`: at the end of its series by
    /// index if its index is newer than the tail of that series, and at the
    /// end of its series by instant if its instant is newer than the tail of
    /// that one. What is not newer is not recorded.
    pub fn insert_measurement(&mut self, measurement: Measurement, metric: Metrics)
        ensures
            final(self)@ == old(self)@.with_measurement(measurement@, metric),
    {
        proof {
            use_type_invariant(&*self);
        }
        let slot = metric.slot();
        let ghost before = *self;
        let copy = measurement.data.clone();

        let mut by_index: Vec<Vec<(u64, Data)>> = empty_slots(METRICS);
        std::mem::swap(&mut self.measurements_index, &mut by_index);
        let ghost old_by_index = by_index@;
        push_newer(&mut by_index[slot], (measurement.index, copy));
        assert(all_increasing(by_index@)) by {
            assert forall|i: int| 0 <= i < by_index.len() implies increasing(
                series_view((#[trigger] by_index@[i])@),
            ) by {
                assert(increasing(series_view(old_by_index[i]@)));
            }
        }
        std::mem::swap(&mut self.measurements_index, &mut by_index);

        let mut by_instant: Vec<Vec<(Time, Data)>> = empty_slots(METRICS);
        std::mem::swap(&mut self.measurements_timestamp, &mut by_instant);
        let ghost old_by_instant = by_instant@;
        push_newer(&mut by_instant[slot], (measurement.timestamp, measurement.data));
        assert(all_increasing(by_instant@)) by {
            assert forall|i: int| 0 <= i < by_instant.len() implies increasing(
                series_view((#[trigger] by_instant@[i])@),
            ) by {
                assert(increasing(series_view(old_by_instant[i]@)));
            }
        }
        std::mem::swap(&mut self.measurements_timestamp, &mut by_instant);

        proof {
            let expected = before@.with_measurement(measurement@, metric);
            assert(self@.measurements_index =~= expected.measurements_index) by {
                assert forall|m: Metrics| #[trigger]
                    self@.measurements_index[m] =~= expected.measurements_index[m] by {
                    if m != metric {
                        assert(m.ordinal() != metric.ordinal());
                    }
                }
            }
            assert(self@.measurements_timestamp =~= expected.measurements_timestamp) by {
                assert forall|m: Metrics| #[trigger]
                    self@.measurements_timestamp[m] =~= expected.measurements_timestamp[m] by {
                    if m != metric {
                        assert(m.ordinal() != metric.ordinal());
                    }
                }
            }
            assert(self@.evaluations_index =~= expected.evaluations_index);
            assert(self@.evaluations_timestamp =~= expected.evaluations_timestamp);
        }
    }

    /// Records `evaluation` under `task`: at the end of its series by index
    /// if its index is newer than the tail of that series, and at the end of
    /// its series by instant if its instant is newer than the tail of that
    /// one. What is not newer is not recorded.
    pub fn insert_evaluation(&mut self, evaluation: Evaluation, task: Tasks)
        ensures
            final(self)@ == old(self)@.with_evaluation(evaluation, task),
    {
        proof {
            use_type_invariant(&*self);
        }
        let slot = task.slot();
        let ghost before = *self;

        let mut by_index: Vec<Vec<(u64, bool)>> = empty_slots(TASKS);
        std::mem::swap(&mut self.evaluations_index, &mut by_index);
        let ghost old_by_index = by_index@;
        push_newer(&mut by_index[slot], (evaluation.index, evaluation.value));
        assert(all_increasing(by_index@)) by {
            assert forall|i: int| 0 <= i < by_index.len() implies increasing(
                series_view((#[trigger] by_index@[i])@),
            ) by {
                assert(increasing(series_view(old_by_index[i]@)));
            }
        }
        std::mem::swap(&mut self.evaluations_index, &mut by_index);

        let mut by_instant: Vec<Vec<(Time, bool)>> = empty_slots(TASKS);
        std::mem::swap(&mut self.evaluations_timestamp, &mut by_instant);
        let ghost old_by_instant = by_instant@;
        push_newer(&mut by_instant[slot], (evaluation.timestamp, evaluation.value));
        assert(all_increasing(by_instant@)) by {
            assert forall|i: int| 0 <= i < by_instant.len() implies increasing(
                series_view((#[trigger] by_instant@[i])@),
            ) by {
                assert(increasing(series_view(old_by_instant[i]@)));
            }
        }
        std::mem::swap(&mut self.evaluations_timestamp, &mut by_instant);

        proof {
            let expected = before@.with_evaluation(evaluation, task);
            assert(self@.evaluations_index =~= expected.evaluations_index) by {
                assert forall|t: Tasks| #[trigger]
                    self@.evaluations_index[t] =~= expected.evaluations_index[t] by {
                    if t != task {
                        assert(t.ordinal() != task.ordinal());
                    }
                }
            }
            assert(self@.evaluations_timestamp =~= expected.evaluations_timestamp) by {
                assert forall|t: Tasks| #[trigger]
                    self@.evaluations_timestamp[t] =~= expected.evaluations_timestamp[t] by {
                    if t != task {
                        assert(t.ordinal() != task.ordinal());
                    }
                }
            }
            assert(self@.measurements_index =~= expected.measurements_index);
            assert(self@.measurements_timestamp =~= expected.measurements_timestamp);
        }
    }

    /// Records that cycle `index` took `duration` nanoseconds, in place of
    /// what was recorded for that cycle before.
    pub fn insert_duration(&mut self, duration: i64, index: u64)
        ensures
            final(self)@ == old(self)@.with_duration(duration, index),
    {
        broadcast use vstd::std_specs::hash::group_hash_axioms;

        proof {
            use_type_invariant(&*self);
        }
        let ghost before = *self;
        let mut durations: HashMap<u64, i64> = HashMap::new();
        std::mem::swap(&mut self.duration_index, &mut durations);
        durations.insert(index, duration);
        std::mem::swap(&mut self.duration_index, &mut durations);
        proof {
            let expected = before@.with_duration(duration, index);
            assert(self@.measurements_index =~= expected.measurements_index);
            assert(self@.measurements_timestamp =~= expected.measurements_timestamp);
            assert(self@.evaluations_index =~= expected.evaluations_index);
            assert(self@.evaluations_timestamp =~= expected.evaluations_timestamp);
        }
    }
}

/// Lays the entries of `theirs` over those of `mine`.
fn overlay(mine: &mut HashMap<u64, i64>, theirs: &HashMap<u64, i64>)
    ensures
        final(mine)@ == old(mine)@.union_prefer_right(theirs@),
{
    broadcast use vstd::std_specs::hash::group_hash_axioms;

    let ghost before = mine@;
    for pair in it: theirs.iter()
        invariant
            forall|k: u64| #[trigger]
                mine@.contains_key(k) <==> before.contains_key(k) || exists|i: int|
                    0 <= i < it.index() && *(#[trigger] it.seq()[i]).0 == k,
            forall|k: u64| #[trigger]
                mine@.contains_key(k) ==> mine@[k] == if theirs@.contains_key(k) && exists|i: int|
                    0 <= i < it.index() && *(#[trigger] it.seq()[i]).0 == k {
                    theirs@[k]
                } else {
                    before[k]
                },
    {
        mine.insert(*pair.0, *pair.1);
    }
    assert(mine@ =~= before.union_prefer_right(theirs@));
}

/// A copy of a list of series.
fn duplicate_slots<K: Stamp, V: Record>(slots: &Vec<Vec<(K, V)>>) -> (r: Vec<Vec<(K, V)>>)
    ensures
        r.len() == slots.len(),
        forall|i: int|
            0 <= i < slots.len() ==> series_view((#[trigger] r[i])@) == series_view(slots[i]@),
        all_increasing(slots@) ==> all_increasing(r@),
{
    let mut r: Vec<Vec<(K, V)>> = Vec::new();
    let mut i: usize = 0;
    while i < slots.len()
        invariant
            i <= slots.len(),
            r.len() == i,
            forall|j: int| 0 <= j < i ==> series_view((#[trigger] r[j])@) == series_view(slots[j]@),
        decreases slots.len() - i,
    {
        r.push(duplicate_series(&slots[i]));
        i += 1;
    }
    proof {
        if all_increasing(slots@) {
            assert forall|j: int| 0 <= j < r.len() implies increasing(
                series_view((#[trigger] r@[j])@),
            ) by {
                assert(increasing(series_view(slots@[j]@)));
            }
        }
    }
    r
}

/// Takes each series of `theirs` into the series at the same place of `mine`.
fn merge_slots<K: Stamp, V: Record>(mine: &mut Vec<Vec<(K, V)>>, theirs: &Vec<Vec<(K, V)>>)
    requires
        old(mine).len() == theirs.len(),
    ensures
        final(mine).len() == theirs.len(),
        forall|i: int|
            0 <= i < theirs.len() ==> series_view((#[trigger] final(mine)[i])@) == merge_series(
                series_view(old(mine)[i]@),
                series_view(theirs[i]@),
            ),
        all_increasing(old(mine)@) && all_increasing(theirs@) ==> all_increasing(final(mine)@),
{
    let ghost before = mine@;
    let mut i: usize = 0;
    while i < theirs.len()
        invariant
            i <= theirs.len(),
            mine.len() == theirs.len(),
            before.len() == theirs.len(),
            forall|j: int|
                0 <= j < i ==> series_view((#[trigger] mine[j])@) == merge_series(
                    series_view(before[j]@),
                    series_view(theirs[j]@),
                ),
            forall|j: int| i <= j < theirs.len() ==> mine[j] == before[j],
            all_increasing(before) && all_increasing(theirs@) ==> forall|j: int|
                0 <= j < i ==> increasing(series_view((#[trigger] mine[j])@)),
        decreases theirs.len() - i,
    {
        proof {
            if all_increasing(before) && all_increasing(theirs@) {
                assert(increasing(series_view(before[i as int]@)));
                assert(increasing(series_view(theirs@[i as int]@)));
            }
        }
        merge_into(&mut mine[i], &theirs[i]);
        i += 1;
    }
}

impl Clone for Logs {
    /// A store that holds the same.
    fn clone(&self) -> (r: Logs)
        ensures
            r@ == self@,
    {
        proof {
            use_type_invariant(self);
        }
        let r = Logs {
            measurements_index: duplicate_slots(&self.measurements_index),
            measurements_timestamp: duplicate_slots(&self.measurements_timestamp),
            evaluations_index: duplicate_slots(&self.evaluations_index),
            evaluations_timestamp: duplicate_slots(&self.evaluations_timestamp),
            duration_index: self.duration_index.clone(),
        };
        proof {
            assert(r@.measurements_index =~= self@.measurements_index);
            assert(r@.measurements_timestamp =~= self@.measurements_timestamp);
            assert(r@.evaluations_index =~= self@.evaluations_index);
            assert(r@.evaluations_timestamp =~= self@.evaluations_timestamp);
        }
        r
    }
}

impl Logs {
    /// Takes in `other`, series by series: a series of `other` whose tail is
    /// newer than the tail under the same key here gives the entries at its
    /// end that are newer than that tail; a key with nothing under it here
    /// adopts the whole series of `other`; any other series is passed over.
    /// The durations of `other` replace those recorded here for the same
    /// cycles.
    pub fn mut_merge(&mut self, other: &Logs)
        ensures
            final(self)@ == old(self)@.merge(other@),
    {
        proof {
            use_type_invariant(&*self);
            use_type_invariant(other);
        }
        let ghost before = *self;

        let mut by_index: Vec<Vec<(u64, Data)>> = empty_slots(METRICS);
        std::mem::swap(&mut self.measurements_index, &mut by_index);
        merge_slots(&mut by_index, &other.measurements_index);
        std::mem::swap(&mut self.measurements_index, &mut by_index);

        let mut by_instant: Vec<Vec<(Time, Data)>> = empty_slots(METRICS);
        std::mem::swap(&mut self.measurements_timestamp, &mut by_instant);
        merge_slots(&mut by_instant, &other.measurements_timestamp);
        std::mem::swap(&mut self.measurements_timestamp, &mut by_instant);

        let mut verdicts_by_index: Vec<Vec<(u64, bool)>> = empty_slots(TASKS);
        std::mem::swap(&mut self.evaluations_index, &mut verdicts_by_index);
        merge_slots(&mut verdicts_by_index, &other.evaluations_index);
        std::mem::swap(&mut self.evaluations_index, &mut verdicts_by_index);

        let mut verdicts_by_instant: Vec<Vec<(Time, bool)>> = empty_slots(TASKS);
        std::mem::swap(&mut self.evaluations_timestamp, &mut verdicts_by_instant);
        merge_slots(&mut verdicts_by_instant, &other.evaluations_timestamp);
        std::mem::swap(&mut self.evaluations_timestamp, &mut verdicts_by_instant);

        let mut durations: HashMap<u64, i64> = HashMap::new();
        std::mem::swap(&mut self.duration_index, &mut durations);
        overlay(&mut durations, &other.duration_index);
        std::mem::swap(&mut self.duration_index, &mut durations);

        proof {
            let expected = before@.merge(other@);
            assert(self@.measurements_index =~= expected.measurements_index);
            assert(self@.measurements_timestamp =~= expected.measurements_timestamp);
            assert(self@.evaluations_index =~= expected.evaluations_index);
            assert(self@.evaluations_timestamp =~= expected.evaluations_timestamp);
        }
    }

    /// A store that holds what this one holds after taking in `other`.
    pub fn merge(&self, other: &Logs) -> (r: Logs)
        ensures
            r@ == self@.merge(other@),
    {
        let mut r = self.clone();
        r.mut_merge(other);
        r
    }

    /// A store that holds what this one holds and `measurement` under
    /// `metric`.
    pub fn with_measurement(&self, measurement: Measurement, metric: Metrics) -> (r: Logs)
        ensures
            r@ == self@.with_measurement(measurement@, metric),
    {
        let mut r = self.clone();
        r.insert_measurement(measurement, metric);
        r
    }

    /// A store that holds what this one holds and `evaluation` under `task`.
    pub fn with_evaluation(&self, evaluation: Evaluation, task: Tasks) -> (r: Logs)
        ensures
            r@ == self@.with_evaluation(evaluation, task),
    {
        let mut r = self.clone();
        r.insert_evaluation(evaluation, task);
        r
    }

    /// A store that holds what this one holds and `duration` for cycle
    /// `index`.
    pub fn with_duration(&self, duration: i64, index: u64) -> (r: Logs)
        ensures
            r@ == self@.with_duration(duration, index),
    {
        let mut r = self.clone();
        r.insert_duration(duration, index);
        r
    }
}

/// The dictionary of a series by index: later entries replace earlier ones
/// of the same index.
fn collect_by_index<V: Record>(series: &Vec<(u64, V)>) -> (r: HashMap<u64, V>)
    ensures
        values_view(r@) == as_map(series_view(series@)),
{
    broadcast use vstd::std_specs::hash::group_hash_axioms;

    let mut r: HashMap<u64, V> = HashMap::new();
    let mut i: usize = 0;
    assert(series_view(series@).subrange(0, 0) =~= Seq::empty());
    assert(values_view(r@) =~= Map::empty());
    while i < series.len()
        invariant
            i <= series.len(),
            values_view(r@) == as_map(series_view(series@).subrange(0, i as int)),
        decreases series.len() - i,
    {
        let ghost before = r@;
        let ghost prefix = series_view(series@).subrange(0, i + 1);
        let value = series[i].1.duplicate();
        r.insert(series[i].0, value);
        proof {
            assert(prefix.drop_last() =~= series_view(series@).subrange(0, i as int));
            assert(prefix.last() == (series[i as int].0, value.deep_view()));
            assert(values_view(r@) =~= values_view(before).insert(
                series[i as int].0,
                value.deep_view(),
            ));
        }
        i += 1;
    }
    assert(series_view(series@).subrange(0, series.len() as int) =~= series_view(series@));
    r
}

/// The dictionary of a series by instant: later entries replace earlier ones
/// of the same instant.
fn collect_by_instant<V: Record>(series: &Vec<(Time, V)>) -> (r: HashMap<i128, V>)
    ensures
        instants_view(r@) == as_map(series_view(series@)),
{
    broadcast use vstd::std_specs::hash::group_hash_axioms;

    let mut r: HashMap<i128, V> = HashMap::new();
    let mut i: usize = 0;
    assert(series_view(series@).subrange(0, 0) =~= Seq::empty());
    assert(instants_view(r@) =~= Map::empty());
    while i < series.len()
        invariant
            i <= series.len(),
            instants_view(r@) == as_map(series_view(series@).subrange(0, i as int)),
        decreases series.len() - i,
    {
        let ghost before = r@;
        let ghost prefix = series_view(series@).subrange(0, i + 1);
        let value = series[i].1.duplicate();
        r.insert(series[i].0.nanos, value);
        proof {
            assert(prefix.drop_last() =~= series_view(series@).subrange(0, i as int));
            assert(prefix.last() == (series[i as int].0, value.deep_view()));
            assert(instants_view(r@) =~= instants_view(before).insert(
                series[i as int].0,
                value.deep_view(),
            ));
        }
        i += 1;
    }
    assert(series_view(series@).subrange(0, series.len() as int) =~= series_view(series@));
    r
}

/// The dictionaries of a list of series by index.
fn collect_slots_by_index<V: Record>(slots: &Vec<Vec<(u64, V)>>) -> (r: Vec<HashMap<u64, V>>)
    ensures
        r.len() == slots.len(),
        forall|i: int|
            0 <= i < slots.len() ==> values_view((#[trigger] r[i])@) == as_map(
                series_view(slots[i]@),
            ),
{
    let mut r: Vec<HashMap<u64, V>> = Vec::new();
    let mut i: usize = 0;
    while i < slots.len()
        invariant
            i <= slots.len(),
            r.len() == i,
            forall|j: int|
                0 <= j < i ==> values_view((#[trigger] r[j])@) == as_map(series_view(slots[j]@)),
        decreases slots.len() - i,
    {
        r.push(collect_by_index(&slots[i]));
        i += 1;
    }
    r
}

/// The dictionaries of a list of series by instant.
fn collect_slots_by_instant<V: Record>(slots: &Vec<Vec<(Time, V)>>) -> (r: Vec<HashMap<i128, V>>)
    ensures
        r.len() == slots.len(),
        forall|i: int|
            0 <= i < slots.len() ==> instants_view((#[trigger] r[i])@) == as_map(
                series_view(slots[i]@),
            ),
{
    let mut r: Vec<HashMap<i128, V>> = Vec::new();
    let mut i: usize = 0;
    while i < slots.len()
        invariant
            i <= slots.len(),
            r.len() == i,
            forall|j: int|
                0 <= j < i ==> instants_view((#[trigger] r[j])@) == as_map(
                    series_view(slots[j]@),
                ),
        decreases slots.len() - i,
    {
        r.push(collect_by_instant(&slots[i]));
        i += 1;
    }
    r
}

/// The flattened projection of a store, for reading and for writing out:
/// under every key a dictionary by stamp, instants as nanosecond counts.
#[derive(Debug, PartialEq)]
pub struct Table {
    measurements_index: Vec<HashMap<u64, Data>>,
    measurements_timestamp: Vec<HashMap<i128, Data>>,
    evaluations_index: Vec<HashMap<u64, bool>>,
    evaluations_timestamp: Vec<HashMap<i128, bool>>,
    duration_index: HashMap<u64, i64>,
}

impl View for Table {
    type V = TableView;

    closed spec fn view(&self) -> TableView {
        TableView {
            measurements_index: Map::new(
                |m: Metrics| true,
                |m: Metrics| values_view(self.measurements_index@[m.ordinal()]@),
            ),
            measurements_timestamp: Map::new(
                |m: Metrics| true,
                |m: Metrics| instants_view(self.measurements_timestamp@[m.ordinal()]@),
            ),
            evaluations_index: Map::new(
                |t: Tasks| true,
                |t: Tasks| values_view(self.evaluations_index@[t.ordinal()]@),
            ),
            evaluations_timestamp: Map::new(
                |t: Tasks| true,
                |t: Tasks| instants_view(self.evaluations_timestamp@[t.ordinal()]@),
            ),
            duration_index: self.duration_index@,
        }
    }
}

impl Table {
    #[verifier::type_invariant]
    spec fn slots_complete(&self) -> bool {
        &&& self.measurements_index.len() == METRICS
        &&& self.measurements_timestamp.len() == METRICS
        &&& self.evaluations_index.len() == TASKS
        &&& self.evaluations_timestamp.len() == TASKS
    }

    /// The measurements of `metric`, by cycle index.
    pub fn measurements_index(&self, metric: Metrics) -> (r: &HashMap<u64, Data>)
        ensures
            values_view(r@) == self@.measurements_index[metric],
    {
        proof {
            use_type_invariant(self);
        }
        &self.measurements_index[metric.slot()]
    }

    /// The measurements of `metric`, by instant in nanoseconds.
    pub fn measurements_timestamp(&self, metric: Metrics) -> (r: &HashMap<i128, Data>)
        ensures
            instants_view(r@) == self@.measurements_timestamp[metric],
    {
        proof {
            use_type_invariant(self);
        }
        &self.measurements_timestamp[metric.slot()]
    }

    /// The verdicts of `task`, by cycle index.
    pub fn evaluations_index(&self, task: Tasks) -> (r: &HashMap<u64, bool>)
        ensures
            values_view(r@) == self@.evaluations_index[task],
    {
        proof {
            use_type_invariant(self);
        }
        &self.evaluations_index[task.slot()]
    }

    /// The verdicts of `task`, by instant in nanoseconds.
    pub fn evaluations_timestamp(&self, task: Tasks) -> (r: &HashMap<i128, bool>)
        ensures
            instants_view(r@) == self@.evaluations_timestamp[task],
    {
        proof {
            use_type_invariant(self);
        }
        &self.evaluations_timestamp[task.slot()]
    }

    /// How long each cycle took, in nanoseconds.
    pub fn duration_index(&self) -> (r: &HashMap<u64, i64>)
        ensures
            r@ == self@.duration_index,
    {
        &self.duration_index
    }
}

impl Logs {
    /// The measurements of `metric`, oldest first, by cycle index.
    pub fn measurements_index(&self, metric: Metrics) -> (r: &Vec<(u64, Data)>)
        ensures
            series_view(r@) == self@.measurements_index[metric],
    {
        proof {
            use_type_invariant(self);
        }
        &self.measurements_index[metric.slot()]
    }

    /// The measurements of `metric`, oldest first, by instant.
    pub fn measurements_timestamp(&self, metric: Metrics) -> (r: &Vec<(Time, Data)>)
        ensures
            series_view(r@) == self@.measurements_timestamp[metric],
    {
        proof {
            use_type_invariant(self);
        }
        &self.measurements_timestamp[metric.slot()]
    }

    /// The verdicts of `task`, oldest first, by cycle index.
    pub fn evaluations_index(&self, task: Tasks) -> (r: &Vec<(u64, bool)>)
        ensures
            series_view(r@) == self@.evaluations_index[task],
    {
        proof {
            use_type_invariant(self);
        }
        &self.evaluations_index[task.slot()]
    }

    /// The verdicts of `task`, oldest first, by instant.
    pub fn evaluations_timestamp(&self, task: Tasks) -> (r: &Vec<(Time, bool)>)
        ensures
            series_view(r@) == self@.evaluations_timestamp[task],
    {
        proof {
            use_type_invariant(self);
        }
        &self.evaluations_timestamp[task.slot()]
    }

    /// How long each cycle took, in nanoseconds.
    pub fn duration_index(&self) -> (r: &HashMap<u64, i64>)
        ensures
            r@ == self@.duration_index,
    {
        &self.duration_index
    }

    /// The table of the store: under every key the entries of its series as
    /// a dictionary by stamp, and the durations as they are.
    pub fn to_table(&self) -> (table: Table)
        ensures
            table@ == self@.to_table(),
    {
        proof {
            use_type_invariant(self);
        }
        let table = Table {
            measurements_index: collect_slots_by_index(&self.measurements_index),
            measurements_timestamp: collect_slots_by_instant(&self.measurements_timestamp),
            evaluations_index: collect_slots_by_index(&self.evaluations_index),
            evaluations_timestamp: collect_slots_by_instant(&self.evaluations_timestamp),
            duration_index: self.duration_index.clone(),
        };
        proof {
            let expected = self@.to_table();
            assert(table@.measurements_index =~= expected.measurements_index);
            assert(table@.measurements_timestamp =~= expected.measurements_timestamp);
            assert(table@.evaluations_index =~= expected.evaluations_index);
            assert(table@.evaluations_timestamp =~= expected.evaluations_timestamp);
        }
        table
    }
}

impl Default for Logs {
    /// The store that holds nothing.
    fn default() -> (logs: Logs)
        ensures
            logs@ == LogsView::empty(),
    {
        Logs::new()
    }
}

/// A result together with the store that holds it and all it was made from.
#[derive(Debug, PartialEq)]
pub struct Logging<T>(pub T, pub Logs);

/// What a measuring computation gives: the measurement and the store that
/// holds it, or why there is none.
pub type Measured = Result<(MeasurementView, LogsView), ErrorView>;

/// What an evaluating computation gives: the verdict and the store that
/// holds it, or why there is none.
pub type Evaluated = Result<(Evaluation, LogsView), ErrorView>;

/// The outcome of a measuring computation, by what it stands for.
pub open spec fn measured_view(r: Result<Logging<Measurement>, Error>) -> Measured {
    match r {
        Ok(l) => Ok((l.0@, l.1@)),
        Err(e) => Err(e@),
    }
}

/// The outcome of an evaluating computation, by what it stands for.
pub open spec fn evaluated_view(r: Result<Logging<Evaluation>, Error>) -> Evaluated {
    match r {
        Ok(l) => Ok((l.0, l.1@)),
        Err(e) => Err(e@),
    }
}

} // verus!
