//! What a cycle adds to the store, by cycle index.
//!
//! A store is settled before a cycle if, in every series by index, the
//! indices strictly increase and lie below the index of the cycle. Every
//! computation of the cycle then hands on a store that holds, under each key,
//! what the store held when the cycle began and at most one entry more, of
//! this cycle. So does the store after the cycle: it is settled for the next.

use vstd::prelude::*;
use crate::command::Snapshot;
use crate::constraints::{c5_spec, constraint, constraint_of_two};
use crate::cycle::{
    absorbed, Constraints, Cycle, Instants, Measurements, Properties, Rules, Snapshots,
};
use crate::data::{DataView, Metrics, Tasks};
use crate::metrics::{m11_spec, m12_spec, m13_spec, status_metric};
use crate::rules::{instantaneous, joined, windowed};
use crate::series::{increasing, lemma_newer_start_unique, merge_series, Stamp};
use crate::task::{
    evaluated_view, measured_view, Error, ErrorView, Evaluated, Evaluation, LogsView, Measured,
    MeasurementView,
};
use crate::time::Time;

verus! {

/// Whether every index of a series lies below `index`.
pub open spec fn below<W>(s: Seq<(u64, W)>, index: int) -> bool {
    forall|i: int| 0 <= i < s.len() ==> (#[trigger] s[i]).0 < index
}

/// Whether `later` is `earlier`, or `earlier` with one entry of cycle `index`
/// behind it.
pub open spec fn grown_by_one<W>(earlier: Seq<(u64, W)>, later: Seq<(u64, W)>, index: u64) -> bool {
    later == earlier || (later.len() == earlier.len() + 1 && later.drop_last() == earlier
        && later.last().0 == index)
}

/// A series that has grown by an entry of a cycle above all its indices
/// still has strictly increasing indices, none above that cycle's.
proof fn lemma_grown_increasing<W>(earlier: Seq<(u64, W)>, later: Seq<(u64, W)>, index: u64)
    requires
        increasing(earlier),
        below(earlier, index as int),
        grown_by_one(earlier, later, index),
    ensures
        increasing(later),
        below(later, index + 1),
{
    if later != earlier {
        assert forall|i: int, j: int| 0 <= i < j < later.len() implies later[i].0.rank()
            < later[j].0.rank() by {
            assert(later.drop_last()[i] == later[i]);
            if j < later.len() - 1 {
                assert(later.drop_last()[j] == later[j]);
            }
        }
        assert forall|i: int| 0 <= i < later.len() implies (#[trigger] later[i]).0 < index + 1 by {
            if i < later.len() - 1 {
                assert(later.drop_last()[i] == later[i]);
            }
        }
    }
}

/// Two series that have each grown from the same series by at most one
/// entry of a cycle merge to a series that has grown so.
proof fn lemma_merge_grown<W>(
    earlier: Seq<(u64, W)>,
    a: Seq<(u64, W)>,
    b: Seq<(u64, W)>,
    index: u64,
)
    requires
        below(earlier, index as int),
        grown_by_one(earlier, a, index),
        grown_by_one(earlier, b, index),
    ensures
        grown_by_one(earlier, merge_series(a, b), index),
{
    if b.len() > 0 && a.len() > 0 && a.last().0.rank() < b.last().0.rank() {
        if a != earlier {
            // The tail of `a` is of this cycle; the tail of `b` cannot be newer.
            if b == earlier {
                assert(b.last().0 < index);
            }
        } else {
            assert(a.last().0 < index);
            assert(b != earlier);
            let bound = a.last().0.rank();
            assert(b[b.len() - 2] == b.drop_last()[b.len() - 2]);
            lemma_newer_start_unique(b, bound, b.len() - 1);
            assert(b.subrange(b.len() - 1, b.len() as int) =~= seq![b.last()]);
            assert(merge_series(a, b) =~= a.push(b.last()));
            assert(merge_series(a, b).drop_last() =~= earlier);
        }
    }
}

/// Where in the order of evaluation a task stands: constraints come first,
/// then rules, then properties.
pub open spec fn stage(task: Tasks) -> int {
    match task {
        Tasks::R1 | Tasks::R2 | Tasks::R3 | Tasks::R4 | Tasks::R5 | Tasks::R6 | Tasks::R7
        | Tasks::R8 => 1,
        Tasks::P1 | Tasks::P2 | Tasks::P3 => 2,
        _ => 0,
    }
}

impl LogsView {
    /// Whether the store is settled before cycle `index`: in every series by
    /// index the indices strictly increase and lie below `index`.
    pub open spec fn settled(self, index: int) -> bool {
        &&& forall|m: Metrics| increasing(#[trigger] self.measurements_index[m])
        &&& forall|m: Metrics| below(#[trigger] self.measurements_index[m], index)
        &&& forall|t: Tasks| increasing(#[trigger] self.evaluations_index[t])
        &&& forall|t: Tasks| below(#[trigger] self.evaluations_index[t], index)
    }

    /// Whether this store is what a computation of cycle `index` hands on,
    /// where the cycle began with `store`: by index, every series of a metric
    /// and every series of a task that is evaluated before stage `depth` has
    /// grown by at most one entry of this cycle, and the series of the other
    /// tasks are as they were.
    pub open spec fn grown_from(self, store: LogsView, index: u64, depth: int) -> bool {
        &&& forall|m: Metrics|
            grown_by_one(store.measurements_index[m], #[trigger] self.measurements_index[m], index)
        &&& forall|t: Tasks|
            stage(t) < depth ==> grown_by_one(
                store.evaluations_index[t],
                #[trigger] self.evaluations_index[t],
                index,
            )
        &&& forall|t: Tasks|
            stage(t) >= depth ==> #[trigger] self.evaluations_index[t] == store.evaluations_index[t]
    }
}

/// The empty store is settled before the first cycle.
pub proof fn lemma_empty_settled()
    ensures
        LogsView::empty().settled(0),
{
}

/// A store that is settled before a cycle is settled before every later
/// cycle.
pub proof fn lemma_settled_later(store: LogsView, index: int, later: int)
    requires
        store.settled(index),
        index <= later,
    ensures
        store.settled(later),
{
    assert forall|m: Metrics| below(#[trigger] store.measurements_index[m], later) by {
        assert(below(store.measurements_index[m], index));
    }
    assert forall|t: Tasks| below(#[trigger] store.evaluations_index[t], later) by {
        assert(below(store.evaluations_index[t], index));
    }
}

/// In a settled store the indices are monotone.
pub proof fn lemma_settled_monotone(store: LogsView, index: int)
    requires
        store.settled(index),
    ensures
        store.monotone_by_index(),
{
}

/// A store that has grown from a settled store by a cycle is settled for the
/// next cycle.
proof fn lemma_grown_settled(store: LogsView, logs: LogsView, index: u64, depth: int)
    requires
        store.settled(index as int),
        logs.grown_from(store, index, depth),
    ensures
        logs.settled(index + 1),
{
    assert forall|m: Metrics|
        increasing(#[trigger] logs.measurements_index[m]) && below(
            logs.measurements_index[m],
            index + 1,
        ) by {
        assert(below(store.measurements_index[m], index as int));
        lemma_grown_increasing(store.measurements_index[m], logs.measurements_index[m], index);
    }
    assert forall|t: Tasks|
        increasing(#[trigger] logs.evaluations_index[t]) && below(
            logs.evaluations_index[t],
            index + 1,
        ) by {
        assert(below(store.evaluations_index[t], index as int));
        assert(increasing(store.evaluations_index[t]));
        if stage(t) < depth {
            lemma_grown_increasing(store.evaluations_index[t], logs.evaluations_index[t], index);
        } else {
            lemma_grown_increasing(store.evaluations_index[t], store.evaluations_index[t], index);
        }
    }
}

/// What has grown up to one stage has grown up to every later stage.
proof fn lemma_grown_deeper(store: LogsView, logs: LogsView, index: u64, depth: int, deeper: int)
    requires
        logs.grown_from(store, index, depth),
        depth <= deeper,
    ensures
        logs.grown_from(store, index, deeper),
{
    assert forall|t: Tasks| stage(t) < deeper implies grown_by_one(
        store.evaluations_index[t],
        #[trigger] logs.evaluations_index[t],
        index,
    ) by {
        if stage(t) >= depth {
            assert(logs.evaluations_index[t] == store.evaluations_index[t]);
        }
    }
}

/// The store of a measurement has grown from the store of the cycle's start,
/// and holds no verdict of the cycle.
proof fn lemma_measurement_grows(store: LogsView, measurement: MeasurementView, metric: Metrics)
    ensures
        store.with_measurement(measurement, metric).grown_from(store, measurement.index, 0),
{
    let logs = store.with_measurement(measurement, metric);
    assert forall|m: Metrics|
        grown_by_one(
            store.measurements_index[m],
            #[trigger] logs.measurements_index[m],
            measurement.index,
        ) by {
        if m == metric && logs.measurements_index[m] != store.measurements_index[m] {
            assert(logs.measurements_index[m].drop_last() =~= store.measurements_index[m]);
        }
    }
}

/// A verdict added to a store that has grown up to the stage of its task
/// gives a store that has grown up to the next stage.
proof fn lemma_evaluation_grows(
    store: LogsView,
    logs: LogsView,
    evaluation: Evaluation,
    task: Tasks,
    depth: int,
)
    requires
        logs.grown_from(store, evaluation.index, depth),
        stage(task) == depth,
    ensures
        logs.with_evaluation(evaluation, task).grown_from(store, evaluation.index, depth + 1),
{
    let added = logs.with_evaluation(evaluation, task);
    assert forall|t: Tasks| stage(t) < depth + 1 implies grown_by_one(
        store.evaluations_index[t],
        #[trigger] added.evaluations_index[t],
        evaluation.index,
    ) by {
        if t == task {
            assert(logs.evaluations_index[t] == store.evaluations_index[t]);
            if added.evaluations_index[t] != store.evaluations_index[t] {
                assert(added.evaluations_index[t].drop_last() =~= store.evaluations_index[t]);
            }
        } else {
            assert(added.evaluations_index[t] == logs.evaluations_index[t]);
            if stage(t) >= depth {
                assert(logs.evaluations_index[t] == store.evaluations_index[t]);
            }
        }
    }
    assert forall|t: Tasks| stage(t) >= depth + 1 implies #[trigger] added.evaluations_index[t]
        == store.evaluations_index[t] by {
        assert(added.evaluations_index[t] == logs.evaluations_index[t]);
    }
    assert forall|m: Metrics|
        grown_by_one(
            store.measurements_index[m],
            #[trigger] added.measurements_index[m],
            evaluation.index,
        ) by {
        assert(added.measurements_index[m] == logs.measurements_index[m]);
    }
}

/// Two stores that have grown from a settled store up to a stage merge to
/// a store that has grown up to that stage.
proof fn lemma_merged_grows(store: LogsView, a: LogsView, b: LogsView, index: u64, depth: int)
    requires
        store.settled(index as int),
        a.grown_from(store, index, depth),
        b.grown_from(store, index, depth),
    ensures
        a.merge(b).grown_from(store, index, depth),
{
    let merged = a.merge(b);
    assert forall|m: Metrics|
        grown_by_one(store.measurements_index[m], #[trigger] merged.measurements_index[m], index) by {
        assert(below(store.measurements_index[m], index as int));
        assert(grown_by_one(store.measurements_index[m], a.measurements_index[m], index));
        assert(grown_by_one(store.measurements_index[m], b.measurements_index[m], index));
        lemma_merge_grown(
            store.measurements_index[m],
            a.measurements_index[m],
            b.measurements_index[m],
            index,
        );
    }
    assert forall|t: Tasks| stage(t) < depth implies grown_by_one(
        store.evaluations_index[t],
        #[trigger] merged.evaluations_index[t],
        index,
    ) by {
        assert(below(store.evaluations_index[t], index as int));
        assert(grown_by_one(store.evaluations_index[t], a.evaluations_index[t], index));
        assert(grown_by_one(store.evaluations_index[t], b.evaluations_index[t], index));
        lemma_merge_grown(
            store.evaluations_index[t],
            a.evaluations_index[t],
            b.evaluations_index[t],
            index,
        );
    }
    assert forall|t: Tasks| stage(t) >= depth implies #[trigger] merged.evaluations_index[t]
        == store.evaluations_index[t] by {
        assert(below(store.evaluations_index[t], index as int));
        assert(a.evaluations_index[t] == store.evaluations_index[t]);
        assert(b.evaluations_index[t] == store.evaluations_index[t]);
        lemma_merge_grown(
            store.evaluations_index[t],
            a.evaluations_index[t],
            b.evaluations_index[t],
            index,
        );
    }
}

/// Whether the store that came with an outcome, if there is one, has grown
/// from `store` up to stage `depth`.
pub open spec fn outcome_grown<T>(
    outcome: Result<(T, LogsView), ErrorView>,
    store: LogsView,
    index: u64,
    depth: int,
) -> bool {
    outcome is Ok ==> outcome->Ok_0.1.grown_from(store, index, depth)
}

/// Every metric hands on the store of the cycle's start with its measurement
/// added.
proof fn lemma_metrics_grow(
    metric: Metrics,
    status: Result<Snapshot, Error>,
    certificates: Result<Snapshot, Error>,
    details: Seq<Result<Snapshot, Error>>,
    memory: Result<Snapshot, Error>,
    index: u64,
    store: LogsView,
    now: Time,
)
    ensures
        outcome_grown(status_metric(metric, status, index, store, now), store, index, 0),
        outcome_grown(m11_spec(certificates, details, index, store, now), store, index, 0),
        outcome_grown(m12_spec(certificates, index, store, now), store, index, 0),
        outcome_grown(m13_spec(memory, index, store, now), store, index, 0),
{
    let a = status_metric(metric, status, index, store, now);
    if a is Ok {
        lemma_measurement_grows(store, a->Ok_0.0, metric);
    }
    let b = m11_spec(certificates, details, index, store, now);
    if b is Ok {
        lemma_measurement_grows(store, b->Ok_0.0, Metrics::M11);
    }
    let c = m12_spec(certificates, index, store, now);
    if c is Ok {
        lemma_measurement_grows(store, c->Ok_0.0, Metrics::M12);
    }
    let d = m13_spec(memory, index, store, now);
    if d is Ok {
        lemma_measurement_grows(store, d->Ok_0.0, Metrics::M13);
    }
}

/// A constraint over one measurement hands on a store that has grown.
proof fn lemma_constraint_grows(
    task: Tasks,
    verdict: spec_fn(DataView) -> Option<bool>,
    measurement: Measured,
    index: u64,
    now: Time,
    store: LogsView,
)
    requires
        stage(task) == 0,
        outcome_grown(measurement, store, index, 0),
    ensures
        outcome_grown(constraint(task, verdict, measurement, index, now), store, index, 1),
{
    let r = constraint(task, verdict, measurement, index, now);
    if r is Ok {
        lemma_evaluation_grows(store, measurement->Ok_0.1, r->Ok_0.0, task, 0);
    }
}

/// The constraint on the steadiness of the usage hands on a store that has
/// grown.
proof fn lemma_c5_grows(measurement: Measured, index: u64, now: Time, store: LogsView)
    requires
        outcome_grown(measurement, store, index, 0),
    ensures
        outcome_grown(c5_spec(measurement, index, now), store, index, 1),
{
    let r = c5_spec(measurement, index, now);
    if r is Ok {
        lemma_evaluation_grows(store, measurement->Ok_0.1, r->Ok_0.0, Tasks::C5, 0);
    }
}

/// A constraint over two measurements hands on a store that has grown.
proof fn lemma_constraint_of_two_grows(
    task: Tasks,
    verdict: spec_fn(DataView, DataView) -> Option<bool>,
    first: Measured,
    second: Measured,
    index: u64,
    now: Time,
    store: LogsView,
)
    requires
        stage(task) == 0,
        store.settled(index as int),
        outcome_grown(first, store, index, 0),
        outcome_grown(second, store, index, 0),
    ensures
        outcome_grown(
            constraint_of_two(task, verdict, first, second, index, now),
            store,
            index,
            1,
        ),
{
    let r = constraint_of_two(task, verdict, first, second, index, now);
    if r is Ok {
        let a = first->Ok_0.1;
        let b = second->Ok_0.1;
        lemma_merged_grows(store, a, b, index, 0);
        lemma_evaluation_grows(store, a.merge(b), r->Ok_0.0, task, 0);
    }
}

/// The stores of outcomes that have grown up to a stage join to a store that
/// has grown up to that stage.
proof fn lemma_joined_grows(deps: Seq<Evaluated>, store: LogsView, index: u64, depth: int)
    requires
        store.settled(index as int),
        deps.len() > 0,
        forall|i: int| 0 <= i < deps.len() ==> outcome_grown(#[trigger] deps[i], store, index, depth),
    ensures
        joined(deps) is Ok ==> joined(deps)->Ok_0.grown_from(store, index, depth),
    decreases deps.len(),
{
    if deps.len() == 1 {
        assert(outcome_grown(deps[0], store, index, depth));
    } else {
        let front = deps.drop_last();
        assert forall|i: int| 0 <= i < front.len() implies outcome_grown(
            #[trigger] front[i],
            store,
            index,
            depth,
        ) by {
            assert(front[i] == deps[i]);
        }
        lemma_joined_grows(front, store, index, depth);
        if joined(deps) is Ok {
            assert(outcome_grown(deps[deps.len() - 1], store, index, depth));
            lemma_merged_grows(store, joined(front)->Ok_0, deps.last()->Ok_0.1, index, depth);
        }
    }
}

/// A rule or a property over outcomes that have grown up to its stage hands
/// on a store that has grown up to the next.
proof fn lemma_rule_grows(
    task: Tasks,
    over: Seq<Tasks>,
    deps: Seq<Evaluated>,
    index: u64,
    now: Time,
    store: LogsView,
)
    requires
        store.settled(index as int),
        deps.len() > 0,
        forall|i: int|
            0 <= i < deps.len() ==> outcome_grown(#[trigger] deps[i], store, index, stage(task)),
    ensures
        outcome_grown(windowed(task, over, deps, index, now), store, index, stage(task) + 1),
        outcome_grown(instantaneous(task, deps, index, now), store, index, stage(task) + 1),
{
    lemma_joined_grows(deps, store, index, stage(task));
    let w = windowed(task, over, deps, index, now);
    if w is Ok {
        lemma_evaluation_grows(store, joined(deps)->Ok_0, w->Ok_0.0, task, stage(task));
    }
    let i = instantaneous(task, deps, index, now);
    if i is Ok {
        lemma_evaluation_grows(store, joined(deps)->Ok_0, i->Ok_0.0, task, stage(task));
    }
}

impl Measurements {
    /// Whether every store that came with a measurement has grown from `store`.
    pub open spec fn grown(self, store: LogsView, index: u64) -> bool {
        &&& outcome_grown(measured_view(self.m1), store, index, 0)
        &&& outcome_grown(measured_view(self.m2), store, index, 0)
        &&& outcome_grown(measured_view(self.m3), store, index, 0)
        &&& outcome_grown(measured_view(self.m4), store, index, 0)
        &&& outcome_grown(measured_view(self.m5), store, index, 0)
        &&& outcome_grown(measured_view(self.m6), store, index, 0)
        &&& outcome_grown(measured_view(self.m7), store, index, 0)
        &&& outcome_grown(measured_view(self.m8), store, index, 0)
        &&& outcome_grown(measured_view(self.m9), store, index, 0)
        &&& outcome_grown(measured_view(self.m10), store, index, 0)
        &&& outcome_grown(measured_view(self.m11), store, index, 0)
        &&& outcome_grown(measured_view(self.m12), store, index, 0)
        &&& outcome_grown(measured_view(self.m13), store, index, 0)
        &&& outcome_grown(measured_view(self.m14), store, index, 0)
    }
}

impl Constraints {
    /// Whether every store that came with a verdict has grown from `store`.
    pub open spec fn grown(self, store: LogsView, index: u64) -> bool {
        &&& outcome_grown(evaluated_view(self.c1), store, index, 1)
        &&& outcome_grown(evaluated_view(self.c2), store, index, 1)
        &&& outcome_grown(evaluated_view(self.c3), store, index, 1)
        &&& outcome_grown(evaluated_view(self.c4), store, index, 1)
        &&& outcome_grown(evaluated_view(self.c5), store, index, 1)
        &&& outcome_grown(evaluated_view(self.c6), store, index, 1)
        &&& outcome_grown(evaluated_view(self.c7), store, index, 1)
        &&& outcome_grown(evaluated_view(self.c8), store, index, 1)
        &&& outcome_grown(evaluated_view(self.c9), store, index, 1)
        &&& outcome_grown(evaluated_view(self.c10), store, index, 1)
        &&& outcome_grown(evaluated_view(self.c11), store, index, 1)
        &&& outcome_grown(evaluated_view(self.c12), store, index, 1)
        &&& outcome_grown(evaluated_view(self.c13), store, index, 1)
        &&& outcome_grown(evaluated_view(self.c14), store, index, 1)
        &&& outcome_grown(evaluated_view(self.c15), store, index, 1)
    }
}

impl Rules {
    /// Whether every store that came with a verdict has grown from `store`.
    pub open spec fn grown(self, store: LogsView, index: u64) -> bool {
        &&& outcome_grown(evaluated_view(self.r1), store, index, 2)
        &&& outcome_grown(evaluated_view(self.r2), store, index, 2)
        &&& outcome_grown(evaluated_view(self.r3), store, index, 2)
        &&& outcome_grown(evaluated_view(self.r4), store, index, 2)
        &&& outcome_grown(evaluated_view(self.r5), store, index, 2)
        &&& outcome_grown(evaluated_view(self.r6), store, index, 2)
        &&& outcome_grown(evaluated_view(self.r7), store, index, 2)
        &&& outcome_grown(evaluated_view(self.r8), store, index, 2)
    }
}

impl Properties {
    /// Whether every store that came with a verdict has grown from `store`.
    pub open spec fn grown(self, store: LogsView, index: u64) -> bool {
        &&& outcome_grown(evaluated_view(self.p1), store, index, 3)
        &&& outcome_grown(evaluated_view(self.p2), store, index, 3)
        &&& outcome_grown(evaluated_view(self.p3), store, index, 3)
    }
}

/// The metrics of a cycle hand on stores that have grown from the store of
/// the cycle's start.
proof fn lemma_measurements_grow(
    m: Measurements,
    store: LogsView,
    snapshots: Snapshots,
    index: u64,
    now: Time,
)
    requires
        m.made_from(store, snapshots, index, now),
    ensures
        m.grown(store, index),
{
    let s = snapshots;
    lemma_metrics_grow(Metrics::M1, s.status, s.certificates, s.details@, s.memory, index, store, now);
    lemma_metrics_grow(Metrics::M2, s.status, s.certificates, s.details@, s.memory, index, store, now);
    lemma_metrics_grow(Metrics::M3, s.status, s.certificates, s.details@, s.memory, index, store, now);
    lemma_metrics_grow(Metrics::M4, s.status, s.certificates, s.details@, s.memory, index, store, now);
    lemma_metrics_grow(Metrics::M5, s.status, s.certificates, s.details@, s.memory, index, store, now);
    lemma_metrics_grow(Metrics::M6, s.status, s.certificates, s.details@, s.memory, index, store, now);
    lemma_metrics_grow(Metrics::M7, s.status, s.certificates, s.details@, s.memory, index, store, now);
    lemma_metrics_grow(Metrics::M8, s.status, s.certificates, s.details@, s.memory, index, store, now);
    lemma_metrics_grow(Metrics::M9, s.status, s.certificates, s.details@, s.memory, index, store, now);
    lemma_metrics_grow(Metrics::M10, s.status, s.certificates, s.details@, s.memory, index, store, now);
    lemma_metrics_grow(Metrics::M11, s.status, s.certificates, s.details@, s.memory, index, store, now);
    lemma_metrics_grow(Metrics::M12, s.status, s.certificates, s.details@, s.memory, index, store, now);
    lemma_metrics_grow(Metrics::M13, s.status, s.certificates, s.details@, s.memory, index, store, now);
    lemma_metrics_grow(Metrics::M14, s.status, s.certificates, s.details@, s.memory, index, store, now);
}

/// The constraints of a cycle hand on stores that have grown.
proof fn lemma_constraints_grow(
    c: Constraints,
    m: Measurements,
    store: LogsView,
    index: u64,
    now: Time,
)
    requires
        store.settled(index as int),
        m.grown(store, index),
        c.made_from(m, index, now),
    ensures
        c.grown(store, index),
{
    lemma_constraint_grows(Tasks::C1, |d: DataView| crate::constraints::c1_verdict(d), measured_view(m.m1), index, now, store);
    lemma_constraint_of_two_grows(Tasks::C2, |a: DataView, b: DataView| crate::constraints::c2_verdict(a, b), measured_view(m.m2), measured_view(m.m13), index, now, store);
    lemma_constraint_grows(Tasks::C3, |d: DataView| crate::constraints::c3_verdict(d), measured_view(m.m2), index, now, store);
    lemma_constraint_of_two_grows(Tasks::C4, |a: DataView, b: DataView| crate::constraints::c4_verdict(a, b), measured_view(m.m2), measured_view(m.m3), index, now, store);
    lemma_c5_grows(measured_view(m.m3), index, now, store);
    lemma_constraint_grows(Tasks::C6, |d: DataView| crate::constraints::c6_verdict(d), measured_view(m.m4), index, now, store);
    lemma_constraint_grows(Tasks::C7, |d: DataView| crate::constraints::c7_verdict(d), measured_view(m.m4), index, now, store);
    lemma_constraint_grows(Tasks::C8, |d: DataView| crate::constraints::c8_verdict(d), measured_view(m.m6), index, now, store);
    lemma_constraint_grows(Tasks::C9, |d: DataView| crate::constraints::c9_verdict(d), measured_view(m.m7), index, now, store);
    lemma_constraint_grows(Tasks::C10, |d: DataView| crate::constraints::c10_verdict(d), measured_view(m.m9), index, now, store);
    lemma_constraint_grows(Tasks::C11, |d: DataView| crate::constraints::c11_verdict(d), measured_view(m.m8), index, now, store);
    lemma_constraint_grows(Tasks::C12, |d: DataView| crate::constraints::c12_verdict(d), measured_view(m.m10), index, now, store);
    lemma_constraint_grows(Tasks::C13, |d: DataView| crate::constraints::c13_verdict(d, now), measured_view(m.m11), index, now, store);
    lemma_constraint_grows(Tasks::C14, |d: DataView| crate::constraints::c14_verdict(d), measured_view(m.m12), index, now, store);
    lemma_constraint_grows(Tasks::C15, |d: DataView| crate::constraints::c15_verdict(d), measured_view(m.m14), index, now, store);
}

/// The rules of a cycle hand on stores that have grown.
proof fn lemma_rules_grow(r: Rules, c: Constraints, store: LogsView, index: u64, now: Time)
    requires
        store.settled(index as int),
        c.grown(store, index),
        r.made_from(c, index, now),
    ensures
        r.grown(store, index),
{
    lemma_rule_grows(Tasks::R1, seq![], seq![evaluated_view(c.c1), evaluated_view(c.c2), evaluated_view(c.c3)], index, now, store);
    lemma_rule_grows(Tasks::R2, seq![Tasks::C4, Tasks::C5, Tasks::C6, Tasks::C7], seq![evaluated_view(c.c4), evaluated_view(c.c5), evaluated_view(c.c6), evaluated_view(c.c7)], index, now, store);
    lemma_rule_grows(Tasks::R3, seq![Tasks::C8], seq![evaluated_view(c.c8)], index, now, store);
    lemma_rule_grows(Tasks::R4, seq![Tasks::C9, Tasks::C10], seq![evaluated_view(c.c9), evaluated_view(c.c10)], index, now, store);
    lemma_rule_grows(Tasks::R5, seq![Tasks::C11, Tasks::C12], seq![evaluated_view(c.c11), evaluated_view(c.c12)], index, now, store);
    lemma_rule_grows(Tasks::R6, seq![Tasks::C13], seq![evaluated_view(c.c13)], index, now, store);
    lemma_rule_grows(Tasks::R7, seq![Tasks::C14], seq![evaluated_view(c.c14)], index, now, store);
    lemma_rule_grows(Tasks::R8, seq![Tasks::C15], seq![evaluated_view(c.c15)], index, now, store);
}

/// The properties of a cycle hand on stores that have grown.
proof fn lemma_properties_grow(p: Properties, r: Rules, store: LogsView, index: u64, now: Time)
    requires
        store.settled(index as int),
        r.grown(store, index),
        p.made_from(r, index, now),
    ensures
        p.grown(store, index),
{
    lemma_rule_grows(Tasks::P1, seq![Tasks::R1, Tasks::R2, Tasks::R3, Tasks::R4, Tasks::R5], seq![evaluated_view(r.r1), evaluated_view(r.r2), evaluated_view(r.r3), evaluated_view(r.r4), evaluated_view(r.r5)], index, now, store);
    lemma_rule_grows(Tasks::P2, seq![Tasks::R6, Tasks::R7], seq![evaluated_view(r.r6), evaluated_view(r.r7)], index, now, store);
    lemma_rule_grows(Tasks::P3, seq![Tasks::R6, Tasks::R7, Tasks::R8], seq![evaluated_view(r.r6), evaluated_view(r.r7), evaluated_view(r.r8)], index, now, store);
}

/// A store that has grown stays grown when it takes in an outcome that has
/// grown.
proof fn lemma_absorbed_grows<T>(
    store: LogsView,
    so_far: LogsView,
    outcome: Result<(T, LogsView), ErrorView>,
    index: u64,
    depth: int,
)
    requires
        store.settled(index as int),
        depth <= 3,
        so_far.grown_from(store, index, 3),
        outcome_grown(outcome, store, index, depth),
    ensures
        absorbed(so_far, outcome).grown_from(store, index, 3),
{
    if outcome is Ok {
        lemma_grown_deeper(store, outcome->Ok_0.1, index, depth, 3);
        lemma_merged_grows(store, so_far, outcome->Ok_0.1, index, 3);
    }
}

/// A cycle leaves the store settled. Where the store is settled before
/// cycle `index`, the store after the cycle holds under every key, by index,
/// what it held before and at most one entry more, of this cycle; its indices
/// strictly increase, and it is settled for every later cycle.
pub proof fn lemma_cycle_settles(
    cycle: Cycle,
    store: LogsView,
    snapshots: Snapshots,
    index: u64,
    at: Instants,
)
    requires
        store.settled(index as int),
        cycle.made_from(store, snapshots, index, at),
    ensures
        cycle.merged_into(store).grown_from(store, index, 3),
        cycle.merged_into(store).settled(index + 1),
{
    let m = cycle.measurements;
    let c = cycle.constraints;
    let r = cycle.rules;
    let p = cycle.properties;
    lemma_measurements_grow(m, store, snapshots, index, at.metrics);
    lemma_constraints_grow(c, m, store, index, at.constraints);
    lemma_rules_grow(r, c, store, index, at.rules);
    lemma_properties_grow(p, r, store, index, at.properties);
    lemma_measurements_merged(m, store, store, index);
    lemma_constraints_merged(c, store, m.merged_into(store), index);
    lemma_rules_merged(r, store, c.merged_into(m.merged_into(store)), index);
    lemma_properties_merged(p, store, r.merged_into(c.merged_into(m.merged_into(store))), index);
    lemma_grown_settled(store, cycle.merged_into(store), index, 3);
}

/// A store that has grown stays grown when it takes in what the metrics
/// of the cycle made.
proof fn lemma_measurements_merged(x: Measurements, store: LogsView, so_far: LogsView, index: u64)
    requires
        store.settled(index as int),
        so_far.grown_from(store, index, 3),
        x.grown(store, index),
    ensures
        x.merged_into(so_far).grown_from(store, index, 3),
{
    let s = so_far;
    lemma_absorbed_grows(store, s, measured_view(x.m1), index, 0);
    let s = absorbed(s, measured_view(x.m1));
    lemma_absorbed_grows(store, s, measured_view(x.m2), index, 0);
    let s = absorbed(s, measured_view(x.m2));
    lemma_absorbed_grows(store, s, measured_view(x.m3), index, 0);
    let s = absorbed(s, measured_view(x.m3));
    lemma_absorbed_grows(store, s, measured_view(x.m4), index, 0);
    let s = absorbed(s, measured_view(x.m4));
    lemma_absorbed_grows(store, s, measured_view(x.m5), index, 0);
    let s = absorbed(s, measured_view(x.m5));
    lemma_absorbed_grows(store, s, measured_view(x.m6), index, 0);
    let s = absorbed(s, measured_view(x.m6));
    lemma_absorbed_grows(store, s, measured_view(x.m7), index, 0);
    let s = absorbed(s, measured_view(x.m7));
    lemma_absorbed_grows(store, s, measured_view(x.m8), index, 0);
    let s = absorbed(s, measured_view(x.m8));
    lemma_absorbed_grows(store, s, measured_view(x.m9), index, 0);
    let s = absorbed(s, measured_view(x.m9));
    lemma_absorbed_grows(store, s, measured_view(x.m10), index, 0);
    let s = absorbed(s, measured_view(x.m10));
    lemma_absorbed_grows(store, s, measured_view(x.m11), index, 0);
    let s = absorbed(s, measured_view(x.m11));
    lemma_absorbed_grows(store, s, measured_view(x.m12), index, 0);
    let s = absorbed(s, measured_view(x.m12));
    lemma_absorbed_grows(store, s, measured_view(x.m13), index, 0);
    let s = absorbed(s, measured_view(x.m13));
    lemma_absorbed_grows(store, s, measured_view(x.m14), index, 0);
    let s = absorbed(s, measured_view(x.m14));
}

/// A store that has grown stays grown when it takes in what the constraints
/// of the cycle made.
proof fn lemma_constraints_merged(x: Constraints, store: LogsView, so_far: LogsView, index: u64)
    requires
        store.settled(index as int),
        so_far.grown_from(store, index, 3),
        x.grown(store, index),
    ensures
        x.merged_into(so_far).grown_from(store, index, 3),
{
    let s = so_far;
    lemma_absorbed_grows(store, s, evaluated_view(x.c1), index, 1);
    let s = absorbed(s, evaluated_view(x.c1));
    lemma_absorbed_grows(store, s, evaluated_view(x.c2), index, 1);
    let s = absorbed(s, evaluated_view(x.c2));
    lemma_absorbed_grows(store, s, evaluated_view(x.c3), index, 1);
    let s = absorbed(s, evaluated_view(x.c3));
    lemma_absorbed_grows(store, s, evaluated_view(x.c4), index, 1);
    let s = absorbed(s, evaluated_view(x.c4));
    lemma_absorbed_grows(store, s, evaluated_view(x.c5), index, 1);
    let s = absorbed(s, evaluated_view(x.c5));
    lemma_absorbed_grows(store, s, evaluated_view(x.c6), index, 1);
    let s = absorbed(s, evaluated_view(x.c6));
    lemma_absorbed_grows(store, s, evaluated_view(x.c7), index, 1);
    let s = absorbed(s, evaluated_view(x.c7));
    lemma_absorbed_grows(store, s, evaluated_view(x.c8), index, 1);
    let s = absorbed(s, evaluated_view(x.c8));
    lemma_absorbed_grows(store, s, evaluated_view(x.c9), index, 1);
    let s = absorbed(s, evaluated_view(x.c9));
    lemma_absorbed_grows(store, s, evaluated_view(x.c10), index, 1);
    let s = absorbed(s, evaluated_view(x.c10));
    lemma_absorbed_grows(store, s, evaluated_view(x.c11), index, 1);
    let s = absorbed(s, evaluated_view(x.c11));
    lemma_absorbed_grows(store, s, evaluated_view(x.c12), index, 1);
    let s = absorbed(s, evaluated_view(x.c12));
    lemma_absorbed_grows(store, s, evaluated_view(x.c13), index, 1);
    let s = absorbed(s, evaluated_view(x.c13));
    lemma_absorbed_grows(store, s, evaluated_view(x.c14), index, 1);
    let s = absorbed(s, evaluated_view(x.c14));
    lemma_absorbed_grows(store, s, evaluated_view(x.c15), index, 1);
    let s = absorbed(s, evaluated_view(x.c15));
}

/// A store that has grown stays grown when it takes in what the rules
/// of the cycle made.
proof fn lemma_rules_merged(x: Rules, store: LogsView, so_far: LogsView, index: u64)
    requires
        store.settled(index as int),
        so_far.grown_from(store, index, 3),
        x.grown(store, index),
    ensures
        x.merged_into(so_far).grown_from(store, index, 3),
{
    let s = so_far;
    lemma_absorbed_grows(store, s, evaluated_view(x.r1), index, 2);
    let s = absorbed(s, evaluated_view(x.r1));
    lemma_absorbed_grows(store, s, evaluated_view(x.r2), index, 2);
    let s = absorbed(s, evaluated_view(x.r2));
    lemma_absorbed_grows(store, s, evaluated_view(x.r3), index, 2);
    let s = absorbed(s, evaluated_view(x.r3));
    lemma_absorbed_grows(store, s, evaluated_view(x.r4), index, 2);
    let s = absorbed(s, evaluated_view(x.r4));
    lemma_absorbed_grows(store, s, evaluated_view(x.r5), index, 2);
    let s = absorbed(s, evaluated_view(x.r5));
    lemma_absorbed_grows(store, s, evaluated_view(x.r6), index, 2);
    let s = absorbed(s, evaluated_view(x.r6));
    lemma_absorbed_grows(store, s, evaluated_view(x.r7), index, 2);
    let s = absorbed(s, evaluated_view(x.r7));
    lemma_absorbed_grows(store, s, evaluated_view(x.r8), index, 2);
    let s = absorbed(s, evaluated_view(x.r8));
}

/// A store that has grown stays grown when it takes in what the properties
/// of the cycle made.
proof fn lemma_properties_merged(x: Properties, store: LogsView, so_far: LogsView, index: u64)
    requires
        store.settled(index as int),
        so_far.grown_from(store, index, 3),
        x.grown(store, index),
    ensures
        x.merged_into(so_far).grown_from(store, index, 3),
{
    let s = so_far;
    lemma_absorbed_grows(store, s, evaluated_view(x.p1), index, 3);
    let s = absorbed(s, evaluated_view(x.p1));
    lemma_absorbed_grows(store, s, evaluated_view(x.p2), index, 3);
    let s = absorbed(s, evaluated_view(x.p2));
    lemma_absorbed_grows(store, s, evaluated_view(x.p3), index, 3);
    let s = absorbed(s, evaluated_view(x.p3));
}

} // verus!
