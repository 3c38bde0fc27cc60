//! What a cycle keeps.
//!
//! A property of stores that recording and merging keep is kept by a cycle as
//! a whole: it holds of every store that a computation of the cycle hands
//! on, and of the store after the cycle. One such property is that every
//! value stands under the metric it belongs to.

use vstd::prelude::*;
use crate::command::Snapshot;
use crate::constraints::{c5_spec, constraint, constraint_of_two};
use crate::cycle::{
    absorbed, Constraints, Cycle, Instants, Measurements, Properties, Rules, Snapshots,
};
use crate::data::{DataView, Metrics, Tasks};
use crate::metrics::{m11_spec, m12_spec, m13_spec, status_metric};
use crate::rules::{instantaneous, joined, windowed};
use crate::series::{lemma_merge_series_keeps, merge_series, Stamp};
use crate::task::{
    evaluated_view, measured_view, Error, ErrorView, Evaluated, Evaluation, LogsView, Measured,
    MeasurementView,
};
use crate::time::Time;

verus! {

/// Whether `holds` is a property of stores that is kept by all that a cycle
/// does to a store: by recording a measurement under the metric that its
/// value belongs to, by recording a verdict, and by merging.
pub open spec fn kept_by_cycles(holds: spec_fn(LogsView) -> bool) -> bool {
    &&& forall|logs: LogsView, m: MeasurementView, metric: Metrics|
        holds(logs) && m.data.metric() == metric ==> #[trigger] holds(
            logs.with_measurement(m, metric),
        )
    &&& forall|logs: LogsView, e: Evaluation, task: Tasks|
        holds(logs) ==> #[trigger] holds(logs.with_evaluation(e, task))
    &&& forall|a: LogsView, b: LogsView| holds(a) && holds(b) ==> #[trigger] holds(a.merge(b))
}

/// Whether the store that came with an outcome, if there is one, has the
/// property.
pub open spec fn outcome_holds<T>(
    outcome: Result<(T, LogsView), ErrorView>,
    holds: spec_fn(LogsView) -> bool,
) -> bool {
    outcome is Ok ==> holds(outcome->Ok_0.1)
}

/// Every metric measures a value of its own.
proof fn lemma_metrics_measure_their_own(
    metric: Metrics,
    status: Result<Snapshot, Error>,
    certificates: Result<Snapshot, Error>,
    details: Seq<Result<Snapshot, Error>>,
    memory: Result<Snapshot, Error>,
    index: u64,
    store: LogsView,
    now: Time,
)
    ensures
        status_metric(metric, status, index, store, now) is Ok ==> status_metric(
            metric,
            status,
            index,
            store,
            now,
        )->Ok_0.0.data.metric() == metric,
        m11_spec(certificates, details, index, store, now) is Ok ==> m11_spec(
            certificates,
            details,
            index,
            store,
            now,
        )->Ok_0.0.data.metric() == Metrics::M11,
        m12_spec(certificates, index, store, now) is Ok ==> m12_spec(
            certificates,
            index,
            store,
            now,
        )->Ok_0.0.data.metric() == Metrics::M12,
        m13_spec(memory, index, store, now) is Ok ==> m13_spec(
            memory,
            index,
            store,
            now,
        )->Ok_0.0.data.metric() == Metrics::M13,
{
}

/// The stores that the metrics hand on have every property that the store
/// of the cycle's start has and that cycles keep.
proof fn lemma_metrics_keep(
    metric: Metrics,
    status: Result<Snapshot, Error>,
    certificates: Result<Snapshot, Error>,
    details: Seq<Result<Snapshot, Error>>,
    memory: Result<Snapshot, Error>,
    index: u64,
    store: LogsView,
    now: Time,
    holds: spec_fn(LogsView) -> bool,
)
    requires
        kept_by_cycles(holds),
        holds(store),
    ensures
        outcome_holds(status_metric(metric, status, index, store, now), holds),
        outcome_holds(m11_spec(certificates, details, index, store, now), holds),
        outcome_holds(m12_spec(certificates, index, store, now), holds),
        outcome_holds(m13_spec(memory, index, store, now), holds),
{
    lemma_metrics_measure_their_own(
        metric,
        status,
        certificates,
        details,
        memory,
        index,
        store,
        now,
    );
    let a = status_metric(metric, status, index, store, now);
    if a is Ok {
        assert(a->Ok_0.1 == store.with_measurement(a->Ok_0.0, metric));
    }
    let b = m11_spec(certificates, details, index, store, now);
    if b is Ok {
        assert(b->Ok_0.1 == store.with_measurement(b->Ok_0.0, Metrics::M11));
    }
    let c = m12_spec(certificates, index, store, now);
    if c is Ok {
        assert(c->Ok_0.1 == store.with_measurement(c->Ok_0.0, Metrics::M12));
    }
    let d = m13_spec(memory, index, store, now);
    if d is Ok {
        assert(d->Ok_0.1 == store.with_measurement(d->Ok_0.0, Metrics::M13));
    }
}

/// A constraint hands on a store with every property that the stores of
/// its measurements have and that cycles keep.
proof fn lemma_constraints_keep(
    task: Tasks,
    one: spec_fn(DataView) -> Option<bool>,
    two: spec_fn(DataView, DataView) -> Option<bool>,
    first: Measured,
    second: Measured,
    index: u64,
    now: Time,
    holds: spec_fn(LogsView) -> bool,
)
    requires
        kept_by_cycles(holds),
        outcome_holds(first, holds),
        outcome_holds(second, holds),
    ensures
        outcome_holds(constraint(task, one, first, index, now), holds),
        outcome_holds(c5_spec(first, index, now), holds),
        outcome_holds(constraint_of_two(task, two, first, second, index, now), holds),
{
    let a = constraint(task, one, first, index, now);
    if a is Ok {
        assert(a->Ok_0.1 == first->Ok_0.1.with_evaluation(a->Ok_0.0, task));
    }
    let b = c5_spec(first, index, now);
    if b is Ok {
        assert(b->Ok_0.1 == first->Ok_0.1.with_evaluation(b->Ok_0.0, Tasks::C5));
    }
    let c = constraint_of_two(task, two, first, second, index, now);
    if c is Ok {
        let merged = first->Ok_0.1.merge(second->Ok_0.1);
        assert(holds(merged));
        assert(c->Ok_0.1 == merged.with_evaluation(c->Ok_0.0, task));
    }
}

/// The stores of outcomes join to a store with every property that they all
/// have and that cycles keep.
proof fn lemma_joined_keeps(deps: Seq<Evaluated>, holds: spec_fn(LogsView) -> bool)
    requires
        kept_by_cycles(holds),
        deps.len() > 0,
        forall|i: int| 0 <= i < deps.len() ==> outcome_holds(#[trigger] deps[i], holds),
    ensures
        joined(deps) is Ok ==> holds(joined(deps)->Ok_0),
    decreases deps.len(),
{
    if deps.len() == 1 {
        assert(outcome_holds(deps[0], holds));
    } else {
        let front = deps.drop_last();
        assert forall|i: int| 0 <= i < front.len() implies outcome_holds(
            #[trigger] front[i],
            holds,
        ) by {
            assert(front[i] == deps[i]);
        }
        lemma_joined_keeps(front, holds);
        if joined(deps) is Ok {
            assert(outcome_holds(deps[deps.len() - 1], holds));
            assert(holds(joined(front)->Ok_0.merge(deps.last()->Ok_0.1)));
        }
    }
}

/// A rule or a property hands on a store with every property that the
/// stores of the outcomes it is over have and that cycles keep.
proof fn lemma_rules_keep(
    task: Tasks,
    over: Seq<Tasks>,
    deps: Seq<Evaluated>,
    index: u64,
    now: Time,
    holds: spec_fn(LogsView) -> bool,
)
    requires
        kept_by_cycles(holds),
        deps.len() > 0,
        forall|i: int| 0 <= i < deps.len() ==> outcome_holds(#[trigger] deps[i], holds),
    ensures
        outcome_holds(windowed(task, over, deps, index, now), holds),
        outcome_holds(instantaneous(task, deps, index, now), holds),
{
    lemma_joined_keeps(deps, holds);
    let w = windowed(task, over, deps, index, now);
    if w is Ok {
        assert(w->Ok_0.1 == joined(deps)->Ok_0.with_evaluation(w->Ok_0.0, task));
    }
    let i = instantaneous(task, deps, index, now);
    if i is Ok {
        assert(i->Ok_0.1 == joined(deps)->Ok_0.with_evaluation(i->Ok_0.0, task));
    }
}

impl Measurements {
    /// Whether every store that came with a measurement has the property.
    pub open spec fn all_hold(self, holds: spec_fn(LogsView) -> bool) -> bool {
        &&& outcome_holds(measured_view(self.m1), holds)
        &&& outcome_holds(measured_view(self.m2), holds)
        &&& outcome_holds(measured_view(self.m3), holds)
        &&& outcome_holds(measured_view(self.m4), holds)
        &&& outcome_holds(measured_view(self.m5), holds)
        &&& outcome_holds(measured_view(self.m6), holds)
        &&& outcome_holds(measured_view(self.m7), holds)
        &&& outcome_holds(measured_view(self.m8), holds)
        &&& outcome_holds(measured_view(self.m9), holds)
        &&& outcome_holds(measured_view(self.m10), holds)
        &&& outcome_holds(measured_view(self.m11), holds)
        &&& outcome_holds(measured_view(self.m12), holds)
        &&& outcome_holds(measured_view(self.m13), holds)
        &&& outcome_holds(measured_view(self.m14), holds)
    }
}

impl Constraints {
    /// Whether every store that came with a verdict has the property.
    pub open spec fn all_hold(self, holds: spec_fn(LogsView) -> bool) -> bool {
        &&& outcome_holds(evaluated_view(self.c1), holds)
        &&& outcome_holds(evaluated_view(self.c2), holds)
        &&& outcome_holds(evaluated_view(self.c3), holds)
        &&& outcome_holds(evaluated_view(self.c4), holds)
        &&& outcome_holds(evaluated_view(self.c5), holds)
        &&& outcome_holds(evaluated_view(self.c6), holds)
        &&& outcome_holds(evaluated_view(self.c7), holds)
        &&& outcome_holds(evaluated_view(self.c8), holds)
        &&& outcome_holds(evaluated_view(self.c9), holds)
        &&& outcome_holds(evaluated_view(self.c10), holds)
        &&& outcome_holds(evaluated_view(self.c11), holds)
        &&& outcome_holds(evaluated_view(self.c12), holds)
        &&& outcome_holds(evaluated_view(self.c13), holds)
        &&& outcome_holds(evaluated_view(self.c14), holds)
        &&& outcome_holds(evaluated_view(self.c15), holds)
    }
}

impl Rules {
    /// Whether every store that came with a verdict has the property.
    pub open spec fn all_hold(self, holds: spec_fn(LogsView) -> bool) -> bool {
        &&& outcome_holds(evaluated_view(self.r1), holds)
        &&& outcome_holds(evaluated_view(self.r2), holds)
        &&& outcome_holds(evaluated_view(self.r3), holds)
        &&& outcome_holds(evaluated_view(self.r4), holds)
        &&& outcome_holds(evaluated_view(self.r5), holds)
        &&& outcome_holds(evaluated_view(self.r6), holds)
        &&& outcome_holds(evaluated_view(self.r7), holds)
        &&& outcome_holds(evaluated_view(self.r8), holds)
    }
}

impl Properties {
    /// Whether every store that came with a verdict has the property.
    pub open spec fn all_hold(self, holds: spec_fn(LogsView) -> bool) -> bool {
        &&& outcome_holds(evaluated_view(self.p1), holds)
        &&& outcome_holds(evaluated_view(self.p2), holds)
        &&& outcome_holds(evaluated_view(self.p3), holds)
    }
}

/// The stores that the metrics of a cycle hand on have the property.
proof fn lemma_measurements_keep(
    m: Measurements,
    store: LogsView,
    snapshots: Snapshots,
    index: u64,
    now: Time,
    holds: spec_fn(LogsView) -> bool,
)
    requires
        kept_by_cycles(holds),
        holds(store),
        m.made_from(store, snapshots, index, now),
    ensures
        m.all_hold(holds),
{
    let s = snapshots;
    lemma_metrics_keep(Metrics::M1, s.status, s.certificates, s.details@, s.memory, index, store, now, holds);
    lemma_metrics_keep(Metrics::M2, s.status, s.certificates, s.details@, s.memory, index, store, now, holds);
    lemma_metrics_keep(Metrics::M3, s.status, s.certificates, s.details@, s.memory, index, store, now, holds);
    lemma_metrics_keep(Metrics::M4, s.status, s.certificates, s.details@, s.memory, index, store, now, holds);
    lemma_metrics_keep(Metrics::M5, s.status, s.certificates, s.details@, s.memory, index, store, now, holds);
    lemma_metrics_keep(Metrics::M6, s.status, s.certificates, s.details@, s.memory, index, store, now, holds);
    lemma_metrics_keep(Metrics::M7, s.status, s.certificates, s.details@, s.memory, index, store, now, holds);
    lemma_metrics_keep(Metrics::M8, s.status, s.certificates, s.details@, s.memory, index, store, now, holds);
    lemma_metrics_keep(Metrics::M9, s.status, s.certificates, s.details@, s.memory, index, store, now, holds);
    lemma_metrics_keep(Metrics::M10, s.status, s.certificates, s.details@, s.memory, index, store, now, holds);
    lemma_metrics_keep(Metrics::M11, s.status, s.certificates, s.details@, s.memory, index, store, now, holds);
    lemma_metrics_keep(Metrics::M12, s.status, s.certificates, s.details@, s.memory, index, store, now, holds);
    lemma_metrics_keep(Metrics::M13, s.status, s.certificates, s.details@, s.memory, index, store, now, holds);
    lemma_metrics_keep(Metrics::M14, s.status, s.certificates, s.details@, s.memory, index, store, now, holds);
}

/// The stores that the constraints of a cycle hand on have the property.
proof fn lemma_constraints_all_keep(
    c: Constraints,
    m: Measurements,
    index: u64,
    now: Time,
    holds: spec_fn(LogsView) -> bool,
)
    requires
        kept_by_cycles(holds),
        m.all_hold(holds),
        c.made_from(m, index, now),
    ensures
        c.all_hold(holds),
{
    let no_one = |d: DataView| None::<bool>;
    let no_two = |a: DataView, b: DataView| None::<bool>;
    lemma_constraints_keep(Tasks::C1, |d: DataView| crate::constraints::c1_verdict(d), no_two, measured_view(m.m1), measured_view(m.m1), index, now, holds);
    lemma_constraints_keep(Tasks::C2, no_one, |a: DataView, b: DataView| crate::constraints::c2_verdict(a, b), measured_view(m.m2), measured_view(m.m13), index, now, holds);
    lemma_constraints_keep(Tasks::C3, |d: DataView| crate::constraints::c3_verdict(d), no_two, measured_view(m.m2), measured_view(m.m2), index, now, holds);
    lemma_constraints_keep(Tasks::C4, no_one, |a: DataView, b: DataView| crate::constraints::c4_verdict(a, b), measured_view(m.m2), measured_view(m.m3), index, now, holds);
    lemma_constraints_keep(Tasks::C5, no_one, no_two, measured_view(m.m3), measured_view(m.m3), index, now, holds);
    lemma_constraints_keep(Tasks::C6, |d: DataView| crate::constraints::c6_verdict(d), no_two, measured_view(m.m4), measured_view(m.m4), index, now, holds);
    lemma_constraints_keep(Tasks::C7, |d: DataView| crate::constraints::c7_verdict(d), no_two, measured_view(m.m4), measured_view(m.m4), index, now, holds);
    lemma_constraints_keep(Tasks::C8, |d: DataView| crate::constraints::c8_verdict(d), no_two, measured_view(m.m6), measured_view(m.m6), index, now, holds);
    lemma_constraints_keep(Tasks::C9, |d: DataView| crate::constraints::c9_verdict(d), no_two, measured_view(m.m7), measured_view(m.m7), index, now, holds);
    lemma_constraints_keep(Tasks::C10, |d: DataView| crate::constraints::c10_verdict(d), no_two, measured_view(m.m9), measured_view(m.m9), index, now, holds);
    lemma_constraints_keep(Tasks::C11, |d: DataView| crate::constraints::c11_verdict(d), no_two, measured_view(m.m8), measured_view(m.m8), index, now, holds);
    lemma_constraints_keep(Tasks::C12, |d: DataView| crate::constraints::c12_verdict(d), no_two, measured_view(m.m10), measured_view(m.m10), index, now, holds);
    lemma_constraints_keep(Tasks::C13, |d: DataView| crate::constraints::c13_verdict(d, now), no_two, measured_view(m.m11), measured_view(m.m11), index, now, holds);
    lemma_constraints_keep(Tasks::C14, |d: DataView| crate::constraints::c14_verdict(d), no_two, measured_view(m.m12), measured_view(m.m12), index, now, holds);
    lemma_constraints_keep(Tasks::C15, |d: DataView| crate::constraints::c15_verdict(d), no_two, measured_view(m.m14), measured_view(m.m14), index, now, holds);
}

/// The stores that the rules of a cycle hand on have the property.
proof fn lemma_rules_all_keep(
    r: Rules,
    c: Constraints,
    index: u64,
    now: Time,
    holds: spec_fn(LogsView) -> bool,
)
    requires
        kept_by_cycles(holds),
        c.all_hold(holds),
        r.made_from(c, index, now),
    ensures
        r.all_hold(holds),
{
    lemma_rules_keep(Tasks::R1, seq![], seq![evaluated_view(c.c1), evaluated_view(c.c2), evaluated_view(c.c3)], index, now, holds);
    lemma_rules_keep(Tasks::R2, seq![Tasks::C4, Tasks::C5, Tasks::C6, Tasks::C7], seq![evaluated_view(c.c4), evaluated_view(c.c5), evaluated_view(c.c6), evaluated_view(c.c7)], index, now, holds);
    lemma_rules_keep(Tasks::R3, seq![Tasks::C8], seq![evaluated_view(c.c8)], index, now, holds);
    lemma_rules_keep(Tasks::R4, seq![Tasks::C9, Tasks::C10], seq![evaluated_view(c.c9), evaluated_view(c.c10)], index, now, holds);
    lemma_rules_keep(Tasks::R5, seq![Tasks::C11, Tasks::C12], seq![evaluated_view(c.c11), evaluated_view(c.c12)], index, now, holds);
    lemma_rules_keep(Tasks::R6, seq![Tasks::C13], seq![evaluated_view(c.c13)], index, now, holds);
    lemma_rules_keep(Tasks::R7, seq![Tasks::C14], seq![evaluated_view(c.c14)], index, now, holds);
    lemma_rules_keep(Tasks::R8, seq![Tasks::C15], seq![evaluated_view(c.c15)], index, now, holds);
}

/// The stores that the properties of a cycle hand on have the property.
proof fn lemma_properties_all_keep(
    p: Properties,
    r: Rules,
    index: u64,
    now: Time,
    holds: spec_fn(LogsView) -> bool,
)
    requires
        kept_by_cycles(holds),
        r.all_hold(holds),
        p.made_from(r, index, now),
    ensures
        p.all_hold(holds),
{
    lemma_rules_keep(Tasks::P1, seq![Tasks::R1, Tasks::R2, Tasks::R3, Tasks::R4, Tasks::R5], seq![evaluated_view(r.r1), evaluated_view(r.r2), evaluated_view(r.r3), evaluated_view(r.r4), evaluated_view(r.r5)], index, now, holds);
    lemma_rules_keep(Tasks::P2, seq![Tasks::R6, Tasks::R7], seq![evaluated_view(r.r6), evaluated_view(r.r7)], index, now, holds);
    lemma_rules_keep(Tasks::P3, seq![Tasks::R6, Tasks::R7, Tasks::R8], seq![evaluated_view(r.r6), evaluated_view(r.r7), evaluated_view(r.r8)], index, now, holds);
}

/// A store with the property still has it when it has taken in an outcome
/// with the property.
proof fn lemma_absorbed_holds<T>(
    so_far: LogsView,
    outcome: Result<(T, LogsView), ErrorView>,
    holds: spec_fn(LogsView) -> bool,
)
    requires
        kept_by_cycles(holds),
        holds(so_far),
        outcome_holds(outcome, holds),
    ensures
        holds(absorbed(so_far, outcome)),
{
    if outcome is Ok {
        assert(holds(so_far.merge(outcome->Ok_0.1)));
    }
}

/// A store with the property still has it when it has taken in what the
/// metrics of the cycle made.
proof fn lemma_measurements_merged_hold(
    x: Measurements,
    so_far: LogsView,
    holds: spec_fn(LogsView) -> bool,
)
    requires
        kept_by_cycles(holds),
        holds(so_far),
        x.all_hold(holds),
    ensures
        holds(x.merged_into(so_far)),
{
    let s = so_far;
    lemma_absorbed_holds(s, measured_view(x.m1), holds);
    let s = absorbed(s, measured_view(x.m1));
    lemma_absorbed_holds(s, measured_view(x.m2), holds);
    let s = absorbed(s, measured_view(x.m2));
    lemma_absorbed_holds(s, measured_view(x.m3), holds);
    let s = absorbed(s, measured_view(x.m3));
    lemma_absorbed_holds(s, measured_view(x.m4), holds);
    let s = absorbed(s, measured_view(x.m4));
    lemma_absorbed_holds(s, measured_view(x.m5), holds);
    let s = absorbed(s, measured_view(x.m5));
    lemma_absorbed_holds(s, measured_view(x.m6), holds);
    let s = absorbed(s, measured_view(x.m6));
    lemma_absorbed_holds(s, measured_view(x.m7), holds);
    let s = absorbed(s, measured_view(x.m7));
    lemma_absorbed_holds(s, measured_view(x.m8), holds);
    let s = absorbed(s, measured_view(x.m8));
    lemma_absorbed_holds(s, measured_view(x.m9), holds);
    let s = absorbed(s, measured_view(x.m9));
    lemma_absorbed_holds(s, measured_view(x.m10), holds);
    let s = absorbed(s, measured_view(x.m10));
    lemma_absorbed_holds(s, measured_view(x.m11), holds);
    let s = absorbed(s, measured_view(x.m11));
    lemma_absorbed_holds(s, measured_view(x.m12), holds);
    let s = absorbed(s, measured_view(x.m12));
    lemma_absorbed_holds(s, measured_view(x.m13), holds);
    let s = absorbed(s, measured_view(x.m13));
    lemma_absorbed_holds(s, measured_view(x.m14), holds);
    let s = absorbed(s, measured_view(x.m14));
}

/// A store with the property still has it when it has taken in what the
/// constraints of the cycle made.
proof fn lemma_constraints_merged_hold(
    x: Constraints,
    so_far: LogsView,
    holds: spec_fn(LogsView) -> bool,
)
    requires
        kept_by_cycles(holds),
        holds(so_far),
        x.all_hold(holds),
    ensures
        holds(x.merged_into(so_far)),
{
    let s = so_far;
    lemma_absorbed_holds(s, evaluated_view(x.c1), holds);
    let s = absorbed(s, evaluated_view(x.c1));
    lemma_absorbed_holds(s, evaluated_view(x.c2), holds);
    let s = absorbed(s, evaluated_view(x.c2));
    lemma_absorbed_holds(s, evaluated_view(x.c3), holds);
    let s = absorbed(s, evaluated_view(x.c3));
    lemma_absorbed_holds(s, evaluated_view(x.c4), holds);
    let s = absorbed(s, evaluated_view(x.c4));
    lemma_absorbed_holds(s, evaluated_view(x.c5), holds);
    let s = absorbed(s, evaluated_view(x.c5));
    lemma_absorbed_holds(s, evaluated_view(x.c6), holds);
    let s = absorbed(s, evaluated_view(x.c6));
    lemma_absorbed_holds(s, evaluated_view(x.c7), holds);
    let s = absorbed(s, evaluated_view(x.c7));
    lemma_absorbed_holds(s, evaluated_view(x.c8), holds);
    let s = absorbed(s, evaluated_view(x.c8));
    lemma_absorbed_holds(s, evaluated_view(x.c9), holds);
    let s = absorbed(s, evaluated_view(x.c9));
    lemma_absorbed_holds(s, evaluated_view(x.c10), holds);
    let s = absorbed(s, evaluated_view(x.c10));
    lemma_absorbed_holds(s, evaluated_view(x.c11), holds);
    let s = absorbed(s, evaluated_view(x.c11));
    lemma_absorbed_holds(s, evaluated_view(x.c12), holds);
    let s = absorbed(s, evaluated_view(x.c12));
    lemma_absorbed_holds(s, evaluated_view(x.c13), holds);
    let s = absorbed(s, evaluated_view(x.c13));
    lemma_absorbed_holds(s, evaluated_view(x.c14), holds);
    let s = absorbed(s, evaluated_view(x.c14));
    lemma_absorbed_holds(s, evaluated_view(x.c15), holds);
    let s = absorbed(s, evaluated_view(x.c15));
}

/// A store with the property still has it when it has taken in what the
/// rules of the cycle made.
proof fn lemma_rules_merged_hold(
    x: Rules,
    so_far: LogsView,
    holds: spec_fn(LogsView) -> bool,
)
    requires
        kept_by_cycles(holds),
        holds(so_far),
        x.all_hold(holds),
    ensures
        holds(x.merged_into(so_far)),
{
    let s = so_far;
    lemma_absorbed_holds(s, evaluated_view(x.r1), holds);
    let s = absorbed(s, evaluated_view(x.r1));
    lemma_absorbed_holds(s, evaluated_view(x.r2), holds);
    let s = absorbed(s, evaluated_view(x.r2));
    lemma_absorbed_holds(s, evaluated_view(x.r3), holds);
    let s = absorbed(s, evaluated_view(x.r3));
    lemma_absorbed_holds(s, evaluated_view(x.r4), holds);
    let s = absorbed(s, evaluated_view(x.r4));
    lemma_absorbed_holds(s, evaluated_view(x.r5), holds);
    let s = absorbed(s, evaluated_view(x.r5));
    lemma_absorbed_holds(s, evaluated_view(x.r6), holds);
    let s = absorbed(s, evaluated_view(x.r6));
    lemma_absorbed_holds(s, evaluated_view(x.r7), holds);
    let s = absorbed(s, evaluated_view(x.r7));
    lemma_absorbed_holds(s, evaluated_view(x.r8), holds);
    let s = absorbed(s, evaluated_view(x.r8));
}

/// A store with the property still has it when it has taken in what the
/// properties of the cycle made.
proof fn lemma_properties_merged_hold(
    x: Properties,
    so_far: LogsView,
    holds: spec_fn(LogsView) -> bool,
)
    requires
        kept_by_cycles(holds),
        holds(so_far),
        x.all_hold(holds),
    ensures
        holds(x.merged_into(so_far)),
{
    let s = so_far;
    lemma_absorbed_holds(s, evaluated_view(x.p1), holds);
    let s = absorbed(s, evaluated_view(x.p1));
    lemma_absorbed_holds(s, evaluated_view(x.p2), holds);
    let s = absorbed(s, evaluated_view(x.p2));
    lemma_absorbed_holds(s, evaluated_view(x.p3), holds);
    let s = absorbed(s, evaluated_view(x.p3));
}

/// What recording and merging keep, a cycle keeps. A property of stores
/// that holds of the store before a cycle, and that is kept by recording a
/// measurement under its own metric, by recording a verdict and by merging,
/// holds of the store that every computation of the cycle hands on, and of
/// the store after the cycle.
pub proof fn lemma_cycle_keeps_what_holds(
    cycle: Cycle,
    store: LogsView,
    snapshots: Snapshots,
    index: u64,
    at: Instants,
    holds: spec_fn(LogsView) -> bool,
)
    requires
        kept_by_cycles(holds),
        holds(store),
        cycle.made_from(store, snapshots, index, at),
    ensures
        cycle.measurements.all_hold(holds),
        cycle.constraints.all_hold(holds),
        cycle.rules.all_hold(holds),
        cycle.properties.all_hold(holds),
        holds(cycle.merged_into(store)),
{
    let m = cycle.measurements;
    let c = cycle.constraints;
    let r = cycle.rules;
    let p = cycle.properties;
    lemma_measurements_keep(m, store, snapshots, index, at.metrics, holds);
    lemma_constraints_all_keep(c, m, index, at.constraints, holds);
    lemma_rules_all_keep(r, c, index, at.rules, holds);
    lemma_properties_all_keep(p, r, index, at.properties, holds);
    lemma_measurements_merged_hold(m, store, holds);
    lemma_constraints_merged_hold(c, m.merged_into(store), holds);
    lemma_rules_merged_hold(r, c.merged_into(m.merged_into(store)), holds);
    lemma_properties_merged_hold(p, r.merged_into(c.merged_into(m.merged_into(store))), holds);
}

impl LogsView {
    /// Whether every value that the store holds under a metric is a value of
    /// that metric.
    pub open spec fn tagged(self) -> bool {
        &&& forall|m: Metrics, i: int|
            0 <= i < self.measurements_index[m].len() ==> (
            #[trigger] self.measurements_index[m][i]).1.metric() == m
        &&& forall|m: Metrics, i: int|
            0 <= i < self.measurements_timestamp[m].len() ==> (
            #[trigger] self.measurements_timestamp[m][i]).1.metric() == m
    }
}

/// A merged series holds nothing but what the two series held.
proof fn lemma_merged_entries<K: Stamp, W>(r: Seq<(K, W)>, d: Seq<(K, W)>, i: int)
    requires
        0 <= i < merge_series(r, d).len(),
    ensures
        r.contains(merge_series(r, d)[i]) || d.contains(merge_series(r, d)[i]),
{
    lemma_merge_series_keeps(r, d);
    let from = choose|from: int|
        0 <= from <= d.len() && merge_series(r, d) == r + d.subrange(from, d.len() as int);
    if i < r.len() {
        assert(r[i] == merge_series(r, d)[i]);
    } else {
        assert(d[from + (i - r.len())] == merge_series(r, d)[i]);
    }
}

/// That every value stands under its own metric is kept by all that a cycle
/// does to a store.
pub proof fn lemma_tags_kept()
    ensures
        kept_by_cycles(|logs: LogsView| logs.tagged()),
{
    let holds = |logs: LogsView| logs.tagged();
    assert forall|logs: LogsView, m: MeasurementView, metric: Metrics|
        holds(logs) && m.data.metric() == metric implies #[trigger] holds(
        logs.with_measurement(m, metric),
    ) by {
        let added = logs.with_measurement(m, metric);
        assert forall|k: Metrics, i: int| 0 <= i < added.measurements_index[k].len() implies (
        #[trigger] added.measurements_index[k][i]).1.metric() == k by {
            if i < logs.measurements_index[k].len() {
                assert(added.measurements_index[k][i] == logs.measurements_index[k][i]);
            }
        }
        assert forall|k: Metrics, i: int| 0 <= i < added.measurements_timestamp[k].len() implies (
        #[trigger] added.measurements_timestamp[k][i]).1.metric() == k by {
            if i < logs.measurements_timestamp[k].len() {
                assert(added.measurements_timestamp[k][i] == logs.measurements_timestamp[k][i]);
            }
        }
    }
    assert forall|logs: LogsView, e: Evaluation, task: Tasks| holds(logs) implies #[trigger] holds(
        logs.with_evaluation(e, task),
    ) by {
        let added = logs.with_evaluation(e, task);
        assert(added.measurements_index == logs.measurements_index);
        assert(added.measurements_timestamp == logs.measurements_timestamp);
    }
    assert forall|a: LogsView, b: LogsView| holds(a) && holds(b) implies #[trigger] holds(
        a.merge(b),
    ) by {
        let merged = a.merge(b);
        assert forall|k: Metrics, i: int| 0 <= i < merged.measurements_index[k].len() implies (
        #[trigger] merged.measurements_index[k][i]).1.metric() == k by {
            let r = a.measurements_index[k];
            let d = b.measurements_index[k];
            lemma_merged_entries(r, d, i);
            let entry = merged.measurements_index[k][i];
            if r.contains(entry) {
                let j = choose|j: int| 0 <= j < r.len() && r[j] == entry;
                assert(a.measurements_index[k][j].1.metric() == k);
            } else {
                let j = choose|j: int| 0 <= j < d.len() && d[j] == entry;
                assert(b.measurements_index[k][j].1.metric() == k);
            }
        }
        assert forall|k: Metrics, i: int| 0 <= i < merged.measurements_timestamp[k].len() implies (
        #[trigger] merged.measurements_timestamp[k][i]).1.metric() == k by {
            let r = a.measurements_timestamp[k];
            let d = b.measurements_timestamp[k];
            lemma_merged_entries(r, d, i);
            let entry = merged.measurements_timestamp[k][i];
            if r.contains(entry) {
                let j = choose|j: int| 0 <= j < r.len() && r[j] == entry;
                assert(a.measurements_timestamp[k][j].1.metric() == k);
            } else {
                let j = choose|j: int| 0 <= j < d.len() && d[j] == entry;
                assert(b.measurements_timestamp[k][j].1.metric() == k);
            }
        }
    }
}

/// A cycle keeps the values with their metrics: where every value of the
/// store stands under its own metric before a cycle, it does so in every
/// store that the cycle hands on, and in the store after the cycle.
pub proof fn lemma_cycle_keeps_tags(
    cycle: Cycle,
    store: LogsView,
    snapshots: Snapshots,
    index: u64,
    at: Instants,
)
    requires
        store.tagged(),
        cycle.made_from(store, snapshots, index, at),
    ensures
        cycle.merged_into(store).tagged(),
{
    lemma_tags_kept();
    lemma_cycle_keeps_what_holds(
        cycle,
        store,
        snapshots,
        index,
        at,
        |logs: LogsView| logs.tagged(),
    );
}

/// In the empty store every value stands under its own metric.
pub proof fn lemma_empty_tagged()
    ensures
        LogsView::empty().tagged(),
{
}

} // verus!
