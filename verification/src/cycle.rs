//! One polling cycle: every metric, constraint, rule and property evaluated
//! once, in the order of their dependencies, and the outcome merged into the
//! store.
//!
//! The snapshots of a cycle are fetched once and handed to every computation
//! that reads them. Every measurement is made against the store as it stood
//! when the cycle began. A computation that fails fails those that depend on
//! it and no others: what the other branches made is merged all the same.

use vstd::prelude::*;
use crate::command::ndnsec::list::Certificate;
use crate::command::Snapshot;
use crate::constraints::{
    c1, c10, c10_verdict, c11, c11_verdict, c12, c12_verdict, c13, c13_verdict, c14, c14_verdict,
    c15, c15_verdict, c1_verdict, c2, c2_verdict, c3, c3_verdict, c4, c4_verdict, c5, c5_spec, c6,
    c6_verdict, c7, c7_verdict, c8, c8_verdict, c9, c9_verdict, constraint, constraint_of_two,
};
use crate::data::{DataView, Metrics, Tasks};
use crate::metrics::{
    m1, m10, m11, m11_spec, m12, m12_spec, m13, m13_spec, m14, m2, m3, m4, m5, m6, m7, m8, m9,
    status_metric,
};
use crate::properties::{cycle_verdict, p1, p2, p3, verdict};
use crate::rules::{instantaneous, r1, r2, r3, r4, r5, r6, r7, r8, windowed};
use crate::task::{
    evaluated_view, lemma_kept_in_chain, lemma_merge_keeps, measured_view, Error, Evaluation,
    Logging, Logs, LogsView, Measurement,
};
use crate::time::Time;

verus! {

/// How long a command may take to answer, in milliseconds.
pub const TIMEOUT_MILLIS: u64 = 1000;

/// How long the loop rests between two cycles, in milliseconds.
pub const REST_MILLIS: u64 = 1000;

/// What was fetched for a cycle, each source once. `details` holds, for each
/// certificate of the inventory and in its order, the outcome of fetching
/// the details of its identity's certificate.
#[derive(Debug, PartialEq)]
pub struct Snapshots {
    pub status: Result<Snapshot, Error>,
    pub certificates: Result<Snapshot, Error>,
    pub details: Vec<Result<Snapshot, Error>>,
    pub memory: Result<Snapshot, Error>,
}

/// The identities of the certificates listed, in the order of the list.
pub open spec fn identities_of(certificates: Seq<Certificate>) -> Seq<Seq<char>> {
    Seq::new(certificates.len(), |i: int| certificates[i].identity@)
}

/// The identities whose certificate details a cycle needs, given the outcome
/// of fetching the inventory: those of the certificates listed, in the order
/// of the list; none where there is no inventory.
pub open spec fn wanted_details(certificates: Result<Snapshot, Error>) -> Seq<Seq<char>> {
    match certificates {
        Ok(Snapshot::CertificateList(list)) => identities_of(list.certificates@),
        _ => Seq::empty(),
    }
}

/// Lists the identities whose certificate details are to be fetched.
pub fn identities(certificates: &Result<Snapshot, Error>) -> (names: Vec<String>)
    ensures
        names.deep_view() == wanted_details(*certificates),
{
    let mut names: Vec<String> = Vec::new();
    match certificates {
        Ok(Snapshot::CertificateList(list)) => {
            let mut i: usize = 0;
            while i < list.certificates.len()
                invariant
                    i <= list.certificates.len(),
                    names.len() == i,
                    forall|j: int| 0 <= j < i ==> names[j]@ == list.certificates[j].identity@,
                decreases list.certificates.len() - i,
            {
                names.push(list.certificates[i].identity.clone());
                i += 1;
            }
            assert(names.deep_view() =~= identities_of(list.certificates@));
        },
        _ => {
            assert(names.deep_view() =~= Seq::empty());
        },
    }
    names
}

/// The outcome of every metric in a cycle.
#[derive(Debug, PartialEq)]
pub struct Measurements {
    pub m1: Result<Logging<Measurement>, Error>,
    pub m2: Result<Logging<Measurement>, Error>,
    pub m3: Result<Logging<Measurement>, Error>,
    pub m4: Result<Logging<Measurement>, Error>,
    pub m5: Result<Logging<Measurement>, Error>,
    pub m6: Result<Logging<Measurement>, Error>,
    pub m7: Result<Logging<Measurement>, Error>,
    pub m8: Result<Logging<Measurement>, Error>,
    pub m9: Result<Logging<Measurement>, Error>,
    pub m10: Result<Logging<Measurement>, Error>,
    pub m11: Result<Logging<Measurement>, Error>,
    pub m12: Result<Logging<Measurement>, Error>,
    pub m13: Result<Logging<Measurement>, Error>,
    pub m14: Result<Logging<Measurement>, Error>,
}

/// The outcome of every constraint in a cycle.
#[derive(Debug, PartialEq)]
pub struct Constraints {
    pub c1: Result<Logging<Evaluation>, Error>,
    pub c2: Result<Logging<Evaluation>, Error>,
    pub c3: Result<Logging<Evaluation>, Error>,
    pub c4: Result<Logging<Evaluation>, Error>,
    pub c5: Result<Logging<Evaluation>, Error>,
    pub c6: Result<Logging<Evaluation>, Error>,
    pub c7: Result<Logging<Evaluation>, Error>,
    pub c8: Result<Logging<Evaluation>, Error>,
    pub c9: Result<Logging<Evaluation>, Error>,
    pub c10: Result<Logging<Evaluation>, Error>,
    pub c11: Result<Logging<Evaluation>, Error>,
    pub c12: Result<Logging<Evaluation>, Error>,
    pub c13: Result<Logging<Evaluation>, Error>,
    pub c14: Result<Logging<Evaluation>, Error>,
    pub c15: Result<Logging<Evaluation>, Error>,
}

/// The outcome of every rule in a cycle.
#[derive(Debug, PartialEq)]
pub struct Rules {
    pub r1: Result<Logging<Evaluation>, Error>,
    pub r2: Result<Logging<Evaluation>, Error>,
    pub r3: Result<Logging<Evaluation>, Error>,
    pub r4: Result<Logging<Evaluation>, Error>,
    pub r5: Result<Logging<Evaluation>, Error>,
    pub r6: Result<Logging<Evaluation>, Error>,
    pub r7: Result<Logging<Evaluation>, Error>,
    pub r8: Result<Logging<Evaluation>, Error>,
}

/// The outcome of every property in a cycle.
#[derive(Debug, PartialEq)]
pub struct Properties {
    pub p1: Result<Logging<Evaluation>, Error>,
    pub p2: Result<Logging<Evaluation>, Error>,
    pub p3: Result<Logging<Evaluation>, Error>,
}

/// Everything a cycle made.
#[derive(Debug, PartialEq)]
pub struct Cycle {
    pub measurements: Measurements,
    pub constraints: Constraints,
    pub rules: Rules,
    pub properties: Properties,
}

/// The store after it has taken in what came with an outcome; a failure
/// brings nothing.
pub open spec fn absorbed<T>(store: LogsView, outcome: Result<(T, LogsView), crate::task::ErrorView>)
    -> LogsView {
    match outcome {
        Ok((_, logs)) => store.merge(logs),
        Err(_) => store,
    }
}

impl Measurements {
    /// Whether these are the outcomes of the metrics of cycle `index`, made
    /// at `now` from `snapshots` against `store`.
    pub open spec fn made_from(self, store: LogsView, snapshots: Snapshots, index: u64, now: Time)
        -> bool {
        &&& measured_view(self.m1) == status_metric(Metrics::M1, snapshots.status, index, store, now)
        &&& measured_view(self.m2) == status_metric(Metrics::M2, snapshots.status, index, store, now)
        &&& measured_view(self.m3) == status_metric(Metrics::M3, snapshots.status, index, store, now)
        &&& measured_view(self.m4) == status_metric(Metrics::M4, snapshots.status, index, store, now)
        &&& measured_view(self.m5) == status_metric(Metrics::M5, snapshots.status, index, store, now)
        &&& measured_view(self.m6) == status_metric(Metrics::M6, snapshots.status, index, store, now)
        &&& measured_view(self.m7) == status_metric(Metrics::M7, snapshots.status, index, store, now)
        &&& measured_view(self.m8) == status_metric(Metrics::M8, snapshots.status, index, store, now)
        &&& measured_view(self.m9) == status_metric(Metrics::M9, snapshots.status, index, store, now)
        &&& measured_view(self.m10) == status_metric(
            Metrics::M10,
            snapshots.status,
            index,
            store,
            now,
        )
        &&& measured_view(self.m11) == m11_spec(
            snapshots.certificates,
            snapshots.details@,
            index,
            store,
            now,
        )
        &&& measured_view(self.m12) == m12_spec(snapshots.certificates, index, store, now)
        &&& measured_view(self.m13) == m13_spec(snapshots.memory, index, store, now)
        &&& measured_view(self.m14) == status_metric(
            Metrics::M14,
            snapshots.status,
            index,
            store,
            now,
        )
    }

    /// The store after it has taken in every measurement that succeeded.
    pub open spec fn merged_into(self, store: LogsView) -> LogsView {
        let s = absorbed(store, measured_view(self.m1));
        let s = absorbed(s, measured_view(self.m2));
        let s = absorbed(s, measured_view(self.m3));
        let s = absorbed(s, measured_view(self.m4));
        let s = absorbed(s, measured_view(self.m5));
        let s = absorbed(s, measured_view(self.m6));
        let s = absorbed(s, measured_view(self.m7));
        let s = absorbed(s, measured_view(self.m8));
        let s = absorbed(s, measured_view(self.m9));
        let s = absorbed(s, measured_view(self.m10));
        let s = absorbed(s, measured_view(self.m11));
        let s = absorbed(s, measured_view(self.m12));
        let s = absorbed(s, measured_view(self.m13));
        absorbed(s, measured_view(self.m14))
    }
}

impl Constraints {
    /// Whether these are the outcomes of the constraints of cycle `index`,
    /// judged at `now` on `measurements`.
    pub open spec fn made_from(self, measurements: Measurements, index: u64, now: Time) -> bool {
        let m = measurements;
        &&& evaluated_view(self.c1) == constraint(
            Tasks::C1,
            |d: DataView| c1_verdict(d),
            measured_view(m.m1),
            index,
            now,
        )
        &&& evaluated_view(self.c2) == constraint_of_two(
            Tasks::C2,
            |a: DataView, b: DataView| c2_verdict(a, b),
            measured_view(m.m2),
            measured_view(m.m13),
            index,
            now,
        )
        &&& evaluated_view(self.c3) == constraint(
            Tasks::C3,
            |d: DataView| c3_verdict(d),
            measured_view(m.m2),
            index,
            now,
        )
        &&& evaluated_view(self.c4) == constraint_of_two(
            Tasks::C4,
            |a: DataView, b: DataView| c4_verdict(a, b),
            measured_view(m.m2),
            measured_view(m.m3),
            index,
            now,
        )
        &&& evaluated_view(self.c5) == c5_spec(measured_view(m.m3), index, now)
        &&& evaluated_view(self.c6) == constraint(
            Tasks::C6,
            |d: DataView| c6_verdict(d),
            measured_view(m.m4),
            index,
            now,
        )
        &&& evaluated_view(self.c7) == constraint(
            Tasks::C7,
            |d: DataView| c7_verdict(d),
            measured_view(m.m4),
            index,
            now,
        )
        &&& evaluated_view(self.c8) == constraint(
            Tasks::C8,
            |d: DataView| c8_verdict(d),
            measured_view(m.m6),
            index,
            now,
        )
        &&& evaluated_view(self.c9) == constraint(
            Tasks::C9,
            |d: DataView| c9_verdict(d),
            measured_view(m.m7),
            index,
            now,
        )
        &&& evaluated_view(self.c10) == constraint(
            Tasks::C10,
            |d: DataView| c10_verdict(d),
            measured_view(m.m9),
            index,
            now,
        )
        &&& evaluated_view(self.c11) == constraint(
            Tasks::C11,
            |d: DataView| c11_verdict(d),
            measured_view(m.m8),
            index,
            now,
        )
        &&& evaluated_view(self.c12) == constraint(
            Tasks::C12,
            |d: DataView| c12_verdict(d),
            measured_view(m.m10),
            index,
            now,
        )
        &&& evaluated_view(self.c13) == constraint(
            Tasks::C13,
            |d: DataView| c13_verdict(d, now),
            measured_view(m.m11),
            index,
            now,
        )
        &&& evaluated_view(self.c14) == constraint(
            Tasks::C14,
            |d: DataView| c14_verdict(d),
            measured_view(m.m12),
            index,
            now,
        )
        &&& evaluated_view(self.c15) == constraint(
            Tasks::C15,
            |d: DataView| c15_verdict(d),
            measured_view(m.m14),
            index,
            now,
        )
    }

    /// The store after it has taken in every verdict that was reached.
    pub open spec fn merged_into(self, store: LogsView) -> LogsView {
        let s = absorbed(store, evaluated_view(self.c1));
        let s = absorbed(s, evaluated_view(self.c2));
        let s = absorbed(s, evaluated_view(self.c3));
        let s = absorbed(s, evaluated_view(self.c4));
        let s = absorbed(s, evaluated_view(self.c5));
        let s = absorbed(s, evaluated_view(self.c6));
        let s = absorbed(s, evaluated_view(self.c7));
        let s = absorbed(s, evaluated_view(self.c8));
        let s = absorbed(s, evaluated_view(self.c9));
        let s = absorbed(s, evaluated_view(self.c10));
        let s = absorbed(s, evaluated_view(self.c11));
        let s = absorbed(s, evaluated_view(self.c12));
        let s = absorbed(s, evaluated_view(self.c13));
        let s = absorbed(s, evaluated_view(self.c14));
        absorbed(s, evaluated_view(self.c15))
    }
}

impl Rules {
    /// Whether these are the outcomes of the rules of cycle `index`, judged
    /// at `now` on `constraints`.
    pub open spec fn made_from(self, constraints: Constraints, index: u64, now: Time) -> bool {
        let c = constraints;
        &&& evaluated_view(self.r1) == instantaneous(
            Tasks::R1,
            seq![evaluated_view(c.c1), evaluated_view(c.c2), evaluated_view(c.c3)],
            index,
            now,
        )
        &&& evaluated_view(self.r2) == windowed(
            Tasks::R2,
            seq![Tasks::C4, Tasks::C5, Tasks::C6, Tasks::C7],
            seq![
                evaluated_view(c.c4),
                evaluated_view(c.c5),
                evaluated_view(c.c6),
                evaluated_view(c.c7),
            ],
            index,
            now,
        )
        &&& evaluated_view(self.r3) == windowed(
            Tasks::R3,
            seq![Tasks::C8],
            seq![evaluated_view(c.c8)],
            index,
            now,
        )
        &&& evaluated_view(self.r4) == windowed(
            Tasks::R4,
            seq![Tasks::C9, Tasks::C10],
            seq![evaluated_view(c.c9), evaluated_view(c.c10)],
            index,
            now,
        )
        &&& evaluated_view(self.r5) == windowed(
            Tasks::R5,
            seq![Tasks::C11, Tasks::C12],
            seq![evaluated_view(c.c11), evaluated_view(c.c12)],
            index,
            now,
        )
        &&& evaluated_view(self.r6) == windowed(
            Tasks::R6,
            seq![Tasks::C13],
            seq![evaluated_view(c.c13)],
            index,
            now,
        )
        &&& evaluated_view(self.r7) == windowed(
            Tasks::R7,
            seq![Tasks::C14],
            seq![evaluated_view(c.c14)],
            index,
            now,
        )
        &&& evaluated_view(self.r8) == windowed(
            Tasks::R8,
            seq![Tasks::C15],
            seq![evaluated_view(c.c15)],
            index,
            now,
        )
    }

    /// The store after it has taken in every verdict that was reached.
    pub open spec fn merged_into(self, store: LogsView) -> LogsView {
        let s = absorbed(store, evaluated_view(self.r1));
        let s = absorbed(s, evaluated_view(self.r2));
        let s = absorbed(s, evaluated_view(self.r3));
        let s = absorbed(s, evaluated_view(self.r4));
        let s = absorbed(s, evaluated_view(self.r5));
        let s = absorbed(s, evaluated_view(self.r6));
        let s = absorbed(s, evaluated_view(self.r7));
        absorbed(s, evaluated_view(self.r8))
    }
}

impl Properties {
    /// Whether these are the outcomes of the properties of cycle `index`,
    /// judged at `now` on `rules`.
    pub open spec fn made_from(self, rules: Rules, index: u64, now: Time) -> bool {
        let r = rules;
        &&& evaluated_view(self.p1) == windowed(
            Tasks::P1,
            seq![Tasks::R1, Tasks::R2, Tasks::R3, Tasks::R4, Tasks::R5],
            seq![
                evaluated_view(r.r1),
                evaluated_view(r.r2),
                evaluated_view(r.r3),
                evaluated_view(r.r4),
                evaluated_view(r.r5),
            ],
            index,
            now,
        )
        &&& evaluated_view(self.p2) == windowed(
            Tasks::P2,
            seq![Tasks::R6, Tasks::R7],
            seq![evaluated_view(r.r6), evaluated_view(r.r7)],
            index,
            now,
        )
        &&& evaluated_view(self.p3) == windowed(
            Tasks::P3,
            seq![Tasks::R6, Tasks::R7, Tasks::R8],
            seq![evaluated_view(r.r6), evaluated_view(r.r7), evaluated_view(r.r8)],
            index,
            now,
        )
    }

    /// The store after it has taken in every verdict that was reached.
    pub open spec fn merged_into(self, store: LogsView) -> LogsView {
        let s = absorbed(store, evaluated_view(self.p1));
        let s = absorbed(s, evaluated_view(self.p2));
        absorbed(s, evaluated_view(self.p3))
    }

    /// Whether every property holds; nothing where one could not be
    /// evaluated.
    pub open spec fn verdict(self) -> Option<bool> {
        cycle_verdict(evaluated_view(self.p1), evaluated_view(self.p2), evaluated_view(self.p3))
    }
}

/// The instants at which the four stages of a cycle are evaluated.
#[derive(Debug, Clone, Copy, PartialEq, Eq, Structural)]
pub struct Instants {
    pub metrics: Time,
    pub constraints: Time,
    pub rules: Time,
    pub properties: Time,
}

impl Cycle {
    /// Whether this is what cycle `index` makes of `snapshots` against
    /// `store`, its stages evaluated at the instants `at`.
    pub open spec fn made_from(self, store: LogsView, snapshots: Snapshots, index: u64, at: Instants)
        -> bool {
        &&& self.measurements.made_from(store, snapshots, index, at.metrics)
        &&& self.constraints.made_from(self.measurements, index, at.constraints)
        &&& self.rules.made_from(self.constraints, index, at.rules)
        &&& self.properties.made_from(self.rules, index, at.properties)
    }

    /// The store after it has taken in everything the cycle made: the
    /// measurements first, then the verdicts of the constraints, of the
    /// rules and of the properties.
    pub open spec fn merged_into(self, store: LogsView) -> LogsView {
        self.properties.merged_into(
            self.rules.merged_into(
                self.constraints.merged_into(self.measurements.merged_into(store)),
            ),
        )
    }
}

/// Measures every metric against `store`.
pub fn measure(store: &Logs, snapshots: &Snapshots, index: u64, now: Time) -> (r: Measurements)
    ensures
        r.made_from(store@, *snapshots, index, now),
{
    Measurements {
        m1: m1(&snapshots.status, index, store, now),
        m2: m2(&snapshots.status, index, store, now),
        m3: m3(&snapshots.status, index, store, now),
        m4: m4(&snapshots.status, index, store, now),
        m5: m5(&snapshots.status, index, store, now),
        m6: m6(&snapshots.status, index, store, now),
        m7: m7(&snapshots.status, index, store, now),
        m8: m8(&snapshots.status, index, store, now),
        m9: m9(&snapshots.status, index, store, now),
        m10: m10(&snapshots.status, index, store, now),
        m11: m11(&snapshots.certificates, &snapshots.details, index, store, now),
        m12: m12(&snapshots.certificates, index, store, now),
        m13: m13(&snapshots.memory, index, store, now),
        m14: m14(&snapshots.status, index, store, now),
    }
}

/// Judges every constraint on the measurements of the cycle.
pub fn constrain(m: &Measurements, index: u64, now: Time) -> (r: Constraints)
    ensures
        r.made_from(*m, index, now),
{
    Constraints {
        c1: c1(&m.m1, index, now),
        c2: c2(&m.m2, &m.m13, index, now),
        c3: c3(&m.m2, index, now),
        c4: c4(&m.m2, &m.m3, index, now),
        c5: c5(&m.m3, index, now),
        c6: c6(&m.m4, index, now),
        c7: c7(&m.m4, index, now),
        c8: c8(&m.m6, index, now),
        c9: c9(&m.m7, index, now),
        c10: c10(&m.m9, index, now),
        c11: c11(&m.m8, index, now),
        c12: c12(&m.m10, index, now),
        c13: c13(&m.m11, index, now),
        c14: c14(&m.m12, index, now),
        c15: c15(&m.m14, index, now),
    }
}

/// Judges every rule on the constraints of the cycle.
pub fn rule(c: &Constraints, index: u64, now: Time) -> (r: Rules)
    ensures
        r.made_from(*c, index, now),
{
    Rules {
        r1: r1(&c.c1, &c.c2, &c.c3, index, now),
        r2: r2(&c.c4, &c.c5, &c.c6, &c.c7, index, now),
        r3: r3(&c.c8, index, now),
        r4: r4(&c.c9, &c.c10, index, now),
        r5: r5(&c.c11, &c.c12, index, now),
        r6: r6(&c.c13, index, now),
        r7: r7(&c.c14, index, now),
        r8: r8(&c.c15, index, now),
    }
}

/// Judges every property on the rules of the cycle.
pub fn certify(r: &Rules, index: u64, now: Time) -> (p: Properties)
    ensures
        p.made_from(*r, index, now),
{
    Properties {
        p1: p1(&r.r1, &r.r2, &r.r3, &r.r4, &r.r5, index, now),
        p2: p2(&r.r6, &r.r7, index, now),
        p3: p3(&r.r6, &r.r7, &r.r8, index, now),
    }
}

/// Evaluates cycle `index`, each stage at the instant given for it.
pub fn evaluate_at(store: &Logs, snapshots: &Snapshots, index: u64, at: Instants) -> (cycle: Cycle)
    ensures
        cycle.made_from(store@, *snapshots, index, at),
{
    let measurements = measure(store, snapshots, index, at.metrics);
    let constraints = constrain(&measurements, index, at.constraints);
    let rules = rule(&constraints, index, at.rules);
    let properties = certify(&rules, index, at.properties);
    Cycle { measurements, constraints, rules, properties }
}

/// Evaluates cycle `index`, reading the clock before each stage.
pub fn evaluate(store: &Logs, snapshots: &Snapshots, index: u64) -> (cycle: Cycle)
    ensures
        exists|at: Instants| cycle.made_from(store@, *snapshots, index, at),
{
    let metrics = Time::now();
    let measurements = measure(store, snapshots, index, metrics);
    let constraints_at = Time::now();
    let constraints = constrain(&measurements, index, constraints_at);
    let rules_at = Time::now();
    let rules = rule(&constraints, index, rules_at);
    let properties_at = Time::now();
    let properties = certify(&rules, index, properties_at);
    let cycle = Cycle { measurements, constraints, rules, properties };
    proof {
        let at = Instants {
            metrics,
            constraints: constraints_at,
            rules: rules_at,
            properties: properties_at,
        };
        assert(cycle.made_from(store@, *snapshots, index, at));
    }
    cycle
}

/// Takes in what came with a measurement, if it was made.
fn absorb_measurement(store: &mut Logs, outcome: &Result<Logging<Measurement>, Error>)
    ensures
        final(store)@ == absorbed(old(store)@, measured_view(*outcome)),
{
    match outcome {
        Ok(Logging(_, logs)) => {
            store.mut_merge(logs);
        },
        Err(_) => {},
    }
}

/// Takes in what came with a verdict, if it was reached.
fn absorb_evaluation(store: &mut Logs, outcome: &Result<Logging<Evaluation>, Error>)
    ensures
        final(store)@ == absorbed(old(store)@, evaluated_view(*outcome)),
{
    match outcome {
        Ok(Logging(_, logs)) => {
            store.mut_merge(logs);
        },
        Err(_) => {},
    }
}

/// Merges everything the cycle made into the store.
pub fn commit(store: &mut Logs, cycle: &Cycle)
    ensures
        final(store)@ == cycle.merged_into(old(store)@),
{
    let m = &cycle.measurements;
    absorb_measurement(store, &m.m1);
    absorb_measurement(store, &m.m2);
    absorb_measurement(store, &m.m3);
    absorb_measurement(store, &m.m4);
    absorb_measurement(store, &m.m5);
    absorb_measurement(store, &m.m6);
    absorb_measurement(store, &m.m7);
    absorb_measurement(store, &m.m8);
    absorb_measurement(store, &m.m9);
    absorb_measurement(store, &m.m10);
    absorb_measurement(store, &m.m11);
    absorb_measurement(store, &m.m12);
    absorb_measurement(store, &m.m13);
    absorb_measurement(store, &m.m14);
    let c = &cycle.constraints;
    absorb_evaluation(store, &c.c1);
    absorb_evaluation(store, &c.c2);
    absorb_evaluation(store, &c.c3);
    absorb_evaluation(store, &c.c4);
    absorb_evaluation(store, &c.c5);
    absorb_evaluation(store, &c.c6);
    absorb_evaluation(store, &c.c7);
    absorb_evaluation(store, &c.c8);
    absorb_evaluation(store, &c.c9);
    absorb_evaluation(store, &c.c10);
    absorb_evaluation(store, &c.c11);
    absorb_evaluation(store, &c.c12);
    absorb_evaluation(store, &c.c13);
    absorb_evaluation(store, &c.c14);
    absorb_evaluation(store, &c.c15);
    let r = &cycle.rules;
    absorb_evaluation(store, &r.r1);
    absorb_evaluation(store, &r.r2);
    absorb_evaluation(store, &r.r3);
    absorb_evaluation(store, &r.r4);
    absorb_evaluation(store, &r.r5);
    absorb_evaluation(store, &r.r6);
    absorb_evaluation(store, &r.r7);
    absorb_evaluation(store, &r.r8);
    let p = &cycle.properties;
    absorb_evaluation(store, &p.p1);
    absorb_evaluation(store, &p.p2);
    absorb_evaluation(store, &p.p3);
}

/// A failure brings nothing, and a success only adds: what the store held is
/// still there after it has taken in an outcome.
proof fn lemma_absorbed_keeps<T>(
    store: LogsView,
    outcome: Result<(T, LogsView), crate::task::ErrorView>,
)
    ensures
        store.kept_in(absorbed(store, outcome)),
{
    match outcome {
        Ok((_, logs)) => {
            lemma_merge_keeps(store, logs);
        },
        Err(_) => {},
    }
}

/// The store only grows from cycle to cycle: whatever a cycle made, and
/// whichever of its branches failed, the store holds after the cycle
/// everything it held before, in the same places.
pub proof fn lemma_cycle_keeps(cycle: Cycle, store: LogsView)
    ensures
        store.kept_in(cycle.merged_into(store)),
{
    let m = cycle.measurements;
    let outcomes = seq![
        measured_view(m.m1),
        measured_view(m.m2),
        measured_view(m.m3),
        measured_view(m.m4),
        measured_view(m.m5),
        measured_view(m.m6),
        measured_view(m.m7),
        measured_view(m.m8),
        measured_view(m.m9),
        measured_view(m.m10),
        measured_view(m.m11),
        measured_view(m.m12),
        measured_view(m.m13),
        measured_view(m.m14),
    ];
    let c = cycle.constraints;
    let r = cycle.rules;
    let p = cycle.properties;
    let verdicts = seq![
        evaluated_view(c.c1),
        evaluated_view(c.c2),
        evaluated_view(c.c3),
        evaluated_view(c.c4),
        evaluated_view(c.c5),
        evaluated_view(c.c6),
        evaluated_view(c.c7),
        evaluated_view(c.c8),
        evaluated_view(c.c9),
        evaluated_view(c.c10),
        evaluated_view(c.c11),
        evaluated_view(c.c12),
        evaluated_view(c.c13),
        evaluated_view(c.c14),
        evaluated_view(c.c15),
        evaluated_view(r.r1),
        evaluated_view(r.r2),
        evaluated_view(r.r3),
        evaluated_view(r.r4),
        evaluated_view(r.r5),
        evaluated_view(r.r6),
        evaluated_view(r.r7),
        evaluated_view(r.r8),
        evaluated_view(p.p1),
        evaluated_view(p.p2),
        evaluated_view(p.p3),
    ];
    lemma_absorbed_all_keeps(store, outcomes, 14);
    let measured = absorbed_all(store, outcomes, 14);
    assert(measured == m.merged_into(store)) by {
        reveal_with_fuel(absorbed_all, 15);
    }
    lemma_absorbed_all_keeps(measured, verdicts, 26);
    assert(absorbed_all(measured, verdicts, 26) == cycle.merged_into(store)) by {
        reveal_with_fuel(absorbed_all, 27);
    }
    lemma_kept_in_chain(store, measured, cycle.merged_into(store));
}

/// The store after it has taken in the first `n` of the outcomes, in their
/// order.
pub open spec fn absorbed_all<T>(
    store: LogsView,
    outcomes: Seq<Result<(T, LogsView), crate::task::ErrorView>>,
    n: int,
) -> LogsView
    decreases n,
{
    if n <= 0 {
        store
    } else {
        absorbed(absorbed_all(store, outcomes, n - 1), outcomes[n - 1])
    }
}

/// Taking in outcomes one after the other keeps what the store held.
proof fn lemma_absorbed_all_keeps<T>(
    store: LogsView,
    outcomes: Seq<Result<(T, LogsView), crate::task::ErrorView>>,
    n: int,
)
    ensures
        store.kept_in(absorbed_all(store, outcomes, n)),
    decreases n,
{
    if n > 0 {
        let before = absorbed_all(store, outcomes, n - 1);
        lemma_absorbed_all_keeps(store, outcomes, n - 1);
        lemma_absorbed_keeps(before, outcomes[n - 1]);
        lemma_kept_in_chain(store, before, absorbed_all(store, outcomes, n));
    }
}

/// The nanoseconds from `started` to `finished`, kept within what the
/// record of a duration can hold.
pub open spec fn elapsed(started: Time, finished: Time) -> i64 {
    let nanos = finished.nanos - started.nanos;
    if nanos > i64::MAX {
        i64::MAX
    } else if nanos < i64::MIN {
        i64::MIN
    } else {
        nanos as i64
    }
}

/// Tells how long it took from `started` to `finished`, in nanoseconds.
pub fn duration_between(started: Time, finished: Time) -> (nanos: i64)
    ensures
        nanos == elapsed(started, finished),
{
    if finished.nanos >= started.nanos {
        if started.nanos >= 0 || finished.nanos <= i128::MAX + started.nanos {
            let nanos: i128 = finished.nanos - started.nanos;
            if nanos > i64::MAX as i128 {
                i64::MAX
            } else {
                nanos as i64
            }
        } else {
            i64::MAX
        }
    } else {
        if started.nanos <= 0 || finished.nanos >= i128::MIN + started.nanos {
            let nanos: i128 = finished.nanos - started.nanos;
            if nanos < i64::MIN as i128 {
                i64::MIN
            } else {
                nanos as i64
            }
        } else {
            i64::MIN
        }
    }
}

/// Merges everything the cycle made into the store and records how long the
/// cycle took, from `started` to `finished`. Gives the verdict of the cycle.
pub fn conclude_at(store: &mut Logs, cycle: &Cycle, index: u64, started: Time, finished: Time)
    -> (r: Option<bool>)
    ensures
        final(store)@ == cycle.merged_into(old(store)@).with_duration(
            elapsed(started, finished),
            index,
        ),
        r == cycle.properties.verdict(),
{
    commit(store, cycle);
    store.insert_duration(duration_between(started, finished), index);
    verdict(&cycle.properties.p1, &cycle.properties.p2, &cycle.properties.p3)
}

/// Merges everything the cycle made into the store and records how long the
/// cycle took, from `started` to the present instant. Gives the verdict of
/// the cycle.
pub fn conclude(store: &mut Logs, cycle: &Cycle, index: u64, started: Time) -> (r: Option<bool>)
    ensures
        exists|finished: Time|
            final(store)@ == cycle.merged_into(old(store)@).with_duration(
                elapsed(started, finished),
                index,
            ),
        r == cycle.properties.verdict(),
{
    let finished = Time::now();
    conclude_at(store, cycle, index, started, finished)
}

} // verus!
