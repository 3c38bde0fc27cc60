//! The metric stage: from a snapshot to the measurement of one metric.
//!
//! Every metric has one computation. It is handed the outcome of fetching the
//! snapshot it reads, the index of the cycle, the store as it stood when the
//! cycle began, and the instant to stamp the measurement with. A fetch that
//! failed fails the computation with the same error; a snapshot of another
//! kind than the metric reads is a wiring fault, reported as such.

use vstd::prelude::*;
use crate::command::ndnsec::list::Certificate;
use crate::command::nfdc::{Face, NfdcStatus, PacketStatistics, StrategyChoice};
use crate::command::Snapshot;
use crate::data::{
    keep_last, keep_last_by_face, keep_last_by_name, named_view, Data, DataView, Metrics,
    SignatureCounts, Validity,
};
use crate::task::{
    measured_view, wrong_dependency, Error, Logging, Logs, LogsView, Measured, Measurement,
    MeasurementView,
};
use crate::time::Time;

verus! {

/// The measurement of `data` and the store that holds it under `metric`.
pub open spec fn measured(data: DataView, metric: Metrics, index: u64, logs: LogsView, now: Time)
    -> (MeasurementView, LogsView) {
    let measurement = MeasurementView { data, index, timestamp: now };
    (measurement, logs.with_measurement(measurement, metric))
}

/// Makes the measurement of `data` and a store that holds it under `metric`.
pub fn record(data: Data, metric: Metrics, index: u64, logs: &Logs, now: Time) -> (r: Logging<
    Measurement,
>)
    ensures
        (r.0@, r.1@) == measured(data@, metric, index, logs@, now),
{
    let measurement = Measurement::at(data, index, now);
    let logs = logs.with_measurement(measurement.clone(), metric);
    Logging(measurement, logs)
}

/// Which statistics of a face a metric reads.
#[derive(Debug, Clone, Copy, PartialEq, Eq, Structural)]
pub enum FaceStatistics {
    /// Sizes of the interests that came in.
    InterestSize,
    /// Sizes of the data packets that went out.
    DataSize,
    /// Component counts of the interests that came in.
    InterestComponents,
    /// Component counts of the data packets that went out.
    DataComponents,
}

impl FaceStatistics {
    /// The statistics of `face` that are meant.
    pub open spec fn of(self, face: Face) -> PacketStatistics {
        match self {
            FaceStatistics::InterestSize => face.interest_packet_size,
            FaceStatistics::DataSize => face.data_packet_size,
            FaceStatistics::InterestComponents => face.interest_packet_components,
            FaceStatistics::DataComponents => face.data_packet_components,
        }
    }

    /// Picks the statistics of `face` that are meant.
    pub fn pick(&self, face: &Face) -> (s: PacketStatistics)
        ensures
            s == self.of(*face),
    {
        match self {
            FaceStatistics::InterestSize => face.interest_packet_size,
            FaceStatistics::DataSize => face.data_packet_size,
            FaceStatistics::InterestComponents => face.interest_packet_components,
            FaceStatistics::DataComponents => face.data_packet_components,
        }
    }
}

/// The interests pending on a face, estimated: those that came in, less the
/// data packets and the negative acknowledgements that went out. The
/// estimate may be negative.
pub open spec fn pending_interests(face: Face) -> int {
    face.packet_counters.incoming_packets.n_interests
        - face.packet_counters.outgoing_packets.n_data
        - face.packet_counters.outgoing_packets.n_nacks
}

/// For each face reported, its identifier and its estimate of pending
/// interests.
pub open spec fn pending_by_face(faces: Seq<Face>) -> Seq<(u64, i128)> {
    Seq::new(faces.len(), |i: int| (faces[i].face_id, pending_interests(faces[i]) as i128))
}

/// For each face reported, its identifier and the statistics chosen.
pub open spec fn statistics_by_face(faces: Seq<Face>, which: FaceStatistics) -> Seq<
    (u64, PacketStatistics),
> {
    Seq::new(faces.len(), |i: int| (faces[i].face_id, which.of(faces[i])))
}

/// For each strategy choice reported, the namespace and the strategy's name.
pub open spec fn strategy_by_namespace(choices: Seq<StrategyChoice>) -> Seq<
    (Seq<char>, Seq<char>),
> {
    Seq::new(choices.len(), |i: int| (choices[i].namespace@, choices[i].strategy.name@))
}

/// The certificate name of the first certificate marked default.
pub open spec fn default_certificate(certificates: Seq<Certificate>) -> Option<Seq<char>>
    decreases certificates.len(),
{
    if certificates.len() == 0 {
        None
    } else if certificates[0].is_default {
        Some(certificates[0].certificate@)
    } else {
        default_certificate(certificates.drop_first())
    }
}

/// What a metric of the status report is, for a given report; nothing for a
/// metric that is read off another snapshot.
pub open spec fn status_data(metric: Metrics, status: NfdcStatus) -> Option<DataView> {
    match metric {
        Metrics::M1 => Some(DataView::M1(status.cs.policy_name@)),
        Metrics::M2 => Some(DataView::M2(status.cs.capacity)),
        Metrics::M3 => Some(DataView::M3(status.cs.n_entries)),
        Metrics::M4 => Some(
            DataView::M4(
                PacketStatistics {
                    min: status.cs.min_size,
                    max: status.cs.max_size,
                    avg: status.cs.average_size,
                    std_dev: status.cs.std_dev_size,
                },
            ),
        ),
        Metrics::M5 => Some(
            DataView::M5(keep_last(strategy_by_namespace(status.strategy_choices.strategy_choice@))),
        ),
        Metrics::M6 => Some(DataView::M6(keep_last(pending_by_face(status.faces.face@)))),
        Metrics::M7 => Some(
            DataView::M7(
                keep_last(statistics_by_face(status.faces.face@, FaceStatistics::InterestSize)),
            ),
        ),
        Metrics::M8 => Some(
            DataView::M8(keep_last(statistics_by_face(status.faces.face@, FaceStatistics::DataSize))),
        ),
        Metrics::M9 => Some(
            DataView::M9(
                keep_last(
                    statistics_by_face(status.faces.face@, FaceStatistics::InterestComponents),
                ),
            ),
        ),
        Metrics::M10 => Some(
            DataView::M10(
                keep_last(statistics_by_face(status.faces.face@, FaceStatistics::DataComponents)),
            ),
        ),
        Metrics::M14 => Some(
            DataView::M14(
                SignatureCounts {
                    valid: status.cs.valid_signature_packets,
                    invalid: status.cs.invalid_signature_packets,
                },
            ),
        ),
        Metrics::M11 | Metrics::M12 | Metrics::M13 => None,
    }
}

/// The outcome of measuring a metric of the status report.
pub open spec fn status_metric(
    metric: Metrics,
    snapshot: Result<Snapshot, Error>,
    index: u64,
    logs: LogsView,
    now: Time,
) -> Measured {
    match snapshot {
        Err(e) => Err(e@),
        Ok(Snapshot::NfdStatus(status)) => match status_data(metric, status) {
            Some(data) => Ok(measured(data, metric, index, logs, now)),
            None => Err(wrong_dependency()),
        },
        Ok(_) => Err(wrong_dependency()),
    }
}

/// Lists the estimate of pending interests of each face.
fn collect_pending(faces: &Vec<Face>) -> (r: Vec<(u64, i128)>)
    ensures
        r@ == pending_by_face(faces@),
{
    let mut r: Vec<(u64, i128)> = Vec::new();
    let mut i: usize = 0;
    while i < faces.len()
        invariant
            i <= faces.len(),
            r@ == pending_by_face(faces@).subrange(0, i as int),
        decreases faces.len() - i,
    {
        let face = &faces[i];
        let incoming: i128 = face.packet_counters.incoming_packets.n_interests as i128;
        let data: i128 = face.packet_counters.outgoing_packets.n_data as i128;
        let nacks: i128 = face.packet_counters.outgoing_packets.n_nacks as i128;
        r.push((face.face_id, incoming - data - nacks));
        assert(r@ =~= pending_by_face(faces@).subrange(0, i + 1));
        i += 1;
    }
    assert(pending_by_face(faces@).subrange(0, faces.len() as int) =~= pending_by_face(faces@));
    r
}

/// Lists the chosen statistics of each face.
fn collect_statistics(faces: &Vec<Face>, which: FaceStatistics) -> (r: Vec<
    (u64, PacketStatistics),
>)
    ensures
        r@ == statistics_by_face(faces@, which),
{
    let mut r: Vec<(u64, PacketStatistics)> = Vec::new();
    let mut i: usize = 0;
    while i < faces.len()
        invariant
            i <= faces.len(),
            r@ == statistics_by_face(faces@, which).subrange(0, i as int),
        decreases faces.len() - i,
    {
        r.push((faces[i].face_id, which.pick(&faces[i])));
        assert(r@ =~= statistics_by_face(faces@, which).subrange(0, i + 1));
        i += 1;
    }
    assert(statistics_by_face(faces@, which).subrange(0, faces.len() as int)
        =~= statistics_by_face(faces@, which));
    r
}

/// Lists the strategy of each namespace.
fn collect_strategies(choices: &Vec<StrategyChoice>) -> (r: Vec<(String, String)>)
    ensures
        named_view(r@) == strategy_by_namespace(choices@),
{
    let mut r: Vec<(String, String)> = Vec::new();
    let mut i: usize = 0;
    while i < choices.len()
        invariant
            i <= choices.len(),
            r.len() == i,
            forall|j: int|
                0 <= j < i ==> r[j].0@ == choices[j].namespace@ && r[j].1@
                    == choices[j].strategy.name@,
        decreases choices.len() - i,
    {
        r.push((choices[i].namespace.clone(), choices[i].strategy.name.clone()));
        i += 1;
    }
    assert(named_view(r@) =~= strategy_by_namespace(choices@));
    r
}

/// Finds the certificate name of the first certificate marked default.
fn find_default(certificates: &Vec<Certificate>) -> (r: Option<String>)
    ensures
        r.deep_view() == default_certificate(certificates@),
{
    let mut i: usize = 0;
    assert(certificates@.subrange(0, certificates.len() as int) =~= certificates@);
    while i < certificates.len()
        invariant
            i <= certificates.len(),
            default_certificate(certificates@) == default_certificate(
                certificates@.subrange(i as int, certificates.len() as int),
            ),
        decreases certificates.len() - i,
    {
        let ghost rest = certificates@.subrange(i as int, certificates.len() as int);
        assert(rest[0] == certificates[i as int]);
        if certificates[i].is_default {
            return Some(certificates[i].certificate.clone());
        }
        assert(rest.drop_first() =~= certificates@.subrange(i + 1, certificates.len() as int));
        i += 1;
    }
    None
}

/// Computes a metric of the status report.
fn status_value(metric: Metrics, status: &NfdcStatus) -> (data: Option<Data>)
    ensures
        data.deep_view() == status_data(metric, *status),
{
    match metric {
        Metrics::M1 => Some(Data::M1(status.cs.policy_name.clone())),
        Metrics::M2 => Some(Data::M2(status.cs.capacity)),
        Metrics::M3 => Some(Data::M3(status.cs.n_entries)),
        Metrics::M4 => Some(
            Data::M4(
                PacketStatistics {
                    min: status.cs.min_size,
                    max: status.cs.max_size,
                    avg: status.cs.average_size,
                    std_dev: status.cs.std_dev_size,
                },
            ),
        ),
        Metrics::M5 => {
            let pairs = collect_strategies(&status.strategy_choices.strategy_choice);
            Some(Data::M5(keep_last_by_name(&pairs)))
        },
        Metrics::M6 => {
            let pairs = collect_pending(&status.faces.face);
            Some(Data::M6(keep_last_by_face(&pairs)))
        },
        Metrics::M7 => {
            let pairs = collect_statistics(&status.faces.face, FaceStatistics::InterestSize);
            Some(Data::M7(keep_last_by_face(&pairs)))
        },
        Metrics::M8 => {
            let pairs = collect_statistics(&status.faces.face, FaceStatistics::DataSize);
            Some(Data::M8(keep_last_by_face(&pairs)))
        },
        Metrics::M9 => {
            let pairs = collect_statistics(&status.faces.face, FaceStatistics::InterestComponents);
            Some(Data::M9(keep_last_by_face(&pairs)))
        },
        Metrics::M10 => {
            let pairs = collect_statistics(&status.faces.face, FaceStatistics::DataComponents);
            Some(Data::M10(keep_last_by_face(&pairs)))
        },
        Metrics::M14 => Some(
            Data::M14(
                SignatureCounts {
                    valid: status.cs.valid_signature_packets,
                    invalid: status.cs.invalid_signature_packets,
                },
            ),
        ),
        Metrics::M11 | Metrics::M12 | Metrics::M13 => None,
    }
}

/// Measures a metric of the status report.
fn measure_status(
    metric: Metrics,
    snapshot: &Result<Snapshot, Error>,
    index: u64,
    logs: &Logs,
    now: Time,
) -> (r: Result<Logging<Measurement>, Error>)
    ensures
        measured_view(r) == status_metric(metric, *snapshot, index, logs@, now),
{
    match snapshot {
        Err(e) => Err(e.clone()),
        Ok(Snapshot::NfdStatus(status)) => match status_value(metric, status) {
            Some(data) => Ok(record(data, metric, index, logs, now)),
            None => Err(Error::wrong_dependency()),
        },
        Ok(_) => Err(Error::wrong_dependency()),
    }
}

/// The name of the content store's replacement policy.
pub fn m1(snapshot: &Result<Snapshot, Error>, index: u64, logs: &Logs, now: Time) -> (r: Result<
    Logging<Measurement>,
    Error,
>)
    ensures
        measured_view(r) == status_metric(Metrics::M1, *snapshot, index, logs@, now),
{
    measure_status(Metrics::M1, snapshot, index, logs, now)
}

/// The capacity of the content store, in entries.
pub fn m2(snapshot: &Result<Snapshot, Error>, index: u64, logs: &Logs, now: Time) -> (r: Result<
    Logging<Measurement>,
    Error,
>)
    ensures
        measured_view(r) == status_metric(Metrics::M2, *snapshot, index, logs@, now),
{
    measure_status(Metrics::M2, snapshot, index, logs, now)
}

/// The number of entries that the content store holds.
pub fn m3(snapshot: &Result<Snapshot, Error>, index: u64, logs: &Logs, now: Time) -> (r: Result<
    Logging<Measurement>,
    Error,
>)
    ensures
        measured_view(r) == status_metric(Metrics::M3, *snapshot, index, logs@, now),
{
    measure_status(Metrics::M3, snapshot, index, logs, now)
}

/// Minimum, maximum, mean and standard deviation of the size of the entries
/// that the content store holds.
pub fn m4(snapshot: &Result<Snapshot, Error>, index: u64, logs: &Logs, now: Time) -> (r: Result<
    Logging<Measurement>,
    Error,
>)
    ensures
        measured_view(r) == status_metric(Metrics::M4, *snapshot, index, logs@, now),
{
    measure_status(Metrics::M4, snapshot, index, logs, now)
}

/// The forwarding strategy of each namespace.
pub fn m5(snapshot: &Result<Snapshot, Error>, index: u64, logs: &Logs, now: Time) -> (r: Result<
    Logging<Measurement>,
    Error,
>)
    ensures
        measured_view(r) == status_metric(Metrics::M5, *snapshot, index, logs@, now),
{
    measure_status(Metrics::M5, snapshot, index, logs, now)
}

/// The interests pending on each face, estimated as the interests that came
/// in, less the data packets and the negative acknowledgements that went out.
pub fn m6(snapshot: &Result<Snapshot, Error>, index: u64, logs: &Logs, now: Time) -> (r: Result<
    Logging<Measurement>,
    Error,
>)
    ensures
        measured_view(r) == status_metric(Metrics::M6, *snapshot, index, logs@, now),
{
    measure_status(Metrics::M6, snapshot, index, logs, now)
}

/// Size statistics of the interests that came in on each face.
pub fn m7(snapshot: &Result<Snapshot, Error>, index: u64, logs: &Logs, now: Time) -> (r: Result<
    Logging<Measurement>,
    Error,
>)
    ensures
        measured_view(r) == status_metric(Metrics::M7, *snapshot, index, logs@, now),
{
    measure_status(Metrics::M7, snapshot, index, logs, now)
}

/// Size statistics of the data packets that went out on each face.
pub fn m8(snapshot: &Result<Snapshot, Error>, index: u64, logs: &Logs, now: Time) -> (r: Result<
    Logging<Measurement>,
    Error,
>)
    ensures
        measured_view(r) == status_metric(Metrics::M8, *snapshot, index, logs@, now),
{
    measure_status(Metrics::M8, snapshot, index, logs, now)
}

/// Component-count statistics of the interests that came in on each face.
pub fn m9(snapshot: &Result<Snapshot, Error>, index: u64, logs: &Logs, now: Time) -> (r: Result<
    Logging<Measurement>,
    Error,
>)
    ensures
        measured_view(r) == status_metric(Metrics::M9, *snapshot, index, logs@, now),
{
    measure_status(Metrics::M9, snapshot, index, logs, now)
}

/// Component-count statistics of the data packets that went out on each
/// face.
pub fn m10(snapshot: &Result<Snapshot, Error>, index: u64, logs: &Logs, now: Time) -> (r: Result<
    Logging<Measurement>,
    Error,
>)
    ensures
        measured_view(r) == status_metric(Metrics::M10, *snapshot, index, logs@, now),
{
    measure_status(Metrics::M10, snapshot, index, logs, now)
}

/// The outcome of looking up, for each certificate listed, the validity of
/// its identity's certificate: the first lookup that failed fails the whole,
/// with its error; a lookup that gave no certificate details, or a number of
/// lookups other than the number of certificates, is a wiring fault.
pub open spec fn validities(
    certificates: Seq<Certificate>,
    details: Seq<Result<Snapshot, Error>>,
) -> Result<Seq<(Seq<char>, Validity)>, crate::task::ErrorView>
    decreases certificates.len(),
{
    if certificates.len() != details.len() {
        Err(wrong_dependency())
    } else if certificates.len() == 0 {
        Ok(Seq::empty())
    } else {
        match validities(certificates.drop_last(), details.drop_last()) {
            Err(e) => Err(e),
            Ok(front) => match details.last() {
                Err(e) => Err(e@),
                Ok(Snapshot::CertificateInfo(info)) => Ok(
                    front.push(
                        (
                            certificates.last().identity@,
                            Validity {
                                not_before: info.validity_not_before,
                                not_after: info.validity_not_after,
                            },
                        ),
                    ),
                ),
                Ok(_) => Err(wrong_dependency()),
            },
        }
    }
}

/// The outcome of measuring the validity of every identity's certificate.
pub open spec fn m11_spec(
    snapshot: Result<Snapshot, Error>,
    details: Seq<Result<Snapshot, Error>>,
    index: u64,
    logs: LogsView,
    now: Time,
) -> Measured {
    match snapshot {
        Err(e) => Err(e@),
        Ok(Snapshot::CertificateList(list)) => match validities(list.certificates@, details) {
            Err(e) => Err(e),
            Ok(pairs) => Ok(
                measured(DataView::M11(keep_last(pairs)), Metrics::M11, index, logs, now),
            ),
        },
        Ok(_) => Err(wrong_dependency()),
    }
}

/// Pairs each identity with the validity found for it.
fn collect_validities(certificates: &Vec<Certificate>, details: &Vec<Result<Snapshot, Error>>)
    -> (r: Result<Vec<(String, Validity)>, Error>)
    ensures
        match validities(certificates@, details@) {
            Ok(pairs) => r is Ok && named_view(r->Ok_0@) == pairs,
            Err(e) => r is Err && r->Err_0@ == e,
        },
{
    if certificates.len() != details.len() {
        return Err(Error::wrong_dependency());
    }
    let mut pairs: Vec<(String, Validity)> = Vec::new();
    let mut i: usize = 0;
    assert(certificates@.subrange(0, 0) =~= Seq::empty());
    assert(details@.subrange(0, 0) =~= Seq::empty());
    assert(named_view(pairs@) =~= Seq::empty());
    while i < certificates.len()
        invariant
            i <= certificates.len(),
            certificates.len() == details.len(),
            validities(certificates@.subrange(0, i as int), details@.subrange(0, i as int)) == Ok::<
                Seq<(Seq<char>, Validity)>,
                crate::task::ErrorView,
            >(named_view(pairs@)),
        decreases certificates.len() - i,
    {
        let ghost some = certificates@.subrange(0, i + 1);
        let ghost found = details@.subrange(0, i + 1);
        proof {
            assert(some.drop_last() =~= certificates@.subrange(0, i as int));
            assert(found.drop_last() =~= details@.subrange(0, i as int));
            assert(some.last() == certificates[i as int]);
            assert(found.last() == details[i as int]);
        }
        match &details[i] {
            Err(e) => {
                let failure = e.clone();
                proof {
                    lemma_validities_failure(certificates@, details@, i + 1);
                }
                return Err(failure);
            },
            Ok(Snapshot::CertificateInfo(info)) => {
                let ghost before = named_view(pairs@);
                let validity = Validity {
                    not_before: info.validity_not_before,
                    not_after: info.validity_not_after,
                };
                pairs.push((certificates[i].identity.clone(), validity));
                assert(named_view(pairs@) =~= before.push((certificates[i as int].identity@, validity)));
            },
            Ok(_) => {
                proof {
                    lemma_validities_failure(certificates@, details@, i + 1);
                }
                return Err(Error::wrong_dependency());
            },
        }
        i += 1;
    }
    proof {
        assert(certificates@.subrange(0, certificates.len() as int) =~= certificates@);
        assert(details@.subrange(0, details.len() as int) =~= details@);
    }
    Ok(pairs)
}

/// A failure among the first `n` lookups is the failure of the whole.
proof fn lemma_validities_failure(
    certificates: Seq<Certificate>,
    details: Seq<Result<Snapshot, Error>>,
    n: int,
)
    requires
        certificates.len() == details.len(),
        0 <= n <= certificates.len(),
        validities(certificates.subrange(0, n), details.subrange(0, n)) is Err,
    ensures
        validities(certificates, details) == validities(
            certificates.subrange(0, n),
            details.subrange(0, n),
        ),
    decreases certificates.len() - n,
{
    if n == certificates.len() {
        assert(certificates.subrange(0, n) =~= certificates);
        assert(details.subrange(0, n) =~= details);
    } else {
        let some = certificates.subrange(0, n + 1);
        let found = details.subrange(0, n + 1);
        assert(some.drop_last() =~= certificates.subrange(0, n));
        assert(found.drop_last() =~= details.subrange(0, n));
        lemma_validities_failure(certificates, details, n + 1);
    }
}

/// The validity interval of the certificate of every identity listed.
/// `details` holds, for each certificate of the list and in its order, the
/// outcome of fetching the details of its identity's certificate.
pub fn m11(
    snapshot: &Result<Snapshot, Error>,
    details: &Vec<Result<Snapshot, Error>>,
    index: u64,
    logs: &Logs,
    now: Time,
) -> (r: Result<Logging<Measurement>, Error>)
    ensures
        measured_view(r) == m11_spec(*snapshot, details@, index, logs@, now),
{
    match snapshot {
        Err(e) => Err(e.clone()),
        Ok(Snapshot::CertificateList(list)) => {
            match collect_validities(&list.certificates, details) {
                Err(e) => Err(e),
                Ok(pairs) => Ok(
                    record(Data::M11(keep_last_by_name(&pairs)), Metrics::M11, index, logs, now),
                ),
            }
        },
        Ok(_) => Err(Error::wrong_dependency()),
    }
}

/// The outcome of measuring the default certificate.
pub open spec fn m12_spec(snapshot: Result<Snapshot, Error>, index: u64, logs: LogsView, now: Time)
    -> Measured {
    match snapshot {
        Err(e) => Err(e@),
        Ok(Snapshot::CertificateList(list)) => Ok(
            measured(
                DataView::M12(default_certificate(list.certificates@)),
                Metrics::M12,
                index,
                logs,
                now,
            ),
        ),
        Ok(_) => Err(wrong_dependency()),
    }
}

/// The certificate marked default, if there is one.
pub fn m12(snapshot: &Result<Snapshot, Error>, index: u64, logs: &Logs, now: Time) -> (r: Result<
    Logging<Measurement>,
    Error,
>)
    ensures
        measured_view(r) == m12_spec(*snapshot, index, logs@, now),
{
    match snapshot {
        Err(e) => Err(e.clone()),
        Ok(Snapshot::CertificateList(list)) => Ok(
            record(Data::M12(find_default(&list.certificates)), Metrics::M12, index, logs, now),
        ),
        Ok(_) => Err(Error::wrong_dependency()),
    }
}

/// The outcome of measuring the host's memory.
pub open spec fn m13_spec(snapshot: Result<Snapshot, Error>, index: u64, logs: LogsView, now: Time)
    -> Measured {
    match snapshot {
        Err(e) => Err(e@),
        Ok(Snapshot::HostTotalMemory(bytes)) => Ok(
            measured(DataView::M13(bytes), Metrics::M13, index, logs, now),
        ),
        Ok(_) => Err(wrong_dependency()),
    }
}

/// The total memory of the host, in bytes.
pub fn m13(snapshot: &Result<Snapshot, Error>, index: u64, logs: &Logs, now: Time) -> (r: Result<
    Logging<Measurement>,
    Error,
>)
    ensures
        measured_view(r) == m13_spec(*snapshot, index, logs@, now),
{
    match snapshot {
        Err(e) => Err(e.clone()),
        Ok(Snapshot::HostTotalMemory(bytes)) => Ok(
            record(Data::M13(*bytes), Metrics::M13, index, logs, now),
        ),
        Ok(_) => Err(Error::wrong_dependency()),
    }
}

/// The cached packets whose signature verifies, and those whose signature
/// does not.
pub fn m14(snapshot: &Result<Snapshot, Error>, index: u64, logs: &Logs, now: Time) -> (r: Result<
    Logging<Measurement>,
    Error,
>)
    ensures
        measured_view(r) == status_metric(Metrics::M14, *snapshot, index, logs@, now),
{
    measure_status(Metrics::M14, snapshot, index, logs, now)
}

} // verus!
