use ndn_certification_agent::command;
use ndn_certification_agent::command::ndnsec::dump::CertificateInfo;
use ndn_certification_agent::command::ndnsec::list::{Certificate, CertificateList};
use ndn_certification_agent::command::nfdc::{
    ByteCounters, Channels, Congestion, Cs, Face, FaceFlags, Faces, Fib, GeneralStatus, NfdcStatus,
    PacketCounters, PacketCountersEntry, PacketStatistics, Rib, StrategyChoices,
};
use ndn_certification_agent::command::Snapshot;
use ndn_certification_agent::cycle::{
    certify, commit, conclude, conclude_at, constrain, duration_between, evaluate, evaluate_at,
    identities, measure, rule, Cycle, Instants, Snapshots, REST_MILLIS, TIMEOUT_MILLIS,
};
use ndn_certification_agent::data::{Data, Metrics, Tasks};
use ndn_certification_agent::double::Double;
use ndn_certification_agent::task::{Error, Evaluation, Logging, Logs};
use ndn_certification_agent::time::Time;

const SECOND: i128 = 1_000_000_000;
const START: i128 = 1_700_000_000 * SECOND;

fn at(nanos: i128) -> Time {
    Time { nanos }
}

fn double(x: f64) -> Double {
    Double::from_bits(x.to_bits())
}

fn stats(min: u64, max: u64, avg: f64, std_dev: f64) -> PacketStatistics {
    PacketStatistics { min, max, avg: double(avg), std_dev: double(std_dev) }
}

fn face(face_id: u64) -> Face {
    Face {
        face_id,
        remote_uri: "fd://64".to_string(),
        local_uri: "unix:///run/nfd.sock".to_string(),
        face_scope: "local".to_string(),
        face_persistency: "on-demand".to_string(),
        link_type: "point-to-point".to_string(),
        congestion: Congestion { base_marking_interval: None, default_threshold: None },
        mtu: 8800,
        flags: FaceFlags { local_fields_enabled: None, congestion_marking_enabled: None },
        packet_counters: PacketCounters {
            incoming_packets: PacketCountersEntry { n_interests: 64, n_data: 5, n_nacks: 0 },
            outgoing_packets: PacketCountersEntry { n_interests: 5, n_data: 63, n_nacks: 0 },
        },
        byte_counters: ByteCounters { incoming_bytes: 6967, outgoing_bytes: 17272 },
        interest_packet_size: stats(812, 855, 833.6, 16.8018),
        data_packet_size: stats(39, 121, 58.4444, 15.5364),
        interest_packet_components: stats(5, 9, 5.44445, 1.26718),
        data_packet_components: stats(5, 9, 5.44445, 1.26718),
    }
}

fn silent_face(face_id: u64) -> Face {
    let none = stats(u64::MAX, u64::MAX, f64::NAN, 0.0);
    let mut f = face(face_id);
    f.packet_counters.incoming_packets = PacketCountersEntry { n_interests: 0, n_data: 0, n_nacks: 0 };
    f.packet_counters.outgoing_packets = PacketCountersEntry { n_interests: 0, n_data: 0, n_nacks: 0 };
    f.interest_packet_size = none;
    f.data_packet_size = none;
    f.interest_packet_components = none;
    f.data_packet_components = none;
    f
}

fn status(policy: &str, capacity: u64, n_entries: u64) -> NfdcStatus {
    NfdcStatus {
        general_status: GeneralStatus {
            version: "0.7.1".to_string(),
            start_time: "20210209T140051.283000".to_string(),
            current_time: "20210209T154321.708000".to_string(),
            uptime: "6150 seconds".to_string(),
            n_name_tree_entries: 10,
            n_fib_entries: 2,
            n_pit_entries: 2,
            n_measurements_entries: 0,
            n_cs_entries: n_entries,
            packet_counters: PacketCounters {
                incoming_packets: PacketCountersEntry { n_interests: 228, n_data: 120, n_nacks: 0 },
                outgoing_packets: PacketCountersEntry { n_interests: 228, n_data: 104, n_nacks: 0 },
            },
            n_satisfied_interests: 104,
            n_unsatisfied_interests: 122,
        },
        channels: Channels { channel: vec![] },
        faces: Faces { face: vec![face(263)] },
        fib: Fib { fib_entry: vec![] },
        rib: Rib { rib_entry: vec![] },
        cs: Cs {
            capacity,
            admit_enabled: None,
            serve_enabled: None,
            n_entries,
            n_hits: 0,
            n_misses: 36,
            policy_name: policy.to_string(),
            min_size: 0,
            max_size: 48,
            average_size: double(43.5),
            std_dev_size: double(4.5),
            valid_signature_packets: 9,
            invalid_signature_packets: 0,
        },
        strategy_choices: StrategyChoices { strategy_choice: vec![] },
    }
}

fn certificate(identity: &str, is_default: bool) -> Certificate {
    Certificate {
        is_default,
        identity: identity.to_string(),
        key: format!("{}/KEY/1", identity),
        certificate: format!("{}/KEY/1/self/2", identity),
    }
}

fn detail(not_before: i128, not_after: i128) -> Result<Snapshot, Error> {
    Ok(Snapshot::CertificateInfo(CertificateInfo {
        certificate_name: "/test/KEY/1/self/2".to_string(),
        validity_not_before: at(not_before),
        validity_not_after: at(not_after),
        public_key_bits: vec![],
        signature_information: vec![],
    }))
}

fn snapshots(policy: &str, capacity: u64, n_entries: u64, memory: u64) -> Snapshots {
    Snapshots {
        status: Ok(Snapshot::NfdStatus(status(policy, capacity, n_entries))),
        certificates: Ok(Snapshot::CertificateList(CertificateList {
            certificates: vec![certificate("/test", true)],
        })),
        details: vec![detail(START - 1000 * SECOND, START + 1_000_000 * SECOND)],
        memory: Ok(Snapshot::HostTotalMemory(memory)),
    }
}

fn instants(cycle: u64) -> Instants {
    let base = START + cycle as i128 * SECOND;
    Instants { metrics: at(base), constraints: at(base + 1), rules: at(base + 2), properties: at(base + 3) }
}

fn data(r: &Result<Logging<ndn_certification_agent::task::Measurement>, Error>) -> Data {
    r.as_ref().unwrap().0.data.clone()
}

fn value(r: &Result<Logging<Evaluation>, Error>) -> bool {
    r.as_ref().unwrap().0.value
}

#[test]
fn timing_defaults() {
    assert_eq!(TIMEOUT_MILLIS, 1000);
    assert_eq!(REST_MILLIS, 1000);
}

#[test]
fn end_to_end_scenario() {
    let cycle = evaluate_at(&Logs::new(), &snapshots("lru", 10_000, 9_500, 100_000_000), 0, instants(0));
    assert_eq!(data(&cycle.measurements.m1), Data::M1("lru".to_string()));
    assert_eq!(data(&cycle.measurements.m2), Data::M2(10_000));
    assert_eq!(data(&cycle.measurements.m3), Data::M3(9_500));
    assert_eq!(data(&cycle.measurements.m13), Data::M13(100_000_000));
    assert!(value(&cycle.constraints.c1));
    assert!(value(&cycle.constraints.c3));
    assert!(value(&cycle.constraints.c4));
    // 10,000 entries take 81,920,000 bytes, above the 80,000,000 that are
    // 80% of the memory.
    assert!(!value(&cycle.constraints.c2));
    assert!(!value(&cycle.rules.r1));
    // With the memory that the footprint asks for, the constraint holds.
    let cycle = evaluate_at(&Logs::new(), &snapshots("lru", 10_000, 9_500, 102_400_000), 0, instants(0));
    assert!(value(&cycle.constraints.c2));
    assert!(value(&cycle.rules.r1));
}

#[test]
fn a_healthy_node_is_certified_from_the_fifth_cycle_on() {
    let mut store = Logs::new();
    let usages = [100u64, 101, 99, 102, 98, 100];
    for (index, usage) in usages.iter().enumerate() {
        let index = index as u64;
        let s = snapshots("lru", 120, *usage, 102_400_000);
        let cycle = evaluate_at(&store, &s, index, instants(index));
        let c = &cycle.constraints;
        for (name, verdict) in [
            ("c1", &c.c1), ("c2", &c.c2), ("c3", &c.c3), ("c4", &c.c4), ("c6", &c.c6),
            ("c7", &c.c7), ("c8", &c.c8), ("c9", &c.c9), ("c10", &c.c10), ("c11", &c.c11),
            ("c12", &c.c12), ("c13", &c.c13), ("c14", &c.c14), ("c15", &c.c15),
        ] {
            assert!(value(verdict), "{} in cycle {}", name, index);
        }
        // The usage has a history of five only from the fifth cycle on.
        assert_eq!(value(&c.c5), index >= 4, "cycle {}", index);
        let r = &cycle.rules;
        assert!(value(&r.r1));
        // The false verdicts of the first cycles stay in the window.
        assert!(!value(&r.r2));
        for verdict in [&r.r3, &r.r4, &r.r5, &r.r6, &r.r7, &r.r8] {
            assert!(value(verdict));
        }
        assert!(!value(&cycle.properties.p1));
        assert!(value(&cycle.properties.p2));
        assert!(value(&cycle.properties.p3));
        let started = at(START + index as i128 * SECOND - 5);
        let finished = at(START + index as i128 * SECOND + 5);
        assert_eq!(conclude_at(&mut store, &cycle, index, started, finished), Some(false));
        assert_eq!(store.duration_index()[&index], 10);
    }
    assert_eq!(store.measurements_index(Metrics::M3).len(), 6);
    assert_eq!(
        store.evaluations_index(Tasks::C5),
        &vec![(0u64, false), (1, false), (2, false), (3, false), (4, true), (5, true)]
    );
    // Three minutes on, the false verdicts have left the window.
    let index = 6;
    let late = Instants {
        metrics: at(START + 185 * SECOND),
        constraints: at(START + 185 * SECOND + 1),
        rules: at(START + 185 * SECOND + 2),
        properties: at(START + 185 * SECOND + 3),
    };
    let cycle = evaluate_at(&store, &snapshots("lru", 120, 100, 102_400_000), index, late);
    assert!(value(&cycle.constraints.c5));
    assert!(value(&cycle.rules.r2));
    assert!(value(&cycle.properties.p1));
    assert_eq!(conclude_at(&mut store, &cycle, index, late.metrics, late.properties), Some(true));
    assert_eq!(store.duration_index()[&6], 3);
    assert_eq!(store.evaluations_index(Tasks::P1).last(), Some(&(6u64, true)));
}

#[test]
fn usage_window_moves_with_the_sixth_cycle() {
    let mut store = Logs::new();
    let usages = [100u64, 101, 99, 102, 98, 200];
    let mut verdicts = Vec::new();
    for (index, usage) in usages.iter().enumerate() {
        let index = index as u64;
        let cycle = evaluate_at(&store, &snapshots("lru", 120, *usage, 102_400_000), index, instants(index));
        verdicts.push(value(&cycle.constraints.c5));
        commit(&mut store, &cycle);
    }
    assert_eq!(verdicts, vec![false, false, false, false, true, false]);
}

#[test]
fn every_measurement_is_made_against_the_store_of_the_cycles_start() {
    let mut store = Logs::new();
    store.insert_duration(1, 0);
    let before = store.clone();
    let cycle = evaluate_at(&store, &snapshots("lru", 120, 100, 102_400_000), 1, instants(1));
    assert_eq!(store, before);
    let m = &cycle.measurements;
    let all = [
        (&m.m1, Metrics::M1), (&m.m2, Metrics::M2), (&m.m3, Metrics::M3), (&m.m4, Metrics::M4),
        (&m.m5, Metrics::M5), (&m.m6, Metrics::M6), (&m.m7, Metrics::M7), (&m.m8, Metrics::M8),
        (&m.m9, Metrics::M9), (&m.m10, Metrics::M10), (&m.m11, Metrics::M11), (&m.m12, Metrics::M12),
        (&m.m13, Metrics::M13), (&m.m14, Metrics::M14),
    ];
    for (outcome, metric) in all {
        let Logging(measurement, logs) = outcome.as_ref().unwrap();
        assert_eq!(measurement.index, 1);
        assert_eq!(measurement.timestamp, instants(1).metrics);
        // Nothing of the sibling branches is visible in the store of a branch.
        assert_eq!(logs, &before.with_measurement(measurement.clone(), metric));
    }
}

#[test]
fn stages_are_stamped_with_their_instants() {
    let cycle = evaluate_at(&Logs::new(), &snapshots("lru", 120, 100, 102_400_000), 3, instants(3));
    assert_eq!(cycle.measurements.m1.as_ref().unwrap().0.timestamp, instants(3).metrics);
    assert_eq!(cycle.constraints.c1.as_ref().unwrap().0.timestamp, instants(3).constraints);
    assert_eq!(cycle.rules.r1.as_ref().unwrap().0.timestamp, instants(3).rules);
    assert_eq!(cycle.properties.p1.as_ref().unwrap().0.timestamp, instants(3).properties);
    assert_eq!(cycle.properties.p3.as_ref().unwrap().0.index, 3);
}

#[test]
fn stages_can_be_run_one_by_one() {
    let store = Logs::new();
    let s = snapshots("lru", 120, 100, 102_400_000);
    let whole = evaluate_at(&store, &s, 2, instants(2));
    let measurements = measure(&store, &s, 2, instants(2).metrics);
    let constraints = constrain(&measurements, 2, instants(2).constraints);
    let rules = rule(&constraints, 2, instants(2).rules);
    let properties = certify(&rules, 2, instants(2).properties);
    assert_eq!(whole, Cycle { measurements, constraints, rules, properties });
}

#[test]
fn a_failed_branch_fails_its_dependents_only() {
    let mut s = snapshots("lru", 120, 100, 102_400_000);
    s.memory = Err(Error::TimeoutError);
    let mut store = Logs::new();
    let cycle = evaluate_at(&store, &s, 0, instants(0));
    assert_eq!(cycle.measurements.m13, Err(Error::TimeoutError));
    assert_eq!(cycle.constraints.c2, Err(Error::TimeoutError));
    assert_eq!(cycle.rules.r1, Err(Error::TimeoutError));
    assert_eq!(cycle.properties.p1, Err(Error::TimeoutError));
    // The siblings are there.
    assert!(value(&cycle.constraints.c1));
    assert!(value(&cycle.constraints.c3));
    assert!(value(&cycle.constraints.c4));
    assert!(value(&cycle.rules.r3));
    assert!(value(&cycle.properties.p2));
    assert!(value(&cycle.properties.p3));
    // And what they made is merged.
    assert_eq!(conclude_at(&mut store, &cycle, 0, at(START), at(START + 9)), None);
    assert_eq!(store.measurements_index(Metrics::M1).len(), 1);
    assert_eq!(store.measurements_index(Metrics::M2).len(), 1);
    assert!(store.measurements_index(Metrics::M13).is_empty());
    assert_eq!(store.evaluations_index(Tasks::C1), &vec![(0u64, true)]);
    assert_eq!(store.evaluations_index(Tasks::C3), &vec![(0u64, true)]);
    assert!(store.evaluations_index(Tasks::C2).is_empty());
    assert!(store.evaluations_index(Tasks::R1).is_empty());
    assert!(store.evaluations_index(Tasks::P1).is_empty());
    assert_eq!(store.evaluations_index(Tasks::R2), &vec![(0u64, false)]);
    assert_eq!(store.evaluations_index(Tasks::P2), &vec![(0u64, true)]);
    assert_eq!(store.evaluations_index(Tasks::P3), &vec![(0u64, true)]);
    assert_eq!(store.duration_index()[&0], 9);
}

#[test]
fn a_failed_status_leaves_the_certificate_branch_standing() {
    let mut s = snapshots("lru", 120, 100, 102_400_000);
    let failure = Error::TaskError(command::Error::OutputError("nfdc: cannot connect".to_string()));
    s.status = Err(failure.clone());
    let mut store = Logs::new();
    let cycle = evaluate_at(&store, &s, 0, instants(0));
    assert_eq!(cycle.measurements.m1, Err(failure.clone()));
    assert_eq!(cycle.constraints.c15, Err(failure.clone()));
    assert_eq!(cycle.rules.r8, Err(failure.clone()));
    assert_eq!(cycle.properties.p1, Err(failure.clone()));
    assert_eq!(cycle.properties.p3, Err(failure));
    assert!(value(&cycle.properties.p2));
    commit(&mut store, &cycle);
    assert_eq!(store.evaluations_index(Tasks::P2), &vec![(0u64, true)]);
    assert_eq!(store.measurements_index(Metrics::M11).len(), 1);
    assert_eq!(store.measurements_index(Metrics::M13).len(), 1);
    assert!(store.measurements_index(Metrics::M1).is_empty());
}

#[test]
fn a_failed_detail_lookup_fails_the_validity_branch_only() {
    let mut s = snapshots("lru", 120, 100, 102_400_000);
    s.details = vec![Err(Error::TaskError(command::Error::NotFound("/test".to_string())))];
    let cycle = evaluate_at(&Logs::new(), &s, 0, instants(0));
    let failure = Error::TaskError(command::Error::NotFound("/test".to_string()));
    assert_eq!(cycle.measurements.m11, Err(failure.clone()));
    assert_eq!(cycle.constraints.c13, Err(failure.clone()));
    assert_eq!(cycle.rules.r6, Err(failure.clone()));
    assert_eq!(cycle.properties.p2, Err(failure));
    assert!(value(&cycle.constraints.c14));
    assert!(value(&cycle.rules.r7));
    assert!(value(&cycle.properties.p1) || !value(&cycle.rules.r2));
}

#[test]
fn an_expired_certificate_is_noticed() {
    let mut s = snapshots("lru", 120, 100, 102_400_000);
    s.details = vec![detail(START - 1000 * SECOND, START - SECOND)];
    let cycle = evaluate_at(&Logs::new(), &s, 0, instants(0));
    assert!(!value(&cycle.constraints.c13));
    assert!(!value(&cycle.rules.r6));
    assert!(!value(&cycle.properties.p2));
    assert!(!value(&cycle.properties.p3));
}

#[test]
fn faces_without_traffic_do_not_fail_the_component_constraints() {
    let mut st = status("lru", 120, 100);
    st.faces.face = vec![silent_face(1), silent_face(254)];
    let mut s = snapshots("lru", 120, 100, 102_400_000);
    s.status = Ok(Snapshot::NfdStatus(st));
    let cycle = evaluate_at(&Logs::new(), &s, 0, instants(0));
    assert!(value(&cycle.constraints.c10));
    assert!(value(&cycle.constraints.c12));
    assert!(value(&cycle.constraints.c9));
    assert!(value(&cycle.constraints.c8));
}

#[test]
fn commit_twice_is_commit_once() {
    let cycle = evaluate_at(&Logs::new(), &snapshots("lru", 120, 100, 102_400_000), 0, instants(0));
    let mut once = Logs::new();
    commit(&mut once, &cycle);
    let mut twice = once.clone();
    commit(&mut twice, &cycle);
    assert_eq!(once, twice);
    for task in [Tasks::C1, Tasks::C15, Tasks::R1, Tasks::R8, Tasks::P1, Tasks::P3] {
        assert_eq!(once.evaluations_index(task).len(), 1, "{:?}", task);
    }
    for metric in [Metrics::M1, Metrics::M5, Metrics::M11, Metrics::M14] {
        assert_eq!(once.measurements_index(metric).len(), 1, "{:?}", metric);
    }
}

#[test]
fn evaluate_reads_the_clock() {
    let before = Time::now();
    let mut s = snapshots("lru", 120, 100, 102_400_000);
    s.details = vec![detail(0, i128::MAX)];
    let cycle = evaluate(&Logs::new(), &s, 0);
    let after = Time::now();
    let stamps = [
        cycle.measurements.m1.as_ref().unwrap().0.timestamp,
        cycle.constraints.c1.as_ref().unwrap().0.timestamp,
        cycle.rules.r1.as_ref().unwrap().0.timestamp,
        cycle.properties.p2.as_ref().unwrap().0.timestamp,
    ];
    assert!(before.nanos <= stamps[0].nanos);
    assert!(stamps.windows(2).all(|w| w[0].nanos <= w[1].nanos));
    assert!(stamps[3].nanos <= after.nanos);
    assert_eq!(
        cycle.measurements.m14.as_ref().unwrap().0.timestamp,
        cycle.measurements.m1.as_ref().unwrap().0.timestamp
    );
    let mut store = Logs::new();
    assert_eq!(conclude(&mut store, &cycle, 0, before), Some(false));
    let recorded = store.duration_index()[&0];
    assert!(recorded >= 0);
    assert!(recorded as i128 <= Time::now().nanos - before.nanos);
    assert_eq!(store.evaluations_index(Tasks::P2), &vec![(0u64, true)]);
}

#[test]
fn durations_are_kept_in_range() {
    assert_eq!(duration_between(at(5), at(12)), 7);
    assert_eq!(duration_between(at(12), at(5)), -7);
    assert_eq!(duration_between(at(-3), at(-3)), 0);
    assert_eq!(duration_between(at(0), at(i64::MAX as i128)), i64::MAX);
    assert_eq!(duration_between(at(0), at(i64::MAX as i128 + 1)), i64::MAX);
    assert_eq!(duration_between(at(0), at(i64::MIN as i128)), i64::MIN);
    assert_eq!(duration_between(at(0), at(i64::MIN as i128 - 1)), i64::MIN);
    assert_eq!(duration_between(at(i128::MIN), at(i128::MAX)), i64::MAX);
    assert_eq!(duration_between(at(i128::MAX), at(i128::MIN)), i64::MIN);
    assert_eq!(duration_between(at(i128::MAX), at(i128::MAX - 1)), -1);
    assert_eq!(duration_between(at(i128::MIN), at(i128::MIN + 1)), 1);
}

#[test]
fn identities_are_those_of_the_inventory() {
    let list = Ok(Snapshot::CertificateList(CertificateList {
        certificates: vec![certificate("/alice", false), certificate("/bob", true), certificate("/alice", false)],
    }));
    assert_eq!(identities(&list), vec!["/alice".to_string(), "/bob".to_string(), "/alice".to_string()]);
    assert!(identities(&Err(Error::TimeoutError)).is_empty());
    assert!(identities(&Ok(Snapshot::HostTotalMemory(1))).is_empty());
    assert!(identities(&Ok(Snapshot::CertificateList(CertificateList { certificates: vec![] }))).is_empty());
}

fn strictly_increasing(indices: &[u64]) -> bool {
    indices.windows(2).all(|w| w[0] < w[1])
}

#[test]
fn the_store_stays_settled_from_cycle_to_cycle() {
    let metrics = [
        Metrics::M1, Metrics::M2, Metrics::M3, Metrics::M4, Metrics::M5, Metrics::M6, Metrics::M7,
        Metrics::M8, Metrics::M9, Metrics::M10, Metrics::M11, Metrics::M12, Metrics::M13, Metrics::M14,
    ];
    let tasks = [
        Tasks::C1, Tasks::C2, Tasks::C3, Tasks::C4, Tasks::C5, Tasks::C6, Tasks::C7, Tasks::C8,
        Tasks::C9, Tasks::C10, Tasks::C11, Tasks::C12, Tasks::C13, Tasks::C14, Tasks::C15,
        Tasks::R1, Tasks::R2, Tasks::R3, Tasks::R4, Tasks::R5, Tasks::R6, Tasks::R7, Tasks::R8,
        Tasks::P1, Tasks::P2, Tasks::P3,
    ];
    let mut store = Logs::new();
    // Cycles may be skipped, and branches may fail.
    for index in [0u64, 1, 2, 5, 6, 9] {
        let mut s = snapshots("lru", 120, 100 + index, 102_400_000);
        if index == 1 {
            s.memory = Err(Error::TimeoutError);
        }
        if index == 5 {
            s.status = Err(Error::TimeoutError);
        }
        if index == 6 {
            s.certificates = Err(Error::TimeoutError);
            s.details = vec![];
        }
        let before = store.clone();
        let cycle = evaluate_at(&store, &s, index, instants(index));
        commit(&mut store, &cycle);
        for metric in metrics {
            let old: Vec<u64> = before.measurements_index(metric).iter().map(|e| e.0).collect();
            let new: Vec<u64> = store.measurements_index(metric).iter().map(|e| e.0).collect();
            assert!(strictly_increasing(&new), "{:?} {:?}", metric, new);
            assert!(new.len() == old.len() || (new.len() == old.len() + 1 && new[old.len()] == index));
            assert_eq!(&new[..old.len()], &old[..]);
            assert_eq!(&store.measurements_index(metric)[..old.len()], &before.measurements_index(metric)[..]);
            // Every value stands under its own metric, and the table loses none.
            assert!(store.measurements_index(metric).iter().all(|e| e.1.metric() == metric));
            assert!(store.measurements_timestamp(metric).iter().all(|e| e.1.metric() == metric));
            let table = store.to_table();
            assert_eq!(table.measurements_index(metric).len(), new.len());
            assert_eq!(
                table.measurements_timestamp(metric).len(),
                store.measurements_timestamp(metric).len()
            );
            for (i, data) in store.measurements_index(metric) {
                assert_eq!(&table.measurements_index(metric)[i], data);
            }
        }
        for task in tasks {
            let old = before.evaluations_index(task);
            let new = store.evaluations_index(task);
            let indices: Vec<u64> = new.iter().map(|e| e.0).collect();
            assert!(strictly_increasing(&indices), "{:?} {:?}", task, indices);
            assert!(new.len() == old.len() || (new.len() == old.len() + 1 && new[old.len()].0 == index));
            assert_eq!(&new[..old.len()], &old[..]);
        }
    }
    assert_eq!(
        store.measurements_index(Metrics::M13).iter().map(|e| e.0).collect::<Vec<_>>(),
        vec![0, 2, 5, 6, 9]
    );
    assert_eq!(
        store.measurements_index(Metrics::M3).iter().map(|e| e.0).collect::<Vec<_>>(),
        vec![0, 1, 2, 6, 9]
    );
    assert_eq!(
        store.evaluations_index(Tasks::P2).iter().map(|e| e.0).collect::<Vec<_>>(),
        vec![0, 1, 2, 5, 9]
    );
    assert_eq!(
        store.evaluations_index(Tasks::P1).iter().map(|e| e.0).collect::<Vec<_>>(),
        vec![0, 2, 6, 9]
    );
}
