use ndn_certification_agent::command;
use ndn_certification_agent::data::{Data, Metrics, Tasks};
use ndn_certification_agent::task::{Error, Evaluation, Logs, Measurement};
use ndn_certification_agent::time::Time;

fn at(nanos: i128) -> Time {
    Time { nanos }
}

fn usage(value: u64, index: u64, nanos: i128) -> Measurement {
    Measurement::at(Data::M3(value), index, at(nanos))
}

fn indices(logs: &Logs, metric: Metrics) -> Vec<u64> {
    logs.measurements_index(metric).iter().map(|(i, _)| *i).collect()
}

fn instants(logs: &Logs, metric: Metrics) -> Vec<i128> {
    logs.measurements_timestamp(metric).iter().map(|(t, _)| t.nanos).collect()
}

#[test]
fn test_insert_mut_merge() {
    let mut log1: Logs = Logs::default();
    log1.insert_measurement(Measurement::new(Data::M1(0.to_string()), 0), Metrics::M1);
    let m1 = Measurement::new(Data::M1(1.to_string()), 1);
    log1.insert_measurement(m1.clone(), Metrics::M1);
    log1.insert_evaluation(Evaluation::new(true, 0), Tasks::R1);
    log1.insert_evaluation(Evaluation::new(true, 1), Tasks::R1);

    let mut log2: Logs = Logs::default();
    log2.insert_measurement(m1, Metrics::M1);
    log2.insert_measurement(Measurement::new(Data::M1(2.to_string()), 2), Metrics::M1);
    log2.insert_measurement(Measurement::new(Data::M1(3.to_string()), 3), Metrics::M1);
    log2.insert_evaluation(Evaluation::new(false, 2), Tasks::R1);
    log2.insert_evaluation(Evaluation::new(false, 3), Tasks::R1);

    println!("{:#?}", log1);
    println!("{:#?}", log2);

    log1.mut_merge(&log2);

    println!("{:#?}", log1);
    assert_eq!(log1.measurements_index(Metrics::M1).len(), 4);
    assert_eq!(log1.measurements_timestamp(Metrics::M1).len(), 4);
    assert_eq!(
        log1.measurements_index(Metrics::M1)
            .iter()
            .map(|(i, _)| i)
            .cloned()
            .collect::<Vec<_>>(),
        [0, 1, 2, 3]
    );
}

#[test]
fn new_store_is_empty() {
    let logs = Logs::new();
    assert_eq!(logs, Logs::default());
    assert!(logs.measurements_index(Metrics::M1).is_empty());
    assert!(logs.measurements_timestamp(Metrics::M14).is_empty());
    assert!(logs.evaluations_index(Tasks::C1).is_empty());
    assert!(logs.evaluations_timestamp(Tasks::P3).is_empty());
    assert!(logs.duration_index().is_empty());
}

#[test]
fn measurement_new_keeps_data_and_index() {
    let m = Measurement::new(Data::M13(7), 42);
    assert_eq!(m.data, Data::M13(7));
    assert_eq!(m.index, 42);
    let e = Evaluation::new(true, 43);
    assert!(e.value);
    assert_eq!(e.index, 43);
    assert!(m.timestamp.nanos <= e.timestamp.nanos);
    // The clock is read, not made up: we are well past the year 2020.
    assert!(m.timestamp.nanos > 1_577_836_800_000_000_000);
}

#[test]
fn insert_measurement_appends_to_both_series_of_its_metric_only() {
    let mut logs = Logs::new();
    logs.insert_measurement(usage(10, 0, 1000), Metrics::M3);
    logs.insert_measurement(usage(11, 1, 2000), Metrics::M3);
    assert_eq!(
        logs.measurements_index(Metrics::M3),
        &vec![(0u64, Data::M3(10)), (1u64, Data::M3(11))]
    );
    assert_eq!(
        logs.measurements_timestamp(Metrics::M3),
        &vec![(at(1000), Data::M3(10)), (at(2000), Data::M3(11))]
    );
    assert!(logs.measurements_index(Metrics::M2).is_empty());
    assert!(logs.evaluations_index(Tasks::C5).is_empty());
}

#[test]
fn insert_evaluation_appends_to_both_series_of_its_task_only() {
    let mut logs = Logs::new();
    logs.insert_evaluation(Evaluation::at(true, 3, at(30)), Tasks::R8);
    logs.insert_evaluation(Evaluation::at(false, 4, at(40)), Tasks::R8);
    assert_eq!(logs.evaluations_index(Tasks::R8), &vec![(3u64, true), (4u64, false)]);
    assert_eq!(logs.evaluations_timestamp(Tasks::R8), &vec![(at(30), true), (at(40), false)]);
    assert!(logs.evaluations_index(Tasks::R7).is_empty());
    assert!(logs.evaluations_index(Tasks::P1).is_empty());
}

#[test]
fn insert_duration_replaces_what_was_recorded() {
    let mut logs = Logs::new();
    logs.insert_duration(500, 7);
    logs.insert_duration(600, 8);
    logs.insert_duration(700, 7);
    assert_eq!(logs.duration_index().len(), 2);
    assert_eq!(logs.duration_index()[&7], 700);
    assert_eq!(logs.duration_index()[&8], 600);
}

#[test]
fn with_variants_leave_the_receiver_alone() {
    let base = Logs::new();
    let a = base.with_measurement(usage(1, 0, 10), Metrics::M3);
    let b = a.with_evaluation(Evaluation::at(true, 0, at(11)), Tasks::C5);
    let c = b.with_duration(99, 0);
    assert_eq!(base, Logs::new());
    assert_eq!(indices(&a, Metrics::M3), vec![0]);
    assert!(a.evaluations_index(Tasks::C5).is_empty());
    assert_eq!(b.evaluations_index(Tasks::C5), &vec![(0u64, true)]);
    assert!(b.duration_index().is_empty());
    assert_eq!(c.duration_index()[&0], 99);
    assert_eq!(indices(&c, Metrics::M3), vec![0]);
}

#[test]
fn merge_into_empty_receiver_adopts_the_series_whole() {
    let mut delta = Logs::new();
    delta.insert_measurement(usage(5, 3, 300), Metrics::M3);
    delta.insert_measurement(usage(6, 4, 400), Metrics::M3);
    let merged = Logs::new().merge(&delta);
    assert_eq!(merged, delta);
}

#[test]
fn merge_takes_only_the_strictly_newer_suffix() {
    let mut store = Logs::new();
    store.insert_measurement(usage(1, 0, 100), Metrics::M3);
    store.insert_measurement(usage(2, 1, 200), Metrics::M3);
    let mut delta = Logs::new();
    delta.insert_measurement(usage(20, 1, 200), Metrics::M3);
    delta.insert_measurement(usage(30, 2, 300), Metrics::M3);
    delta.insert_measurement(usage(40, 3, 400), Metrics::M3);
    store.mut_merge(&delta);
    assert_eq!(
        store.measurements_index(Metrics::M3),
        &vec![
            (0u64, Data::M3(1)),
            (1u64, Data::M3(2)),
            (2u64, Data::M3(30)),
            (3u64, Data::M3(40))
        ]
    );
    assert_eq!(instants(&store, Metrics::M3), vec![100, 200, 300, 400]);
}

#[test]
fn what_is_not_newer_is_not_recorded() {
    let mut store = Logs::new();
    store.insert_measurement(usage(0, 5, 500), Metrics::M3);
    // The same index again, and an older one: the series by index stays.
    store.insert_measurement(usage(1, 5, 600), Metrics::M3);
    store.insert_measurement(usage(2, 4, 700), Metrics::M3);
    assert_eq!(indices(&store, Metrics::M3), vec![5]);
    assert_eq!(store.measurements_index(Metrics::M3), &vec![(5u64, Data::M3(0))]);
    // Their instants are newer: the series by instant takes them.
    assert_eq!(instants(&store, Metrics::M3), vec![500, 600, 700]);
    // A newer index at an instant that is not newer: the other way round.
    store.insert_measurement(usage(3, 6, 700), Metrics::M3);
    store.insert_measurement(usage(4, 7, 100), Metrics::M3);
    assert_eq!(indices(&store, Metrics::M3), vec![5, 6, 7]);
    assert_eq!(instants(&store, Metrics::M3), vec![500, 600, 700]);
    // Verdicts alike.
    store.insert_evaluation(Evaluation::at(true, 3, at(30)), Tasks::C1);
    store.insert_evaluation(Evaluation::at(false, 3, at(30)), Tasks::C1);
    store.insert_evaluation(Evaluation::at(false, 2, at(20)), Tasks::C1);
    assert_eq!(store.evaluations_index(Tasks::C1), &vec![(3u64, true)]);
    assert_eq!(store.evaluations_timestamp(Tasks::C1), &vec![(at(30), true)]);
    // Other keys are not in the way.
    store.insert_evaluation(Evaluation::at(false, 2, at(20)), Tasks::C2);
    assert_eq!(store.evaluations_index(Tasks::C2), &vec![(2u64, false)]);
    // The copying variants alike.
    let same = store.with_measurement(usage(9, 7, 700), Metrics::M3);
    assert_eq!(same, store);
    let same = store.with_evaluation(Evaluation::at(false, 3, at(30)), Tasks::C1);
    assert_eq!(same, store);
}

#[test]
fn every_series_is_strictly_increasing_whatever_is_done() {
    let mut store = Logs::new();
    let mut other = Logs::new();
    let mut seed: u64 = 0x9e37_79b9_7f4a_7c15;
    let mut next = || {
        seed ^= seed << 13;
        seed ^= seed >> 7;
        seed ^= seed << 17;
        seed
    };
    for step in 0..400 {
        let index = next() % 24;
        let instant = (next() % 24) as i128;
        let target = if next() % 2 == 0 { &mut store } else { &mut other };
        match next() % 3 {
            0 => target.insert_measurement(usage(step, index, instant), Metrics::M3),
            1 => target.insert_evaluation(Evaluation::at(step % 2 == 0, index, at(instant)), Tasks::C5),
            _ => {
                let snapshot = other.clone();
                store.mut_merge(&snapshot);
                other = Logs::new();
            }
        }
        for logs in [&store, &other] {
            logs.monotone();
            let by_index = indices(logs, Metrics::M3);
            assert!(by_index.windows(2).all(|w| w[0] < w[1]), "{:?}", by_index);
            let by_instant = instants(logs, Metrics::M3);
            assert!(by_instant.windows(2).all(|w| w[0] < w[1]), "{:?}", by_instant);
            let verdicts: Vec<u64> = logs.evaluations_index(Tasks::C5).iter().map(|e| e.0).collect();
            assert!(verdicts.windows(2).all(|w| w[0] < w[1]), "{:?}", verdicts);
            let stamps: Vec<i128> =
                logs.evaluations_timestamp(Tasks::C5).iter().map(|e| e.0.nanos).collect();
            assert!(stamps.windows(2).all(|w| w[0] < w[1]), "{:?}", stamps);
        }
    }
    assert!(!indices(&store, Metrics::M3).is_empty());
}

#[test]
fn merge_takes_the_run_of_newer_entries_at_the_end() {
    let mut store = Logs::new();
    store.insert_measurement(usage(0, 5, 500), Metrics::M3);
    let mut delta = Logs::new();
    for index in [1u64, 3, 5, 7, 9] {
        delta.insert_measurement(usage(index, index, 100 * index as i128), Metrics::M3);
    }
    store.mut_merge(&delta);
    assert_eq!(indices(&store, Metrics::M3), vec![5, 7, 9]);
    assert_eq!(instants(&store, Metrics::M3), vec![500, 700, 900]);
    assert_eq!(
        store.measurements_index(Metrics::M3),
        &vec![(5u64, Data::M3(0)), (7u64, Data::M3(7)), (9u64, Data::M3(9))]
    );
}

#[test]
fn merge_passes_over_a_delta_that_is_not_newer() {
    let mut store = Logs::new();
    store.insert_measurement(usage(1, 4, 400), Metrics::M3);
    let before = store.clone();
    let mut delta = Logs::new();
    delta.insert_measurement(usage(9, 3, 300), Metrics::M3);
    delta.insert_measurement(usage(9, 4, 400), Metrics::M3);
    store.mut_merge(&delta);
    assert_eq!(store, before);
    store.mut_merge(&Logs::new());
    assert_eq!(store, before);
}

#[test]
fn merge_treats_index_and_instant_apart() {
    // Newer by index, older by instant: only the series by index grows.
    let mut store = Logs::new();
    store.insert_measurement(usage(1, 1, 1000), Metrics::M3);
    let mut delta = Logs::new();
    delta.insert_measurement(usage(2, 2, 900), Metrics::M3);
    store.mut_merge(&delta);
    assert_eq!(indices(&store, Metrics::M3), vec![1, 2]);
    assert_eq!(instants(&store, Metrics::M3), vec![1000]);
}

#[test]
fn merge_lays_durations_of_the_delta_over_its_own() {
    let mut store = Logs::new();
    store.insert_duration(10, 0);
    store.insert_duration(11, 1);
    let mut delta = Logs::new();
    delta.insert_duration(21, 1);
    delta.insert_duration(22, 2);
    let merged = store.merge(&delta);
    assert_eq!(merged.duration_index().len(), 3);
    assert_eq!(merged.duration_index()[&0], 10);
    assert_eq!(merged.duration_index()[&1], 21);
    assert_eq!(merged.duration_index()[&2], 22);
    assert_eq!(store.duration_index()[&1], 11);
}

fn sample_store() -> Logs {
    let mut store = Logs::new();
    store.insert_measurement(usage(1, 0, 100), Metrics::M3);
    store.insert_measurement(Measurement::at(Data::M1("lru".to_string()), 0, at(100)), Metrics::M1);
    store.insert_evaluation(Evaluation::at(true, 0, at(110)), Tasks::C1);
    store.insert_duration(5, 0);
    store
}

fn sample_delta() -> Logs {
    let mut delta = sample_store();
    delta.insert_measurement(usage(2, 1, 200), Metrics::M3);
    delta.insert_measurement(Measurement::at(Data::M1("lru".to_string()), 1, at(200)), Metrics::M1);
    delta.insert_evaluation(Evaluation::at(false, 1, at(210)), Tasks::C1);
    delta.insert_evaluation(Evaluation::at(true, 1, at(220)), Tasks::R1);
    delta.insert_duration(6, 1);
    delta
}

#[test]
fn merge_is_idempotent() {
    for store in [Logs::new(), sample_store(), sample_delta()] {
        for delta in [Logs::new(), sample_store(), sample_delta()] {
            let once = store.merge(&delta);
            let twice = once.merge(&delta);
            assert_eq!(once, twice);
        }
    }
}

#[test]
fn merge_order_does_not_matter_for_deltas_on_different_keys() {
    let store = sample_store();
    let mut first = Logs::new();
    first.insert_measurement(usage(2, 1, 200), Metrics::M3);
    first.insert_evaluation(Evaluation::at(true, 1, at(210)), Tasks::C5);
    first.insert_duration(6, 1);
    let mut second = Logs::new();
    second.insert_measurement(Measurement::at(Data::M2(10), 1, at(205)), Metrics::M2);
    second.insert_evaluation(Evaluation::at(true, 1, at(215)), Tasks::C3);
    second.insert_duration(7, 2);
    let left = store.merge(&first).merge(&second);
    let right = store.merge(&second).merge(&first);
    assert_eq!(left, right);
    assert_eq!(indices(&left, Metrics::M3), vec![0, 1]);
    assert_eq!(indices(&left, Metrics::M2), vec![1]);
}

#[test]
fn merge_order_matters_for_disjoint_ranges_under_one_key() {
    // Both deltas extend the same key: the later range, merged first, shuts
    // the earlier one out.
    let mut first = Logs::new();
    first.insert_measurement(usage(1, 1, 100), Metrics::M3);
    let mut second = Logs::new();
    second.insert_measurement(usage(2, 2, 200), Metrics::M3);
    let left = Logs::new().merge(&first).merge(&second);
    let right = Logs::new().merge(&second).merge(&first);
    assert_eq!(indices(&left, Metrics::M3), vec![1, 2]);
    assert_eq!(indices(&right, Metrics::M3), vec![2]);
}

#[test]
fn merges_keep_indices_strictly_increasing() {
    let mut store = Logs::new();
    let mut deltas = Vec::new();
    for round in 0u64..6 {
        let mut delta = Logs::new();
        // Overlapping histories: each delta repeats the two cycles before it.
        for index in round.saturating_sub(2)..=round {
            delta.insert_measurement(usage(index, index, 100 * index as i128), Metrics::M3);
            delta.insert_evaluation(
                Evaluation::at(index % 2 == 0, index, at(100 * index as i128 + 1)),
                Tasks::C5,
            );
        }
        deltas.push(delta);
    }
    for delta in deltas.iter().chain(deltas.iter().rev()) {
        store.mut_merge(delta);
        let by_index = indices(&store, Metrics::M3);
        assert!(by_index.windows(2).all(|w| w[0] < w[1]), "{:?}", by_index);
        let by_instant = instants(&store, Metrics::M3);
        assert!(by_instant.windows(2).all(|w| w[0] < w[1]), "{:?}", by_instant);
        let verdicts: Vec<u64> =
            store.evaluations_index(Tasks::C5).iter().map(|(i, _)| *i).collect();
        assert!(verdicts.windows(2).all(|w| w[0] < w[1]), "{:?}", verdicts);
    }
    assert_eq!(indices(&store, Metrics::M3), vec![0, 1, 2, 3, 4, 5]);
}

#[test]
fn clone_holds_the_same() {
    let store = sample_delta();
    let copy = store.clone();
    assert_eq!(store, copy);
}

#[test]
fn to_table_groups_entries_by_stamp() {
    let store = sample_delta();
    let table = store.to_table();
    let usage_by_index = table.measurements_index(Metrics::M3);
    assert_eq!(usage_by_index.len(), 2);
    assert_eq!(usage_by_index[&0], Data::M3(1));
    assert_eq!(usage_by_index[&1], Data::M3(2));
    let usage_by_instant = table.measurements_timestamp(Metrics::M3);
    assert_eq!(usage_by_instant.len(), 2);
    assert_eq!(usage_by_instant[&100], Data::M3(1));
    assert_eq!(usage_by_instant[&200], Data::M3(2));
    assert_eq!(table.evaluations_index(Tasks::C1)[&0], true);
    assert_eq!(table.evaluations_index(Tasks::C1)[&1], false);
    assert_eq!(table.evaluations_timestamp(Tasks::R1)[&220], true);
    assert!(table.measurements_index(Metrics::M2).is_empty());
    assert!(table.evaluations_index(Tasks::P2).is_empty());
    assert_eq!(table.duration_index(), store.duration_index());
    assert_eq!(table.duration_index()[&1], 6);
}

#[test]
fn to_table_of_an_empty_store_is_empty() {
    let table = Logs::new().to_table();
    assert!(table.measurements_index(Metrics::M1).is_empty());
    assert!(table.measurements_timestamp(Metrics::M14).is_empty());
    assert!(table.evaluations_index(Tasks::C1).is_empty());
    assert!(table.evaluations_timestamp(Tasks::P3).is_empty());
    assert!(table.duration_index().is_empty());
}

#[test]
fn errors_are_copied_whole() {
    let e = Error::TaskError(command::Error::Nack("no route".to_string()));
    assert_eq!(e.clone(), e);
    assert_eq!(Error::TimeoutError.clone(), Error::TimeoutError);
    assert_eq!(
        Error::wrong_dependency(),
        Error::EvaluationError("Wrong dependency task provided".to_string())
    );
    assert_eq!(
        Error::wrong_dependencies(),
        Error::EvaluationError("Wrong dependency tasks provided".to_string())
    );
}

#[test]
fn time_from_parts_counts_nanoseconds() {
    assert_eq!(Time::from_parts(0, 0).nanos, 0);
    assert_eq!(Time::from_parts(1, 5).nanos, 1_000_000_005);
    assert_eq!(Time::from_parts(-1, 999_999_999).nanos, -1);
    assert_eq!(
        Time::from_parts(i64::MAX, u32::MAX).nanos,
        i64::MAX as i128 * 1_000_000_000 + u32::MAX as i128
    );
    assert_eq!(Time::from_parts(i64::MIN, 0).nanos, i64::MIN as i128 * 1_000_000_000);
    assert!(at(1).earlier(&at(2)));
    assert!(!at(2).earlier(&at(2)));
}

#[test]
fn now_follows_the_clock() {
    let before = chrono::Utc::now();
    let t = Time::now();
    let after = chrono::Utc::now();
    let nanos = |d: chrono::DateTime<chrono::Utc>| {
        d.timestamp() as i128 * 1_000_000_000 + d.timestamp_subsec_nanos() as i128
    };
    assert!(nanos(before) <= t.nanos);
    assert!(t.nanos <= nanos(after));
}

#[test]
fn time_to_parts_undoes_from_parts() {
    assert_eq!(at(0).to_parts(), (0, 0));
    assert_eq!(at(1).to_parts(), (0, 1));
    assert_eq!(at(999_999_999).to_parts(), (0, 999_999_999));
    assert_eq!(at(1_000_000_000).to_parts(), (1, 0));
    assert_eq!(at(1_596_634_175_000_000_123).to_parts(), (1_596_634_175, 123));
    // Below the epoch the seconds are rounded down.
    assert_eq!(at(-1).to_parts(), (-1, 999_999_999));
    assert_eq!(at(-1_000_000_000).to_parts(), (-1, 0));
    assert_eq!(at(-1_000_000_001).to_parts(), (-2, 999_999_999));
    for (secs, nanos) in [(0i64, 0u32), (5, 7), (-5, 7), (i64::MAX, 999_999_999), (i64::MIN, 0), (-1, 999_999_999)] {
        assert_eq!(Time::from_parts(secs, nanos).to_parts(), (secs, nanos));
    }
    // Beyond what seconds can count.
    assert_eq!(at(i128::MAX).to_parts(), (i64::MAX, 999_999_999));
    assert_eq!(at(i128::MIN).to_parts(), (i64::MIN, 0));
    assert_eq!(at((i64::MAX as i128 + 1) * 1_000_000_000).to_parts(), (i64::MAX, 999_999_999));
    assert_eq!(at((i64::MAX as i128 + 1) * 1_000_000_000 - 1).to_parts(), (i64::MAX, 999_999_999));
    assert_eq!(at(i64::MIN as i128 * 1_000_000_000 - 1).to_parts(), (i64::MIN, 0));
    assert_eq!(at(i64::MIN as i128 * 1_000_000_000 + 1).to_parts(), (i64::MIN, 1));
}

#[test]
fn errors_are_reported_by_their_text() {
    assert_eq!(Error::TimeoutError.message(), "future has timed out");
    assert_eq!(Error::wrong_dependency().message(), "Wrong dependency task provided");
    assert_eq!(Error::wrong_dependencies().message(), "Wrong dependency tasks provided");
    assert_eq!(Error::EvaluationError(String::new()).message(), "");
    let inner = [
        command::Error::OutputError("a".to_string()),
        command::Error::NotFound("b".to_string()),
        command::Error::CanonizeError("c".to_string()),
        command::Error::Ambiguous("d".to_string()),
        command::Error::Nack("e".to_string()),
        command::Error::XmlParsingError("f".to_string()),
        command::Error::ParsingError("g".to_string()),
        command::Error::IoError("h".to_string()),
        command::Error::FromUtf8Error("i".to_string()),
    ];
    for (e, text) in inner.into_iter().zip(["a", "b", "c", "d", "e", "f", "g", "h", "i"]) {
        assert_eq!(e.message(), text);
        assert_eq!(Error::TaskError(e).message(), text);
    }
}

#[test]
fn now_is_an_instant_of_seconds_and_nanoseconds() {
    for _ in 0..100 {
        let t = Time::now();
        let (secs, subsec_nanos) = t.to_parts();
        assert_eq!(Time::from_parts(secs, subsec_nanos), t);
        assert!(subsec_nanos < 1_000_000_000);
    }
}
