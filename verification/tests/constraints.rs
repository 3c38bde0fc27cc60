use ndn_certification_agent::command;
use ndn_certification_agent::command::nfdc::PacketStatistics;
use ndn_certification_agent::constraints::{
    c1, c10, c11, c12, c13, c14, c15, c2, c3, c4, c5, c6, c7, c8, c9, deviation_of_five_below,
};
use ndn_certification_agent::data::{Data, Metrics, SignatureCounts, Tasks, Validity};
use ndn_certification_agent::double::Double;
use ndn_certification_agent::metrics::record;
use ndn_certification_agent::task::{Error, Evaluation, Logging, Logs, Measurement};
use ndn_certification_agent::time::Time;

type Outcome = Result<Logging<Measurement>, Error>;
type Verdict = Result<Logging<Evaluation>, Error>;

fn at(nanos: i128) -> Time {
    Time { nanos }
}

fn double(x: f64) -> Double {
    Double::from_bits(x.to_bits())
}

fn stats(min: u64, avg: f64, std_dev: f64) -> PacketStatistics {
    PacketStatistics { min, max: 1000, avg: double(avg), std_dev: double(std_dev) }
}

fn measured(data: Data) -> Outcome {
    let metric = data.metric();
    Ok(record(data, metric, 0, &Logs::new(), at(100)))
}

fn value(r: Verdict) -> bool {
    r.unwrap().0.value
}

fn wrong_one() -> Verdict {
    Err(Error::EvaluationError("Wrong dependency task provided".to_string()))
}

fn wrong_several() -> Verdict {
    Err(Error::EvaluationError("Wrong dependency tasks provided".to_string()))
}

type One = fn(&Outcome, u64, Time) -> Verdict;

fn constraints_of_one() -> Vec<(One, Tasks, Data)> {
    vec![
        (c1 as One, Tasks::C1, Data::M1("lru".to_string())),
        (c3 as One, Tasks::C3, Data::M2(5)),
        (c6 as One, Tasks::C6, Data::M4(stats(1, 30.0, 1.0))),
        (c7 as One, Tasks::C7, Data::M4(stats(1, 30.0, 1.0))),
        (c8 as One, Tasks::C8, Data::M6(vec![(1, 5)])),
        (c9 as One, Tasks::C9, Data::M7(vec![(1, stats(10, 5.0, 1.0))])),
        (c10 as One, Tasks::C10, Data::M9(vec![(1, stats(10, 5.0, 1.0))])),
        (c11 as One, Tasks::C11, Data::M8(vec![(1, stats(10, 5.0, 1.0))])),
        (c12 as One, Tasks::C12, Data::M10(vec![(1, stats(10, 5.0, 1.0))])),
        (c13 as One, Tasks::C13, Data::M11(vec![("/a".to_string(), validity(0, 1000))])),
        (c14 as One, Tasks::C14, Data::M12(Some("/a/KEY/1/self/2".to_string()))),
        (c15 as One, Tasks::C15, Data::M14(SignatureCounts { valid: 5, invalid: 0 })),
    ]
}

fn validity(not_before: i128, not_after: i128) -> Validity {
    Validity { not_before: at(not_before), not_after: at(not_after) }
}

#[test]
fn every_constraint_stamps_and_logs_its_verdict() {
    for (constraint, task, data) in constraints_of_one() {
        let metric = data.metric();
        let input = measured(data.clone());
        let Logging(evaluation, logs) = constraint(&input, 6, at(500)).unwrap();
        assert_eq!(evaluation, Evaluation { value: true, index: 6, timestamp: at(500) }, "{:?}", task);
        assert_eq!(logs.evaluations_index(task), &vec![(6u64, true)]);
        assert_eq!(logs.evaluations_timestamp(task), &vec![(at(500), true)]);
        // The store that came with the measurement is carried along.
        assert_eq!(logs.measurements_index(metric), &vec![(0u64, data)]);
        assert_eq!(logs, input.unwrap().1.with_evaluation(evaluation, task));
    }
}

#[test]
fn every_constraint_passes_a_failed_measurement_on() {
    for (constraint, _, _) in constraints_of_one() {
        assert_eq!(constraint(&Err(Error::TimeoutError), 0, at(1)), Err(Error::TimeoutError));
        let failure = Error::TaskError(command::Error::Ambiguous("two faces".to_string()));
        assert_eq!(constraint(&Err(failure.clone()), 0, at(1)), Err(failure));
    }
    assert_eq!(c5(&Err(Error::TimeoutError), 9, at(1)), Err(Error::TimeoutError));
    assert_eq!(c5(&Err(Error::TimeoutError), 0, at(1)), Err(Error::TimeoutError));
}

#[test]
fn every_constraint_reports_a_measurement_of_another_metric() {
    for (constraint, task, data) in constraints_of_one() {
        let other = if data.metric() == Metrics::M13 { Data::M2(1) } else { Data::M13(1) };
        assert_eq!(constraint(&measured(other), 0, at(1)), wrong_one(), "{:?}", task);
    }
}

#[test]
fn c1_asks_for_lru() {
    assert!(value(c1(&measured(Data::M1("lru".to_string())), 0, at(1))));
    assert!(!value(c1(&measured(Data::M1("LRU".to_string())), 0, at(1))));
    assert!(!value(c1(&measured(Data::M1("lru ".to_string())), 0, at(1))));
    assert!(!value(c1(&measured(Data::M1("priority_fifo".to_string())), 0, at(1))));
    assert!(!value(c1(&measured(Data::M1(String::new())), 0, at(1))));
}

#[test]
fn c2_compares_the_footprint_with_four_fifths_of_the_memory() {
    let c2_of = |entries: u64, bytes: u64| {
        value(c2(&measured(Data::M2(entries)), &measured(Data::M13(bytes)), 0, at(1)))
    };
    // 1000 entries take 8,192,000 bytes: 80% of 10,240,000.
    assert!(c2_of(1000, 10_240_000));
    assert!(!c2_of(1000, 10_239_999));
    assert!(c2_of(1000, 10_240_001));
    assert!(!c2_of(10_000, 100_000_000));
    assert!(c2_of(10_000, 102_400_000));
    assert!(c2_of(0, 0));
    assert!(!c2_of(1, 0));
    // One entry takes 8192 bytes: 80% of 10,240.
    assert!(c2_of(1, 10_240));
    assert!(!c2_of(1, 10_239));
    // Nothing wraps at the top of the range.
    assert!(!c2_of(u64::MAX, u64::MAX));
    assert!(c2_of(u64::MAX / 8192 / 2, u64::MAX));
}

#[test]
fn c2_merges_the_stores_of_both_measurements() {
    let Logging(evaluation, logs) =
        c2(&measured(Data::M2(1)), &measured(Data::M13(1_000_000)), 3, at(9)).unwrap();
    assert_eq!(evaluation, Evaluation { value: true, index: 3, timestamp: at(9) });
    assert_eq!(logs.measurements_index(Metrics::M2), &vec![(0u64, Data::M2(1))]);
    assert_eq!(logs.measurements_index(Metrics::M13), &vec![(0u64, Data::M13(1_000_000))]);
    assert_eq!(logs.evaluations_index(Tasks::C2), &vec![(3u64, true)]);
}

#[test]
fn constraints_of_two_fail_with_the_first_failure() {
    let nack = Error::TaskError(command::Error::Nack("no route".to_string()));
    let ok = measured(Data::M2(1));
    assert_eq!(c2(&Err(Error::TimeoutError), &Err(nack.clone()), 0, at(1)), Err(Error::TimeoutError));
    assert_eq!(c2(&Err(nack.clone()), &Err(Error::TimeoutError), 0, at(1)), Err(nack.clone()));
    assert_eq!(c2(&ok, &Err(nack.clone()), 0, at(1)), Err(nack.clone()));
    assert_eq!(c4(&Err(nack.clone()), &measured(Data::M3(1)), 0, at(1)), Err(nack.clone()));
    assert_eq!(c4(&ok, &Err(Error::TimeoutError), 0, at(1)), Err(Error::TimeoutError));
    // A failure comes before a wiring fault.
    assert_eq!(c2(&measured(Data::M3(1)), &Err(nack.clone()), 0, at(1)), Err(nack));
}

#[test]
fn constraints_of_two_report_wiring_faults() {
    assert_eq!(c2(&measured(Data::M13(1)), &measured(Data::M2(1)), 0, at(1)), wrong_several());
    assert_eq!(c2(&measured(Data::M2(1)), &measured(Data::M3(1)), 0, at(1)), wrong_several());
    assert_eq!(c4(&measured(Data::M3(1)), &measured(Data::M2(1)), 0, at(1)), wrong_several());
    assert_eq!(c4(&measured(Data::M2(1)), &measured(Data::M13(1)), 0, at(1)), wrong_several());
}

#[test]
fn c3_caps_the_capacity() {
    assert!(value(c3(&measured(Data::M2(0)), 0, at(1))));
    assert!(value(c3(&measured(Data::M2(10_000)), 0, at(1))));
    assert!(value(c3(&measured(Data::M2(100_000)), 0, at(1))));
    assert!(!value(c3(&measured(Data::M2(100_001)), 0, at(1))));
    assert!(!value(c3(&measured(Data::M2(u64::MAX)), 0, at(1))));
}

#[test]
fn c4_asks_for_four_fifths_of_the_capacity() {
    let c4_of = |entries: u64, used: u64| {
        value(c4(&measured(Data::M2(entries)), &measured(Data::M3(used)), 0, at(1)))
    };
    assert!(c4_of(10_000, 9_500));
    assert!(c4_of(10_000, 8_000));
    assert!(!c4_of(10_000, 7_999));
    assert!(c4_of(0, 0));
    // 80% of 3 entries is 2.4: 2 entries are not enough.
    assert!(c4_of(3, 3));
    assert!(!c4_of(3, 2));
    // 80% of 9 entries is 7.2.
    assert!(c4_of(9, 8));
    assert!(!c4_of(9, 7));
    // 80% of 5 entries is 4.
    assert!(c4_of(5, 4));
    assert!(!c4_of(5, 3));
    // Nothing wraps at the top of the range: 80% of the largest capacity is
    // 14,757,395,258,967,641,292.
    assert!(c4_of(u64::MAX, u64::MAX));
    assert!(!c4_of(u64::MAX, u64::MAX / 2));
    assert!(c4_of(u64::MAX, 14_757_395_258_967_641_292));
    assert!(!c4_of(u64::MAX, 14_757_395_258_967_641_291));
}

fn usage_history(values: &[u64]) -> Outcome {
    // The store as the last measurement leaves it: one entry per cycle.
    let mut logs = Logs::new();
    let mut last = None;
    for (index, value) in values.iter().enumerate() {
        let measurement = Measurement::at(Data::M3(*value), index as u64, at(1000 * index as i128));
        logs.insert_measurement(measurement.clone(), Metrics::M3);
        last = Some(measurement);
    }
    Ok(Logging(last.unwrap(), logs))
}

#[test]
fn c5_is_false_before_the_fifth_cycle_whatever_was_measured() {
    for index in 0u64..4 {
        // Steady values, even five of them in the store.
        assert!(!value(c5(&usage_history(&[7, 7, 7, 7, 7]), index, at(1))));
        assert!(!value(c5(&usage_history(&[7]), index, at(1))));
        assert!(!value(c5(&usage_history(&[0, u64::MAX, 0, u64::MAX, 0]), index, at(1))));
        // A wrong metric is reported, never taken for a false verdict.
        assert_eq!(c5(&measured(Data::M13(7)), index, at(1)), wrong_several());
        assert_eq!(c5(&measured(Data::M1("lru".to_string())), index, at(1)), wrong_several());
    }
    assert!(value(c5(&usage_history(&[7, 7, 7, 7, 7]), 4, at(1))));
}

#[test]
fn c5_reports_a_wrong_metric() {
    assert_eq!(c5(&measured(Data::M13(7)), 4, at(1)), wrong_several());
    assert_eq!(c5(&measured(Data::M2(7)), 100, at(1)), wrong_several());
}

#[test]
fn c5_is_false_with_fewer_than_five_measurements() {
    assert!(!value(c5(&usage_history(&[7, 7, 7, 7]), 4, at(1))));
    assert!(!value(c5(&usage_history(&[7]), 9, at(1))));
}

#[test]
fn c5_over_five_cycles_and_a_sixth() {
    // Mean 100, sample standard deviation sqrt(2.5), about 1.58.
    let five = usage_history(&[100, 101, 99, 102, 98]);
    let Logging(evaluation, logs) = c5(&five, 4, at(77)).unwrap();
    assert_eq!(evaluation, Evaluation { value: true, index: 4, timestamp: at(77) });
    assert_eq!(logs.evaluations_index(Tasks::C5), &vec![(4u64, true)]);
    // The sixth cycle moves the window to the five latest: 101, 99, 102, 98, 200.
    let six = usage_history(&[100, 101, 99, 102, 98, 200]);
    assert!(!value(c5(&six, 5, at(1))));
    // Had the window stayed on the first five, the verdict would be true.
    assert!(deviation_of_five_below(&[100, 101, 99, 102, 98], 5));
    assert!(!deviation_of_five_below(&[101, 99, 102, 98, 200], 5));
}

#[test]
fn c5_passes_over_what_is_no_usage_value() {
    let mut logs = Logs::new();
    for index in 0u64..5 {
        let data = if index == 2 { Data::M2(7) } else { Data::M3(7) };
        logs.insert_measurement(Measurement::at(data, index, at(index as i128)), Metrics::M3);
    }
    let input: Outcome = Ok(Logging(Measurement::at(Data::M3(7), 4, at(4)), logs));
    assert!(!value(c5(&input, 4, at(1))));
}

fn sample_deviation(xs: &[u64]) -> f64 {
    let n = xs.len() as f64;
    let mean = xs.iter().map(|x| *x as f64).sum::<f64>() / n;
    (xs.iter().map(|x| (*x as f64 - mean).powi(2)).sum::<f64>() / (n - 1.0)).sqrt()
}

#[test]
fn deviation_of_five_agrees_with_the_formula() {
    let cases: Vec<[u64; 5]> = vec![
        [0, 0, 0, 0, 0],
        [100, 101, 99, 102, 98],
        [101, 99, 102, 98, 200],
        [0, 0, 0, 0, 11],
        [0, 0, 0, 0, 12],
        [0, 5, 10, 5, 0],
        [1, 2, 3, 4, 5],
        [10, 20, 30, 40, 50],
        [0, 3, 6, 9, 12],
        [0, 4, 8, 12, 16],
        [7, 7, 7, 7, 29],
        [1000, 1004, 1008, 1012, 1016],
        [9500, 9490, 9510, 9505, 9495],
        [1_000_000, 1_000_003, 1_000_001, 1_000_002, 1_000_007],
    ];
    for xs in cases {
        for limit in [0u32, 1, 2, 3, 5, 7, 100] {
            let deviation = sample_deviation(&xs);
            // Keep clear of values where rounding could decide.
            assert!((deviation - limit as f64).abs() > 1e-9 || deviation == limit as f64);
            let expected = deviation < limit as f64;
            assert_eq!(deviation_of_five_below(&xs, limit), expected, "{:?} {}", xs, limit);
        }
    }
}

#[test]
fn deviation_of_five_at_the_limit() {
    // Squared deviations from the mean 5 sum to 100: variance 25, deviation 5, not below 5.
    assert!(!deviation_of_five_below(&[0, 0, 5, 10, 10], 5));
    assert!(deviation_of_five_below(&[0, 0, 5, 10, 10], 6));
    // A little less spread: below.
    assert!(deviation_of_five_below(&[0, 0, 5, 10, 9], 5));
    // Squared deviations sum to 10: variance 2.5.
    assert!(deviation_of_five_below(&[1, 2, 3, 4, 5], 2));
    assert!(!deviation_of_five_below(&[1, 2, 3, 4, 5], 1));
    assert!(deviation_of_five_below(&[5, 5, 5, 5, 5], 1));
    assert!(!deviation_of_five_below(&[5, 5, 5, 5, 5], 0));
}

#[test]
fn deviation_of_five_is_exact_at_the_top_of_the_range() {
    // Where doubles can no longer tell the values apart, the spread is still
    // that of 4, 3, 2, 1, 0: variance 2.5.
    let top = [u64::MAX, u64::MAX - 1, u64::MAX - 2, u64::MAX - 3, u64::MAX - 4];
    assert!(deviation_of_five_below(&top, 2));
    assert!(!deviation_of_five_below(&top, 1));
    assert!(deviation_of_five_below(&[u64::MAX; 5], 1));
    // The widest spread there is: variance 0.3 * (2^64 - 1)^2, deviation above 2^63.
    let widest = [0, u64::MAX, 0, u64::MAX, 0];
    assert!(!deviation_of_five_below(&widest, u32::MAX));
    assert!(!deviation_of_five_below(&widest, 0));
    // The largest limit.
    assert!(deviation_of_five_below(&[0, 1, 2, 3, 4], u32::MAX));
    assert!(deviation_of_five_below(&[0, 0, 0, 0, 4_000_000_000], u32::MAX));
    // Variance 0.2 * d^2 reaches (2^32 - 1)^2 at d = sqrt(5) * (2^32 - 1), about 9,603,838,833.
    assert!(deviation_of_five_below(&[0, 0, 0, 0, 9_603_838_832], u32::MAX));
    assert!(!deviation_of_five_below(&[0, 0, 0, 0, 9_603_838_833], u32::MAX));
}

#[test]
fn c6_and_c7_read_the_size_statistics() {
    let c6_of = |std_dev: f64| value(c6(&measured(Data::M4(stats(0, 30.0, std_dev))), 0, at(1)));
    assert!(c6_of(0.0));
    assert!(c6_of(4.99));
    assert!(c6_of(5.0));
    assert!(!c6_of(5.000001));
    assert!(!c6_of(6.96419));
    assert!(!c6_of(f64::NAN));
    assert!(!c6_of(f64::INFINITY));
    assert!(c6_of(-1.0));
    let c7_of = |avg: f64| value(c7(&measured(Data::M4(stats(0, avg, 1.0))), 0, at(1)));
    assert!(c7_of(20.0));
    assert!(c7_of(43.5));
    assert!(c7_of(f64::INFINITY));
    assert!(!c7_of(19.999999));
    assert!(!c7_of(0.0));
    assert!(!c7_of(-20.0));
    assert!(!c7_of(f64::NAN));
}

#[test]
fn c8_asks_every_face_to_stay_below_the_limit() {
    let c8_of = |pending: Vec<(u64, i128)>| value(c8(&measured(Data::M6(pending)), 0, at(1)));
    assert!(c8_of(vec![]));
    assert!(c8_of(vec![(1, 99), (2, 0), (3, -5)]));
    assert!(!c8_of(vec![(1, 100)]));
    assert!(!c8_of(vec![(1, 0), (2, 100), (3, 0)]));
    assert!(!c8_of(vec![(1, 0), (2, 0), (3, 101)]));
    assert!(c8_of(vec![(1, -2 * (u64::MAX as i128))]));
    assert!(!c8_of(vec![(1, u64::MAX as i128)]));
}

#[test]
fn c9_and_c11_ask_for_packets_of_ten_bytes() {
    let ok = vec![(1, stats(10, 5.0, 1.0)), (2, stats(812, 5.0, 1.0))];
    let bad = vec![(1, stats(10, 5.0, 1.0)), (2, stats(9, 5.0, 1.0))];
    assert!(value(c9(&measured(Data::M7(ok.clone())), 0, at(1))));
    assert!(!value(c9(&measured(Data::M7(bad.clone())), 0, at(1))));
    assert!(value(c9(&measured(Data::M7(vec![])), 0, at(1))));
    assert!(value(c11(&measured(Data::M8(ok)), 0, at(1))));
    assert!(!value(c11(&measured(Data::M8(bad)), 0, at(1))));
    assert!(value(c11(&measured(Data::M8(vec![(1, stats(u64::MAX, 5.0, 1.0))])), 0, at(1))));
    // The two do not read each other's metric.
    assert_eq!(c9(&measured(Data::M8(vec![])), 0, at(1)), wrong_one());
    assert_eq!(c11(&measured(Data::M7(vec![])), 0, at(1)), wrong_one());
}

#[test]
fn c10_and_c12_ask_for_means_strictly_between_three_and_twelve() {
    for avg in [3.000001, 5.44445, 11.999999] {
        assert!(value(c10(&measured(Data::M9(vec![(1, stats(5, avg, 1.0))])), 0, at(1))), "{}", avg);
        assert!(value(c12(&measured(Data::M10(vec![(1, stats(5, avg, 1.0))])), 0, at(1))), "{}", avg);
    }
    for avg in [3.0, 12.0, 0.0, -5.0, 2.999, 12.001, f64::INFINITY, f64::NEG_INFINITY] {
        assert!(!value(c10(&measured(Data::M9(vec![(1, stats(5, avg, 1.0))])), 0, at(1))), "{}", avg);
        assert!(!value(c12(&measured(Data::M10(vec![(1, stats(5, avg, 1.0))])), 0, at(1))), "{}", avg);
    }
    let mixed = vec![(1, stats(5, 5.0, 1.0)), (2, stats(5, 12.5, 1.0)), (3, stats(5, 6.0, 1.0))];
    assert!(!value(c10(&measured(Data::M9(mixed.clone())), 0, at(1))));
    assert!(!value(c12(&measured(Data::M10(mixed)), 0, at(1))));
    assert_eq!(c10(&measured(Data::M10(vec![])), 0, at(1)), wrong_one());
    assert_eq!(c12(&measured(Data::M9(vec![])), 0, at(1)), wrong_one());
}

#[test]
fn c10_and_c12_pass_over_faces_without_a_mean() {
    let silent = |id: u64| (id, stats(u64::MAX, f64::NAN, 0.0));
    let negative_nan = |id: u64| (id, stats(u64::MAX, -f64::NAN, 0.0));
    // Only faces without traffic: nothing offends.
    let only_nan = vec![silent(1), negative_nan(2), silent(3)];
    assert!(value(c10(&measured(Data::M9(only_nan.clone())), 0, at(1))));
    assert!(value(c12(&measured(Data::M10(only_nan)), 0, at(1))));
    assert!(value(c10(&measured(Data::M9(vec![])), 0, at(1))));
    // A face without traffic does not save one that offends, nor spoil one that does not.
    let with_good = vec![silent(1), (2, stats(5, 5.44445, 1.0))];
    let with_bad = vec![silent(1), (2, stats(5, 2.0, 1.0))];
    assert!(value(c10(&measured(Data::M9(with_good.clone())), 0, at(1))));
    assert!(!value(c10(&measured(Data::M9(with_bad.clone())), 0, at(1))));
    assert!(value(c12(&measured(Data::M10(with_good)), 0, at(1))));
    assert!(!value(c12(&measured(Data::M10(with_bad)), 0, at(1))));
}

#[test]
fn c13_asks_every_certificate_to_be_valid_now() {
    let c13_at = |validities: Vec<(String, Validity)>, now: i128| {
        value(c13(&measured(Data::M11(validities)), 0, at(now)))
    };
    let both = vec![("/a".to_string(), validity(100, 200)), ("/b".to_string(), validity(150, 300))];
    assert!(c13_at(both.clone(), 151));
    assert!(c13_at(both.clone(), 199));
    // The bounds themselves are outside.
    assert!(!c13_at(both.clone(), 150));
    assert!(!c13_at(both.clone(), 200));
    assert!(!c13_at(both.clone(), 99));
    assert!(!c13_at(both, 301));
    assert!(c13_at(vec![], 0));
    assert!(!c13_at(vec![("/a".to_string(), validity(200, 100))], 150));
}

#[test]
fn c14_asks_for_a_default_certificate() {
    assert!(value(c14(&measured(Data::M12(Some("/a/KEY/1/self/2".to_string()))), 0, at(1))));
    assert!(value(c14(&measured(Data::M12(Some(String::new()))), 0, at(1))));
    assert!(!value(c14(&measured(Data::M12(None)), 0, at(1))));
}

#[test]
fn c15_asks_for_no_bad_signature() {
    let c15_of = |valid: u64, invalid: u64| {
        value(c15(&measured(Data::M14(SignatureCounts { valid, invalid })), 0, at(1)))
    };
    assert!(c15_of(0, 0));
    assert!(c15_of(1000, 0));
    assert!(!c15_of(1000, 1));
    assert!(!c15_of(0, u64::MAX));
}
