use ndn_certification_agent::command;
use ndn_certification_agent::data::Tasks;
use ndn_certification_agent::properties::{p1, p2, p3, verdict};
use ndn_certification_agent::rules::{
    all_held_in_window, held_in_window, r1, r2, r3, r4, r5, r6, r7, r8, windowed_of_one,
    windowed_of_three, windowed_of_two, WINDOW,
};
use ndn_certification_agent::task::{Error, Evaluation, Logging, Logs};
use ndn_certification_agent::time::Time;

type Verdict = Result<Logging<Evaluation>, Error>;

const SECOND: i128 = 1_000_000_000;
const MINUTE: i128 = 60 * SECOND;
const NOW: i128 = 1_700_000_000 * SECOND;

fn at(nanos: i128) -> Time {
    Time { nanos }
}

/// The outcome of a task in the present cycle, with a store that holds the
/// given history of the task and the present verdict at its end.
fn outcome(task: Tasks, history: &[(i128, bool)], present: bool) -> Verdict {
    let mut logs = Logs::new();
    for (i, (instant, value)) in history.iter().enumerate() {
        logs.insert_evaluation(Evaluation::at(*value, i as u64, at(*instant)), task);
    }
    let evaluation = Evaluation::at(present, history.len() as u64, at(NOW - SECOND));
    logs.insert_evaluation(evaluation, task);
    Ok(Logging(evaluation, logs))
}

fn fresh(task: Tasks, present: bool) -> Verdict {
    outcome(task, &[], present)
}

fn value(r: Verdict) -> bool {
    r.unwrap().0.value
}

#[test]
fn window_is_two_minutes() {
    assert_eq!(WINDOW, 2 * MINUTE);
}

#[test]
fn held_needs_an_entry_in_the_window() {
    assert!(!held_in_window(&vec![], at(NOW), WINDOW));
    assert!(!held_in_window(&vec![(at(NOW - 5 * MINUTE), true)], at(NOW), WINDOW));
    assert!(held_in_window(&vec![(at(NOW - MINUTE), true)], at(NOW), WINDOW));
}

#[test]
fn held_counts_only_what_is_in_the_window() {
    // True five minutes ago, false thirty seconds ago: the false one counts.
    let series = vec![(at(NOW - 5 * MINUTE), true), (at(NOW - 30 * SECOND), false)];
    assert!(!held_in_window(&series, at(NOW), WINDOW));
    // False five minutes ago, true thirty seconds ago: the false one is out.
    let series = vec![(at(NOW - 5 * MINUTE), false), (at(NOW - 30 * SECOND), true)];
    assert!(held_in_window(&series, at(NOW), WINDOW));
    let series = vec![
        (at(NOW - 3 * MINUTE), false),
        (at(NOW - 90 * SECOND), true),
        (at(NOW - 60 * SECOND), false),
        (at(NOW - 30 * SECOND), true),
    ];
    assert!(!held_in_window(&series, at(NOW), WINDOW));
}

#[test]
fn window_includes_its_boundary() {
    assert!(held_in_window(&vec![(at(NOW - WINDOW), true)], at(NOW), WINDOW));
    assert!(!held_in_window(&vec![(at(NOW - WINDOW - 1), true)], at(NOW), WINDOW));
    assert!(!held_in_window(&vec![(at(NOW - WINDOW), false), (at(NOW), true)], at(NOW), WINDOW));
    assert!(held_in_window(&vec![(at(NOW - WINDOW - 1), false), (at(NOW), true)], at(NOW), WINDOW));
}

#[test]
fn window_scan_stops_at_the_first_entry_that_is_too_old() {
    // Going back from the latest entry, the old one ends the scan: the false
    // entry before it is never reached, though its instant lies in the window.
    let series =
        vec![(at(NOW - SECOND), false), (at(NOW - 10 * MINUTE), true), (at(NOW - SECOND), true)];
    assert!(held_in_window(&series, at(NOW), WINDOW));
}

#[test]
fn window_of_any_length_and_at_any_instant() {
    let series = vec![(at(-5), true), (at(0), false), (at(5), true)];
    assert!(held_in_window(&series, at(10), 5));
    assert!(!held_in_window(&series, at(10), 10));
    assert!(!held_in_window(&series, at(10), 4));
    assert!(held_in_window(&series, at(5), 0));
    assert!(!held_in_window(&series, at(6), 0));
    // A window that ends before it begins holds everything from its end on.
    assert!(held_in_window(&series, at(0), -5));
    assert!(!held_in_window(&series, at(10), -5));
    // The ends of the range.
    assert!(!held_in_window(&series, at(i128::MAX), 5));
    assert!(!held_in_window(&series, at(i128::MIN), 5));
    assert!(!held_in_window(&series, at(i128::MAX), i128::MAX));
    assert!(!held_in_window(&series, at(0), i128::MAX));
    assert!(!held_in_window(&series, at(i128::MIN), i128::MAX));
    assert!(!held_in_window(&series, at(i128::MAX), i128::MIN));
    assert!(held_in_window(&vec![(at(i128::MIN), true)], at(i128::MIN), i128::MAX));
    assert!(!held_in_window(&vec![(at(i128::MAX), true)], at(0), i128::MIN));
    assert!(held_in_window(&vec![(at(i128::MAX), true)], at(-1), i128::MIN));
    assert!(!held_in_window(&vec![(at(i128::MAX - 1), true)], at(-1), i128::MIN));
}

#[test]
fn all_held_asks_every_task() {
    let mut logs = Logs::new();
    logs.insert_evaluation(Evaluation::at(true, 0, at(NOW - SECOND)), Tasks::C9);
    logs.insert_evaluation(Evaluation::at(false, 0, at(NOW - SECOND)), Tasks::C10);
    assert!(all_held_in_window(&logs, &vec![], at(NOW), WINDOW));
    assert!(all_held_in_window(&logs, &vec![Tasks::C9], at(NOW), WINDOW));
    assert!(!all_held_in_window(&logs, &vec![Tasks::C10], at(NOW), WINDOW));
    assert!(!all_held_in_window(&logs, &vec![Tasks::C9, Tasks::C10], at(NOW), WINDOW));
    // Nothing recorded for a task is no success.
    assert!(!all_held_in_window(&logs, &vec![Tasks::C9, Tasks::C11], at(NOW), WINDOW));
}

#[test]
fn r1_is_true_if_all_three_are_true_now() {
    for a in [true, false] {
        for b in [true, false] {
            for c in [true, false] {
                let r = r1(&fresh(Tasks::C1, a), &fresh(Tasks::C2, b), &fresh(Tasks::C3, c), 0, at(NOW));
                assert_eq!(value(r), a && b && c);
            }
        }
    }
}

#[test]
fn r1_does_not_look_back() {
    // False verdicts in the window do not count: only the present ones do.
    let history = [(NOW - 30 * SECOND, false)];
    let r = r1(
        &outcome(Tasks::C1, &history, true),
        &outcome(Tasks::C2, &history, true),
        &outcome(Tasks::C3, &history, true),
        1,
        at(NOW),
    );
    let Logging(evaluation, logs) = r.unwrap();
    assert_eq!(evaluation, Evaluation { value: true, index: 1, timestamp: at(NOW) });
    assert_eq!(logs.evaluations_index(Tasks::R1), &vec![(1u64, true)]);
    assert_eq!(logs.evaluations_index(Tasks::C1), &vec![(0u64, false), (1u64, true)]);
    assert_eq!(logs.evaluations_index(Tasks::C2), &vec![(0u64, false), (1u64, true)]);
    assert_eq!(logs.evaluations_index(Tasks::C3), &vec![(0u64, false), (1u64, true)]);
}

#[test]
fn windowed_rules_look_back() {
    let good = [(NOW - 90 * SECOND, true), (NOW - 30 * SECOND, true)];
    let bad = [(NOW - 90 * SECOND, false), (NOW - 30 * SECOND, true)];
    let old_bad = [(NOW - 5 * MINUTE, false), (NOW - 30 * SECOND, true)];
    assert!(value(r3(&outcome(Tasks::C8, &good, true), 2, at(NOW))));
    assert!(!value(r3(&outcome(Tasks::C8, &bad, true), 2, at(NOW))));
    assert!(value(r3(&outcome(Tasks::C8, &old_bad, true), 2, at(NOW))));
    assert!(!value(r3(&outcome(Tasks::C8, &good, false), 2, at(NOW))));
    assert!(value(r6(&outcome(Tasks::C13, &good, true), 2, at(NOW))));
    assert!(!value(r6(&outcome(Tasks::C13, &bad, true), 2, at(NOW))));
    assert!(value(r7(&outcome(Tasks::C14, &good, true), 2, at(NOW))));
    assert!(!value(r7(&outcome(Tasks::C14, &bad, true), 2, at(NOW))));
    assert!(value(r8(&outcome(Tasks::C15, &good, true), 2, at(NOW))));
    assert!(!value(r8(&outcome(Tasks::C15, &bad, true), 2, at(NOW))));
}

#[test]
fn windowed_rule_over_five_minutes_old_true_and_recent_false_is_false() {
    let history = [(NOW - 5 * MINUTE, true)];
    let mut logs = Logs::new();
    logs.insert_evaluation(Evaluation::at(true, 0, at(history[0].0)), Tasks::C8);
    let present = Evaluation::at(false, 1, at(NOW - 30 * SECOND));
    logs.insert_evaluation(present, Tasks::C8);
    let r = r3(&Ok(Logging(present, logs)), 1, at(NOW)).unwrap();
    assert_eq!(r.0, Evaluation { value: false, index: 1, timestamp: at(NOW) });
}

#[test]
fn windowed_rule_over_nothing_recorded_is_false() {
    // The constraint was evaluated, but the store that came with it holds no
    // verdict of it in the window.
    let stale = Evaluation::at(true, 0, at(NOW - 10 * MINUTE));
    let mut logs = Logs::new();
    logs.insert_evaluation(stale, Tasks::C8);
    assert!(!value(r3(&Ok(Logging(stale, logs)), 1, at(NOW))));
    let none: Verdict = Ok(Logging(Evaluation::at(true, 1, at(NOW)), Logs::new()));
    assert!(!value(r3(&none, 1, at(NOW))));
    assert!(!value(windowed_of_one(Tasks::R3, &vec![Tasks::C8], &none, 1, at(NOW))));
    // Over no task at all there is nothing that could fail.
    assert!(value(windowed_of_one(Tasks::R3, &vec![], &none, 1, at(NOW))));
}

#[test]
fn rules_over_several_constraints_ask_each() {
    let good = [(NOW - 30 * SECOND, true)];
    let bad = [(NOW - 30 * SECOND, false)];
    let c = |task: Tasks, ok: bool| outcome(task, if ok { &good } else { &bad }, true);
    assert!(value(r2(&c(Tasks::C4, true), &c(Tasks::C5, true), &c(Tasks::C6, true), &c(Tasks::C7, true), 1, at(NOW))));
    assert!(!value(r2(&c(Tasks::C4, false), &c(Tasks::C5, true), &c(Tasks::C6, true), &c(Tasks::C7, true), 1, at(NOW))));
    assert!(!value(r2(&c(Tasks::C4, true), &c(Tasks::C5, false), &c(Tasks::C6, true), &c(Tasks::C7, true), 1, at(NOW))));
    assert!(!value(r2(&c(Tasks::C4, true), &c(Tasks::C5, true), &c(Tasks::C6, false), &c(Tasks::C7, true), 1, at(NOW))));
    assert!(!value(r2(&c(Tasks::C4, true), &c(Tasks::C5, true), &c(Tasks::C6, true), &c(Tasks::C7, false), 1, at(NOW))));
    assert!(value(r4(&c(Tasks::C9, true), &c(Tasks::C10, true), 1, at(NOW))));
    assert!(!value(r4(&c(Tasks::C9, false), &c(Tasks::C10, true), 1, at(NOW))));
    assert!(!value(r4(&c(Tasks::C9, true), &c(Tasks::C10, false), 1, at(NOW))));
    assert!(value(r5(&c(Tasks::C11, true), &c(Tasks::C12, true), 1, at(NOW))));
    assert!(!value(r5(&c(Tasks::C11, false), &c(Tasks::C12, true), 1, at(NOW))));
    assert!(!value(r5(&c(Tasks::C11, true), &c(Tasks::C12, false), 1, at(NOW))));
}

#[test]
fn rules_log_their_verdict_on_the_merged_stores() {
    let Logging(evaluation, logs) =
        r4(&fresh(Tasks::C9, true), &fresh(Tasks::C10, true), 0, at(NOW)).unwrap();
    assert_eq!(evaluation, Evaluation { value: true, index: 0, timestamp: at(NOW) });
    assert_eq!(logs.evaluations_index(Tasks::C9), &vec![(0u64, true)]);
    assert_eq!(logs.evaluations_index(Tasks::C10), &vec![(0u64, true)]);
    assert_eq!(logs.evaluations_index(Tasks::R4), &vec![(0u64, true)]);
    assert_eq!(logs.evaluations_timestamp(Tasks::R4), &vec![(at(NOW), true)]);
}

#[test]
fn rules_fail_with_the_first_failure() {
    let nack = Error::TaskError(command::Error::Nack("no route".to_string()));
    let ok = fresh(Tasks::C4, true);
    let timeout: Verdict = Err(Error::TimeoutError);
    let failed: Verdict = Err(nack.clone());
    assert_eq!(r3(&timeout, 0, at(NOW)), Err(Error::TimeoutError));
    assert_eq!(r4(&failed, &timeout, 0, at(NOW)), Err(nack.clone()));
    assert_eq!(r4(&ok, &timeout, 0, at(NOW)), Err(Error::TimeoutError));
    assert_eq!(r1(&ok, &failed, &timeout, 0, at(NOW)), Err(nack.clone()));
    assert_eq!(r1(&ok, &ok, &timeout, 0, at(NOW)), Err(Error::TimeoutError));
    assert_eq!(r2(&ok, &ok, &ok, &failed, 0, at(NOW)), Err(nack.clone()));
    assert_eq!(r2(&timeout, &ok, &ok, &failed, 0, at(NOW)), Err(Error::TimeoutError));
    assert_eq!(p1(&ok, &ok, &ok, &ok, &failed, 0, at(NOW)), Err(nack.clone()));
    assert_eq!(p1(&ok, &timeout, &ok, &ok, &failed, 0, at(NOW)), Err(Error::TimeoutError));
    assert_eq!(p2(&ok, &failed, 0, at(NOW)), Err(nack.clone()));
    assert_eq!(p3(&ok, &ok, &failed, 0, at(NOW)), Err(nack.clone()));
    assert_eq!(p3(&timeout, &ok, &failed, 0, at(NOW)), Err(Error::TimeoutError));
    assert_eq!(
        windowed_of_three(Tasks::P3, &vec![], &ok, &failed, &timeout, 0, at(NOW)),
        Err(nack.clone())
    );
    assert_eq!(windowed_of_two(Tasks::P2, &vec![], &failed, &timeout, 0, at(NOW)), Err(nack));
}

#[test]
fn properties_look_back_over_their_rules() {
    let good = [(NOW - 30 * SECOND, true)];
    let bad = [(NOW - 30 * SECOND, false)];
    let r = |task: Tasks, ok: bool| outcome(task, if ok { &good } else { &bad }, true);
    let rules = [Tasks::R1, Tasks::R2, Tasks::R3, Tasks::R4, Tasks::R5];
    let all = p1(&r(rules[0], true), &r(rules[1], true), &r(rules[2], true), &r(rules[3], true), &r(rules[4], true), 1, at(NOW));
    let Logging(evaluation, logs) = all.unwrap();
    assert_eq!(evaluation, Evaluation { value: true, index: 1, timestamp: at(NOW) });
    assert_eq!(logs.evaluations_index(Tasks::P1), &vec![(1u64, true)]);
    for task in rules {
        assert_eq!(logs.evaluations_index(task), &vec![(0u64, true), (1u64, true)]);
    }
    for failing in 0..5 {
        let rs: Vec<Verdict> = (0..5).map(|i| r(rules[i], i != failing)).collect();
        assert!(!value(p1(&rs[0], &rs[1], &rs[2], &rs[3], &rs[4], 1, at(NOW))));
    }
    assert!(value(p2(&r(Tasks::R6, true), &r(Tasks::R7, true), 1, at(NOW))));
    assert!(!value(p2(&r(Tasks::R6, false), &r(Tasks::R7, true), 1, at(NOW))));
    assert!(!value(p2(&r(Tasks::R6, true), &r(Tasks::R7, false), 1, at(NOW))));
    assert!(value(p3(&r(Tasks::R6, true), &r(Tasks::R7, true), &r(Tasks::R8, true), 1, at(NOW))));
    assert!(!value(p3(&r(Tasks::R6, false), &r(Tasks::R7, true), &r(Tasks::R8, true), 1, at(NOW))));
    assert!(!value(p3(&r(Tasks::R6, true), &r(Tasks::R7, false), &r(Tasks::R8, true), 1, at(NOW))));
    // The signature rule is what sets the third property apart from the second.
    assert!(!value(p3(&r(Tasks::R6, true), &r(Tasks::R7, true), &r(Tasks::R8, false), 1, at(NOW))));
    let Logging(_, logs) =
        p3(&r(Tasks::R6, true), &r(Tasks::R7, true), &r(Tasks::R8, true), 1, at(NOW)).unwrap();
    assert_eq!(logs.evaluations_index(Tasks::P3), &vec![(1u64, true)]);
    assert!(logs.evaluations_index(Tasks::P2).is_empty());
}

#[test]
fn verdict_is_the_conjunction_of_the_properties() {
    let p = |task: Tasks, ok: bool| fresh(task, ok);
    for a in [true, false] {
        for b in [true, false] {
            for c in [true, false] {
                assert_eq!(
                    verdict(&p(Tasks::P1, a), &p(Tasks::P2, b), &p(Tasks::P3, c)),
                    Some(a && b && c)
                );
            }
        }
    }
    let failed: Verdict = Err(Error::TimeoutError);
    assert_eq!(verdict(&failed, &p(Tasks::P2, true), &p(Tasks::P3, true)), None);
    assert_eq!(verdict(&p(Tasks::P1, true), &failed, &p(Tasks::P3, true)), None);
    assert_eq!(verdict(&p(Tasks::P1, false), &p(Tasks::P2, true), &failed), None);
}

#[test]
fn in_an_increasing_series_the_window_holds_all_that_is_recent() {
    let mut seed: u64 = 0x2545_f491_4f6c_dd1d;
    let mut next = || {
        seed ^= seed << 13;
        seed ^= seed >> 7;
        seed ^= seed << 17;
        seed
    };
    for _ in 0..500 {
        let mut series = Vec::new();
        let mut instant: i128 = 0;
        for _ in 0..(next() % 8) {
            instant += 1 + (next() % 50) as i128;
            series.push((at(instant), next() % 4 != 0));
        }
        let now = (next() % 300) as i128;
        let window = (next() % 120) as i128;
        let recent: Vec<bool> =
            series.iter().filter(|e| e.0.nanos >= now - window).map(|e| e.1).collect();
        let expected = !recent.is_empty() && recent.iter().all(|v| *v);
        assert_eq!(held_in_window(&series, at(now), window), expected, "{:?} {} {}", series, now, window);
    }
}
