//! The rule stage: verdicts over the history of constraints.
//!
//! A rule names the constraints it is over and is handed the outcome of each
//! in the present cycle. The stores that came with them are merged, and the
//! rule is judged on the merged store: either on the verdicts of the present
//! cycle alone, or on every verdict recorded for each named constraint in a
//! window of time that ends at the instant of the evaluation. A constraint
//! that failed fails the rule with the same error, the first in the order
//! of the arguments.

use vstd::prelude::*;
use crate::constraints::evaluated;
use crate::data::Tasks;
use crate::series::{
    increasing, lemma_newer_start, lemma_newer_start_unique, newer_start, series_view, Stamp,
};
use crate::task::{
    evaluated_view, Error, ErrorView, Evaluated, Evaluation, Logging, Logs, LogsView,
};
use crate::time::Time;

verus! {

/// The length of the window that rules look back over: two minutes, in
/// nanoseconds.
pub const WINDOW: i128 = 120_000_000_000;

/// The entries of a series by instant that lie in the window of length
/// `window` that ends at `now`: going back from the latest entry, all
/// entries up to the first that is older than `now - window`. An entry at
/// `now - window` itself lies in the window.
pub open spec fn in_window(series: Seq<(Time, bool)>, now: Time, window: int) -> Seq<
    (Time, bool),
> {
    series.subrange(newer_start(series, now.nanos - window - 1), series.len() as int)
}

/// Whether a task held throughout the window: at least one of its verdicts
/// lies in the window, and every verdict in the window is true.
pub open spec fn held(series: Seq<(Time, bool)>, now: Time, window: int) -> bool {
    let recent = in_window(series, now, window);
    recent.len() > 0 && forall|i: int| 0 <= i < recent.len() ==> (#[trigger] recent[i]).1
}

/// Whether every task of `over` held throughout the window.
pub open spec fn all_held(logs: LogsView, over: Seq<Tasks>, now: Time, window: int) -> bool {
    forall|i: int|
        0 <= i < over.len() ==> held(logs.evaluations_timestamp[#[trigger] over[i]], now, window)
}

/// Whether there is a verdict not older than `now - window`, and every such
/// verdict is true.
pub open spec fn all_recent_true(series: Seq<(Time, bool)>, now: Time, window: int) -> bool {
    &&& exists|i: int| 0 <= i < series.len() && (#[trigger] series[i]).0.nanos >= now.nanos - window
    &&& forall|i: int|
        0 <= i < series.len() && (#[trigger] series[i]).0.nanos >= now.nanos - window
            ==> series[i].1
}

/// In a series whose instants increase, as they do in every series of a
/// store, the window holds exactly the verdicts that are not older than
/// `now - window`: a task held throughout the window exactly if there is
/// such a verdict and every such verdict is true.
pub proof fn lemma_window_holds_all_recent(series: Seq<(Time, bool)>, now: Time, window: int)
    requires
        increasing(series),
    ensures
        held(series, now, window) == all_recent_true(series, now, window),
{
    let bound = now.nanos - window - 1;
    lemma_newer_start(series, bound);
    let start = newer_start(series, bound);
    let recent = in_window(series, now, window);
    assert forall|i: int| 0 <= i < series.len() implies ((#[trigger] series[i]).0.nanos
        >= now.nanos - window <==> start <= i) by {
        if i < start {
            assert(series[start - 1].0.rank() <= bound);
            if i < start - 1 {
                assert(series[i].0.rank() < series[start - 1].0.rank());
            }
        } else {
            assert(series[i].0.rank() > bound);
        }
    }
    if held(series, now, window) {
        assert(recent[0] == series[start]);
        assert forall|i: int|
            0 <= i < series.len() && (#[trigger] series[i]).0.nanos >= now.nanos - window
                implies series[i].1 by {
            assert(recent[i - start] == series[i]);
        }
    }
    if all_recent_true(series, now, window) {
        let k = choose|k: int|
            0 <= k < series.len() && (#[trigger] series[k]).0.nanos >= now.nanos - window;
        assert(start <= k);
        assert forall|i: int| 0 <= i < recent.len() implies (#[trigger] recent[i]).1 by {
            assert(recent[i] == series[start + i]);
        }
    }
}

/// A task with no verdict in the window did not hold: nothing recorded is
/// not taken for success.
pub proof fn lemma_empty_window_fails(series: Seq<(Time, bool)>, now: Time, window: int)
    requires
        in_window(series, now, window).len() == 0,
    ensures
        !held(series, now, window),
{
}

/// A series whose latest entry is older than the window, or that has no
/// entry, has nothing in the window.
pub proof fn lemma_stale_series_has_empty_window(series: Seq<(Time, bool)>, now: Time, window: int)
    requires
        series.len() == 0 || series.last().0.nanos < now.nanos - window,
    ensures
        in_window(series, now, window).len() == 0,
{
}

/// A rule over a task with no verdict in the window is false, whatever the
/// other tasks it is over.
pub proof fn lemma_rule_fails_on_empty_window(
    logs: LogsView,
    over: Seq<Tasks>,
    which: int,
    now: Time,
    window: int,
)
    requires
        0 <= which < over.len(),
        in_window(logs.evaluations_timestamp[over[which]], now, window).len() == 0,
    ensures
        !all_held(logs, over, now, window),
{
    lemma_empty_window_fails(logs.evaluations_timestamp[over[which]], now, window);
}

/// The stores that came with the outcomes, merged in their order, or the
/// first error among the outcomes.
pub open spec fn joined(deps: Seq<Evaluated>) -> Result<LogsView, ErrorView>
    decreases deps.len(),
{
    if deps.len() == 0 {
        Ok(LogsView::empty())
    } else if deps.len() == 1 {
        match deps[0] {
            Err(e) => Err(e),
            Ok((_, logs)) => Ok(logs),
        }
    } else {
        match joined(deps.drop_last()) {
            Err(e) => Err(e),
            Ok(merged) => match deps.last() {
                Err(e) => Err(e),
                Ok((_, logs)) => Ok(merged.merge(logs)),
            },
        }
    }
}

/// Whether every outcome is a true verdict.
pub open spec fn all_true(deps: Seq<Evaluated>) -> bool {
    forall|i: int| 0 <= i < deps.len() ==> (#[trigger] deps[i]) is Ok && deps[i]->Ok_0.0.value
}

/// The outcome of a rule that is true exactly if every one of its
/// constraints is true in the present cycle.
pub open spec fn instantaneous(task: Tasks, deps: Seq<Evaluated>, index: u64, now: Time)
    -> Evaluated {
    match joined(deps) {
        Err(e) => Err(e),
        Ok(logs) => Ok(evaluated(all_true(deps), task, index, logs, now)),
    }
}

/// The outcome of a rule that is true exactly if every task of `over` held
/// throughout the window that ends at `now`.
pub open spec fn windowed(
    task: Tasks,
    over: Seq<Tasks>,
    deps: Seq<Evaluated>,
    index: u64,
    now: Time,
) -> Evaluated {
    match joined(deps) {
        Err(e) => Err(e),
        Ok(logs) => Ok(evaluated(all_held(logs, over, now, WINDOW as int), task, index, logs, now)),
    }
}

/// Tells whether a task held throughout the window of length `window` that
/// ends at `now`.
pub fn held_in_window(series: &Vec<(Time, bool)>, now: Time, window: i128) -> (r: bool)
    ensures
        r == held(series_view(series@), now, window as int),
{
    let ghost view = series_view(series@);
    let ghost bound = now.nanos - window - 1;
    if window < 0 && now.nanos > i128::MAX + window {
        proof {
            if view.len() > 0 {
                assert(view.last().0 == series@.last().0);
            }
            lemma_newer_start_unique(view, bound, view.len() as int);
        }
        return false;
    }
    let unbounded = window >= 0 && now.nanos < i128::MIN + window;
    let cutoff: i128 = if unbounded {
        i128::MIN
    } else {
        now.nanos - window
    };
    let mut start: usize = series.len();
    let mut all = true;
    while start > 0 && series[start - 1].0.nanos >= cutoff
        invariant
            0 <= start <= series.len(),
            view == series_view(series@),
            bound == now.nanos - window - 1,
            unbounded ==> bound < i128::MIN,
            !unbounded ==> cutoff == bound + 1,
            forall|j: int| start <= j < view.len() ==> (#[trigger] view[j]).0.nanos > bound,
            all == forall|j: int| start <= j < view.len() ==> (#[trigger] view[j]).1,
        decreases start,
    {
        assert(view[start - 1] == series@[start - 1]);
        if !series[start - 1].1 {
            all = false;
        }
        start -= 1;
    }
    proof {
        if start > 0 {
            assert(view[start - 1].0 == series@[start - 1].0);
        }
        lemma_newer_start_unique(view, bound, start as int);
        let recent = in_window(view, now, window as int);
        assert forall|i: int| 0 <= i < recent.len() implies (#[trigger] recent[i]) == view[start
            + i] by {}
        if all {
            assert forall|i: int| 0 <= i < recent.len() implies (#[trigger] recent[i]).1 by {
                assert(view[start + i].1);
            }
        } else {
            let j = choose|j: int| start <= j < view.len() && !(#[trigger] view[j]).1;
            assert(recent[j - start] == view[j]);
        }
    }
    start < series.len() && all
}

/// Tells whether every task of `over` held throughout the window.
pub fn all_held_in_window(logs: &Logs, over: &Vec<Tasks>, now: Time, window: i128) -> (r: bool)
    ensures
        r == all_held(logs@, over@, now, window as int),
{
    let mut i: usize = 0;
    while i < over.len()
        invariant
            i <= over.len(),
            forall|j: int|
                0 <= j < i ==> held(
                    logs@.evaluations_timestamp[#[trigger] over@[j]],
                    now,
                    window as int,
                ),
        decreases over.len() - i,
    {
        if !held_in_window(logs.evaluations_timestamp(over[i]), now, window) {
            return false;
        }
        i += 1;
    }
    true
}

/// The store of the first outcome, or its error.
pub(crate) fn join_first(first: &Result<Logging<Evaluation>, Error>) -> (r: Result<Logs, Error>)
    ensures
        match joined(seq![evaluated_view(*first)]) {
            Ok(logs) => r is Ok && r->Ok_0@ == logs,
            Err(e) => r is Err && r->Err_0@ == e,
        },
{
    match first {
        Err(e) => Err(e.clone()),
        Ok(Logging(_, logs)) => Ok(logs.clone()),
    }
}

/// What is joined so far, with the store of one more outcome merged in, or
/// the first error.
pub(crate) fn join_next(
    so_far: Result<Logs, Error>,
    next: &Result<Logging<Evaluation>, Error>,
    Ghost(deps): Ghost<Seq<Evaluated>>,
) -> (r: Result<Logs, Error>)
    requires
        deps.len() > 0,
        match joined(deps) {
            Ok(logs) => so_far is Ok && so_far->Ok_0@ == logs,
            Err(e) => so_far is Err && so_far->Err_0@ == e,
        },
    ensures
        match joined(deps.push(evaluated_view(*next))) {
            Ok(logs) => r is Ok && r->Ok_0@ == logs,
            Err(e) => r is Err && r->Err_0@ == e,
        },
{
    proof {
        assert(deps.push(evaluated_view(*next)).drop_last() =~= deps);
    }
    match so_far {
        Err(e) => Err(e),
        Ok(mut merged) => match next {
            Err(e) => Err(e.clone()),
            Ok(Logging(_, logs)) => {
                merged.mut_merge(logs);
                Ok(merged)
            },
        },
    }
}

/// Judges a windowed rule on what was joined.
pub(crate) fn conclude_windowed(
    task: Tasks,
    over: &Vec<Tasks>,
    joined_logs: Result<Logs, Error>,
    index: u64,
    now: Time,
    Ghost(deps): Ghost<Seq<Evaluated>>,
) -> (r: Result<Logging<Evaluation>, Error>)
    requires
        match joined(deps) {
            Ok(logs) => joined_logs is Ok && joined_logs->Ok_0@ == logs,
            Err(e) => joined_logs is Err && joined_logs->Err_0@ == e,
        },
    ensures
        evaluated_view(r) == windowed(task, over@, deps, index, now),
{
    match joined_logs {
        Err(e) => Err(e),
        Ok(mut logs) => {
            let value = all_held_in_window(&logs, over, now, WINDOW);
            let evaluation = Evaluation::at(value, index, now);
            logs.insert_evaluation(evaluation, task);
            Ok(Logging(evaluation, logs))
        },
    }
}

/// The outcome of a windowed rule over one dependency.
pub fn windowed_of_one(
    task: Tasks,
    over: &Vec<Tasks>,
    a: &Result<Logging<Evaluation>, Error>,
    index: u64,
    now: Time,
) -> (r: Result<Logging<Evaluation>, Error>)
    ensures
        evaluated_view(r) == windowed(task, over@, seq![evaluated_view(*a)], index, now),
{
    let ghost deps = seq![evaluated_view(*a)];
    let logs = join_first(a);
    conclude_windowed(task, over, logs, index, now, Ghost(deps))
}

/// The outcome of a windowed rule over two dependencies.
pub fn windowed_of_two(
    task: Tasks,
    over: &Vec<Tasks>,
    a: &Result<Logging<Evaluation>, Error>,
    b: &Result<Logging<Evaluation>, Error>,
    index: u64,
    now: Time,
) -> (r: Result<Logging<Evaluation>, Error>)
    ensures
        evaluated_view(r) == windowed(
            task,
            over@,
            seq![evaluated_view(*a), evaluated_view(*b)],
            index,
            now,
        ),
{
    let ghost d1 = seq![evaluated_view(*a)];
    let ghost d2 = seq![evaluated_view(*a), evaluated_view(*b)];
    let logs = join_first(a);
    let logs = join_next(logs, b, Ghost(d1));
    assert(d1.push(evaluated_view(*b)) =~= d2);
    conclude_windowed(task, over, logs, index, now, Ghost(d2))
}

/// The outcome of a windowed rule over three dependencies.
pub fn windowed_of_three(
    task: Tasks,
    over: &Vec<Tasks>,
    a: &Result<Logging<Evaluation>, Error>,
    b: &Result<Logging<Evaluation>, Error>,
    c: &Result<Logging<Evaluation>, Error>,
    index: u64,
    now: Time,
) -> (r: Result<Logging<Evaluation>, Error>)
    ensures
        evaluated_view(r) == windowed(
            task,
            over@,
            seq![evaluated_view(*a), evaluated_view(*b), evaluated_view(*c)],
            index,
            now,
        ),
{
    let ghost d1 = seq![evaluated_view(*a)];
    let ghost d2 = seq![evaluated_view(*a), evaluated_view(*b)];
    let ghost d3 = seq![evaluated_view(*a), evaluated_view(*b), evaluated_view(*c)];
    let logs = join_first(a);
    let logs = join_next(logs, b, Ghost(d1));
    assert(d1.push(evaluated_view(*b)) =~= d2);
    let logs = join_next(logs, c, Ghost(d2));
    assert(d2.push(evaluated_view(*c)) =~= d3);
    conclude_windowed(task, over, logs, index, now, Ghost(d3))
}

/// The cache is configured as the policy asks: its replacement policy, its
/// footprint in memory and its capacity are all in order in this cycle.
pub fn r1(
    c1: &Result<Logging<Evaluation>, Error>,
    c2: &Result<Logging<Evaluation>, Error>,
    c3: &Result<Logging<Evaluation>, Error>,
    index: u64,
    now: Time,
) -> (r: Result<Logging<Evaluation>, Error>)
    ensures
        evaluated_view(r) == instantaneous(
            Tasks::R1,
            seq![evaluated_view(*c1), evaluated_view(*c2), evaluated_view(*c3)],
            index,
            now,
        ),
{
    let ghost d1 = seq![evaluated_view(*c1)];
    let ghost d2 = seq![evaluated_view(*c1), evaluated_view(*c2)];
    let ghost d3 = seq![evaluated_view(*c1), evaluated_view(*c2), evaluated_view(*c3)];
    let logs = join_first(c1);
    let logs = join_next(logs, c2, Ghost(d1));
    assert(d1.push(evaluated_view(*c2)) =~= d2);
    let logs = join_next(logs, c3, Ghost(d2));
    assert(d2.push(evaluated_view(*c3)) =~= d3);
    match logs {
        Err(e) => Err(e),
        Ok(mut logs) => {
            proof {
                lemma_joined_all_ok(d3);
                assert(d3[0] is Ok && d3[1] is Ok && d3[2] is Ok);
            }
            let value = match (c1, c2, c3) {
                (Ok(a), Ok(b), Ok(c)) => a.0.value && b.0.value && c.0.value,
                _ => false,
            };
            let evaluation = Evaluation::at(value, index, now);
            logs.insert_evaluation(evaluation, Tasks::R1);
            Ok(Logging(evaluation, logs))
        },
    }
}

/// Where the stores could be joined, no outcome is an error.
proof fn lemma_joined_all_ok(deps: Seq<Evaluated>)
    requires
        joined(deps) is Ok,
    ensures
        forall|i: int| 0 <= i < deps.len() ==> (#[trigger] deps[i]) is Ok,
    decreases deps.len(),
{
    if deps.len() > 1 {
        lemma_joined_all_ok(deps.drop_last());
        assert forall|i: int| 0 <= i < deps.len() implies (#[trigger] deps[i]) is Ok by {
            if i < deps.len() - 1 {
                assert(deps.drop_last()[i] == deps[i]);
            }
        }
    }
}

/// A list of the given tasks.
fn tasks_of_one(a: Tasks) -> (r: Vec<Tasks>)
    ensures
        r@ == seq![a],
{
    let mut r: Vec<Tasks> = Vec::new();
    r.push(a);
    assert(r@ =~= seq![a]);
    r
}

/// A list of the given tasks.
pub(crate) fn tasks_of_two(a: Tasks, b: Tasks) -> (r: Vec<Tasks>)
    ensures
        r@ == seq![a, b],
{
    let mut r: Vec<Tasks> = Vec::new();
    r.push(a);
    r.push(b);
    assert(r@ =~= seq![a, b]);
    r
}

/// The cache is used well, and has been for the whole window: it is filled,
/// its usage is steady, and the entries it holds are of fitting sizes.
pub fn r2(
    c4: &Result<Logging<Evaluation>, Error>,
    c5: &Result<Logging<Evaluation>, Error>,
    c6: &Result<Logging<Evaluation>, Error>,
    c7: &Result<Logging<Evaluation>, Error>,
    index: u64,
    now: Time,
) -> (r: Result<Logging<Evaluation>, Error>)
    ensures
        evaluated_view(r) == windowed(
            Tasks::R2,
            seq![Tasks::C4, Tasks::C5, Tasks::C6, Tasks::C7],
            seq![
                evaluated_view(*c4),
                evaluated_view(*c5),
                evaluated_view(*c6),
                evaluated_view(*c7),
            ],
            index,
            now,
        ),
{
    let ghost d1 = seq![evaluated_view(*c4)];
    let ghost d2 = seq![evaluated_view(*c4), evaluated_view(*c5)];
    let ghost d3 = seq![evaluated_view(*c4), evaluated_view(*c5), evaluated_view(*c6)];
    let ghost d4 = seq![
        evaluated_view(*c4),
        evaluated_view(*c5),
        evaluated_view(*c6),
        evaluated_view(*c7),
    ];
    let logs = join_first(c4);
    let logs = join_next(logs, c5, Ghost(d1));
    assert(d1.push(evaluated_view(*c5)) =~= d2);
    let logs = join_next(logs, c6, Ghost(d2));
    assert(d2.push(evaluated_view(*c6)) =~= d3);
    let logs = join_next(logs, c7, Ghost(d3));
    assert(d3.push(evaluated_view(*c7)) =~= d4);
    let mut over = tasks_of_two(Tasks::C4, Tasks::C5);
    over.push(Tasks::C6);
    over.push(Tasks::C7);
    assert(over@ =~= seq![Tasks::C4, Tasks::C5, Tasks::C6, Tasks::C7]);
    conclude_windowed(Tasks::R2, &over, logs, index, now, Ghost(d4))
}

/// No face has been swamped by pending interests in the window.
pub fn r3(c8: &Result<Logging<Evaluation>, Error>, index: u64, now: Time) -> (r: Result<
    Logging<Evaluation>,
    Error,
>)
    ensures
        evaluated_view(r) == windowed(
            Tasks::R3,
            seq![Tasks::C8],
            seq![evaluated_view(*c8)],
            index,
            now,
        ),
{
    windowed_of_one(Tasks::R3, &tasks_of_one(Tasks::C8), c8, index, now)
}

/// The interests that came in have been well-formed in the window, by size
/// and by component count.
pub fn r4(
    c9: &Result<Logging<Evaluation>, Error>,
    c10: &Result<Logging<Evaluation>, Error>,
    index: u64,
    now: Time,
) -> (r: Result<Logging<Evaluation>, Error>)
    ensures
        evaluated_view(r) == windowed(
            Tasks::R4,
            seq![Tasks::C9, Tasks::C10],
            seq![evaluated_view(*c9), evaluated_view(*c10)],
            index,
            now,
        ),
{
    windowed_of_two(Tasks::R4, &tasks_of_two(Tasks::C9, Tasks::C10), c9, c10, index, now)
}

/// The data packets that went out have been well-formed in the window, by
/// size and by component count.
pub fn r5(
    c11: &Result<Logging<Evaluation>, Error>,
    c12: &Result<Logging<Evaluation>, Error>,
    index: u64,
    now: Time,
) -> (r: Result<Logging<Evaluation>, Error>)
    ensures
        evaluated_view(r) == windowed(
            Tasks::R5,
            seq![Tasks::C11, Tasks::C12],
            seq![evaluated_view(*c11), evaluated_view(*c12)],
            index,
            now,
        ),
{
    windowed_of_two(Tasks::R5, &tasks_of_two(Tasks::C11, Tasks::C12), c11, c12, index, now)
}

/// Every certificate has been valid throughout the window.
pub fn r6(c13: &Result<Logging<Evaluation>, Error>, index: u64, now: Time) -> (r: Result<
    Logging<Evaluation>,
    Error,
>)
    ensures
        evaluated_view(r) == windowed(
            Tasks::R6,
            seq![Tasks::C13],
            seq![evaluated_view(*c13)],
            index,
            now,
        ),
{
    windowed_of_one(Tasks::R6, &tasks_of_one(Tasks::C13), c13, index, now)
}

/// A default certificate has been set throughout the window.
pub fn r7(c14: &Result<Logging<Evaluation>, Error>, index: u64, now: Time) -> (r: Result<
    Logging<Evaluation>,
    Error,
>)
    ensures
        evaluated_view(r) == windowed(
            Tasks::R7,
            seq![Tasks::C14],
            seq![evaluated_view(*c14)],
            index,
            now,
        ),
{
    windowed_of_one(Tasks::R7, &tasks_of_one(Tasks::C14), c14, index, now)
}

/// The cache has held no packet with a bad signature throughout the window.
pub fn r8(c15: &Result<Logging<Evaluation>, Error>, index: u64, now: Time) -> (r: Result<
    Logging<Evaluation>,
    Error,
>)
    ensures
        evaluated_view(r) == windowed(
            Tasks::R8,
            seq![Tasks::C15],
            seq![evaluated_view(*c15)],
            index,
            now,
        ),
{
    windowed_of_one(Tasks::R8, &tasks_of_one(Tasks::C15), c15, index, now)
}

} // verus!
