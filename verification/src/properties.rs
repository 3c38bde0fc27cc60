//! The property stage: the judgments that certify the node.
//!
//! A property is to rules what a windowed rule is to constraints: it names
//! the rules it is over, and it holds exactly if every one of them held
//! throughout the window.

use vstd::prelude::*;
use crate::data::Tasks;
use crate::rules::{
    conclude_windowed, join_first, join_next, tasks_of_two, windowed, windowed_of_three,
    windowed_of_two,
};
use crate::task::{evaluated_view, Error, Evaluated, Evaluation, Logging};
use crate::time::Time;

verus! {

/// The cache is healthy: it is configured as the policy asks, it is used
/// well, and the traffic through the faces is in order.
pub fn p1(
    r1: &Result<Logging<Evaluation>, Error>,
    r2: &Result<Logging<Evaluation>, Error>,
    r3: &Result<Logging<Evaluation>, Error>,
    r4: &Result<Logging<Evaluation>, Error>,
    r5: &Result<Logging<Evaluation>, Error>,
    index: u64,
    now: Time,
) -> (r: Result<Logging<Evaluation>, Error>)
    ensures
        evaluated_view(r) == windowed(
            Tasks::P1,
            seq![Tasks::R1, Tasks::R2, Tasks::R3, Tasks::R4, Tasks::R5],
            seq![
                evaluated_view(*r1),
                evaluated_view(*r2),
                evaluated_view(*r3),
                evaluated_view(*r4),
                evaluated_view(*r5),
            ],
            index,
            now,
        ),
{
    let ghost d1 = seq![evaluated_view(*r1)];
    let ghost d2 = d1.push(evaluated_view(*r2));
    let ghost d3 = d2.push(evaluated_view(*r3));
    let ghost d4 = d3.push(evaluated_view(*r4));
    let ghost d5 = d4.push(evaluated_view(*r5));
    let logs = join_first(r1);
    let logs = join_next(logs, r2, Ghost(d1));
    let logs = join_next(logs, r3, Ghost(d2));
    let logs = join_next(logs, r4, Ghost(d3));
    let logs = join_next(logs, r5, Ghost(d4));
    let mut over = tasks_of_two(Tasks::R1, Tasks::R2);
    over.push(Tasks::R3);
    over.push(Tasks::R4);
    over.push(Tasks::R5);
    proof {
        assert(over@ =~= seq![Tasks::R1, Tasks::R2, Tasks::R3, Tasks::R4, Tasks::R5]);
        assert(d5 =~= seq![
            evaluated_view(*r1),
            evaluated_view(*r2),
            evaluated_view(*r3),
            evaluated_view(*r4),
            evaluated_view(*r5),
        ]);
    }
    conclude_windowed(Tasks::P1, &over, logs, index, now, Ghost(d5))
}

/// The certificates are healthy: all are valid, and a default is set.
pub fn p2(
    r6: &Result<Logging<Evaluation>, Error>,
    r7: &Result<Logging<Evaluation>, Error>,
    index: u64,
    now: Time,
) -> (r: Result<Logging<Evaluation>, Error>)
    ensures
        evaluated_view(r) == windowed(
            Tasks::P2,
            seq![Tasks::R6, Tasks::R7],
            seq![evaluated_view(*r6), evaluated_view(*r7)],
            index,
            now,
        ),
{
    windowed_of_two(Tasks::P2, &tasks_of_two(Tasks::R6, Tasks::R7), r6, r7, index, now)
}

/// What the node serves can be trusted: the certificates are healthy, and
/// the cache holds no packet with a bad signature.
pub fn p3(
    r6: &Result<Logging<Evaluation>, Error>,
    r7: &Result<Logging<Evaluation>, Error>,
    r8: &Result<Logging<Evaluation>, Error>,
    index: u64,
    now: Time,
) -> (r: Result<Logging<Evaluation>, Error>)
    ensures
        evaluated_view(r) == windowed(
            Tasks::P3,
            seq![Tasks::R6, Tasks::R7, Tasks::R8],
            seq![evaluated_view(*r6), evaluated_view(*r7), evaluated_view(*r8)],
            index,
            now,
        ),
{
    let mut over = tasks_of_two(Tasks::R6, Tasks::R7);
    over.push(Tasks::R8);
    assert(over@ =~= seq![Tasks::R6, Tasks::R7, Tasks::R8]);
    windowed_of_three(Tasks::P3, &over, r6, r7, r8, index, now)
}

/// The verdict of a cycle: whether every property holds. There is none
/// where a property could not be evaluated.
pub open spec fn cycle_verdict(p1: Evaluated, p2: Evaluated, p3: Evaluated) -> Option<bool> {
    match (p1, p2, p3) {
        (Ok((a, _)), Ok((b, _)), Ok((c, _))) => Some(a.value && b.value && c.value),
        _ => None,
    }
}

/// Tells whether every property holds in this cycle.
pub fn verdict(
    p1: &Result<Logging<Evaluation>, Error>,
    p2: &Result<Logging<Evaluation>, Error>,
    p3: &Result<Logging<Evaluation>, Error>,
) -> (r: Option<bool>)
    ensures
        r == cycle_verdict(evaluated_view(*p1), evaluated_view(*p2), evaluated_view(*p3)),
{
    match (p1, p2, p3) {
        (Ok(a), Ok(b), Ok(c)) => Some(a.0.value && b.0.value && c.0.value),
        _ => None,
    }
}

} // verus!
