use ndn_certification_agent::orchestrator::{Action, Event, Orchestrator, Phase};

fn all_events() -> [Event; 5] {
    [Event::Tick, Event::Fetched, Event::Evaluated, Event::Merged, Event::Rested]
}

#[test]
fn the_loop_starts_idle_at_cycle_zero() {
    assert_eq!(Orchestrator::new(), Orchestrator { phase: Phase::Idle, index: 0 });
}

#[test]
fn a_round_goes_through_every_phase() {
    let mut o = Orchestrator::new();
    for index in 0u64..3 {
        assert_eq!(o.step(Event::Tick), Action::Fetch);
        assert_eq!(o, Orchestrator { phase: Phase::Snapshotting, index });
        assert_eq!(o.step(Event::Fetched), Action::Evaluate(index));
        assert_eq!(o, Orchestrator { phase: Phase::Evaluating, index });
        assert_eq!(o.step(Event::Evaluated), Action::Merge);
        assert_eq!(o, Orchestrator { phase: Phase::Merging, index });
        assert_eq!(o.step(Event::Merged), Action::Rest(1000));
        assert_eq!(o, Orchestrator { phase: Phase::Sleeping, index });
        assert_eq!(o.step(Event::Rested), Action::Nothing);
        assert_eq!(o, Orchestrator { phase: Phase::Idle, index: index + 1 });
    }
}

#[test]
fn an_event_out_of_place_changes_nothing() {
    let expected = [
        (Phase::Idle, Event::Tick),
        (Phase::Snapshotting, Event::Fetched),
        (Phase::Evaluating, Event::Evaluated),
        (Phase::Merging, Event::Merged),
        (Phase::Sleeping, Event::Rested),
    ];
    for (phase, fitting) in expected {
        for event in all_events() {
            if event == fitting {
                continue;
            }
            let mut o = Orchestrator { phase, index: 17 };
            assert_eq!(o.step(event), Action::Nothing, "{:?} {:?}", phase, event);
            assert_eq!(o, Orchestrator { phase, index: 17 });
        }
    }
}

#[test]
fn the_loop_rests_for_good_when_indices_are_used_up() {
    let mut o = Orchestrator { phase: Phase::Merging, index: u64::MAX };
    assert_eq!(o.step(Event::Merged), Action::Rest(1000));
    assert_eq!(o.step(Event::Rested), Action::Nothing);
    assert_eq!(o, Orchestrator { phase: Phase::Sleeping, index: u64::MAX });
    assert_eq!(o.step(Event::Tick), Action::Nothing);
    assert_eq!(o, Orchestrator { phase: Phase::Sleeping, index: u64::MAX });
    let mut o = Orchestrator { phase: Phase::Sleeping, index: u64::MAX - 1 };
    assert_eq!(o.step(Event::Rested), Action::Nothing);
    assert_eq!(o, Orchestrator { phase: Phase::Idle, index: u64::MAX });
}
