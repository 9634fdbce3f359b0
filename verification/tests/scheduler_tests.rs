use simcraft::fixed::Fixed;
use simcraft::model::nodes::{Action, Delay, Drain, Pool, Source, Stepper, TriggerMode};
use simcraft::model::process_state::PoolState;
use simcraft::model::{Connection, Process, ProcessState, Processor};
use simcraft::simulator::{
    Event, EventPayload, EventQueue, Simulate, Simulation, StatefulSimulation,
};
use simcraft::utils::SimulationError;

fn q(x: f64) -> Fixed {
    Fixed::from_raw((x * 1e9).round() as i64)
}

fn connection(id: &str, source: &str, target: &str, flow_rate: Option<f64>) -> Connection {
    Connection::new(
        id.to_string(),
        source.to_string(),
        Some("out".to_string()),
        target.to_string(),
        Some("in".to_string()),
        flow_rate.map(q),
    )
}

fn stepper() -> Process {
    Process::from(Stepper::new("stepper"))
}

fn full_pool(id: &str, resources: f64, action: Action, trigger_mode: TriggerMode) -> Process {
    Process::from(
        Pool::builder()
            .id(id)
            .action(action)
            .trigger_mode(trigger_mode)
            .state(PoolState {
                resources: q(resources),
                pending_outgoing_resources: q(0.0),
            })
            .build()
            .unwrap(),
    )
}

/// A source that feeds a delay, a pool that pulls from the delay and pushes
/// into a drain.
fn chain() -> Simulation {
    let mut sim = Simulation::new(
        vec![
            stepper(),
            Process::from(Source::new("source")),
            Process::from(Delay::new("delay")),
            full_pool("pool", 3.0, Action::PushAny, TriggerMode::Automatic),
            Process::from(Drain::new("drain")),
        ],
        vec![
            connection("c1", "source", "delay", Some(2.0)),
            connection("c2", "delay", "pool", Some(1.5)),
            connection("c3", "pool", "drain", Some(0.5)),
        ],
    )
    .unwrap();
    sim.step().unwrap();
    sim
}

/// What the processes hold on their books, less what the acceptances still
/// in the queue will take from the books of their senders.
fn balance(sim: &Simulation) -> i64 {
    let mut total: i64 = 0;
    for process in sim.processes() {
        total += match process.get_state() {
            ProcessState::Source(s) => -s.resources_produced.raw(),
            ProcessState::Pool(s) => s.resources.raw(),
            ProcessState::Drain(s) => s.resources_consumed.raw(),
            ProcessState::Delay(s) => s.resources_received.raw() - s.resources_released.raw(),
            _ => 0,
        };
    }
    for event in sim.get_events() {
        if let EventPayload::ResourceAccepted(amount) = event.payload {
            total -= amount.raw();
        }
    }
    total
}

#[test]
fn the_queue_serves_ties_in_the_order_of_arrival() {
    let mut queue = EventQueue::new();
    assert!(queue.is_empty());
    assert!(queue.pop().is_none());
    assert!(queue.peek().is_none());
    for (source, time, number) in [("a", 1.0, 5), ("b", 1.0, 5), ("c", 0.5, 9), ("d", 1.0, 4)] {
        let mut event = Event::new(source, "x", q(time), EventPayload::Trigger);
        event.sequence_number = number;
        queue.push(event);
    }
    assert_eq!(queue.len(), 4);
    assert_eq!(queue.peek().unwrap().source_id, "c");
    let order: Vec<String> = queue.as_slice().iter().map(|e| e.source_id.clone()).collect();
    assert_eq!(order, vec!["c", "d", "a", "b"]);
    assert_eq!(queue.pop().unwrap().source_id, "c");
    queue.clear();
    assert!(queue.is_empty());
}

#[test]
fn events_precede_by_time_then_by_number() {
    let mut early = Event::new("a", "x", q(1.0), EventPayload::Step);
    early.sequence_number = 9;
    let mut late = Event::new("a", "x", q(2.0), EventPayload::Step);
    late.sequence_number = 1;
    let mut tie = Event::new("a", "x", q(1.0), EventPayload::Step);
    tie.sequence_number = 10;
    assert!(early.precedes(&late));
    assert!(!late.precedes(&early));
    assert!(early.precedes(&tie));
    assert!(!tie.precedes(&early));
    assert!(!early.precedes(&early.clone()));
}

#[test]
fn a_process_id_can_be_used_once() {
    let mut sim = Simulation::new(vec![Process::from(Source::new("a"))], vec![]).unwrap();
    match sim.add_process(Process::from(Pool::new("a"))) {
        Err(SimulationError::DuplicateProcess(id)) => assert_eq!(id, "a"),
        other => panic!("expected DuplicateProcess, got {:?}", other),
    }
    assert_eq!(sim.process_count(), 1);
    assert!(sim.has_process("a"));
    assert!(!sim.has_process("b"));
    assert!(matches!(
        Simulation::new(
            vec![Process::from(Source::new("a")), Process::from(Source::new("a"))],
            vec![]
        ),
        Err(SimulationError::DuplicateProcess(_))
    ));
}

#[test]
fn processes_can_be_listed_replaced_and_removed() {
    let mut sim = Simulation::new(
        vec![Process::from(Source::new("a")), Process::from(Pool::new("b"))],
        vec![],
    )
    .unwrap();
    assert_eq!(sim.process_ids(), vec!["a".to_string(), "b".to_string()]);
    assert_eq!(sim.get_process("b").unwrap().id(), "b");
    assert!(matches!(
        sim.get_process("z"),
        Err(SimulationError::ProcessNotFound(id)) if id == "z"
    ));
    assert!(matches!(
        sim.get_process_state("z"),
        Err(SimulationError::ProcessNotFound(id)) if id == "z"
    ));

    sim.update_process("b", full_pool("b", 4.0, Action::PullAny, TriggerMode::Passive))
        .unwrap();
    assert!(matches!(
        sim.get_process_state("b").unwrap(),
        ProcessState::Pool(s) if s.resources == q(4.0)
    ));
    assert!(matches!(
        sim.update_process("b", Process::from(Pool::new("a"))),
        Err(SimulationError::DuplicateProcess(id)) if id == "a"
    ));
    sim.update_process("c", Process::from(Drain::new("c"))).unwrap();
    assert_eq!(sim.process_count(), 3);

    let removed = sim.remove_process("a").unwrap();
    assert_eq!(removed.id(), "a");
    assert_eq!(sim.process_ids(), vec!["b".to_string(), "c".to_string()]);
    assert!(matches!(
        sim.remove_process("a"),
        Err(SimulationError::ProcessNotFound(id)) if id == "a"
    ));
}

#[test]
fn connections_must_name_processes_and_ports_that_exist() {
    let mut sim = Simulation::new(
        vec![Process::from(Source::new("s")), Process::from(Pool::new("p"))],
        vec![],
    )
    .unwrap();
    assert!(matches!(
        sim.add_connection(connection("c", "nobody", "p", None)),
        Err(SimulationError::ProcessNotFound(id)) if id == "nobody"
    ));
    assert!(matches!(
        sim.add_connection(connection("c", "s", "nobody", None)),
        Err(SimulationError::ProcessNotFound(id)) if id == "nobody"
    ));
    let mut bad_source = connection("c", "s", "p", None);
    bad_source.source_port = Some("in".to_string());
    match sim.add_connection(bad_source) {
        Err(SimulationError::InvalidPort {
            process,
            port,
            port_type,
        }) => {
            assert_eq!(process, "s");
            assert_eq!(port, "in");
            assert_eq!(port_type, "output");
        }
        other => panic!("expected InvalidPort, got {:?}", other),
    }
    let mut bad_target = connection("c", "s", "p", None);
    bad_target.target_port = Some("out".to_string());
    match sim.add_connection(bad_target) {
        Err(SimulationError::InvalidPort {
            process,
            port,
            port_type,
        }) => {
            assert_eq!(process, "p");
            assert_eq!(port, "out");
            assert_eq!(port_type, "input");
        }
        other => panic!("expected InvalidPort, got {:?}", other),
    }
    let mut bare = connection("c", "s", "p", None);
    bare.source_port = None;
    bare.target_port = None;
    sim.add_connection(bare).unwrap();
    assert_eq!(sim.get_context().connections().len(), 1);
}

#[test]
fn connections_keep_their_number_when_they_are_updated() {
    let mut sim = Simulation::new(
        vec![
            Process::from(Source::new("s")),
            Process::from(Pool::new("p")),
            Process::from(Pool::new("r")),
        ],
        vec![
            connection("c1", "s", "p", Some(1.0)),
            connection("c2", "s", "r", Some(2.0)),
        ],
    )
    .unwrap();
    assert_eq!(sim.get_connection("c1").unwrap().sequence_number, 0);
    assert_eq!(sim.get_connection("c2").unwrap().sequence_number, 1);

    let mut replacement = connection("c1", "s", "r", Some(5.0));
    replacement.sequence_number = 77;
    sim.update_connection("c1", replacement).unwrap();
    let updated = sim.get_connection("c1").unwrap();
    assert_eq!(updated.sequence_number, 0);
    assert_eq!(updated.target_id, "r");
    assert_eq!(updated.flow_rate, Some(q(5.0)));
    let order: Vec<String> = sim
        .get_context()
        .connections()
        .iter()
        .map(|c| c.id.clone())
        .collect();
    assert_eq!(order, vec!["c1", "c2"]);
    assert_eq!(sim.get_context().process_outputs("s").len(), 2);
    assert_eq!(sim.get_context().process_inputs("r").len(), 2);
    assert_eq!(sim.get_context().process_inputs_for_port("r", Some("in")).len(), 2);
    assert_eq!(sim.get_context().process_outputs_for_port("s", None).len(), 0);

    assert!(matches!(
        sim.update_connection("zz", connection("zz", "s", "p", None)),
        Err(SimulationError::ConnectionNotFound(id)) if id == "zz"
    ));
    assert!(matches!(
        sim.update_connection("c1", connection("c1", "nobody", "p", None)),
        Err(SimulationError::ProcessNotFound(id)) if id == "nobody"
    ));
    assert!(matches!(
        sim.remove_connection("zz"),
        Err(SimulationError::ConnectionNotFound(id)) if id == "zz"
    ));
    assert!(matches!(
        sim.get_connection("zz"),
        Err(SimulationError::ConnectionNotFound(id)) if id == "zz"
    ));
    sim.remove_connection("c2").unwrap();
    assert_eq!(sim.get_context().connections().len(), 1);
}

#[test]
fn events_are_checked_and_numbered_when_they_are_queued() {
    let mut sim = Simulation::new(
        vec![Process::from(Source::new("s")), Process::from(Pool::new("p"))],
        vec![],
    )
    .unwrap();
    let mut first = Event::new("s", "p", q(2.0), EventPayload::Resource(q(1.0)));
    first.sequence_number = 99;
    sim.schedule_event(first.with_ports("out", "in")).unwrap();
    sim.schedule_event(Event::new("s", "p", q(1.0), EventPayload::Trigger))
        .unwrap();
    sim.schedule_event(Event::new("anyone", "broadcast", q(1.0), EventPayload::Step))
        .unwrap();
    sim.schedule_event(Event::new("simulation", "nobody", q(3.0), EventPayload::Step))
        .unwrap();
    let queued: Vec<(Fixed, u64)> = sim
        .get_events()
        .iter()
        .map(|e| (e.time, e.sequence_number))
        .collect();
    assert_eq!(
        queued,
        vec![(q(1.0), 1), (q(1.0), 2), (q(2.0), 0), (q(3.0), 3)]
    );

    assert!(matches!(
        sim.schedule_event(Event::new("s", "nobody", q(1.0), EventPayload::Step)),
        Err(SimulationError::ProcessNotFound(id)) if id == "nobody"
    ));
    assert!(matches!(
        sim.schedule_event(Event::new("nobody", "p", q(1.0), EventPayload::Step)),
        Err(SimulationError::ProcessNotFound(id)) if id == "nobody"
    ));
    assert!(matches!(
        sim.schedule_event(
            Event::new("s", "p", q(1.0), EventPayload::Step).with_target_port("out")
        ),
        Err(SimulationError::InvalidPort { port_type, .. }) if port_type == "input"
    ));
    assert!(matches!(
        sim.schedule_event(
            Event::new("s", "p", q(1.0), EventPayload::Step).with_source_port("in")
        ),
        Err(SimulationError::InvalidPort { port_type, .. }) if port_type == "output"
    ));
    assert_eq!(sim.get_events().len(), 4);

    let more = vec![
        Event::new("s", "p", q(9.0), EventPayload::Trigger),
        Event::new("s", "nobody", q(9.0), EventPayload::Trigger),
        Event::new("s", "p", q(9.0), EventPayload::Trigger),
    ];
    assert!(sim.schedule_events(more).is_err());
    assert_eq!(sim.get_events().len(), 5);
}

#[test]
fn next_handles_exactly_one_event() {
    let mut sim = Simulation::new(
        vec![
            stepper(),
            Process::from(Source::new("source")),
            Process::from(Pool::new("pool")),
        ],
        vec![connection("c", "source", "pool", Some(1.0))],
    )
    .unwrap();
    let first = sim.next().unwrap();
    assert_eq!(first.len(), 1);
    assert_eq!(first[0].payload, EventPayload::Step);
    assert_eq!(sim.current_step(), 1);
    assert_eq!(sim.current_time(), q(1.0));
    let second = sim.next().unwrap();
    assert_eq!(second.len(), 1);
    assert_eq!(second[0].payload, EventPayload::Resource(q(1.0)));
    let third = sim.next().unwrap();
    assert_eq!(third[0].payload, EventPayload::ResourceAccepted(q(1.0)));
    assert_eq!(sim.current_time(), q(1.0));
    assert_eq!(sim.current_step(), 1);
    let fourth = sim.next().unwrap();
    assert_eq!(fourth[0].payload, EventPayload::Step);
    assert_eq!(sim.current_time(), q(2.0));
    assert_eq!(sim.current_step(), 2);
}

#[test]
fn a_simulation_without_events_steps_to_nothing() {
    let mut sim = Simulation::new(vec![Process::from(Pool::new("pool"))], vec![]).unwrap();
    assert!(sim.step().unwrap().is_empty());
    assert!(sim.next().unwrap().is_empty());
    assert!(sim.step_n(3).unwrap().is_empty());
    assert!(sim.step_until(q(10.0)).unwrap().is_empty());
    assert!(sim.process_events_at(q(0.0)).unwrap().is_empty());
    assert_eq!(sim.current_step(), 0);
    assert_eq!(sim.current_time(), q(0.0));
}

#[test]
fn step_until_steps_while_the_time_has_not_passed_the_bound() {
    let build = || {
        let mut stepper = Stepper::new("stepper");
        stepper.set_dt(q(0.5)).unwrap();
        Simulation::new(
            vec![
                Process::from(stepper),
                Process::from(Source::new("source")),
                Process::from(Pool::new("pool")),
            ],
            vec![connection("c", "source", "pool", Some(0.5))],
        )
        .unwrap()
    };
    // The bound itself has not passed: one more step is taken from it.
    let mut sim = build();
    sim.step_until(q(2.5)).unwrap();
    assert_eq!(sim.current_time(), q(3.0));
    // A bound between two beats is passed with the next beat.
    let mut sim = build();
    sim.step_until(q(2.25)).unwrap();
    assert_eq!(sim.current_time(), q(2.5));
    // A bound in the past lets nothing happen.
    let mut sim = build();
    assert!(sim.step_until(q(-1.0)).unwrap().is_empty());
    assert_eq!(sim.current_time(), q(0.0));
}

#[test]
fn events_due_at_one_time_can_be_drained() {
    let mut sim = Simulation::new(
        vec![Process::from(Source::new("s")), Process::from(Pool::new("p"))],
        vec![connection("c", "s", "p", Some(1.0))],
    )
    .unwrap();
    sim.schedule_event(
        Event::new("s", "p", q(0.0), EventPayload::Resource(q(2.0))).with_ports("out", "in"),
    )
    .unwrap();
    sim.schedule_event(Event::new("s", "p", q(1.0), EventPayload::Trigger))
        .unwrap();
    let handled = sim.process_events_at(q(0.0)).unwrap();
    assert_eq!(handled.len(), 2);
    assert_eq!(handled[0].payload, EventPayload::Resource(q(2.0)));
    assert_eq!(handled[1].payload, EventPayload::ResourceAccepted(q(2.0)));
    assert_eq!(sim.get_events().len(), 1);
    assert!(matches!(
        sim.get_process_state("s").unwrap(),
        ProcessState::Source(s) if s.resources_produced == q(2.0)
    ));
}

#[test]
fn a_failure_in_a_process_stops_the_step() {
    let mut sim = Simulation::new(vec![Process::from(Pool::new("p"))], vec![]).unwrap();
    sim.schedule_event(Event::new(
        "simulation",
        "p",
        q(0.0),
        EventPayload::ResourceAccepted(q(1.0)),
    ))
    .unwrap();
    assert!(matches!(
        sim.step(),
        Err(SimulationError::Other(message)) if message == "value out of bounds"
    ));
    assert!(matches!(
        sim.get_process_state("p").unwrap(),
        ProcessState::Pool(s) if s.resources == q(0.0)
    ));

    let mut lost = Simulation::new(vec![Process::from(Pool::new("p"))], vec![]).unwrap();
    lost.schedule_event(Event::new("simulation", "gone", q(0.0), EventPayload::Trigger))
        .unwrap();
    assert!(matches!(
        lost.step(),
        Err(SimulationError::ProcessNotFound(id)) if id == "gone"
    ));
}

#[test]
fn reset_returns_a_simulation_to_its_start() {
    let mut sim = chain();
    sim.step_n(4).unwrap();
    assert!(sim.current_step() > 0);
    sim.reset().unwrap();
    assert_eq!(sim.current_step(), 0);
    assert_eq!(sim.current_time(), q(0.0));
    assert!(sim.get_events().is_empty());
    assert_eq!(sim.get_context().connections().len(), 3);
    let state = sim.get_simulation_state();
    assert_eq!(state.process_states.len(), 5);
    assert!(matches!(
        state.process_states.get("pool").unwrap(),
        ProcessState::Pool(s) if s.resources == q(0.0) && s.pending_outgoing_resources == q(0.0)
    ));
    assert!(matches!(
        state.process_states.get("source").unwrap(),
        ProcessState::Source(s) if s.resources_produced == q(0.0)
    ));
    assert!(state.process_states.get("nobody").is_none());
}

#[test]
fn the_same_model_runs_the_same_way_twice() {
    let run = || {
        let mut sim = chain();
        let events = sim.step_n(8).unwrap();
        let log: Vec<String> = events.iter().map(|e| format!("{:?}", e)).collect();
        let state = format!("{:?}", sim.get_simulation_state());
        let queue = format!("{:?}", sim.get_events());
        (log, state, queue)
    };
    let first = run();
    let second = run();
    assert!(!first.0.is_empty());
    assert_eq!(first, second);
}

#[test]
fn events_leave_the_queue_in_order() {
    let mut sim = chain();
    let mut previous: Option<Event> = None;
    for _ in 0..200 {
        let handled = sim.next().unwrap();
        if handled.is_empty() {
            break;
        }
        let event = handled[0].clone();
        if let Some(before) = &previous {
            assert!(
                before.precedes(&event),
                "{:?} was handled before {:?}",
                before,
                event
            );
        }
        previous = Some(event);
    }
    assert!(previous.is_some());
}

#[test]
fn every_event_names_ports_that_its_processes_declare() {
    let mut sim = chain();
    let events = sim.step_n(8).unwrap();
    assert!(!events.is_empty());
    for event in events.iter().chain(sim.get_events().iter()) {
        let emitter = sim.get_process(&event.source_id).unwrap();
        if let Some(port) = &event.source_port {
            assert!(emitter.get_output_ports().contains(port));
        }
        if event.target_id != "broadcast" {
            let target = sim.get_process(&event.target_id).unwrap();
            if let Some(port) = &event.target_port {
                assert!(target.get_input_ports().contains(port));
            }
        }
    }
}

#[test]
fn every_process_stays_within_its_bounds() {
    let mut sim = chain();
    for _ in 0..300 {
        if sim.next().unwrap().is_empty() {
            break;
        }
        for process in sim.processes() {
            match process.get_state() {
                ProcessState::Pool(s) => {
                    assert!(s.resources >= q(0.0));
                    assert!(s.pending_outgoing_resources >= q(0.0));
                }
                ProcessState::Delay(s) => {
                    assert!(s.resources_received >= s.resources_released);
                    assert!(s.resources_released >= q(0.0));
                    assert!(s.pending_outgoing_resources >= q(0.0));
                }
                _ => {}
            }
        }
    }
}

#[test]
fn a_bounded_pool_never_rises_above_its_capacity() {
    let mut sim = Simulation::new(
        vec![
            stepper(),
            Process::from(Source::new("source")),
            Process::from(Pool::builder().id("pool").capacity(q(2.5)).build().unwrap()),
        ],
        vec![connection("c", "source", "pool", Some(1.0))],
    )
    .unwrap();
    for _ in 0..40 {
        sim.next().unwrap();
        match sim.get_process_state("pool").unwrap() {
            ProcessState::Pool(s) => assert!(s.resources <= q(2.5)),
            _ => panic!("expected a pool"),
        }
    }
    assert!(matches!(
        sim.get_process_state("pool").unwrap(),
        ProcessState::Pool(s) if s.resources == q(2.0)
    ));
}

#[test]
fn resources_are_conserved_event_by_event() {
    let mut sim = chain();
    let start = balance(&sim);
    assert_eq!(start, q(3.0).raw());
    for _ in 0..300 {
        if sim.next().unwrap().is_empty() {
            break;
        }
        assert_eq!(balance(&sim), start);
    }
    assert!(sim.current_step() > 5);
}

#[test]
fn the_traits_drive_a_simulation_like_its_own_methods() {
    fn drive<S: Simulate + StatefulSimulation>(sim: &mut S) -> usize {
        let handled = Simulate::step_n(sim, 2).unwrap().len();
        StatefulSimulation::reset(sim).unwrap();
        handled
    }
    let mut by_trait = chain();
    let mut by_method = chain();
    let handled = by_method.step_n(2).unwrap().len();
    by_method.reset().unwrap();
    assert_eq!(drive(&mut by_trait), handled);
    assert_eq!(
        format!("{:?}", by_trait.get_simulation_state()),
        format!("{:?}", by_method.get_simulation_state())
    );
}
