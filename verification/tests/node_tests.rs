use simcraft::fixed::Fixed;
use simcraft::model::nodes::resource::ResourceDeliveryProtocol;
use simcraft::model::nodes::{
    process_events_with_priority, Action, Delay, DelayAction, Drain, Overflow, Pool, Source,
    Stepper, TriggerMode,
};
use simcraft::model::process_state::{DelayState, DrainState, PoolState, SourceState};
use simcraft::model::{Connection, ProcessContext, ProcessState, Processor, SerializableProcess};
use simcraft::simulator::{Event, EventPayload};
use simcraft::utils::SimulationError;

fn q(x: f64) -> Fixed {
    Fixed::from_raw((x * 1e9).round() as i64)
}

fn connection(source: &str, target: &str, flow_rate: Option<f64>) -> Connection {
    Connection::new(
        format!("{}-{}", source, target),
        source.to_string(),
        Some("out".to_string()),
        target.to_string(),
        Some("in".to_string()),
        flow_rate.map(q),
    )
}

fn is_out_of_bounds(error: &SimulationError) -> bool {
    matches!(error, SimulationError::Other(message) if message == "value out of bounds")
}

fn is_not_implemented(error: &SimulationError) -> bool {
    matches!(error, SimulationError::Other(message) if message == "not implemented")
}

#[test]
fn fixed_numbers_add_and_compare_exactly() {
    assert_eq!(Fixed::from_units(3).unwrap(), q(3.0));
    assert_eq!(Fixed::one().raw(), 1_000_000_000);
    assert_eq!(Fixed::epsilon().raw(), 1);
    assert_eq!(q(0.1).checked_add(q(0.2)), Some(q(0.3)));
    assert_eq!(q(1.0).checked_sub(q(2.5)), Some(q(-1.5)));
    assert_eq!(q(2.0).min(q(5.0)), q(2.0));
    assert_eq!(q(2.0).max(q(5.0)), q(5.0));
    assert!(q(-0.5).is_negative());
    assert!(q(0.5).is_positive());
    assert!(!Fixed::zero().is_positive());
    assert!(q(1.0) < q(1.5));
}

#[test]
fn fixed_numbers_report_what_does_not_fit() {
    assert_eq!(Fixed::from_units(i64::MAX), None);
    assert_eq!(Fixed::from_raw(i64::MAX).checked_add(Fixed::epsilon()), None);
    assert_eq!(Fixed::from_raw(i64::MIN).checked_sub(Fixed::epsilon()), None);
    assert_eq!(Fixed::from_units(9_223_372_036).map(|f| f.raw()), Some(9_223_372_036_000_000_000));
}

#[test]
fn available_resources_are_never_negative() {
    let state = PoolState {
        resources: q(5.0),
        pending_outgoing_resources: q(2.0),
    };
    assert_eq!(state.available_resources(), q(3.0));
    let promised = PoolState {
        resources: q(1.0),
        pending_outgoing_resources: q(4.0),
    };
    assert_eq!(promised.available_resources(), q(0.0));
    let delay = DelayState {
        resources_received: q(10.0),
        resources_released: q(4.0),
        pending_outgoing_resources: q(1.0),
    };
    assert_eq!(delay.current_resources(), q(6.0));
    assert_eq!(delay.available_resources(), q(5.0));
}

#[test]
fn errors_describe_themselves() {
    assert_eq!(
        SimulationError::DuplicateProcess("a".to_string()).message(),
        "Duplicate process ID: a"
    );
    assert_eq!(
        SimulationError::InvalidPort {
            process: "p".to_string(),
            port: "x".to_string(),
            port_type: "input".to_string(),
        }
        .message(),
        "Invalid input port 'x' for process 'p'"
    );
    assert_eq!(
        SimulationError::InvalidDt(q(-0.5)).message(),
        "Invalid dt value: -500000000e-9"
    );
    assert_eq!(
        SimulationError::NoEvents.message(),
        "No events remaining in queue"
    );
    assert_eq!(SimulationError::Other("x".to_string()).message(), "x");
    assert_eq!(
        SimulationError::ProcessNotFound("p".to_string()).message(),
        "Process with ID 'p' not found"
    );
    assert_eq!(
        SimulationError::ConnectionNotFound("c".to_string()).message(),
        "Connection with ID 'c' not found"
    );
}

#[test]
fn delivery_protocol_names_both_ports() {
    let offer =
        ResourceDeliveryProtocol::send_resource(q(2.0), "a", Some("out"), "b", None, q(3.0));
    assert_eq!(offer.source_id, "a");
    assert_eq!(offer.source_port.as_deref(), Some("out"));
    assert_eq!(offer.target_id, "b");
    assert_eq!(offer.target_port.as_deref(), Some(""));
    assert_eq!(offer.time, q(2.0));
    assert_eq!(offer.payload, EventPayload::Resource(q(3.0)));

    let replies = ResourceDeliveryProtocol::respond_to_delivery(
        q(2.0),
        "b",
        Some("in"),
        "a",
        Some("out"),
        q(1.0),
        q(2.0),
    );
    assert_eq!(replies.len(), 2);
    assert_eq!(replies[0].payload, EventPayload::ResourceAccepted(q(1.0)));
    assert_eq!(replies[0].source_id, "b");
    assert_eq!(replies[0].target_id, "a");
    assert_eq!(replies[1].payload, EventPayload::ResourceRejected(q(2.0)));

    let none = ResourceDeliveryProtocol::respond_to_delivery(
        q(2.0),
        "b",
        None,
        "a",
        None,
        q(0.0),
        q(0.0),
    );
    assert!(none.is_empty());
}

#[test]
fn source_pushes_its_flow_rate_along_every_output() {
    let mut source = Source::new("s");
    let to_a = connection("s", "a", Some(2.0));
    let to_b = connection("s", "b", None);
    let context = ProcessContext::new(3, q(7.0), vec![], vec![&to_a, &to_b]);
    let step = Event::new("stepper", "s", q(7.0), EventPayload::Step);
    let events = source.on_event(&step, &context).unwrap();
    assert_eq!(events.len(), 2);
    assert_eq!(events[0].target_id, "a");
    assert_eq!(events[0].payload, EventPayload::Resource(q(2.0)));
    assert_eq!(events[0].source_port.as_deref(), Some("out"));
    assert_eq!(events[0].target_port.as_deref(), Some("in"));
    assert_eq!(events[0].time, q(7.0));
    assert_eq!(events[1].target_id, "b");
    assert_eq!(events[1].payload, EventPayload::Resource(q(1.0)));
    assert_eq!(source.state().resources_produced, q(0.0));
}

#[test]
fn source_trigger_modes_decide_who_acts_on_a_step() {
    let to_a = connection("s", "a", Some(1.0));
    let step = Event::new("stepper", "s", q(0.0), EventPayload::Step);
    let trigger = Event::new("user", "s", q(0.0), EventPayload::Trigger);
    for (mode, at_step, expected) in [
        (TriggerMode::Passive, 1, 0),
        (TriggerMode::Interactive, 1, 0),
        (TriggerMode::Automatic, 5, 1),
        (TriggerMode::Enabling, 1, 1),
        (TriggerMode::Enabling, 2, 0),
    ] {
        let mut source = Source::builder().id("s").trigger_mode(mode).build().unwrap();
        let context = ProcessContext::new(at_step, q(0.0), vec![], vec![&to_a]);
        assert_eq!(source.on_event(&step, &context).unwrap().len(), expected);
        assert_eq!(source.on_event(&trigger, &context).unwrap().len(), 1);
    }
}

#[test]
fn source_answers_pull_requests_and_counts_acceptances() {
    let mut source = Source::new("s");
    let to_a = connection("s", "a", Some(2.5));
    let context = ProcessContext::new(1, q(1.0), vec![], vec![&to_a]);

    let request = Event::new("a", "s", q(1.0), EventPayload::PullRequest);
    let events = source.on_event(&request, &context).unwrap();
    assert_eq!(events.len(), 1);
    assert_eq!(events[0].payload, EventPayload::Resource(q(2.5)));
    assert_eq!(events[0].target_id, "a");
    assert_eq!(events[0].target_port.as_deref(), Some("in"));

    let stranger = Event::new("z", "s", q(1.0), EventPayload::PullAllRequest).with_source_port("x");
    let events = source.on_event(&stranger, &context).unwrap();
    assert_eq!(events[0].payload, EventPayload::Resource(q(1.0)));
    assert_eq!(events[0].target_port.as_deref(), Some("x"));

    let accepted = Event::new("a", "s", q(1.0), EventPayload::ResourceAccepted(q(2.5)));
    assert!(source.on_event(&accepted, &context).unwrap().is_empty());
    assert_eq!(source.state().resources_produced, q(2.5));

    let rejected = Event::new("a", "s", q(1.0), EventPayload::ResourceRejected(q(2.5)));
    assert!(source.on_event(&rejected, &context).unwrap().is_empty());
    assert_eq!(source.state().resources_produced, q(2.5));
}

#[test]
fn source_push_all_is_not_implemented() {
    let mut source = Source::builder().id("s").action(Action::PushAll).build().unwrap();
    let context = ProcessContext::default();
    let step = Event::new("stepper", "s", q(0.0), EventPayload::Step);
    let error = source.on_event(&step, &context).unwrap_err();
    assert!(is_not_implemented(&error));
    assert!(is_not_implemented(&source.handle_push_all(&context).unwrap_err()));
}

#[test]
fn source_refuses_a_state_out_of_bounds() {
    let built = Source::builder()
        .id("s")
        .state(SourceState {
            resources_produced: q(-1.0),
        })
        .build();
    assert!(is_out_of_bounds(&built.unwrap_err()));

    let mut source = Source::new("s");
    let context = ProcessContext::default();
    let accepted = Event::new("a", "s", q(0.0), EventPayload::ResourceAccepted(q(-1.0)));
    assert!(is_out_of_bounds(&source.on_event(&accepted, &context).unwrap_err()));
    assert_eq!(source.state().resources_produced, q(0.0));
}

#[test]
fn drain_consumes_and_accepts_every_offer() {
    let mut drain = Drain::new("d");
    let context = ProcessContext::new(1, q(4.0), vec![], vec![]);
    let offer = Event::new("p", "d", q(4.0), EventPayload::Resource(q(1.5)));
    let events = drain.on_event(&offer, &context).unwrap();
    assert_eq!(events.len(), 1);
    assert_eq!(events[0].payload, EventPayload::ResourceAccepted(q(1.5)));
    assert_eq!(events[0].source_id, "d");
    assert_eq!(events[0].target_id, "p");
    assert_eq!(events[0].source_port, None);
    assert_eq!(events[0].time, q(4.0));
    assert_eq!(drain.state().resources_consumed, q(1.5));

    let negative = Event::new("p", "d", q(4.0), EventPayload::Resource(q(-1.0)));
    assert!(is_out_of_bounds(&drain.on_event(&negative, &context).unwrap_err()));
    assert_eq!(drain.state().resources_consumed, q(1.5));

    let trigger = Event::new("u", "d", q(4.0), EventPayload::Trigger);
    assert!(drain.on_event(&trigger, &context).unwrap().is_empty());
}

#[test]
fn drain_pulls_from_every_input() {
    let from_a = connection("a", "d", Some(1.0));
    let from_b = connection("b", "d", Some(2.0));
    let context = ProcessContext::new(1, q(1.0), vec![&from_a, &from_b], vec![]);
    let step = Event::new("stepper", "d", q(1.0), EventPayload::Step);

    let mut pull_any = Drain::new("d");
    let events = pull_any.on_event(&step, &context).unwrap();
    assert_eq!(events.len(), 2);
    assert_eq!(events[0].payload, EventPayload::PullRequest);
    assert_eq!(events[0].target_id, "a");
    assert_eq!(events[1].target_id, "b");
    assert_eq!(events[0].source_id, "d");

    let mut pull_all = Drain::builder().id("d").action(Action::PullAll).build().unwrap();
    let events = pull_all.on_event(&step, &context).unwrap();
    assert_eq!(events.len(), 2);
    assert_eq!(events[0].payload, EventPayload::PullAllRequest);

    let mut pushing = Drain::builder().id("d").action(Action::PushAny).build().unwrap();
    assert!(is_not_implemented(&pushing.on_event(&step, &context).unwrap_err()));

    let built = Drain::builder()
        .state(DrainState {
            resources_consumed: q(-1.0),
        })
        .build();
    assert!(is_out_of_bounds(&built.unwrap_err()));
}

#[test]
fn pool_blocks_an_offer_that_would_overflow() {
    let mut pool = Pool::builder()
        .id("p")
        .capacity(q(3.0))
        .overflow(Overflow::Block)
        .state(PoolState {
            resources: q(2.0),
            pending_outgoing_resources: q(0.0),
        })
        .build()
        .unwrap();
    let context = ProcessContext::new(1, q(1.0), vec![], vec![]);
    let offer = Event::new("s", "p", q(1.0), EventPayload::Resource(q(2.0)));
    let events = pool.on_event(&offer, &context).unwrap();
    assert_eq!(events.len(), 1);
    assert_eq!(events[0].payload, EventPayload::ResourceRejected(q(2.0)));
    assert_eq!(pool.state().resources, q(2.0));

    let fitting = Event::new("s", "p", q(1.0), EventPayload::Resource(q(1.0)));
    let events = pool.on_event(&fitting, &context).unwrap();
    assert_eq!(events.len(), 1);
    assert_eq!(events[0].payload, EventPayload::ResourceAccepted(q(1.0)));
    assert_eq!(pool.state().resources, q(3.0));

    let nothing = Event::new("s", "p", q(1.0), EventPayload::Resource(q(0.0)));
    assert!(pool.on_event(&nothing, &context).unwrap().is_empty());
}

#[test]
fn pool_answers_pull_all_requests_all_or_nothing() {
    let to_d = connection("p", "d", Some(3.0));
    let context = ProcessContext::new(1, q(1.0), vec![], vec![&to_d]);
    let request = Event::new("d", "p", q(1.0), EventPayload::PullAllRequest);

    let mut poor = Pool::builder()
        .id("p")
        .state(PoolState {
            resources: q(2.0),
            pending_outgoing_resources: q(0.0),
        })
        .build()
        .unwrap();
    assert!(poor.on_event(&request, &context).unwrap().is_empty());
    assert_eq!(poor.state().pending_outgoing_resources, q(0.0));

    let mut rich = Pool::builder()
        .id("p")
        .state(PoolState {
            resources: q(5.0),
            pending_outgoing_resources: q(0.0),
        })
        .build()
        .unwrap();
    let events = rich.on_event(&request, &context).unwrap();
    assert_eq!(events.len(), 1);
    assert_eq!(events[0].payload, EventPayload::Resource(q(3.0)));
    assert_eq!(events[0].source_port.as_deref(), Some("out"));
    assert_eq!(events[0].target_port.as_deref(), Some("in"));
    assert_eq!(rich.state().pending_outgoing_resources, q(3.0));
    assert_eq!(rich.state().resources, q(5.0));

    let stranger = Event::new("z", "p", q(1.0), EventPayload::PullRequest);
    assert!(rich.on_event(&stranger, &context).unwrap().is_empty());
}

#[test]
fn pool_pulls_from_every_input() {
    let from_a = connection("a", "p", Some(1.0));
    let context = ProcessContext::new(1, q(1.0), vec![&from_a], vec![]);
    let step = Event::new("stepper", "p", q(1.0), EventPayload::Step);
    let mut pool = Pool::builder()
        .id("p")
        .trigger_mode(TriggerMode::Automatic)
        .action(Action::PullAll)
        .build()
        .unwrap();
    let events = pool.on_event(&step, &context).unwrap();
    assert_eq!(events.len(), 1);
    assert_eq!(events[0].payload, EventPayload::PullAllRequest);
    assert_eq!(events[0].source_id, "p");
    assert_eq!(events[0].target_id, "a");
}

#[test]
fn pool_fails_rather_than_leave_its_bounds() {
    let mut pool = Pool::builder()
        .id("p")
        .state(PoolState {
            resources: q(1.0),
            pending_outgoing_resources: q(1.0),
        })
        .build()
        .unwrap();
    let context = ProcessContext::default();
    let too_much = Event::new("d", "p", q(0.0), EventPayload::ResourceAccepted(q(2.0)));
    assert!(is_out_of_bounds(&pool.on_event(&too_much, &context).unwrap_err()));
    assert_eq!(pool.state().resources, q(1.0));
    assert_eq!(pool.state().pending_outgoing_resources, q(1.0));

    let rejected = Event::new("d", "p", q(0.0), EventPayload::ResourceRejected(q(2.0)));
    assert!(is_out_of_bounds(&pool.on_event(&rejected, &context).unwrap_err()));

    let negative = Event::new("s", "p", q(0.0), EventPayload::Resource(q(-1.0)));
    assert!(is_out_of_bounds(&pool.on_event(&negative, &context).unwrap_err()));

    let huge = Event::new("s", "p", q(0.0), EventPayload::Resource(Fixed::from_raw(i64::MAX)));
    assert!(is_out_of_bounds(&pool.on_event(&huge, &context).unwrap_err()));
    assert_eq!(pool.state().resources, q(1.0));

    assert!(is_out_of_bounds(
        &pool
            .set_state(PoolState {
                resources: q(-1.0),
                pending_outgoing_resources: q(0.0),
            })
            .unwrap_err()
    ));
    let over = Pool::builder()
        .capacity(q(1.0))
        .state(PoolState {
            resources: q(2.0),
            pending_outgoing_resources: q(0.0),
        })
        .build();
    assert!(is_out_of_bounds(&over.unwrap_err()));
}

#[test]
fn pool_ignores_what_it_does_not_handle() {
    let mut pool = Pool::new("p");
    let context = ProcessContext::default();
    for payload in [
        EventPayload::SimulationStart,
        EventPayload::SimulationEnd,
        EventPayload::Custom("note".to_string()),
    ] {
        let event = Event::new("x", "p", q(0.0), payload);
        assert!(pool.on_event(&event, &context).unwrap().is_empty());
    }
    assert_eq!(pool.get_type(), "Pool");
    assert_eq!(pool.get_input_ports(), vec!["in".to_string()]);
    assert_eq!(pool.get_output_ports(), vec!["out".to_string()]);
    assert_eq!(Source::new("s").get_input_ports(), Vec::<String>::new());
    assert_eq!(Drain::new("d").get_output_ports(), Vec::<String>::new());
    assert_eq!(Stepper::new("t").get_input_ports(), vec!["step".to_string()]);
}

#[test]
fn delay_passes_an_arrival_on_after_the_delay() {
    let mut delay = Delay::new("d");
    let to_p = connection("d", "p", Some(2.0));
    let context = ProcessContext::new(1, q(1.0), vec![], vec![&to_p]);
    let offer = Event::new("s", "d", q(1.0), EventPayload::Resource(q(5.0)));
    let events = delay.on_event(&offer, &context).unwrap();
    assert_eq!(events.len(), 2);
    assert_eq!(events[0].payload, EventPayload::ResourceAccepted(q(5.0)));
    assert_eq!(events[0].target_id, "s");
    assert_eq!(events[0].time, q(1.0));
    assert_eq!(events[1].payload, EventPayload::Resource(q(5.0)));
    assert_eq!(events[1].target_id, "p");
    assert_eq!(events[1].time, q(3.0));
    assert_eq!(events[1].source_port.as_deref(), Some("out"));
    assert_eq!(delay.state().resources_received, q(5.0));
    assert_eq!(delay.state().pending_outgoing_resources, q(5.0));

    let accepted = Event::new("p", "d", q(3.0), EventPayload::ResourceAccepted(q(5.0)));
    assert!(delay.on_event(&accepted, &context).unwrap().is_empty());
    assert_eq!(delay.state().resources_released, q(5.0));
    assert_eq!(delay.state().pending_outgoing_resources, q(0.0));

    let step = Event::new("stepper", "d", q(3.0), EventPayload::Step);
    assert!(delay.on_event(&step, &context).unwrap().is_empty());
}

#[test]
fn delay_rejects_without_exactly_one_output() {
    let offer = Event::new("s", "d", q(1.0), EventPayload::Resource(q(5.0)));
    let to_p = connection("d", "p", Some(2.0));
    let to_r = connection("d", "r", Some(2.0));

    let mut delay = Delay::new("d");
    let none = ProcessContext::new(1, q(1.0), vec![], vec![]);
    let events = delay.on_event(&offer, &none).unwrap();
    assert_eq!(events.len(), 1);
    assert_eq!(events[0].payload, EventPayload::ResourceRejected(q(5.0)));
    assert_eq!(delay.state().resources_received, q(0.0));

    let two = ProcessContext::new(1, q(1.0), vec![], vec![&to_p, &to_r]);
    let events = delay.on_event(&offer, &two).unwrap();
    assert_eq!(events.len(), 1);
    assert_eq!(events[0].payload, EventPayload::ResourceRejected(q(5.0)));

    let negative = Event::new("s", "d", q(1.0), EventPayload::Resource(q(-5.0)));
    assert!(is_out_of_bounds(&delay.on_event(&negative, &none).unwrap_err()));
}

#[test]
fn queue_releases_a_fixed_amount_when_its_wait_is_over() {
    let mut queue = Delay::builder()
        .id("q")
        .action(DelayAction::Queue)
        .release_amount(q(1.0))
        .build()
        .unwrap();
    let to_p = connection("q", "p", Some(2.0));

    // The first arrival starts the wait: nothing leaves yet.
    let at_one = ProcessContext::new(1, q(1.0), vec![], vec![&to_p]);
    let offer = Event::new("s", "q", q(1.0), EventPayload::Resource(q(3.0)));
    let events = queue.on_event(&offer, &at_one).unwrap();
    assert_eq!(events.len(), 1);
    assert_eq!(events[0].payload, EventPayload::ResourceAccepted(q(3.0)));
    assert_eq!(queue.next_release_time(), q(3.0));
    assert!(!queue.can_release_from_queue(q(2.0)));
    assert!(queue.can_release_from_queue(q(3.0)));

    // A step before the wait is over releases nothing.
    let step = Event::new("stepper", "q", q(2.0), EventPayload::Step);
    let at_two = ProcessContext::new(2, q(2.0), vec![], vec![&to_p]);
    assert!(queue.on_event(&step, &at_two).unwrap().is_empty());

    // A step at the end of the wait releases one amount and starts anew.
    let at_three = ProcessContext::new(3, q(3.0), vec![], vec![&to_p]);
    let events = queue.on_event(&step, &at_three).unwrap();
    assert_eq!(events.len(), 1);
    assert_eq!(events[0].payload, EventPayload::Resource(q(1.0)));
    assert_eq!(events[0].time, q(3.0));
    assert_eq!(events[0].target_id, "p");
    assert_eq!(queue.state().pending_outgoing_resources, q(1.0));
    assert_eq!(queue.next_release_time(), q(5.0));

    // While a release is outstanding, no other leaves.
    let at_five = ProcessContext::new(5, q(5.0), vec![], vec![&to_p]);
    assert!(queue.on_event(&step, &at_five).unwrap().is_empty());

    let rejected = Event::new("p", "q", q(5.0), EventPayload::ResourceRejected(q(1.0)));
    assert!(queue.on_event(&rejected, &at_five).unwrap().is_empty());
    assert_eq!(queue.state().pending_outgoing_resources, q(0.0));
    assert_eq!(queue.state().resources_released, q(0.0));
}

#[test]
fn delay_forwards_pull_requests_to_its_inputs() {
    let mut delay = Delay::new("d");
    let from_s = connection("s", "d", Some(5.0));
    let context = ProcessContext::new(1, q(1.0), vec![&from_s], vec![]);
    for payload in [EventPayload::PullRequest, EventPayload::PullAllRequest] {
        let request = Event::new("p", "d", q(1.0), payload);
        let events = delay.on_event(&request, &context).unwrap();
        assert_eq!(events.len(), 1);
        assert_eq!(events[0].payload, EventPayload::PullRequest);
        assert_eq!(events[0].source_id, "d");
        assert_eq!(events[0].target_id, "s");
    }
}

#[test]
fn delay_keeps_released_below_received() {
    let mut delay = Delay::new("d");
    let context = ProcessContext::default();
    let accepted = Event::new("p", "d", q(0.0), EventPayload::ResourceAccepted(q(1.0)));
    assert!(is_out_of_bounds(&delay.on_event(&accepted, &context).unwrap_err()));
    assert_eq!(delay.state().resources_released, q(0.0));

    let built = Delay::builder().release_amount(q(0.0)).build();
    assert!(is_out_of_bounds(&built.unwrap_err()));
    let built = Delay::builder()
        .state(DelayState {
            resources_received: q(1.0),
            resources_released: q(2.0),
            pending_outgoing_resources: q(0.0),
        })
        .build();
    assert!(is_out_of_bounds(&built.unwrap_err()));
}

#[test]
fn stepper_beats_at_its_interval() {
    let mut stepper = Stepper::new("t");
    let context = ProcessContext::new(0, q(4.0), vec![], vec![]);
    for payload in [EventPayload::SimulationStart, EventPayload::Step] {
        let event = Event::new("simulation", "broadcast", q(4.0), payload);
        let events = stepper.on_event(&event, &context).unwrap();
        assert_eq!(events.len(), 1);
        assert_eq!(events[0].payload, EventPayload::Step);
        assert_eq!(events[0].time, q(5.0));
        assert_eq!(events[0].source_id, "t");
        assert_eq!(events[0].target_id, "broadcast");
        assert_eq!(events[0].source_port.as_deref(), Some("step"));
        assert_eq!(events[0].target_port.as_deref(), Some(""));
    }
    let end = Event::new("simulation", "broadcast", q(4.0), EventPayload::SimulationEnd);
    assert!(stepper.on_event(&end, &context).unwrap().is_empty());

    stepper.set_dt(q(0.25)).unwrap();
    let start = Event::new("simulation", "broadcast", q(4.0), EventPayload::SimulationStart);
    assert_eq!(stepper.on_event(&start, &context).unwrap()[0].time, q(4.25));

    let late = ProcessContext::new(0, Fixed::from_raw(i64::MAX), vec![], vec![]);
    assert!(is_out_of_bounds(&stepper.on_event(&start, &late).unwrap_err()));
}

#[test]
fn stepper_rejects_an_interval_that_is_not_positive() {
    let mut stepper = Stepper::new("t");
    for dt in [0.0, -1.0] {
        match stepper.set_dt(q(dt)) {
            Err(SimulationError::InvalidDt(value)) => assert_eq!(value, q(dt)),
            other => panic!("expected InvalidDt, got {:?}", other),
        }
    }
    assert_eq!(stepper.dt(), q(1.0));
    assert!(matches!(stepper.get_state(), ProcessState::Stepper(s) if s.current_step == 0));
}

#[test]
fn a_batch_is_handled_by_class_then_by_time_and_number() {
    let mut pool = Pool::builder()
        .id("p")
        .state(PoolState {
            resources: q(1.0),
            pending_outgoing_resources: q(0.0),
        })
        .build()
        .unwrap();
    let to_d = connection("p", "d", Some(1.0));
    let context = ProcessContext::new(1, q(1.0), vec![], vec![&to_d]);

    let mut offer = Event::new("s", "p", q(1.0), EventPayload::Resource(q(1.0)));
    offer.sequence_number = 1;
    let mut request = Event::new("d", "p", q(1.0), EventPayload::PullRequest);
    request.sequence_number = 2;
    let mut note = Event::new("u", "p", q(1.0), EventPayload::Custom("x".to_string()));
    note.sequence_number = 0;

    // The request comes first although it was queued last: the pool answers
    // it from the one unit it holds before it takes the offer.
    let batch = vec![note, offer, request];
    let events = pool.on_events(&batch, &context).unwrap();
    assert_eq!(events.len(), 2);
    assert_eq!(events[0].payload, EventPayload::Resource(q(1.0)));
    assert_eq!(events[0].target_id, "d");
    assert_eq!(events[1].payload, EventPayload::ResourceAccepted(q(1.0)));
    assert_eq!(events[1].target_id, "s");
    assert_eq!(pool.state().resources, q(2.0));
    assert_eq!(pool.state().pending_outgoing_resources, q(1.0));
}

#[test]
fn a_batch_with_a_step_hands_the_other_events_back() {
    let mut source = Source::new("s");
    let to_a = connection("s", "a", Some(1.0));
    let context = ProcessContext::new(1, q(1.0), vec![], vec![&to_a]);

    let mut accepted = Event::new("a", "s", q(1.0), EventPayload::ResourceAccepted(q(1.0)));
    accepted.sequence_number = 3;
    let mut step = Event::new("t", "s", q(1.0), EventPayload::Step);
    step.sequence_number = 7;

    let batch = vec![accepted, step];
    let events = process_events_with_priority(&mut source, &batch, &context).unwrap();
    assert_eq!(events.len(), 2);
    assert_eq!(events[0].payload, EventPayload::Resource(q(1.0)));
    assert_eq!(events[0].source_id, "s");
    assert_eq!(events[1].payload, EventPayload::ResourceAccepted(q(1.0)));
    assert_eq!(events[1].source_id, "a");
    assert_eq!(events[1].sequence_number, 3);
    assert_eq!(source.state().resources_produced, q(0.0));
}

#[test]
fn a_batch_stops_at_the_first_failure() {
    let mut drain = Drain::new("d");
    let context = ProcessContext::default();
    let mut good = Event::new("p", "d", q(0.0), EventPayload::Resource(q(1.0)));
    good.sequence_number = 1;
    let mut bad = Event::new("p", "d", q(0.0), EventPayload::Resource(q(-1.0)));
    bad.sequence_number = 2;
    let mut late = Event::new("p", "d", q(0.0), EventPayload::Resource(q(5.0)));
    late.sequence_number = 3;
    let error = drain.on_events(&[late, bad, good], &context).unwrap_err();
    assert!(is_out_of_bounds(&error));
    assert_eq!(drain.state().resources_consumed, q(1.0));
}

#[test]
fn context_selects_connections_by_port() {
    let a = connection("s", "p", Some(1.0));
    let mut b = connection("s", "p", Some(2.0));
    b.target_port = None;
    b.source_port = None;
    let context = ProcessContext::new(2, q(1.0), vec![&a, &b], vec![&a, &b]);
    assert_eq!(context.current_step(), 2);
    assert_eq!(context.current_time(), q(1.0));
    assert_eq!(context.inputs_for_port(Some("in")).len(), 1);
    assert_eq!(context.inputs_for_port(None).len(), 1);
    assert_eq!(context.inputs_for_port(Some("x")).len(), 0);
    assert_eq!(context.outputs_for_port(Some("out"))[0].flow_rate, Some(q(1.0)));
    assert_eq!(context.outputs_for_port(None)[0].flow_rate, Some(q(2.0)));
    assert_eq!(a.source_id(), "s");
    assert_eq!(a.source_port(), Some("out"));
    assert_eq!(a.target_id(), "p");
    assert_eq!(a.target_port(), Some("in"));
    assert_eq!(b.rate_or(q(9.0)), q(2.0));
}
