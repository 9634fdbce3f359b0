use simcraft::analysis::visualise_resource_transfers;
use simcraft::fixed::Fixed;
use simcraft::simulator::{Event, EventPayload};

fn q(x: f64) -> Fixed {
    Fixed::from_raw((x * 1e9).round() as i64)
}

#[test]
fn a_batch_without_transfers_says_so() {
    let events = vec![Event::new("stepper", "broadcast", q(3.0), EventPayload::Step)];
    assert_eq!(
        visualise_resource_transfers(&events),
        "Time: 3.00\nResource Transfers:\nNo resource transfers in this timestep\n"
    );
    assert_eq!(
        visualise_resource_transfers(&[]),
        "Resource Transfers:\nNo resource transfers in this timestep\n"
    );
}

#[test]
fn transfers_are_listed_by_source_with_their_outcome() {
    let events = vec![
        Event::new("pool", "drain", q(1.5), EventPayload::Resource(q(2.0))).with_ports("out", "in"),
        Event::new("alpha", "pool", q(1.5), EventPayload::Resource(q(0.125)))
            .with_ports("out", "in"),
        Event::new("drain", "pool", q(1.5), EventPayload::ResourceAccepted(q(2.0)))
            .with_ports("in", "out"),
        Event::new("pool", "alpha", q(1.5), EventPayload::ResourceRejected(q(0.125))),
        Event::new("zeta", "pool", q(1.5), EventPayload::Resource(q(12.0))),
        Event::new("pool", "other", q(1.5), EventPayload::PullRequest),
    ];
    assert_eq!(
        visualise_resource_transfers(&events),
        "Time: 1.50\n\
         Resource Transfers:\n\
         alpha.out ✗ pool.in (0.13 units)\n\
         alpha.* ✗ pool.* (0.13 units)\n\
         pool.out → drain.in (2.00 units)\n\
         zeta.* ✗ pool.* (12.00 units)\n"
    );
}

#[test]
fn amounts_are_written_with_two_decimals() {
    for (amount, text) in [
        (0.0, "0.00"),
        (0.004, "0.00"),
        (0.005, "0.01"),
        (7.0, "7.00"),
        (10.25, "10.25"),
        (-0.5, "-0.50"),
        (-3.456, "-3.46"),
        (1234.999, "1235.00"),
    ] {
        let events = vec![Event::new("a", "b", q(0.0), EventPayload::Resource(q(amount)))];
        assert_eq!(
            visualise_resource_transfers(&events),
            format!(
                "Time: 0.00\nResource Transfers:\na.* ✗ b.* ({} units)\n",
                text
            )
        );
    }
}
