use simcraft::fixed::Fixed;
use simcraft::simulator::{Event, EventPayload, EventQueue};

fn q(x: f64) -> Fixed {
    Fixed::from_raw((x * 1e9).round() as i64)
}

#[test]
fn test_event_ordering() {
    let mut events = EventQueue::new();

    for event in [
        Event {
            source_id: "test".into(),
            target_id: "test".into(),
            time: q(2.0),
            payload: EventPayload::Step,
            source_port: None,
            target_port: None,
            sequence_number: 1,
        },
        Event {
            source_id: "test".into(),
            target_id: "test".into(),
            time: q(1.0),
            payload: EventPayload::Step,
            source_port: None,
            target_port: None,
            sequence_number: 2,
        },
        Event {
            source_id: "test".into(),
            target_id: "test".into(),
            time: q(1.0),
            payload: EventPayload::Step,
            source_port: None,
            target_port: None,
            sequence_number: 1,
        },
    ] {
        events.push(event);
    }

    // Events should be ordered by:
    // 1. Earlier time first (1.0 before 2.0)
    // 2. For same time, lower sequence number first
    let event_1 = events.pop().unwrap();
    let event_2 = events.pop().unwrap();
    let event_3 = events.pop().unwrap();

    assert_eq!(event_1.time, q(1.0));
    assert_eq!(event_1.sequence_number, 1);

    assert_eq!(event_2.time, q(1.0));
    assert_eq!(event_2.sequence_number, 2);

    assert_eq!(event_3.time, q(2.0));
    assert_eq!(event_3.sequence_number, 1);
}
