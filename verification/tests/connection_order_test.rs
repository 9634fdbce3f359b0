use simcraft::fixed::Fixed;
use simcraft::model::nodes::{Drain, Pool, Stepper};
use simcraft::model::process_state::PoolState;
use simcraft::model::{Connection, Process, ProcessState};
use simcraft::simulator::Simulation;

fn q(x: f64) -> Fixed {
    Fixed::from_raw((x * 1e9).round() as i64)
}

#[test]
fn test_connection_order_priority() {
    // Create a simulation with a pool and three drains
    let stepper = Process::from(Stepper::builder().id("stepper").build().unwrap());
    let mut sim = Simulation::new(vec![stepper], vec![]).unwrap();

    // Create a passive pool with 2 resources
    let pool = Pool::builder()
        .id("pool")
        .state(PoolState {
            resources: q(2.0),
            ..Default::default()
        })
        .build()
        .unwrap();

    // Create three automatic pull-any drains
    let drain1 = Drain::new("drain1");
    let drain2 = Drain::new("drain2");
    let drain3 = Drain::new("drain3");

    // Add processes to simulation
    sim.add_process(Process::from(pool)).unwrap();
    sim.add_process(Process::from(drain1)).unwrap();
    sim.add_process(Process::from(drain2)).unwrap();
    sim.add_process(Process::from(drain3)).unwrap();

    // Create connections in sequence - this order should determine resource distribution
    let conn1 = Connection::new(
        "conn1".to_string(),
        "pool".to_string(),
        Some("out".to_string()),
        "drain1".to_string(),
        Some("in".to_string()),
        Some(q(1.0)),
    );
    let conn2 = Connection::new(
        "conn2".to_string(),
        "pool".to_string(),
        Some("out".to_string()),
        "drain2".to_string(),
        Some("in".to_string()),
        Some(q(1.0)),
    );
    let conn3 = Connection::new(
        "conn3".to_string(),
        "pool".to_string(),
        Some("out".to_string()),
        "drain3".to_string(),
        Some("in".to_string()),
        Some(q(1.0)),
    );

    // Add connections in sequence
    sim.add_connection(conn1).unwrap();
    sim.add_connection(conn2).unwrap();
    sim.add_connection(conn3).unwrap();

    // Run simulation for one step
    let _events = sim.step().unwrap();
    let state = sim.get_simulation_state();

    // Assert that only drain1 and drain2 got resources
    if let ProcessState::Pool(pool_state) = state.process_states.get("pool").unwrap() {
        assert_eq!(pool_state.resources, q(0.0));
    }

    if let ProcessState::Drain(drain_state) = state.process_states.get("drain1").unwrap() {
        assert_eq!(drain_state.resources_consumed, q(1.0));
    }

    if let ProcessState::Drain(drain_state) = state.process_states.get("drain2").unwrap() {
        assert_eq!(drain_state.resources_consumed, q(1.0));
    }

    if let ProcessState::Drain(drain_state) = state.process_states.get("drain3").unwrap() {
        assert_eq!(drain_state.resources_consumed, q(0.0));
    }
}
