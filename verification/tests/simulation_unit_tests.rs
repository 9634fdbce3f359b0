use simcraft::fixed::Fixed;
use simcraft::model::nodes::{Pool, Source};
use simcraft::model::{Connection, Process};
use simcraft::simulator::Simulation;
use simcraft::utils::SimulationError;

fn q(x: f64) -> Fixed {
    Fixed::from_raw((x * 1e9).round() as i64)
}

#[test]
fn test_remove_connection() -> Result<(), SimulationError> {
    let mut simulation = Simulation::new(vec![], vec![]).unwrap();

    let source = Process::from(Source::new("source"));
    let target = Process::from(Pool::new("target"));

    simulation.add_process(source)?;
    simulation.add_process(target)?;

    let connection_id = "1";
    let connection = Connection::new(
        connection_id.to_string(),
        "source".to_string(),
        Some("out".to_string()),
        "target".to_string(),
        Some("in".to_string()),
        Some(q(1.0)),
    );

    simulation.add_connection(connection).unwrap();
    simulation.remove_connection(&connection_id)?;

    Ok(())
}
