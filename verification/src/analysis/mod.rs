pub mod utils;

pub use utils::visualise_resource_transfers;
