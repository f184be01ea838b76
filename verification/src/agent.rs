pub mod agent;
pub mod util;
