pub mod agents;
pub mod ui;
