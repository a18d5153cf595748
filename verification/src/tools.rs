pub mod system;
pub mod planner;
