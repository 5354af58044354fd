pub mod equivalent_loads;
pub mod matrices;
pub mod stiffness;
pub mod utils;
