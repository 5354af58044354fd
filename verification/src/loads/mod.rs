pub mod lc_utils;
pub mod load;
pub mod load_combination;
pub mod load_group;
pub mod utils;

pub use load::{CalculationLoadType, LoadType};
pub use load_combination::LoadCombinationType;
pub use load_group::GroupType;
