pub mod gas_arm_m3_none;
pub mod properties;
