//! Interest-rate model of a pooled lending market: utilization and APY of
//! each listed asset, computed in fixed-point arithmetic with proved bounds.
pub mod fixed_point;
pub mod rate_model;
pub mod asset;
pub mod registry;
