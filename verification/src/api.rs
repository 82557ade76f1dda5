//! The query surface: what the published generation says, as metrics and as
//! a list of flows.

pub mod ip_data;
pub mod prometheus;
