//! Gateway core for polling register/coil devices and republishing their
//! values as gauges: the device model and its validation, the device table,
//! the metrics registry, the poll cycle and the control operations.

pub mod text;
pub mod json;
pub mod errors;
pub mod clients;
pub mod configuration;
pub mod logging;
pub mod prometheus;
pub mod routes;
pub mod utils;
