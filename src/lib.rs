//! Sensor sampling, energy integration and line publishing for a
//! board-telemetry daemon.

pub mod decimal;
pub mod sensor;
pub mod sampler;
pub mod publish;
