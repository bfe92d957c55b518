//! Observation core of a probabilistic variant caller: candidate regions for
//! realignment, the observation record codec, and the breakend-aware
//! preprocessing pipeline.

pub mod breakends;
pub mod bytes;
pub mod codec;
pub mod genome;
pub mod header;
pub mod likelihood;
pub mod observation;
pub mod preprocessing;
pub mod realignment;
pub mod table;
pub mod units;
pub mod variant;
pub mod wire;
