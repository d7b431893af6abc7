//! The verified core of a network benchmark: what its streams send, what its servers answer, and
//! what its reports say.
use vstd::prelude::*;

pub mod bench;
pub mod binary;
pub mod bytes;
pub mod certs;
pub mod client;
pub mod config;
pub mod dashboard;
pub mod echo;
pub mod error;
pub mod figures;
pub mod history;
pub mod latency;
pub mod meaning;
pub mod net;
pub mod progress;
pub mod protocol;
pub mod recorder;
pub mod report;
pub mod server;
pub mod stats;
pub mod sweep;
pub mod text;
pub mod wire;

pub use config::{
    RateMode, RunConfig, ServerConfig, ServerTransport, SweepConfig, SweepObjective, Transport,
};
pub use error::IpfuschError;
pub use net::{PacketEvent, StreamRunSpec};
pub use protocol::{
    hash_token, read_control_frame, write_control_frame, ControlMessage, DataHeader,
    PROTOCOL_VERSION,
};
pub use report::{
    AggregateStats, IntervalStats, LatencyBucket, LatencyHistogram, Ratio, Recommendation,
    RunConfigSnapshot, RunMeta, RunReport, StreamStats,
};

verus! {

} // verus!
