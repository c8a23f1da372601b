//! A verified network-reconnaissance core: service-probe database parsing,
//! banner matching, target and port expansion, and the heuristics and
//! progress accounting of a streaming TCP port scan.

pub mod text;
pub mod probe;
pub mod service_probe;
pub mod network;
