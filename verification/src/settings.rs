//! Defaults of the service's configuration.

use vstd::prelude::*;
use vstd::string::*;

verus! {

/// The time between two sweeps, and the window of a swept cache, in
/// milliseconds: thirty minutes.
pub const SWEEP_INTERVAL_MILLIS: u128 = 1_800_000;

/// The log filter used when the configuration names none.
pub fn default_log() -> (log: String)
    ensures
        log@ == "INFO"@,
{
    String::from_str("INFO")
}

/// The address, as text, on which requests are served when the configuration
/// names none: every interface, port 50051.
pub fn default_grpc_listen_addr() -> (addr: String)
    ensures
        addr@ == "0.0.0.0:50051"@,
{
    String::from_str("0.0.0.0:50051")
}

/// The address, as text, on which metrics are served when the configuration
/// names none: every interface, port 9000.
pub fn default_metrics_listen_addr() -> (addr: String)
    ensures
        addr@ == "0.0.0.0:9000"@,
{
    String::from_str("0.0.0.0:9000")
}

} // verus!
