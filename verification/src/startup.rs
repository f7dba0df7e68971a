//! The start-up decisions of the proxy: the configured server host name
//! must be a valid TLS server name, which the routines then use, and the
//! profiler, with its bypass channel, runs exactly when bypass is enabled.

use vstd::prelude::*;
use crate::server_name::{server_name_accepted, server_name_of, CheckedServerName};

verus! {

/// Why the proxy does not start.
#[derive(Clone, Copy, Debug, PartialEq, Eq, Structural)]
pub enum StartupError {
    /// The configured host name is neither a DNS name nor an IP address.
    InvalidServerName,
}

/// The routines that the proxy runs side by side, and the server name that
/// its TLS connections use.
pub struct StartupPlan<'a> {
    pub server_name: CheckedServerName<'a>,
    pub run_tcp: bool,
    pub run_udp: bool,
    pub run_profiler: bool,
    pub bypass_channel: bool,
}

/// Decides how the proxy starts: it fails when the host name is not a valid
/// server name; otherwise the TCP and UDP routines always run, and the
/// profiler and its bypass channel exactly when bypass is enabled.
pub fn startup_plan<'a>(hostname: &'a str, enable_bypass: bool) -> (plan: Result<
    StartupPlan<'a>,
    StartupError,
>)
    ensures
        plan is Err <==> !server_name_accepted(hostname@),
        plan matches Err(e) ==> e == StartupError::InvalidServerName,
        plan matches Ok(p) ==> {
            &&& p.server_name.spec_source() == hostname@
            &&& p.run_tcp
            &&& p.run_udp
            &&& p.run_profiler == enable_bypass
            &&& p.bypass_channel == enable_bypass
        },
{
    match server_name_of(hostname) {
        Ok(server_name) => Ok(
            StartupPlan {
                server_name,
                run_tcp: true,
                run_udp: true,
                run_profiler: enable_bypass,
                bypass_channel: enable_bypass,
            },
        ),
        Err(_) => Err(StartupError::InvalidServerName),
    }
}

} // verus!
