//! Liveness and readiness reporting.
//!
//! The checker holds the process start time and a readiness flag.
//! Liveness always reports healthy while the process runs; readiness
//! follows the flag. Both carry the uptime and the crate version.

use vstd::prelude::*;

use crate::text::{dec_str_u64, spec_dec};

verus! {

/// Relies on `std::time::Instant`: an opaque point in time.
#[verifier::external_type_specification]
#[verifier::external_body]
pub struct ExInstant(std::time::Instant);

/// Relies on `std::time::Instant::now`: the current point in time.
#[verifier::external_body]
fn instant_now() -> std::time::Instant {
    std::time::Instant::now()
}

/// Relies on `std::time::Instant::elapsed`: the time since `start`. The
/// value depends on the clock, so nothing is promised of it.
#[verifier::external_body]
fn elapsed_since(start: &std::time::Instant) -> std::time::Duration {
    start.elapsed()
}

/// Relies on `core::time::Duration::as_secs`: the whole seconds of the
/// duration. Durations are opaque here, so nothing is promised of the
/// value.
#[verifier::external_body]
fn duration_secs(d: std::time::Duration) -> u64 {
    d.as_secs()
}

/// Health state of the service.
#[derive(Debug, Clone, Copy, PartialEq, Eq, Structural)]
pub enum HealthStatus {
    Healthy,
    Unhealthy,
    Degraded,
}

impl HealthStatus {
    /// The status keyword, as the health endpoint reports it.
    pub fn as_str(&self) -> (r: &'static str)
        ensures
            *self == HealthStatus::Healthy ==> r@ == "healthy"@,
            *self == HealthStatus::Unhealthy ==> r@ == "unhealthy"@,
            *self == HealthStatus::Degraded ==> r@ == "degraded"@,
    {
        match self {
            HealthStatus::Healthy => "healthy",
            HealthStatus::Unhealthy => "unhealthy",
            HealthStatus::Degraded => "degraded",
        }
    }
}

/// One answer of the health endpoint.
#[derive(Debug)]
pub struct HealthResponse {
    pub status: HealthStatus,
    pub version: String,
    pub uptime_seconds: u64,
    pub message: Option<String>,
}

/// The crate version reported by the health endpoint.
pub fn crate_version() -> (r: String)
    ensures
        r@ == "0.1.0"@,
{
    String::from_str("0.1.0")
}

/// Tracks process start time and readiness.
pub struct HealthChecker {
    /// When the service started.
    pub start_time: std::time::Instant,
    /// Whether the service reports ready.
    pub ready: bool,
    /// The version string carried in every response.
    pub version: String,
}

/// The uptime rendering: days, hours, minutes and seconds, largest
/// non-zero unit first.
pub open spec fn spec_format_uptime(t: nat) -> Seq<char> {
    let d = t / 86400;
    let h = (t % 86400) / 3600;
    let m = (t % 3600) / 60;
    let s = t % 60;
    if d > 0 {
        spec_dec(d) + "d "@ + spec_dec(h) + "h "@ + spec_dec(m) + "m "@ + spec_dec(s) + "s"@
    } else if h > 0 {
        spec_dec(h) + "h "@ + spec_dec(m) + "m "@ + spec_dec(s) + "s"@
    } else if m > 0 {
        spec_dec(m) + "m "@ + spec_dec(s) + "s"@
    } else {
        spec_dec(s) + "s"@
    }
}

/// Render an uptime in seconds (see `spec_format_uptime`).
pub fn format_uptime(total_seconds: u64) -> (r: String)
    ensures
        r@ == spec_format_uptime(total_seconds as nat),
{
    let t = total_seconds;
    let days: u64 = t / 86400;
    let hours: u64 = (t % 86400) / 3600;
    let minutes: u64 = (t % 3600) / 60;
    let seconds: u64 = t % 60;
    let mut r = String::new();
    if days > 0 {
        let ds = dec_str_u64(days);
        r.append(ds.as_str());
        r.append("d ");
    }
    if days > 0 || hours > 0 {
        let hs = dec_str_u64(hours);
        r.append(hs.as_str());
        r.append("h ");
    }
    if days > 0 || hours > 0 || minutes > 0 {
        let ms = dec_str_u64(minutes);
        r.append(ms.as_str());
        r.append("m ");
    }
    let ss = dec_str_u64(seconds);
    r.append(ss.as_str());
    r.append("s");
    proof {
        assert(r@ =~= spec_format_uptime(total_seconds as nat));
    }
    r
}

impl HealthChecker {
    /// A fresh checker: start time now, ready, carrying the crate version.
    pub fn new() -> (r: Self)
        ensures
            r.ready,
            r.version@ == "0.1.0"@,
    {
        HealthChecker { start_time: instant_now(), ready: true, version: crate_version() }
    }

    /// Liveness: healthy as long as the process runs.
    pub fn liveness(&self) -> (r: HealthResponse)
        ensures
            r.status == HealthStatus::Healthy,
            r.version@ == self.version@,
            r.message is None,
    {
        HealthResponse {
            status: HealthStatus::Healthy,
            version: self.version.clone(),
            uptime_seconds: self.uptime_seconds(),
            message: None,
        }
    }

    /// Readiness: healthy exactly when the readiness flag is set; an
    /// unready service carries an explanatory message.
    pub fn readiness(&self) -> (r: HealthResponse)
        ensures
            self.ready ==> r.status == HealthStatus::Healthy && r.message is None,
            !self.ready ==> r.status == HealthStatus::Unhealthy && (r.message matches Some(m)
                && m@ == "Service is not ready"@),
            r.version@ == self.version@,
    {
        let ready = self.ready;
        HealthResponse {
            status: if ready {
                HealthStatus::Healthy
            } else {
                HealthStatus::Unhealthy
            },
            version: self.version.clone(),
            uptime_seconds: self.uptime_seconds(),
            message: if ready {
                None
            } else {
                Some(String::from_str("Service is not ready"))
            },
        }
    }

    /// Set the readiness flag; the start time (and with it the uptime
    /// clock) and the version are untouched.
    pub fn set_ready(&mut self, ready: bool)
        ensures
            final(self).ready == ready,
            final(self).start_time == old(self).start_time,
            final(self).version == old(self).version,
    {
        self.ready = ready;
    }

    /// Read the readiness flag.
    pub fn is_ready(&self) -> (r: bool)
        ensures
            r == self.ready,
    {
        self.ready
    }

    /// Whole seconds since the checker was created. The value comes from
    /// the clock, so nothing more is promised of it.
    pub fn uptime_seconds(&self) -> u64 {
        duration_secs(elapsed_since(&self.start_time))
    }

    /// The uptime, rendered as days, hours, minutes and seconds.
    pub fn uptime_formatted(&self) -> (r: String)
        ensures
            exists|t: u64| r@ == spec_format_uptime(t as nat),
    {
        let total = self.uptime_seconds();
        let r = format_uptime(total);
        proof {
            assert(r@ == spec_format_uptime(total as nat));
        }
        r
    }
}

impl Default for HealthChecker {
    fn default() -> (r: Self)
        ensures
            r.ready,
            r.version@ == "0.1.0"@,
    {
        Self::new()
    }
}

} // verus!
