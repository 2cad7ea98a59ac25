//! The health model: per-backend states and the rule that folds them into
//! one overall answer. Probing the backends is the caller's business; the
//! fold is specified and verified here.

use vstd::prelude::*;

verus! {

/// One component's condition.
#[derive(Debug, Clone, Copy, PartialEq, Eq, Structural)]
pub enum HealthStatus {
    Healthy,
    Degraded,
    Unhealthy,
}

/// One backend's probed condition.
pub struct StorageHealth {
    pub status: HealthStatus,
    pub message: Option<String>,
    pub response_time_ms: u64,
    pub last_check: i64,
}

/// The mathematical value of a [`StorageHealth`].
pub ghost struct StorageHealthView {
    pub status: HealthStatus,
    pub message: Option<Seq<char>>,
    pub response_time_ms: u64,
    pub last_check: i64,
}

impl View for StorageHealth {
    type V = StorageHealthView;

    open spec fn view(&self) -> StorageHealthView {
        StorageHealthView {
            status: self.status,
            message: self.message.deep_view(),
            response_time_ms: self.response_time_ms,
            last_check: self.last_check,
        }
    }
}

impl DeepView for StorageHealth {
    type V = StorageHealthView;

    open spec fn deep_view(&self) -> StorageHealthView {
        self.view()
    }
}

/// Per-backend conditions with process-wide facts.
pub struct HealthDetails {
    pub storages: Vec<(String, StorageHealth)>,
    pub uptime_seconds: u64,
    pub version: String,
}

/// One whole health report.
pub struct HealthCheck {
    pub status: HealthStatus,
    pub timestamp: i64,
    pub details: HealthDetails,
}

/// Whether some probed backend is in condition `s`.
pub open spec fn has_status(hs: Seq<(Seq<char>, StorageHealthView)>, s: HealthStatus) -> bool {
    exists|i: int| 0 <= i < hs.len() && (#[trigger] hs[i]).1.status == s
}

/// Folds per-backend conditions into one: unhealthy when any backend is,
/// else degraded when any backend is, else healthy.
pub fn overall_status(healths: &Vec<(String, StorageHealth)>) -> (r: HealthStatus)
    ensures
        r == if has_status(healths.deep_view(), HealthStatus::Unhealthy) {
            HealthStatus::Unhealthy
        } else if has_status(healths.deep_view(), HealthStatus::Degraded) {
            HealthStatus::Degraded
        } else {
            HealthStatus::Healthy
        },
{
    let mut any_unhealthy = false;
    let mut any_degraded = false;
    let mut i: usize = 0;
    while i < healths.len()
        invariant
            0 <= i <= healths.len(),
            any_unhealthy == exists|j: int|
                0 <= j < i && (#[trigger] healths.deep_view()[j]).1.status
                    == HealthStatus::Unhealthy,
            any_degraded == exists|j: int|
                0 <= j < i && (#[trigger] healths.deep_view()[j]).1.status
                    == HealthStatus::Degraded,
        decreases healths.len() - i,
    {
        let status = healths[i].1.status;
        proof {
            assert(healths.deep_view()[i as int].1.status == healths@[i as int].1.status);
        }
        match status {
            HealthStatus::Unhealthy => {
                any_unhealthy = true;
            },
            HealthStatus::Degraded => {
                any_degraded = true;
            },
            HealthStatus::Healthy => {},
        }
        i += 1;
    }
    if any_unhealthy {
        HealthStatus::Unhealthy
    } else if any_degraded {
        HealthStatus::Degraded
    } else {
        HealthStatus::Healthy
    }
}

} // verus!
