//! The periodic health check of the application: whether the model API is
//! reachable, whether the SQLite write-ahead log has grown too large, and
//! the notifications raised for either.
use vstd::prelude::*;
use crate::provider::{endpoint, endpoint_exec};

verus! {

/// The outcome of one round of health checks.
#[derive(Debug, Clone)]
pub struct HealthSnapshot {
    pub deepseek_reachable: bool,
    pub deepseek_latency_ms: u64,
    pub sqlite_wal_bytes: u64,
    pub wal_checkpoint_triggered: bool,
    pub subsystems_healthy: bool,
    pub timestamp: String,
}

/// Seconds between two rounds of checks.
pub const CHECK_INTERVAL_SECS: u64 = 10;

/// Size of the write-ahead log (10 MiB) above which a checkpoint is
/// reported.
pub const WAL_SIZE_WARN_THRESHOLD_BYTES: u64 = 10485760;

/// A notification: level, title and message.
pub type Notification = (String, String, String);

impl HealthSnapshot {
    /// The URL probed with a `HEAD` request: the configured base URL without
    /// trailing slashes, followed by `/models`.
    pub fn probe_url(base_url: &str) -> (url: String)
        ensures
            url@ == endpoint(base_url@, "/models"@),
    {
        endpoint_exec(base_url, "/models")
    }

    /// Whether the model API counts as reachable for an HTTP status: any
    /// success, or 401 (reachable, but the key is not accepted).
    pub fn reachable_status(status: u16) -> (b: bool)
        ensures
            b == ((200 <= status && status <= 299) || status == 401),
    {
        (200 <= status && status <= 299) || status == 401
    }

    /// Whether a write-ahead log of this size is reported as checkpointed.
    pub fn wal_checkpoint_triggered(wal_bytes: u64) -> (b: bool)
        ensures
            b == (wal_bytes > WAL_SIZE_WARN_THRESHOLD_BYTES),
    {
        wal_bytes > WAL_SIZE_WARN_THRESHOLD_BYTES
    }

    /// The snapshot of one round: the subsystems count as healthy when the
    /// model API is reachable.
    pub fn from_checks(
        deepseek_reachable: bool,
        deepseek_latency_ms: u64,
        sqlite_wal_bytes: u64,
        timestamp: String,
    ) -> (s: Self)
        ensures
            s.deepseek_reachable == deepseek_reachable,
            s.deepseek_latency_ms == deepseek_latency_ms,
            s.sqlite_wal_bytes == sqlite_wal_bytes,
            s.wal_checkpoint_triggered == (sqlite_wal_bytes > WAL_SIZE_WARN_THRESHOLD_BYTES),
            s.subsystems_healthy == deepseek_reachable,
            s.timestamp == timestamp,
    {
        HealthSnapshot {
            deepseek_reachable,
            deepseek_latency_ms,
            sqlite_wal_bytes,
            wal_checkpoint_triggered: Self::wal_checkpoint_triggered(sqlite_wal_bytes),
            subsystems_healthy: deepseek_reachable,
            timestamp,
        }
    }

    /// The notifications raised for a snapshot, in order: a warning when the
    /// model API is unreachable, a note when a checkpoint was triggered.
    pub fn notifications(&self) -> (n: Vec<Notification>)
        ensures
            n@.len() == (if self.deepseek_reachable { 0int } else { 1int }) + (
            if self.wal_checkpoint_triggered {
                1int
            } else {
                0int
            }),
            !self.deepseek_reachable ==> n@[0].0@ == "warning"@ && n@[0].1@ == "健康监测"@
                && n@[0].2@ == "DeepSeek API 不可达，请检查网络连接和 API 配置"@,
            self.wal_checkpoint_triggered ==> ({
                let last = n@[n@.len() - 1];
                last.0@ == "info"@ && last.1@ == "健康监测"@ && last.2@
                    == "SQLite WAL 文件已超过 10MB，自动执行 checkpoint"@
            }),
    {
        let mut n: Vec<Notification> = Vec::new();
        if !self.deepseek_reachable {
            n.push(
                (
                    String::from_str("warning"),
                    String::from_str("健康监测"),
                    String::from_str("DeepSeek API 不可达，请检查网络连接和 API 配置"),
                ),
            );
        }
        if self.wal_checkpoint_triggered {
            n.push(
                (
                    String::from_str("info"),
                    String::from_str("健康监测"),
                    String::from_str("SQLite WAL 文件已超过 10MB，自动执行 checkpoint"),
                ),
            );
        }
        n
    }
}

} // verus!
