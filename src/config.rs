//! Settings: where the store listens, how long collections stay resident,
//! and how much is logged.
use vstd::prelude::*;

verus! {

pub struct GrpcConfig {
    pub ip: String,
    pub port: u32,
}

impl Default for GrpcConfig {
    fn default() -> (r: Self)
        ensures
            r.ip@ == "127.0.0.1"@,
            r.port == 8009,
    {
        GrpcConfig { ip: String::from_str("127.0.0.1"), port: 8009 }
    }
}

/// How often (in minutes) every resident collection is written back
/// (`cache_time`), after how many idle minutes one is dropped
/// (`flush_time`), and where collections are kept (`dir`).
pub struct EngineConfig {
    pub cache_time: u32,
    pub flush_time: u32,
    pub dir: Option<String>,
}

impl Default for EngineConfig {
    fn default() -> (r: Self)
        ensures
            r.cache_time == 1,
            r.flush_time == 10,
            r.dir is None,
    {
        EngineConfig { cache_time: 1, flush_time: 10, dir: None }
    }
}

impl EngineConfig {
    /// The period of the full sync, in milliseconds.
    pub fn sync_period_ms(&self) -> (r: u64)
        ensures
            r == self.cache_time as u64 * 60000,
    {
        self.cache_time as u64 * 60000
    }

    /// How long a collection stays resident after its last access, in
    /// milliseconds; also the period of the expiry sweep.
    pub fn flush_interval_ms(&self) -> (r: u64)
        ensures
            r == self.flush_time as u64 * 60000,
    {
        self.flush_time as u64 * 60000
    }

    /// The storage root: `dir`, or `./rusdb` when none is set.
    pub fn storage_dir(&self) -> (r: String)
        ensures
            match &self.dir {
                Some(d) => r@ == d@,
                None => r@ == "./rusdb"@,
            },
    {
        match &self.dir {
            Some(d) => d.clone(),
            None => String::from_str("./rusdb"),
        }
    }
}

/// How much is logged, from nothing to everything.
#[derive(Debug, Clone, Copy, PartialEq, Eq, Structural)]
pub enum LogLevel {
    Off,
    Error,
    Warn,
    Info,
    Debug,
    Trace,
}

pub struct LogConfig {
    pub path: Option<String>,
    pub level: Option<u8>,
}

impl Default for LogConfig {
    fn default() -> (r: Self)
        ensures
            r.path is None,
            r.level is None,
    {
        LogConfig { path: None, level: None }
    }
}

impl LogConfig {
    /// The level that `level` names (0 off to 5 trace, higher is trace);
    /// without one, debug in a debug build and info otherwise.
    pub fn log_level(&self, debug_build: bool) -> (r: LogLevel)
        ensures
            self.level == Some(0u8) ==> r == LogLevel::Off,
            self.level == Some(1u8) ==> r == LogLevel::Error,
            self.level == Some(2u8) ==> r == LogLevel::Warn,
            self.level == Some(3u8) ==> r == LogLevel::Info,
            self.level == Some(4u8) ==> r == LogLevel::Debug,
            (self.level is Some && self.level.unwrap() >= 5) ==> r == LogLevel::Trace,
            (self.level is None && debug_build) ==> r == LogLevel::Debug,
            (self.level is None && !debug_build) ==> r == LogLevel::Info,
    {
        match self.level {
            Some(lv) => {
                if lv == 0 {
                    LogLevel::Off
                } else if lv == 1 {
                    LogLevel::Error
                } else if lv == 2 {
                    LogLevel::Warn
                } else if lv == 3 {
                    LogLevel::Info
                } else if lv == 4 {
                    LogLevel::Debug
                } else {
                    LogLevel::Trace
                }
            },
            None => {
                if debug_build {
                    LogLevel::Debug
                } else {
                    LogLevel::Info
                }
            },
        }
    }
}

pub struct RusDbConfig {
    pub grpc: GrpcConfig,
    pub engine: EngineConfig,
    pub logging: Option<LogConfig>,
}

impl Default for RusDbConfig {
    fn default() -> (r: Self)
        ensures
            r.grpc.ip@ == "127.0.0.1"@,
            r.grpc.port == 8009,
            r.engine.cache_time == 1,
            r.engine.flush_time == 10,
            r.engine.dir is None,
            r.logging is None,
    {
        RusDbConfig { grpc: GrpcConfig::default(), engine: EngineConfig::default(), logging: None }
    }
}

} // verus!
