//! Error and logging data types shared across the crate: a tagged error with
//! a severity tier, and the log record vocabulary the host application files
//! reports under.

use vstd::prelude::*;

verus! {

/// Severity tiers of a log record.
#[derive(Clone, Copy, PartialEq, Eq, Structural, Debug)]
pub enum LoggingError {
    Warning,
    Error,
    Info,
}

/// How much the host application chooses to log.
#[derive(Clone, Copy, PartialEq, Eq, Structural, Debug)]
pub enum Logging {
    Everything,
    ErrorOnly,
    Nothing,
    WarningOnly,
    MemoryOnly,
    PerformanceOnly,
}

/// The category a log record is filed under.
#[derive(Clone, Copy, PartialEq, Eq, Structural, Debug)]
pub enum LogType {
    Memory,
    Performance,
    Information,
    Error,
    Warning,
}

/// One log record.
#[derive(Clone, Debug)]
pub struct Log {
    pub message: String,
    pub level: LoggingError,
}

/// Whether a record of category `log_type` passes the `level` filter.
pub open spec fn spec_log_enabled(level: Logging, log_type: LogType) -> bool {
    match log_type {
        LogType::Error => level is ErrorOnly || level is Everything,
        LogType::Information => level is Everything,
        LogType::Memory => level is MemoryOnly || level is Everything || level is WarningOnly,
        LogType::Performance => level is PerformanceOnly || level is Everything
            || level is WarningOnly,
        LogType::Warning => level is WarningOnly || level is Everything,
    }
}

/// Decides whether a record of category `log_type` is kept under the logging
/// level `level`.
pub fn log_enabled(level: &Logging, log_type: &LogType) -> (r: bool)
    ensures
        r == spec_log_enabled(*level, *log_type),
{
    match log_type {
        LogType::Error => matches!(level, Logging::ErrorOnly | Logging::Everything),
        LogType::Information => matches!(level, Logging::Everything),
        LogType::Memory => matches!(
            level,
            Logging::MemoryOnly | Logging::Everything | Logging::WarningOnly
        ),
        LogType::Performance => matches!(
            level,
            Logging::PerformanceOnly | Logging::Everything | Logging::WarningOnly
        ),
        LogType::Warning => matches!(level, Logging::WarningOnly | Logging::Everything),
    }
}

/// Severity of a `GameError`: `Fatal` aborts the session, the lower tiers are
/// reported and survived.
#[derive(Clone, Copy, PartialEq, Eq, Structural, Debug)]
pub enum Severity {
    Low,
    Medium,
    Fatal,
}

/// The top-level error the host application sees.
#[derive(Clone, Debug)]
pub struct GameError {
    pub message: String,
    pub severity: Severity,
}

/// An error raised by the tile grid or the world generator.
#[derive(Clone, Debug)]
pub struct TileMapError {
    pub message: String,
    pub level: LoggingError,
}

/// The severity a tile-map error level maps to when it is raised to the host.
pub open spec fn spec_severity_of_level(level: LoggingError) -> Severity {
    match level {
        LoggingError::Info => Severity::Low,
        LoggingError::Warning => Severity::Medium,
        LoggingError::Error => Severity::Fatal,
    }
}

impl From<TileMapError> for GameError {
    fn from(error: TileMapError) -> (r: GameError) {
        GameError {
            message: error.message,
            severity: match error.level {
                LoggingError::Info => Severity::Low,
                LoggingError::Warning => Severity::Medium,
                LoggingError::Error => Severity::Fatal,
            },
        }
    }
}

impl vstd::std_specs::convert::FromSpecImpl<TileMapError> for GameError {
    open spec fn obeys_from_spec() -> bool {
        true
    }

    open spec fn from_spec(error: TileMapError) -> GameError {
        GameError { message: error.message, severity: spec_severity_of_level(error.level) }
    }
}

/// An error raised while rendering a UI element.
#[derive(Clone, Debug)]
pub struct UiError {
    pub message: String,
    pub severity: LoggingError,
}

/// An error raised while loading textures.
#[derive(Clone, Debug)]
pub struct TextureError {
    pub details: String,
}

/// An error raised by the shader pipeline.
#[derive(Clone, Debug)]
pub struct ShaderError {
    pub details: String,
}

/// The shader dispatch contexts the host knows; the last variant counts them.
#[derive(Clone, Copy, PartialEq, Eq, Structural, Debug)]
pub enum ShaderContext {
    GameLoop,
    NumContexts,
}

} // verus!
