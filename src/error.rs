//! The ways in which gathering files fails.
use vstd::prelude::*;

verus! {

/// Why a target could not be gathered. Every failure ends the invocation.
#[derive(Debug, Clone, PartialEq, Eq)]
pub enum GatherError {
    /// A path target that does not exist.
    TargetNotFound { path: String },
    /// A preset was asked for but no configuration is available.
    ConfigMissing { preset: String },
    /// The configuration holds no preset of that name.
    PresetNotFound { preset: String },
    /// A pattern of the preset does not compile.
    InvalidGlobPattern { preset: String, pattern: String },
    /// The exclude patterns of the preset compiled one by one but not as a set.
    ExcludeSetFailed { preset: String },
    /// A selecting pattern of the preset leaves no file once filtered.
    PatternMatchedNothing { preset: String, pattern: String },
    /// A selected file could not be read as text.
    ReadError { path: String },
}

} // verus!
