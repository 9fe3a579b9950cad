//! Output-mode selection: validates the mutually exclusive command flags and
//! resolves them into a single output mode, or a configuration error.
//!
//! Validation is a pure function of the raw flags; it is meant to run before
//! the external resolver is consulted, so that an invalid combination never
//! produces any output.

use vstd::prelude::*;

verus! {

/// The raw output-selection flags exactly as the command line hands them
/// over, plus whether a positional project path was given.
#[derive(Clone, Copy, PartialEq, Eq, Structural, Debug)]
pub struct RawFlags {
    pub yaml: bool,
    pub json: bool,
    pub short: bool,
    pub stats: bool,
    pub license: bool,
    pub omit_license_text: bool,
    pub manifest_path_given: bool,
}

/// The single resolved render mode. `SelfLicense` reports this tool's own
/// embedded dependency licenses and ignores the target project entirely.
#[derive(Clone, Copy, PartialEq, Eq, Structural, Debug)]
pub enum OutputMode {
    Full,
    Yaml,
    Json,
    Short,
    Stats,
    SelfLicense,
}

/// An invalid flag combination, detected before anything else runs.
#[derive(Clone, Copy, PartialEq, Eq, Structural, Debug)]
pub enum ConfigError {
    /// More than one of the five mode flags was given.
    ConflictingModes,
    /// `--omit-license-text` with `--short`: that mode never prints license
    /// text, so the toggle is meaningless there.
    OmitTextWithShort,
    /// `--omit-license-text` with `--stats`: same reason as for `--short`.
    OmitTextWithStats,
    /// `--license` with a project path: the self-license mode consults no
    /// target project.
    PathWithSelfLicense,
}

/// 1 for a set flag, 0 for a clear one.
pub open spec fn flag_as_count(b: bool) -> int {
    if b {
        1
    } else {
        0
    }
}

/// How many of the five mutually exclusive mode flags are set.
pub open spec fn mode_flag_count(f: RawFlags) -> int {
    flag_as_count(f.yaml) + flag_as_count(f.json) + flag_as_count(f.short) + flag_as_count(
        f.stats,
    ) + flag_as_count(f.license)
}

/// The mode a valid flag set selects: the one set mode flag, or the full
/// text dump when none is set.
pub open spec fn chosen_mode(f: RawFlags) -> OutputMode {
    if f.license {
        OutputMode::SelfLicense
    } else if f.yaml {
        OutputMode::Yaml
    } else if f.json {
        OutputMode::Json
    } else if f.short {
        OutputMode::Short
    } else if f.stats {
        OutputMode::Stats
    } else {
        OutputMode::Full
    }
}

/// What mode selection returns on every flag combination: the first
/// applicable error in a fixed order, else the resolved mode.
pub open spec fn select_mode_spec(f: RawFlags) -> Result<OutputMode, ConfigError> {
    if mode_flag_count(f) > 1 {
        Err(ConfigError::ConflictingModes)
    } else if f.omit_license_text && f.short {
        Err(ConfigError::OmitTextWithShort)
    } else if f.omit_license_text && f.stats {
        Err(ConfigError::OmitTextWithStats)
    } else if f.license && f.manifest_path_given {
        Err(ConfigError::PathWithSelfLicense)
    } else {
        Ok(chosen_mode(f))
    }
}

/// Validates the flag set and resolves the single active output mode.
pub fn select_mode(f: &RawFlags) -> (r: Result<OutputMode, ConfigError>)
    ensures
        r == select_mode_spec(*f),
{
    let mut count: u32 = 0;
    if f.yaml {
        count = count + 1;
    }
    if f.json {
        count = count + 1;
    }
    if f.short {
        count = count + 1;
    }
    if f.stats {
        count = count + 1;
    }
    if f.license {
        count = count + 1;
    }
    if count > 1 {
        Err(ConfigError::ConflictingModes)
    } else if f.omit_license_text && f.short {
        Err(ConfigError::OmitTextWithShort)
    } else if f.omit_license_text && f.stats {
        Err(ConfigError::OmitTextWithStats)
    } else if f.license && f.manifest_path_given {
        Err(ConfigError::PathWithSelfLicense)
    } else if f.license {
        Ok(OutputMode::SelfLicense)
    } else if f.yaml {
        Ok(OutputMode::Yaml)
    } else if f.json {
        Ok(OutputMode::Json)
    } else if f.short {
        Ok(OutputMode::Short)
    } else if f.stats {
        Ok(OutputMode::Stats)
    } else {
        Ok(OutputMode::Full)
    }
}

/// Law: `--omit-license-text` together with `--short` or `--stats` is always
/// rejected as a configuration error, whatever the other flags say.
pub proof fn lemma_omit_text_conflicts(f: RawFlags)
    ensures
        f.omit_license_text && (f.short || f.stats) ==> select_mode_spec(f) is Err,
{
}

/// Law: `--license` together with a positional project path is always
/// rejected as a configuration error, whatever the other flags say.
pub proof fn lemma_self_license_excludes_path(f: RawFlags)
    ensures
        f.license && f.manifest_path_given ==> select_mode_spec(f) is Err,
{
}

impl ConfigError {
    /// The human-readable description of this configuration error.
    pub open spec fn message_spec(self) -> Seq<char> {
        match self {
            ConfigError::ConflictingModes => "conflicting flags: at most one output mode of --yaml, --json, --short, --stats, --license may be given"@,
            ConfigError::OmitTextWithShort => "--omit-license-text cannot be combined with --short: the short mode never prints license text"@,
            ConfigError::OmitTextWithStats => "--omit-license-text cannot be combined with --stats: the stats mode never prints license text"@,
            ConfigError::PathWithSelfLicense => "--license reports this tool's own dependencies and cannot be combined with a project path"@,
        }
    }

    /// Renders the description of this configuration error.
    pub fn message(&self) -> (r: String)
        ensures
            r@ == self.message_spec(),
    {
        match self {
            ConfigError::ConflictingModes => String::from_str(
                "conflicting flags: at most one output mode of --yaml, --json, --short, --stats, --license may be given",
            ),
            ConfigError::OmitTextWithShort => String::from_str(
                "--omit-license-text cannot be combined with --short: the short mode never prints license text",
            ),
            ConfigError::OmitTextWithStats => String::from_str(
                "--omit-license-text cannot be combined with --stats: the stats mode never prints license text",
            ),
            ConfigError::PathWithSelfLicense => String::from_str(
                "--license reports this tool's own dependencies and cannot be combined with a project path",
            ),
        }
    }
}

} // verus!
