//! Choosing what to gather from the argument given: a path when one exists
//! there, else a preset of that name.
use crate::collect::Preset;
use crate::config::{has_preset, stores_preset, ConfigFile};
use crate::error::GatherError;
use crate::paths::{join_path, joined};
use vstd::prelude::*;

verus! {

/// What an invocation gathers.
#[derive(Debug, Clone)]
pub enum Target<'a> {
    /// Everything below a path, or the single file there.
    Path(String),
    /// The files a preset selects.
    Preset { name: String, preset: &'a Preset },
}

/// The path an argument names: absolute arguments as they are, others below
/// the repository root.
pub fn parse_target_path(argument: &str, repo_root: &str) -> (r: String)
    ensures
        r@ == joined(repo_root@, argument@),
{
    join_path(repo_root, argument)
}

/// Where the configuration file is: an absolute path as it is, another below
/// the repository root.
pub fn resolve_config_path(repo_root: &str, config: &str) -> (r: String)
    ensures
        r@ == joined(repo_root@, config@),
{
    join_path(repo_root, config)
}

/// Decides what to gather. Without an argument: the repository root. With
/// one: the path it names when `candidate_exists` says that path exists,
/// even where a preset has the same name; otherwise the preset of that name.
pub fn determine_target<'a>(
    target: Option<&str>,
    repo_root: &str,
    candidate_exists: bool,
    config: Option<&'a ConfigFile>,
) -> (r: Result<Target<'a>, GatherError>)
    ensures
        target is None ==> (r matches Ok(Target::Path(p)) && p@ == repo_root@),
        target is Some && candidate_exists ==> (r matches Ok(Target::Path(p)) && p@ == joined(
            repo_root@,
            target->0@,
        )),
        target is Some && !candidate_exists && config is None ==> (r matches Err(
            GatherError::ConfigMissing { preset },
        ) && preset@ == target->0@),
        target is Some && !candidate_exists && config is Some && !has_preset(*config->0, target->0@)
            ==> (r matches Err(GatherError::PresetNotFound { preset }) && preset@ == target->0@),
        target is Some && !candidate_exists && config is Some && has_preset(*config->0, target->0@)
            ==> (r matches Ok(Target::Preset { name, preset }) && name@ == target->0@
            && stores_preset(*config->0, target->0@, *preset)),
{
    match target {
        None => Ok(Target::Path(repo_root.to_owned())),
        Some(argument) => {
            if candidate_exists {
                return Ok(Target::Path(parse_target_path(argument, repo_root)));
            }
            match config {
                None => Err(GatherError::ConfigMissing { preset: argument.to_owned() }),
                Some(c) => match c.preset(argument) {
                    None => Err(GatherError::PresetNotFound { preset: argument.to_owned() }),
                    Some(p) => Ok(Target::Preset { name: argument.to_owned(), preset: p }),
                },
            }
        },
    }
}

} // verus!
