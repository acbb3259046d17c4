//! Selection of files by path or by named preset, and their rendering into
//! one annotated text.
pub mod paths;
pub mod readme;
pub mod render;
pub mod error;
pub mod globs;
pub mod ordered;
pub mod collect;
pub mod config;
pub mod target;
pub mod version;
pub mod clipboard;

pub use clipboard::{clipboard_commands, copy_to_clipboard, ClipboardCommand, ClipboardStep};
pub use collect::{
    build_preset_patterns, collect_from_path, collect_from_preset, collect_pattern_matches,
    ignored_dir_globs, resolve_base, Listing, Preset, WalkEntry,
};
pub use config::{ConfigError, ConfigFile};
pub use error::GatherError;
pub use globs::{build_globset, matches_exclude};
pub use paths::{display_path, is_direct_child, is_ignored_dir_name, is_readme, parent_path, relative_path};
pub use readme::{find_preferred_readme, promote_readme};
pub use render::{append_file_section, render_files};
pub use target::{determine_target, parse_target_path, resolve_config_path, Target};
pub use version::is_newer_version;
