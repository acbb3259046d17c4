use gather_files::{
    clipboard_commands, copy_to_clipboard, determine_target, parent_path, parse_target_path,
    resolve_config_path, ClipboardStep, ConfigError, ConfigFile, GatherError, Preset, Target,
};
use indexmap::IndexMap;

fn rust_preset() -> Preset {
    Preset {
        includes: vec!["src/**/*.rs".to_string()],
        exclude: vec!["src/lib.rs".to_string()],
        base: Some(".".to_string()),
    }
}

fn config_with(name: &str, preset: Preset) -> ConfigFile {
    let mut presets = IndexMap::new();
    presets.insert(name.to_string(), preset);
    ConfigFile { version: 1, presets }
}

#[test]
fn existing_path_wins_over_preset_of_same_name() {
    let config = config_with("docs", rust_preset());
    let target = determine_target(Some("docs"), "/work/repo", true, Some(&config)).unwrap();
    match target {
        Target::Path(p) => assert_eq!(p, "/work/repo/docs"),
        Target::Preset { .. } => panic!("expected the path"),
    }
}

#[test]
fn missing_path_resolves_to_preset() {
    let config = config_with("rust", rust_preset());
    let target = determine_target(Some("rust"), "/work/repo", false, Some(&config)).unwrap();
    match target {
        Target::Preset { name, preset } => {
            assert_eq!(name, "rust");
            assert_eq!(preset.includes, vec!["src/**/*.rs".to_string()]);
        }
        Target::Path(_) => panic!("expected the preset"),
    }
}

#[test]
fn no_argument_gathers_the_root() {
    match determine_target(None, "/work/repo", false, None).unwrap() {
        Target::Path(p) => assert_eq!(p, "/work/repo"),
        Target::Preset { .. } => panic!("expected the root"),
    }
}

#[test]
fn preset_errors() {
    let err = determine_target(Some("rust"), "/work/repo", false, None).unwrap_err();
    assert_eq!(err, GatherError::ConfigMissing { preset: "rust".to_string() });
    let config = config_with("docs", rust_preset());
    let err = determine_target(Some("rust"), "/work/repo", false, Some(&config)).unwrap_err();
    assert_eq!(err, GatherError::PresetNotFound { preset: "rust".to_string() });
}

#[test]
fn target_and_config_paths() {
    assert_eq!(parse_target_path("src", "/work/repo"), "/work/repo/src");
    assert_eq!(parse_target_path("/etc/hosts", "/work/repo"), "/etc/hosts");
    assert_eq!(resolve_config_path("/work/repo", ".gather-files.yaml"), "/work/repo/.gather-files.yaml");
    assert_eq!(resolve_config_path("/", "c.yaml"), "/c.yaml");
}

#[test]
fn config_validation() {
    let config = config_with("rust", rust_preset());
    assert_eq!(config.validate(), Ok(()));
    assert!(config.preset("rust").is_some());
    assert!(config.preset("docs").is_none());

    let mut wrong = config_with("rust", rust_preset());
    wrong.version = 2;
    assert_eq!(wrong.validate(), Err(ConfigError::UnsupportedVersion { version: 2 }));

    let mut empty = config_with("rust", rust_preset());
    empty.presets.insert("none".to_string(), Preset { includes: vec![], exclude: vec![], base: None });
    assert_eq!(empty.validate(), Err(ConfigError::EmptyPreset { name: "none".to_string() }));
}

#[test]
fn clipboard_tries_commands_in_order() {
    let commands = clipboard_commands();
    let programs: Vec<&str> = commands.iter().map(|c| c.program.as_str()).collect();
    assert_eq!(programs, vec!["pbcopy", "wl-copy", "xclip", "clip"]);
    assert_eq!(commands[2].args, vec!["-selection".to_string(), "clipboard".to_string()]);

    assert_eq!(copy_to_clipboard(0, false), ClipboardStep::Run(0));
    assert_eq!(copy_to_clipboard(2, false), ClipboardStep::Run(2));
    assert_eq!(copy_to_clipboard(2, true), ClipboardStep::Copied);
    assert_eq!(copy_to_clipboard(4, false), ClipboardStep::Unavailable);
}

#[test]
fn parents_of_paths() {
    assert_eq!(parent_path("/work/repo"), Some("/work".to_string()));
    assert_eq!(parent_path("/work"), Some("/".to_string()));
    assert_eq!(parent_path("/"), None);
    assert_eq!(parent_path("repo"), Some(String::new()));
    assert_eq!(parent_path(""), None);
}
