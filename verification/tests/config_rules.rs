//! Configuration: defaults, files and flags.

use offcut::config::{config_path_in, default_config_path, CliOverrides, Config, Mode};

#[test]
fn default_has_builtin_markers_and_depth() {
    let c = Config::default();
    assert_eq!(c.max_depth, 4);
    assert_eq!(c.default_mode, Mode::Interactive);
    assert!(c.workspace_roots.is_empty());
    assert!(c.safe_delete.is_empty());
    assert!(c.project_markers.contains(&".git".to_string()));
    assert!(c.project_markers.contains(&"Cargo.toml".to_string()));
    assert!(c.project_markers.contains(&"*.csproj".to_string()));
}

#[test]
fn missing_file_falls_back_to_default() {
    let cfg = Config::load_or_default(None).unwrap();
    assert_eq!(cfg, Config::default());
}

#[test]
fn directory_at_config_path_falls_back_to_default() {
    assert_eq!(Config::load(None), Ok(None));
    assert_eq!(Config::load_or_default(None), Ok(Config::default()));
}

#[test]
fn a_file_that_does_not_parse_is_an_error() {
    assert_eq!(Config::load(Some(Err("bad".to_string()))), Err("bad".to_string()));
    assert_eq!(Config::load_or_default(Some(Err("bad".to_string()))), Err("bad".to_string()));
}

#[test]
fn a_file_that_parses_is_taken_as_it_is() {
    let mut c = Config::default();
    c.max_depth = 9;
    assert_eq!(Config::load(Some(Ok(c.clone()))), Ok(Some(c.clone())));
    assert_eq!(Config::load_or_default(Some(Ok(c.clone()))), Ok(c));
}

#[test]
fn apply_overrides_appends_workspaces() {
    let base = Config::default();
    let overrides = CliOverrides {
        workspace: vec!["/extra/root".to_string(), "/another".to_string()],
        ..Default::default()
    };
    let cfg = base.apply_overrides(&overrides);
    assert_eq!(
        cfg.workspace_roots,
        vec!["/extra/root".to_string(), "/another".to_string()]
    );
}

#[test]
fn apply_overrides_force_sets_force_mode() {
    let base = Config::default();
    let overrides = CliOverrides { force: true, ..Default::default() };
    let cfg = base.apply_overrides(&overrides);
    assert_eq!(cfg.default_mode, Mode::Force);
}

#[test]
fn apply_overrides_force_does_not_clear_workspaces() {
    let mut base = Config::default();
    base.workspace_roots.push("/keep".to_string());
    let overrides = CliOverrides {
        workspace: vec!["/added".to_string()],
        force: true,
        ..Default::default()
    };
    let cfg = base.apply_overrides(&overrides);
    assert_eq!(cfg.workspace_roots, vec!["/keep".to_string(), "/added".to_string()]);
    assert_eq!(cfg.default_mode, Mode::Force);
}

#[test]
fn override_precedence_cli_wins_over_config() {
    let file = Config { max_depth: 9, ..Default::default() };
    let cfg = Config::load_or_default(Some(Ok(file))).unwrap();
    assert_eq!(cfg.default_mode, Mode::Interactive);
    let overrides = CliOverrides { force: true, ..Default::default() };
    let cfg = cfg.apply_overrides(&overrides);
    assert_eq!(cfg.max_depth, 9);
    assert_eq!(cfg.default_mode, Mode::Force);
}

#[test]
fn default_config_path_is_under_config_dir() {
    if let Some(p) = default_config_path() {
        assert!(p.ends_with("devclean/config.toml"));
    }
    assert_eq!(
        config_path_in(Some("/home/me/.config".to_string())),
        Some("/home/me/.config/devclean/config.toml".to_string())
    );
    assert_eq!(config_path_in(None), None);
}

#[test]
fn modes_have_names() {
    assert_eq!(Mode::Interactive.name(), "interactive");
    assert_eq!(Mode::Force.name(), "force");
}
