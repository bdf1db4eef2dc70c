use emanager::config::{
    config_dir_under, config_under, file_under, get_config_dir, get_config_file_path,
    get_default_presets_path, get_presets_path, get_state_file_path, load_config,
    resolve_presets_path, AppConfig,
};
use emanager::error::EnvError;
use std::path::Path;

fn joined(parts: &[&str]) -> String {
    let mut path = Path::new(parts[0]).to_path_buf();
    for part in &parts[1..] {
        path.push(part);
    }
    path.to_str().unwrap().to_string()
}

#[test]
fn config_dir_is_the_programs_directory_under_the_base() {
    assert_eq!(
        config_dir_under(Some("/home/alice/.config")),
        Ok("/home/alice/.config/emanager".to_string())
    );
    assert_eq!(
        config_dir_under(Some("relative/base/")),
        Ok("relative/base/emanager".to_string())
    );
    assert_eq!(config_dir_under(None), Err(EnvError::ConfigDirNotFound));
}

#[test]
fn state_file_lies_in_the_programs_directory() {
    assert_eq!(
        file_under(Some("/home/alice/.config/"), "state"),
        Ok("/home/alice/.config/emanager/state".to_string())
    );
}

#[test]
fn files_lie_in_the_programs_directory() {
    for leaf in ["state", "config.json", "presets.json"] {
        assert_eq!(
            file_under(Some("/base"), leaf),
            Ok(format!("/base/emanager/{}", leaf))
        );
        assert_eq!(file_under(None, leaf), Err(EnvError::ConfigDirNotFound));
    }
}

#[test]
fn stored_settings_are_in_force() {
    let stored = AppConfig { presets_path: "/data/my.json".to_string() };
    assert_eq!(
        config_under(Some(stored), Some("/base")),
        Ok((AppConfig { presets_path: "/data/my.json".to_string() }, false))
    );
    let stored = AppConfig { presets_path: "/data/my.json".to_string() };
    assert_eq!(
        config_under(Some(stored), None),
        Ok((AppConfig { presets_path: "/data/my.json".to_string() }, false))
    );
}

#[test]
fn default_settings_point_into_the_programs_directory() {
    assert_eq!(
        config_under(None, Some("/base")),
        Ok((
            AppConfig { presets_path: "/base/emanager/presets.json".to_string() },
            true
        ))
    );
    assert_eq!(config_under(None, None), Err(EnvError::ConfigDirNotFound));
}

#[test]
fn absolute_path_resolves_to_itself() {
    assert_eq!(
        resolve_presets_path("/data/p.json", Some("/somewhere")),
        Ok("/data/p.json".to_string())
    );
    assert_eq!(
        resolve_presets_path("/data/p.json", None),
        Ok("/data/p.json".to_string())
    );
}

#[test]
fn relative_path_resolves_in_the_working_directory() {
    assert_eq!(
        resolve_presets_path("sub/p.json", Some("/work")),
        Ok("/work/sub/p.json".to_string())
    );
    assert_eq!(
        resolve_presets_path("p.json", None),
        Err(EnvError::PathResolutionError { path: "p.json".to_string() })
    );
}

#[test]
fn platform_paths_fit_together() {
    match get_config_dir() {
        Ok(dir) => {
            assert!(Path::new(&dir).ends_with("emanager"));
            assert_eq!(get_state_file_path(), Ok(joined(&[&dir, "state"])));
            assert_eq!(get_config_file_path(), Ok(joined(&[&dir, "config.json"])));
            assert_eq!(get_default_presets_path(), Ok(joined(&[&dir, "presets.json"])));
            assert_eq!(get_presets_path(None), Ok(joined(&[&dir, "presets.json"])));
            assert_eq!(
                load_config(None),
                Ok((AppConfig { presets_path: joined(&[&dir, "presets.json"]) }, true))
            );
        }
        Err(e) => {
            assert_eq!(e, EnvError::ConfigDirNotFound);
            assert_eq!(get_state_file_path(), Err(EnvError::ConfigDirNotFound));
            assert_eq!(get_config_file_path(), Err(EnvError::ConfigDirNotFound));
            assert_eq!(get_default_presets_path(), Err(EnvError::ConfigDirNotFound));
            assert_eq!(get_presets_path(None), Err(EnvError::ConfigDirNotFound));
            assert_eq!(load_config(None), Err(EnvError::ConfigDirNotFound));
        }
    }
}

#[test]
fn stored_presets_path_is_handed_out() {
    let stored = AppConfig { presets_path: "/data/my.json".to_string() };
    assert_eq!(get_presets_path(Some(stored)), Ok("/data/my.json".to_string()));
    let stored = AppConfig { presets_path: "/data/my.json".to_string() };
    assert_eq!(
        load_config(Some(stored)),
        Ok((AppConfig { presets_path: "/data/my.json".to_string() }, false))
    );
}
