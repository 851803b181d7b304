use aws_profile_select::{config_path_with_separator, resolve_config_path, ConfigPathError};
use std::path::PathBuf;

#[test]
fn resolve_config_path_uses_aws_config_file_when_set() {
    let path = resolve_config_path(Some("/custom/path/config".to_string()), Some("/home/me".to_string()));
    assert!(matches!(path, Ok(ref p) if p == "/custom/path/config"));
}

#[test]
fn resolve_config_path_ignores_empty_aws_config_file() {
    let path = resolve_config_path(Some(String::new()), Some("/home/me".to_string())).ok().unwrap();
    assert!(path.ends_with(".aws/config"), "expected fallback to ~/.aws/config, got: {:?}", path);
}

#[test]
fn resolve_config_path_falls_back_to_home_aws_config() {
    let path = resolve_config_path(None, Some("/home/me".to_string())).ok().unwrap();
    let expected = PathBuf::from("/home/me").join(".aws").join("config");
    assert_eq!(path, expected.to_string_lossy());
}

#[test]
fn resolve_config_path_home_with_trailing_slash() {
    let path = config_path_with_separator(None, Some("/".to_string()), '/').ok().unwrap();
    assert_eq!(path, "/.aws/config");
}

#[test]
fn resolve_config_path_without_home_fails() {
    assert!(matches!(resolve_config_path(None, None), Err(ConfigPathError::NoHomeDirectory)));
    assert!(matches!(
        resolve_config_path(Some(String::new()), None),
        Err(ConfigPathError::NoHomeDirectory)
    ));
}

#[test]
fn resolve_config_path_windows_separator() {
    let path = config_path_with_separator(None, Some("C:\\Users\\me".to_string()), '\\')
        .ok()
        .unwrap();
    assert_eq!(path, "C:\\Users\\me\\.aws\\config");
    let path = config_path_with_separator(None, Some("C:\\Users\\me\\".to_string()), '\\')
        .ok()
        .unwrap();
    assert_eq!(path, "C:\\Users\\me\\.aws\\config");
}

#[test]
fn no_home_message() {
    assert_eq!(
        ConfigPathError::NoHomeDirectory.message(),
        "Could not determine home directory. Set AWS_CONFIG_FILE or HOME."
    );
}

#[test]
fn resolve_config_path_bare_windows_drive() {
    let path = config_path_with_separator(None, Some("C:".to_string()), '\\').ok().unwrap();
    assert_eq!(path, "C:.aws\\config");
    let path = config_path_with_separator(None, Some("C:".to_string()), '/').ok().unwrap();
    assert_eq!(path, "C:/.aws/config");
    let path = config_path_with_separator(None, Some("1:".to_string()), '\\').ok().unwrap();
    assert_eq!(path, "1:\\.aws\\config");
}
