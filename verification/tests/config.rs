use std::path::PathBuf;

use zellij_tools::config::{
    get_zellij_config_dir_with_env, parse_environ, resolve_include_path_with_env, StringHashMap,
};

fn make_env(vars: &[(&str, &str)]) -> StringHashMap<String> {
    let mut env = StringHashMap::new();
    for (k, v) in vars {
        env.insert(k.to_string(), v.to_string());
    }
    env
}

#[test]
fn parse_environ_basic() {
    let contents = "HOME=/home/user\0USER=user\0PATH=/bin";
    let env = parse_environ(contents);

    assert_eq!(env.get("HOME"), Some(&"/home/user".to_string()));
    assert_eq!(env.get("USER"), Some(&"user".to_string()));
    assert_eq!(env.get("PATH"), Some(&"/bin".to_string()));
}

#[test]
fn parse_environ_empty() {
    let env = parse_environ("");
    assert!(env.is_empty());
}

#[test]
fn parse_environ_with_equals_in_value() {
    let contents = "FOO=bar=baz\0";
    let env = parse_environ(contents);
    assert_eq!(env.get("FOO"), Some(&"bar=baz".to_string()));
}

#[test]
fn parse_environ_later_record_wins_and_records_without_equals_are_skipped() {
    let env = parse_environ("A=1\0NOVALUE\0A=2");
    assert_eq!(env.get("A"), Some(&"2".to_string()));
    assert!(!env.contains_key("NOVALUE"));
    assert_eq!(env.len(), 1);
}

#[test]
fn config_dir_uses_zellij_config_dir() {
    let env = make_env(&[("ZELLIJ_CONFIG_DIR", "/custom/zellij"), ("HOME", "/home/user")]);
    assert_eq!(PathBuf::from(get_zellij_config_dir_with_env(&env)), PathBuf::from("/custom/zellij"));
}

#[test]
fn config_dir_uses_xdg_config_home() {
    let env = make_env(&[("XDG_CONFIG_HOME", "/custom/config"), ("HOME", "/home/user")]);
    assert_eq!(PathBuf::from(get_zellij_config_dir_with_env(&env)), PathBuf::from("/custom/config/zellij"));
}

#[test]
fn config_dir_uses_home() {
    let env = make_env(&[("HOME", "/home/user")]);
    assert_eq!(PathBuf::from(get_zellij_config_dir_with_env(&env)), PathBuf::from("/home/user/.config/zellij"));
}

#[test]
fn config_dir_falls_back_to_etc() {
    let env = make_env(&[]);
    assert_eq!(PathBuf::from(get_zellij_config_dir_with_env(&env)), PathBuf::from("/etc/zellij"));
}

#[test]
fn resolve_absolute_path() {
    let env = make_env(&[("HOME", "/home/user")]);
    assert_eq!(
        PathBuf::from(resolve_include_path_with_env("/absolute/path.kdl", None, &env)),
        PathBuf::from("/absolute/path.kdl")
    );
}

#[test]
fn resolve_tilde_path() {
    let env = make_env(&[("HOME", "/home/user")]);
    assert_eq!(
        PathBuf::from(resolve_include_path_with_env("~/config/file.kdl", None, &env)),
        PathBuf::from("/home/user/config/file.kdl")
    );
}

#[test]
fn resolve_relative_path_with_home() {
    let env = make_env(&[("HOME", "/home/user")]);
    assert_eq!(
        PathBuf::from(resolve_include_path_with_env("file.kdl", None, &env)),
        PathBuf::from("/home/user/.config/zellij/file.kdl")
    );
}

#[test]
fn resolve_relative_path_with_zellij_config_dir() {
    let env = make_env(&[("ZELLIJ_CONFIG_DIR", "/custom/zellij"), ("HOME", "/home/user")]);
    assert_eq!(
        PathBuf::from(resolve_include_path_with_env("file.kdl", None, &env)),
        PathBuf::from("/custom/zellij/file.kdl")
    );
}

#[test]
fn resolve_relative_path_with_explicit_config_dir() {
    let env = make_env(&[("HOME", "/home/user")]);
    assert_eq!(
        PathBuf::from(resolve_include_path_with_env("file.kdl", Some("/explicit/dir"), &env)),
        PathBuf::from("/explicit/dir/file.kdl")
    );
}

#[test]
fn resolve_relative_path_with_tilde_config_dir() {
    let env = make_env(&[("HOME", "/home/user")]);
    assert_eq!(
        PathBuf::from(resolve_include_path_with_env("file.kdl", Some("~/myconfig"), &env)),
        PathBuf::from("/home/user/myconfig/file.kdl")
    );
}

#[test]
fn resolve_path_trims_whitespace() {
    let env = make_env(&[("HOME", "/home/user")]);
    assert_eq!(
        PathBuf::from(resolve_include_path_with_env("  file.kdl  ", None, &env)),
        PathBuf::from("/home/user/.config/zellij/file.kdl")
    );
}

#[test]
fn resolve_dotslash_relative_path() {
    let env = make_env(&[("HOME", "/home/user")]);
    assert_eq!(
        PathBuf::from(resolve_include_path_with_env("./file.kdl", None, &env)),
        PathBuf::from("/home/user/.config/zellij/./file.kdl")
    );
}

#[test]
fn resolve_tilde_path_without_home_keeps_tilde() {
    let env = make_env(&[]);
    assert_eq!(
        resolve_include_path_with_env("~/file.kdl", None, &env),
        "~/file.kdl".to_string()
    );
}
