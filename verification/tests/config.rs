use findproject::config::{ConfigError, Directory, FindprojectConfig};
use findproject::yaml::{config_from_node, config_to_node, config_to_yaml, parse_config};

fn dir(path: &str) -> Directory {
    Directory {
        path: String::from(path),
        only_self: false,
        exclude: Vec::new(),
        sub_directories: Vec::new(),
    }
}

#[test]
fn parses_a_full_document() {
    let text = "directories:\n  - path: /r\n    exclude:\n      - node_modules\n    sub_directories:\n      - path: special\n        only_self: true\n  - path: ~/p\n";
    let config = parse_config(text).unwrap();
    let mut root = dir("/r");
    root.exclude.push(String::from("node_modules"));
    let mut special = dir("special");
    special.only_self = true;
    root.sub_directories.push(special);
    let expected = FindprojectConfig { directories: vec![root, dir("~/p")] };
    assert_eq!(config, expected);
}

#[test]
fn omitted_fields_take_their_defaults() {
    let config = parse_config("directories:\n  - path: /r\n").unwrap();
    assert_eq!(config.directories.len(), 1);
    let d = &config.directories[0];
    assert_eq!(d.path, "/r");
    assert!(!d.only_self);
    assert!(d.exclude.is_empty());
    assert!(d.sub_directories.is_empty());
}

#[test]
fn unknown_keys_are_ignored() {
    let config = parse_config("directories:\n  - path: /r\n    color: blue\nextra: 3\n").unwrap();
    assert_eq!(config.directories.len(), 1);
    assert_eq!(config.directories[0].path, "/r");
}

#[test]
fn missing_directories_key_is_fatal() {
    assert_eq!(parse_config("something_else: 1\n"), Err(ConfigError::Schema));
}

#[test]
fn malformed_yaml_is_fatal() {
    assert_eq!(parse_config("directories: [\n"), Err(ConfigError::Syntax));
}

#[test]
fn wrong_kinds_are_fatal() {
    assert_eq!(parse_config("directories: 5\n"), Err(ConfigError::Schema));
    assert_eq!(parse_config("directories:\n  - path: 5\n"), Err(ConfigError::Schema));
    assert_eq!(parse_config("directories:\n  - only_self: true\n"), Err(ConfigError::Schema));
    assert_eq!(
        parse_config("directories:\n  - path: /r\n    only_self: 3\n"),
        Err(ConfigError::Schema)
    );
    assert_eq!(
        parse_config("directories:\n  - path: /r\n    exclude: x\n"),
        Err(ConfigError::Schema)
    );
    assert_eq!(
        parse_config("directories:\n  - path: /r\n    exclude:\n      - 1\n"),
        Err(ConfigError::Schema)
    );
    assert_eq!(
        parse_config("directories:\n  - path: /r\n    sub_directories:\n      - 1\n"),
        Err(ConfigError::Schema)
    );
}

fn sample_config() -> FindprojectConfig {
    let mut root = dir("~/projects");
    root.exclude.push(String::from("node_modules"));
    root.exclude.push(String::from("target"));
    let mut special = dir("special");
    special.only_self = true;
    let mut nested = dir("nested");
    nested.sub_directories.push(special);
    root.sub_directories.push(nested);
    FindprojectConfig { directories: vec![root, dir("/var/src")] }
}

#[test]
fn yaml_round_trip_returns_an_equal_value() {
    let config = sample_config();
    let text = config_to_yaml(&config).unwrap();
    let back = parse_config(&text).unwrap();
    assert_eq!(back, config);
}

#[test]
fn node_round_trip_returns_an_equal_value() {
    let config = sample_config();
    let node = config_to_node(&config);
    let back = config_from_node(&node).unwrap();
    assert_eq!(back, config);
}
