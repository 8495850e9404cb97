use findproject::paths::{expand_tilde, get_default_config_path, join_path, resolve_path};

#[test]
fn tilde_expands_to_home() {
    let home = Some(String::from("/home/u"));
    assert_eq!(expand_tilde("~/projects", &home), "/home/u/projects");
}

#[test]
fn tilde_without_home_stays_literal() {
    assert_eq!(expand_tilde("~/projects", &None), "~/projects");
}

#[test]
fn every_tilde_is_expanded() {
    let home = Some(String::from("/h"));
    assert_eq!(expand_tilde("~/a~b", &home), "/h/a/hb");
}

#[test]
fn no_tilde_means_no_change() {
    let home = Some(String::from("/home/u"));
    assert_eq!(expand_tilde("/var/data", &home), "/var/data");
    assert_eq!(expand_tilde("", &home), "");
}

#[test]
fn join_inserts_separator() {
    assert_eq!(join_path("/r", "a"), "/r/a");
}

#[test]
fn join_keeps_existing_separator() {
    assert_eq!(join_path("/r/", "a"), "/r/a");
}

#[test]
fn join_with_empty_base_keeps_segment() {
    assert_eq!(join_path("", "sub/dir"), "sub/dir");
}

#[test]
fn join_absolute_segment_stands_alone() {
    assert_eq!(join_path("/r", "/abs"), "/abs");
}

#[test]
fn resolve_joins_then_expands() {
    let home = Some(String::from("/home/u"));
    assert_eq!(resolve_path("", "~/p", &home), "/home/u/p");
    assert_eq!(resolve_path("/base", "x", &home), "/base/x");
}

#[test]
fn default_config_path_under_xdg_base() {
    let xdg = Some(String::from("/xdg"));
    assert_eq!(get_default_config_path(&xdg), "/xdg/findproject/config.yaml");
}

#[test]
fn default_config_path_without_xdg_base() {
    assert_eq!(get_default_config_path(&None), "~/.config/findproject/config.yaml");
}
