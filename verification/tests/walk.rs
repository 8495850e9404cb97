use findproject::config::Directory;
use findproject::walk::{
    dirs_to_list, print_all_projects, should_print, walk_directory, FsDir, FsEntry, FsSnapshot,
    WalkError,
};

fn dir(path: &str) -> Directory {
    Directory {
        path: String::from(path),
        only_self: false,
        exclude: Vec::new(),
        sub_directories: Vec::new(),
    }
}

fn entry(name: &str, is_dir: bool) -> FsEntry {
    FsEntry { name: String::from(name), is_dir }
}

fn listing(path: &str, entries: Vec<FsEntry>) -> FsDir {
    FsDir { path: String::from(path), entries }
}

#[test]
fn should_print_skips_files() {
    let d = dir("/r");
    assert!(!should_print(&entry("a", false), &d));
    assert!(should_print(&entry("a", true), &d));
}

#[test]
fn should_print_skips_excluded_names() {
    let mut d = dir("/r");
    d.exclude.push(String::from("node_modules"));
    assert!(!should_print(&entry("node_modules", true), &d));
    assert!(should_print(&entry("src", true), &d));
}

#[test]
fn should_print_skips_sub_directory_names() {
    let mut d = dir("/r");
    d.sub_directories.push(dir("special"));
    assert!(!should_print(&entry("special", true), &d));
    assert!(should_print(&entry("plain", true), &d));
}

#[test]
fn only_self_emits_one_line_whatever_else_is_set() {
    let mut d = dir("~/p");
    d.only_self = true;
    d.exclude.push(String::from("ignored"));
    d.sub_directories.push(dir("also_ignored"));
    let fs = FsSnapshot { dirs: Vec::new() };
    let home = Some(String::from("/home/u"));
    let lines = walk_directory(&d, &String::new(), &fs, &home).unwrap();
    assert_eq!(lines, vec![String::from("/home/u/p")]);
}

#[test]
fn missing_listing_fails_the_branch() {
    let d = dir("/gone");
    let fs = FsSnapshot { dirs: Vec::new() };
    let r = walk_directory(&d, &String::new(), &fs, &None);
    assert_eq!(r, Err(WalkError::ListingFailed));
}

#[test]
fn example_excludes_and_dispatches() {
    let mut root = dir("/r");
    root.exclude.push(String::from("node_modules"));
    let mut special = dir("special");
    special.only_self = true;
    root.sub_directories.push(special);
    let fs = FsSnapshot {
        dirs: vec![listing(
            "/r",
            vec![entry("a", true), entry("node_modules", true), entry("special", true)],
        )],
    };
    let lines = walk_directory(&root, &String::new(), &fs, &None).unwrap();
    assert_eq!(lines, vec![String::from("/r/a"), String::from("/r/special")]);
}

#[test]
fn sub_directory_name_is_skipped_generically_and_walked_with_its_own_filters() {
    let mut root = dir("/r");
    let mut sub = dir("s");
    sub.exclude.push(String::from("y"));
    root.sub_directories.push(sub);
    let fs = FsSnapshot {
        dirs: vec![
            listing("/r", vec![entry("s", true), entry("b", true)]),
            listing("/r/s", vec![entry("x", true), entry("y", true)]),
        ],
    };
    let lines = walk_directory(&root, &String::new(), &fs, &None).unwrap();
    assert_eq!(lines, vec![String::from("/r/b"), String::from("/r/s/x")]);
}

#[test]
fn failed_branch_leaves_siblings_alone() {
    let first = dir("/missing");
    let second = dir("/ok");
    let fs = FsSnapshot { dirs: vec![listing("/ok", vec![entry("child", true)])] };
    let lines = print_all_projects(&vec![first, second], &fs, &None);
    assert_eq!(lines, vec![String::from("/ok/child")]);
}

#[test]
fn failed_sub_branch_leaves_parent_and_siblings_alone() {
    let mut root = dir("/r");
    root.sub_directories.push(dir("gone"));
    root.sub_directories.push(dir("here"));
    let fs = FsSnapshot {
        dirs: vec![
            listing("/r", vec![entry("a", true)]),
            listing("/r/here", vec![entry("p", true)]),
        ],
    };
    let lines = walk_directory(&root, &String::new(), &fs, &None).unwrap();
    assert_eq!(lines, vec![String::from("/r/a"), String::from("/r/here/p")]);
}

#[test]
fn listing_order_is_kept() {
    let root = dir("/r");
    let fs = FsSnapshot {
        dirs: vec![listing("/r", vec![entry("b", true), entry("a", true), entry("c", true)])],
    };
    let lines = walk_directory(&root, &String::new(), &fs, &None).unwrap();
    assert_eq!(
        lines,
        vec![String::from("/r/b"), String::from("/r/a"), String::from("/r/c")]
    );
}

#[test]
fn dirs_to_list_gives_every_listing_path() {
    let mut root = dir("~/r");
    let mut leaf = dir("leaf");
    leaf.only_self = true;
    root.sub_directories.push(dir("s"));
    root.sub_directories.push(leaf);
    let home = Some(String::from("/h"));
    let paths = dirs_to_list(&vec![root, dir("/other")], &home);
    assert_eq!(
        paths,
        vec![String::from("/h/r"), String::from("/h/r/s"), String::from("/other")]
    );
}
