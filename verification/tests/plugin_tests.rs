use std::path::Path;

use creeper_term::plugin::paths::same_dir_str;
use creeper_term::plugin::loader::{is_plugin_package, plugin_manifest, Plugin, PluginManager};

fn plugin(name: &str, version: &str) -> Plugin {
    Plugin {
        name: name.to_string(),
        version: version.to_string(),
        description: String::new(),
        author: String::new(),
        path: format!("/plugins/{}.ctp", name),
    }
}

#[test]
fn new_manager_searches_one_directory() {
    let m = PluginManager::new("/data/creeper-term/plugins".to_string());
    assert_eq!(m.plugin_dirs().to_vec(), vec!["/data/creeper-term/plugins".to_string()]);
    assert!(m.list_plugins().is_empty());
    assert_eq!(m.install_dir().map(|s| s.as_str()), Some("/data/creeper-term/plugins"));
}

#[test]
fn directories_are_added_once() {
    let mut m = PluginManager::new("a".to_string());
    m.add_plugin_dir("b".to_string());
    m.add_plugin_dir("a".to_string());
    m.add_plugin_dir("b".to_string());
    m.add_plugin_dir("c".to_string());
    assert_eq!(m.plugin_dirs().to_vec(), vec!["a", "b", "c"]);
    assert_eq!(m.install_dir().map(|s| s.as_str()), Some("a"));
}

#[test]
fn plugins_are_found_by_name_first_match() {
    let mut m = PluginManager::new("a".to_string());
    assert!(m.get_plugin("x").is_none());
    m.replace_plugins(vec![plugin("x", "1"), plugin("y", "1"), plugin("x", "2")]);
    assert_eq!(m.list_plugins().len(), 3);
    assert_eq!(m.get_plugin("x").map(|p| p.version.as_str()), Some("1"));
    assert_eq!(m.get_plugin("y").map(|p| p.path.as_str()), Some("/plugins/y.ctp"));
    assert!(m.get_plugin("z").is_none());
    m.replace_plugins(Vec::new());
    assert!(m.get_plugin("x").is_none());
}

#[test]
fn package_file_names() {
    assert!(is_plugin_package("hello.ctp"));
    assert!(is_plugin_package("a.ctp"));
    assert!(!is_plugin_package(".ctp"));
    assert!(!is_plugin_package("hello.tar.gz"));
    assert!(!is_plugin_package("hello.CTP"));
    assert!(!is_plugin_package("ctp"));
}

#[test]
fn manifest_of_a_new_package() {
    assert_eq!(
        plugin_manifest("demo", "0.1.0", "A demo", "Me"),
        "[plugin]\nname = \"demo\"\nversion = \"0.1.0\"\ndescription = \"A demo\"\nauthor = \"Me\"\n"
    );
}

#[test]
fn directories_are_compared_as_paths() {
    let mut m = PluginManager::new("a".to_string());
    m.add_plugin_dir("a/".to_string());
    m.add_plugin_dir("./a".to_string());
    m.add_plugin_dir("/x//y/".to_string());
    m.add_plugin_dir("/x/./y".to_string());
    m.add_plugin_dir("b/../c".to_string());
    m.add_plugin_dir("c".to_string());
    assert_eq!(m.plugin_dirs().to_vec(), vec!["a", "./a", "/x//y/", "b/../c", "c"]);
}

#[test]
fn path_comparison_agrees_with_std() {
    let paths = [
        "", "/", "//", ".", "./", "./.", "..", "a", "a/", "a//", "./a", "a/.", "a/./b", "a/b",
        "a//b", "/a", "//a", "/a/", "a/..", "a/../", "../a", "a/b/..", ".a", "a.", "a/.b",
        "/./a", "./../a", "\u{e9}/x", "\u{e9}/x/",
    ];
    for a in paths {
        for b in paths {
            assert_eq!(same_dir_str(a, b), Path::new(a) == Path::new(b), "{:?} vs {:?}", a, b);
        }
    }
}
