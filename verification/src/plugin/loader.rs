//! The plugins that are installed and the directories searched for them.
use vstd::prelude::*;
use vstd::string::*;
use vstd::utf8::*;

use crate::plugin::paths::{same_dir, same_dir_str};
use crate::text::str_eq;

verus! {

/// An installed plugin, from the manifest of its `.ctp` package.
#[derive(Debug, Clone)]
pub struct Plugin {
    pub name: String,
    pub version: String,
    pub description: String,
    pub author: String,
    pub path: String,
}

/// What a plugin's manifest says, and where its package lies.
#[verifier::ext_equal]
pub struct PluginView {
    pub name: Seq<char>,
    pub version: Seq<char>,
    pub description: Seq<char>,
    pub author: Seq<char>,
    pub path: Seq<char>,
}

impl View for Plugin {
    type V = PluginView;

    open spec fn view(&self) -> PluginView {
        PluginView {
            name: self.name@,
            version: self.version@,
            description: self.description@,
            author: self.author@,
            path: self.path@,
        }
    }
}

/// The plugins found and the directories to search.
#[verifier::ext_equal]
pub struct PluginManagerView {
    pub plugins: Seq<PluginView>,
    pub dirs: Seq<Seq<char>>,
}

/// The views of a sequence of plugins.
pub open spec fn plugin_views(q: Seq<Plugin>) -> Seq<PluginView> {
    q.map_values(|p: Plugin| p@)
}

/// The views of a sequence of strings.
pub open spec fn string_views(q: Seq<String>) -> Seq<Seq<char>> {
    q.map_values(|s: String| s@)
}

/// Some directory of `dirs` is the path `dir` (see `same_dir`).
pub open spec fn has_dir(dirs: Seq<Seq<char>>, dir: Seq<char>) -> bool {
    exists|i: int| 0 <= i < dirs.len() && #[trigger] same_dir(dirs[i], dir)
}

/// The directories after adding `dir`: it is added at the end unless the same
/// path is there already.
pub open spec fn dirs_with(dirs: Seq<Seq<char>>, dir: Seq<char>) -> Seq<Seq<char>> {
    if has_dir(dirs, dir) {
        dirs
    } else {
        dirs.push(dir)
    }
}

/// No path occurs twice.
pub open spec fn distinct(dirs: Seq<Seq<char>>) -> bool {
    forall|i: int, j: int| 0 <= i < j < dirs.len() ==> !same_dir(dirs[i], dirs[j])
}

/// The first plugin named `name`, by position.
pub open spec fn first_named(plugins: Seq<PluginView>, name: Seq<char>, i: int) -> Option<int>
    decreases plugins.len() - i,
{
    if i < 0 || i >= plugins.len() {
        None
    } else if plugins[i].name == name {
        Some(i)
    } else {
        first_named(plugins, name, i + 1)
    }
}

/// A file name is that of a plugin package when its extension is `ctp`: it ends
/// in `.ctp` with something before the dot.
pub open spec fn is_package_name(name: Seq<u8>) -> bool {
    &&& name.len() > 4
    &&& name[name.len() - 4] == 46
    &&& name[name.len() - 3] == 99
    &&& name[name.len() - 2] == 116
    &&& name[name.len() - 1] == 112
}

/// The manifest written into a new package.
pub open spec fn manifest_text(
    name: Seq<char>,
    version: Seq<char>,
    description: Seq<char>,
    author: Seq<char>,
) -> Seq<char> {
    "[plugin]\nname = \""@ + name + "\"\nversion = \""@ + version + "\"\ndescription = \""@
        + description + "\"\nauthor = \""@ + author + "\"\n"@
}

/// Keeps the plugins found in the plugin directories.
pub struct PluginManager {
    plugins: Vec<Plugin>,
    plugin_dirs: Vec<String>,
}

impl View for PluginManager {
    type V = PluginManagerView;

    closed spec fn view(&self) -> PluginManagerView {
        PluginManagerView {
            plugins: plugin_views(self.plugins@),
            dirs: string_views(self.plugin_dirs@),
        }
    }
}

impl PluginManager {
    /// No plugins yet, and `plugin_dir` (the user's data directory for plugins)
    /// as the one directory to search.
    pub fn new(plugin_dir: String) -> (m: Self)
        ensures
            m@ == (PluginManagerView { plugins: Seq::empty(), dirs: seq![plugin_dir@] }),
    {
        let mut dirs: Vec<String> = Vec::new();
        dirs.push(plugin_dir);
        let m = PluginManager { plugins: Vec::new(), plugin_dirs: dirs };
        assert(m@ =~= PluginManagerView { plugins: Seq::empty(), dirs: seq![plugin_dir@] });
        m
    }

    /// Search `dir` too, unless the same path is searched already.
    pub fn add_plugin_dir(&mut self, dir: String)
        ensures
            final(self)@ == (PluginManagerView {
                dirs: dirs_with(old(self)@.dirs, dir@),
                ..old(self)@
            }),
    {
        let ghost d = dir@;
        let mut i: usize = 0;
        let n = self.plugin_dirs.len();
        while i < n
            invariant
                n == self.plugin_dirs@.len(),
                d == dir@,
                self.plugin_dirs@ == old(self).plugin_dirs@,
                self.plugins@ == old(self).plugins@,
                i <= n,
                forall|j: int| 0 <= j < i ==> !same_dir(#[trigger] self.plugin_dirs@[j]@, d),
            decreases n - i,
        {
            if same_dir_str(self.plugin_dirs[i].as_str(), dir.as_str()) {
                proof {
                    assert(string_views(self.plugin_dirs@)[i as int] == self.plugin_dirs@[i as int]@);
                    assert(same_dir(string_views(self.plugin_dirs@)[i as int], d));
                }
                assert(self@ =~= PluginManagerView { dirs: dirs_with(old(self)@.dirs, d), ..old(self)@ });
                return ;
            }
            i = i + 1;
        }
        assert(!has_dir(string_views(self.plugin_dirs@), d)) by {
            if has_dir(string_views(self.plugin_dirs@), d) {
                let k = choose|k: int|
                    0 <= k < string_views(self.plugin_dirs@).len() && #[trigger] same_dir(
                        string_views(self.plugin_dirs@)[k],
                        d,
                    );
                assert(string_views(self.plugin_dirs@)[k] == self.plugin_dirs@[k]@);
            }
        }
        let ghost before = self.plugin_dirs@;
        self.plugin_dirs.push(dir);
        assert(string_views(self.plugin_dirs@) =~= string_views(before).push(d));
        assert(self@ =~= PluginManagerView { dirs: dirs_with(old(self)@.dirs, d), ..old(self)@ });
    }

    /// The plugins found, in the order they were found.
    pub fn list_plugins(&self) -> (r: &[Plugin])
        ensures
            plugin_views(r@) == self@.plugins,
    {
        self.plugins.as_slice()
    }

    /// The directories searched, in order.
    pub fn plugin_dirs(&self) -> (r: &[String])
        ensures
            string_views(r@) == self@.dirs,
    {
        self.plugin_dirs.as_slice()
    }

    /// The directory that packages are installed into: the first one searched.
    pub fn install_dir(&self) -> (r: Option<&String>)
        ensures
            match r {
                Some(d) => self@.dirs.len() > 0 && d@ == self@.dirs[0],
                None => self@.dirs.len() == 0,
            },
    {
        if self.plugin_dirs.len() > 0 {
            Some(&self.plugin_dirs[0])
        } else {
            None
        }
    }

    /// The first plugin named `name`.
    pub fn get_plugin(&self, name: &str) -> (r: Option<&Plugin>)
        ensures
            match first_named(self@.plugins, name@, 0) {
                Some(i) => r is Some && r.unwrap()@ == self@.plugins[i],
                None => r is None,
            },
    {
        let n = self.plugins.len();
        let mut i: usize = 0;
        while i < n
            invariant
                n == self.plugins@.len(),
                i <= n,
                first_named(self@.plugins, name@, 0) == first_named(self@.plugins, name@, i as int),
            decreases n - i,
        {
            let p = &self.plugins[i];
            assert(self@.plugins[i as int] == p@);
            if str_eq(p.name.as_str(), name) {
                return Some(p);
            }
            i = i + 1;
        }
        None
    }

    /// Take `found` as the plugins installed, in place of those found before.
    pub fn replace_plugins(&mut self, found: Vec<Plugin>)
        ensures
            final(self)@ == (PluginManagerView { plugins: plugin_views(found@), ..old(self)@ }),
    {
        self.plugins = found;
        assert(self@ =~= PluginManagerView { plugins: plugin_views(found@), ..old(self)@ });
    }
}

/// Whether a file name is that of a plugin package (its extension is `ctp`).
pub fn is_plugin_package(file_name: &str) -> (r: bool)
    ensures
        r == is_package_name(encode_utf8(file_name@)),
{
    let b = file_name.as_bytes();
    let n = b.len();
    n > 4 && b[n - 4] == 46 && b[n - 3] == 99 && b[n - 2] == 116 && b[n - 1] == 112
}

/// The manifest of a new package for a plugin with the given details.
pub fn plugin_manifest(name: &str, version: &str, description: &str, author: &str) -> (r: String)
    ensures
        r@ == manifest_text(name@, version@, description@, author@),
{
    let mut s = "[plugin]\nname = \"".to_owned();
    s.append(name);
    s.append("\"\nversion = \"");
    s.append(version);
    s.append("\"\ndescription = \"");
    s.append(description);
    s.append("\"\nauthor = \"");
    s.append(author);
    s.append("\"\n");
    s
}

/// Adding a directory keeps the directories distinct as paths, adding the same
/// path again changes nothing, and the path is searched afterwards.
pub proof fn law_plugin_dirs_distinct(dirs: Seq<Seq<char>>, dir: Seq<char>)
    ensures
        distinct(dirs) ==> distinct(dirs_with(dirs, dir)),
        dirs_with(dirs_with(dirs, dir), dir) == dirs_with(dirs, dir),
        has_dir(dirs_with(dirs, dir), dir),
{
    if !has_dir(dirs, dir) {
        let d2 = dirs.push(dir);
        assert(d2[dirs.len() as int] == dir);
        assert(same_dir(d2[dirs.len() as int], dir));
        assert(has_dir(d2, dir));
        if distinct(dirs) {
            assert forall|i: int, j: int| 0 <= i < j < d2.len() implies !same_dir(d2[i], d2[j]) by {
                if j == dirs.len() {
                    assert(d2[i] == dirs[i]);
                    if same_dir(d2[i], d2[j]) {
                        assert(same_dir(dirs[i], dir));
                    }
                } else {
                    assert(d2[i] == dirs[i] && d2[j] == dirs[j]);
                }
            }
        }
    } else {
        let k = choose|k: int| 0 <= k < dirs.len() && #[trigger] same_dir(dirs[k], dir);
        assert(same_dir(dirs[k], dir));
    }
}

} // verus!
