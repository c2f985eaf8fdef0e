//! The directory registry: monitored locations and their display names.

use vstd::prelude::*;
use crate::model::{opt_view, DirectoryConfig, DirectoryView, directory_views};
use crate::text::str_eq;

verus! {

/// The final component of a path, as `std::path::Path::file_name` gives it.
pub uninterp spec fn path_file_name(path: Seq<char>) -> Option<Seq<char>>;

/// What is left of `path` once the leading components `base` are removed,
/// as `std::path::Path::strip_prefix` gives it; `None` where `base` is no
/// prefix of `path`.
pub uninterp spec fn path_strip_prefix(path: Seq<char>, base: Seq<char>) -> Option<Seq<char>>;

/// Calls `std::path::Path::file_name`. Trusted: the result depends on the
/// path's text alone; it is named `path_file_name`.
#[verifier::external_body]
fn file_name(path: &str) -> (r: Option<String>)
    ensures
        opt_view(r) == path_file_name(path@),
{
    std::path::Path::new(path).file_name().and_then(|n| n.to_str()).map(|n| n.to_string())
}

/// Calls `std::path::Path::strip_prefix`. Trusted: the result depends on the
/// two paths' text alone; it is named `path_strip_prefix`.
#[verifier::external_body]
fn strip_prefix(path: &str, base: &str) -> (r: Option<String>)
    ensures
        opt_view(r) == path_strip_prefix(path@, base@),
{
    std::path::Path::new(path).strip_prefix(base).ok().map(|p| p.display().to_string())
}

/// Calls `dirs::home_dir`. Nothing is claimed of the result: it depends on
/// the environment of the process.
#[verifier::external_body]
fn home_dir() -> (r: Option<String>) {
    dirs::home_dir().and_then(|h| h.to_str().map(|s| s.to_string()))
}

/// The base name of a path: its final component, or nothing where it has none.
pub open spec fn base_name_of(path: Seq<char>) -> Seq<char> {
    match path_file_name(path) {
        Some(n) => n,
        None => Seq::empty(),
    }
}

/// The base name of `path`.
pub fn base_name(path: &str) -> (r: String)
    ensures
        r@ == base_name_of(path@),
{
    match file_name(path) {
        Some(n) => n,
        None => String::new(),
    }
}

/// A path as it is shown once its home prefix was split off: `~/` and the
/// rest where there was such a prefix, else the path itself.
pub open spec fn shortened(path: Seq<char>, stripped: Option<Seq<char>>) -> Seq<char> {
    match stripped {
        Some(rest) => "~/"@ + rest,
        None => path,
    }
}

/// A path with the home directory, where it leads the path, written as `~`.
pub open spec fn abbreviated(path: Seq<char>, home: Option<Seq<char>>) -> Seq<char> {
    match home {
        Some(h) => shortened(path, path_strip_prefix(path, h)),
        None => path,
    }
}

/// Shows `path` given what is left of it behind the home directory, if
/// the home directory leads it.
pub fn abbreviate_with(path: &str, stripped: &Option<String>) -> (r: String)
    ensures
        r@ == shortened(path@, opt_view(*stripped)),
{
    match stripped {
        Some(rest) => String::from_str("~/").concat(rest.as_str()),
        None => String::from_str(path),
    }
}

/// Abbreviates `path` against a given home directory.
pub fn abbreviate_path_in(path: &str, home: &Option<String>) -> (r: String)
    ensures
        r@ == abbreviated(path@, opt_view(*home)),
{
    match home {
        Some(h) => {
            let stripped = strip_prefix(path, h.as_str());
            abbreviate_with(path, &stripped)
        },
        None => String::from_str(path),
    }
}

/// The base name of a directory's path and the path in its short form.
#[derive(Debug, PartialEq, Eq)]
pub struct PathNames {
    pub base_name: String,
    pub abbreviated: String,
}

/// Mathematical value of a [`PathNames`].
pub struct PathNamesView {
    pub base_name: Seq<char>,
    pub abbreviated: Seq<char>,
}

impl View for PathNames {
    type V = PathNamesView;

    open spec fn view(&self) -> PathNamesView {
        PathNamesView { base_name: self.base_name@, abbreviated: self.abbreviated@ }
    }
}

/// The values of a sequence of path names.
pub open spec fn names_views(v: Seq<PathNames>) -> Seq<PathNamesView> {
    v.map_values(|n: PathNames| n@)
}

/// Whether no other entry of `names` has the base name of the `i`-th.
pub open spec fn name_unique(names: Seq<PathNamesView>, i: int) -> bool {
    forall|j: int|
        0 <= j < names.len() && j != i ==> (#[trigger] names[j]).base_name != names[i].base_name
}

/// The display name of the `i`-th entry of `names`: its base name where no
/// other entry shares it, else the base name followed by the short path in
/// parentheses.
pub open spec fn chosen_name(names: Seq<PathNamesView>, i: int) -> Seq<char> {
    if name_unique(names, i) {
        names[i].base_name
    } else {
        names[i].base_name + " ("@ + names[i].abbreviated + ")"@
    }
}

/// The display name of each entry of `names`.
pub fn display_names_for(names: &Vec<PathNames>) -> (r: Vec<String>)
    ensures
        r@.len() == names@.len(),
        forall|i: int|
            0 <= i < names@.len() ==> (#[trigger] r@[i])@ == chosen_name(names_views(names@), i),
{
    let ghost all = names_views(names@);
    let n = names.len();
    let mut out: Vec<String> = Vec::new();
    let mut i: usize = 0;
    while i < n
        invariant
            n == names@.len(),
            all == names_views(names@),
            i <= n,
            out@.len() == i,
            forall|t: int| 0 <= t < i ==> (#[trigger] out@[t])@ == chosen_name(all, t),
        decreases n - i,
    {
        let mut unique = true;
        let mut j: usize = 0;
        while j < n
            invariant
                n == names@.len(),
                all == names_views(names@),
                i < n,
                j <= n,
                unique == (forall|t: int|
                    0 <= t < j && t != i ==> (#[trigger] all[t]).base_name != all[i as int].base_name),
            decreases n - j,
        {
            assert(all[j as int] == names@[j as int]@);
            assert(all[i as int] == names@[i as int]@);
            if j != i && str_eq(names[j].base_name.as_str(), names[i].base_name.as_str()) {
                unique = false;
            }
            j += 1;
        }
        assert(unique == name_unique(all, i as int));
        assert(all[i as int] == names@[i as int]@);
        let name = if unique {
            names[i].base_name.clone()
        } else {
            let mut text = names[i].base_name.clone();
            text.append(" (");
            text.append(names[i].abbreviated.as_str());
            text.append(")");
            text
        };
        out.push(name);
        i += 1;
    }
    out
}

/// The base name and the short form of each path of `dirs`, against `home`.
pub open spec fn path_names(dirs: Seq<DirectoryView>, home: Option<Seq<char>>) -> Seq<
    PathNamesView,
> {
    dirs.map_values(
        |d: DirectoryView|
            PathNamesView {
                base_name: base_name_of(d.path),
                abbreviated: abbreviated(d.path, home),
            },
    )
}

/// The display name of the `i`-th directory of `dirs`: its base name where
/// that is unique among `dirs`, else the base name followed by the
/// abbreviated path in parentheses.
pub open spec fn display_name_of(dirs: Seq<DirectoryView>, i: int, home: Option<Seq<char>>) -> Seq<
    char,
> {
    chosen_name(path_names(dirs, home), i)
}

/// `after` is `before` with every display name recomputed against `home`.
pub open spec fn display_names_assigned(
    before: Seq<DirectoryView>,
    after: Seq<DirectoryView>,
    home: Option<Seq<char>>,
) -> bool {
    &&& after.len() == before.len()
    &&& forall|i: int|
        0 <= i < before.len() ==> (#[trigger] after[i]) == (DirectoryView {
            path: before[i].path,
            visible: before[i].visible,
            display_name: display_name_of(before, i, home),
        })
}

/// Whether some directory of `dirs` has the path `path`.
pub open spec fn has_path(dirs: Seq<DirectoryView>, path: Seq<char>) -> bool {
    exists|i: int| 0 <= i < dirs.len() && (#[trigger] dirs[i]).path == path
}

/// The registry of monitored directories and one view flag.
#[derive(Debug, PartialEq, Eq)]
pub struct AppConfig {
    pub directories: Vec<DirectoryConfig>,
    pub sidebar_collapsed: bool,
}

impl Default for AppConfig {
    fn default() -> (r: Self)
        ensures
            r.directories@.len() == 0,
            !r.sidebar_collapsed,
    {
        AppConfig { directories: Vec::new(), sidebar_collapsed: false }
    }
}

impl AppConfig {
    /// The values of the registered directories.
    pub open spec fn dirs(&self) -> Seq<DirectoryView> {
        directory_views(self.directories@)
    }

    /// Abbreviates `path` against the home directory of the user, if one is
    /// known.
    pub fn abbreviate_path(path: &str) -> (r: String)
        ensures
            exists|home: Option<Seq<char>>| r@ == abbreviated(path@, home),
    {
        let home = home_dir();
        let r = abbreviate_path_in(path, &home);
        assert(r@ == abbreviated(path@, opt_view(home)));
        r
    }

    /// Recomputes every display name against a given home directory.
    pub fn assign_display_names(&mut self, home: &Option<String>)
        ensures
            final(self).sidebar_collapsed == old(self).sidebar_collapsed,
            display_names_assigned(old(self).dirs(), final(self).dirs(), opt_view(*home)),
    {
        let ghost before = self.dirs();
        let n = self.directories.len();
        let mut names: Vec<PathNames> = Vec::new();
        let mut k: usize = 0;
        while k < n
            invariant
                n == self.directories@.len(),
                before == self.dirs(),
                k <= n,
                names@.len() == k,
                forall|j: int|
                    0 <= j < k ==> (#[trigger] names@[j])@ == path_names(before, opt_view(*home))[j],
            decreases n - k,
        {
            assert(before[k as int] == self.directories@[k as int]@);
            let path = self.directories[k].path.as_str();
            names.push(
                PathNames { base_name: base_name(path), abbreviated: abbreviate_path_in(path, home) },
            );
            k += 1;
        }
        assert(names_views(names@) =~= path_names(before, opt_view(*home)));
        let mut chosen = display_names_for(&names);
        let mut i: usize = n;
        while i > 0
            invariant
                n == self.directories@.len(),
                n == before.len(),
                before == old(self).dirs(),
                i <= n,
                chosen@.len() == i,
                self.sidebar_collapsed == old(self).sidebar_collapsed,
                forall|j: int|
                    0 <= j < i ==> (#[trigger] chosen@[j])@ == display_name_of(
                        before,
                        j,
                        opt_view(*home),
                    ),
                forall|j: int| 0 <= j < i ==> self.directories@[j]@ == before[j],
                forall|j: int|
                    i <= j < n ==> (#[trigger] self.directories@[j])@ == (DirectoryView {
                        path: before[j].path,
                        visible: before[j].visible,
                        display_name: display_name_of(before, j, opt_view(*home)),
                    }),
            decreases i,
        {
            i -= 1;
            match chosen.pop() {
                Some(name) => {
                    self.directories[i].display_name = name;
                },
                None => {},
            }
        }
        assert(self.dirs().len() == before.len());
        assert forall|t: int| 0 <= t < before.len() implies (#[trigger] self.dirs()[t]) == (
        DirectoryView {
            path: before[t].path,
            visible: before[t].visible,
            display_name: display_name_of(before, t, opt_view(*home)),
        }) by {
            assert(self.dirs()[t] == self.directories@[t]@);
        }
    }

    /// Recomputes every display name: the base name of the path where no
    /// other directory shares it, else the base name with the abbreviated
    /// path in parentheses. The home directory is whatever the system reports.
    pub fn compute_display_names(&mut self)
        ensures
            final(self).sidebar_collapsed == old(self).sidebar_collapsed,
            exists|home: Option<Seq<char>>|
                display_names_assigned(old(self).dirs(), final(self).dirs(), home),
    {
        let home = home_dir();
        self.assign_display_names(&home);
        assert(display_names_assigned(old(self).dirs(), self.dirs(), opt_view(home)));
    }

    /// Whether a directory with this path is registered.
    pub fn contains_path(&self, path: &str) -> (r: bool)
        ensures
            r == has_path(self.dirs(), path@),
    {
        let mut i: usize = 0;
        while i < self.directories.len()
            invariant
                i <= self.directories@.len(),
                forall|j: int| 0 <= j < i ==> (#[trigger] self.dirs()[j]).path != path@,
            decreases self.directories@.len() - i,
        {
            if str_eq(self.directories[i].path.as_str(), path) {
                assert(self.dirs()[i as int].path == path@);
                return true;
            }
            i += 1;
        }
        false
    }

    /// Registers `path` as a visible directory unless it is registered
    /// already, and then recomputes the display names against `home`.
    /// Returns whether the registry changed.
    pub fn register_directory_in(&mut self, path: &str, home: &Option<String>) -> (added: bool)
        ensures
            added == !has_path(old(self).dirs(), path@),
            final(self).sidebar_collapsed == old(self).sidebar_collapsed,
            !added ==> final(self).dirs() == old(self).dirs(),
            added ==> display_names_assigned(
                old(self).dirs().push(
                    DirectoryView { path: path@, visible: true, display_name: Seq::empty() },
                ),
                final(self).dirs(),
                opt_view(*home),
            ),
    {
        if self.contains_path(path) {
            return false;
        }
        self.directories.push(
            DirectoryConfig {
                path: String::from_str(path),
                visible: true,
                display_name: String::new(),
            },
        );
        assert(self.dirs() =~= old(self).dirs().push(
            DirectoryView { path: path@, visible: true, display_name: Seq::empty() },
        ));
        self.assign_display_names(home);
        true
    }

    /// Registers `path` as a visible directory unless it is registered
    /// already, and then recomputes the display names. The home directory
    /// is whatever the system reports. Returns whether the registry changed.
    pub fn register_directory(&mut self, path: &str) -> (added: bool)
        ensures
            added == !has_path(old(self).dirs(), path@),
            final(self).sidebar_collapsed == old(self).sidebar_collapsed,
            !added ==> final(self).dirs() == old(self).dirs(),
            added ==> exists|home: Option<Seq<char>>|
                display_names_assigned(
                    old(self).dirs().push(
                        DirectoryView { path: path@, visible: true, display_name: Seq::empty() },
                    ),
                    final(self).dirs(),
                    home,
                ),
    {
        let home = home_dir();
        let added = self.register_directory_in(path, &home);
        proof {
            if added {
                assert(display_names_assigned(
                    old(self).dirs().push(
                        DirectoryView { path: path@, visible: true, display_name: Seq::empty() },
                    ),
                    self.dirs(),
                    opt_view(home),
                ));
            }
        }
        added
    }
}

} // verus!
