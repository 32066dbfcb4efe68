//! The places of one environment: its lock, its directory and its advisory
//! lock. All advisory locks under one root share a directory, apart from
//! every environment.

use crate::data::Duplicate;
use crate::paths::key::EnvironmentKey;
use crate::text::concat;
use vstd::prelude::*;
use vstd::string::*;

verus! {

/// A place below a directory: the directory, and the names that lead from
/// it to the place.
#[derive(Debug, Clone, PartialEq, Eq)]
pub struct Location {
    pub base: String,
    pub parts: Vec<String>,
}

/// A place as mathematical values.
pub struct LocationView {
    pub base: Seq<char>,
    pub parts: Seq<Seq<char>>,
}

impl DeepView for Location {
    type V = LocationView;

    open spec fn deep_view(&self) -> LocationView {
        LocationView { base: self.base@, parts: self.parts.deep_view() }
    }
}

impl LocationView {
    /// What lies under a name in this place.
    pub open spec fn below(self, name: Seq<char>) -> LocationView {
        LocationView { base: self.base, parts: self.parts.push(name) }
    }

    /// Whether this place is another or lies anywhere in it.
    pub open spec fn within(self, outer: LocationView) -> bool {
        self.base == outer.base && outer.parts.is_prefix_of(self.parts)
    }
}

/// A directory itself.
pub open spec fn root_of(base: Seq<char>) -> LocationView {
    LocationView { base, parts: Seq::empty() }
}

impl Location {
    fn at(base: &str) -> (r: Location)
        ensures
            r.deep_view() == root_of(base@),
    {
        let parts: Vec<String> = Vec::new();
        assert(parts.deep_view() =~= Seq::empty());
        Location { base: base.to_owned(), parts }
    }

    /// What lies under a name in this place.
    pub fn join(&self, name: &str) -> (r: Location)
        ensures
            r.deep_view() == self.deep_view().below(name@),
    {
        let mut parts = self.parts.duplicate();
        let ghost before = parts.deep_view();
        parts.push(name.to_owned());
        assert(parts.deep_view() =~= before.push(name@));
        Location { base: self.base.clone(), parts }
    }
}

/// Where an environment is rooted, and what names its own directory.
#[derive(Debug, Clone)]
pub enum EnvironmentLayout<'a> {
    /// The default environment of a project: `<root>/ana.lock` and
    /// `<root>/.env`.
    ProjectDefault { root: &'a str },
    /// A keyed environment of a project, in `<root>/.ana/<key>/`.
    ProjectKeyed { root: &'a str, key: EnvironmentKey },
    /// A keyed environment of no project, in `<cache_root>/<key>/`.
    Global { cache_root: &'a str, key: EnvironmentKey },
}

#[derive(Debug, Clone, PartialEq, Eq)]
enum Layout {
    ProjectDefault { root: String },
    ProjectKeyed { root: String, key: String },
    Global { cache_root: String, key: String },
}

/// A layout as mathematical values.
pub enum LayoutView {
    ProjectDefault { root: Seq<char> },
    ProjectKeyed { root: Seq<char>, key: Seq<char> },
    Global { cache_root: Seq<char>, key: Seq<char> },
}

impl<'a> DeepView for EnvironmentLayout<'a> {
    type V = LayoutView;

    open spec fn deep_view(&self) -> LayoutView {
        match self {
            EnvironmentLayout::ProjectDefault { root } => LayoutView::ProjectDefault {
                root: root@,
            },
            EnvironmentLayout::ProjectKeyed { root, key } => LayoutView::ProjectKeyed {
                root: root@,
                key: key.text(),
            },
            EnvironmentLayout::Global { cache_root, key } => LayoutView::Global {
                cache_root: cache_root@,
                key: key.text(),
            },
        }
    }
}

impl LayoutView {
    /// The directory that holds every keyed environment under the root.
    pub open spec fn keyed_container(self) -> LocationView {
        match self {
            LayoutView::ProjectDefault { root } => root_of(root).below(".ana"@),
            LayoutView::ProjectKeyed { root, key } => root_of(root).below(".ana"@),
            LayoutView::Global { cache_root, key } => root_of(cache_root),
        }
    }

    /// The directory of a keyed environment.
    pub open spec fn group_dir(self) -> Option<LocationView> {
        match self {
            LayoutView::ProjectDefault { root } => None,
            LayoutView::ProjectKeyed { root, key } => Some(self.keyed_container().below(key)),
            LayoutView::Global { cache_root, key } => Some(self.keyed_container().below(key)),
        }
    }

    /// The lock of the environment.
    pub open spec fn lock_path(self) -> LocationView {
        match self {
            LayoutView::ProjectDefault { root } => root_of(root).below("ana.lock"@),
            _ => self.group_dir()->0.below("ana.lock"@),
        }
    }

    /// The environment itself.
    pub open spec fn env_path(self) -> LocationView {
        match self {
            LayoutView::ProjectDefault { root } => root_of(root).below(".env"@),
            _ => self.group_dir()->0.below("env"@),
        }
    }

    /// The directory that holds every advisory lock under the root.
    pub open spec fn locks_dir(self) -> LocationView {
        self.keyed_container().below("locks"@)
    }

    /// What the advisory lock is named after.
    pub open spec fn lock_key(self) -> Seq<char> {
        match self {
            LayoutView::ProjectDefault { root } => "default"@,
            LayoutView::ProjectKeyed { root, key } => key,
            LayoutView::Global { cache_root, key } => key,
        }
    }

    /// The advisory lock of the environment.
    pub open spec fn advisory_lock_path(self) -> LocationView {
        self.locks_dir().below(self.lock_key() + ".lock"@)
    }
}

/// The places of one environment, as [`discover`] finds them.
#[derive(Debug)]
pub struct EnvironmentPaths {
    lock_path: Location,
    env_path: Location,
    layout: Layout,
}

impl EnvironmentPaths {
    /// The places are those of the layout.
    #[verifier::type_invariant]
    pub closed spec fn wf(&self) -> bool {
        &&& self.lock_path.deep_view() == self.layout().lock_path()
        &&& self.env_path.deep_view() == self.layout().env_path()
    }

    /// The layout of the environment.
    pub closed spec fn layout(&self) -> LayoutView {
        match self.layout {
            Layout::ProjectDefault { root } => LayoutView::ProjectDefault { root: root@ },
            Layout::ProjectKeyed { root, key } => LayoutView::ProjectKeyed {
                root: root@,
                key: key@,
            },
            Layout::Global { cache_root, key } => LayoutView::Global {
                cache_root: cache_root@,
                key: key@,
            },
        }
    }

    /// The lock of the environment.
    pub fn lock_path(&self) -> (r: &Location)
        ensures
            r.deep_view() == self.layout().lock_path(),
    {
        proof {
            use_type_invariant(self);
        }
        &self.lock_path
    }

    /// The environment itself.
    pub fn env_path(&self) -> (r: &Location)
        ensures
            r.deep_view() == self.layout().env_path(),
    {
        proof {
            use_type_invariant(self);
        }
        &self.env_path
    }

    /// The advisory lock of the environment.
    pub fn advisory_lock_path(&self) -> (r: Location)
        ensures
            r.deep_view() == self.layout().advisory_lock_path(),
    {
        let name = concat(self.lock_key(), ".lock");
        self.locks_dir().join(name.as_str())
    }

    /// The lock that says what the environment holds now.
    pub fn env_lock_path(&self) -> (r: Location)
        ensures
            r.deep_view() == self.layout().env_path().below("ana.lock"@),
    {
        self.env_path().join("ana.lock")
    }

    /// The directory of a keyed environment; the default environment of a
    /// project has none of its own.
    pub fn group_dir(&self) -> (r: Option<Location>)
        ensures
            r.deep_view() == self.layout().group_dir(),
    {
        match &self.layout {
            Layout::ProjectDefault { .. } => None,
            Layout::ProjectKeyed { root, key } => Some(
                Location::at(root.as_str()).join(".ana").join(key.as_str()),
            ),
            Layout::Global { cache_root, key } => Some(
                Location::at(cache_root.as_str()).join(key.as_str()),
            ),
        }
    }

    /// The directory that holds every keyed environment under the same root.
    pub fn keyed_container(&self) -> (r: Location)
        ensures
            r.deep_view() == self.layout().keyed_container(),
    {
        match &self.layout {
            Layout::ProjectDefault { root } => Location::at(root.as_str()).join(".ana"),
            Layout::ProjectKeyed { root, .. } => Location::at(root.as_str()).join(".ana"),
            Layout::Global { cache_root, .. } => Location::at(cache_root.as_str()),
        }
    }

    /// The directory that holds every advisory lock under the same root.
    pub fn locks_dir(&self) -> (r: Location)
        ensures
            r.deep_view() == self.layout().locks_dir(),
    {
        self.keyed_container().join("locks")
    }

    fn lock_key(&self) -> (r: &str)
        ensures
            r@ == self.layout().lock_key(),
    {
        match &self.layout {
            Layout::ProjectDefault { .. } => "default",
            Layout::ProjectKeyed { key, .. } => key.as_str(),
            Layout::Global { key, .. } => key.as_str(),
        }
    }
}

/// The places of the environment with a layout. Nothing is read or written.
pub fn discover(layout: EnvironmentLayout<'_>) -> (r: EnvironmentPaths)
    ensures
        r.layout() == layout.deep_view(),
{
    match layout {
        EnvironmentLayout::ProjectDefault { root } => {
            let base = Location::at(root);
            EnvironmentPaths {
                lock_path: base.join("ana.lock"),
                env_path: base.join(".env"),
                layout: Layout::ProjectDefault { root: root.to_owned() },
            }
        },
        EnvironmentLayout::ProjectKeyed { root, key } => {
            let dir = Location::at(root).join(".ana").join(key.as_str());
            EnvironmentPaths {
                lock_path: dir.join("ana.lock"),
                env_path: dir.join("env"),
                layout: Layout::ProjectKeyed {
                    root: root.to_owned(),
                    key: key.as_str().to_owned(),
                },
            }
        },
        EnvironmentLayout::Global { cache_root, key } => {
            let dir = Location::at(cache_root).join(key.as_str());
            EnvironmentPaths {
                lock_path: dir.join("ana.lock"),
                env_path: dir.join("env"),
                layout: Layout::Global {
                    cache_root: cache_root.to_owned(),
                    key: key.as_str().to_owned(),
                },
            }
        },
    }
}

/// Removing an environment never removes its advisory lock: the lock does
/// not lie in it, nor in the directory of a keyed environment, unless that
/// is named `locks` itself.
pub proof fn advisory_lock_outlives_environment(layout: LayoutView)
    ensures
        !layout.advisory_lock_path().within(layout.env_path()),
        match layout.group_dir() {
            Some(dir) => layout.lock_key() != "locks"@ ==> !layout.advisory_lock_path().within(dir),
            None => true,
        },
{
    reveal_strlit(".ana");
    reveal_strlit(".env");
    reveal_strlit("env");
    reveal_strlit(".lock");
    let lock = layout.advisory_lock_path();
    let env = layout.env_path();
    assert(".ana"@ != ".env"@) by {
        assert(".ana"@[1] != ".env"@[1]);
    }
    let at = layout.keyed_container().parts.len() as int;
    assert(lock.parts[at] == "locks"@);
    assert(lock.parts[at + 1] == layout.lock_key() + ".lock"@);
    match layout {
        LayoutView::ProjectDefault { root } => {
            assert(lock.parts[0] == ".ana"@);
            assert(env.parts[0] == ".env"@);
        },
        LayoutView::ProjectKeyed { root, key } => {
            assert(env.parts[1] == key);
            assert(env.parts[2] == "env"@);
            assert(layout.group_dir()->0.parts[1] == key);
        },
        LayoutView::Global { cache_root, key } => {
            assert(env.parts[0] == key);
            assert(env.parts[1] == "env"@);
            assert(layout.group_dir()->0.parts[0] == key);
        },
    }
}

/// Every environment under the same root keeps its advisory lock directly in
/// one directory.
pub proof fn locks_share_a_directory(a: LayoutView, b: LayoutView)
    requires
        a.keyed_container() == b.keyed_container(),
    ensures
        a.locks_dir() == b.locks_dir(),
        a.advisory_lock_path() == b.locks_dir().below(a.lock_key() + ".lock"@),
        b.advisory_lock_path() == a.locks_dir().below(b.lock_key() + ".lock"@),
{
}

/// Two keyed environments under the same root share no place.
pub proof fn keyed_environments_are_apart(a: LayoutView, b: LayoutView)
    requires
        a.group_dir() is Some,
        b.group_dir() is Some,
        a.keyed_container() == b.keyed_container(),
        a.lock_key() != b.lock_key(),
    ensures
        !a.env_path().within(b.group_dir()->0),
        !a.lock_path().within(b.group_dir()->0),
        a.advisory_lock_path() != b.advisory_lock_path(),
{
    let n = a.keyed_container().parts.len() as int;
    assert(a.group_dir()->0.parts[n] == a.lock_key());
    assert(b.group_dir()->0.parts[n] == b.lock_key());
    assert(a.env_path().parts[n] == a.lock_key());
    assert(a.lock_path().parts[n] == a.lock_key());
    let x = a.lock_key() + ".lock"@;
    let y = b.lock_key() + ".lock"@;
    assert(a.advisory_lock_path().parts[n + 1] == x);
    assert(b.advisory_lock_path().parts[n + 1] == y);
    if x == y {
        assert(a.lock_key().len() == b.lock_key().len());
        assert(x.take(a.lock_key().len() as int) =~= a.lock_key());
        assert(y.take(b.lock_key().len() as int) =~= b.lock_key());
    }
}

/// Where everything of an environment lies: the default environment of a
/// project in its root, a keyed one in a directory of its own named by the
/// key, in `.ana` of a project or directly in the cache; and the advisory
/// lock in `locks` beside the keyed environments, named by the key, or
/// `default`.
pub proof fn places_of_an_environment(root: Seq<char>, key: Seq<char>)
    ensures
        ({
            let own = LayoutView::ProjectDefault { root };
            let keyed = LayoutView::ProjectKeyed { root, key };
            let global = LayoutView::Global { cache_root: root, key };
            &&& own.lock_path() == (LocationView { base: root, parts: seq!["ana.lock"@] })
            &&& own.env_path() == (LocationView { base: root, parts: seq![".env"@] })
            &&& own.group_dir() is None
            &&& own.keyed_container() == (LocationView { base: root, parts: seq![".ana"@] })
            &&& own.advisory_lock_path() == (LocationView {
                base: root,
                parts: seq![".ana"@, "locks"@, "default"@ + ".lock"@],
            })
            &&& keyed.group_dir() == Some(LocationView { base: root, parts: seq![".ana"@, key] })
            &&& keyed.keyed_container() == (LocationView { base: root, parts: seq![".ana"@] })
            &&& keyed.lock_path() == (LocationView {
                base: root,
                parts: seq![".ana"@, key, "ana.lock"@],
            })
            &&& keyed.env_path() == (LocationView {
                base: root,
                parts: seq![".ana"@, key, "env"@],
            })
            &&& keyed.advisory_lock_path() == (LocationView {
                base: root,
                parts: seq![".ana"@, "locks"@, key + ".lock"@],
            })
            &&& global.group_dir() == Some(LocationView { base: root, parts: seq![key] })
            &&& global.keyed_container() == (LocationView { base: root, parts: Seq::empty() })
            &&& global.lock_path() == (LocationView { base: root, parts: seq![key, "ana.lock"@] })
            &&& global.env_path() == (LocationView { base: root, parts: seq![key, "env"@] })
            &&& global.advisory_lock_path() == (LocationView {
                base: root,
                parts: seq!["locks"@, key + ".lock"@],
            })
        }),
{
    let own = LayoutView::ProjectDefault { root };
    let keyed = LayoutView::ProjectKeyed { root, key };
    let global = LayoutView::Global { cache_root: root, key };
    assert(own.lock_path().parts =~= seq!["ana.lock"@]);
    assert(own.env_path().parts =~= seq![".env"@]);
    assert(own.keyed_container().parts =~= seq![".ana"@]);
    assert(own.advisory_lock_path().parts =~= seq![".ana"@, "locks"@, "default"@ + ".lock"@]);
    assert(keyed.group_dir()->0.parts =~= seq![".ana"@, key]);
    assert(keyed.keyed_container().parts =~= seq![".ana"@]);
    assert(keyed.lock_path().parts =~= seq![".ana"@, key, "ana.lock"@]);
    assert(keyed.env_path().parts =~= seq![".ana"@, key, "env"@]);
    assert(keyed.advisory_lock_path().parts =~= seq![".ana"@, "locks"@, key + ".lock"@]);
    assert(global.group_dir()->0.parts =~= seq![key]);
    assert(global.lock_path().parts =~= seq![key, "ana.lock"@]);
    assert(global.env_path().parts =~= seq![key, "env"@]);
    assert(global.advisory_lock_path().parts =~= seq!["locks"@, key + ".lock"@]);
}

} // verus!
