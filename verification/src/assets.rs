//! Asset bookkeeping: registered paths, named asset groups and load states.

use vstd::prelude::*;

use crate::collections::{StringMap, StringSet, string_views};

verus! {

/// The character sequences of a list of string slices.
pub open spec fn str_views(items: Seq<&str>) -> Seq<Seq<char>> {
    items.map_values(|s: &str| s@)
}

/// A named list of asset paths, optionally preloaded.
#[derive(Clone, Debug)]
pub struct AssetGroup {
    /// Group name.
    pub name: String,
    /// Asset paths, in the order they were added.
    pub assets: Vec<String>,
    /// Whether the group is loaded up front.
    pub preload: bool,
}

impl AssetGroup {
    /// The paths of this group as character sequences.
    pub open spec fn asset_views(&self) -> Seq<Seq<char>> {
        string_views(self.assets@)
    }

    /// An empty, not preloaded group.
    pub fn new(name: &str) -> (g: Self)
        ensures
            g.name@ == name@,
            g.assets@.len() == 0,
            !g.preload,
    {
        AssetGroup { name: name.to_owned(), assets: Vec::new(), preload: false }
    }

    /// Appends a path; returns the group for chaining.
    pub fn add(&mut self, path: &str) -> (r: &mut Self)
        ensures
            r.name == old(self).name,
            r.preload == old(self).preload,
            r.asset_views() == old(self).asset_views().push(path@),
            *final(self) == *final(r),
    {
        let ghost before = self.asset_views();
        self.assets.push(path.to_owned());
        assert(self.asset_views() =~= before.push(path@));
        self
    }

    /// Appends several paths in order; returns the group for chaining.
    pub fn add_many(&mut self, paths: &[&str]) -> (r: &mut Self)
        ensures
            r.name == old(self).name,
            r.preload == old(self).preload,
            r.asset_views() == old(self).asset_views() + str_views(paths@),
            *final(self) == *final(r),
    {
        let ghost before = self.asset_views();
        let mut i: usize = 0;
        while i < paths.len()
            invariant
                i <= paths@.len(),
                self.name == old(self).name,
                self.preload == old(self).preload,
                self.asset_views() == before + str_views(paths@).take(i as int),
            decreases paths@.len() - i,
        {
            let ghost cur = self.asset_views();
            self.assets.push(paths[i].to_owned());
            assert(self.asset_views() =~= cur.push(paths@[i as int]@));
            assert(str_views(paths@).take(i + 1) =~= str_views(paths@).take(i as int).push(paths@[i as int]@));
            i = i + 1;
        }
        assert(str_views(paths@).take(paths@.len() as int) =~= str_views(paths@));
        self
    }

    /// Sets whether the group is preloaded; returns the group for chaining.
    pub fn with_preload(&mut self, preload: bool) -> (r: &mut Self)
        ensures
            r.name == old(self).name,
            r.assets == old(self).assets,
            r.preload == preload,
            *final(self) == *final(r),
    {
        self.preload = preload;
        self
    }

    /// Number of paths in the group.
    pub fn count(&self) -> (n: usize)
        ensures
            n == self.assets@.len(),
    {
        self.assets.len()
    }
}

/// Mathematical model of an [`AssetRegistry`].
pub struct AssetRegistryView {
    /// Registered asset paths.
    pub registered: Set<Seq<char>>,
    /// Asset groups by the name they were created under.
    pub groups: Map<Seq<char>, AssetGroup>,
}

/// The registry of known asset paths and asset groups.
#[derive(Debug)]
pub struct AssetRegistry {
    registered: StringSet,
    groups: StringMap<AssetGroup>,
}

impl View for AssetRegistry {
    type V = AssetRegistryView;

    closed spec fn view(&self) -> AssetRegistryView {
        AssetRegistryView { registered: self.registered@, groups: self.groups@ }
    }
}

impl Default for AssetRegistry {
    /// An empty registry.
    fn default() -> (r: Self)
        ensures
            r.wf(),
            r@.registered == Set::<Seq<char>>::empty(),
            r@.groups == Map::<Seq<char>, AssetGroup>::empty(),
    {
        AssetRegistry { registered: StringSet::new(), groups: StringMap::new() }
    }
}

impl AssetRegistry {
    /// The internal path set and group map are consistent.
    pub closed spec fn wf(&self) -> bool {
        self.registered.wf() && self.groups.wf()
    }

    /// Registers one asset path.
    pub fn register(&mut self, path: &str)
        requires
            old(self).wf(),
        ensures
            final(self).wf(),
            final(self)@.registered == old(self)@.registered.insert(path@),
            final(self)@.groups == old(self)@.groups,
    {
        self.registered.insert(path);
    }

    /// Registers every path of `paths`.
    pub fn register_many(&mut self, paths: &[&str])
        requires
            old(self).wf(),
        ensures
            final(self).wf(),
            final(self)@.registered == old(self)@.registered + str_views(paths@).to_set(),
            final(self)@.groups == old(self)@.groups,
    {
        let mut i: usize = 0;
        while i < paths.len()
            invariant
                i <= paths@.len(),
                self.wf(),
                self@.registered == old(self)@.registered + str_views(paths@).take(i as int).to_set(),
                self@.groups == old(self)@.groups,
            decreases paths@.len() - i,
        {
            let ghost before = self@.registered;
            self.registered.insert(paths[i]);
            proof {
                let pre = str_views(paths@).take(i as int);
                let post = str_views(paths@).take(i + 1);
                assert(post =~= pre.push(paths@[i as int]@));
                assert forall|x: Seq<char>| post.to_set().contains(x) <==> pre.to_set().insert(paths@[i as int]@).contains(x) by {
                    if post.contains(x) && x != paths@[i as int]@ {
                        let j = choose|j: int| 0 <= j < post.len() && post[j] == x;
                        assert(pre[j] == x);
                    }
                    if pre.contains(x) {
                        let j = choose|j: int| 0 <= j < pre.len() && pre[j] == x;
                        assert(post[j] == x);
                    }
                    if x == paths@[i as int]@ {
                        assert(post[i as int] == x);
                    }
                }
                assert(self@.registered =~= old(self)@.registered + post.to_set());
            }
            i = i + 1;
        }
        assert(str_views(paths@).take(paths@.len() as int) =~= str_views(paths@));
    }

    /// Whether `path` has been registered.
    pub fn is_registered(&self, path: &str) -> (b: bool)
        ensures
            b == self@.registered.contains(path@),
    {
        self.registered.contains(path)
    }

    /// Every registered path, each once (in no particular order).
    pub fn all_registered(&self) -> (v: Vec<String>)
        requires
            self.wf(),
        ensures
            string_views(v@).to_set() == self@.registered,
            string_views(v@).no_duplicates(),
    {
        self.registered.to_vec()
    }

    /// The group named `name`, created empty if it does not exist yet.
    pub fn create_group(&mut self, name: &str) -> (g: &mut AssetGroup)
        requires
            old(self).wf(),
        ensures
            final(self).wf(),
            old(self)@.groups.contains_key(name@) ==> *g == old(self)@.groups[name@],
            !old(self)@.groups.contains_key(name@) ==> g.name@ == name@ && g.assets@.len() == 0 && !g.preload,
            final(self)@.groups == old(self)@.groups.insert(name@, *final(g)),
            final(self)@.registered == old(self)@.registered,
    {
        let fresh = AssetGroup::new(name);
        self.groups.get_or_insert(name, fresh)
    }

    /// The group named `name`, if any.
    pub fn get_group(&self, name: &str) -> (g: Option<&AssetGroup>)
        requires
            self.wf(),
        ensures
            g == (if self@.groups.contains_key(name@) { Some(&self@.groups[name@]) } else { None }),
    {
        self.groups.get(name)
    }

    /// Mutable access to the group named `name`, if any.
    pub fn get_group_mut(&mut self, name: &str) -> (g: Option<&mut AssetGroup>)
        requires
            old(self).wf(),
        ensures
            final(self).wf(),
            final(self)@.registered == old(self)@.registered,
            match g {
                Some(grp) => {
                    &&& old(self)@.groups.contains_key(name@)
                    &&& *grp == old(self)@.groups[name@]
                    &&& final(self)@.groups == old(self)@.groups.insert(name@, *final(grp))
                },
                None => {
                    &&& !old(self)@.groups.contains_key(name@)
                    &&& final(self)@.groups == old(self)@.groups
                },
            },
    {
        self.groups.get_mut(name)
    }
}

/// Mathematical model of an [`AssetLoadState`].
pub struct LoadStateView {
    /// Paths whose load has started and not ended.
    pub loading: Set<Seq<char>>,
    /// Paths that finished loading.
    pub loaded: Set<Seq<char>>,
    /// Paths that failed, with their error message.
    pub failed: Map<Seq<char>, Seq<char>>,
}

impl LoadStateView {
    /// The state after `path` starts loading.
    pub open spec fn started(self, path: Seq<char>) -> LoadStateView {
        LoadStateView { loading: self.loading.insert(path), ..self }
    }

    /// The state after `path` finishes loading.
    pub open spec fn finished(self, path: Seq<char>) -> LoadStateView {
        LoadStateView { loading: self.loading.remove(path), loaded: self.loaded.insert(path), ..self }
    }

    /// The state after `path` fails with message `error`.
    pub open spec fn failed_with(self, path: Seq<char>, error: Seq<char>) -> LoadStateView {
        LoadStateView { loading: self.loading.remove(path), failed: self.failed.insert(path, error), ..self }
    }
}

/// Which assets are loading, loaded, or failed.
#[derive(Debug)]
pub struct AssetLoadState {
    loading: StringSet,
    loaded: StringSet,
    failed: StringMap<String>,
}

impl View for AssetLoadState {
    type V = LoadStateView;

    closed spec fn view(&self) -> LoadStateView {
        LoadStateView {
            loading: self.loading@,
            loaded: self.loaded@,
            failed: Map::new(|k: Seq<char>| self.failed@.contains_key(k), |k: Seq<char>| self.failed@[k]@),
        }
    }
}

impl Default for AssetLoadState {
    /// Nothing loading, loaded or failed.
    fn default() -> (s: Self)
        ensures
            s.wf(),
            s@.loading == Set::<Seq<char>>::empty(),
            s@.loaded == Set::<Seq<char>>::empty(),
            s@.failed == Map::<Seq<char>, Seq<char>>::empty(),
    {
        let s = AssetLoadState { loading: StringSet::new(), loaded: StringSet::new(), failed: StringMap::new() };
        assert(s@.failed =~= Map::<Seq<char>, Seq<char>>::empty());
        s
    }
}

impl AssetLoadState {
    /// The internal sets and map are consistent.
    pub closed spec fn wf(&self) -> bool {
        self.loading.wf() && self.loaded.wf() && self.failed.wf()
    }

    /// Records that `path` started loading.
    pub fn start_loading(&mut self, path: &str)
        requires
            old(self).wf(),
        ensures
            final(self).wf(),
            final(self)@ == old(self)@.started(path@),
    {
        self.loading.insert(path);
    }

    /// Records that `path` finished loading.
    pub fn mark_loaded(&mut self, path: &str)
        requires
            old(self).wf(),
        ensures
            final(self).wf(),
            final(self)@ == old(self)@.finished(path@),
    {
        self.loading.remove(path);
        self.loaded.insert(path);
    }

    /// Records that `path` failed to load with message `error`.
    pub fn mark_failed(&mut self, path: &str, error: &str)
        requires
            old(self).wf(),
        ensures
            final(self).wf(),
            final(self)@ == old(self)@.failed_with(path@, error@),
    {
        let ghost before = self@;
        self.loading.remove(path);
        self.failed.insert(path, error.to_owned());
        assert(self@.failed =~= before.failed.insert(path@, error@));
    }

    /// Whether `path` is loading.
    pub fn is_loading(&self, path: &str) -> (b: bool)
        ensures
            b == self@.loading.contains(path@),
    {
        self.loading.contains(path)
    }

    /// Whether `path` has loaded.
    pub fn is_loaded(&self, path: &str) -> (b: bool)
        ensures
            b == self@.loaded.contains(path@),
    {
        self.loaded.contains(path)
    }

    /// Whether `path` has failed.
    pub fn is_failed(&self, path: &str) -> (b: bool)
        requires
            self.wf(),
        ensures
            b == self@.failed.contains_key(path@),
    {
        self.failed.contains_key(path)
    }

    /// The error message recorded for `path`, if it failed.
    pub fn get_error(&self, path: &str) -> (e: Option<&String>)
        requires
            self.wf(),
        ensures
            match e {
                Some(msg) => self@.failed.contains_key(path@) && msg@ == self@.failed[path@],
                None => !self@.failed.contains_key(path@),
            },
    {
        self.failed.get(path)
    }

    /// Number of paths loading.
    pub fn loading_count(&self) -> (n: usize)
        requires
            self.wf(),
        ensures
            n == self@.loading.len(),
    {
        self.loading.len()
    }

    /// Number of paths loaded.
    pub fn loaded_count(&self) -> (n: usize)
        requires
            self.wf(),
        ensures
            n == self@.loaded.len(),
    {
        self.loaded.len()
    }

    /// Number of paths that failed.
    pub fn failed_count(&self) -> (n: usize)
        requires
            self.wf(),
        ensures
            n == self@.failed.len(),
    {
        let n = self.failed.len();
        assert(self@.failed.dom() =~= self.failed@.dom());
        n
    }

    /// Loading progress as a fraction `(loaded, started)`: the paths loaded
    /// over the paths loading or loaded, and `(1, 1)` (complete) when none
    /// was started. The engine reports it as the `f32` quotient.
    pub fn progress_ratio(&self) -> (r: (usize, usize))
        requires
            self.wf(),
            self@.loading.len() + self@.loaded.len() <= usize::MAX,
        ensures
            r == (if self@.loading.len() + self@.loaded.len() == 0 {
                (1usize, 1usize)
            } else {
                (self@.loaded.len() as usize, (self@.loading.len() + self@.loaded.len()) as usize)
            }),
    {
        let loaded = self.loaded_count();
        let total = self.loading_count() + loaded;
        if total == 0 {
            (1, 1)
        } else {
            (loaded, total)
        }
    }

    /// Whether nothing is still loading.
    pub fn all_loaded(&self) -> (b: bool)
        requires
            self.wf(),
        ensures
            b == (self@.loading.len() == 0),
    {
        self.loading.is_empty()
    }
}

/// A path that starts loading and then finishes is loaded and no longer
/// loading; every other path keeps its state.
pub proof fn law_load_then_finish(s: LoadStateView, path: Seq<char>, other: Seq<char>)
    requires
        other != path,
    ensures
        s.started(path).finished(path).loaded.contains(path),
        !s.started(path).finished(path).loading.contains(path),
        s.started(path).finished(path).loading.contains(other) == s.loading.contains(other),
        s.started(path).finished(path).loaded.contains(other) == s.loaded.contains(other),
        s.started(path).finished(path).failed == s.failed,
{
}

/// A path that starts loading and then fails is failed with the given
/// message, no longer loading, and not marked loaded by the failure.
pub proof fn law_load_then_fail(s: LoadStateView, path: Seq<char>, error: Seq<char>)
    ensures
        s.started(path).failed_with(path, error).failed.contains_key(path),
        s.started(path).failed_with(path, error).failed[path] == error,
        !s.started(path).failed_with(path, error).loading.contains(path),
        s.started(path).failed_with(path, error).loaded == s.loaded,
{
}

/// Registering a path twice leaves the same registry as registering it once.
pub proof fn law_register_idempotent(r: AssetRegistryView, path: Seq<char>)
    ensures
        r.registered.insert(path).insert(path) == r.registered.insert(path),
{
    assert(r.registered.insert(path).insert(path) =~= r.registered.insert(path));
}

} // verus!
