//! The watch coordinator: maps a filesystem notification to the library
//! root that owns it, decides whether to sort a directory or a single file,
//! and suppresses notifications caused by its own renames through an
//! ignore-set. Receiving the notifications and running the sort happen
//! outside this crate.

use vstd::prelude::*;

use crate::config::Config;
use crate::config::LibraryConfig;
use crate::error::MusoError;
use crate::error::SpecError;
use crate::path::spec_prefix_of;
use crate::path::spec_render;
use crate::path::MusoPath;

verus! {

/// Whether some element of `s` has exactly the view `p`.
pub open spec fn spec_contains_path(s: Seq<MusoPath>, p: Seq<Seq<char>>) -> bool {
    exists|l: int| 0 <= l < s.len() && s[l]@ == p
}

/// The `(folder, library name)` pairs of every library in order, folders
/// first to last within each.
pub open spec fn spec_root_pairs(libs: Seq<(String, LibraryConfig)>, i: int) -> Seq<
    (Seq<Seq<char>>, Seq<char>),
>
    decreases libs.len() - i,
{
    if i < 0 || i >= libs.len() {
        Seq::empty()
    } else {
        Seq::new(
            libs[i].1.folders@.len(),
            |j: int| (libs[i].1.folders@[j]@, libs[i].0@),
        ) + spec_root_pairs(libs, i + 1)
    }
}

/// Whether `q` is a registered root.
pub open spec fn spec_roots_contain(
    roots: Seq<(Seq<Seq<char>>, Seq<char>)>,
    q: Seq<Seq<char>>,
) -> bool {
    exists|l: int| 0 <= l < roots.len() && roots[l].0 == q
}

/// The longest prefix of `p` of length at most `k` that is a registered
/// root: the path itself counts as its own ancestor.
pub open spec fn spec_root_for(
    roots: Seq<(Seq<Seq<char>>, Seq<char>)>,
    p: Seq<Seq<char>>,
    k: int,
) -> Option<Seq<Seq<char>>>
    decreases k + 1,
{
    if k < 0 || k > p.len() {
        None
    } else if spec_roots_contain(roots, p.subrange(0, k)) {
        Some(p.subrange(0, k))
    } else {
        spec_root_for(roots, p, k - 1)
    }
}

/// The index of the first root pair for `q`, or -1.
pub open spec fn spec_root_index(
    roots: Seq<(Seq<Seq<char>>, Seq<char>)>,
    q: Seq<Seq<char>>,
) -> int
    decreases roots.len(),
{
    if roots.len() == 0 {
        -1
    } else if roots[0].0 == q {
        0
    } else {
        let r = spec_root_index(roots.drop_first(), q);
        if r < 0 {
            -1
        } else {
            r + 1
        }
    }
}

proof fn lemma_root_index_found(roots: Seq<(Seq<Seq<char>>, Seq<char>)>, q: Seq<Seq<char>>, j: int)
    requires
        0 <= j < roots.len(),
        roots[j].0 == q,
        forall|l: int| 0 <= l < j ==> roots[l].0 != q,
    ensures
        spec_root_index(roots, q) == j,
    decreases j,
{
    if j > 0 {
        assert(forall|l: int| 0 <= l < j - 1 ==> roots.drop_first()[l] == roots[l + 1]);
        lemma_root_index_found(roots.drop_first(), q, j - 1);
    }
}

proof fn lemma_root_index_none(roots: Seq<(Seq<Seq<char>>, Seq<char>)>, q: Seq<Seq<char>>)
    requires
        forall|l: int| 0 <= l < roots.len() ==> roots[l].0 != q,
    ensures
        spec_root_index(roots, q) == -1,
    decreases roots.len(),
{
    if roots.len() > 0 {
        assert(forall|l: int|
            0 <= l < roots.drop_first().len() ==> roots.drop_first()[l] == roots[l + 1]);
        lemma_root_index_none(roots.drop_first(), q);
    }
}

proof fn lemma_root_for_contained(
    roots: Seq<(Seq<Seq<char>>, Seq<char>)>,
    p: Seq<Seq<char>>,
    k: int,
)
    ensures
        spec_root_for(roots, p, k) matches Some(q) ==> spec_roots_contain(roots, q),
    decreases k + 1,
{
    if k >= 0 && k <= p.len() && !spec_roots_contain(roots, p.subrange(0, k)) {
        lemma_root_for_contained(roots, p, k - 1);
    }
}

proof fn lemma_contained_index(roots: Seq<(Seq<Seq<char>>, Seq<char>)>, q: Seq<Seq<char>>)
    requires
        spec_roots_contain(roots, q),
    ensures
        spec_root_index(roots, q) >= 0,
    decreases roots.len(),
{
    if roots[0].0 != q {
        let l = choose|l: int| 0 <= l < roots.len() && roots[l].0 == q;
        assert(roots.drop_first()[l - 1] == roots[l]);
        assert(spec_roots_contain(roots.drop_first(), q));
        lemma_contained_index(roots.drop_first(), q);
    }
}

/// Whether a notification for `p` is self-caused: a file present in the
/// ignore-set verbatim, or a directory of which some ignore-set entry is a
/// descendant (itself included).
pub open spec fn spec_suppressed(
    ig: Set<Seq<Seq<char>>>,
    p: Seq<Seq<char>>,
    is_file: bool,
) -> bool {
    if is_file {
        ig.contains(p)
    } else {
        exists|q: Seq<Seq<char>>| ig.contains(q) && spec_prefix_of(p, q)
    }
}

/// What the coordinator decides for one notification.
#[derive(Debug, PartialEq)]
pub enum WatchAction {
    /// Self-caused: the matching ignore-set entry was consumed; do nothing.
    Suppressed,
    /// No registered root owns the path; do nothing.
    Discard,
    /// Sort the notified directory recursively under the given root.
    SortDirectory { root: MusoPath, library: String },
    /// Sort the single notified file under the given root.
    SortSingle { root: MusoPath, library: String },
}

/// The watch coordinator's state: the configuration, the registered roots
/// and the self-echo ignore-set.
#[derive(Debug)]
pub struct Watcher {
    /// The configuration the coordinator was built from.
    pub config: Config,
    roots: Vec<(MusoPath, String)>,
    ignore: Vec<MusoPath>,
}

impl Watcher {
    /// The configuration the coordinator was built from.
    pub closed spec fn spec_config(self) -> Config {
        self.config
    }

    /// The registered `(root, library name)` pairs.
    pub closed spec fn spec_roots(self) -> Seq<(Seq<Seq<char>>, Seq<char>)> {
        self.roots.deep_view()
    }

    /// The self-echo suppression set, as the set of ignored paths.
    pub closed spec fn spec_ignore_set(self) -> Set<Seq<Seq<char>>> {
        Set::new(|q: Seq<Seq<char>>| spec_contains_path(self.ignore@, q))
    }

    /// No path stands in the ignore-set twice.
    pub closed spec fn wf(self) -> bool {
        forall|l1: int, l2: int|
            0 <= l1 < l2 < self.ignore@.len() ==> self.ignore@[l1]@ != self.ignore@[l2]@
    }

    /// A coordinator for `config`: one root per library folder, carrying the
    /// library's name, and an empty ignore-set.
    pub fn new(config: Config) -> (r: Watcher)
        ensures
            r.spec_config() == config,
            r.spec_roots() == spec_root_pairs(config.libraries@, 0),
            r.spec_ignore_set() =~= Set::<Seq<Seq<char>>>::empty(),
            r.wf(),
    {
        let mut roots: Vec<(MusoPath, String)> = Vec::new();
        let n = config.libraries.len();
        proof {
            assert(roots.deep_view() =~= Seq::<(Seq<Seq<char>>, Seq<char>)>::empty());
        }
        let mut i: usize = 0;
        while i < n
            invariant
                0 <= i <= n,
                n == config.libraries@.len(),
                forall|l: int|
                    0 <= l < roots@.len() ==> #[trigger] roots.deep_view()[l] == (
                    roots@[l].0@,
                    roots@[l].1@,
                    ),
                spec_root_pairs(config.libraries@, 0) =~= roots.deep_view() + spec_root_pairs(
                    config.libraries@,
                    i as int,
                ),
            decreases n - i,
        {
            let lib = &config.libraries[i];
            let ghost base = roots.deep_view();
            let m = lib.1.folders.len();
            let mut j: usize = 0;
            while j < m
                invariant
                    0 <= j <= m,
                    0 <= i < n,
                    n == config.libraries@.len(),
                    m == config.libraries@[i as int].1.folders@.len(),
                    lib == &config.libraries@[i as int],
                    forall|l: int|
                        0 <= l < roots@.len() ==> #[trigger] roots.deep_view()[l] == (
                        roots@[l].0@,
                        roots@[l].1@,
                        ),
                    roots.deep_view() =~= base + Seq::new(
                        j as nat,
                        |l: int| (config.libraries@[i as int].1.folders@[l]@, config.libraries@[i as int].0@),
                    ),
                decreases m - j,
            {
                let ghost pre = roots.deep_view();
                roots.push((lib.1.folders[j].duplicate(), lib.0.clone()));
                proof {
                    assert(roots.deep_view() =~~= pre.push(
                        (
                            config.libraries@[i as int].1.folders@[j as int]@,
                            config.libraries@[i as int].0@,
                        ),
                    ));
                    assert(roots.deep_view() =~~= base + Seq::new(
                        (j + 1) as nat,
                        |l: int| (config.libraries@[i as int].1.folders@[l]@, config.libraries@[i as int].0@),
                    ));
                }
                j = j + 1;
            }
            proof {
                assert(spec_root_pairs(config.libraries@, i as int) == Seq::new(
                    config.libraries@[i as int].1.folders@.len(),
                    |l: int| (config.libraries@[i as int].1.folders@[l]@, config.libraries@[i as int].0@),
                ) + spec_root_pairs(config.libraries@, i + 1));
                assert(spec_root_pairs(config.libraries@, 0) =~= roots.deep_view()
                    + spec_root_pairs(config.libraries@, i + 1));
            }
            i = i + 1;
        }
        proof {
            assert(spec_root_pairs(config.libraries@, n as int) =~= Seq::<
                (Seq<Seq<char>>, Seq<char>),
            >::empty());
            assert(spec_root_pairs(config.libraries@, 0) =~= roots.deep_view());
        }
        let w = Watcher { config, roots, ignore: Vec::new() };
        proof {
            assert forall|q: Seq<Seq<char>>| !w.spec_ignore_set().contains(q) by {
                assert(w.ignore@.len() == 0);
            }
            assert(w.spec_ignore_set() =~= Set::<Seq<Seq<char>>>::empty());
        }
        w
    }

    /// Whether `q` is a registered root.
    fn roots_contain(&self, q: &MusoPath) -> (r: bool)
        ensures
            r == spec_roots_contain(self.spec_roots(), q@),
    {
        let n = self.roots.len();
        let mut l: usize = 0;
        while l < n
            invariant
                0 <= l <= n,
                n == self.roots@.len(),
                self.spec_roots().len() == n,
                forall|m: int|
                    0 <= m < n ==> #[trigger] self.spec_roots()[m] == (
                    self.roots@[m].0@,
                    self.roots@[m].1@,
                    ),
                forall|m: int| 0 <= m < l ==> self.spec_roots()[m].0 != q@,
            decreases n - l,
    {
            if self.roots[l].0.path_eq(q) {
                proof {
                    assert(self.spec_roots()[l as int].0 == q@);
                    assert(spec_roots_contain(self.spec_roots(), q@));
                }
                return true;
            }
            l = l + 1;
        }
        false
    }

    /// The library name registered for root `q`, if any.
    fn root_library(&self, q: &MusoPath) -> (r: Option<String>)
        ensures
            ({
                let i = spec_root_index(self.spec_roots(), q@);
                match r {
                    Some(name) => i >= 0 && name@ == self.spec_roots()[i].1,
                    None => i == -1,
                }
            }),
    {
        let n = self.roots.len();
        let mut l: usize = 0;
        while l < n
            invariant
                0 <= l <= n,
                n == self.roots@.len(),
                self.spec_roots().len() == n,
                forall|m: int|
                    0 <= m < n ==> #[trigger] self.spec_roots()[m] == (
                    self.roots@[m].0@,
                    self.roots@[m].1@,
                    ),
                forall|m: int| 0 <= m < l ==> self.spec_roots()[m].0 != q@,
            decreases n - l,
    {
            if self.roots[l].0.path_eq(q) {
                proof {
                    lemma_root_index_found(self.spec_roots(), q@, l as int);
                }
                return Some(self.roots[l].1.clone());
            }
            l = l + 1;
        }
        proof {
            lemma_root_index_none(self.spec_roots(), q@);
        }
        None
    }

    /// The nearest ancestor of `path` (the path itself included) that is a
    /// registered root, if any.
    pub fn root_for(&self, path: &MusoPath) -> (r: Option<MusoPath>)
        ensures
            ({
                let found = spec_root_for(self.spec_roots(), path@, path@.len() as int);
                match r {
                    Some(a) => found == Some(a@),
                    None => found is None,
                }
            }),
    {
        let d = path.depth();
        let mut k: usize = d;
        loop
            invariant
                0 <= k <= d,
                d == path@.len(),
                spec_root_for(self.spec_roots(), path@, d as int) == spec_root_for(
                    self.spec_roots(),
                    path@,
                    k as int,
                ),
            decreases k,
        {
            let pre = path.prefix(k);
            if self.roots_contain(&pre) {
                proof {
                    assert(spec_root_for(self.spec_roots(), path@, k as int) == Some(
                        path@.subrange(0, k as int),
                    ));
                }
                return Some(pre);
            }
            if k == 0 {
                proof {
                    assert(spec_root_for(self.spec_roots(), path@, 0) == spec_root_for(
                        self.spec_roots(),
                        path@,
                        -1,
                    ));
                    assert(spec_root_for(self.spec_roots(), path@, -1) is None);
                }
                return None;
            }
            proof {
                assert(spec_root_for(self.spec_roots(), path@, k as int) == spec_root_for(
                    self.spec_roots(),
                    path@,
                    k - 1,
                ));
            }
            k = k - 1;
        }
    }

    /// Whether a notification for `path` is self-caused under the current
    /// ignore-set.
    pub fn is_ignored(&self, path: &MusoPath, is_file: bool) -> (r: bool)
        ensures
            r == spec_suppressed(self.spec_ignore_set(), path@, is_file),
    {
        let n = self.ignore.len();
        if is_file {
            let mut l: usize = 0;
            while l < n
                invariant
                    is_file,
                    0 <= l <= n,
                    n == self.ignore@.len(),
                    forall|m: int| 0 <= m < l ==> self.ignore@[m]@ != path@,
                decreases n - l,
            {
                if self.ignore[l].path_eq(path) {
                    proof {
                        assert(self.ignore@[l as int]@ == path@);
                        assert(spec_contains_path(self.ignore@, path@));
                        assert(self.spec_ignore_set().contains(path@));
                    }
                    return true;
                }
                l = l + 1;
            }
            proof {
                assert(!spec_contains_path(self.ignore@, path@));
            }
            false
        } else {
            let mut l: usize = 0;
            while l < n
                invariant
                    !is_file,
                    0 <= l <= n,
                    n == self.ignore@.len(),
                    forall|m: int| 0 <= m < l ==> !spec_prefix_of(path@, self.ignore@[m]@),
                decreases n - l,
            {
                if self.ignore[l].starts_with(path) {
                    proof {
                        assert(spec_contains_path(self.ignore@, self.ignore@[l as int]@));
                        assert(self.spec_ignore_set().contains(self.ignore@[l as int]@)
                            && spec_prefix_of(path@, self.ignore@[l as int]@));
                        assert(exists|q: Seq<Seq<char>>|
                            self.spec_ignore_set().contains(q) && spec_prefix_of(path@, q));
                    }
                    return true;
                }
                l = l + 1;
            }
            proof {
                if exists|q: Seq<Seq<char>>|
                    self.spec_ignore_set().contains(q) && spec_prefix_of(path@, q) {
                    let q = choose|q: Seq<Seq<char>>|
                        self.spec_ignore_set().contains(q) && spec_prefix_of(path@, q);
                    let m = choose|m: int| 0 <= m < self.ignore@.len() && self.ignore@[m]@ == q;
                    assert(!spec_prefix_of(path@, self.ignore@[m]@));
                    assert(false);
                }
            }
            false
        }
    }

    /// The index of the first ignore-set entry for this path, if any.
    fn find_ignored(&self, p: &MusoPath) -> (r: Option<usize>)
        ensures
            match r {
                Some(l) => l < self.ignore@.len() && self.ignore@[l as int]@ == p@ && forall|
                    m: int,
                |
                    0 <= m < l ==> self.ignore@[m]@ != p@,
                None => !spec_contains_path(self.ignore@, p@),
            },
    {
        let n = self.ignore.len();
        let mut l: usize = 0;
        while l < n
            invariant
                0 <= l <= n,
                n == self.ignore@.len(),
                forall|m: int| 0 <= m < l ==> self.ignore@[m]@ != p@,
            decreases n - l,
        {
            if self.ignore[l].path_eq(p) {
                return Some(l);
            }
            l = l + 1;
        }
        None
    }

    /// Inserts the path once: the ignore-set is a set, not a list.
    fn insert_ignored(&mut self, p: MusoPath)
        requires
            old(self).wf(),
        ensures
            final(self).wf(),
            final(self).spec_config() == old(self).spec_config(),
            final(self).spec_roots() == old(self).spec_roots(),
            final(self).spec_ignore_set() =~= old(self).spec_ignore_set().insert(p@),
    {
        match self.find_ignored(&p) {
            Some(_) => {
                proof {
                    assert(old(self).spec_ignore_set().contains(p@));
                    assert(self.spec_ignore_set() =~= old(self).spec_ignore_set().insert(p@));
                }
            },
            None => {
                let ghost pre = self.ignore@;
                self.ignore.push(p);
                proof {
                    assert(forall|m: int|
                        0 <= m < pre.len() ==> self.ignore@[m] == pre[m]);
                    assert(self.ignore@[pre.len() as int] == p);
                    assert forall|q: Seq<Seq<char>>|
                        self.spec_ignore_set().contains(q) == old(
                            self,
                        ).spec_ignore_set().insert(p@).contains(q) by {
                        if spec_contains_path(self.ignore@, q) {
                            let m = choose|m: int|
                                0 <= m < self.ignore@.len() && self.ignore@[m]@ == q;
                            if m < pre.len() {
                                assert(pre[m]@ == q);
                                assert(spec_contains_path(pre, q));
                            } else {
                                assert(q == p@);
                            }
                        }
                        if spec_contains_path(pre, q) {
                            let m = choose|m: int| 0 <= m < pre.len() && pre[m]@ == q;
                            assert(self.ignore@[m]@ == q);
                            assert(spec_contains_path(self.ignore@, q));
                        }
                        if q == p@ {
                            assert(self.ignore@[pre.len() as int]@ == q);
                            assert(spec_contains_path(self.ignore@, q));
                        }
                    }
                    assert(self.spec_ignore_set() =~= old(self).spec_ignore_set().insert(p@));
                    assert forall|l1: int, l2: int|
                        0 <= l1 < l2 < self.ignore@.len() implies self.ignore@[l1]@
                        != self.ignore@[l2]@ by {
                        if l2 == pre.len() {
                            assert(!spec_contains_path(pre, p@));
                            assert(self.ignore@[l1] == pre[l1]);
                        }
                    }
                }
            },
        }
    }

    /// Removes the path, if present; a path matched only as a prefix is not
    /// in the set and nothing is removed.
    fn remove_ignored(&mut self, path: &MusoPath)
        requires
            old(self).wf(),
        ensures
            final(self).wf(),
            final(self).spec_config() == old(self).spec_config(),
            final(self).spec_roots() == old(self).spec_roots(),
            final(self).spec_ignore_set() =~= old(self).spec_ignore_set().remove(path@),
    {
        match self.find_ignored(path) {
            None => {
                proof {
                    assert(!old(self).spec_ignore_set().contains(path@));
                    assert(self.spec_ignore_set() =~= old(self).spec_ignore_set().remove(path@));
                }
            },
            Some(l) => {
                let ghost pre = self.ignore@;
                self.ignore.remove(l);
                proof {
                    assert(self.ignore@ =~= pre.subrange(0, l as int) + pre.subrange(
                        l + 1,
                        pre.len() as int,
                    ));
                    assert(forall|m: int|
                        0 <= m < self.ignore@.len() ==> self.ignore@[m] == (if m < l {
                            pre[m]
                        } else {
                            pre[m + 1]
                        }));
                    assert forall|q: Seq<Seq<char>>|
                        self.spec_ignore_set().contains(q) == old(
                            self,
                        ).spec_ignore_set().remove(path@).contains(q) by {
                        if spec_contains_path(self.ignore@, q) {
                            let m = choose|m: int|
                                0 <= m < self.ignore@.len() && self.ignore@[m]@ == q;
                            if m < l {
                                assert(pre[m]@ == q);
                                assert(spec_contains_path(pre, q));
                                assert(q != path@);
                            } else {
                                assert(pre[m + 1]@ == q);
                                assert(spec_contains_path(pre, q));
                                assert(pre[l as int]@ == path@);
                                assert(q != path@);
                            }
                        }
                        if spec_contains_path(pre, q) && q != path@ {
                            let m = choose|m: int| 0 <= m < pre.len() && pre[m]@ == q;
                            if m < l {
                                assert(self.ignore@[m]@ == q);
                                assert(spec_contains_path(self.ignore@, q));
                            } else {
                                assert(m != l);
                                assert(self.ignore@[m - 1]@ == q);
                                assert(spec_contains_path(self.ignore@, q));
                            }
                        }
                    }
                    assert(self.spec_ignore_set() =~= old(self).spec_ignore_set().remove(path@));
                }
            },
        }
    }

    /// Seeds the ignore-set after a successful rename to `path` under
    /// `root`: the destination itself, and its parent where that parent is
    /// not the root. Fails only on a path with no parent.
    pub fn ignore_path(&mut self, path: &MusoPath, root: &MusoPath) -> (r: Result<(), MusoError>)
        requires
            old(self).wf(),
        ensures
            final(self).wf(),
            final(self).spec_config() == old(self).spec_config(),
            final(self).spec_roots() == old(self).spec_roots(),
            match r {
                Ok(_) => path@.len() > 0 && final(self).spec_ignore_set() =~= (if path@.drop_last()
                    != root@ {
                    old(self).spec_ignore_set().insert(path@.drop_last())
                } else {
                    old(self).spec_ignore_set()
                }).insert(path@),
                Err(e) => path@.len() == 0 && e@ == (SpecError::InvalidParent {
                    child: spec_render(path@),
                }) && final(self).spec_ignore_set() =~= old(self).spec_ignore_set(),
            },
    {
        let parent = match path.parent() {
            Some(p) => p,
            None => {
                return Err(MusoError::InvalidParent { child: path.render() });
            },
        };
        if !parent.path_eq(root) {
            self.insert_ignored(parent);
        }
        self.insert_ignored(path.duplicate());
        Ok(())
    }

    /// Decides one debounced create/rename notification: a self-caused path
    /// consumes its ignore-set entry and is suppressed; a path under no
    /// registered root is discarded; otherwise the owning root and its
    /// library are named, for a directory sort or a single-file sort.
    pub fn on_event(&mut self, path: &MusoPath, is_file: bool, is_dir: bool) -> (r: WatchAction)
        requires
            old(self).wf(),
        ensures
            final(self).wf(),
            final(self).spec_config() == old(self).spec_config(),
            final(self).spec_roots() == old(self).spec_roots(),
            if spec_suppressed(old(self).spec_ignore_set(), path@, is_file) {
                r is Suppressed && final(self).spec_ignore_set() =~= old(self).spec_ignore_set().remove(path@)
            } else {
                final(self).spec_ignore_set() =~= old(self).spec_ignore_set() && match
                    spec_root_for(old(self).spec_roots(), path@, path@.len() as int) {
                    None => r is Discard,
                    Some(rootv) => {
                        let i = spec_root_index(old(self).spec_roots(), rootv);
                        i >= 0 && if is_dir {
                            r matches WatchAction::SortDirectory { root, library } && root@
                                == rootv && library@ == old(self).spec_roots()[i].1
                        } else {
                            r matches WatchAction::SortSingle { root, library } && root@ == rootv
                                && library@ == old(self).spec_roots()[i].1
                        }
                    },
                }
            },
    {
        if self.is_ignored(path, is_file) {
            self.remove_ignored(path);
            return WatchAction::Suppressed;
        }
        match self.root_for(path) {
            None => WatchAction::Discard,
            Some(root) => {
                proof {
                    lemma_root_for_contained(self.spec_roots(), path@, path@.len() as int);
                    lemma_contained_index(self.spec_roots(), root@);
                }
                match self.root_library(&root) {
                    None => WatchAction::Discard,
                    Some(library) => {
                        if is_dir {
                            WatchAction::SortDirectory { root, library }
                        } else {
                            WatchAction::SortSingle { root, library }
                        }
                    },
                }
            },
        }
    }
}

} // verus!
