//! The state and decisions of a virtual filesystem mirrored onto a host
//! directory.
//!
//! The host side (creating, writing and removing real files) is done by the
//! caller, step by step: each operation here either answers from the entry
//! store or says which host artifacts to touch, and the caller reports back
//! what it made (`add`) or removed (`forget`). The store thus only ever holds
//! what exists on the host.
use vstd::prelude::*;
use vstd::string::*;
use crate::entry::{fails, fails_as, EntryType, ErrorKind, VfsError};
use crate::namespace::{
    add_outcome, cd_outcome, dir_view, file_on_way, forget_outcome, list_outcome, missing_dirs,
    mkdir_outcome, Entries, Namespace,
};
use crate::order::is_prefix;
use crate::path::{
    host_join, host_path_of, inner_of, is_absolute, is_root_only, normalize, normalized, render,
    starts_absolute,
};
use crate::store::{is_tree, rendered, sorted, strings_of, subtree};

verus! {

/// The host-backed filesystem: the host directory it is rooted at, the
/// working directory, the entries it made or adopted, the host directories it
/// made to bring its root into being, and whether it cleans up when disposed.
pub struct DirFS {
    root: String,
    ns: Namespace,
    created_root_parents: Vec<String>,
    is_auto_clean: bool,
}

impl DirFS {
    pub closed spec fn root_spec(&self) -> Seq<char> {
        self.root@
    }

    pub closed spec fn cwd_spec(&self) -> Seq<Seq<char>> {
        self.ns.cwd_spec()
    }

    /// The known paths and their entries.
    pub closed spec fn entries_view(&self) -> Entries {
        self.ns.entries_view()
    }

    /// The known paths in ascending order.
    pub closed spec fn keys(&self) -> Seq<Seq<Seq<char>>> {
        self.ns.keys()
    }

    /// The host directories made for the root, in the order they were made.
    pub closed spec fn root_parents(&self) -> Seq<Seq<char>> {
        strings_of(self.created_root_parents@)
    }

    pub closed spec fn auto_clean(&self) -> bool {
        self.is_auto_clean
    }

    pub closed spec fn wf(&self) -> bool {
        self.ns.wf() && is_absolute(self.root@)
    }

    pub open spec fn target(&self, p: Seq<char>) -> Seq<Seq<char>> {
        inner_of(self.cwd_spec(), p)
    }

    /// Every known path but the root has its parent known as a directory, and
    /// the root is always a known directory without content. `keys` lists the
    /// known paths once each, in ascending order, the root first.
    pub proof fn lemma_tree(&self)
        requires
            self.wf(),
        ensures
            is_tree(self.entries_view()),
            sorted(self.keys()),
            forall|k: Seq<Seq<char>>| self.entries_view().contains_key(k) <==> self.keys().contains(k),
            self.keys().len() > 0,
            self.keys()[0] == Seq::<Seq<char>>::empty(),
            self.entries_view()[Seq::empty()] == dir_view(),
    {
        self.ns.lemma_wf();
    }

    /// A filesystem rooted at the host directory `root`, which the caller has
    /// made sure exists, making the directories `created_root_parents` (in
    /// that order) to that end. The root must be given, and absolute.
    pub fn new(root: &str, created_root_parents: Vec<String>) -> (r: Result<DirFS, VfsError>)
        ensures
            root@.len() == 0 ==> fails(r, ErrorKind::InvalidPath, "invalid root path: empty"@),
            root@.len() > 0 && !is_absolute(root@) ==> fails(
                r,
                ErrorKind::InvalidPath,
                "the root path must be absolute"@,
            ),
            is_absolute(root@) ==> r is Ok && ({
                let fs = r->Ok_0;
                &&& fs.wf()
                &&& fs.root_spec() == normalized(root@)
                &&& fs.cwd_spec() == Seq::<Seq<char>>::empty()
                &&& fs.entries_view() == map![Seq::<Seq<char>>::empty() => dir_view()]
                &&& fs.root_parents() == strings_of(created_root_parents@)
                &&& fs.auto_clean()
            }),
    {
        if root.unicode_len() == 0 {
            return Err(VfsError::InvalidPath(String::from_str("invalid root path: empty")));
        }
        if !starts_absolute(root) {
            return Err(VfsError::InvalidPath(String::from_str("the root path must be absolute")));
        }
        let norm = normalize(root);
        Ok(DirFS { root: norm, ns: Namespace::new(), created_root_parents, is_auto_clean: true })
    }

    pub fn set_auto_clean(&mut self, clean: bool)
        ensures
            final(self).auto_clean() == clean,
            final(self).root_spec() == old(self).root_spec(),
            final(self).cwd_spec() == old(self).cwd_spec(),
            final(self).entries_view() == old(self).entries_view(),
            final(self).keys() == old(self).keys(),
            final(self).root_parents() == old(self).root_parents(),
            final(self).wf() == old(self).wf(),
    {
        self.is_auto_clean = clean;
    }

    pub fn is_auto_clean(&self) -> (r: bool)
        ensures
            r == self.auto_clean(),
    {
        self.is_auto_clean
    }

    pub fn root(&self) -> (r: String)
        ensures
            r@ == self.root_spec(),
    {
        self.root.clone()
    }

    pub fn cwd(&self) -> (r: String)
        ensures
            r@ == render(self.cwd_spec()),
    {
        self.ns.cwd()
    }

    /// The host path of `inner_path`.
    pub fn to_host(&self, inner_path: &str) -> (r: Result<String, VfsError>)
        requires
            self.wf(),
        ensures
            r is Ok && r->Ok_0@ == host_join(self.root_spec(), self.target(inner_path@)),
    {
        let t = self.ns.to_inner(inner_path);
        Ok(host_path_of(self.root.as_str(), &t))
    }

    pub fn cd(&mut self, path: &str) -> (r: Result<(), VfsError>)
        requires
            old(self).wf(),
        ensures
            final(self).wf(),
            final(self).entries_view() == old(self).entries_view(),
            final(self).root_spec() == old(self).root_spec(),
            final(self).root_parents() == old(self).root_parents(),
            cd_outcome(old(self).entries_view(), old(self).target(path@), r),
            r is Ok ==> final(self).cwd_spec() == old(self).target(path@),
            r is Err ==> final(self).cwd_spec() == old(self).cwd_spec(),
    {
        self.ns.cd(path)
    }

    pub fn path_exists(&self, path: &str) -> (r: bool)
        requires
            self.wf(),
        ensures
            r == self.entries_view().contains_key(self.target(path@)),
    {
        self.ns.path_exists(path)
    }

    pub fn is_dir(&self, path: &str) -> (r: Result<bool, VfsError>)
        requires
            self.wf(),
        ensures
            self.entries_view().contains_key(self.target(path@)) ==> r == Ok::<bool, VfsError>(
                self.entries_view()[self.target(path@)].kind == EntryType::Directory,
            ),
            !self.entries_view().contains_key(self.target(path@)) ==> fails(
                r,
                ErrorKind::NotFound,
                render(self.target(path@)),
            ),
    {
        match self.ns.kind_at(path) {
            Ok(k) => Ok(k == EntryType::Directory),
            Err(e) => Err(e),
        }
    }

    pub fn is_file(&self, path: &str) -> (r: Result<bool, VfsError>)
        requires
            self.wf(),
        ensures
            self.entries_view().contains_key(self.target(path@)) ==> r == Ok::<bool, VfsError>(
                self.entries_view()[self.target(path@)].kind == EntryType::File,
            ),
            !self.entries_view().contains_key(self.target(path@)) ==> fails(
                r,
                ErrorKind::NotFound,
                render(self.target(path@)),
            ),
    {
        match self.ns.kind_at(path) {
            Ok(k) => Ok(k == EntryType::File),
            Err(e) => Err(e),
        }
    }

    pub fn ls(&self, path: &str) -> (r: Result<Vec<String>, VfsError>)
        requires
            self.wf(),
        ensures
            list_outcome(self.entries_view(), self.keys(), self.target(path@), true, r),
    {
        self.ns.list(path, true)
    }

    pub fn tree(&self, path: &str) -> (r: Result<Vec<String>, VfsError>)
        requires
            self.wf(),
        ensures
            list_outcome(self.entries_view(), self.keys(), self.target(path@), false, r),
    {
        self.ns.list(path, false)
    }

    /// Starts tracking what exists on the host at `path` as a `kind`, with the
    /// directories above it; a known path is left as it is.
    pub fn add(&mut self, path: &str, kind: EntryType) -> (r: Result<(), VfsError>)
        requires
            old(self).wf(),
        ensures
            final(self).wf(),
            final(self).cwd_spec() == old(self).cwd_spec(),
            final(self).root_spec() == old(self).root_spec(),
            final(self).root_parents() == old(self).root_parents(),
            final(self).auto_clean() == old(self).auto_clean(),
            add_outcome(
                old(self).entries_view(),
                old(self).target(path@),
                kind,
                r,
                final(self).entries_view(),
            ),
    {
        self.ns.add(path, kind)
    }

    /// Stops tracking `path` and everything below it, leaving the host as it is.
    pub fn forget(&mut self, path: &str) -> (r: Result<(), VfsError>)
        requires
            old(self).wf(),
        ensures
            final(self).wf(),
            final(self).cwd_spec() == old(self).cwd_spec(),
            final(self).root_spec() == old(self).root_spec(),
            final(self).root_parents() == old(self).root_parents(),
            final(self).auto_clean() == old(self).auto_clean(),
            forget_outcome(old(self).entries_view(), old(self).target(path@), r, final(self).entries_view()),
    {
        self.ns.forget(path)
    }

    /// The inner paths of the directories that `mkdir(path)` makes, shallowest
    /// first, or why it may not.
    pub fn mkdir_plan(&self, path: &str) -> (r: Result<Vec<String>, VfsError>)
        requires
            self.wf(),
        ensures
            ({
                let m = self.entries_view();
                let t = self.target(path@);
                &&& r is Err ==> mkdir_outcome(m, t, path@, r, m)
                &&& path@.len() > 0 && !m.contains_key(t) && !file_on_way(m, t, t.len() as int)
                    ==> r is Ok && strings_of(r->Ok_0@) == rendered(missing_dirs(m, t))
                &&& r is Ok ==> path@.len() > 0 && !m.contains_key(t) && !file_on_way(
                    m,
                    t,
                    t.len() as int,
                )
            }),
    {
        self.ns.mkdir_plan(path)
    }

    /// For `mkfile(path)`: the inner paths of the directories to make above the
    /// file, shallowest first, and the inner path of the file. A known file is
    /// written anew; a directory is refused.
    pub fn mkfile_plan(&self, path: &str) -> (r: Result<(Vec<String>, String), VfsError>)
        requires
            self.wf(),
        ensures
            ({
                let m = self.entries_view();
                let t = self.target(path@);
                &&& m.contains_key(t) && m[t].kind == EntryType::Directory ==> fails(
                    r,
                    ErrorKind::IsADirectory,
                    render(t),
                )
                &&& !m.contains_key(t) && file_on_way(m, t, t.len() as int) ==> fails_as(
                    r,
                    ErrorKind::NotADirectory,
                )
                &&& (m.contains_key(t) && m[t].kind == EntryType::File) || (!m.contains_key(t)
                    && !file_on_way(m, t, t.len() as int)) ==> r is Ok && strings_of(r->Ok_0.0@)
                    == rendered(missing_dirs(m, t.drop_last())) && r->Ok_0.1@ == render(t)
            }),
    {
        self.ns.mkfile_plan(path)
    }

    /// The inner path of the file that `read`, `write` or `append` of `path`
    /// touches, or why they may not.
    pub fn file_target(&self, path: &str) -> (r: Result<String, VfsError>)
        requires
            self.wf(),
        ensures
            ({
                let m = self.entries_view();
                let t = self.target(path@);
                &&& !m.contains_key(t) ==> fails(r, ErrorKind::NotFound, render(t))
                &&& m.contains_key(t) && m[t].kind == EntryType::Directory ==> fails(
                    r,
                    ErrorKind::IsADirectory,
                    render(t),
                )
                &&& m.contains_key(t) && m[t].kind == EntryType::File ==> r is Ok && r->Ok_0@ == render(t)
            }),
    {
        self.ns.file_target(path)
    }

    /// The inner path that `rm(path)` removes, or why it may not.
    pub fn rm_target(&self, path: &str) -> (r: Result<String, VfsError>)
        requires
            self.wf(),
        ensures
            ({
                let m = self.entries_view();
                let t = self.target(path@);
                &&& path@.len() == 0 ==> fails(r, ErrorKind::InvalidPath, "empty"@)
                &&& path@.len() > 0 && (is_root_only(path@) || t.len() == 0) ==> fails(
                    r,
                    ErrorKind::InvalidPath,
                    "the root cannot be removed"@,
                )
                &&& path@.len() > 0 && !is_root_only(path@) && t.len() > 0 && !m.contains_key(t)
                    ==> fails(r, ErrorKind::NotFound, render(t))
                &&& path@.len() > 0 && !is_root_only(path@) && t.len() > 0 && m.contains_key(t)
                    ==> r is Ok && r->Ok_0@ == render(t)
            }),
    {
        self.ns.rm_target(path)
    }

    /// The order of a cleanup: every known path but the root, deepest first,
    /// so that nothing is removed before what lies below it.
    pub fn cleanup_order(&self) -> (r: Vec<String>)
        requires
            self.wf(),
        ensures
            r@.len() + 1 == self.keys().len(),
            forall|a: int| 0 <= a < r@.len() ==> #[trigger] r@[a]@ == render(self.keys()[self.keys().len() - 1 - a]),
            forall|a: int, b: int| 0 <= a < b < r@.len() ==> !is_prefix(
                #[trigger] self.keys()[self.keys().len() - 1 - a],
                #[trigger] self.keys()[self.keys().len() - 1 - b],
            ),
    {
        self.ns.deepest_first()
    }

    /// One step of a cleanup, once the host removal of `inner` was attempted:
    /// `removed` tells whether it is gone from the host (also when it was
    /// already missing). A removed path stops being tracked with everything
    /// below it; one that failed stays tracked and the step reports failure.
    /// An unknown path, or the root, is passed over.
    pub fn cleanup_step(&mut self, inner: &str, removed: bool) -> (r: bool)
        requires
            old(self).wf(),
        ensures
            final(self).wf(),
            final(self).cwd_spec() == old(self).cwd_spec(),
            final(self).root_spec() == old(self).root_spec(),
            final(self).root_parents() == old(self).root_parents(),
            final(self).auto_clean() == old(self).auto_clean(),
            ({
                let t = old(self).target(inner@);
                let m = old(self).entries_view();
                &&& (!m.contains_key(t) || t.len() == 0) ==> r && final(self).entries_view() == m
                &&& m.contains_key(t) && t.len() > 0 && removed ==> r && final(self).entries_view()
                    == m.remove_keys(subtree(t))
                &&& m.contains_key(t) && t.len() > 0 && !removed ==> !r && final(self).entries_view()
                    == m
            }),
    {
        let t = self.ns.to_inner(inner);
        if t.len() == 0 || !self.ns.path_exists(inner) {
            return true;
        }
        if removed {
            let _ = self.ns.forget(inner);
            true
        } else {
            false
        }
    }

    /// The host directories made for the root, last made first: the order in
    /// which a teardown removes them.
    pub fn root_parents_to_remove(&self) -> (r: Vec<String>)
        ensures
            strings_of(r@) == self.root_parents().reverse(),
    {
        let n = self.created_root_parents.len();
        let mut out: Vec<String> = Vec::new();
        let mut i: usize = n;
        while i > 0
            invariant
                n == self.created_root_parents@.len(),
                i <= n,
                strings_of(out@) =~= self.root_parents().reverse().take(n - i),
            decreases i,
        {
            i = i - 1;
            let ghost prev = out@;
            out.push(self.created_root_parents[i].clone());
            proof {
                let rev = self.root_parents().reverse();
                assert(out@ =~= prev.push(self.created_root_parents@[i as int]));
                assert(rev[n - 1 - i] == self.root_parents()[i as int]);
                assert(rev.take(n - i) =~= rev.take(n - i - 1).push(rev[n - 1 - i]));
                assert(strings_of(out@) =~= strings_of(prev).push(self.created_root_parents@[i as int]@));
            }
        }
        assert(self.root_parents().reverse().take(n as int) =~= self.root_parents().reverse());
        out
    }
}

} // verus!
