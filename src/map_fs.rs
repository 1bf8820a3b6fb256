//! A virtual filesystem kept wholly in memory.
//!
//! Every entry, file content included, lives in the entry store. Creating a
//! file at a path that is already known is an error: a known file is never
//! silently replaced.
use vstd::prelude::*;
use vstd::string::*;
use crate::entry::{fails, EntryType, ErrorKind, VfsError};
use crate::namespace::{
    bytes_view, cd_outcome, dir_view, list_outcome, mkdir_outcome, mkfile_outcome, read_outcome,
    rm_outcome, write_outcome, Entries, Namespace,
};
use crate::path::{host_join, host_path_of, inner_of, is_absolute, render, starts_absolute};
use crate::store::{is_tree, sorted};

verus! {

/// The in-memory filesystem: a host path it is anchored to (`root`, used only
/// to compute host paths), the working directory and the entries.
pub struct MapFS {
    root: String,
    ns: Namespace,
}

impl MapFS {
    pub closed spec fn root_spec(&self) -> Seq<char> {
        self.root@
    }

    /// The working directory as a stack of components.
    pub closed spec fn cwd_spec(&self) -> Seq<Seq<char>> {
        self.ns.cwd_spec()
    }

    /// The known paths and their entries.
    pub closed spec fn entries_view(&self) -> Entries {
        self.ns.entries_view()
    }

    /// The known paths in ascending order.
    pub closed spec fn keys(&self) -> Seq<Seq<Seq<char>>> {
        self.ns.keys()
    }

    pub closed spec fn wf(&self) -> bool {
        self.ns.wf() && is_absolute(self.root@)
    }

    /// The inner path that `p` denotes from the working directory.
    pub open spec fn target(&self, p: Seq<char>) -> Seq<Seq<char>> {
        inner_of(self.cwd_spec(), p)
    }

    /// Every known path but the root has its parent known as a directory, and
    /// the root is always a known directory without content. `keys` lists the
    /// known paths once each, in ascending order, the root first.
    pub proof fn lemma_tree(&self)
        requires
            self.wf(),
        ensures
            is_tree(self.entries_view()),
            sorted(self.keys()),
            forall|k: Seq<Seq<char>>| self.entries_view().contains_key(k) <==> self.keys().contains(k),
            self.keys().len() > 0,
            self.keys()[0] == Seq::<Seq<char>>::empty(),
            self.entries_view()[Seq::empty()] == dir_view(),
    {
        self.ns.lemma_wf();
    }

    /// A filesystem holding the root directory alone, with `/` as root and
    /// working directory.
    pub fn new() -> (r: MapFS)
        ensures
            r.wf(),
            r.root_spec() == "/"@,
            r.cwd_spec() == Seq::<Seq<char>>::empty(),
            r.entries_view() == map![Seq::<Seq<char>>::empty() => dir_view()],
    {
        let root = String::from_str("/");
        proof {
            reveal_strlit("/");
        }
        MapFS { root, ns: Namespace::new() }
    }

    /// Changes the host path the filesystem is anchored to; it must be absolute.
    pub fn set_root(&mut self, path: &str) -> (r: Result<(), VfsError>)
        requires
            old(self).wf(),
        ensures
            final(self).wf(),
            final(self).cwd_spec() == old(self).cwd_spec(),
            final(self).entries_view() == old(self).entries_view(),
            is_absolute(path@) ==> r is Ok && final(self).root_spec() == path@,
            !is_absolute(path@) ==> fails(r, ErrorKind::InvalidPath, "root path must be an absolute"@)
                && final(self).root_spec() == old(self).root_spec(),
    {
        if !starts_absolute(path) {
            return Err(VfsError::InvalidPath(String::from_str("root path must be an absolute")));
        }
        self.root = String::from_str(path);
        Ok(())
    }

    pub fn root(&self) -> (r: String)
        ensures
            r@ == self.root_spec(),
    {
        self.root.clone()
    }

    pub fn cwd(&self) -> (r: String)
        ensures
            r@ == render(self.cwd_spec()),
    {
        self.ns.cwd()
    }

    /// The host path that `inner_path` would have under `root`.
    pub fn to_host(&self, inner_path: &str) -> (r: Result<String, VfsError>)
        requires
            self.wf(),
        ensures
            r is Ok && r->Ok_0@ == host_join(self.root_spec(), self.target(inner_path@)),
    {
        let t = self.ns.to_inner(inner_path);
        Ok(host_path_of(self.root.as_str(), &t))
    }

    /// Moves the working directory to the directory at `path`.
    pub fn cd(&mut self, path: &str) -> (r: Result<(), VfsError>)
        requires
            old(self).wf(),
        ensures
            final(self).wf(),
            final(self).entries_view() == old(self).entries_view(),
            final(self).root_spec() == old(self).root_spec(),
            cd_outcome(old(self).entries_view(), old(self).target(path@), r),
            r is Ok ==> final(self).cwd_spec() == old(self).target(path@),
            r is Err ==> final(self).cwd_spec() == old(self).cwd_spec(),
    {
        self.ns.cd(path)
    }

    pub fn path_exists(&self, path: &str) -> (r: bool)
        requires
            self.wf(),
        ensures
            r == self.entries_view().contains_key(self.target(path@)),
    {
        self.ns.path_exists(path)
    }

    pub fn is_dir(&self, path: &str) -> (r: Result<bool, VfsError>)
        requires
            self.wf(),
        ensures
            self.entries_view().contains_key(self.target(path@)) ==> r == Ok::<bool, VfsError>(
                self.entries_view()[self.target(path@)].kind == EntryType::Directory,
            ),
            !self.entries_view().contains_key(self.target(path@)) ==> fails(
                r,
                ErrorKind::NotFound,
                render(self.target(path@)),
            ),
    {
        match self.ns.kind_at(path) {
            Ok(k) => Ok(k == EntryType::Directory),
            Err(e) => Err(e),
        }
    }

    pub fn is_file(&self, path: &str) -> (r: Result<bool, VfsError>)
        requires
            self.wf(),
        ensures
            self.entries_view().contains_key(self.target(path@)) ==> r == Ok::<bool, VfsError>(
                self.entries_view()[self.target(path@)].kind == EntryType::File,
            ),
            !self.entries_view().contains_key(self.target(path@)) ==> fails(
                r,
                ErrorKind::NotFound,
                render(self.target(path@)),
            ),
    {
        match self.ns.kind_at(path) {
            Ok(k) => Ok(k == EntryType::File),
            Err(e) => Err(e),
        }
    }

    /// The children of the directory at `path`, in ascending order; a file
    /// lists as itself.
    pub fn ls(&self, path: &str) -> (r: Result<Vec<String>, VfsError>)
        requires
            self.wf(),
        ensures
            list_outcome(self.entries_view(), self.keys(), self.target(path@), true, r),
    {
        self.ns.list(path, true)
    }

    /// Everything below the directory at `path`, in ascending order; a file
    /// lists as itself.
    pub fn tree(&self, path: &str) -> (r: Result<Vec<String>, VfsError>)
        requires
            self.wf(),
        ensures
            list_outcome(self.entries_view(), self.keys(), self.target(path@), false, r),
    {
        self.ns.list(path, false)
    }

    /// Creates the directory at `path` and every missing one above it.
    pub fn mkdir(&mut self, path: &str) -> (r: Result<(), VfsError>)
        requires
            old(self).wf(),
        ensures
            final(self).wf(),
            final(self).cwd_spec() == old(self).cwd_spec(),
            final(self).root_spec() == old(self).root_spec(),
            mkdir_outcome(
                old(self).entries_view(),
                old(self).target(path@),
                path@,
                r,
                final(self).entries_view(),
            ),
    {
        self.ns.mkdir(path)
    }

    /// Creates the file at `path` holding `content`, and every missing
    /// directory above it.
    pub fn mkfile(&mut self, path: &str, content: Option<&[u8]>) -> (r: Result<(), VfsError>)
        requires
            old(self).wf(),
        ensures
            final(self).wf(),
            final(self).cwd_spec() == old(self).cwd_spec(),
            final(self).root_spec() == old(self).root_spec(),
            mkfile_outcome(
                old(self).entries_view(),
                old(self).target(path@),
                bytes_view(content),
                r,
                final(self).entries_view(),
            ),
    {
        self.ns.mkfile(path, content)
    }

    /// The bytes of the file at `path`; empty for a file created without any.
    pub fn read(&self, path: &str) -> (r: Result<Vec<u8>, VfsError>)
        requires
            self.wf(),
        ensures
            read_outcome(self.entries_view(), self.target(path@), r),
    {
        self.ns.read(path)
    }

    /// Replaces the bytes of the file at `path`.
    pub fn write(&mut self, path: &str, content: &[u8]) -> (r: Result<(), VfsError>)
        requires
            old(self).wf(),
        ensures
            final(self).wf(),
            final(self).cwd_spec() == old(self).cwd_spec(),
            final(self).root_spec() == old(self).root_spec(),
            write_outcome(
                old(self).entries_view(),
                old(self).target(path@),
                content@,
                false,
                r,
                final(self).entries_view(),
            ),
    {
        self.ns.write(path, content)
    }

    /// Adds `content` at the end of the file at `path`.
    pub fn append(&mut self, path: &str, content: &[u8]) -> (r: Result<(), VfsError>)
        requires
            old(self).wf(),
        ensures
            final(self).wf(),
            final(self).cwd_spec() == old(self).cwd_spec(),
            final(self).root_spec() == old(self).root_spec(),
            write_outcome(
                old(self).entries_view(),
                old(self).target(path@),
                content@,
                true,
                r,
                final(self).entries_view(),
            ),
    {
        self.ns.append(path, content)
    }

    /// Removes the file or directory at `path`, with everything below it.
    /// The root can never be removed.
    pub fn rm(&mut self, path: &str) -> (r: Result<(), VfsError>)
        requires
            old(self).wf(),
        ensures
            final(self).wf(),
            final(self).cwd_spec() == old(self).cwd_spec(),
            final(self).root_spec() == old(self).root_spec(),
            rm_outcome(
                old(self).entries_view(),
                old(self).target(path@),
                path@,
                r,
                final(self).entries_view(),
            ),
    {
        self.ns.rm(path)
    }

    /// Removes everything but the root; always succeeds.
    pub fn cleanup(&mut self) -> (r: bool)
        requires
            old(self).wf(),
        ensures
            r,
            final(self).wf(),
            final(self).cwd_spec() == old(self).cwd_spec(),
            final(self).root_spec() == old(self).root_spec(),
            final(self).entries_view() == map![Seq::<Seq<char>>::empty() => dir_view()],
    {
        self.ns.clear();
        true
    }
}

} // verus!
