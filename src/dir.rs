//! A simpler host-backed filesystem that records created paths in a list.
//!
//! It keeps the working directory as a plain path string that callers may set,
//! and resolves paths against it; `..` at the root stays at the root.
use vstd::prelude::*;
use vstd::string::*;
use crate::entry::{fails, ErrorKind, VfsError};
use crate::path::{
    inner_path, inner_of, is_absolute, names_of, normalize, normalized, render, render_names,
    resolve, resolve_onto, starts_absolute,
};

verus! {

/// The absolute inner path that `p` denotes when the working directory is
/// `cwd`.
pub open spec fn inner_from(cwd: Seq<char>, p: Seq<char>) -> Seq<char> {
    render(inner_of(resolve(Seq::empty(), cwd), p))
}

/// `path` under the host directory `root`.
pub open spec fn host_under(root: Seq<char>, path: Seq<char>) -> Seq<char> {
    if root.len() > 0 && root.last() == '/' {
        root + path
    } else {
        root + seq!['/'] + path
    }
}

pub struct DirFs {
    root: String,
    /// The working directory, an absolute inner path.
    pub cwd: String,
    entries: Vec<String>,
    created_root_parents: Vec<String>,
    is_auto_clean: bool,
}

impl DirFs {
    pub closed spec fn root_spec(&self) -> Seq<char> {
        self.root@
    }

    pub closed spec fn cwd_spec(&self) -> Seq<char> {
        self.cwd@
    }

    /// The inner paths recorded, in the order they were recorded.
    pub closed spec fn entries_spec(&self) -> Seq<Seq<char>> {
        self.entries@.map_values(|s: String| s@)
    }

    pub closed spec fn root_parents(&self) -> Seq<Seq<char>> {
        self.created_root_parents@.map_values(|s: String| s@)
    }

    pub closed spec fn auto_clean(&self) -> bool {
        self.is_auto_clean
    }

    /// A filesystem rooted at the host directory `root`, which the caller has
    /// made sure exists, making `created_root_parents` (in that order) to that
    /// end. The working directory is the root.
    pub fn new(root: &str, created_root_parents: Vec<String>) -> (r: Result<DirFs, VfsError>)
        ensures
            root@.len() == 0 ==> fails(r, ErrorKind::InvalidPath, "invalid root path: empty"@),
            root@.len() > 0 ==> r is Ok && ({
                let fs = r->Ok_0;
                &&& fs.root_spec() == root@
                &&& fs.cwd_spec() == seq!['/']
                &&& fs.entries_spec() == seq![seq!['/']]
                &&& fs.root_parents() == created_root_parents@.map_values(|s: String| s@)
                &&& fs.auto_clean()
            }),
    {
        if root.unicode_len() == 0 {
            return Err(VfsError::InvalidPath(String::from_str("invalid root path: empty")));
        }
        let cwd = String::from_str("/");
        let mut entries: Vec<String> = Vec::new();
        entries.push(String::from_str("/"));
        proof {
            reveal_strlit("/");
            assert("/"@ =~= seq!['/']);
        }
        let fs = DirFs {
            root: String::from_str(root),
            cwd,
            entries,
            created_root_parents,
            is_auto_clean: true,
        };
        assert(fs.entries_spec() =~= seq![seq!['/']]);
        Ok(fs)
    }

    pub fn set_auto_clean(&mut self, clean: bool)
        ensures
            final(self).auto_clean() == clean,
            final(self).root_spec() == old(self).root_spec(),
            final(self).cwd_spec() == old(self).cwd_spec(),
            final(self).entries_spec() == old(self).entries_spec(),
            final(self).root_parents() == old(self).root_parents(),
    {
        self.is_auto_clean = clean;
    }

    pub fn root(&self) -> (r: String)
        ensures
            r@ == self.root_spec(),
    {
        self.root.clone()
    }

    /// The absolute inner path that `path` denotes from the working directory:
    /// the working directory itself for an empty path or `.`, its parent for
    /// `..` (the root at the root). There is always one.
    pub fn as_inner_path(&self, path: &str) -> (r: Option<String>)
        ensures
            r is Some && r->Some_0@ == inner_from(self.cwd_spec(), path@),
    {
        let cs = resolve_onto(Vec::new(), self.cwd.as_str());
        assert(names_of(Seq::<String>::empty()) =~= Seq::<Seq<char>>::empty());
        let t = inner_path(&cs, path);
        Some(render_names(&t))
    }

    /// Normalizes `path` (see `path::normalize`).
    pub fn normalize(path: &str) -> (r: String)
        ensures
            r@ == normalized(path@),
    {
        normalize(path)
    }

    /// The host path of the relative path `path` under the root.
    pub fn host_path(&self, path: &str) -> (r: Result<String, VfsError>)
        ensures
            is_absolute(path@) ==> fails(r, ErrorKind::InvalidPath, "path must be relative"@),
            !is_absolute(path@) ==> r is Ok && r->Ok_0@ == host_under(self.root_spec(), path@),
    {
        if starts_absolute(path) {
            return Err(VfsError::InvalidPath(String::from_str("path must be relative")));
        }
        let n = self.root.unicode_len();
        let base = if n > 0 && self.root.as_str().get_char(n - 1) == '/' {
            self.root.clone()
        } else {
            proof {
                reveal_strlit("/");
            }
            self.root.clone().concat("/")
        };
        Ok(base.concat(path))
    }

    /// Whether the absolute inner path `path` is recorded.
    fn is_recorded(&self, path: &str) -> (r: bool)
        ensures
            r == self.entries_spec().contains(path@),
    {
        let p = String::from_str(path);
        let mut i: usize = 0;
        while i < self.entries.len()
            invariant
                p@ == path@,
                i <= self.entries@.len(),
                forall|j: int| 0 <= j < i ==> self.entries@[j]@ != path@,
            decreases self.entries@.len() - i,
        {
            if self.entries[i] == p {
                assert(self.entries_spec()[i as int] == path@);
                return true;
            }
            i = i + 1;
        }
        proof {
            if self.entries_spec().contains(path@) {
                let j = choose|j: int| 0 <= j < self.entries_spec().len() && self.entries_spec()[j] == path@;
                assert(self.entries@[j]@ == path@);
            }
        }
        false
    }

    /// Whether the path that `path` denotes from the working directory is
    /// recorded.
    pub fn path_exists(&self, path: &str) -> (r: bool)
        ensures
            r == self.entries_spec().contains(inner_from(self.cwd_spec(), path@)),
    {
        match self.as_inner_path(path) {
            Some(t) => self.is_recorded(t.as_str()),
            None => false,
        }
    }

    /// Moves the working directory to the recorded path that `path` denotes.
    pub fn cd(&mut self, path: &str) -> (r: Result<(), VfsError>)
        ensures
            final(self).root_spec() == old(self).root_spec(),
            final(self).entries_spec() == old(self).entries_spec(),
            final(self).root_parents() == old(self).root_parents(),
            final(self).auto_clean() == old(self).auto_clean(),
            ({
                let t = inner_from(old(self).cwd_spec(), path@);
                if old(self).entries_spec().contains(t) {
                    r is Ok && final(self).cwd_spec() == t
                } else {
                    fails(r, ErrorKind::NotFound, t) && final(self).cwd_spec() == old(self).cwd_spec()
                }
            }),
    {
        match self.as_inner_path(path) {
            None => Ok(()),
            Some(t) => {
                if !self.is_recorded(t.as_str()) {
                    return Err(VfsError::NotFound(t));
                }
                self.cwd = t;
                Ok(())
            },
        }
    }

    pub fn is_auto_clean(&self) -> (r: bool)
        ensures
            r == self.auto_clean(),
    {
        self.is_auto_clean
    }

    /// The host directories made for the root, last made first: the order in
    /// which a teardown removes them.
    pub fn root_parents_to_remove(&self) -> (r: Vec<String>)
        ensures
            r@.map_values(|s: String| s@) == self.root_parents().reverse(),
    {
        let n = self.created_root_parents.len();
        let mut out: Vec<String> = Vec::new();
        let mut i: usize = n;
        while i > 0
            invariant
                n == self.created_root_parents@.len(),
                i <= n,
                out@.map_values(|s: String| s@) =~= self.root_parents().reverse().take(n - i),
            decreases i,
        {
            i = i - 1;
            let ghost prev = out@;
            out.push(self.created_root_parents[i].clone());
            proof {
                let rev = self.root_parents().reverse();
                assert(out@ =~= prev.push(self.created_root_parents@[i as int]));
                assert(rev[n - 1 - i] == self.root_parents()[i as int]);
                assert(rev.take(n - i) =~= rev.take(n - i - 1).push(rev[n - 1 - i]));
                assert(out@.map_values(|s: String| s@) =~= prev.map_values(|s: String| s@).push(
                    self.created_root_parents@[i as int]@,
                ));
            }
        }
        assert(self.root_parents().reverse().take(n as int) =~= self.root_parents().reverse());
        out
    }
}

} // verus!
