//! The namespace of a virtual filesystem: the working directory and the entry
//! store, with the operations that both backends share.
use vstd::prelude::*;
use vstd::string::*;
use crate::entry::{
    bytes_of, fails, fails_as, Entry, EntryType, EntryView, ErrorKind, VfsError,
};
use crate::order::is_prefix;
use crate::path::{
    all_names, inner_of, inner_path, is_root_only, is_virtual_root, lemma_resolve_names, names_of,
    render, render_names,
};
use crate::store::{is_tree, rendered, select_spec, sorted, strings_of, subtree, EntryStore};

verus! {

pub open spec fn dir_view() -> EntryView {
    EntryView { kind: EntryType::Directory, content: None }
}

/// `m` with every path from the root down to `t` that it lacks added as a
/// directory.
pub open spec fn with_dirs(m: Map<Seq<Seq<char>>, EntryView>, t: Seq<Seq<char>>) -> Map<
    Seq<Seq<char>>,
    EntryView,
> {
    Map::new(
        |k: Seq<Seq<char>>| m.contains_key(k) || is_prefix(k, t),
        |k: Seq<Seq<char>>|
            if m.contains_key(k) {
                m[k]
            } else {
                dir_view()
            },
    )
}

/// One of the first `upto` paths from the root towards `t` is a known file.
pub open spec fn file_on_way(m: Map<Seq<Seq<char>>, EntryView>, t: Seq<Seq<char>>, upto: int) -> bool {
    exists|j: int| 0 <= j < upto && #[trigger] m.contains_key(t.take(j)) && m[t.take(j)].kind == EntryType::File
}

/// Among the first `d` paths below the root on the way to `t`, those that `m`
/// lacks, shallowest first.
pub open spec fn missing_upto(m: Map<Seq<Seq<char>>, EntryView>, t: Seq<Seq<char>>, d: nat) -> Seq<Seq<Seq<char>>> {
    Seq::new(d, |j: int| t.take(j + 1)).filter(|k: Seq<Seq<char>>| !m.contains_key(k))
}

/// The paths from the root down to `t` that `m` lacks, shallowest first.
pub open spec fn missing_dirs(m: Map<Seq<Seq<char>>, EntryView>, t: Seq<Seq<char>>) -> Seq<Seq<Seq<char>>> {
    missing_upto(m, t, t.len())
}

pub open spec fn bytes_view(c: Option<&[u8]>) -> Option<Seq<u8>> {
    match c {
        Some(b) => Some(b@),
        None => None,
    }
}

pub type Entries = Map<Seq<Seq<char>>, EntryView>;

/// What `is_dir`/`is_file` report about `t`: its kind, or that it is unknown.
pub open spec fn kind_outcome(m: Entries, t: Seq<Seq<char>>, r: Result<EntryType, VfsError>) -> bool {
    &&& m.contains_key(t) ==> r == Ok::<EntryType, VfsError>(m[t].kind)
    &&& !m.contains_key(t) ==> fails(r, ErrorKind::NotFound, render(t))
}

/// Moving to `t` succeeds exactly on a directory.
pub open spec fn cd_outcome(m: Entries, t: Seq<Seq<char>>, r: Result<(), VfsError>) -> bool {
    &&& !m.contains_key(t) ==> fails(r, ErrorKind::NotFound, render(t))
    &&& m.contains_key(t) && m[t].kind == EntryType::File ==> fails(r, ErrorKind::NotADirectory, render(t))
    &&& m.contains_key(t) && m[t].kind == EntryType::Directory ==> r is Ok
}

/// Listing `t`: the selected paths below a directory in ascending order, a
/// file as itself.
pub open spec fn list_outcome(
    m: Entries,
    keys: Seq<Seq<Seq<char>>>,
    t: Seq<Seq<char>>,
    only_children: bool,
    r: Result<Vec<String>, VfsError>,
) -> bool {
    &&& !m.contains_key(t) ==> fails(r, ErrorKind::NotFound, render(t))
    &&& m.contains_key(t) && m[t].kind == EntryType::File ==> r is Ok && strings_of(r->Ok_0@) == seq![render(t)]
    &&& m.contains_key(t) && m[t].kind == EntryType::Directory ==> r is Ok && strings_of(r->Ok_0@)
        == rendered(select_spec(keys, t, only_children))
}

/// Creating the directory `t` (written `path`) turns `m` into `m2`.
pub open spec fn mkdir_outcome<T>(
    m: Entries,
    t: Seq<Seq<char>>,
    path: Seq<char>,
    r: Result<T, VfsError>,
    m2: Entries,
) -> bool {
    &&& path.len() == 0 ==> fails(r, ErrorKind::InvalidPath, "empty"@)
    &&& path.len() > 0 && m.contains_key(t) ==> fails(r, ErrorKind::AlreadyExists, render(t))
    &&& path.len() > 0 && !m.contains_key(t) && file_on_way(m, t, t.len() as int) ==> fails_as(r, ErrorKind::NotADirectory)
    &&& path.len() > 0 && !m.contains_key(t) && !file_on_way(m, t, t.len() as int) ==> r is Ok && m2 == with_dirs(m, t)
    &&& r is Err ==> m2 == m
}

/// Creating the file `t` with `content` turns `m` into `m2`.
pub open spec fn mkfile_outcome(
    m: Entries,
    t: Seq<Seq<char>>,
    content: Option<Seq<u8>>,
    r: Result<(), VfsError>,
    m2: Entries,
) -> bool {
    &&& m.contains_key(t) ==> fails(r, ErrorKind::AlreadyExists, render(t))
    &&& !m.contains_key(t) && file_on_way(m, t, t.len() as int) ==> fails_as(r, ErrorKind::NotADirectory)
    &&& !m.contains_key(t) && !file_on_way(m, t, t.len() as int) ==> r is Ok && m2 == with_dirs(m, t.drop_last()).insert(
        t,
        EntryView { kind: EntryType::File, content },
    )
    &&& r is Err ==> m2 == m
}

/// Reading `t`: the bytes of a file.
pub open spec fn read_outcome(m: Entries, t: Seq<Seq<char>>, r: Result<Vec<u8>, VfsError>) -> bool {
    &&& !m.contains_key(t) ==> fails(r, ErrorKind::NotFound, render(t))
    &&& m.contains_key(t) && m[t].kind == EntryType::Directory ==> fails(r, ErrorKind::IsADirectory, render(t))
    &&& m.contains_key(t) && m[t].kind == EntryType::File ==> r is Ok && r->Ok_0@ == bytes_of(m[t])
}

/// Writing `content` to `t`, replacing or (with `extend`) extending its bytes,
/// turns `m` into `m2`.
pub open spec fn write_outcome(
    m: Entries,
    t: Seq<Seq<char>>,
    content: Seq<u8>,
    extend: bool,
    r: Result<(), VfsError>,
    m2: Entries,
) -> bool {
    &&& !m.contains_key(t) ==> fails(r, ErrorKind::NotFound, render(t))
    &&& m.contains_key(t) && m[t].kind == EntryType::Directory ==> fails(r, ErrorKind::IsADirectory, render(t))
    &&& m.contains_key(t) && m[t].kind == EntryType::File ==> r is Ok && m2 == m.insert(
        t,
        EntryView {
            kind: EntryType::File,
            content: Some(if extend { bytes_of(m[t]) + content } else { content }),
        },
    )
    &&& r is Err ==> m2 == m
}

/// Removing `path` (denoting `t`) turns `m` into `m2`; the root is never removed.
pub open spec fn rm_outcome(
    m: Entries,
    t: Seq<Seq<char>>,
    path: Seq<char>,
    r: Result<(), VfsError>,
    m2: Entries,
) -> bool {
    &&& path.len() == 0 ==> fails(r, ErrorKind::InvalidPath, "empty"@)
    &&& path.len() > 0 && (is_root_only(path) || t.len() == 0) ==> fails(r, ErrorKind::InvalidPath, "the root cannot be removed"@)
    &&& path.len() > 0 && !is_root_only(path) && t.len() > 0 && !m.contains_key(t) ==> fails(r, ErrorKind::NotFound, render(t))
    &&& path.len() > 0 && !is_root_only(path) && t.len() > 0 && m.contains_key(t) ==> r is Ok && m2 == m.remove_keys(subtree(t))
    &&& r is Err ==> m2 == m
}

/// Starting to track `t` as a `kind` turns `m` into `m2`; a known path stays
/// as it is.
pub open spec fn add_outcome(
    m: Entries,
    t: Seq<Seq<char>>,
    kind: EntryType,
    r: Result<(), VfsError>,
    m2: Entries,
) -> bool {
    &&& m.contains_key(t) ==> r is Ok && m2 == m
    &&& !m.contains_key(t) && file_on_way(m, t, t.len() as int) ==> fails_as(r, ErrorKind::NotADirectory)
    &&& !m.contains_key(t) && !file_on_way(m, t, t.len() as int) ==> r is Ok && m2 == with_dirs(m, t.drop_last()).insert(
        t,
        EntryView { kind, content: None },
    )
    &&& r is Err ==> m2 == m
}

/// Ceasing to track `t` and all below it turns `m` into `m2`.
pub open spec fn forget_outcome(m: Entries, t: Seq<Seq<char>>, r: Result<(), VfsError>, m2: Entries) -> bool {
    &&& !m.contains_key(t) ==> fails(r, ErrorKind::NotFound, render(t))
    &&& m.contains_key(t) && t.len() == 0 ==> fails(r, ErrorKind::InvalidPath, "the root cannot be removed"@)
    &&& m.contains_key(t) && t.len() > 0 ==> r is Ok && m2 == m.remove_keys(subtree(t))
    &&& r is Err ==> m2 == m
}

pub struct Namespace {
    cwd: Vec<String>,
    entries: EntryStore,
}

/// A copy of the first `d` components of `v`.
fn take_names(v: &Vec<String>, d: usize) -> (r: Vec<String>)
    requires
        d <= v@.len(),
    ensures
        names_of(r@) == names_of(v@).take(d as int),
{
    let mut out: Vec<String> = Vec::new();
    let mut i: usize = 0;
    while i < d
        invariant
            d <= v@.len(),
            i <= d,
            names_of(out@) =~= names_of(v@).take(i as int),
        decreases d - i,
    {
        let ghost prev = out@;
        out.push(v[i].clone());
        assert(out@ =~= prev.push(v@[i as int]));
        assert(names_of(v@).take(i + 1) =~= names_of(v@).take(i as int).push(v@[i as int]@));
        i = i + 1;
    }
    out
}

proof fn lemma_prefix_step(k: Seq<Seq<char>>, u: Seq<Seq<char>>, d: int)
    requires
        0 <= d < u.len(),
    ensures
        is_prefix(k, u.take(d + 1)) <==> (is_prefix(k, u.take(d)) || k == u.take(d + 1)),
{
    let q = u.take(d + 1);
    let p = u.take(d);
    if is_prefix(k, q) && k.len() <= d {
        assert(p.take(k.len() as int) =~= q.take(k.len() as int));
    }
    if is_prefix(k, q) && k.len() == d + 1 {
        assert(q.take(k.len() as int) =~= q);
    }
    if is_prefix(k, p) {
        assert(p.take(k.len() as int) =~= q.take(k.len() as int));
    }
    if k == q {
        assert(q.take(k.len() as int) =~= q);
    }
}

impl Namespace {
    pub closed spec fn cwd_spec(&self) -> Seq<Seq<char>> {
        names_of(self.cwd@)
    }

    /// The known paths and their entries.
    pub closed spec fn entries_view(&self) -> Map<Seq<Seq<char>>, EntryView> {
        self.entries@
    }

    /// The known paths in ascending order.
    pub closed spec fn keys(&self) -> Seq<Seq<Seq<char>>> {
        self.entries.keys()
    }

    pub closed spec fn wf(&self) -> bool {
        &&& self.entries.wf()
        &&& all_names(self.cwd_spec())
        &&& self.entries@[Seq::empty()] == dir_view()
    }

    /// The inner path that `p` denotes here.
    pub open spec fn target(&self, p: Seq<char>) -> Seq<Seq<char>> {
        inner_of(self.cwd_spec(), p)
    }

    /// The known paths form a tree rooted at the root directory, listed in
    /// ascending order.
    pub proof fn lemma_wf(&self)
        requires
            self.wf(),
        ensures
            is_tree(self.entries_view()),
            sorted(self.keys()),
            forall|k: Seq<Seq<char>>| self.entries_view().contains_key(k) <==> self.keys().contains(k),
            self.keys().len() > 0,
            self.keys()[0] == Seq::<Seq<char>>::empty(),
            self.entries_view()[Seq::empty()] == dir_view(),
            all_names(self.cwd_spec()),
    {
        self.entries.lemma_wf();
    }

    pub fn new() -> (r: Namespace)
        ensures
            r.wf(),
            r.cwd_spec() == Seq::<Seq<char>>::empty(),
            r.entries_view() == map![Seq::<Seq<char>>::empty() => dir_view()],
    {
        let r = Namespace { cwd: Vec::new(), entries: EntryStore::new() };
        assert(names_of(Seq::<String>::empty()) =~= Seq::<Seq<char>>::empty());
        r
    }

    /// The inner path that `path` denotes here.
    pub fn to_inner(&self, path: &str) -> (r: Vec<String>)
        requires
            self.wf(),
        ensures
            names_of(r@) == self.target(path@),
            all_names(names_of(r@)),
    {
        let r = inner_path(&self.cwd, path);
        proof {
            lemma_resolve_names(Seq::empty(), path@);
            lemma_resolve_names(self.cwd_spec(), path@);
        }
        r
    }

    pub fn cwd(&self) -> (r: String)
        ensures
            r@ == render(self.cwd_spec()),
    {
        render_names(&self.cwd)
    }

    pub fn path_exists(&self, path: &str) -> (r: bool)
        requires
            self.wf(),
        ensures
            r == self.entries_view().contains_key(self.target(path@)),
    {
        let t = self.to_inner(path);
        self.entries.contains(&t)
    }

    /// The kind of the entry at `path`.
    pub fn kind_at(&self, path: &str) -> (r: Result<EntryType, VfsError>)
        requires
            self.wf(),
        ensures
            kind_outcome(self.entries_view(), self.target(path@), r),
    {
        let t = self.to_inner(path);
        match self.entries.get(&t) {
            Some(e) => Ok(e.entry_type()),
            None => Err(VfsError::NotFound(render_names(&t))),
        }
    }

    /// Moves the working directory to the directory at `path`.
    pub fn cd(&mut self, path: &str) -> (r: Result<(), VfsError>)
        requires
            old(self).wf(),
        ensures
            final(self).wf(),
            final(self).entries_view() == old(self).entries_view(),
            cd_outcome(old(self).entries_view(), old(self).target(path@), r),
            r is Ok ==> final(self).cwd_spec() == old(self).target(path@),
            r is Err ==> *final(self) == *old(self),
    {
        let t = self.to_inner(path);
        match self.entries.get(&t) {
            None => Err(VfsError::NotFound(render_names(&t))),
            Some(e) => {
                if e.is_file() {
                    Err(VfsError::NotADirectory(render_names(&t)))
                } else {
                    self.cwd = t;
                    Ok(())
                }
            },
        }
    }

    /// The paths below `path` in ascending order, only its children when
    /// `only_children` holds; a file lists as itself.
    pub fn list(&self, path: &str, only_children: bool) -> (r: Result<Vec<String>, VfsError>)
        requires
            self.wf(),
        ensures
            list_outcome(self.entries_view(), self.keys(), self.target(path@), only_children, r),
    {
        let t = self.to_inner(path);
        match self.entries.get(&t) {
            None => Err(VfsError::NotFound(render_names(&t))),
            Some(e) => {
                if e.is_file() {
                    let mut out: Vec<String> = Vec::new();
                    out.push(render_names(&t));
                    assert(strings_of(out@) =~= seq![render(names_of(t@))]);
                    Ok(out)
                } else {
                    Ok(self.entries.select(&t, only_children))
                }
            },
        }
    }

    /// Fails where a file stands on the way from the root to `t`, `t` excluded.
    fn check_way(&self, t: &Vec<String>) -> (r: Result<(), VfsError>)
        requires
            self.wf(),
        ensures
            r is Ok <==> !file_on_way(self.entries_view(), names_of(t@), names_of(t@).len() as int),
            r is Err ==> fails_as(r, ErrorKind::NotADirectory),
    {
        let ghost tv = names_of(t@);
        let ghost m = self.entries_view();
        let mut d: usize = 0;
        while d < t.len()
            invariant
                self.wf(),
                tv == names_of(t@),
                m == self.entries_view(),
                d <= t@.len(),
                forall|j: int|
                    0 <= j < d ==> !(#[trigger] m.contains_key(tv.take(j)) && m[tv.take(j)].kind
                        == EntryType::File),
            decreases t@.len() - d,
        {
            let q = take_names(t, d);
            match self.entries.get(&q) {
                Some(e) => {
                    if e.is_file() {
                        return Err(VfsError::NotADirectory(render_names(&q)));
                    }
                },
                None => {},
            }
            d = d + 1;
        }
        Ok(())
    }

    /// Tracks as directories all paths from the root down to `u` that are not
    /// known yet.
    fn make_dirs(&mut self, u: &Vec<String>)
        requires
            old(self).wf(),
            all_names(names_of(u@)),
            !file_on_way(old(self).entries_view(), names_of(u@), names_of(u@).len() + 1 as int),
        ensures
            final(self).wf(),
            final(self).cwd_spec() == old(self).cwd_spec(),
            final(self).entries_view() == with_dirs(old(self).entries_view(), names_of(u@)),
    {
        let ghost uv = names_of(u@);
        let ghost m = self.entries_view();
        proof {
            self.lemma_wf();
            assert(uv.take(0) =~= Seq::<Seq<char>>::empty());
            assert forall|k: Seq<Seq<char>>| is_prefix(k, uv.take(0)) implies m.contains_key(k) by {
                assert(k =~= Seq::<Seq<char>>::empty());
            }
            assert(with_dirs(m, uv.take(0)) =~= m);
        }
        let mut d: usize = 0;
        while d < u.len()
            invariant
                self.wf(),
                uv == names_of(u@),
                all_names(uv),
                self.cwd_spec() == old(self).cwd_spec(),
                m == old(self).entries_view(),
                is_tree(m),
                !file_on_way(m, uv, uv.len() + 1 as int),
                d <= u@.len(),
                self.entries_view() == with_dirs(m, uv.take(d as int)),
            decreases u@.len() - d,
        {
            let q = take_names(u, d + 1);
            let ghost qv = uv.take(d + 1);
            let ghost pv = uv.take(d as int);
            let ghost cur = self.entries_view();
            proof {
                assert(qv.drop_last() =~= pv);
                assert(pv.take(d as int) =~= pv);
                assert(is_prefix(pv, pv));
                assert(cur.contains_key(pv));
                if m.contains_key(pv) {
                    assert(!(m.contains_key(uv.take(d as int)) && m[uv.take(d as int)].kind == EntryType::File));
                }
                assert(cur[pv].kind == EntryType::Directory);
                assert(all_names(qv)) by {
                    assert forall|i: int| 0 <= i < qv.len() implies crate::path::is_name(#[trigger] qv[i]) by {
                        assert(qv[i] == uv[i]);
                    }
                }
                assert forall|k: Seq<Seq<char>>| is_prefix(k, qv) <==> (is_prefix(k, pv) || k == qv) by {
                    lemma_prefix_step(k, uv, d as int);
                }
            }
            if !self.entries.contains(&q) {
                self.entries.insert(q, Entry::new(EntryType::Directory));
                proof {
                    assert(!m.contains_key(qv));
                    assert(self.entries_view() =~= with_dirs(m, qv));
                }
            } else {
                proof {
                    assert(qv.len() == d + 1);
                    assert(!is_prefix(qv, pv));
                    assert(m.contains_key(qv));
                    assert(self.entries_view() =~= with_dirs(m, qv));
                }
            }
            d = d + 1;
        }
        assert(uv.take(u@.len() as int) =~= uv);
    }

    /// Creates the directory at `path` and every missing one above it.
    pub fn mkdir(&mut self, path: &str) -> (r: Result<(), VfsError>)
        requires
            old(self).wf(),
        ensures
            final(self).wf(),
            final(self).cwd_spec() == old(self).cwd_spec(),
            r is Err ==> *final(self) == *old(self),
            mkdir_outcome(
                old(self).entries_view(),
                old(self).target(path@),
                path@,
                r,
                final(self).entries_view(),
            ),
    {
        if path.unicode_len() == 0 {
            return Err(VfsError::InvalidPath(String::from_str("empty")));
        }
        let t = self.to_inner(path);
        if self.entries.contains(&t) {
            return Err(VfsError::AlreadyExists(render_names(&t)));
        }
        match self.check_way(&t) {
            Err(e) => {
                return Err(e);
            },
            Ok(()) => {},
        }
        proof {
            let tv = names_of(t@);
            assert(tv.take(tv.len() as int) =~= tv);
        }
        self.make_dirs(&t);
        Ok(())
    }

    /// Creates the file at `path` with `content`, and every missing directory
    /// above it. A known path is never replaced.
    pub fn mkfile(&mut self, path: &str, content: Option<&[u8]>) -> (r: Result<(), VfsError>)
        requires
            old(self).wf(),
        ensures
            final(self).wf(),
            final(self).cwd_spec() == old(self).cwd_spec(),
            r is Err ==> *final(self) == *old(self),
            mkfile_outcome(
                old(self).entries_view(),
                old(self).target(path@),
                bytes_view(content),
                r,
                final(self).entries_view(),
            ),
    {
        let t = self.to_inner(path);
        if self.entries.contains(&t) {
            return Err(VfsError::AlreadyExists(render_names(&t)));
        }
        match self.check_way(&t) {
            Err(e) => {
                return Err(e);
            },
            Ok(()) => {},
        }
        let mut entry = Entry::new(EntryType::File);
        match content {
            Some(c) => entry.set_content(c),
            None => {},
        }
        self.create(t, entry);
        Ok(())
    }

    /// The bytes of the file at `path`.
    pub fn read(&self, path: &str) -> (r: Result<Vec<u8>, VfsError>)
        requires
            self.wf(),
        ensures
            read_outcome(self.entries_view(), self.target(path@), r),
    {
        let t = self.to_inner(path);
        match self.entries.get(&t) {
            None => Err(VfsError::NotFound(render_names(&t))),
            Some(e) => {
                if e.is_dir() {
                    Err(VfsError::IsADirectory(render_names(&t)))
                } else {
                    Ok(e.bytes())
                }
            },
        }
    }

    /// The known file at `path`, or the error for a content operation on it.
    fn file_at(&self, path: &str) -> (r: Result<Vec<String>, VfsError>)
        requires
            self.wf(),
        ensures
            ({
                let t = self.target(path@);
                let m = self.entries_view();
                &&& !m.contains_key(t) ==> fails(r, ErrorKind::NotFound, render(t))
                &&& m.contains_key(t) && m[t].kind == EntryType::Directory ==> fails(
                    r,
                    ErrorKind::IsADirectory,
                    render(t),
                )
                &&& m.contains_key(t) && m[t].kind == EntryType::File ==> r is Ok && names_of(
                    r->Ok_0@,
                ) == t
            }),
    {
        let t = self.to_inner(path);
        match self.entries.get(&t) {
            None => Err(VfsError::NotFound(render_names(&t))),
            Some(e) => {
                if e.is_dir() {
                    Err(VfsError::IsADirectory(render_names(&t)))
                } else {
                    Ok(t)
                }
            },
        }
    }

    /// Replaces the content of the file at `path`.
    pub fn write(&mut self, path: &str, content: &[u8]) -> (r: Result<(), VfsError>)
        requires
            old(self).wf(),
        ensures
            final(self).wf(),
            final(self).cwd_spec() == old(self).cwd_spec(),
            r is Err ==> *final(self) == *old(self),
            write_outcome(
                old(self).entries_view(),
                old(self).target(path@),
                content@,
                false,
                r,
                final(self).entries_view(),
            ),
    {
        match self.file_at(path) {
            Err(e) => Err(e),
            Ok(t) => {
                self.entries.set_content(&t, content);
                Ok(())
            },
        }
    }

    /// Extends the content of the file at `path`.
    pub fn append(&mut self, path: &str, content: &[u8]) -> (r: Result<(), VfsError>)
        requires
            old(self).wf(),
        ensures
            final(self).wf(),
            final(self).cwd_spec() == old(self).cwd_spec(),
            r is Err ==> *final(self) == *old(self),
            write_outcome(
                old(self).entries_view(),
                old(self).target(path@),
                content@,
                true,
                r,
                final(self).entries_view(),
            ),
    {
        match self.file_at(path) {
            Err(e) => Err(e),
            Ok(t) => {
                self.entries.append_content(&t, content);
                Ok(())
            },
        }
    }

    /// The path that a removal of `path` aims at, once it is known to be a
    /// known path other than the root.
    pub fn removal_target(&self, path: &str) -> (r: Result<Vec<String>, VfsError>)
        requires
            self.wf(),
        ensures
            ({
                let t = self.target(path@);
                let m = self.entries_view();
                &&& path@.len() == 0 ==> fails(r, ErrorKind::InvalidPath, "empty"@)
                &&& path@.len() > 0 && (is_root_only(path@) || t.len() == 0) ==> fails(
                    r,
                    ErrorKind::InvalidPath,
                    "the root cannot be removed"@,
                )
                &&& path@.len() > 0 && !is_root_only(path@) && t.len() > 0 && !m.contains_key(t)
                    ==> fails(r, ErrorKind::NotFound, render(t))
                &&& path@.len() > 0 && !is_root_only(path@) && t.len() > 0 && m.contains_key(t)
                    ==> r is Ok && names_of(r->Ok_0@) == t
            }),
    {
        if path.unicode_len() == 0 {
            return Err(VfsError::InvalidPath(String::from_str("empty")));
        }
        if is_virtual_root(path) {
            return Err(VfsError::InvalidPath(String::from_str("the root cannot be removed")));
        }
        let t = self.to_inner(path);
        if t.len() == 0 {
            return Err(VfsError::InvalidPath(String::from_str("the root cannot be removed")));
        }
        if !self.entries.contains(&t) {
            return Err(VfsError::NotFound(render_names(&t)));
        }
        Ok(t)
    }

    /// Stops tracking the path at `path` and everything below it.
    pub fn rm(&mut self, path: &str) -> (r: Result<(), VfsError>)
        requires
            old(self).wf(),
        ensures
            final(self).wf(),
            final(self).cwd_spec() == old(self).cwd_spec(),
            r is Err ==> *final(self) == *old(self),
            rm_outcome(
                old(self).entries_view(),
                old(self).target(path@),
                path@,
                r,
                final(self).entries_view(),
            ),
    {
        match self.removal_target(path) {
            Err(e) => Err(e),
            Ok(t) => {
                let ghost before = self.entries@;
        proof {
            self.entries.lemma_wf();
        }
                self.entries.remove_subtree(&t);
                proof {
                    let root = Seq::<Seq<char>>::empty();
                    assert(!subtree(names_of(t@)).contains(root));
                    assert(before.contains_key(root));
                    assert(self.entries@.contains_key(root));
                    assert(self.entries@[root] == before[root]);
                }
                Ok(())
            },
        }
    }

    /// Stops tracking every path but the root.
    pub fn clear(&mut self)
        requires
            old(self).wf(),
        ensures
            final(self).wf(),
            final(self).cwd_spec() == old(self).cwd_spec(),
            final(self).entries_view() == map![Seq::<Seq<char>>::empty() => dir_view()],
    {
        self.entries = EntryStore::new();
    }

    /// Tracks `t`, and every missing directory above it, with `entry`.
    fn create(&mut self, t: Vec<String>, entry: Entry)
        requires
            old(self).wf(),
            all_names(names_of(t@)),
            !old(self).entries_view().contains_key(names_of(t@)),
            !file_on_way(old(self).entries_view(), names_of(t@), names_of(t@).len() as int),
        ensures
            final(self).wf(),
            final(self).cwd_spec() == old(self).cwd_spec(),
            final(self).entries_view() == with_dirs(old(self).entries_view(), names_of(t@).drop_last()).insert(
                names_of(t@),
                entry@,
            ),
    {
        let ghost m = self.entries_view();
        let ghost tv = names_of(t@);
        proof {
            self.lemma_wf();
            if tv.len() == 0 {
                assert(tv =~= Seq::<Seq<char>>::empty());
            }
        }
        let parent = take_names(&t, t.len() - 1);
        proof {
            let pv = names_of(parent@);
            assert(pv =~= tv.drop_last());
            assert(all_names(pv)) by {
                assert forall|i: int| 0 <= i < pv.len() implies crate::path::is_name(#[trigger] pv[i]) by {
                    assert(pv[i] == tv[i]);
                }
            }
            assert forall|j: int| 0 <= j < pv.len() + 1 implies !(#[trigger] m.contains_key(pv.take(j))
                && m[pv.take(j)].kind == EntryType::File) by {
                assert(pv.take(j) =~= tv.take(j));
            }
        }
        self.make_dirs(&parent);
        proof {
            let pv = tv.drop_last();
            assert(pv.take(pv.len() as int) =~= pv);
            assert(is_prefix(pv, pv));
            if m.contains_key(pv) {
                assert(pv =~= tv.take(tv.len() - 1));
                assert(!(m.contains_key(tv.take(tv.len() - 1)) && m[tv.take(tv.len() - 1)].kind
                    == EntryType::File));
            }
            assert(!is_prefix(tv, pv));
        }
        self.entries.insert(t, entry);
    }

    /// Starts tracking the path at `path` as a `kind`, with every missing
    /// directory above it; a known path is left as it is.
    pub fn add(&mut self, path: &str, kind: EntryType) -> (r: Result<(), VfsError>)
        requires
            old(self).wf(),
        ensures
            final(self).wf(),
            final(self).cwd_spec() == old(self).cwd_spec(),
            r is Err ==> *final(self) == *old(self),
            add_outcome(
                old(self).entries_view(),
                old(self).target(path@),
                kind,
                r,
                final(self).entries_view(),
            ),
    {
        let t = self.to_inner(path);
        if self.entries.contains(&t) {
            return Ok(());
        }
        match self.check_way(&t) {
            Err(e) => {
                return Err(e);
            },
            Ok(()) => {},
        }
        self.create(t, Entry::new(kind));
        Ok(())
    }

    /// Stops tracking the path at `path` and everything below it.
    pub fn forget(&mut self, path: &str) -> (r: Result<(), VfsError>)
        requires
            old(self).wf(),
        ensures
            final(self).wf(),
            final(self).cwd_spec() == old(self).cwd_spec(),
            r is Err ==> *final(self) == *old(self),
            forget_outcome(old(self).entries_view(), old(self).target(path@), r, final(self).entries_view()),
    {
        let t = self.to_inner(path);
        if !self.entries.contains(&t) {
            return Err(VfsError::NotFound(render_names(&t)));
        }
        if t.len() == 0 {
            return Err(VfsError::InvalidPath(String::from_str("the root cannot be removed")));
        }
        let ghost before = self.entries@;
        proof {
            self.entries.lemma_wf();
        }
        self.entries.remove_subtree(&t);
        proof {
            let root = Seq::<Seq<char>>::empty();
            assert(!subtree(names_of(t@)).contains(root));
            assert(before.contains_key(root));
            assert(self.entries@.contains_key(root));
            assert(self.entries@[root] == before[root]);
        }
        Ok(())
    }

    /// The absolute paths of the directories missing from the root down to `t`,
    /// shallowest first.
    fn missing(&self, t: &Vec<String>) -> (r: Vec<String>)
        requires
            self.wf(),
        ensures
            strings_of(r@) == rendered(missing_dirs(self.entries_view(), names_of(t@))),
    {
        let ghost tv = names_of(t@);
        let ghost m = self.entries_view();
        let mut out: Vec<String> = Vec::new();
        let mut d: usize = 0;
        proof {
            reveal(Seq::filter);
            assert(Seq::new(0, |j: int| tv.take(j + 1)) =~= Seq::<Seq<Seq<char>>>::empty());
            assert(strings_of(out@) =~= rendered(missing_upto(m, tv, 0)));
        }
        while d < t.len()
            invariant
                self.wf(),
                tv == names_of(t@),
                m == self.entries_view(),
                d <= t@.len(),
                strings_of(out@) == rendered(missing_upto(m, tv, d as nat)),
            decreases t@.len() - d,
        {
            let q = take_names(t, d + 1);
            let ghost before = Seq::new(d as nat, |j: int| tv.take(j + 1));
            let ghost after = Seq::new((d + 1) as nat, |j: int| tv.take(j + 1));
            proof {
                reveal(Seq::filter);
                assert(after.drop_last() =~= before);
                assert(after.last() == tv.take(d + 1));
            }
            if !self.entries.contains(&q) {
                let ghost prev_out = out@;
                out.push(render_names(&q));
                proof {
                    assert(strings_of(out@) =~= strings_of(prev_out).push(render(tv.take(d + 1))));
                    assert(missing_upto(m, tv, (d + 1) as nat) == missing_upto(m, tv, d as nat).push(
                        tv.take(d + 1),
                    ));
                    assert(rendered(missing_upto(m, tv, (d + 1) as nat)) =~= rendered(
                        missing_upto(m, tv, d as nat),
                    ).push(render(tv.take(d + 1))));
                }
            } else {
                proof {
                    assert(missing_upto(m, tv, (d + 1) as nat) == missing_upto(m, tv, d as nat));
                }
            }
            d = d + 1;
        }
        out
    }

    /// For a directory to be created at `path`: the absolute paths of the
    /// directories to make, shallowest first, after the checks of `mkdir`.
    pub fn mkdir_plan(&self, path: &str) -> (r: Result<Vec<String>, VfsError>)
        requires
            self.wf(),
        ensures
            ({
                let m = self.entries_view();
                let t = self.target(path@);
                &&& r is Err ==> mkdir_outcome(m, t, path@, r, m)
                &&& path@.len() > 0 && !m.contains_key(t) && !file_on_way(m, t, t.len() as int)
                    ==> r is Ok && strings_of(r->Ok_0@) == rendered(missing_dirs(m, t))
                &&& r is Ok ==> path@.len() > 0 && !m.contains_key(t) && !file_on_way(
                    m,
                    t,
                    t.len() as int,
                )
            }),
    {
        if path.unicode_len() == 0 {
            return Err(VfsError::InvalidPath(String::from_str("empty")));
        }
        let t = self.to_inner(path);
        if self.entries.contains(&t) {
            return Err(VfsError::AlreadyExists(render_names(&t)));
        }
        match self.check_way(&t) {
            Err(e) => {
                return Err(e);
            },
            Ok(()) => {},
        }
        Ok(self.missing(&t))
    }

    /// For a file to be written at `path`: the directories to make above it,
    /// shallowest first, and its own absolute path. A known file may be
    /// written again; a directory may not.
    pub fn mkfile_plan(&self, path: &str) -> (r: Result<(Vec<String>, String), VfsError>)
        requires
            self.wf(),
        ensures
            ({
                let m = self.entries_view();
                let t = self.target(path@);
                &&& m.contains_key(t) && m[t].kind == EntryType::Directory ==> fails(
                    r,
                    ErrorKind::IsADirectory,
                    render(t),
                )
                &&& !m.contains_key(t) && file_on_way(m, t, t.len() as int) ==> fails_as(
                    r,
                    ErrorKind::NotADirectory,
                )
                &&& (m.contains_key(t) && m[t].kind == EntryType::File) || (!m.contains_key(t)
                    && !file_on_way(m, t, t.len() as int)) ==> r is Ok && strings_of(r->Ok_0.0@)
                    == rendered(missing_dirs(m, t.drop_last())) && r->Ok_0.1@ == render(t)
            }),
    {
        let t = self.to_inner(path);
        match self.entries.get(&t) {
            Some(e) => {
                if e.is_dir() {
                    return Err(VfsError::IsADirectory(render_names(&t)));
                }
            },
            None => {
                match self.check_way(&t) {
                    Err(e) => {
                        return Err(e);
                    },
                    Ok(()) => {},
                }
            },
        }
        proof {
            self.lemma_wf();
            let tv = names_of(t@);
            if tv.len() == 0 {
                assert(tv =~= Seq::<Seq<char>>::empty());
            }
        }
        let parent = take_names(&t, t.len() - 1);
        assert(names_of(parent@) =~= names_of(t@).drop_last());
        Ok((self.missing(&parent), render_names(&t)))
    }

    /// The absolute path of the file at `path`, after the checks of `read`.
    pub fn file_target(&self, path: &str) -> (r: Result<String, VfsError>)
        requires
            self.wf(),
        ensures
            ({
                let m = self.entries_view();
                let t = self.target(path@);
                &&& !m.contains_key(t) ==> fails(r, ErrorKind::NotFound, render(t))
                &&& m.contains_key(t) && m[t].kind == EntryType::Directory ==> fails(
                    r,
                    ErrorKind::IsADirectory,
                    render(t),
                )
                &&& m.contains_key(t) && m[t].kind == EntryType::File ==> r is Ok && r->Ok_0@ == render(t)
            }),
    {
        match self.file_at(path) {
            Err(e) => Err(e),
            Ok(t) => Ok(render_names(&t)),
        }
    }

    /// The absolute path that a removal of `path` aims at, after the checks of
    /// `rm`.
    pub fn rm_target(&self, path: &str) -> (r: Result<String, VfsError>)
        requires
            self.wf(),
        ensures
            ({
                let m = self.entries_view();
                let t = self.target(path@);
                &&& path@.len() == 0 ==> fails(r, ErrorKind::InvalidPath, "empty"@)
                &&& path@.len() > 0 && (is_root_only(path@) || t.len() == 0) ==> fails(
                    r,
                    ErrorKind::InvalidPath,
                    "the root cannot be removed"@,
                )
                &&& path@.len() > 0 && !is_root_only(path@) && t.len() > 0 && !m.contains_key(t)
                    ==> fails(r, ErrorKind::NotFound, render(t))
                &&& path@.len() > 0 && !is_root_only(path@) && t.len() > 0 && m.contains_key(t)
                    ==> r is Ok && r->Ok_0@ == render(t)
            }),
    {
        match self.removal_target(path) {
            Err(e) => Err(e),
            Ok(t) => Ok(render_names(&t)),
        }
    }

    /// Every known path but the root, deepest first: no path comes before one
    /// below it.
    pub fn deepest_first(&self) -> (r: Vec<String>)
        requires
            self.wf(),
        ensures
            r@.len() + 1 == self.keys().len(),
            forall|a: int| 0 <= a < r@.len() ==> #[trigger] r@[a]@ == render(self.keys()[self.keys().len() - 1 - a]),
            forall|a: int, b: int| 0 <= a < b < r@.len() ==> !is_prefix(
                #[trigger] self.keys()[self.keys().len() - 1 - a],
                #[trigger] self.keys()[self.keys().len() - 1 - b],
            ),
    {
        self.entries.deepest_first()
    }
}

} // verus!
