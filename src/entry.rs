//! Entries of the virtual filesystem and the errors of its operations.
use vstd::prelude::*;
use vstd::slice::slice_to_vec;
use vstd::string::*;
use crate::path::{is_root_only, is_virtual_root};

verus! {

#[derive(Debug, Copy, Clone, PartialEq, Eq, Structural)]
pub enum EntryType {
    File,
    Directory,
}

/// What an entry holds: its kind and, for a file kept in memory, its bytes.
pub struct EntryView {
    pub kind: EntryType,
    pub content: Option<Seq<u8>>,
}

/// One node of the virtual filesystem.
#[derive(Debug, Clone, PartialEq)]
pub struct Entry {
    entry_type: EntryType,
    content: Option<Vec<u8>>,
}

pub open spec fn content_view(c: Option<Vec<u8>>) -> Option<Seq<u8>> {
    match c {
        Some(v) => Some(v@),
        None => None,
    }
}

/// The bytes that a read of an entry returns: none for an entry without content.
pub open spec fn bytes_of(e: EntryView) -> Seq<u8> {
    match e.content {
        Some(b) => b,
        None => Seq::empty(),
    }
}

impl View for Entry {
    type V = EntryView;

    closed spec fn view(&self) -> EntryView {
        EntryView { kind: self.entry_type, content: content_view(self.content) }
    }
}

/// A copy of a byte vector.
pub fn copy_bytes(v: &Vec<u8>) -> (r: Vec<u8>)
    ensures
        r@ == v@,
{
    slice_to_vec(v.as_slice())
}

impl Entry {
    pub fn new(entry_type: EntryType) -> (r: Entry)
        ensures
            r@ == (EntryView { kind: entry_type, content: None }),
    {
        Entry { entry_type, content: None }
    }

    pub fn entry_type(&self) -> (r: EntryType)
        ensures
            r == self@.kind,
    {
        self.entry_type
    }

    pub fn is_file(&self) -> (r: bool)
        ensures
            r == (self@.kind == EntryType::File),
    {
        self.entry_type == EntryType::File
    }

    pub fn is_dir(&self) -> (r: bool)
        ensures
            r == (self@.kind == EntryType::Directory),
    {
        self.entry_type == EntryType::Directory
    }

    pub fn content(&self) -> (r: Option<&Vec<u8>>)
        ensures
            content_view(
                match r {
                    Some(v) => Some(*v),
                    None => None,
                },
            ) == self@.content,
    {
        self.content.as_ref()
    }

    /// A copy of the bytes held, empty where there are none.
    pub fn bytes(&self) -> (r: Vec<u8>)
        ensures
            r@ == bytes_of(self@),
    {
        match &self.content {
            Some(v) => copy_bytes(v),
            None => Vec::new(),
        }
    }

    pub fn set_content(&mut self, content: &[u8])
        ensures
            final(self)@ == (EntryView { kind: old(self)@.kind, content: Some(content@) }),
    {
        self.content = Some(slice_to_vec(content));
    }

    pub fn append_content(&mut self, content: &[u8])
        ensures
            final(self)@ == (EntryView {
                kind: old(self)@.kind,
                content: Some(bytes_of(old(self)@) + content@),
            }),
    {
        let mut new_content = match self.content.take() {
            Some(v) => v,
            None => Vec::new(),
        };
        let ghost start = new_content@;
        let mut i: usize = 0;
        while i < content.len()
            invariant
                i <= content@.len(),
                new_content@ =~= start + content@.take(i as int),
            decreases content@.len() - i,
        {
            new_content.push(content[i]);
            i = i + 1;
        }
        assert(content@.take(content@.len() as int) =~= content@);
        self.content = Some(new_content);
    }
}

#[derive(Debug, Copy, Clone, PartialEq, Eq, Structural)]
pub enum DirEntryType {
    File,
    Directory,
}

/// An entry together with the path it is stored under.
#[derive(Debug, Clone, PartialEq)]
pub struct DirEntry {
    path: String,
    kind: DirEntryType,
    content: Option<Vec<u8>>,
}

impl DirEntry {
    pub closed spec fn spec_path(&self) -> Seq<char> {
        self.path@
    }

    pub closed spec fn spec_kind(&self) -> DirEntryType {
        self.kind
    }

    pub closed spec fn spec_content(&self) -> Option<Seq<u8>> {
        content_view(self.content)
    }

    pub fn new(path: &str, kind: DirEntryType) -> (r: DirEntry)
        ensures
            r.spec_path() == path@,
            r.spec_kind() == kind,
            r.spec_content() == None::<Seq<u8>>,
    {
        DirEntry { path: String::from_str(path), kind, content: None }
    }

    pub fn path(&self) -> (r: &str)
        ensures
            r@ == self.spec_path(),
    {
        self.path.as_str()
    }

    pub fn kind(&self) -> (r: DirEntryType)
        ensures
            r == self.spec_kind(),
    {
        self.kind
    }

    pub fn is_file(&self) -> (r: bool)
        ensures
            r == (self.spec_kind() == DirEntryType::File),
    {
        self.kind == DirEntryType::File
    }

    pub fn is_dir(&self) -> (r: bool)
        ensures
            r == (self.spec_kind() == DirEntryType::Directory),
    {
        self.kind == DirEntryType::Directory
    }

    /// A directory whose path is the root alone.
    pub fn is_root(&self) -> (r: bool)
        ensures
            r == (self.spec_kind() == DirEntryType::Directory && is_root_only(self.spec_path())),
    {
        self.kind == DirEntryType::Directory && is_virtual_root(self.path.as_str())
    }
}

/// The ways an operation can fail. Each carries the path concerned, or for
/// `InvalidPath` and `IOError` a short reason.
#[derive(Debug, Clone, PartialEq, Eq)]
pub enum VfsError {
    /// Empty input, or a target that may not be used, such as the root for removal.
    InvalidPath(String),
    /// The path is not known.
    NotFound(String),
    /// A strict creation met a known path.
    AlreadyExists(String),
    /// A content operation was aimed at a directory.
    IsADirectory(String),
    /// The path, or one on the way to it, is a file where a directory is needed.
    NotADirectory(String),
    /// The host storage failed.
    IOError(String),
}

#[derive(Debug, Copy, Clone, PartialEq, Eq, Structural)]
pub enum ErrorKind {
    InvalidPath,
    NotFound,
    AlreadyExists,
    IsADirectory,
    NotADirectory,
    IOError,
}

pub open spec fn kind_of(e: VfsError) -> ErrorKind {
    match e {
        VfsError::InvalidPath(_) => ErrorKind::InvalidPath,
        VfsError::NotFound(_) => ErrorKind::NotFound,
        VfsError::AlreadyExists(_) => ErrorKind::AlreadyExists,
        VfsError::IsADirectory(_) => ErrorKind::IsADirectory,
        VfsError::NotADirectory(_) => ErrorKind::NotADirectory,
        VfsError::IOError(_) => ErrorKind::IOError,
    }
}

pub open spec fn detail_of(e: VfsError) -> Seq<char> {
    match e {
        VfsError::InvalidPath(s) => s@,
        VfsError::NotFound(s) => s@,
        VfsError::AlreadyExists(s) => s@,
        VfsError::IsADirectory(s) => s@,
        VfsError::NotADirectory(s) => s@,
        VfsError::IOError(s) => s@,
    }
}

/// `r` is an error of kind `k`.
pub open spec fn fails_as<T>(r: Result<T, VfsError>, k: ErrorKind) -> bool {
    r is Err && kind_of(r->Err_0) == k
}

/// `r` is an error of kind `k` about `detail`.
pub open spec fn fails<T>(r: Result<T, VfsError>, k: ErrorKind, detail: Seq<char>) -> bool {
    fails_as(r, k) && detail_of(r->Err_0) == detail
}

pub open spec fn message_of(e: VfsError) -> Seq<char> {
    match e {
        VfsError::InvalidPath(s) => "invalid path: "@ + s@,
        VfsError::NotFound(s) => s@ + " does not exist"@,
        VfsError::AlreadyExists(s) => "path already exists: "@ + s@,
        VfsError::IsADirectory(s) => s@ + " is a directory"@,
        VfsError::NotADirectory(s) => s@ + " not a directory"@,
        VfsError::IOError(s) => "i/o error: "@ + s@,
    }
}

impl VfsError {
    pub fn kind(&self) -> (r: ErrorKind)
        ensures
            r == kind_of(*self),
    {
        match self {
            VfsError::InvalidPath(_) => ErrorKind::InvalidPath,
            VfsError::NotFound(_) => ErrorKind::NotFound,
            VfsError::AlreadyExists(_) => ErrorKind::AlreadyExists,
            VfsError::IsADirectory(_) => ErrorKind::IsADirectory,
            VfsError::NotADirectory(_) => ErrorKind::NotADirectory,
            VfsError::IOError(_) => ErrorKind::IOError,
        }
    }

    /// A message for people.
    pub fn to_string(&self) -> (r: String)
        ensures
            r@ == message_of(*self),
    {
        match self {
            VfsError::InvalidPath(s) => String::from_str("invalid path: ").concat(s.as_str()),
            VfsError::NotFound(s) => s.clone().concat(" does not exist"),
            VfsError::AlreadyExists(s) => String::from_str("path already exists: ").concat(
                s.as_str(),
            ),
            VfsError::IsADirectory(s) => s.clone().concat(" is a directory"),
            VfsError::NotADirectory(s) => s.clone().concat(" not a directory"),
            VfsError::IOError(s) => String::from_str("i/o error: ").concat(s.as_str()),
        }
    }
}

} // verus!
