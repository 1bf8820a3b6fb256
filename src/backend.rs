//! The operations every backend offers. Paths are inner paths, absolute or
//! relative to the working directory; `root` is a host path.
use vstd::prelude::*;
use crate::entry::VfsError;
use crate::map_fs::MapFS;

verus! {

pub trait FsBackend {
    /// The backend's own well-formedness, kept by every operation; a backend
    /// that needs none leaves it true.
    open spec fn inv(&self) -> bool {
        true
    }

    fn root(&self) -> String;

    fn cwd(&self) -> String
        requires
            self.inv(),
    ;

    fn to_host(&self, inner_path: &str) -> Result<String, VfsError>
        requires
            self.inv(),
    ;

    fn cd(&mut self, path: &str) -> (r: Result<(), VfsError>)
        requires
            old(self).inv(),
        ensures
            final(self).inv(),
    ;

    fn path_exists(&self, path: &str) -> bool
        requires
            self.inv(),
    ;

    fn is_dir(&self, path: &str) -> Result<bool, VfsError>
        requires
            self.inv(),
    ;

    fn is_file(&self, path: &str) -> Result<bool, VfsError>
        requires
            self.inv(),
    ;

    fn ls(&self, path: &str) -> Result<Vec<String>, VfsError>
        requires
            self.inv(),
    ;

    fn tree(&self, path: &str) -> Result<Vec<String>, VfsError>
        requires
            self.inv(),
    ;

    fn mkdir(&mut self, path: &str) -> (r: Result<(), VfsError>)
        requires
            old(self).inv(),
        ensures
            final(self).inv(),
    ;

    fn mkfile(&mut self, path: &str, content: Option<&[u8]>) -> (r: Result<(), VfsError>)
        requires
            old(self).inv(),
        ensures
            final(self).inv(),
    ;

    fn read(&self, path: &str) -> Result<Vec<u8>, VfsError>
        requires
            self.inv(),
    ;

    fn write(&mut self, path: &str, content: &[u8]) -> (r: Result<(), VfsError>)
        requires
            old(self).inv(),
        ensures
            final(self).inv(),
    ;

    fn append(&mut self, path: &str, content: &[u8]) -> (r: Result<(), VfsError>)
        requires
            old(self).inv(),
        ensures
            final(self).inv(),
    ;

    fn rm(&mut self, path: &str) -> (r: Result<(), VfsError>)
        requires
            old(self).inv(),
        ensures
            final(self).inv(),
    ;

    fn cleanup(&mut self) -> (r: bool)
        requires
            old(self).inv(),
        ensures
            final(self).inv(),
    ;
}

impl FsBackend for MapFS {
    open spec fn inv(&self) -> bool {
        self.wf()
    }

    fn root(&self) -> String {
        MapFS::root(self)
    }

    fn cwd(&self) -> String {
        MapFS::cwd(self)
    }

    fn to_host(&self, inner_path: &str) -> Result<String, VfsError> {
        MapFS::to_host(self, inner_path)
    }

    fn cd(&mut self, path: &str) -> Result<(), VfsError> {
        MapFS::cd(self, path)
    }

    fn path_exists(&self, path: &str) -> bool {
        MapFS::path_exists(self, path)
    }

    fn is_dir(&self, path: &str) -> Result<bool, VfsError> {
        MapFS::is_dir(self, path)
    }

    fn is_file(&self, path: &str) -> Result<bool, VfsError> {
        MapFS::is_file(self, path)
    }

    fn ls(&self, path: &str) -> Result<Vec<String>, VfsError> {
        MapFS::ls(self, path)
    }

    fn tree(&self, path: &str) -> Result<Vec<String>, VfsError> {
        MapFS::tree(self, path)
    }

    fn mkdir(&mut self, path: &str) -> Result<(), VfsError> {
        MapFS::mkdir(self, path)
    }

    fn mkfile(&mut self, path: &str, content: Option<&[u8]>) -> Result<(), VfsError> {
        MapFS::mkfile(self, path, content)
    }

    fn read(&self, path: &str) -> Result<Vec<u8>, VfsError> {
        MapFS::read(self, path)
    }

    fn write(&mut self, path: &str, content: &[u8]) -> Result<(), VfsError> {
        MapFS::write(self, path, content)
    }

    fn append(&mut self, path: &str, content: &[u8]) -> Result<(), VfsError> {
        MapFS::append(self, path, content)
    }

    fn rm(&mut self, path: &str) -> Result<(), VfsError> {
        MapFS::rm(self, path)
    }

    fn cleanup(&mut self) -> bool {
        MapFS::cleanup(self)
    }
}

} // verus!
