//! A JSON document kept at one path and replaced atomically. Reading, writing and the
//! temporary files are done by the application; the store holds where and how.

use vstd::prelude::*;

verus! {

/// Who may read a stored file.
#[derive(Debug, Clone, Copy, PartialEq, Eq, Structural)]
pub enum StoragePermissions {
    Shared,
    Private,
}

/// A JSON document at a path, with the permissions its files get.
#[derive(Debug, PartialEq, Eq)]
pub struct AtomicJsonStore {
    path: String,
    permissions: StoragePermissions,
}

impl Clone for AtomicJsonStore {
    fn clone(&self) -> (r: Self)
        ensures
            r == *self,
    {
        AtomicJsonStore { path: self.path.clone(), permissions: self.permissions }
    }
}

impl AtomicJsonStore {
    pub closed spec fn spec_path(&self) -> Seq<char> {
        self.path@
    }

    pub closed spec fn spec_permissions(&self) -> StoragePermissions {
        self.permissions
    }

    pub fn new(path: String, permissions: StoragePermissions) -> (s: Self)
        ensures
            s.spec_path() == path@,
            s.spec_permissions() == permissions,
    {
        AtomicJsonStore { path, permissions }
    }

    pub fn shared(path: String) -> (s: Self)
        ensures
            s.spec_path() == path@,
            s.spec_permissions() == StoragePermissions::Shared,
    {
        Self::new(path, StoragePermissions::Shared)
    }

    pub fn private(path: String) -> (s: Self)
        ensures
            s.spec_path() == path@,
            s.spec_permissions() == StoragePermissions::Private,
    {
        Self::new(path, StoragePermissions::Private)
    }

    pub fn path(&self) -> (p: &str)
        ensures
            p@ == self.spec_path(),
    {
        self.path.as_str()
    }

    pub fn permissions(&self) -> (p: StoragePermissions)
        ensures
            p == self.spec_permissions(),
    {
        self.permissions
    }
}

/// A temporary file that is removed unless it was committed into place.
#[derive(Debug, PartialEq, Eq)]
pub struct TemporaryFileGuard {
    path: String,
    committed: bool,
}

impl TemporaryFileGuard {
    pub closed spec fn spec_path(&self) -> Seq<char> {
        self.path@
    }

    pub closed spec fn spec_committed(&self) -> bool {
        self.committed
    }

    pub fn new(path: String) -> (g: Self)
        ensures
            g.spec_path() == path@,
            !g.spec_committed(),
    {
        TemporaryFileGuard { path, committed: false }
    }

    pub fn path(&self) -> (p: &str)
        ensures
            p@ == self.spec_path(),
    {
        self.path.as_str()
    }

    /// Marks the file as moved into place: it must no longer be removed.
    pub fn commit(&mut self)
        ensures
            final(self).spec_path() == old(self).spec_path(),
            final(self).spec_committed(),
    {
        self.committed = true;
    }

    /// Whether dropping the guard must remove the file.
    pub fn must_remove(&self) -> (b: bool)
        ensures
            b == !self.spec_committed(),
    {
        !self.committed
    }
}

} // verus!
