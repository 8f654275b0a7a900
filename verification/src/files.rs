//! The files that a load can open, held by path.

use vstd::hash_map::StringHashMap;
use vstd::prelude::*;

verus! {

/// The failure of a load: the file at `path` could not be opened.
#[derive(Debug)]
pub struct OpenError {
    pub path: String,
}

/// The files that can be opened, each with the bytes that it holds.
pub struct Files {
    held: StringHashMap<Vec<u8>>,
}

impl View for Files {
    type V = Map<Seq<char>, Seq<u8>>;

    closed spec fn view(&self) -> Map<Seq<char>, Seq<u8>> {
        Map::new(|path: Seq<char>| self.held@.contains_key(path), |path: Seq<char>| self.held@[path]@)
    }
}

impl Files {
    /// No file at all.
    pub fn new() -> (r: Files)
        ensures
            r@ == Map::<Seq<char>, Seq<u8>>::empty(),
    {
        Files { held: StringHashMap::new() }
    }

    /// Puts a file at `path`, in place of the one that was there, if any.
    pub fn insert(&mut self, path: &str, bytes: Vec<u8>)
        ensures
            final(self)@ == old(self)@.insert(path@, bytes@),
    {
        self.held.insert(path.to_owned(), bytes);
    }

    /// Opens the file at `path` and hands out its bytes.
    pub fn open(&self, path: &str) -> (r: Result<&[u8], OpenError>)
        ensures
            match r {
                Ok(bytes) => self@.contains_key(path@) && bytes@ == self@[path@],
                Err(e) => !self@.contains_key(path@) && e.path@ == path@,
            },
    {
        match self.held.get(path) {
            Some(bytes) => Ok(bytes.as_slice()),
            None => Err(OpenError { path: path.to_owned() }),
        }
    }
}

} // verus!
