//! Source files and locations, as the heap's nodes reference them.
//!
//! The heap itself only stores source ranges inside node metadata; the
//! [`SourceManager`] is the registry that gives out the [`SourceId`]s those
//! ranges name.

use vstd::prelude::*;

verus! {

/// Index of one source file registered with a [`SourceManager`].
#[derive(Clone, Copy, PartialEq, Eq, Structural, Debug, Hash)]
pub struct SourceId(pub u32);

impl SourceId {
    /// The sentinel id used where a range belongs to no registered file.
    pub fn invalid() -> (r: SourceId)
        ensures
            r.0 == u32::MAX,
    {
        SourceId(u32::MAX)
    }
}

/// Line and column of a file.
#[derive(Clone, Copy, PartialEq, Eq, Structural, Debug)]
pub struct SourceLoc {
    /// 1-based line number; 0 marks an invalid location.
    pub line: u32,
    /// 1-based column number; 0 marks an invalid location.
    pub col: u32,
}

impl SourceLoc {
    /// Return an instance of SourceLoc initialized to an invalid value.
    pub fn invalid() -> (r: SourceLoc)
        ensures
            r.line == 0,
            r.col == 0,
    {
        SourceLoc { line: 0, col: 0 }
    }
}

/// A source range within a single file, as a closed interval `[start, end]`.
#[derive(Clone, Copy, PartialEq, Eq, Structural, Debug)]
pub struct SourceRange {
    /// Index of the file this range is in.
    pub file: SourceId,
    /// Start of the source range, inclusive.
    pub start: SourceLoc,
    /// End of the source range, inclusive.
    pub end: SourceLoc,
}

impl SourceRange {
    /// Create a SourceRange describing a single location.
    pub fn from_loc(file: SourceId, start: SourceLoc) -> (r: SourceRange)
        ensures
            r.file == file,
            r.start == start,
            r.end == start,
    {
        SourceRange { file, start, end: start }
    }

    /// A range that names no file and no location.
    pub fn invalid() -> (r: SourceRange)
        ensures
            r.file.0 == u32::MAX,
            r.start.line == 0,
            r.start.col == 0,
            r.end.line == 0,
            r.end.col == 0,
    {
        SourceRange { file: SourceId::invalid(), start: SourceLoc::invalid(), end: SourceLoc::invalid() }
    }
}

/// Registry of the source files a heap's nodes may point into.
///
/// The heap only needs stable ids for its node metadata, so the manager is a
/// simple append-only table of file names.
pub struct SourceManager {
    names: Vec<String>,
}

impl SourceManager {
    /// The names of the registered files, in registration order.
    pub closed spec fn names_seq(&self) -> Seq<Seq<char>> {
        self.names@.map_values(|s: String| s@)
    }

    /// A manager with no files registered.
    pub fn new() -> (r: SourceManager)
        ensures
            r.names_seq().len() == 0,
    {
        SourceManager { names: Vec::new() }
    }

    /// How many files have been registered.
    pub fn num_sources(&self) -> (r: usize)
        ensures
            r == self.names_seq().len(),
    {
        self.names.len()
    }

    /// Register a file and return its stable id.
    pub fn add_source(&mut self, name: String) -> (r: SourceId)
        requires
            old(self).names_seq().len() < u32::MAX,
        ensures
            final(self).names_seq() == old(self).names_seq().push(name@),
            r.0 == old(self).names_seq().len(),
    {
        let id = SourceId(self.names.len() as u32);
        self.names.push(name);
        assert(self.names_seq() =~= old(self).names_seq().push(self.names@.last()@));
        id
    }

    /// The name a file was registered under.
    pub fn source_name(&self, id: SourceId) -> (r: &str)
        requires
            id.0 < self.names_seq().len(),
        ensures
            r@ == self.names_seq()[id.0 as int],
    {
        self.names[id.0 as usize].as_str()
    }
}

} // verus!
