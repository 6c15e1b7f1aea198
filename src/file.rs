use std::path::PathBuf;
use vstd::prelude::*;

use crate::change::{apply_result, Changes};
use crate::error::EditError;
use crate::line_buffer::LineAwareFile;

verus! {

#[verifier::external_type_specification]
#[verifier::external_body]
pub struct ExPathBuf(PathBuf);

/// Relies on `PathBuf`'s `Clone`: the copy names the same path.
pub assume_specification[ <PathBuf as Clone>::clone ](p: &PathBuf) -> (r: PathBuf)
    ensures
        r == *p,
;

/// A handle on a file by its path. It holds no lines: reading and writing
/// happen outside, through the text that `LineAwareFile` parses and renders.
#[derive(Clone, Debug, Hash)]
pub struct File {
    path: PathBuf,
}

impl File {
    /// The path this handle names.
    pub closed spec fn spec_path(&self) -> PathBuf {
        self.path
    }

    /// A handle on `path`.
    pub fn new(path: &PathBuf) -> (r: File)
        ensures
            r.spec_path() == *path,
    {
        File { path: path.clone() }
    }

    /// The path this handle names.
    pub fn path(&self) -> (r: &PathBuf)
        ensures
            *r == self.spec_path(),
    {
        &self.path
    }

    /// Applies `changes` to `buffer`, read from this file, as
    /// `LineAwareFile::apply` does.
    pub fn apply_changes(&self, buffer: &LineAwareFile, changes: &Changes) -> (r: Result<
        LineAwareFile,
        EditError,
    >)
        ensures
            match r {
                Ok(b) => apply_result(buffer@, changes@) == Ok::<Seq<Seq<char>>, EditError>(b@),
                Err(e) => apply_result(buffer@, changes@) == Err::<Seq<Seq<char>>, EditError>(e),
            },
    {
        buffer.apply(changes)
    }
}

} // verus!
