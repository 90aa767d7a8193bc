//! Where av keeps its metadata file.
use vstd::prelude::*;

use crate::utils::paths::{join_path, path_join};

verus! {

/// The metadata file of the store under the common git directory `common_dir`:
/// `av/av_metadata.json` under it.
pub open spec fn metadata_path(common_dir: Seq<char>) -> Seq<char> {
    path_join(path_join(common_dir, "av"@), "av_metadata.json"@)
}

/// The metadata store of a repository, kept under its common git directory.
pub struct JsonFileDb<'a> {
    repo_common_dir: &'a str,
}

impl<'a> JsonFileDb<'a> {
    /// The git directory that the store lives under.
    pub closed spec fn common_dir(&self) -> Seq<char> {
        self.repo_common_dir@
    }

    pub fn new(repo_common_dir: &'a str) -> (db: Self)
        ensures
            db.common_dir() == repo_common_dir@,
    {
        JsonFileDb { repo_common_dir }
    }

    /// The directory of av's files: `av` under the common git directory.
    pub fn av_metadata_dir(&self) -> (r: String)
        ensures
            r@ == path_join(self.common_dir(), "av"@),
    {
        join_path(self.repo_common_dir, "av")
    }

    /// The metadata file: `av_metadata.json` in `av_metadata_dir`.
    pub fn metadata_file_path(&self) -> (r: String)
        ensures
            r@ == metadata_path(self.common_dir()),
    {
        let dir = self.av_metadata_dir();
        join_path(dir.as_str(), "av_metadata.json")
    }
}

} // verus!
