use vstd::prelude::*;

verus! {

/// A row of the table that holds the server's address.
pub struct Ip {
    pub id: i32,
    pub c_ip: String,
}

/// A row of the table of files: where the file lies on the server, and whether
/// it was uploaded already.
#[derive(Debug, Clone)]
pub struct File {
    pub id: i32,
    pub path: String,
    pub filename: String,
    pub synced: bool,
    pub deleted: bool,
}

/// A file as it is listed on the server: its folder and its name.
#[derive(Debug, Clone)]
pub struct NFile {
    pub path: String,
    pub filename: String,
}

/// The listing entry of a stored file: its folder and its name.
pub open spec fn nfile_of(f: File) -> NFile {
    NFile { path: f.path, filename: f.filename }
}

/// The record of a file newly found: not uploaded, not deleted, with the
/// placeholder id 0.
pub open spec fn file_of(n: NFile) -> File {
    File { path: n.path, filename: n.filename, synced: false, deleted: false, id: 0 }
}

impl File {
    /// The folder and name of this record.
    pub fn to_nfile(self: File) -> (n: NFile)
        ensures
            n == nfile_of(self),
    {
        NFile { path: self.path, filename: self.filename }
    }
}

impl NFile {
    /// A fresh record for this file: id 0, neither synced nor deleted.
    pub fn to_file(self: NFile) -> (f: File)
        ensures
            f == file_of(self),
    {
        File { path: self.path, filename: self.filename, synced: false, deleted: false, id: 0 }
    }
}

/// Turning a listed file into a record and back gives the listed file again.
pub proof fn lemma_nfile_round_trip(n: NFile)
    ensures
        nfile_of(file_of(n)) == n,
{
}

/// Turning a record into a listed file and back keeps its folder and name and
/// gives a fresh record: id 0, neither synced nor deleted.
pub proof fn lemma_file_round_trip(f: File)
    ensures
        file_of(nfile_of(f)).path == f.path,
        file_of(nfile_of(f)).filename == f.filename,
        file_of(nfile_of(f)).id == 0,
        !file_of(nfile_of(f)).synced,
        !file_of(nfile_of(f)).deleted,
{
}

} // verus!
