//! Per-file manifest records: a file's name, size, and the MD5 digest of
//! its content, and the manifest of a directory. Reading the bytes from
//! disk is the caller's concern; the records are computed from them here.

use vstd::prelude::*;
use crypto::digest::Digest;

verus! {

/// The lowercase hex MD5 digest of a byte sequence. The digest is a pure
/// function of the bytes; its pages-long definition is not restated here.
pub uninterp spec fn md5_hex_of(data: Seq<u8>) -> Seq<char>;

/// Relies on rust-crypto's `Md5` (through the `Digest` trait): `input`
/// absorbs the bytes and `result_str` renders the 16-byte digest as 32
/// lowercase hex characters. The digest depends on the bytes alone.
#[verifier::external_body]
fn md5_hex(data: &Vec<u8>) -> (r: String)
    ensures
        r@ == md5_hex_of(data@),
        r@.len() == 32,
{
    let mut hasher = crypto::md5::Md5::new();
    hasher.input(&data[..]);
    hasher.result_str()
}

/// One file of a manifest: its name, its MD5 digest, and its length.
#[derive(Debug)]
pub struct FileInfo {
    pub md5: String,
    pub name: String,
    pub size: u64,
}

impl Clone for FileInfo {
    /// A clone carries the same values as the original.
    fn clone(&self) -> (r: Self)
        ensures
            r.md5@ == self.md5@,
            r.name@ == self.name@,
            r.size == self.size,
    {
        Self { md5: self.md5.clone(), name: self.name.clone(), size: self.size }
    }
}

/// The manifest of one directory: the path and the records of its files.
#[derive(Debug)]
pub struct PathFilesMeta {
    pub path: String,
    pub meta: Vec<FileInfo>,
}

/// Builds the record of one file from its name and content: the digest is
/// the MD5 of the content, the size its length.
pub fn file_info_of(name: String, content: &Vec<u8>) -> (r: FileInfo)
    ensures
        r.md5@ == md5_hex_of(content@),
        r.md5@.len() == 32,
        r.name@ == name@,
        r.size == content@.len(),
{
    let size = content.len() as u64;
    FileInfo { md5: md5_hex(content), name, size }
}

/// Assembles the manifest of a directory from its file records.
pub fn files_meta_of(path: String, meta: Vec<FileInfo>) -> (r: PathFilesMeta)
    ensures
        r.path@ == path@,
        r.meta@ == meta@,
{
    PathFilesMeta { path, meta }
}

} // verus!
