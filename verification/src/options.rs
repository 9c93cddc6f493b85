//! Storage and cache configuration, and the on-disk path scheme:
//! `<root>/<database>/<vnode>/tsm/<file>.tsm` for main-level files and
//! `<root>/<database>/<vnode>/delta/<file>.delta` for delta files.

use vstd::prelude::*;
use crate::strutil::{dec_digits, push_decimal};

verus! {

/// Options of the on-disk layout: the storage root and the per-level size
/// budget. A level's budget is the base file size scaled by four for each
/// level above zero, saturating at `u64::MAX`.
#[derive(Debug)]
pub struct StorageOptions {
    pub path: String,
    pub base_file_size: u64,
}

/// The mathematical value of `StorageOptions`.
pub ghost struct StorageOptionsV {
    pub path: Seq<char>,
    pub base_file_size: u64,
}

impl View for StorageOptions {
    type V = StorageOptionsV;

    open spec fn view(&self) -> StorageOptionsV {
        StorageOptionsV { path: self.path@, base_file_size: self.base_file_size }
    }
}

impl Clone for StorageOptions {
    /// A clone carries the same mathematical value as the original.
    fn clone(&self) -> (r: Self)
        ensures
            r@ == self@,
    {
        Self { path: self.path.clone(), base_file_size: self.base_file_size }
    }
}

/// Options of the in-memory write buffer.
#[derive(Debug, Clone, Copy)]
pub struct CacheOptions {
    pub max_buffer_size: u64,
    pub max_immutable_number: u32,
}

/// All engine options of one process.
#[derive(Debug)]
pub struct Options {
    pub storage: StorageOptions,
    pub cache: CacheOptions,
}

impl Clone for Options {
    /// A clone carries the same mathematical value as the original.
    fn clone(&self) -> (r: Self)
        ensures
            r.storage@ == self.storage@,
            r.cache == self.cache,
    {
        Self { storage: self.storage.clone(), cache: self.cache }
    }
}

/// The level size budget: `base` scaled by `4^level`, saturating.
pub open spec fn spec_level_file_size(base: u64, level: u32) -> u64
    decreases level,
{
    if level == 0 {
        base
    } else {
        let lower = spec_level_file_size(base, (level - 1) as u32);
        if lower * 4 > u64::MAX {
            u64::MAX
        } else {
            (lower * 4) as u64
        }
    }
}

/// The directory of the main-level files of one vnode:
/// `<root>/<database>/<vnode>/tsm`.
pub open spec fn spec_tsm_dir(root: Seq<char>, database: Seq<char>, tsf_id: u32) -> Seq<char> {
    root + seq!['/'] + database + seq!['/'] + dec_digits(tsf_id as nat) + seq!['/', 't', 's', 'm']
}

/// The directory of the delta files of one vnode:
/// `<root>/<database>/<vnode>/delta`.
pub open spec fn spec_delta_dir(root: Seq<char>, database: Seq<char>, tsf_id: u32) -> Seq<char> {
    root + seq!['/'] + database + seq!['/'] + dec_digits(tsf_id as nat)
        + seq!['/', 'd', 'e', 'l', 't', 'a']
}

impl StorageOptions {
    pub fn new(path: String, base_file_size: u64) -> (r: Self)
        ensures
            r.path == path,
            r.base_file_size == base_file_size,
    {
        Self { path, base_file_size }
    }

    /// The size budget of one level.
    pub fn level_file_size(&self, level: u32) -> (r: u64)
        ensures
            r == spec_level_file_size(self.base_file_size, level),
        decreases level,
    {
        if level == 0 {
            self.base_file_size
        } else {
            let lower = self.level_file_size(level - 1);
            if lower > u64::MAX / 4 {
                u64::MAX
            } else {
                lower * 4
            }
        }
    }

    /// The main-level directory of one vnode.
    pub fn tsm_dir(&self, database: &str, tsf_id: u32) -> (r: String)
        ensures
            r@ == spec_tsm_dir(self.path@, database@, tsf_id),
    {
        let mut out = self.path.clone();
        out.push('/');
        out.push_str(database);
        out.push('/');
        push_decimal(tsf_id as u64, &mut out);
        out.push_str("/tsm");
        proof {
            reveal_strlit("/tsm");
            assert(out@ =~= spec_tsm_dir(self.path@, database@, tsf_id));
        }
        out
    }

    /// The delta directory of one vnode.
    pub fn delta_dir(&self, database: &str, tsf_id: u32) -> (r: String)
        ensures
            r@ == spec_delta_dir(self.path@, database@, tsf_id),
    {
        let mut out = self.path.clone();
        out.push('/');
        out.push_str(database);
        out.push('/');
        push_decimal(tsf_id as u64, &mut out);
        out.push_str("/delta");
        proof {
            reveal_strlit("/delta");
            assert(out@ =~= spec_delta_dir(self.path@, database@, tsf_id));
        }
        out
    }
}

/// The path of a main-level file: `<dir>/<file_id>.tsm`.
pub open spec fn spec_tsm_file_name(dir: Seq<char>, file_id: u64) -> Seq<char> {
    dir + seq!['/'] + dec_digits(file_id as nat) + seq!['.', 't', 's', 'm']
}

/// The path of a delta file: `<dir>/<file_id>.delta`.
pub open spec fn spec_delta_file_name(dir: Seq<char>, file_id: u64) -> Seq<char> {
    dir + seq!['/'] + dec_digits(file_id as nat) + seq!['.', 'd', 'e', 'l', 't', 'a']
}

/// Builds the path of a main-level file under `dir`.
pub fn make_tsm_file_name(dir: &str, file_id: u64) -> (r: String)
    ensures
        r@ == spec_tsm_file_name(dir@, file_id),
{
    let mut out = dir.to_owned();
    out.push('/');
    push_decimal(file_id, &mut out);
    out.push_str(".tsm");
    proof {
        reveal_strlit(".tsm");
        assert(out@ =~= spec_tsm_file_name(dir@, file_id));
    }
    out
}

/// Builds the path of a delta file under `dir`.
pub fn make_delta_file_name(dir: &str, file_id: u64) -> (r: String)
    ensures
        r@ == spec_delta_file_name(dir@, file_id),
{
    let mut out = dir.to_owned();
    out.push('/');
    push_decimal(file_id, &mut out);
    out.push_str(".delta");
    proof {
        reveal_strlit(".delta");
        assert(out@ =~= spec_delta_file_name(dir@, file_id));
    }
    out
}

} // verus!
