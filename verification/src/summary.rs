//! Durable edit records over a `Version`: what a flush or compaction adds to
//! and removes from the leveled file set of one vnode.

use vstd::prelude::*;

verus! {

/// Description of one column file added by a flush or compaction.
#[derive(Debug, Clone, Copy, PartialEq, Eq, Structural)]
pub struct CompactMeta {
    pub file_id: u64,
    pub file_size: u64,
    pub tsf_id: u32,
    pub level: u32,
    pub min_ts: i64,
    pub max_ts: i64,
    pub high_seq: u64,
    pub low_seq: u64,
    pub is_delta: bool,
}

/// One file removal carried by an edit record.
#[derive(Debug, Clone, Copy, PartialEq, Eq, Structural)]
pub struct DeleteFileMeta {
    pub level: u32,
    pub file_id: u64,
    pub is_delta: bool,
}

/// A durable record of one additive/subtractive delta on a `Version`.
/// Applied in append order; each edit references one vnode.
#[derive(Debug, Clone)]
pub struct VersionEdit {
    pub has_seq_no: bool,
    pub seq_no: u64,
    pub has_file_id: bool,
    pub file_id: u64,
    pub max_level_ts: i64,
    pub add_files: Vec<CompactMeta>,
    pub del_files: Vec<DeleteFileMeta>,
    pub add_tsf: bool,
    pub del_tsf: bool,
    pub tsf_id: u32,
    pub tsf_name: String,
}

/// The mathematical value of a `VersionEdit`.
pub ghost struct VersionEditV {
    pub has_seq_no: bool,
    pub seq_no: u64,
    pub has_file_id: bool,
    pub file_id: u64,
    pub max_level_ts: i64,
    pub add_files: Seq<CompactMeta>,
    pub del_files: Seq<DeleteFileMeta>,
    pub add_tsf: bool,
    pub del_tsf: bool,
    pub tsf_id: u32,
    pub tsf_name: Seq<char>,
}

impl View for VersionEdit {
    type V = VersionEditV;

    open spec fn view(&self) -> VersionEditV {
        VersionEditV {
            has_seq_no: self.has_seq_no,
            seq_no: self.seq_no,
            has_file_id: self.has_file_id,
            file_id: self.file_id,
            max_level_ts: self.max_level_ts,
            add_files: self.add_files@,
            del_files: self.del_files@,
            add_tsf: self.add_tsf,
            del_tsf: self.del_tsf,
            tsf_id: self.tsf_id,
            tsf_name: self.tsf_name@,
        }
    }
}

impl VersionEdit {
    /// An empty edit for one vnode.
    pub fn new(vnode_id: u32) -> (r: Self)
        ensures
            r@ == (VersionEditV {
                has_seq_no: false,
                seq_no: 0,
                has_file_id: false,
                file_id: 0,
                max_level_ts: i64::MIN,
                add_files: Seq::<CompactMeta>::empty(),
                del_files: Seq::<DeleteFileMeta>::empty(),
                add_tsf: false,
                del_tsf: false,
                tsf_id: vnode_id,
                tsf_name: Seq::<char>::empty(),
            }),
    {
        let r = Self {
            has_seq_no: false,
            seq_no: 0,
            has_file_id: false,
            file_id: 0,
            max_level_ts: i64::MIN,
            add_files: Vec::new(),
            del_files: Vec::new(),
            add_tsf: false,
            del_tsf: false,
            tsf_id: vnode_id,
            tsf_name: String::new(),
        };
        proof {
            assert(r@.add_files =~= Seq::<CompactMeta>::empty());
            assert(r@.del_files =~= Seq::<DeleteFileMeta>::empty());
        }
        r
    }

    /// An edit that registers a vnode under a name, as used when a summary
    /// file is rewritten from live state.
    pub fn new_add_vnode(vnode_id: u32, name: String) -> (r: Self)
        ensures
            r@.tsf_id == vnode_id,
            r@.tsf_name == name@,
            r@.add_tsf,
            !r@.del_tsf,
            !r@.has_seq_no,
            r@.add_files == Seq::<CompactMeta>::empty(),
            r@.del_files == Seq::<DeleteFileMeta>::empty(),
            r@.max_level_ts == i64::MIN,
    {
        let mut r = Self::new(vnode_id);
        r.add_tsf = true;
        r.tsf_name = name;
        r
    }

    /// Records one added file, together with the sequence number it carries
    /// and the caller's view of the max level timestamp.
    pub fn add_file(&mut self, compact_meta: CompactMeta, max_level_ts: i64)
        ensures
            final(self)@ == (VersionEditV {
                has_seq_no: true,
                seq_no: compact_meta.high_seq,
                max_level_ts: max_level_ts,
                has_file_id: true,
                file_id: compact_meta.file_id,
                add_files: old(self)@.add_files.push(compact_meta),
                ..old(self)@
            }),
    {
        self.has_seq_no = true;
        self.seq_no = compact_meta.high_seq;
        self.has_file_id = true;
        self.file_id = compact_meta.file_id;
        self.max_level_ts = max_level_ts;
        self.add_files.push(compact_meta);
    }

    /// Records one removed file.
    pub fn del_file(&mut self, level: u32, file_id: u64, is_delta: bool)
        ensures
            final(self)@ == (VersionEditV {
                del_files: old(self)@.del_files.push(
                    DeleteFileMeta { level, file_id, is_delta },
                ),
                ..old(self)@
            }),
    {
        self.del_files.push(DeleteFileMeta { level, file_id, is_delta });
    }
}

} // verus!
