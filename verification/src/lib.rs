//! Per-vnode storage engine for a time-series database: closed time-interval
//! algebra, leveled column-file metadata, immutable version snapshots with
//! durable edit records, an in-memory row buffer, atomically published
//! super-versions, and the flush/compaction request pipeline.

pub mod bloom;
pub mod channel;
pub mod codec;
pub mod column_file;
pub mod compaction;
pub mod errors;
pub mod fileinfo;
pub mod level_info;
pub mod memcache;
pub mod meta;
pub mod options;
pub mod query;
pub mod schema;
pub mod strutil;
pub mod summary;
pub mod timerange;
pub mod tseries_family;
pub mod tsm;
pub mod version;
pub mod version_set;

pub use timerange::TimeRange;
