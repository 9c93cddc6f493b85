//! Error kinds observed by the storage engine and by the meta-client
//! capability it consumes.

use vstd::prelude::*;

verus! {

/// Failures the engine core reports to its callers.
#[derive(Debug, Clone)]
pub enum EngineError {
    /// Filesystem or network I/O failed.
    IoFailure { msg: String },
    /// A table or column was not found in the schema layer.
    SchemaMissing { name: String },
    /// A TSM index or summary record was invalid.
    IndexCorrupt { msg: String },
    /// The remote catalog rejected a request or timed out.
    MetaUnavailable { msg: String },
    /// An internal invariant was broken.
    InvariantViolation { msg: String },
    /// The tenant or database does not exist.
    TenantOrDbNotFound { name: String },
}

/// Failures of the meta layer as seen by its callers.
#[derive(Debug, Clone)]
pub enum MetaError {
    TenantAlreadyExists { tenant: String },
    TenantNotFound { tenant: String },
    NotFoundDb { db: String },
    NotFoundNode { id: u64 },
    MetaClientErr { msg: String },
    CommonError { msg: String },
    DatabaseNotFound { database: String },
    DatabaseAlreadyExists { database: String },
    TableNotFound { table: String },
    TableAlreadyExists { table_name: String },
    RoleAlreadyExists { role_name: String },
}

} // verus!
