//! A document store with optimistic-concurrency revisions, owned by
//! decentralized identities that are reconciled against a ledger afterwards.
pub mod body;
pub mod error;
pub mod identity;
pub mod keyspace;
pub mod ledger;
pub mod namespace;
pub mod revision;
pub mod secret;
pub mod store;

pub use body::{merge_json_values, remove_field, Body};
pub use error::{DatabaseError, DatabaseResult};
pub use identity::{
    AuthPayload, BasicAuth, ConfirmedIdentities, DataWrapper, DbConfig, DbEntry, Did, DidQueue,
};
pub use ledger::{ledger_response_answer, RetryPolicy};
pub use namespace::{
    all_dbs, create_database, database_exists, database_names, delete_database, generate_uuid,
    is_directory_within_parent, registration_check, removal_check,
};
pub use revision::{generate_rev, hash_string};
pub use secret::generate_strong_password;
pub use store::{
    delete_document, document_removal_check, document_text, fetch_document, plan_write,
    reconcile_entry, update_document, LedgerAnswer, Reconciliation, WritePlan, WriteReceipt,
};
