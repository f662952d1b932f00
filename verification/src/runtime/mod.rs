//! The program layer: credentials, where they are kept, and the decisions of the loop that keeps
//! this node dialled.

pub mod credentials;
pub mod runner;
pub mod store;
pub mod stored;

pub use credentials::{CredentialsError, StaticToken, TokenFile};
pub use runner::{RunConfig, RunError};
pub use store::{credential_dir, CredentialStoreError, FileCredentialStore};
pub use stored::{AccountCredential, Credential, Named, Stored};
