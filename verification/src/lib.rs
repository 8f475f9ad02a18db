//! An encrypted vault for API keys and other secrets: the record model, the
//! portable encrypted envelope, `.env` import and export, and the text the
//! command line and the desktop app show.
pub mod dotenv;
pub mod encoding;
pub mod envelope;
pub mod filter;
pub mod import;
pub mod present;
pub mod record;
pub mod session;
pub mod text;

pub use envelope::{decrypt_vault, encrypt_vault, EncryptedVault, VaultError};
pub use record::{SecretRecord, Timestamp, Vault};
