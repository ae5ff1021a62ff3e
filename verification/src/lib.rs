//! Natural-language requests for a Node.js version manager, turned into a fixed set of actions.
pub mod text;
pub mod version;
pub mod words;
pub mod request;
pub mod error;
pub mod intent;
pub mod provider;
pub mod session;
pub mod laws;
pub mod reading_laws;
