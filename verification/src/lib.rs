pub mod address;
pub mod codec;
pub mod error;
pub mod instructions;
pub mod state;
pub mod store;

pub use crate::error::CertError;
pub use crate::instructions::create_certificate;
pub use crate::state::Certificate;
