//! Validation of the fee split declared when sub-accounts are created or
//! renewed: the fee table is found among the transaction's witnesses and
//! authenticated by a hash commitment, each sub-account record is priced
//! against it, and the declared profit must cover the total.
pub mod codec;
pub mod constants;
pub mod entry;
pub mod error;
pub mod price;
pub mod util;
pub mod witness;
