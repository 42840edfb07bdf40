//! Lambda-Shield: a stream cipher whose state is driven by a hardened Collatz
//! trajectory and mixed by SipHash rounds, with verified contracts.

pub mod bits;
pub mod checker;
pub mod cipher;
pub mod research;

pub use cipher::lambda_keystream;
pub use cipher::lambda_process;
