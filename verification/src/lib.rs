//! Verified core of a family of small HTTP "plaintext" servers and of a
//! state-machine micro benchmark.

pub mod machine;
pub mod http;
pub mod conn;
pub mod naive;
pub mod lock;
pub mod slots;
