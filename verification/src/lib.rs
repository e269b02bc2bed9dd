//! Streaming byte-to-integer decoder with a bounded decoding window.
//!
//! Raw bytes arrive in arbitrarily sized chunks; the decoder reconstructs
//! 32-bit signed integers from them, carries incomplete trailing groups to
//! the next call, fills short windows from the previous call's values, and
//! keeps a running sum over the decoded window. All intermediate state lives
//! in fixed-capacity storage.

pub mod byte_converter;
pub mod endian;
pub mod fixed_array;
pub mod laws;
pub mod logs;
