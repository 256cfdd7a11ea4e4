//! A small authenticated file cipher built on a 16-round Feistel network,
//! together with the byte-level helpers of a family of one-time-pad and
//! substitution-permutation tools.

pub mod primitives;
pub mod error;
pub mod feistel;
pub mod padding;
pub mod codec;
pub mod text;
pub mod size;
pub mod spn;
pub mod otp;
pub mod cyclic;
pub mod keystream;
pub mod buffers;
pub mod unit_size;
pub mod key_size;
pub mod mac_file;
pub mod mixed_size;
