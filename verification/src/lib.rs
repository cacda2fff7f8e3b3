//! WILLIAM3 content digests and the tools around them.
//!
//! * [`digest`]: the 32-byte digest value.
//! * [`hex`]: the lowercase hexadecimal text form of bytes.
//! * [`batch`]: hashing a whole message in one call, computed by `bab_rs`.
//! * [`chunks`]: cutting a message into chunks.
//! * [`tree`]: the hash tree of a message over any chunk hash and combine.
//! * [`reducer`]: walking that tree one hash operation at a time.
//! * [`text`]: decimal numerals and repeated text.
//! * [`vectors`]: records of inputs and their digests.

pub mod batch;
pub mod chunks;
pub mod digest;
pub mod hex;
pub mod reducer;
pub mod text;
pub mod tree;
pub mod vectors;

pub use batch::{batch_hash, hash_hex};
pub use digest::{Digest, Label, CHUNK_SIZE, WIDTH};
pub use hex::bytes_to_hex;
pub use reducer::{tree_hash, Operation, TreeReducer};
