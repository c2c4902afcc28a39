//! SHA-1 message digest: word arithmetic, block padding, compression and
//! hexadecimal rendering, with machine-checked contracts.

pub mod compress;
pub mod digest;
pub mod hex;
pub mod message;
pub mod padding;
pub mod stream;
pub mod word;

pub use digest::sha1;
pub use hex::format_hash;
pub use padding::SHA1Pad;
pub use stream::Hasher;
pub use word::Word;
