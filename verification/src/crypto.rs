//! The primitives that the Srun portal protocol is built from.
pub mod base64;
pub mod digest;
pub mod words;
pub mod xxtea;

pub use self::base64::custom_base64_encode;
pub use self::digest::{hmac_md5, sha1};
pub use self::words::{l, s};
pub use self::xxtea::xxtea_encode;
