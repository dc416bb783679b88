//! Headless client logic for the Srun campus-network portal: the word packing,
//! XXTEA variant and custom Base64 alphabet that the portal expects, the
//! HMAC-MD5 / SHA-1 helpers, and the construction of the portal's requests.
pub mod api;
pub mod config;
pub mod crypto;
pub mod status;
pub mod text;
