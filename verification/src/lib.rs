//! Content-identification hashing in the ed2k scheme: a chunked "hash of
//! hashes" built on the MD4 message digest, together with the small
//! text-protocol helpers of the session client that surrounds it.
//!
//! The digest machinery is the core: a fixed-capacity block buffer that turns
//! arbitrary-sized writes into fixed-size blocks, the MD4 compression built on
//! that buffer, and the ed2k chunking rule built on MD4.

pub mod cutil;
pub mod ed2k;
pub mod errors;
pub mod md4;
pub mod session;

pub use cutil::{FixedBuffer, FixedBuffer64, StandardPadding, StepUp, RangeExt};
pub use cutil::{write_u32_le, read_u32v_le};
pub use errors::AnidbError;
pub use session::{ServerReply, format_login_string, format_logout_string, parse_reply,
    validate_auth_command};
