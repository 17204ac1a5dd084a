//! Packs a hierarchical path of small integer segments into a single
//! unsigned integer identifier, and unpacks that identifier back into
//! the original segment sequence.
//!
//! The first segment of a path is given a 7-bit window (values 0..=127,
//! enforced by [`FirstResolution`]); every later segment is packed at a
//! 3-bit stride (values 0..=7, left to the caller to respect); the low
//! 4 bits of the identifier store the segment count.

mod codec;
mod path;

pub use codec::decode_id;
pub use codec::decode_rec;
pub use codec::encode_acc;
pub use codec::encode_id;
pub use codec::lemma_decode_id_inverts_encode_id;
pub use codec::spec_decode_id;
pub use codec::spec_encode_id;
pub use path::concat_shift;
pub use path::concat_val;
pub use path::FirstResolution;
pub use path::FirstResolutionExceededThresholdError;
pub use path::Path;
