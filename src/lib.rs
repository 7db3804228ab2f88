//! Character-encoding detection for XML byte streams, and a buffer that
//! presents such a stream as UTF-8 text with normalized line endings.
//!
//! Detection follows the byte-order-mark / declaration heuristic of the XML
//! recommendation: a byte-order mark wins, then the byte pattern of a leading
//! `<?xml` declaration, then the declaration's `encoding` attribute, then a
//! caller's hint.

pub mod codec;
pub mod declaration;
pub mod enc_detect;
pub mod encoding;
pub mod eol;
pub mod error;
pub mod reader;
pub mod text;

pub use enc_detect::{
    decoder_helper, detect_encoding_with_suggestion, detect_step, resolve_declaration, DetectStep,
};
pub use encoding::Encoding;
pub use eol::normalize_line_endings;
pub use error::EncodingError;
pub use reader::{TranscodeBuffer, MAX_READ};

