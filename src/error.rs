//! The failures of detection and of decoding.
use vstd::prelude::*;

verus! {

/// Why detection or decoding failed. Every failure is final.
#[derive(Debug, Clone, PartialEq, Eq)]
pub enum EncodingError {
    /// The source ended before a step had the bytes it needs.
    SourceExhausted,
    /// The first four bytes hold a zero byte in a pattern of an encoding that
    /// has no decoder here (UCS-4, EBCDIC and the like).
    UnsupportedByteOrder,
    /// The name denotes no encoding, or none that can be decoded here.
    UnsupportedEncoding(String),
    /// No byte-order mark, no declaration and no hint.
    AmbiguousInput,
    /// The declaration does not close within the cap, or its encoding value
    /// is unquoted, missing or not terminated.
    MalformedDeclaration,
    /// The declared encoding contradicts the one a byte-order mark or a
    /// byte pattern established.
    EncodingConflict { detected: String, declared: String },
    /// Whether the declared encoding fits the detected one cannot be decided.
    UndecidableCompatibility { detected: String, declared: String },
    /// A malformed byte sequence: the bytes handed to the decoder and the
    /// offset at which it was met.
    MalformedInput { bytes: Vec<u8>, position: usize },
}

/// `EncodingError` with its strings and bytes as sequences.
pub enum ErrorView {
    SourceExhausted,
    UnsupportedByteOrder,
    UnsupportedEncoding(Seq<char>),
    AmbiguousInput,
    MalformedDeclaration,
    EncodingConflict { detected: Seq<char>, declared: Seq<char> },
    UndecidableCompatibility { detected: Seq<char>, declared: Seq<char> },
    MalformedInput { bytes: Seq<u8>, position: nat },
}

impl View for EncodingError {
    type V = ErrorView;

    open spec fn view(&self) -> ErrorView {
        match self {
            EncodingError::SourceExhausted => ErrorView::SourceExhausted,
            EncodingError::UnsupportedByteOrder => ErrorView::UnsupportedByteOrder,
            EncodingError::UnsupportedEncoding(n) => ErrorView::UnsupportedEncoding(n@),
            EncodingError::AmbiguousInput => ErrorView::AmbiguousInput,
            EncodingError::MalformedDeclaration => ErrorView::MalformedDeclaration,
            EncodingError::EncodingConflict { detected, declared } => ErrorView::EncodingConflict {
                detected: detected@,
                declared: declared@,
            },
            EncodingError::UndecidableCompatibility { detected, declared } =>
                ErrorView::UndecidableCompatibility { detected: detected@, declared: declared@ },
            EncodingError::MalformedInput { bytes, position } => ErrorView::MalformedInput {
                bytes: bytes@,
                position: *position as nat,
            },
        }
    }
}

} // verus!
