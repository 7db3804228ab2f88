//! The encoding descriptor, its names, and the fixed table that classifies
//! the first four bytes of a document.
use vstd::prelude::*;
use crate::codec::{
    canonical_name, decoder_fed, decoder_for_label, decoder_label, decoder_open, encoding_for_label,
    streamed,
};
use crate::error::{EncodingError, ErrorView};
use crate::text::{ascii_lower, chars_of, lower_ascii, same_chars, string_of, trim_label, trimmed_label};

verus! {

/// A resolved encoding. The flag says whether it is definitive: set by a
/// physical signal (a byte-order mark, or a UTF-16 byte pattern of the
/// declaration) and not to be overridden by a declared name.
#[derive(Debug, Clone, PartialEq, Eq)]
pub enum Encoding {
    Ascii(bool),
    Utf8(bool),
    Utf16Le(bool),
    Utf16Be(bool),
    /// The encoding that a document's own declaration names, taken as it is
    /// written where nothing definitive was detected.
    Declared(String),
}

/// `Encoding` with the declared name as a sequence.
pub enum EncodingView {
    Ascii(bool),
    Utf8(bool),
    Utf16Le(bool),
    Utf16Be(bool),
    Declared(Seq<char>),
}

impl View for Encoding {
    type V = EncodingView;

    open spec fn view(&self) -> EncodingView {
        match self {
            Encoding::Ascii(d) => EncodingView::Ascii(*d),
            Encoding::Utf8(d) => EncodingView::Utf8(*d),
            Encoding::Utf16Le(d) => EncodingView::Utf16Le(*d),
            Encoding::Utf16Be(d) => EncodingView::Utf16Be(*d),
            Encoding::Declared(n) => EncodingView::Declared(n@),
        }
    }
}

pub open spec fn ascii_name() -> Seq<char> {
    seq!['a', 's', 'c', 'i', 'i']
}

pub open spec fn utf8_name() -> Seq<char> {
    seq!['u', 't', 'f', '-', '8']
}

pub open spec fn utf16le_name() -> Seq<char> {
    seq!['u', 't', 'f', '-', '1', '6', 'l', 'e']
}

pub open spec fn utf16be_name() -> Seq<char> {
    seq!['u', 't', 'f', '-', '1', '6', 'b', 'e']
}

impl EncodingView {
    pub open spec fn name(self) -> Seq<char> {
        match self {
            EncodingView::Ascii(_) => ascii_name(),
            EncodingView::Utf8(_) => utf8_name(),
            EncodingView::Utf16Le(_) => utf16le_name(),
            EncodingView::Utf16Be(_) => utf16be_name(),
            EncodingView::Declared(n) => n,
        }
    }

    pub open spec fn char_width(self) -> nat {
        match self {
            EncodingView::Utf16Le(_) | EncodingView::Utf16Be(_) => 2,
            _ => 1,
        }
    }

    pub open spec fn definitive(self) -> bool {
        match self {
            EncodingView::Ascii(d) | EncodingView::Utf8(d) | EncodingView::Utf16Le(d)
            | EncodingView::Utf16Be(d) => d,
            EncodingView::Declared(_) => false,
        }
    }
}

/// The classification of the first four bytes: the guessed encoding and the
/// length of the byte-order mark, or the failure for an unsupported
/// multi-byte pattern.
pub open spec fn classify_quad(q: Seq<u8>) -> Result<(EncodingView, nat), ErrorView>
    recommends
        q.len() >= 4,
{
    if q[0] == 0xEF && q[1] == 0xBB && q[2] == 0xBF {
        Ok((EncodingView::Utf8(true), 3))
    } else if q[0] == 0xFF && q[1] == 0xFE && q[2] != 0 && q[3] == 0 {
        Ok((EncodingView::Utf16Le(true), 2))
    } else if q[0] == 0xFE && q[1] == 0xFF && q[2] == 0 && q[3] != 0 {
        Ok((EncodingView::Utf16Be(true), 2))
    } else if q[0] == 0x3C && q[1] == 0x3F && q[2] == 0x78 && q[3] == 0x6D {
        Ok((EncodingView::Utf8(false), 0))
    } else if q[0] == 0x3C && q[1] == 0 && q[2] == 0x3F && q[3] == 0 {
        Ok((EncodingView::Utf16Le(true), 0))
    } else if q[0] == 0 && q[1] == 0x3C && q[2] == 0 && q[3] == 0x3F {
        Ok((EncodingView::Utf16Be(true), 0))
    } else if q[0] == 0 || q[1] == 0 || q[2] == 0 || q[3] == 0 {
        Err(ErrorView::UnsupportedByteOrder)
    } else {
        Ok((EncodingView::Utf8(false), 0))
    }
}

/// The encoding that a name resolves to, where it is one of those decoded
/// here: `ascii` (white space around it and letter case aside) names ASCII;
/// any other name goes through the label table.
pub open spec fn resolve_name(name: Seq<char>, definitive: bool) -> Result<
    EncodingView,
    ErrorView,
> {
    if ascii_lower(trim_label(name)) == ascii_name() {
        Ok(EncodingView::Ascii(definitive))
    } else {
        resolve_label(name, definitive)
    }
}

pub open spec fn resolve_label(name: Seq<char>, definitive: bool) -> Result<
    EncodingView,
    ErrorView,
> {
    match encoding_for_label(name) {
        None => Err(ErrorView::UnsupportedEncoding(name)),
        Some(canonical) => {
            let lower = ascii_lower(canonical);
            if lower == ascii_name() {
                Ok(EncodingView::Ascii(definitive))
            } else if lower == utf8_name() {
                Ok(EncodingView::Utf8(definitive))
            } else if lower == utf16le_name() {
                Ok(EncodingView::Utf16Le(definitive))
            } else if lower == utf16be_name() {
                Ok(EncodingView::Utf16Be(definitive))
            } else {
                Err(ErrorView::UnsupportedEncoding(lower))
            }
        },
    }
}

/// Names of encodings of which ASCII is a subset, so that a document first
/// read as UTF-8 or ASCII may declare them.
pub open spec fn ascii_superset_names() -> Seq<Seq<char>> {
    seq![
        "ascii"@, "utf-8"@, "ibm866"@, "iso-8859-1"@, "iso-8859-2"@, "iso-8859-3"@,
        "iso-8859-4"@, "iso-8859-5"@, "iso-8859-6"@, "iso-8859-7"@, "iso-8859-8"@,
        "iso-8859-10"@, "iso-8859-13"@, "iso-8859-14"@, "iso-8859-15"@, "iso-8859-16"@,
        "koi8-r"@, "koi8-u"@, "mac-roman"@, "windows-874"@, "windows-1250"@, "windows-1251"@,
        "windows-1252"@, "windows-1253"@, "windows-1254"@, "windows-1255"@, "windows-1256"@,
        "windows-1257"@, "windows-1258"@, "mac-cyrillic"@,
    ]
}

/// Whether a declared name fits an encoding: names are compared as the
/// label table resolves them, in lower case.
pub open spec fn compatibility(e: EncodingView, declared: Seq<char>) -> Result<bool, ErrorView> {
    match encoding_for_label(declared) {
        None => Err(ErrorView::UnsupportedEncoding(declared)),
        Some(canonical) => {
            let mine = ascii_lower(e.name());
            let other = ascii_lower(canonical);
            if mine == other {
                Ok(true)
            } else if e.definitive() {
                Ok(false)
            } else if mine == utf8_name() || mine == ascii_name() {
                Ok(ascii_superset_names().contains(other))
            } else {
                Err(ErrorView::UndecidableCompatibility { detected: mine, declared: other })
            }
        },
    }
}

proof fn lemma_decode_target_names()
    ensures
        "ascii"@ == ascii_name(),
        "utf-8"@ == utf8_name(),
        "utf-16le"@ == utf16le_name(),
        "utf-16be"@ == utf16be_name(),
{
    reveal_strlit("ascii");
    reveal_strlit("utf-8");
    reveal_strlit("utf-16le");
    reveal_strlit("utf-16be");
    assert("ascii"@ =~= ascii_name());
    assert("utf-8"@ =~= utf8_name());
    assert("utf-16le"@ =~= utf16le_name());
    assert("utf-16be"@ =~= utf16be_name());
}

fn is_ascii_superset(name: &Vec<char>) -> (r: bool)
    ensures
        r == ascii_superset_names().contains(name@),
{
    let names: Vec<&str> = vec![
        "ascii", "utf-8", "ibm866", "iso-8859-1", "iso-8859-2", "iso-8859-3",
        "iso-8859-4", "iso-8859-5", "iso-8859-6", "iso-8859-7", "iso-8859-8",
        "iso-8859-10", "iso-8859-13", "iso-8859-14", "iso-8859-15", "iso-8859-16",
        "koi8-r", "koi8-u", "mac-roman", "windows-874", "windows-1250", "windows-1251",
        "windows-1252", "windows-1253", "windows-1254", "windows-1255", "windows-1256",
        "windows-1257", "windows-1258", "mac-cyrillic",
    ];
    let ghost table = ascii_superset_names();
    assert(names@.len() == table.len());
    assert(forall|j: int| 0 <= j < table.len() ==> #[trigger] names@[j]@ == table[j]);
    let mut i: usize = 0;
    while i < names.len()
        invariant
            i <= names@.len(),
            names@.len() == table.len(),
            table == ascii_superset_names(),
            forall|j: int| 0 <= j < table.len() ==> #[trigger] names@[j]@ == table[j],
            forall|j: int| 0 <= j < i ==> table[j] != name@,
        decreases names@.len() - i,
    {
        if same_chars(name.as_slice(), names[i]) {
            assert(table[i as int] == name@);
            assert(table.contains(name@));
            return true;
        }
        i = i + 1;
    }
    false
}

impl Encoding {
    /// Classifies the first four bytes of `buf` by the fixed table: returns
    /// the guessed encoding and the length of the byte-order mark.
    pub fn new_from_buffer(buf: &[u8]) -> (r: Result<(Encoding, usize), EncodingError>)
        ensures
            buf@.len() < 4 ==> (r matches Err(e) && e@ == ErrorView::SourceExhausted),
            buf@.len() >= 4 ==> match classify_quad(buf@) {
                Ok((g, bom)) => (r matches Ok((e, n)) && e@ == g && n == bom),
                Err(v) => (r matches Err(e) && e@ == v),
            },
    {
        if buf.len() < 4 {
            return Err(EncodingError::SourceExhausted);
        }
        let (b0, b1, b2, b3) = (buf[0], buf[1], buf[2], buf[3]);
        if b0 == 0xEF && b1 == 0xBB && b2 == 0xBF {
            Ok((Encoding::Utf8(true), 3))
        } else if b0 == 0xFF && b1 == 0xFE && b2 != 0 && b3 == 0 {
            Ok((Encoding::Utf16Le(true), 2))
        } else if b0 == 0xFE && b1 == 0xFF && b2 == 0 && b3 != 0 {
            Ok((Encoding::Utf16Be(true), 2))
        } else if b0 == 0x3C && b1 == 0x3F && b2 == 0x78 && b3 == 0x6D {
            Ok((Encoding::Utf8(false), 0))
        } else if b0 == 0x3C && b1 == 0 && b2 == 0x3F && b3 == 0 {
            Ok((Encoding::Utf16Le(true), 0))
        } else if b0 == 0 && b1 == 0x3C && b2 == 0 && b3 == 0x3F {
            Ok((Encoding::Utf16Be(true), 0))
        } else if b0 == 0 || b1 == 0 || b2 == 0 || b3 == 0 {
            Err(EncodingError::UnsupportedByteOrder)
        } else {
            Ok((Encoding::Utf8(false), 0))
        }
    }

    /// Resolves `name`: `ascii` names ASCII, any other name goes through the
    /// label table. Only ASCII, UTF-8, UTF-16LE and UTF-16BE are decode
    /// targets; any other name fails.
    pub fn new_from_name(name: &str, is_definitive: bool) -> (r: Result<Encoding, EncodingError>)
        ensures
            match resolve_name(name@, is_definitive) {
                Ok(v) => (r matches Ok(e) && e@ == v),
                Err(v) => (r matches Err(e) && e@ == v),
            },
    {
        proof {
            lemma_decode_target_names();
        }
        let bare = lower_ascii(trimmed_label(chars_of(name).as_slice()).as_slice());
        if same_chars(bare.as_slice(), "ascii") {
            return Ok(Encoding::Ascii(is_definitive));
        }
        match canonical_name(name) {
            None => Err(EncodingError::UnsupportedEncoding(name.to_owned())),
            Some(canonical) => {
                let lower = lower_ascii(canonical.as_slice());
                proof {
                    lemma_decode_target_names();
                }
                if same_chars(lower.as_slice(), "ascii") {
                    Ok(Encoding::Ascii(is_definitive))
                } else if same_chars(lower.as_slice(), "utf-8") {
                    Ok(Encoding::Utf8(is_definitive))
                } else if same_chars(lower.as_slice(), "utf-16le") {
                    Ok(Encoding::Utf16Le(is_definitive))
                } else if same_chars(lower.as_slice(), "utf-16be") {
                    Ok(Encoding::Utf16Be(is_definitive))
                } else {
                    Err(EncodingError::UnsupportedEncoding(string_of(lower.as_slice())))
                }
            },
        }
    }

    /// An incremental decoder for this encoding, found by its name, that
    /// has taken in nothing yet.
    pub fn get_decoder(&self) -> (r: Result<encoding_rs::Decoder, EncodingError>)
        ensures
            r is Ok <==> encoding_for_label(self@.name()) is Some,
            r matches Ok(d) ==> decoder_label(d) == self@.name() && decoder_fed(d) == Seq::<
                u8,
            >::empty() && decoder_open(d),
            r matches Ok(d) ==> streamed(decoder_label(d), decoder_fed(d)) == Some(
                Seq::<char>::empty(),
            ),
            r matches Err(e) ==> e@ == ErrorView::UnsupportedEncoding(self@.name()),
    {
        let name = self.get_name();
        match decoder_for_label(name.as_str()) {
            Some(d) => Ok(d),
            None => Err(EncodingError::UnsupportedEncoding(name)),
        }
    }

    pub fn get_name(&self) -> (r: String)
        ensures
            r@ == self@.name(),
    {
        proof {
            reveal_strlit("ascii");
            reveal_strlit("utf-8");
            reveal_strlit("utf-16le");
            reveal_strlit("utf-16be");
        }
        match self {
            Encoding::Ascii(_) => "ascii".to_owned(),
            Encoding::Utf8(_) => "utf-8".to_owned(),
            Encoding::Utf16Le(_) => "utf-16le".to_owned(),
            Encoding::Utf16Be(_) => "utf-16be".to_owned(),
            Encoding::Declared(n) => n.clone(),
        }
    }

    /// A copy of this encoding.
    pub fn clone_encoding(&self) -> (r: Encoding)
        ensures
            r@ == self@,
    {
        match self {
            Encoding::Ascii(d) => Encoding::Ascii(*d),
            Encoding::Utf8(d) => Encoding::Utf8(*d),
            Encoding::Utf16Le(d) => Encoding::Utf16Le(*d),
            Encoding::Utf16Be(d) => Encoding::Utf16Be(*d),
            Encoding::Declared(n) => Encoding::Declared(n.clone()),
        }
    }

    /// Bytes per character of the declaration's ASCII text in this encoding.
    pub fn get_char_width(&self) -> (r: usize)
        ensures
            r == self@.char_width(),
    {
        match self {
            Encoding::Utf16Le(_) | Encoding::Utf16Be(_) => 2,
            _ => 1,
        }
    }

    pub fn is_definitive(&self) -> (r: bool)
        ensures
            r == self@.definitive(),
    {
        match self {
            Encoding::Ascii(d) | Encoding::Utf8(d) | Encoding::Utf16Le(d) | Encoding::Utf16Be(
                d,
            ) => *d,
            Encoding::Declared(_) => false,
        }
    }

    /// Whether a declared encoding name fits this encoding. Identical
    /// resolved names fit; a definitive encoding fits nothing else; UTF-8 and
    /// ASCII fit the ASCII-superset code pages; any other pair is undecidable.
    pub fn encoding_decl_is_compatible(&self, encoding_decl_name: &str) -> (r: Result<
        bool,
        EncodingError,
    >)
        ensures
            match compatibility(self@, encoding_decl_name@) {
                Ok(b) => r == Ok::<bool, EncodingError>(b),
                Err(v) => (r matches Err(e) && e@ == v),
            },
    {
        let other = match canonical_name(encoding_decl_name) {
            None => {
                return Err(EncodingError::UnsupportedEncoding(encoding_decl_name.to_owned()));
            },
            Some(c) => lower_ascii(c.as_slice()),
        };
        let own_name = self.get_name();
        let mine = lower_ascii(chars_of(own_name.as_str()).as_slice());
        if same_chars(mine.as_slice(), string_of(other.as_slice()).as_str()) {
            return Ok(true);
        }
        if self.is_definitive() {
            return Ok(false);
        }
        proof {
            lemma_decode_target_names();
        }
        if same_chars(mine.as_slice(), "utf-8") || same_chars(mine.as_slice(), "ascii") {
            Ok(is_ascii_superset(&other))
        } else {
            Err(
                EncodingError::UndecidableCompatibility {
                    detected: string_of(mine.as_slice()),
                    declared: string_of(other.as_slice()),
                },
            )
        }
    }
}

} // verus!
