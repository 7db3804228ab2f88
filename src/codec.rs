//! The calls into `encoding_rs`: label lookup and decoding. Everything this
//! crate assumes of that library stands in this file.
use vstd::prelude::*;

verus! {

/// The name, as `encoding_rs` spells it, of the encoding that `label`
/// denotes in the Encoding Standard's label table; `None` for an unknown
/// label and for the labels of the replacement encoding.
pub uninterp spec fn encoding_for_label(label: Seq<char>) -> Option<Seq<char>>;

/// The text that the encoding denoted by `label` gives for `bytes` taken as a
/// whole input; `None` where the label denotes no encoding or the bytes hold a
/// malformed sequence.
pub uninterp spec fn decoded_with(label: Seq<char>, bytes: Seq<u8>) -> Option<Seq<char>>;

/// The label that a decoder was made for.
pub uninterp spec fn decoder_label(d: encoding_rs::Decoder) -> Seq<char>;

/// All the bytes a decoder has taken in so far.
pub uninterp spec fn decoder_fed(d: encoding_rs::Decoder) -> Seq<u8>;

/// Whether a decoder has not yet been finished, that is, given its last
/// input. `encoding_rs` panics when a finished decoder is used again.
pub uninterp spec fn decoder_open(d: encoding_rs::Decoder) -> bool;

/// The text that an incremental decoder for `label` has handed out after
/// taking in `bytes` with `last` false: the complete characters so far, an
/// incomplete sequence at the end held back. `None` once the bytes hold a
/// malformed sequence.
pub uninterp spec fn streamed(label: Seq<char>, bytes: Seq<u8>) -> Option<Seq<char>>;

pub open spec fn chars_view(o: Option<Vec<char>>) -> Option<Seq<char>> {
    match o {
        Some(v) => Some(v@),
        None => None,
    }
}

#[verifier::external_type_specification]
#[verifier::external_body]
pub struct ExDecoder(encoding_rs::Decoder);

/// Relies on `encoding_rs::Encoding::for_label_no_replacement`, and on
/// `Encoding::name` for the name of what it found.
#[verifier::external_body]
pub(crate) fn canonical_name(label: &str) -> (r: Option<Vec<char>>)
    ensures
        chars_view(r) == encoding_for_label(label@),
{
    encoding_rs::Encoding::for_label_no_replacement(label.as_bytes()).map(
        |e| e.name().chars().collect(),
    )
}

/// Relies on `encoding_rs::Encoding::for_label_no_replacement`, then on
/// `Encoding::decode_without_bom_handling_and_without_replacement`, which
/// decodes a complete input and gives `None` on a malformed sequence. That
/// call panics only where the size of its output buffer overflows `usize`,
/// which the bound on the input rules out.
#[verifier::external_body]
pub(crate) fn decode_complete(label: &str, bytes: &[u8]) -> (r: Option<Vec<char>>)
    requires
        bytes@.len() < 0x1000_0000,
    ensures
        chars_view(r) == decoded_with(label@, bytes@),
{
    encoding_rs::Encoding::for_label_no_replacement(label.as_bytes()).and_then(
        |e| e.decode_without_bom_handling_and_without_replacement(bytes),
    ).map(|text| text.chars().collect())
}

/// Relies on `encoding_rs::Encoding::for_label_no_replacement`, then on
/// `Encoding::new_decoder_without_bom_handling` for an incremental decoder
/// of that encoding, which has taken in nothing and handed out nothing.
#[verifier::external_body]
pub(crate) fn decoder_for_label(label: &str) -> (r: Option<encoding_rs::Decoder>)
    ensures
        r is Some <==> encoding_for_label(label@) is Some,
        r matches Some(d) ==> decoder_label(d) == label@ && decoder_fed(d) == Seq::<u8>::empty()
            && decoder_open(d),
        r matches Some(d) ==> streamed(decoder_label(d), decoder_fed(d)) == Some(
            Seq::<char>::empty(),
        ),
{
    encoding_rs::Encoding::for_label_no_replacement(label.as_bytes()).map(
        |e| e.new_decoder_without_bom_handling(),
    )
}

/// Relies on `encoding_rs::Decoder::decode_to_string_without_replacement`
/// with `last` false, into a `String` sized by
/// `Decoder::max_utf8_buffer_length_without_replacement` so that all of `src`
/// is taken. Each call hands out the complete characters that the bytes
/// taken so far add, whatever the chunking; a malformed sequence gives `Err`
/// with the count of bytes read up to it. Both calls panic on a finished
/// decoder.
#[verifier::external_body]
pub(crate) fn decode_more(decoder: &mut encoding_rs::Decoder, src: &[u8]) -> (r: Result<
    Vec<char>,
    usize,
>)
    requires
        src@.len() < 0x1000_0000,
        decoder_open(*old(decoder)),
        streamed(decoder_label(*old(decoder)), decoder_fed(*old(decoder))) is Some,
    ensures
        decoder_label(*final(decoder)) == decoder_label(*old(decoder)),
        decoder_open(*final(decoder)),
        r is Ok ==> decoder_fed(*final(decoder)) == decoder_fed(*old(decoder)) + src@,
        match streamed(decoder_label(*old(decoder)), decoder_fed(*old(decoder)) + src@) {
            Some(all) => (r matches Ok(t) && streamed(
                decoder_label(*old(decoder)),
                decoder_fed(*old(decoder)),
            ) matches Some(before) && all == before + t@),
            None => r is Err,
        },
{
    let room = decoder.max_utf8_buffer_length_without_replacement(src.len()).unwrap_or(0);
    let mut text = String::with_capacity(room);
    let (result, read) = decoder.decode_to_string_without_replacement(src, &mut text, false);
    match result {
        encoding_rs::DecoderResult::Malformed(_, _) => Err(read),
        _ => Ok(text.chars().collect()),
    }
}

/// Relies on `encoding_rs::Decoder::decode_to_string_without_replacement`
/// with `last` true and no input: it gives what the decoder still holds, or
/// `Err` where that is an incomplete sequence. Incremental calls ended so
/// give the text of `decode_without_bom_handling_and_without_replacement`
/// on all the bytes. The decoder is taken, since `encoding_rs` panics when a
/// finished decoder is used again.
#[verifier::external_body]
pub(crate) fn decode_last(decoder: encoding_rs::Decoder) -> (r: Result<Vec<char>, usize>)
    requires
        decoder_open(decoder),
        streamed(decoder_label(decoder), decoder_fed(decoder)) is Some,
    ensures
        match decoded_with(decoder_label(decoder), decoder_fed(decoder)) {
            Some(all) => (r matches Ok(t) && streamed(
                decoder_label(decoder),
                decoder_fed(decoder),
            ) matches Some(before) && all == before + t@),
            None => r is Err,
        },
{
    let mut decoder = decoder;
    let room = decoder.max_utf8_buffer_length_without_replacement(0).unwrap_or(0);
    let mut text = String::with_capacity(room);
    let (result, read) = decoder.decode_to_string_without_replacement(&[], &mut text, true);
    match result {
        encoding_rs::DecoderResult::Malformed(_, _) => Err(read),
        _ => Ok(text.chars().collect()),
    }
}

} // verus!
