//! The transcoding buffer: raw bytes in, normalized UTF-8 text out. It
//! decodes each raw chunk strictly, normalizes line endings with a CR flag
//! carried from one chunk to the next, and serves the result as a buffered
//! read. The byte source stays with the caller, who hands over what it
//! reads whenever `needs_input` says so.
use vstd::prelude::*;
use vstd::slice::{slice_subrange, slice_to_vec};
use vstd::string::StrSliceExecFns;
use vstd::utf8::encode_utf8;
use crate::codec::{
    decode_last, decoded_with, decoder_fed, decoder_label, decoder_open,
    encoding_for_label, streamed,
};
use crate::encoding::Encoding;
use crate::eol::{lemma_normalize_split, normalize_eol_spec, normalize_line_endings};
use crate::error::{EncodingError, ErrorView};
use crate::enc_detect::decoder_helper;
use crate::text::{chars_of, string_of};

verus! {

/// The most raw bytes handed over, or kept, at once: the decoder sizes its
/// output from the input's length, which must not overflow `usize`.
pub const MAX_READ: usize = 0x0fff_ffff;

pub struct TranscodeBuffer {
    decoder: Option<encoding_rs::Decoder>,
    input: Vec<u8>,
    output: Vec<u8>,
    pos: usize,
    pending_cr: bool,
    capacity: usize,
    label: Ghost<Seq<char>>,
    fed: Ghost<Seq<u8>>,
    text: Ghost<Seq<char>>,
    decoded: Ghost<Seq<char>>,
    produced: Ghost<Seq<char>>,
}

/// The state of a `TranscodeBuffer`.
pub struct BufferView {
    /// Raw bytes not yet decoded.
    pub input: Seq<u8>,
    /// The normalized text of the last refill, as characters.
    pub text: Seq<char>,
    /// The same text in UTF-8, served from `pos` on.
    pub output: Seq<u8>,
    pub pos: nat,
    /// Whether the last decoded character was a CR.
    pub pending_cr: bool,
    /// How many bytes to read from the source at a time.
    pub capacity: nat,
    /// Whether the source has ended, or decoding failed; nothing more comes.
    pub ended: bool,
    /// The label of the encoding decoded.
    pub label: Seq<char>,
    /// All raw bytes handed to the decoder so far.
    pub fed: Seq<u8>,
    /// All text decoded so far.
    pub decoded: Seq<char>,
    /// All normalized text produced so far.
    pub produced: Seq<char>,
}

impl BufferView {
    pub open spec fn wf(self) -> bool {
        &&& self.pos <= self.output.len()
        &&& self.output == encode_utf8(self.text)
        &&& self.input.len() <= MAX_READ
        &&& (self.produced, self.pending_cr) == normalize_eol_spec(self.decoded, false)
        &&& !self.ended ==> streamed(self.label, self.fed) == Some(self.decoded)
    }

    /// The served text is used up, no raw bytes wait, and the source may
    /// still have more.
    pub open spec fn needs_input(self) -> bool {
        self.pos == self.output.len() && self.input.len() == 0 && !self.ended
    }

    pub open spec fn available(self) -> Seq<u8> {
        self.output.subrange(self.pos as int, self.output.len() as int)
    }

    pub open spec fn with_pos(self, pos: nat) -> BufferView {
        BufferView { pos, ..self }
    }

    /// What a refill from the raw bytes `raw` did, where it succeeded: the
    /// newly decoded text, normalized from the carried flag, is served next.
    pub open spec fn refilled(self, next: BufferView, raw: Seq<u8>) -> bool {
        let fresh = next.decoded.skip(self.decoded.len() as int);
        &&& next.decoded.len() >= self.decoded.len()
        &&& next.decoded.take(self.decoded.len() as int) == self.decoded
        &&& (next.text, next.pending_cr) == normalize_eol_spec(fresh, self.pending_cr)
        &&& next.produced == self.produced + next.text
        &&& next.pos == 0
        &&& next.input.len() == 0
        &&& next.capacity == self.capacity
        &&& next.ended == (raw.len() == 0)
        &&& next.label == self.label
        &&& next.fed == self.fed + raw
    }

    /// All the text decoded once the raw bytes `raw` are handed over; empty
    /// raw bytes end the source, and any incomplete sequence with it.
    pub open spec fn decoded_after(self, raw: Seq<u8>) -> Option<Seq<char>> {
        if raw.len() == 0 {
            decoded_with(self.label, self.fed)
        } else {
            streamed(self.label, self.fed + raw)
        }
    }
}

impl View for TranscodeBuffer {
    type V = BufferView;

    closed spec fn view(&self) -> BufferView {
        BufferView {
            input: self.input@,
            text: self.text@,
            output: self.output@,
            pos: self.pos as nat,
            pending_cr: self.pending_cr,
            capacity: self.capacity as nat,
            ended: self.decoder is None,
            label: self.label@,
            fed: self.fed@,
            decoded: self.decoded@,
            produced: self.produced@,
        }
    }
}

impl TranscodeBuffer {
    /// The view is well formed, and the decoder held is the one the view
    /// describes.
    pub closed spec fn inv(&self) -> bool {
        &&& self@.wf()
        &&& match self.decoder {
            Some(d) => decoder_open(d) && decoder_label(d) == self.label@ && decoder_fed(d)
                == self.fed@,
            None => true,
        }
    }

    /// A buffer that decodes with `encoding`, whose first raw bytes are the
    /// `prebuf` that detection read. It reads `capacity` bytes at a time, and
    /// never fewer than `prebuf` holds.
    pub fn new(encoding: &Encoding, prebuf: Vec<u8>, capacity: usize) -> (r: Result<
        TranscodeBuffer,
        EncodingError,
    >)
        requires
            prebuf@.len() <= MAX_READ,
        ensures
            r is Ok <==> encoding_for_label(encoding@.name()) is Some,
            r matches Err(e) ==> e@ == ErrorView::UnsupportedEncoding(encoding@.name()),
            r matches Ok(b) ==> b.inv() && b@.wf() && b@ == (BufferView {
                input: prebuf@,
                text: Seq::empty(),
                output: Seq::empty(),
                pos: 0,
                pending_cr: false,
                capacity: if capacity >= prebuf@.len() {
                    capacity as nat
                } else {
                    prebuf@.len()
                },
                ended: false,
                label: encoding@.name(),
                fed: Seq::empty(),
                decoded: Seq::empty(),
                produced: Seq::empty(),
            }),
    {
        let decoder = encoding.get_decoder()?;
        let ghost label = encoding@.name();
        let capacity = if capacity >= prebuf.len() {
            capacity
        } else {
            prebuf.len()
        };
        let b = TranscodeBuffer {
            decoder: Some(decoder),
            input: prebuf,
            output: Vec::new(),
            pos: 0,
            pending_cr: false,
            capacity,
            label: Ghost(label),
            fed: Ghost(Seq::empty()),
            text: Ghost(Seq::empty()),
            decoded: Ghost(Seq::empty()),
            produced: Ghost(Seq::empty()),
        };
        assert(b@.output =~= encode_utf8(Seq::empty()));
        Ok(b)
    }

    pub fn needs_input(&self) -> (r: bool)
        ensures
            r == self@.needs_input(),
    {
        self.pos == self.output.len() && self.input.len() == 0 && self.decoder.is_some()
    }

    /// Whether nothing more will come: the source has ended, or decoding
    /// failed.
    pub fn at_end(&self) -> (r: bool)
        ensures
            r == self@.ended,
    {
        self.decoder.is_none()
    }

    pub fn capacity(&self) -> (r: usize)
        ensures
            r == self@.capacity,
    {
        self.capacity
    }

    /// The text ready to be read, without consuming it.
    pub fn available(&self) -> (r: &[u8])
        requires
            self.inv(),
        ensures
            r@ == self@.available(),
    {
        slice_subrange(self.output.as_slice(), self.pos, self.output.len())
    }

    /// Marks `amt` bytes of the available text as read, at most all of it.
    pub fn consume(&mut self, amt: usize)
        requires
            old(self).inv(),
        ensures
            final(self).inv(),
            final(self)@ == old(self)@.with_pos(
                if amt >= old(self)@.output.len() - old(self)@.pos {
                    old(self)@.output.len()
                } else {
                    (old(self)@.pos + amt) as nat
                },
            ),
            final(self)@.wf(),
    {
        if amt >= self.output.len() - self.pos {
            self.pos = self.output.len();
        } else {
            self.pos = self.pos + amt;
        }
    }

    /// Copies available text into the front of `buf` and consumes it;
    /// returns how many bytes were copied.
    pub fn read(&mut self, buf: &mut [u8]) -> (n: usize)
        requires
            old(self).inv(),
        ensures
            final(self).inv(),
            n == if old(self)@.available().len() <= old(buf)@.len() {
                old(self)@.available().len()
            } else {
                old(buf)@.len()
            },
            final(buf)@ == old(self)@.available().take(n as int) + old(buf)@.skip(n as int),
            final(self)@ == old(self)@.with_pos((old(self)@.pos + n) as nat),
            final(self)@.wf(),
    {
        let ready = self.output.len() - self.pos;
        let n = if ready <= buf.len() {
            ready
        } else {
            buf.len()
        };
        let mut i: usize = 0;
        while i < n
            invariant
                i <= n,
                n <= buf@.len(),
                self.pos + n <= self.output@.len(),
                self.output@.len() <= usize::MAX,
                buf@.len() == old(buf)@.len(),
                forall|j: int| 0 <= j < i ==> buf@[j] == self.output@[self.pos + j],
                forall|j: int| n <= j < buf@.len() ==> buf@[j] == old(buf)@[j],
            decreases n - i,
        {
            buf[i] = self.output[self.pos + i];
            i = i + 1;
        }
        assert(buf@ =~= old(self)@.available().take(n as int) + old(buf)@.skip(n as int));
        self.pos = self.pos + n;
        n
    }

    /// One fill cycle. Where the served text is used up, the raw bytes
    /// (those still held, else `pulled`, which the caller read from the
    /// source because `needs_input` said so) are decoded strictly and their
    /// line endings normalized. Empty raw bytes mean the source has ended:
    /// the decoder is then flushed, and fails on an incomplete sequence.
    /// Success is owed exactly where all the bytes handed over so far decode.
    pub fn fill(&mut self, pulled: &[u8]) -> (r: Result<(), EncodingError>)
        requires
            old(self).inv(),
            pulled@.len() <= MAX_READ,
            pulled@.len() > 0 ==> old(self)@.needs_input(),
        ensures
            final(self).inv(),
            final(self)@.wf(),
            old(self)@.pos < old(self)@.output.len() || old(self)@.ended
                ==> (r is Ok && final(self)@ == old(self)@),
            old(self)@.pos == old(self)@.output.len() && !old(self)@.ended ==> ({
                let raw = if old(self)@.input.len() == 0 {
                    pulled@
                } else {
                    old(self)@.input
                };
                &&& r is Ok <==> old(self)@.decoded_after(raw) is Some
                &&& match r {
                    Ok(_) => old(self)@.refilled(final(self)@, raw) && final(self)@.decoded
                        == old(self)@.decoded_after(raw)->Some_0,
                    Err(e) => (e@ matches ErrorView::MalformedInput { bytes, .. } && bytes
                        == raw) && final(self)@.ended && final(self)@.available().len() == 0,
                }
            }),
    {
        if self.pos < self.output.len() {
            return Ok(());
        }
        let mut decoder = match self.decoder.take() {
            Some(d) => d,
            None => {
                return Ok(());
            },
        };
        let raw: Vec<u8> = if self.input.len() == 0 {
            slice_to_vec(pulled)
        } else {
            self.input.clone()
        };
        self.input.clear();
        let decoded: Result<Vec<char>, EncodingError> = if raw.len() == 0 {
            match decode_last(decoder) {
                Ok(t) => Ok(t),
                Err(read) => Err(EncodingError::MalformedInput { bytes: raw.clone(), position: read }),
            }
        } else {
            match decoder_helper(&mut decoder, raw.as_slice()) {
                Ok(text) => {
                    self.decoder = Some(decoder);
                    Ok(chars_of(text.as_str()))
                },
                Err(e) => Err(e),
            }
        };
        match decoded {
            Err(e) => {
                self.output.clear();
                self.pos = 0;
                self.text = Ghost(Seq::empty());
                assert(self.output@ =~= encode_utf8(Seq::empty()));
                Err(e)
            },
            Ok(t) => {
                let (out, pending) = normalize_line_endings(t.as_slice(), self.pending_cr);
                let text = string_of(out.as_slice());
                self.output = text.as_str().as_bytes_vec();
                self.pos = 0;
                proof {
                    lemma_normalize_split(self.decoded@, t@, false);
                    assert((self.decoded@ + t@).skip(self.decoded@.len() as int) =~= t@);
                    assert((self.decoded@ + t@).take(self.decoded@.len() as int)
                        =~= self.decoded@);
                }
                self.decoded = Ghost(self.decoded@ + t@);
                self.fed = Ghost(self.fed@ + raw@);
                self.produced = Ghost(self.produced@ + out@);
                self.text = Ghost(out@);
                self.pending_cr = pending;
                Ok(())
            },
        }
    }
}

} // verus!
