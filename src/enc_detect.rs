//! Encoding detection. The decision is a function of the bytes read so far:
//! it either asks for more bytes, or settles on an encoding, or fails.
//! `detect_step` makes that decision; `detect_encoding_with_suggestion` runs
//! it over a byte source held in memory, reading no more than it asks for.
use vstd::prelude::*;
use vstd::slice::{slice_subrange, slice_to_vec};
use crate::codec::{
    decode_complete, decode_more, decoded_with, decoder_fed, decoder_label, decoder_open, streamed,
};
use crate::reader::MAX_READ;
use crate::declaration::{closes_declaration, declared_encoding, encoding_value, ends_declaration};
use crate::encoding::{classify_quad, compatibility, resolve_name, utf8_name, Encoding, EncodingView};
use crate::error::{EncodingError, ErrorView};
use crate::text::{is_white_space, string_of, white_space};

verus! {

/// Characters in the declaration's opening `<?xml `.
pub const DECL_PREFIX_CHARS: usize = 6;

/// Characters a declaration may reach without closing.
pub const DECL_CAP: usize = 256;

/// The outcome of one detection step on the bytes read so far.
pub enum Detection {
    /// This many more bytes must be read.
    NeedMore(nat),
    /// The encoding, and the length of the byte-order mark to skip.
    Found(EncodingView, nat),
    Failed(ErrorView),
}

/// Where the scan of a declaration stands.
pub enum Scan {
    /// The declaration, read up to its closing `?>`.
    Closed(Seq<char>),
    NeedMore(nat),
    Failed(ErrorView),
}

pub enum DetectStep {
    NeedMore(usize),
    Found(Encoding, usize),
    Failed(EncodingError),
}

impl View for DetectStep {
    type V = Detection;

    open spec fn view(&self) -> Detection {
        match self {
            DetectStep::NeedMore(n) => Detection::NeedMore(*n as nat),
            DetectStep::Found(e, b) => Detection::Found(e@, *b as nat),
            DetectStep::Failed(e) => Detection::Failed(e@),
        }
    }
}

pub open spec fn hint_view(h: Option<String>) -> Option<Seq<char>> {
    match h {
        Some(s) => Some(s@),
        None => None,
    }
}

/// `<?xml` followed by one white-space character.
pub open spec fn is_decl_prefix(s: Seq<char>) -> bool {
    &&& s.len() == DECL_PREFIX_CHARS
    &&& s[0] == '<' && s[1] == '?' && s[2] == 'x' && s[3] == 'm' && s[4] == 'l'
    &&& is_white_space(s[5])
}

/// Whether `prefix`, decoded as `label`, opens a declaration.
pub open spec fn has_declaration(label: Seq<char>, prefix: Seq<u8>) -> bool {
    match decoded_with(label, prefix) {
        Some(s) => is_decl_prefix(s),
        None => false,
    }
}

/// Reads the declaration one character width at a time from `pos`, until it
/// closes with `?>` or grows past the cap.
pub open spec fn scan_declaration(
    label: Seq<char>,
    width: nat,
    src: Seq<u8>,
    pos: nat,
    decl: Seq<char>,
) -> Scan
    decreases src.len() - pos,
    when width > 0
{
    if pos + width > src.len() {
        Scan::NeedMore((pos + width - src.len()) as nat)
    } else {
        let chunk = src.subrange(pos as int, (pos + width) as int);
        match decoded_with(label, chunk) {
            None => Scan::Failed(ErrorView::MalformedInput { bytes: chunk, position: pos }),
            Some(t) => {
                let d = decl + t;
                if closes_declaration(d) {
                    Scan::Closed(d)
                } else if d.len() > DECL_CAP {
                    Scan::Failed(ErrorView::MalformedDeclaration)
                } else {
                    scan_declaration(label, width, src, pos + width, d)
                }
            },
        }
    }
}

/// The outcome once the declaration `decl` has been read under the guess.
pub open spec fn declared_outcome(guess: EncodingView, bom: nat, decl: Seq<char>) -> Detection {
    match declared_encoding(decl) {
        None => Detection::Found(guess, bom),
        Some(None) => Detection::Failed(ErrorView::MalformedDeclaration),
        Some(Some(name)) => if guess.definitive() {
            match compatibility(guess, name) {
                Ok(true) => Detection::Found(guess, bom),
                Ok(false) => Detection::Failed(
                    ErrorView::EncodingConflict { detected: guess.name(), declared: name },
                ),
                Err(e) => Detection::Failed(e),
            }
        } else {
            Detection::Found(EncodingView::Declared(name), bom)
        },
    }
}

pub open spec fn scan_outcome(guess: EncodingView, bom: nat, scan: Scan) -> Detection {
    match scan {
        Scan::NeedMore(n) => Detection::NeedMore(n),
        Scan::Failed(e) => Detection::Failed(e),
        Scan::Closed(d) => declared_outcome(guess, bom, d),
    }
}

/// The outcome where no declaration opens the document.
pub open spec fn undeclared_outcome(
    guess: EncodingView,
    bom: nat,
    hint: Option<Seq<char>>,
) -> Detection {
    if guess.definitive() {
        Detection::Found(guess, bom)
    } else {
        match hint {
            Some(name) => match resolve_name(name, true) {
                Ok(e) => Detection::Found(e, bom),
                Err(e) => Detection::Failed(e),
            },
            None => Detection::Failed(ErrorView::AmbiguousInput),
        }
    }
}

/// One detection step on the bytes `src` read so far.
pub open spec fn detect_spec(hint: Option<Seq<char>>, src: Seq<u8>) -> Detection {
    if src.len() < 4 {
        Detection::NeedMore((4 - src.len()) as nat)
    } else {
        match classify_quad(src) {
            Err(e) => Detection::Failed(e),
            Ok((guess, bom)) => {
                let width = guess.char_width();
                let start = bom + DECL_PREFIX_CHARS * width;
                if src.len() < start {
                    Detection::NeedMore((start - src.len()) as nat)
                } else {
                    let label = guess.name();
                    let prefix = src.subrange(bom as int, start as int);
                    if !has_declaration(label, prefix) {
                        undeclared_outcome(guess, bom, hint)
                    } else {
                        scan_outcome(
                            guess,
                            bom,
                            scan_declaration(
                                label,
                                width,
                                src,
                                start as nat,
                                decoded_with(label, prefix)->Some_0,
                            ),
                        )
                    }
                }
            },
        }
    }
}

/// Detection over a whole source `src`, from `k` bytes read: the encoding,
/// the byte-order mark's length, and how many bytes were read in all.
pub open spec fn detect_run(hint: Option<Seq<char>>, src: Seq<u8>, k: nat) -> Result<
    (EncodingView, nat, nat),
    ErrorView,
>
    decreases src.len() - k,
{
    if k > src.len() {
        Err(ErrorView::SourceExhausted)
    } else {
        match detect_spec(hint, src.take(k as int)) {
            Detection::NeedMore(n) => if n > 0 && k + n <= src.len() {
                detect_run(hint, src, k + n)
            } else {
                Err(ErrorView::SourceExhausted)
            },
            Detection::Found(e, bom) => Ok((e, bom, k)),
            Detection::Failed(e) => Err(e),
        }
    }
}

pub open spec fn detection(hint: Option<Seq<char>>, src: Seq<u8>) -> Result<
    (EncodingView, nat, nat),
    ErrorView,
> {
    detect_run(hint, src, 0)
}

pub fn is_declaration_prefix(s: &[char]) -> (r: bool)
    ensures
        r == is_decl_prefix(s@),
{
    s.len() == DECL_PREFIX_CHARS && s[0] == '<' && s[1] == '?' && s[2] == 'x' && s[3] == 'm'
        && s[4] == 'l' && white_space(s[5])
}

/// Settles the encoding once the declaration `decl` has been read in full
/// under the guess: the declared name must fit a definitive guess, and
/// replaces a guess that is not definitive.
pub fn resolve_declaration(guess: &Encoding, bom: usize, decl: &[char]) -> (r: DetectStep)
    ensures
        r@ == declared_outcome(guess@, bom as nat, decl@),
{
    match encoding_value(decl) {
        None => DetectStep::Found(guess.clone_encoding(), bom),
        Some(None) => DetectStep::Failed(EncodingError::MalformedDeclaration),
        Some(Some(name)) => {
            let declared = string_of(name.as_slice());
            if guess.is_definitive() {
                match guess.encoding_decl_is_compatible(declared.as_str()) {
                    Ok(true) => DetectStep::Found(guess.clone_encoding(), bom),
                    Ok(false) => DetectStep::Failed(
                        EncodingError::EncodingConflict { detected: guess.get_name(), declared },
                    ),
                    Err(e) => DetectStep::Failed(e),
                }
            } else {
                DetectStep::Found(Encoding::Declared(declared), bom)
            }
        },
    }
}

/// Decodes `input` with `decoder`, continuing from what the decoder took in
/// before: hands out the complete characters that `input` adds, or fails on
/// a malformed sequence with the input and the count of bytes read up to it.
/// The decoder must be unfinished and must not have met a malformed
/// sequence.
pub fn decoder_helper(decoder: &mut encoding_rs::Decoder, input: &[u8]) -> (r: Result<
    String,
    EncodingError,
>)
    requires
        input@.len() <= MAX_READ,
        decoder_open(*old(decoder)),
        streamed(decoder_label(*old(decoder)), decoder_fed(*old(decoder))) is Some,
    ensures
        decoder_label(*final(decoder)) == decoder_label(*old(decoder)),
        decoder_open(*final(decoder)),
        r is Ok ==> decoder_fed(*final(decoder)) == decoder_fed(*old(decoder)) + input@,
        match streamed(decoder_label(*old(decoder)), decoder_fed(*old(decoder)) + input@) {
            Some(all) => (r matches Ok(text) && streamed(
                decoder_label(*old(decoder)),
                decoder_fed(*old(decoder)),
            ) matches Some(before) && all == before + text@),
            None => (r matches Err(e) && e@ matches ErrorView::MalformedInput { bytes, .. }
                && bytes == input@),
        },
{
    match decode_more(decoder, input) {
        Ok(text) => Ok(string_of(text.as_slice())),
        Err(read) => Err(EncodingError::MalformedInput { bytes: slice_to_vec(input), position: read }),
    }
}

/// One detection step on the bytes `available` read so far from the start
/// of the source.
pub fn detect_step(suggested: &Option<String>, available: &[u8]) -> (r: DetectStep)
    ensures
        r@ == detect_spec(hint_view(*suggested), available@),
        r matches DetectStep::NeedMore(n) ==> n > 0,
        r matches DetectStep::Found(_, b) ==> b <= available@.len(),
{
    let n = available.len();
    if n < 4 {
        return DetectStep::NeedMore(4 - n);
    }
    let (guess, bom) = match Encoding::new_from_buffer(available) {
        Ok(found) => found,
        Err(e) => {
            return DetectStep::Failed(e);
        },
    };
    let width = guess.get_char_width();
    let start = bom + DECL_PREFIX_CHARS * width;
    if n < start {
        return DetectStep::NeedMore(start - n);
    }
    let label = guess.get_name();
    let prefix = slice_subrange(available, bom, start);
    let opening = decode_complete(label.as_str(), prefix);
    let mut decl = match opening {
        Some(t) => {
            if is_declaration_prefix(t.as_slice()) {
                t
            } else {
                return undeclared_step(guess, bom, suggested);
            }
        },
        None => {
            return undeclared_step(guess, bom, suggested);
        },
    };
    let ghost d0 = decl@;
    let ghost hint = hint_view(*suggested);
    assert(detect_spec(hint, available@) == scan_outcome(
        guess@,
        bom as nat,
        scan_declaration(label@, width as nat, available@, start as nat, d0),
    ));
    let mut pos = start;
    loop
        invariant
            start <= pos <= n,
            n == available@.len(),
            width == guess@.char_width(),
            label@ == guess@.name(),
            bom < 4,
            hint == hint_view(*suggested),
            detect_spec(hint, available@) == scan_outcome(
                guess@,
                bom as nat,
                scan_declaration(label@, width as nat, available@, start as nat, d0),
            ),
            scan_declaration(label@, width as nat, available@, pos as nat, decl@)
                == scan_declaration(label@, width as nat, available@, start as nat, d0),
        decreases n - pos,
    {
        if n - pos < width {
            return DetectStep::NeedMore(width - (n - pos));
        }
        let chunk = slice_subrange(available, pos, pos + width);
        match decode_complete(label.as_str(), chunk) {
            None => {
                return DetectStep::Failed(
                    EncodingError::MalformedInput { bytes: slice_to_vec(chunk), position: pos },
                );
            },
            Some(t) => {
                let mut t = t;
                decl.append(&mut t);
                if ends_declaration(decl.as_slice()) {
                    return resolve_declaration(&guess, bom, decl.as_slice());
                }
                if decl.len() > DECL_CAP {
                    return DetectStep::Failed(EncodingError::MalformedDeclaration);
                }
                pos = pos + width;
            },
        }
    }
}

fn undeclared_step(guess: Encoding, bom: usize, suggested: &Option<String>) -> (r: DetectStep)
    ensures
        r@ == undeclared_outcome(guess@, bom as nat, hint_view(*suggested)),
{
    if guess.is_definitive() {
        return DetectStep::Found(guess, bom);
    }
    match suggested {
        Some(name) => match Encoding::new_from_name(name.as_str(), true) {
            Ok(e) => DetectStep::Found(e, bom),
            Err(e) => DetectStep::Failed(e),
        },
        None => DetectStep::Failed(EncodingError::AmbiguousInput),
    }
}

/// Detects the encoding of the byte source `source`: returns the encoding
/// and the bytes read to decide it, after any byte-order mark. Reads 4
/// bytes, then up to the width of `<?xml `, then one character at a time
/// through the declaration.
pub fn detect_encoding_with_suggestion(suggested_encoding: Option<String>, source: &[u8]) -> (r:
    Result<(Encoding, Vec<u8>), EncodingError>)
    ensures
        match detection(hint_view(suggested_encoding), source@) {
            Ok((e, bom, k)) => (r matches Ok((enc, pre)) && enc@ == e && pre@ == source@.subrange(
                bom as int,
                k as int,
            )),
            Err(v) => (r matches Err(err) && err@ == v),
        },
{
    let ghost hint = hint_view(suggested_encoding);
    let mut k: usize = 0;
    loop
        invariant
            k <= source@.len(),
            hint == hint_view(suggested_encoding),
            detect_run(hint, source@, 0) == detect_run(hint, source@, k as nat),
        decreases source@.len() - k,
    {
        let read = slice_subrange(source, 0, k);
        assert(read@ == source@.take(k as int));
        match detect_step(&suggested_encoding, read) {
            DetectStep::NeedMore(more) => {
                if more <= source.len() - k {
                    k = k + more;
                } else {
                    return Err(EncodingError::SourceExhausted);
                }
            },
            DetectStep::Found(e, bom) => {
                return Ok((e, slice_to_vec(slice_subrange(source, bom, k))));
            },
            DetectStep::Failed(e) => {
                return Err(e);
            },
        }
    }
}

proof fn lemma_scan_prefix(
    label: Seq<char>,
    width: nat,
    src: Seq<u8>,
    k: nat,
    pos: nat,
    decl: Seq<char>,
)
    requires
        width > 0,
        k <= src.len(),
    ensures
        ({
            let early = scan_declaration(label, width, src.take(k as int), pos, decl);
            let full = scan_declaration(label, width, src, pos, decl);
            &&& !(early is NeedMore) ==> early == full
            &&& early is NeedMore ==> early->NeedMore_0 > 0
            &&& early is NeedMore && !(full is NeedMore) ==> k + early->NeedMore_0 <= src.len()
        }),
    decreases k - pos,
{
    let read = src.take(k as int);
    if pos + width <= k {
        let chunk = src.subrange(pos as int, (pos + width) as int);
        assert(read.subrange(pos as int, (pos + width) as int) =~= chunk);
        match decoded_with(label, chunk) {
            Some(t) => {
                let d = decl + t;
                if !closes_declaration(d) && d.len() <= DECL_CAP {
                    lemma_scan_prefix(label, width, src, k, pos + width, d);
                }
            },
            None => {},
        }
    }
}

proof fn lemma_step_prefix(hint: Option<Seq<char>>, src: Seq<u8>, k: nat)
    requires
        k <= src.len(),
    ensures
        ({
            let early = detect_spec(hint, src.take(k as int));
            let full = detect_spec(hint, src);
            &&& !(early is NeedMore) ==> early == full
            &&& early is NeedMore ==> early->NeedMore_0 > 0
            &&& early is NeedMore && !(full is NeedMore) ==> k + early->NeedMore_0
                <= src.len()
        }),
{
    let read = src.take(k as int);
    if k >= 4 {
        assert(read[0] == src[0] && read[1] == src[1] && read[2] == src[2] && read[3] == src[3]);
        assert(classify_quad(read) == classify_quad(src));
        match classify_quad(src) {
            Ok((guess, bom)) => {
                let width = guess.char_width();
                let start = bom + DECL_PREFIX_CHARS * width;
                if k >= start {
                    let label = guess.name();
                    let prefix = src.subrange(bom as int, start as int);
                    assert(read.subrange(bom as int, start as int) =~= prefix);
                    if has_declaration(label, prefix) {
                        lemma_scan_prefix(
                            label,
                            width,
                            src,
                            k,
                            start as nat,
                            decoded_with(label, prefix)->Some_0,
                        );
                    }
                }
            },
            Err(_) => {},
        }
    }
}

proof fn lemma_run_settles(hint: Option<Seq<char>>, src: Seq<u8>, k: nat)
    requires
        k <= src.len(),
        !(detect_spec(hint, src) is NeedMore),
    ensures
        match detect_spec(hint, src) {
            Detection::Found(e, b) => (detect_run(hint, src, k) matches Ok((e2, b2, n)) && e2
                == e && b2 == b && k <= n <= src.len()),
            Detection::Failed(err) => detect_run(hint, src, k) == Err::<
                (EncodingView, nat, nat),
                ErrorView,
            >(err),
            Detection::NeedMore(_) => true,
        },
    decreases src.len() - k,
{
    lemma_step_prefix(hint, src, k);
    match detect_spec(hint, src.take(k as int)) {
        Detection::NeedMore(n) => {
            lemma_run_settles(hint, src, k + n);
        },
        _ => {},
    }
}

/// Reading a source step by step settles where one step over the whole
/// source settles, on the same outcome: no step asks for more bytes than
/// the source holds, and a step on fewer bytes never decides otherwise.
pub proof fn lemma_detection_settles(hint: Option<Seq<char>>, src: Seq<u8>)
    requires
        !(detect_spec(hint, src) is NeedMore),
    ensures
        match detect_spec(hint, src) {
            Detection::Found(e, b) => (detection(hint, src) matches Ok((e2, b2, n)) && e2 == e
                && b2 == b && n <= src.len()),
            Detection::Failed(err) => detection(hint, src) == Err::<
                (EncodingView, nat, nat),
                ErrorView,
            >(err),
            Detection::NeedMore(_) => true,
        },
{
    lemma_run_settles(hint, src, 0);
}

/// Whether the text after a byte-order mark leaves the mark's encoding
/// standing: it opens no declaration, or a declaration that closes and
/// declares no encoding or one that fits the mark's.
pub open spec fn declaration_agrees(mark: EncodingView, bom: nat, src: Seq<u8>) -> bool {
    let width = mark.char_width();
    let start = bom + DECL_PREFIX_CHARS * width;
    let label = mark.name();
    let prefix = src.subrange(bom as int, start as int);
    &&& src.len() >= start
    &&& has_declaration(label, prefix) ==> match scan_declaration(
        label,
        width,
        src,
        start as nat,
        decoded_with(label, prefix)->Some_0,
    ) {
        Scan::Closed(d) => match declared_encoding(d) {
            None => true,
            Some(None) => false,
            Some(Some(name)) => compatibility(mark, name) == Ok::<bool, ErrorView>(true),
        },
        _ => false,
    }
}

/// A byte-order mark that no declaration contradicts is taken: detection
/// settles on the mark's encoding, definitive, and leaves out exactly the
/// mark's bytes, whatever the hint.
pub proof fn lemma_bom_taken(hint: Option<Seq<char>>, src: Seq<u8>)
    requires
        src.len() >= 4,
        bom_of(src) is Some,
        declaration_agrees(bom_of(src)->Some_0.0, bom_of(src)->Some_0.1, src),
    ensures
        bom_of(src)->Some_0.0.definitive(),
        (detection(hint, src) matches Ok((e, b, n)) && (e, b) == bom_of(src)->Some_0 && b <= n
            <= src.len()),
{
    let mark = bom_of(src)->Some_0.0;
    let bom = bom_of(src)->Some_0.1;
    assert(detect_spec(hint, src) == Detection::Found(mark, bom));
    lemma_detection_settles(hint, src);
    lemma_bom_decides(hint, src);
}

/// The chunk of `width` bytes at `at` decodes to one character, not `>`.
pub open spec fn plain_char_at(label: Seq<char>, src: Seq<u8>, at: int, width: nat) -> bool {
    decoded_with(label, src.subrange(at, at + width)) matches Some(t) && t.len()
        == 1 && t[0] != '>'
}

proof fn lemma_scan_runs_past_cap(
    label: Seq<char>,
    width: nat,
    src: Seq<u8>,
    pos: nat,
    decl: Seq<char>,
)
    requires
        width > 0,
        decl.len() <= DECL_CAP,
        pos + (DECL_CAP + 1 - decl.len()) * width <= src.len(),
        forall|j: nat|
            j <= DECL_CAP - decl.len() ==> #[trigger] plain_char_at(
                label,
                src,
                (pos + j * width) as int,
                width,
            ),
    ensures
        scan_declaration(label, width, src, pos, decl) == Scan::Failed(
            ErrorView::MalformedDeclaration,
        ),
    decreases DECL_CAP + 1 - decl.len(),
{
    let left = (DECL_CAP + 1 - decl.len()) as nat;
    assert(left * width >= width) by (nonlinear_arith)
        requires
            left >= 1,
            width > 0,
    ;
    assert(plain_char_at(label, src, (pos + 0 * width) as int, width));
    assert(pos + 0 * width == pos);
    let chunk = src.subrange(pos as int, (pos + width) as int);
    let t = decoded_with(label, chunk)->Some_0;
    let d = decl + t;
    assert(d.last() == t[0]);
    if d.len() <= DECL_CAP {
        assert(pos + width + (DECL_CAP + 1 - d.len()) * width == pos + left * width)
            by (nonlinear_arith)
            requires
                d.len() == decl.len() + 1,
                left == DECL_CAP + 1 - decl.len(),
        ;
        assert forall|j: nat| j <= DECL_CAP - d.len() implies #[trigger] plain_char_at(
            label,
            src,
            (pos + width + j * width) as int,
            width,
        ) by {
            assert(pos + width + j * width == pos + (j + 1) * width) by (nonlinear_arith);
            assert(plain_char_at(label, src, (pos + (j + 1) as nat * width) as int, width));
        }
        lemma_scan_runs_past_cap(label, width, src, pos + width, d);
    }
}

/// A declaration that runs on past the cap without closing is refused:
/// where the opening `<?xml ` is followed, for longer than the cap allows, by
/// characters of one character width each, none of them `>`, detection fails
/// as a malformed declaration, whatever the hint.
pub proof fn lemma_unclosed_declaration_refused(
    hint: Option<Seq<char>>,
    src: Seq<u8>,
    guess: EncodingView,
    bom: nat,
)
    requires
        src.len() >= 4,
        classify_quad(src) == Ok::<(EncodingView, nat), ErrorView>((guess, bom)),
        has_declaration(
            guess.name(),
            src.subrange(bom as int, (bom + DECL_PREFIX_CHARS * guess.char_width()) as int),
        ),
        bom + DECL_PREFIX_CHARS * guess.char_width() + (DECL_CAP + 1 - DECL_PREFIX_CHARS)
            * guess.char_width() <= src.len(),
        forall|j: nat|
            j <= DECL_CAP - DECL_PREFIX_CHARS ==> #[trigger] plain_char_at(
                guess.name(),
                src,
                bom + DECL_PREFIX_CHARS * guess.char_width() + j * guess.char_width(),
                guess.char_width(),
            ),
    ensures
        detection(hint, src) == Err::<(EncodingView, nat, nat), ErrorView>(
            ErrorView::MalformedDeclaration,
        ),
{
    let width = guess.char_width();
    let start = bom + DECL_PREFIX_CHARS * width;
    let label = guess.name();
    let prefix = src.subrange(bom as int, start as int);
    let d0 = decoded_with(label, prefix)->Some_0;
    lemma_scan_runs_past_cap(label, width, src, start as nat, d0);
    assert(detect_spec(hint, src) == Detection::Failed(ErrorView::MalformedDeclaration));
    lemma_detection_settles(hint, src);
}

/// The encoding and length of a byte-order mark at the start of `q`.
pub open spec fn bom_of(q: Seq<u8>) -> Option<(EncodingView, nat)> {
    if q[0] == 0xEF && q[1] == 0xBB && q[2] == 0xBF {
        Some((EncodingView::Utf8(true), 3))
    } else if q[0] == 0xFF && q[1] == 0xFE && q[2] != 0 && q[3] == 0 {
        Some((EncodingView::Utf16Le(true), 2))
    } else if q[0] == 0xFE && q[1] == 0xFF && q[2] == 0 && q[3] != 0 {
        Some((EncodingView::Utf16Be(true), 2))
    } else {
        None
    }
}

proof fn lemma_bom_step(hint: Option<Seq<char>>, src: Seq<u8>, mark: EncodingView, len: nat)
    requires
        src.len() >= 4,
        bom_of(src) == Some((mark, len)),
    ensures
        detect_spec(hint, src) matches Detection::Found(e, b) ==> e == mark && b == len,
{
}

proof fn lemma_bom_run(hint: Option<Seq<char>>, src: Seq<u8>, k: nat)
    requires
        src.len() >= 4,
        bom_of(src) is Some,
    ensures
        detect_run(hint, src, k) matches Ok((e, b, n)) ==> (e, b) == bom_of(src)->Some_0 && b
            <= n <= src.len(),
    decreases src.len() - k,
{
    if k <= src.len() {
        let read = src.take(k as int);
        if k >= 4 {
            assert(bom_of(read) == bom_of(src));
            lemma_bom_step(hint, read, bom_of(src)->Some_0.0, bom_of(src)->Some_0.1);
        }
        match detect_spec(hint, read) {
            Detection::NeedMore(m) => {
                if m > 0 && k + m <= src.len() {
                    lemma_bom_run(hint, src, k + m);
                }
            },
            _ => {},
        }
    }
}

/// A byte-order mark decides: where a source opens with one, detection
/// either fails or settles on the mark's encoding, marked definitive, with
/// exactly the mark's bytes left out of what it hands on.
pub proof fn lemma_bom_decides(hint: Option<Seq<char>>, src: Seq<u8>)
    requires
        src.len() >= 4,
        bom_of(src) is Some,
    ensures
        classify_quad(src) == Ok::<(EncodingView, nat), ErrorView>(bom_of(src)->Some_0),
        bom_of(src)->Some_0.0.definitive(),
        detection(hint, src) matches Ok((e, b, n)) ==> (e, b) == bom_of(src)->Some_0 && b <= n
            <= src.len(),
{
    lemma_bom_run(hint, src, 0);
}

/// With no byte-order mark, no declaration and no hint, detection fails as
/// ambiguous. This holds where the first four bytes hold no zero byte (a
/// zero byte means a UTF-16 pattern, accepted as definitive, or an
/// unsupported one) and the source is long enough to show the declaration's
/// opening.
pub proof fn lemma_no_signal_is_ambiguous(src: Seq<u8>)
    requires
        src.len() >= DECL_PREFIX_CHARS,
        src[0] != 0 && src[1] != 0 && src[2] != 0 && src[3] != 0,
        bom_of(src) is None,
        !has_declaration(utf8_name(), src.subrange(0, DECL_PREFIX_CHARS as int)),
    ensures
        detection(None, src) == Err::<(EncodingView, nat, nat), ErrorView>(
            ErrorView::AmbiguousInput,
        ),
{
    let six = DECL_PREFIX_CHARS as nat;
    assert(src.take(0).len() == 0);
    assert(detect_spec(None, src.take(0)) == Detection::NeedMore(4));
    assert(detect_run(None, src, 0) == detect_run(None, src, 4));
    let four = src.take(4);
    assert(classify_quad(four) == Ok::<(EncodingView, nat), ErrorView>(
        (EncodingView::Utf8(false), 0),
    ));
    assert(detect_spec(None, four) == Detection::NeedMore(2));
    assert(detect_run(None, src, 4) == detect_run(None, src, six));
    let read = src.take(six as int);
    assert(read.subrange(0, six as int) =~= src.subrange(0, six as int));
    assert(classify_quad(read) == Ok::<(EncodingView, nat), ErrorView>(
        (EncodingView::Utf8(false), 0),
    ));
    assert(detect_spec(None, read) == Detection::Failed(ErrorView::AmbiguousInput));
}

} // verus!
