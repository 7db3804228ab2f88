//! End-of-line normalization, with one carried flag so that a CR/LF pair
//! split between two chunks still collapses into a single line feed.
use vstd::prelude::*;

verus! {

pub const CR: char = '\r';

pub const LF: char = '\n';

pub const NEL: char = '\u{85}';

pub const LS: char = '\u{2028}';

/// What one character becomes, and whether a carriage return is now pending.
pub open spec fn eol_step(c: char, pending_cr: bool) -> (Seq<char>, bool) {
    if c == CR {
        (seq![LF], true)
    } else if c == LF || c == NEL {
        if pending_cr {
            (Seq::empty(), false)
        } else {
            (seq![LF], false)
        }
    } else if c == LS {
        (seq![LF], false)
    } else {
        (seq![c], false)
    }
}

/// The normalized text of `s` and the pending-CR flag after it, starting
/// from the flag `pending_cr`.
pub open spec fn normalize_eol_spec(s: Seq<char>, pending_cr: bool) -> (Seq<char>, bool)
    decreases s.len(),
{
    if s.len() == 0 {
        (Seq::empty(), pending_cr)
    } else {
        let prev = normalize_eol_spec(s.drop_last(), pending_cr);
        let step = eol_step(s.last(), prev.1);
        (prev.0 + step.0, step.1)
    }
}

/// Text in which no line break other than a line feed remains.
pub open spec fn is_normalized(s: Seq<char>) -> bool {
    forall|i: int| 0 <= i < s.len() ==> s[i] != CR && s[i] != NEL && s[i] != LS
}

/// Normalizes the line endings of `text`: CR becomes LF; an LF or NEL right
/// after a CR is dropped, elsewhere it becomes LF; LS becomes LF. The flag
/// says whether the character before `text` was a CR; the second result says
/// whether the last character of `text` was one.
pub fn normalize_line_endings(text: &[char], pending_cr: bool) -> (r: (Vec<char>, bool))
    ensures
        (r.0@, r.1) == normalize_eol_spec(text@, pending_cr),
{
    let mut out: Vec<char> = Vec::new();
    let mut pending = pending_cr;
    let mut i: usize = 0;
    while i < text.len()
        invariant
            i <= text@.len(),
            (out@, pending) == normalize_eol_spec(text@.take(i as int), pending_cr),
        decreases text@.len() - i,
    {
        let c = text[i];
        assert(text@.take(i + 1).drop_last() =~= text@.take(i as int));
        if c == CR {
            out.push(LF);
            pending = true;
        } else if c == LF || c == NEL {
            if !pending {
                out.push(LF);
            }
            pending = false;
        } else if c == LS {
            out.push(LF);
            pending = false;
        } else {
            out.push(c);
            pending = false;
        }
        i = i + 1;
        assert(out@ =~= normalize_eol_spec(text@.take(i as int), pending_cr).0);
    }
    assert(text@.take(i as int) =~= text@);
    (out, pending)
}

/// Normalizing two pieces one after the other, carrying the flag between
/// them, gives the same text and flag as normalizing them joined.
pub proof fn lemma_normalize_split(a: Seq<char>, b: Seq<char>, pending_cr: bool)
    ensures
        ({
            let first = normalize_eol_spec(a, pending_cr);
            let second = normalize_eol_spec(b, first.1);
            normalize_eol_spec(a + b, pending_cr) == (first.0 + second.0, second.1)
        }),
    decreases b.len(),
{
    if b.len() == 0 {
        assert(a + b =~= a);
        assert(normalize_eol_spec(a, pending_cr).0 + Seq::<char>::empty() =~= normalize_eol_spec(
            a,
            pending_cr,
        ).0);
    } else {
        assert((a + b).drop_last() =~= a + b.drop_last());
        assert((a + b).last() == b.last());
        lemma_normalize_split(a, b.drop_last(), pending_cr);
        let first = normalize_eol_spec(a, pending_cr);
        let mid = normalize_eol_spec(b.drop_last(), first.1);
        let step = eol_step(b.last(), mid.1);
        assert(first.0 + mid.0 + step.0 =~= first.0 + (mid.0 + step.0));
    }
}

/// The normalized text holds no CR, NEL or LS.
pub proof fn lemma_normalize_output_is_normalized(s: Seq<char>, pending_cr: bool)
    ensures
        is_normalized(normalize_eol_spec(s, pending_cr).0),
    decreases s.len(),
{
    if s.len() > 0 {
        lemma_normalize_output_is_normalized(s.drop_last(), pending_cr);
        let prev = normalize_eol_spec(s.drop_last(), pending_cr);
        let step = eol_step(s.last(), prev.1);
        assert forall|i: int| 0 <= i < (prev.0 + step.0).len() implies (prev.0 + step.0)[i] != CR
            && (prev.0 + step.0)[i] != NEL && (prev.0 + step.0)[i] != LS by {
            if i >= prev.0.len() {
                assert(step.0[i - prev.0.len()] != CR);
            }
        }
    }
}

/// Text that is already normalized comes back unchanged, with no CR pending.
pub proof fn lemma_normalize_fixes_normalized(s: Seq<char>)
    requires
        is_normalized(s),
    ensures
        normalize_eol_spec(s, false) == (s, false),
    decreases s.len(),
{
    if s.len() > 0 {
        assert(is_normalized(s.drop_last()));
        lemma_normalize_fixes_normalized(s.drop_last());
        assert(s.drop_last().push(s.last()) =~= s);
    }
}

/// Normalizing a second time changes nothing.
pub proof fn lemma_normalize_idempotent(s: Seq<char>)
    ensures
        normalize_eol_spec(normalize_eol_spec(s, false).0, false) == (
            normalize_eol_spec(s, false).0,
            false,
        ),
{
    lemma_normalize_output_is_normalized(s, false);
    lemma_normalize_fixes_normalized(normalize_eol_spec(s, false).0);
}

} // verus!
