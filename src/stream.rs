//! Streaming a file's content: CR/LF normalisation and UTF-8-safe lossy
//! emission across chunk boundaries, under an optional byte cap.
use vstd::prelude::*;

verus! {

/// The carriage return byte.
pub const CR: u8 = 13;

/// The line feed byte.
pub const LF: u8 = 10;

/// The size of one read.
pub const STREAM_CHUNK_SIZE: usize = 16384;

/// The text that `String::from_utf8_lossy` makes of some bytes.
pub uninterp spec fn lossy_of(bytes: Seq<u8>) -> Seq<char>;

/// Relies on String::from_utf8_lossy: valid UTF-8 is decoded as it is, and
/// each invalid sequence becomes U+FFFD, so a carriage return character can
/// only come from a carriage return byte.
#[verifier::external_body]
pub(crate) fn lossy_text(bytes: &[u8]) -> (r: String)
    ensures
        r@ == lossy_of(bytes@),
        vstd::utf8::valid_utf8(bytes@) ==> r@ == vstd::utf8::decode_utf8(bytes@),
        !bytes@.contains(CR) ==> !r@.contains('\r'),
        bytes@.len() == 0 ==> r@.len() == 0,
{
    String::from_utf8_lossy(bytes).into_owned()
}

/// Newline normalisation of a whole byte stream: `\r\n` and a bare `\r` both
/// become `\n`.
pub open spec fn norm_nl(s: Seq<u8>) -> Seq<u8>
    decreases s.len(),
{
    if s.len() == 0 {
        s
    } else if s[0] == CR {
        if s.len() > 1 && s[1] == LF {
            seq![LF] + norm_nl(s.subrange(2, s.len() as int))
        } else {
            seq![LF] + norm_nl(s.subrange(1, s.len() as int))
        }
    } else {
        seq![s[0]] + norm_nl(s.subrange(1, s.len() as int))
    }
}

/// A carriage return held back from the end of the last chunk.
pub open spec fn held(pending_cr: bool) -> Seq<u8> {
    if pending_cr {
        seq![CR]
    } else {
        Seq::empty()
    }
}

/// Normalised text never holds a carriage return.
pub proof fn lemma_norm_nl_has_no_cr(s: Seq<u8>)
    ensures
        !norm_nl(s).contains(CR),
    decreases s.len(),
{
    if s.len() > 0 {
        if s[0] == CR && s.len() > 1 && s[1] == LF {
            lemma_norm_nl_has_no_cr(s.subrange(2, s.len() as int));
        } else {
            lemma_norm_nl_has_no_cr(s.subrange(1, s.len() as int));
        }
        let n = norm_nl(s);
        if n.contains(CR) {
            let k = choose|k: int| 0 <= k < n.len() && n[k] == CR;
            if s[0] == CR && s.len() > 1 && s[1] == LF {
                assert(n[k] == norm_nl(s.subrange(2, s.len() as int))[k - 1]);
            } else {
                assert(n[k] == norm_nl(s.subrange(1, s.len() as int))[k - 1]);
            }
        }
    }
}

/// Normalisation never lengthens a stream.
pub proof fn lemma_norm_nl_len(s: Seq<u8>)
    ensures
        norm_nl(s).len() <= s.len(),
    decreases s.len(),
{
    if s.len() > 0 {
        if s[0] == CR && s.len() > 1 && s[1] == LF {
            lemma_norm_nl_len(s.subrange(2, s.len() as int));
        } else {
            lemma_norm_nl_len(s.subrange(1, s.len() as int));
        }
    }
}

proof fn lemma_norm_step(s: Seq<u8>, t: Seq<u8>, i: int)
    requires
        0 <= i < s.len(),
    ensures
        s[i] != CR ==> norm_nl(s.subrange(i, s.len() as int) + t) == seq![s[i]] + norm_nl(
            s.subrange(i + 1, s.len() as int) + t,
        ),
        s[i] == CR && i + 1 < s.len() && s[i + 1] == LF ==> norm_nl(s.subrange(i, s.len() as int) + t)
            == seq![LF] + norm_nl(s.subrange(i + 2, s.len() as int) + t),
        s[i] == CR && i + 1 < s.len() && s[i + 1] != LF ==> norm_nl(s.subrange(i, s.len() as int) + t)
            == seq![LF] + norm_nl(s.subrange(i + 1, s.len() as int) + t),
        s[i] == CR && i + 1 == s.len() ==> norm_nl(s.subrange(i, s.len() as int) + t) == norm_nl(
            held(true) + t,
        ),
{
    let u = s.subrange(i, s.len() as int) + t;
    assert(u.subrange(1, u.len() as int) =~= s.subrange(i + 1, s.len() as int) + t);
    if i + 1 < s.len() {
        assert(u.subrange(2, u.len() as int) =~= s.subrange(i + 2, s.len() as int) + t);
    }
    if i + 1 == s.len() && s[i] == CR {
        assert(s.subrange(i, s.len() as int) =~= seq![CR]);
        assert(u =~= held(true) + t);
    }
}

/// What normalising a non-empty chunk emits, given whether a carriage
/// return was held from the chunk before: the normalisation of the held
/// byte and the chunk, less the line feed of a carriage return that ends the
/// chunk (that one is held in turn).
pub open spec fn chunk_out(pending_cr: bool, chunk: Seq<u8>) -> Seq<u8> {
    let n = norm_nl(held(pending_cr) + chunk);
    if chunk.last() == CR {
        n.drop_last()
    } else {
        n
    }
}

/// Normalises one chunk. `pending_cr` carries a carriage return that ended
/// the previous chunk. A non-empty chunk emits `chunk_out` and holds a
/// carriage return exactly when it ends in one; for every continuation `t`
/// of the stream, what it emitted followed by the normalisation of what is
/// held and `t` is the normalisation of what was held, the chunk and `t`.
/// An empty chunk ends a held carriage return as a line feed.
pub fn normalize_newline_bytes(input: &[u8], pending_cr: &mut bool, output: &mut Vec<u8>)
    ensures
        old(output)@.is_prefix_of(final(output)@),
        !final(output)@.subrange(old(output)@.len() as int, final(output)@.len() as int).contains(CR),
        input@.len() > 0 ==> final(output)@ == old(output)@ + chunk_out(*old(pending_cr), input@),
        input@.len() > 0 ==> *final(pending_cr) == (input@.last() == CR),
        input@.len() > 0 ==> forall|t: Seq<u8>|
            norm_nl(held(*old(pending_cr)) + input@ + t) == final(output)@.subrange(
                old(output)@.len() as int,
                final(output)@.len() as int,
            ) + #[trigger] norm_nl(held(*final(pending_cr)) + t),
        input@.len() == 0 ==> !*final(pending_cr) && final(output)@ == old(output)@ + held_as_lf(
            *old(pending_cr),
        ),
{
    let ghost out0 = output@;
    let ghost p0 = *pending_cr;
    if input.len() == 0 {
        if *pending_cr {
            output.push(LF);
            *pending_cr = false;
        }
        proof {
            assert(output@ =~= out0 + held_as_lf(p0));
            assert(output@.subrange(out0.len() as int, output@.len() as int) =~= held_as_lf(p0));
            assert(out0.is_prefix_of(output@));
        }
        return;
    }
    normalize_chunk(input, pending_cr, output);
    proof {
        let s = input@;
        let d = output@.subrange(out0.len() as int, output@.len() as int);
        let e = Seq::<u8>::empty();
        assert(norm_nl(held(p0) + s + e) == d + norm_nl(held(*pending_cr) + e));
        assert(held(p0) + s + e =~= held(p0) + s);
        assert(held(*pending_cr) + e =~= held(*pending_cr));
        lemma_norm_held(*pending_cr);
        lemma_norm_nl_has_no_cr(held(p0) + s);
        if d.contains(CR) {
            let k = choose|k: int| 0 <= k < d.len() && d[k] == CR;
            assert(norm_nl(held(p0) + s)[k] == CR);
        }
        assert(d =~= chunk_out(p0, s));
        assert(output@ =~= out0 + d);
    }
}

/// A held carriage return, ended as a line feed.
pub open spec fn held_as_lf(pending_cr: bool) -> Seq<u8> {
    if pending_cr {
        seq![LF]
    } else {
        Seq::empty()
    }
}

proof fn lemma_norm_held(p: bool)
    ensures
        norm_nl(held(p)) == held_as_lf(p),
{
    if p {
        assert(held(true).subrange(1, 1) =~= Seq::<u8>::empty());
        assert(norm_nl(Seq::<u8>::empty()) =~= Seq::<u8>::empty());
        assert(norm_nl(held(true)) =~= seq![LF]);
    } else {
        assert(norm_nl(held(false)) =~= Seq::<u8>::empty());
    }
}

fn normalize_chunk(input: &[u8], pending_cr: &mut bool, output: &mut Vec<u8>)
    requires
        input@.len() > 0,
    ensures
        old(output)@.is_prefix_of(final(output)@),
        *final(pending_cr) == (input@.last() == CR),
        forall|t: Seq<u8>|
            norm_nl(held(*old(pending_cr)) + input@ + t) == final(output)@.subrange(
                old(output)@.len() as int,
                final(output)@.len() as int,
            ) + #[trigger] norm_nl(held(*final(pending_cr)) + t),
{
    let ghost out0 = output@;
    let ghost p0 = *pending_cr;
    let ghost s = input@;
    let mut index: usize = 0;
    if *pending_cr {
        output.push(LF);
        if input[0] == LF {
            index = 1;
        }
        *pending_cr = false;
        proof {
            assert forall|t: Seq<u8>| norm_nl(held(p0) + s + t) == seq![LF] + #[trigger] norm_nl(
                s.subrange(index as int, s.len() as int) + t,
            ) by {
                let u = held(p0) + s + t;
                if index == 1 {
                    assert(u.subrange(2, u.len() as int) =~= s.subrange(1, s.len() as int) + t);
                } else {
                    assert(u.subrange(1, u.len() as int) =~= s.subrange(0, s.len() as int) + t);
                }
            }
        }
    } else {
        proof {
            assert forall|t: Seq<u8>| norm_nl(held(p0) + s + t) == Seq::<u8>::empty() + #[trigger] norm_nl(
                s.subrange(index as int, s.len() as int) + t,
            ) by {
                assert(held(p0) + s + t =~= s.subrange(0, s.len() as int) + t);
            }
        }
    }
    let ghost first = output@.subrange(out0.len() as int, output@.len() as int);
    assert(output@ =~= out0 + first);
    while index < input.len()
        invariant
            index <= input.len(),
            s == input@,
            out0 == old(output)@,
            p0 == *old(pending_cr),
            !*pending_cr,
            index == input.len() && index > 0 ==> input@[index - 1] != CR,
            output@.len() >= out0.len(),
            output@ == out0 + output@.subrange(out0.len() as int, output@.len() as int),
            forall|t: Seq<u8>|
                norm_nl(held(p0) + s + t) == output@.subrange(out0.len() as int, output@.len() as int)
                    + #[trigger] norm_nl(s.subrange(index as int, s.len() as int) + t),
        decreases input.len() - index,
    {
        let ghost e0 = output@.subrange(out0.len() as int, output@.len() as int);
        let ghost i0 = index as int;
        let byte = input[index];
        if byte == CR {
            if index + 1 < input.len() {
                if input[index + 1] == LF {
                    index = index + 1;
                }
                output.push(LF);
            } else {
                *pending_cr = true;
            }
        } else {
            output.push(byte);
        }
        index = index + 1;
        if *pending_cr {
            proof {
                let e1 = output@.subrange(out0.len() as int, output@.len() as int);
                assert(e1 =~= e0);
                assert forall|t: Seq<u8>| norm_nl(held(p0) + s + t) == e1 + #[trigger] norm_nl(
                    held(true) + t,
                ) by {
                    lemma_norm_step(s, t, i0);
                    assert(s.subrange(index as int, s.len() as int) + t =~= t);
                }
                assert(output@ =~= out0 + e1);
                assert(out0.is_prefix_of(output@));
            }
            return;
        }
        proof {
            let e1 = output@.subrange(out0.len() as int, output@.len() as int);
            assert forall|t: Seq<u8>| norm_nl(held(p0) + s + t) == e1 + #[trigger] norm_nl(
                s.subrange(index as int, s.len() as int) + t,
            ) by {
                lemma_norm_step(s, t, i0);
                if byte == CR {
                    assert(e1 =~= e0 + seq![LF]);
                } else {
                    assert(e1 =~= e0 + seq![byte]);
                }
            }
            assert(output@ =~= out0 + e1);
        }
    }
    proof {
        let e1 = output@.subrange(out0.len() as int, output@.len() as int);
        assert forall|t: Seq<u8>| norm_nl(held(p0) + s + t) == e1 + #[trigger] norm_nl(
            held(*pending_cr) + t,
        ) by {
            assert(s.subrange(index as int, s.len() as int) + t =~= held(false) + t);
        }
        assert(output@ == out0 + e1);
        assert(out0.is_prefix_of(output@));
    }
}


/// A continuation byte.
pub open spec fn is_cont(b: u8) -> bool {
    0x80 <= b && b <= 0xBF
}

/// Whether the second byte of a sequence led by `b0` is allowed (no overlong
/// form, no surrogate, nothing above U+10FFFF).
pub open spec fn second_ok(b0: u8, b1: u8) -> bool {
    if b0 == 0xE0 {
        0xA0 <= b1 && b1 <= 0xBF
    } else if b0 == 0xED {
        0x80 <= b1 && b1 <= 0x9F
    } else if b0 == 0xF0 {
        0x90 <= b1 && b1 <= 0xBF
    } else if b0 == 0xF4 {
        0x80 <= b1 && b1 <= 0x8F
    } else {
        is_cont(b1)
    }
}

/// The length of the well-formed UTF-8 sequence that a lead byte opens
/// (0 for a byte that cannot lead one).
pub open spec fn lead_width(b0: u8) -> nat {
    if 0xC2 <= b0 <= 0xDF {
        2
    } else if 0xE0 <= b0 <= 0xEF {
        3
    } else if 0xF0 <= b0 <= 0xF4 {
        4
    } else {
        0
    }
}

/// `t` is a proper, non-empty prefix of a well-formed UTF-8 sequence
/// (Unicode's table of well-formed byte sequences): more bytes could still
/// complete it.
pub open spec fn incomplete_seq(t: Seq<u8>) -> bool {
    &&& 1 <= t.len() < lead_width(t[0])
    &&& t.len() >= 2 ==> second_ok(t[0], t[1])
    &&& t.len() >= 3 ==> is_cont(t[2])
}

/// The length of the incomplete sequence that ends `b` (0 when there is
/// none): those bytes are held back until the next chunk.
pub open spec fn tail_len(b: Seq<u8>) -> nat {
    if b.len() >= 1 && incomplete_seq(b.subrange(b.len() - 1, b.len() as int)) {
        1
    } else if b.len() >= 2 && incomplete_seq(b.subrange(b.len() - 2, b.len() as int)) {
        2
    } else if b.len() >= 3 && incomplete_seq(b.subrange(b.len() - 3, b.len() as int)) {
        3
    } else {
        0
    }
}

fn is_incomplete_at(b: &Vec<u8>, k: usize) -> (r: bool)
    requires
        1 <= k <= 3,
        k <= b.len(),
    ensures
        r == incomplete_seq(b@.subrange(b.len() - k, b.len() as int)),
{
    let ghost t = b@.subrange(b.len() - k, b.len() as int);
    let s = b.len() - k;
    let b0 = b[s];
    assert(t[0] == b0);
    let second = |b1: u8| -> (ok: bool)
        ensures
            ok == second_ok(b0, b1),
        {
            if b0 == 0xE0 {
                0xA0 <= b1 && b1 <= 0xBF
            } else if b0 == 0xED {
                0x80 <= b1 && b1 <= 0x9F
            } else if b0 == 0xF0 {
                0x90 <= b1 && b1 <= 0xBF
            } else if b0 == 0xF4 {
                0x80 <= b1 && b1 <= 0x8F
            } else {
                0x80 <= b1 && b1 <= 0xBF
            }
        };
    if 0xC2 <= b0 && b0 <= 0xDF {
        k == 1
    } else if 0xE0 <= b0 && b0 <= 0xEF {
        if k == 1 {
            true
        } else if k == 2 {
            assert(t[1] == b@[s + 1]);
            second(b[s + 1])
        } else {
            false
        }
    } else if 0xF0 <= b0 && b0 <= 0xF4 {
        if k == 1 {
            true
        } else {
            assert(t[1] == b@[s + 1]);
            let ok1 = second(b[s + 1]);
            if k == 3 {
                assert(t[2] == b@[s + 2]);
                ok1 && 0x80 <= b[s + 2] && b[s + 2] <= 0xBF
            } else {
                ok1
            }
        }
    } else {
        false
    }
}

/// Where to cut `b` so that the part before can be emitted now and the part
/// after is an unfinished UTF-8 sequence to carry over.
pub fn utf8_split_point(b: &Vec<u8>) -> (r: usize)
    ensures
        r == b.len() - tail_len(b@),
{
    if b.len() >= 1 && is_incomplete_at(b, 1) {
        b.len() - 1
    } else if b.len() >= 2 && is_incomplete_at(b, 2) {
        b.len() - 2
    } else if b.len() >= 3 && is_incomplete_at(b, 3) {
        b.len() - 3
    } else {
        b.len()
    }
}

proof fn lemma_feed_keeps(
    raw0: Seq<u8>,
    sent0: Seq<u8>,
    tail0: Seq<u8>,
    p0: bool,
    chunk: Seq<u8>,
    normalized: Seq<u8>,
    p1: bool,
    merged: Seq<u8>,
    rest: Seq<u8>,
)
    requires
        forall|t: Seq<u8>| #[trigger] norm_nl(raw0 + t) == sent0 + tail0 + norm_nl(held(p0) + t),
        forall|t: Seq<u8>| norm_nl(held(p0) + chunk + t) == normalized + #[trigger] norm_nl(held(p1) + t),
        tail0 + normalized == merged + rest,
    ensures
        forall|t: Seq<u8>|
            #[trigger] norm_nl(raw0 + chunk + t) == sent0 + merged + rest + norm_nl(held(p1) + t),
{
    assert forall|t: Seq<u8>| #[trigger] norm_nl(raw0 + chunk + t) == sent0 + merged + rest + norm_nl(
        held(p1) + t,
    ) by {
        let u = chunk + t;
        assert(norm_nl(raw0 + u) == sent0 + tail0 + norm_nl(held(p0) + u));
        assert(raw0 + u =~= raw0 + chunk + t);
        assert(held(p0) + u =~= held(p0) + chunk + t);
        let n = norm_nl(held(p1) + t);
        assert(norm_nl(held(p0) + chunk + t) == normalized + n);
        assert(sent0 + tail0 + (normalized + n) =~= sent0 + (tail0 + normalized) + n);
        assert(sent0 + (merged + rest) + n =~= sent0 + merged + rest + n);
    }
}

/// The streaming of one file's content.
pub struct ContentStream {
    pending_cr: bool,
    tail: Vec<u8>,
    remaining: Option<u64>,
    raw: Ghost<Seq<u8>>,
    sent: Ghost<Seq<u8>>,
    cap: Ghost<Option<u64>>,
}

impl ContentStream {
    /// The raw bytes taken so far.
    pub closed spec fn raw(&self) -> Seq<u8> {
        self.raw@
    }

    /// The normalised bytes handed to emission so far.
    pub closed spec fn sent(&self) -> Seq<u8> {
        self.sent@
    }

    /// The byte cap on raw input, if any.
    pub closed spec fn cap(&self) -> Option<u64> {
        self.cap@
    }

    /// Raw bytes that may still be taken (`None`: no cap).
    pub closed spec fn remaining(&self) -> Option<u64> {
        self.remaining
    }

    pub closed spec fn wf(&self) -> bool {
        &&& forall|t: Seq<u8>|
            #[trigger] norm_nl(self.raw@ + t) == self.sent@ + self.tail@ + norm_nl(
                held(self.pending_cr) + t,
            )
        &&& self.tail@.len() < 4
        &&& match self.cap@ {
            Some(c) => self.remaining matches Some(r) && self.raw@.len() + r == c,
            None => self.remaining is None,
        }
    }

    /// A stream that will take at most `cap` raw bytes, if given.
    pub fn new(cap: Option<u64>) -> (r: ContentStream)
        ensures
            r.wf(),
            r.cap() == cap,
            r.raw().len() == 0,
            r.sent().len() == 0,
            r.held_bytes().len() == 0,
            !r.pending(),
    {
        let r = ContentStream {
            pending_cr: false,
            tail: Vec::new(),
            remaining: cap,
            raw: Ghost(Seq::empty()),
            sent: Ghost(Seq::empty()),
            cap: Ghost(cap),
        };
        assert forall|t: Seq<u8>| #[trigger] norm_nl(r.raw@ + t) == r.sent@ + r.tail@ + norm_nl(
            held(r.pending_cr) + t,
        ) by {
            assert(r.raw@ + t =~= t);
            assert(held(false) + t =~= t);
            assert(r.sent@ + r.tail@ + norm_nl(t) =~= norm_nl(t));
        }
        r
    }

    /// How many bytes to read next; 0 once the cap is used up.
    pub fn read_len(&self) -> (r: usize)
        ensures
            r == match self.remaining() {
                Some(n) => if n < STREAM_CHUNK_SIZE {
                    n as usize
                } else {
                    STREAM_CHUNK_SIZE
                },
                None => STREAM_CHUNK_SIZE,
            },
    {
        match self.remaining {
            Some(n) => {
                if n < STREAM_CHUNK_SIZE as u64 {
                    n as usize
                } else {
                    STREAM_CHUNK_SIZE
                }
            },
            None => STREAM_CHUNK_SIZE,
        }
    }

    /// Takes one chunk of raw bytes and returns the text to write for it.
    pub fn feed(&mut self, chunk: &[u8]) -> (text: String)
        requires
            old(self).wf(),
            chunk@.len() <= old(self).read_len_spec(),
        ensures
            final(self).wf(),
            final(self).cap() == old(self).cap(),
            final(self).raw() == old(self).raw() + chunk@,
            old(self).sent().is_prefix_of(final(self).sent()),
            text@ == lossy_of(final(self).sent().subrange(
                old(self).sent().len() as int,
                final(self).sent().len() as int,
            )),
            !text@.contains('\r'),
            chunk@.len() == 0 ==> *final(self) == *old(self) && text@.len() == 0,
            chunk@.len() > 0 ==> {
                let m = old(self).held_bytes() + chunk_out(old(self).pending(), chunk@);
                let k = m.len() - tail_len(m);
                &&& final(self).sent() == old(self).sent() + m.subrange(0, k)
                &&& final(self).held_bytes() == m.subrange(k, m.len() as int)
                &&& final(self).pending() == (chunk@.last() == CR)
                &&& text@ == lossy_of(m.subrange(0, k))
            },
    {
        if chunk.len() == 0 {
            assert(self.sent@.subrange(self.sent@.len() as int, self.sent@.len() as int) =~= chunk@);
            assert(self.raw@ + chunk@ =~= self.raw@);
            assert(self.sent@.is_prefix_of(self.sent@));
            return lossy_text(chunk);
        }
        let mut normalized: Vec<u8> = Vec::new();
        let ghost p0 = self.pending_cr;
        normalize_newline_bytes(chunk, &mut self.pending_cr, &mut normalized);
        assert(normalized@ =~= chunk_out(p0, chunk@));
        if let Some(n) = self.remaining {
            self.remaining = Some(n - chunk.len() as u64);
        }
        let mut merged = self.tail.clone();
        merged.extend_from_slice(normalized.as_slice());
        let ghost whole = merged@;
        assert(whole == self.tail@ + normalized@);
        let k = utf8_split_point(&merged);
        let rest = merged.split_off(k);
        assert(whole =~= merged@ + rest@);
        let ghost old_sent = self.sent@;
        let ghost old_raw = self.raw@;
        let ghost old_tail = self.tail@;
        self.tail = rest;
        proof {
            self.raw@ = old_raw + chunk@;
            self.sent@ = old_sent + merged@;
            assert(normalized@.subrange(0, normalized@.len() as int) =~= normalized@);
            assert forall|t: Seq<u8>| norm_nl(held(p0) + chunk@ + t) == normalized@ + #[trigger] norm_nl(
                held(self.pending_cr) + t,
            ) by {
                assert(norm_nl(held(p0) + chunk@ + t) == normalized@.subrange(0, normalized@.len() as int)
                    + norm_nl(held(self.pending_cr) + t));
            }
            lemma_feed_keeps(old_raw, old_sent, old_tail, p0, chunk@, normalized@, self.pending_cr, merged@, self.tail@);
            assert(self.sent@.subrange(old_sent.len() as int, self.sent@.len() as int) =~= merged@);
            assert(old_sent.is_prefix_of(self.sent@));
            self.lemma_sent_clean();
            if merged@.contains(CR) {
                let k = choose|k: int| 0 <= k < merged@.len() && merged@[k] == CR;
                assert(self.sent@[old_sent.len() + k] == CR);
            }
        }
        lossy_text(merged.as_slice())
    }

    /// What was sent holds no carriage return.
    proof fn lemma_sent_clean(&self)
        requires
            self.wf(),
        ensures
            !self.sent@.contains(CR),
    {
        let e = Seq::<u8>::empty();
        assert(self.raw@ + e =~= self.raw@);
        let whole = norm_nl(self.raw@ + e);
        lemma_norm_nl_has_no_cr(self.raw@ + e);
        if self.sent@.contains(CR) {
            let k = choose|k: int| 0 <= k < self.sent@.len() && self.sent@[k] == CR;
            assert(whole == self.sent@ + self.tail@ + norm_nl(held(self.pending_cr) + e));
            assert(whole[k] == CR);
        }
    }

    /// Under a cap, the raw bytes taken never exceed it (the first
    /// `maxFileSizeKB * 1024` bytes of the file at most), and the normalised
    /// bytes handed to emission never exceed the raw bytes taken.
    pub proof fn lemma_raw_within_cap(&self)
        requires
            self.wf(),
        ensures
            self.cap() matches Some(c) ==> self.raw().len() <= c,
            self.sent().len() <= self.raw().len(),
    {
        let e = Seq::<u8>::empty();
        assert(self.raw@ + e =~= self.raw@);
        assert(norm_nl(self.raw@ + e) == self.sent@ + self.tail@ + norm_nl(held(self.pending_cr) + e));
        lemma_norm_nl_len(self.raw@);
    }

    /// The normalised bytes held back: an unfinished UTF-8 sequence.
    pub closed spec fn held_bytes(&self) -> Seq<u8> {
        self.tail@
    }

    /// Whether a carriage return that ended the last chunk is held.
    pub closed spec fn pending(&self) -> bool {
        self.pending_cr
    }

    /// `read_len` as a value.
    pub open spec fn read_len_spec(&self) -> nat {
        match self.remaining() {
            Some(n) => if n < STREAM_CHUNK_SIZE {
                n as nat
            } else {
                STREAM_CHUNK_SIZE as nat
            },
            None => STREAM_CHUNK_SIZE as nat,
        }
    }

    /// Ends the stream: a held carriage return becomes a line feed, and the
    /// carried bytes are emitted whatever they are. Afterwards the bytes sent
    /// are exactly the normalisation of all raw input.
    pub fn finish(&mut self) -> (text: String)
        requires
            old(self).wf(),
        ensures
            final(self).raw() == old(self).raw(),
            final(self).sent() == norm_nl(old(self).raw()),
            old(self).sent().is_prefix_of(final(self).sent()),
            text@ == lossy_of(final(self).sent().subrange(
                old(self).sent().len() as int,
                final(self).sent().len() as int,
            )),
            !text@.contains('\r'),
            text@ == lossy_of(old(self).held_bytes() + held_as_lf(old(self).pending())),
    {
        let mut last = self.tail.clone();
        if self.pending_cr {
            last.push(LF);
        }
        let ghost old_sent = self.sent@;
        proof {
            let e = Seq::<u8>::empty();
            assert(norm_nl(self.raw@ + e) == self.sent@ + self.tail@ + norm_nl(held(self.pending_cr) + e));
            assert(self.raw@ + e =~= self.raw@);
            assert(held(self.pending_cr) + e =~= held(self.pending_cr));
            if self.pending_cr {
                assert(held(true).subrange(1, 1) =~= Seq::<u8>::empty());
                assert(norm_nl(Seq::<u8>::empty()) =~= Seq::<u8>::empty());
                assert(norm_nl(held(true)) == seq![LF] + norm_nl(Seq::<u8>::empty()));
                assert(self.tail@ + norm_nl(held(true)) =~= last@);
            } else {
                assert(self.tail@ + norm_nl(held(false)) =~= last@);
            }
            self.sent@ = old_sent + last@;
            assert(self.sent@ =~= norm_nl(self.raw@));
            assert(self.sent@.subrange(old_sent.len() as int, self.sent@.len() as int) =~= last@);
            lemma_norm_nl_has_no_cr(self.raw@);
            if last@.contains(CR) {
                let k = choose|k: int| 0 <= k < last@.len() && last@[k] == CR;
                assert(self.sent@[old_sent.len() + k] == CR);
            }
        }
        self.tail = Vec::new();
        self.pending_cr = false;
        lossy_text(last.as_slice())
    }
}

/// Whatever the chunks, the normalised bytes handed to emission never hold
/// a carriage return, so neither does the text written for them.
pub proof fn lemma_sent_has_no_cr(raw: Seq<u8>)
    ensures
        !norm_nl(raw).contains(CR),
{
    lemma_norm_nl_has_no_cr(raw);
}

} // verus!
