//! The framing codec: discrete messages over a byte stream.
//!
//! The wire format is line-based for commands and lengths and explicitly
//! sized for binary payloads; every payload ends with a `\n` sentinel so a
//! truncated or misaligned stream is detected early. The spec functions
//! `spec_read_*` define the grammar over byte sequences; `Connection`
//! implements it over in-memory buffers and is proved against them.

use vstd::prelude::*;
use vstd::slice::{slice_subrange, slice_to_vec};
use vstd::utf8::{encode_utf8, decode_utf8, valid_utf8, is_ascii_chars, is_ascii_chars_encode_utf8};
use crate::content::{Content, ContentV, Image, ImageV};

verus! {

/// The ASCII line terminator.
pub const NEWLINE: u8 = 10;

/// A protocol error: always fatal to the connection that raises it.
#[derive(Clone, Copy, Debug, PartialEq, Eq)]
pub enum ProtocolError {
    /// The stream ended before a complete message was read.
    UnexpectedEof,
    /// The byte after a sized payload was not the `\n` sentinel.
    MissingTerminator,
    /// A length or dimension line was not an unsigned decimal that fits.
    MalformedInteger,
    /// Text bytes were not valid UTF-8.
    InvalidEncoding,
}

// ---------------------------------------------------------------------------
// Decimal integers
// ---------------------------------------------------------------------------

/// An ASCII decimal digit.
pub open spec fn is_digit(b: u8) -> bool {
    48 <= b && b <= 57
}

pub open spec fn all_digits(s: Seq<u8>) -> bool {
    forall|i: int| 0 <= i < s.len() ==> is_digit(#[trigger] s[i])
}

/// The value of a digit string, most significant digit first.
pub open spec fn dec_val(s: Seq<u8>) -> int
    decreases s.len(),
{
    if s.len() == 0 {
        0
    } else {
        dec_val(s.drop_last()) * 10 + (s.last() - 48)
    }
}

/// The canonical decimal digits of `n`, without leading zeros.
pub open spec fn dec_digits(n: nat) -> Seq<u8>
    decreases n,
{
    if n < 10 {
        seq![(48 + n) as u8]
    } else {
        dec_digits(n / 10).push((48 + n % 10) as u8)
    }
}

/// What a decimal line denotes: a nonempty string of digits whose value
/// fits in `usize`; anything else is malformed.
pub open spec fn spec_parse_usize(line: Seq<u8>) -> Option<usize> {
    if line.len() > 0 && all_digits(line) && dec_val(line) <= usize::MAX {
        Some(dec_val(line) as usize)
    } else {
        None
    }
}

pub proof fn lemma_dec_digits_wf(n: nat)
    ensures
        dec_digits(n).len() >= 1,
        all_digits(dec_digits(n)),
        dec_val(dec_digits(n)) == n,
    decreases n,
{
    if n < 10 {
        let s = dec_digits(n);
        assert(s.len() == 1);
        assert(s.last() == (48 + n) as u8);
        assert(s.drop_last() =~= Seq::<u8>::empty());
        assert(dec_val(s.drop_last()) == 0);
        assert(dec_val(s) == n);
    } else {
        lemma_dec_digits_wf(n / 10);
        let d = dec_digits(n / 10);
        let s = dec_digits(n);
        assert(s == d.push((48 + n % 10) as u8));
        assert(s.drop_last() =~= d);
        assert(s.last() == (48 + n % 10) as u8);
        assert(forall|i: int| 0 <= i < s.len() ==> is_digit(#[trigger] s[i])) by {
            assert(forall|i: int| 0 <= i < d.len() ==> is_digit(#[trigger] d[i]));
            assert(forall|i: int| 0 <= i < s.len() - 1 ==> s[i] == d[i]);
        }
        assert(dec_val(s) == dec_val(d) * 10 + (n % 10));
        assert(n / 10 * 10 + n % 10 == n);
        assert(dec_val(s) == n);
    }
}

// ---------------------------------------------------------------------------
// The read side of the grammar, as functions over byte sequences
// ---------------------------------------------------------------------------

/// Reads up to the first newline (exclusive); the rest follows it.
pub open spec fn spec_read_line(s: Seq<u8>) -> Result<(Seq<u8>, Seq<u8>), ProtocolError>
    decreases s.len(),
{
    if s.len() == 0 {
        Err(ProtocolError::UnexpectedEof)
    } else if s[0] == NEWLINE {
        Ok((Seq::empty(), s.skip(1)))
    } else {
        match spec_read_line(s.skip(1)) {
            Ok((line, rest)) => Ok((seq![s[0]] + line, rest)),
            Err(e) => Err(e),
        }
    }
}

/// Reads a line and parses it as an unsigned decimal integer.
pub open spec fn spec_read_int(s: Seq<u8>) -> Result<(usize, Seq<u8>), ProtocolError> {
    match spec_read_line(s) {
        Ok((line, rest)) => match spec_parse_usize(line) {
            Some(n) => Ok((n, rest)),
            None => Err(ProtocolError::MalformedInteger),
        },
        Err(e) => Err(e),
    }
}

/// Reads exactly `n` raw bytes.
pub open spec fn spec_read_exact(s: Seq<u8>, n: int) -> Result<(Seq<u8>, Seq<u8>), ProtocolError> {
    if s.len() >= n {
        Ok((s.take(n), s.skip(n)))
    } else {
        Err(ProtocolError::UnexpectedEof)
    }
}

/// Requires and consumes the `\n` sentinel after a sized payload.
pub open spec fn spec_read_newline(s: Seq<u8>) -> Result<Seq<u8>, ProtocolError> {
    if s.len() == 0 {
        Err(ProtocolError::UnexpectedEof)
    } else if s[0] != NEWLINE {
        Err(ProtocolError::MissingTerminator)
    } else {
        Ok(s.skip(1))
    }
}

/// Reads a length-prefixed, newline-terminated UTF-8 string.
pub open spec fn spec_read_string(s: Seq<u8>) -> Result<(Seq<char>, Seq<u8>), ProtocolError> {
    match spec_read_int(s) {
        Ok((n, rest1)) => match spec_read_exact(rest1, n as int) {
            Ok((payload, rest2)) => match spec_read_newline(rest2) {
                Ok(rest3) => if valid_utf8(payload) {
                    Ok((decode_utf8(payload), rest3))
                } else {
                    Err(ProtocolError::InvalidEncoding)
                },
                Err(e) => Err(e),
            },
            Err(e) => Err(e),
        },
        Err(e) => Err(e),
    }
}

/// Reads two decimal dimensions and then `width * height * 4` pixel bytes,
/// newline-terminated. Dimensions whose byte count does not fit in `usize`
/// are malformed: no such payload could be held, let alone follow.
pub open spec fn spec_read_image(s: Seq<u8>) -> Result<(ImageV, Seq<u8>), ProtocolError> {
    match spec_read_int(s) {
        Ok((w, rest1)) => match spec_read_int(rest1) {
            Ok((h, rest2)) => if w * h * 4 <= usize::MAX {
                match spec_read_exact(rest2, w * h * 4) {
                    Ok((bytes, rest3)) => match spec_read_newline(rest3) {
                        Ok(rest4) => Ok(
                            (ImageV { width: w as nat, height: h as nat, bytes }, rest4),
                        ),
                        Err(e) => Err(e),
                    },
                    Err(e) => Err(e),
                }
            } else {
                Err(ProtocolError::MalformedInteger)
            },
            Err(e) => Err(e),
        },
        Err(e) => Err(e),
    }
}

// ---------------------------------------------------------------------------
// The write side of the grammar
// ---------------------------------------------------------------------------

/// A bare line: the bytes followed by `\n`.
pub open spec fn line_frame(b: Seq<u8>) -> Seq<u8> {
    b + seq![NEWLINE]
}

/// An unsigned decimal integer as a line.
pub open spec fn int_frame(n: nat) -> Seq<u8> {
    line_frame(dec_digits(n))
}

/// A length-prefixed string: its byte length as a decimal line, the raw
/// bytes, then the `\n` sentinel.
pub open spec fn string_frame(b: Seq<u8>) -> Seq<u8> {
    int_frame(b.len()) + b + seq![NEWLINE]
}

/// An image payload: width and height as decimal lines, the raw pixel
/// bytes, then the `\n` sentinel.
pub open spec fn image_frame(img: ImageV) -> Seq<u8> {
    int_frame(img.width) + int_frame(img.height) + img.bytes + seq![NEWLINE]
}

// ---------------------------------------------------------------------------
// Round trips: what is sent is read back exactly
// ---------------------------------------------------------------------------

/// A line whose content holds no newline is read back exactly, and reading
/// stops exactly at its terminator.
pub proof fn lemma_read_line_frame(b: Seq<u8>, rest: Seq<u8>)
    requires
        forall|i: int| 0 <= i < b.len() ==> #[trigger] b[i] != NEWLINE,
    ensures
        spec_read_line(line_frame(b) + rest) == Ok::<_, ProtocolError>((b, rest)),
    decreases b.len(),
{
    let s = line_frame(b) + rest;
    if b.len() == 0 {
        assert(s[0] == NEWLINE);
        assert(s.skip(1) =~= rest);
        assert(Seq::<u8>::empty() =~= b);
    } else {
        assert(s[0] == b[0]);
        let b2 = b.skip(1);
        assert(forall|i: int| 0 <= i < b2.len() ==> #[trigger] b2[i] != NEWLINE);
        lemma_read_line_frame(b2, rest);
        assert(s.skip(1) =~= line_frame(b2) + rest);
        assert(seq![b[0]] + b2 =~= b);
    }
}

/// A decimal line is read back as the integer that was sent.
pub proof fn lemma_read_int_frame(n: usize, rest: Seq<u8>)
    ensures
        spec_read_int(int_frame(n as nat) + rest) == Ok::<_, ProtocolError>((n, rest)),
{
    lemma_dec_digits_wf(n as nat);
    let d = dec_digits(n as nat);
    assert(forall|i: int| 0 <= i < d.len() ==> #[trigger] d[i] != NEWLINE);
    lemma_read_line_frame(d, rest);
    assert(spec_parse_usize(d) == Some(n));
}

// ---------------------------------------------------------------------------
// Supporting lemmas about lines and decimal values
// ---------------------------------------------------------------------------

pub open spec fn has_newline(s: Seq<u8>) -> bool {
    exists|i: int| 0 <= i < s.len() && s[i] == NEWLINE
}

/// Reading a line takes everything before the first newline and leaves
/// everything after it.
pub proof fn lemma_spec_read_line_at(s: Seq<u8>, i: int)
    requires
        0 <= i < s.len(),
        s[i] == NEWLINE,
        forall|j: int| 0 <= j < i ==> s[j] != NEWLINE,
    ensures
        spec_read_line(s) == Ok::<_, ProtocolError>((s.take(i), s.skip(i + 1))),
    decreases i,
{
    if i == 0 {
        assert(s.take(0) =~= Seq::<u8>::empty());
    } else {
        let s2 = s.skip(1);
        lemma_spec_read_line_at(s2, i - 1);
        assert(seq![s[0]] + s2.take(i - 1) =~= s.take(i));
        assert(s2.skip(i) =~= s.skip(i + 1));
    }
}

/// Without a newline, reading a line fails for want of input.
pub proof fn lemma_spec_read_line_eof(s: Seq<u8>)
    requires
        !has_newline(s),
    ensures
        spec_read_line(s) == Err::<(Seq<u8>, Seq<u8>), _>(ProtocolError::UnexpectedEof),
    decreases s.len(),
{
    if s.len() > 0 {
        assert(s[0] != NEWLINE);
        let s2 = s.skip(1);
        assert(!has_newline(s2)) by {
            if has_newline(s2) {
                let k = choose|k: int| 0 <= k < s2.len() && s2[k] == NEWLINE;
                assert(s[k + 1] == NEWLINE);
            }
        }
        lemma_spec_read_line_eof(s2);
    }
}

pub proof fn lemma_dec_val_nonneg(s: Seq<u8>)
    requires
        all_digits(s),
    ensures
        dec_val(s) >= 0,
    decreases s.len(),
{
    if s.len() > 0 {
        assert(all_digits(s.drop_last())) by {
            assert(forall|i: int|
                0 <= i < s.len() - 1 ==> #[trigger] s.drop_last()[i] == s[i]);
        }
        lemma_dec_val_nonneg(s.drop_last());
    }
}

/// A digit string is worth at least any of its prefixes.
pub proof fn lemma_dec_val_prefix(s: Seq<u8>, k: int)
    requires
        all_digits(s),
        0 <= k <= s.len(),
    ensures
        dec_val(s.take(k)) <= dec_val(s),
    decreases s.len() - k,
{
    assert(all_digits(s.take(k))) by {
        assert(forall|i: int| 0 <= i < k ==> #[trigger] s.take(k)[i] == s[i]);
    }
    if k == s.len() {
        assert(s.take(k) =~= s);
    } else {
        lemma_dec_val_prefix(s, k + 1);
        lemma_dec_val_nonneg(s.take(k));
        assert(s.take(k + 1).drop_last() =~= s.take(k));
        assert(dec_val(s.take(k + 1)) == dec_val(s.take(k)) * 10 + (s[k] - 48));
    }
}

// ---------------------------------------------------------------------------
// A connection's buffered byte streams
// ---------------------------------------------------------------------------

/// One connection's buffering state: bytes received but not yet consumed,
/// and bytes written but not yet handed to the transport. The process that
/// owns the socket feeds received bytes in with [`Connection::feed`] and
/// drains [`Connection::take_output`] onto the wire.
///
/// Every read is transactional: on an error it leaves the unconsumed input
/// exactly as it was, so the caller may feed more bytes and try again.
pub struct Connection {
    pub input: Vec<u8>,
    pub pos: usize,
    pub output: Vec<u8>,
}

impl Connection {
    /// The consumed prefix of `input` never outruns it.
    pub open spec fn wf(&self) -> bool {
        self.pos <= self.input@.len()
    }

    /// The received bytes not yet consumed.
    pub open spec fn remaining(&self) -> Seq<u8> {
        self.input@.skip(self.pos as int)
    }

    /// The bytes written and not yet drained.
    pub open spec fn sent(&self) -> Seq<u8> {
        self.output@
    }

    pub fn new() -> (c: Connection)
        ensures
            c.wf(),
            c.remaining() == Seq::<u8>::empty(),
            c.sent() == Seq::<u8>::empty(),
    {
        let c = Connection { input: Vec::new(), pos: 0, output: Vec::new() };
        proof {
            assert(c.remaining() =~= Seq::<u8>::empty());
        }
        c
    }

    /// Append bytes received from the transport.
    pub fn feed(&mut self, data: &[u8])
        requires
            old(self).wf(),
        ensures
            final(self).wf(),
            final(self).pos == old(self).pos,
            final(self).remaining() == old(self).remaining() + data@,
            final(self).sent() == old(self).sent(),
    {
        self.input.extend_from_slice(data);
        proof {
            assert(self.input@ =~= old(self).input@ + data@);
            assert(self.remaining() =~= old(self).remaining() + data@);
        }
    }

    /// Hand over everything written so far.
    pub fn take_output(&mut self) -> (out: Vec<u8>)
        requires
            old(self).wf(),
        ensures
            final(self).wf(),
            final(self).input@ == old(self).input@,
            final(self).pos == old(self).pos,
            out@ == old(self).sent(),
            final(self).sent() == Seq::<u8>::empty(),
    {
        let mut out: Vec<u8> = Vec::new();
        core::mem::swap(&mut out, &mut self.output);
        out
    }

    /// Read one raw byte.
    pub fn read_byte(&mut self) -> (r: Result<u8, ProtocolError>)
        requires
            old(self).wf(),
        ensures
            final(self).wf(),
            final(self).input@ == old(self).input@,
            final(self).sent() == old(self).sent(),
            match r {
                Ok(b) => old(self).remaining().len() > 0 && b == old(self).remaining()[0]
                    && final(self).remaining() == old(self).remaining().skip(1),
                Err(e) => e == ProtocolError::UnexpectedEof && old(self).remaining().len() == 0
                    && final(self).pos == old(self).pos,
            },
    {
        if self.pos < self.input.len() {
            let b = self.input[self.pos];
            self.pos = self.pos + 1;
            proof {
                assert(self.remaining() =~= old(self).remaining().skip(1));
            }
            Ok(b)
        } else {
            Err(ProtocolError::UnexpectedEof)
        }
    }

    /// Require and consume the `\n` sentinel.
    pub fn read_newline(&mut self) -> (r: Result<(), ProtocolError>)
        requires
            old(self).wf(),
        ensures
            final(self).wf(),
            final(self).input@ == old(self).input@,
            final(self).sent() == old(self).sent(),
            match r {
                Ok(_) => spec_read_newline(old(self).remaining()) == Ok::<_, ProtocolError>(
                    final(self).remaining(),
                ),
                Err(e) => spec_read_newline(old(self).remaining()) == Err::<Seq<u8>, _>(e)
                    && final(self).pos == old(self).pos,
            },
    {
        let start = self.pos;
        match self.read_byte() {
            Ok(b) => {
                if b == NEWLINE {
                    Ok(())
                } else {
                    self.pos = start;
                    Err(ProtocolError::MissingTerminator)
                }
            },
            Err(_) => Err(ProtocolError::UnexpectedEof),
        }
    }

    /// Read exactly `n` raw bytes.
    pub fn read_exact(&mut self, n: usize) -> (r: Result<Vec<u8>, ProtocolError>)
        requires
            old(self).wf(),
        ensures
            final(self).wf(),
            final(self).input@ == old(self).input@,
            final(self).sent() == old(self).sent(),
            match r {
                Ok(b) => spec_read_exact(old(self).remaining(), n as int) == Ok::<
                    _,
                    ProtocolError,
                >((b@, final(self).remaining())),
                Err(e) => spec_read_exact(old(self).remaining(), n as int) == Err::<
                    (Seq<u8>, Seq<u8>),
                    _,
                >(e) && final(self).pos == old(self).pos,
            },
    {
        if self.input.len() - self.pos >= n {
            let b = slice_to_vec(slice_subrange(self.input.as_slice(), self.pos, self.pos + n));
            self.pos = self.pos + n;
            proof {
                assert(b@ =~= old(self).remaining().take(n as int));
                assert(self.remaining() =~= old(self).remaining().skip(n as int));
            }
            Ok(b)
        } else {
            Err(ProtocolError::UnexpectedEof)
        }
    }

    /// Read the raw bytes of a line, up to and excluding the newline.
    pub fn read_line_bytes(&mut self) -> (r: Result<Vec<u8>, ProtocolError>)
        requires
            old(self).wf(),
        ensures
            final(self).wf(),
            final(self).input@ == old(self).input@,
            final(self).sent() == old(self).sent(),
            match r {
                Ok(b) => spec_read_line(old(self).remaining()) == Ok::<_, ProtocolError>(
                    (b@, final(self).remaining()),
                ),
                Err(e) => spec_read_line(old(self).remaining()) == Err::<(Seq<u8>, Seq<u8>), _>(e)
                    && final(self).pos == old(self).pos,
            },
    {
        let mut i = self.pos;
        while i < self.input.len() && self.input[i] != NEWLINE
            invariant
                self.wf(),
                self.pos <= i <= self.input@.len(),
                forall|j: int| self.pos <= j < i ==> self.input@[j] != NEWLINE,
            decreases self.input@.len() - i,
        {
            i = i + 1;
        }
        if i == self.input.len() {
            proof {
                assert(!has_newline(self.remaining())) by {
                    if has_newline(self.remaining()) {
                        let k = choose|k: int|
                            0 <= k < self.remaining().len() && self.remaining()[k] == NEWLINE;
                        assert(self.input@[self.pos + k] == NEWLINE);
                    }
                }
                lemma_spec_read_line_eof(self.remaining());
            }
            Err(ProtocolError::UnexpectedEof)
        } else {
            let b = slice_to_vec(slice_subrange(self.input.as_slice(), self.pos, i));
            proof {
                let rem = self.remaining();
                let li = i - self.pos;
                assert(rem[li] == NEWLINE);
                assert(forall|j: int| 0 <= j < li ==> rem[j] != NEWLINE) by {
                    assert(forall|j: int|
                        self.pos <= j < i ==> self.input@[j] != NEWLINE);
                    assert(forall|j: int| 0 <= j < li ==> rem[j] == self.input@[self.pos + j]);
                }
                lemma_spec_read_line_at(rem, li);
                assert(b@ =~= rem.take(li));
            }
            let ghost old_pos = self.pos;
            self.pos = i + 1;
            proof {
                assert(self.remaining() =~= old(self).remaining().skip(i - old_pos + 1));
            }
            Ok(b)
        }
    }

    /// Read a line and decode it as UTF-8.
    pub fn read_line(&mut self) -> (r: Result<String, ProtocolError>)
        requires
            old(self).wf(),
        ensures
            final(self).wf(),
            final(self).input@ == old(self).input@,
            final(self).sent() == old(self).sent(),
            match r {
                Ok(s) => exists|line: Seq<u8>|
                    #![auto]
                    spec_read_line(old(self).remaining()) == Ok::<_, ProtocolError>(
                        (line, final(self).remaining()),
                    ) && valid_utf8(line) && s@ == decode_utf8(line),
                Err(e) => final(self).pos == old(self).pos && match spec_read_line(
                    old(self).remaining(),
                ) {
                    Ok((line, _)) => e == ProtocolError::InvalidEncoding && !valid_utf8(line),
                    Err(e2) => e == e2,
                },
            },
    {
        let start = self.pos;
        let bytes = match self.read_line_bytes() {
            Ok(b) => b,
            Err(e) => {
                return Err(e);
            },
        };
        let ghost bv = bytes@;
        match string_from_utf8(bytes) {
            Some(s) => Ok(s),
            None => {
                self.pos = start;
                Err(ProtocolError::InvalidEncoding)
            },
        }
    }

    /// Read a line and parse it as an unsigned decimal integer.
    pub fn read_int(&mut self) -> (r: Result<usize, ProtocolError>)
        requires
            old(self).wf(),
        ensures
            final(self).wf(),
            final(self).input@ == old(self).input@,
            final(self).sent() == old(self).sent(),
            match r {
                Ok(n) => spec_read_int(old(self).remaining()) == Ok::<_, ProtocolError>(
                    (n, final(self).remaining()),
                ),
                Err(e) => spec_read_int(old(self).remaining()) == Err::<(usize, Seq<u8>), _>(e)
                    && final(self).pos == old(self).pos,
            },
    {
        let start = self.pos;
        let line = match self.read_line_bytes() {
            Ok(b) => b,
            Err(e) => {
                return Err(e);
            },
        };
        match parse_decimal(&line) {
            Some(n) => Ok(n),
            None => {
                self.pos = start;
                Err(ProtocolError::MalformedInteger)
            },
        }
    }
}

/// Parse a whole byte string as an unsigned decimal that fits in `usize`.
fn parse_decimal(bytes: &Vec<u8>) -> (r: Option<usize>)
    ensures
        r == spec_parse_usize(bytes@),
{
    if bytes.len() == 0 {
        return None;
    }
    let mut acc: usize = 0;
    let mut i: usize = 0;
    while i < bytes.len()
        invariant
            0 <= i <= bytes@.len(),
            all_digits(bytes@.take(i as int)),
            acc == dec_val(bytes@.take(i as int)),
        decreases bytes@.len() - i,
    {
        let b = bytes[i];
        if b < 48 || b > 57 {
            proof {
                assert(!all_digits(bytes@));
            }
            return None;
        }
        let d = (b - 48) as usize;
        proof {
            assert(bytes@.take(i + 1).drop_last() =~= bytes@.take(i as int));
            assert(all_digits(bytes@.take(i + 1))) by {
                assert(forall|j: int|
                    0 <= j < i + 1 ==> #[trigger] bytes@.take(i + 1)[j] == bytes@[j]);
            }
            assert(dec_val(bytes@.take(i + 1)) == acc * 10 + d);
        }
        if acc > (usize::MAX - d) / 10 {
            proof {
                assert((usize::MAX - d) / 10 * 10 + 9 >= usize::MAX - d);
                assert(acc * 10 >= ((usize::MAX - d) / 10 + 1) * 10);
                assert(dec_val(bytes@.take(i + 1)) > usize::MAX);
                if all_digits(bytes@) {
                    lemma_dec_val_prefix(bytes@, i + 1);
                }
            }
            return None;
        }
        proof {
            assert((usize::MAX - d) / 10 * 10 <= usize::MAX - d);
            assert(acc * 10 <= (usize::MAX - d) / 10 * 10);
        }
        acc = acc * 10 + d;
        i = i + 1;
    }
    proof {
        assert(bytes@.take(bytes@.len() as int) =~= bytes@);
    }
    Some(acc)
}

/// Relies on `String::from_utf8`: it succeeds exactly on valid UTF-8, and
/// returns the characters that the bytes encode.
#[verifier::external_body]
fn string_from_utf8(bytes: Vec<u8>) -> (r: Option<String>)
    ensures
        r is Some <==> valid_utf8(bytes@),
        r matches Some(s) ==> s@ == decode_utf8(bytes@),
{
    String::from_utf8(bytes).ok()
}

impl Connection {
    /// Append raw bytes to the outgoing buffer.
    fn write_bytes(&mut self, data: &[u8])
        requires
            old(self).wf(),
        ensures
            final(self).wf(),
            final(self).input@ == old(self).input@,
            final(self).pos == old(self).pos,
            final(self).sent() == old(self).sent() + data@,
    {
        self.output.extend_from_slice(data);
        proof {
            assert(self.output@ =~= old(self).output@ + data@);
        }
    }

    /// Write the canonical decimal digits of `n`.
    fn write_dec(&mut self, n: usize)
        requires
            old(self).wf(),
        ensures
            final(self).wf(),
            final(self).input@ == old(self).input@,
            final(self).pos == old(self).pos,
            final(self).sent() == old(self).sent() + dec_digits(n as nat),
        decreases n,
    {
        if n >= 10 {
            self.write_dec(n / 10);
        }
        self.output.push(48 + (n % 10) as u8);
        proof {
            assert(self.output@ =~= old(self).output@ + dec_digits(n as nat));
        }
    }

    /// Write an unsigned integer as a decimal line.
    pub fn send_int(&mut self, n: usize)
        requires
            old(self).wf(),
        ensures
            final(self).wf(),
            final(self).input@ == old(self).input@,
            final(self).pos == old(self).pos,
            final(self).sent() == old(self).sent() + int_frame(n as nat),
    {
        self.write_dec(n);
        self.output.push(NEWLINE);
        proof {
            assert(self.output@ =~= old(self).output@ + int_frame(n as nat));
        }
    }

    /// Write a length-prefixed string: its byte length as a decimal line,
    /// the raw bytes, then the `\n` sentinel.
    pub fn send_string(&mut self, s: &str)
        requires
            old(self).wf(),
        ensures
            final(self).wf(),
            final(self).input@ == old(self).input@,
            final(self).pos == old(self).pos,
            final(self).sent() == old(self).sent() + string_frame(encode_utf8(s@)),
    {
        let bytes = s.as_bytes();
        self.send_int(bytes.len());
        self.write_bytes(bytes);
        self.output.push(NEWLINE);
        proof {
            assert(self.output@ =~= old(self).output@ + string_frame(encode_utf8(s@)));
        }
    }

    /// Write a bare command line.
    pub fn send_command(&mut self, command: &str)
        requires
            old(self).wf(),
        ensures
            final(self).wf(),
            final(self).input@ == old(self).input@,
            final(self).pos == old(self).pos,
            final(self).sent() == old(self).sent() + line_frame(encode_utf8(command@)),
    {
        self.write_bytes(command.as_bytes());
        self.output.push(NEWLINE);
        proof {
            assert(self.output@ =~= old(self).output@ + line_frame(encode_utf8(command@)));
        }
    }

    /// Read the leading command token of the next request.
    pub fn read_command(&mut self) -> (r: Result<String, ProtocolError>)
        requires
            old(self).wf(),
        ensures
            final(self).wf(),
            final(self).input@ == old(self).input@,
            final(self).sent() == old(self).sent(),
            match r {
                Ok(s) => exists|line: Seq<u8>|
                    #![auto]
                    spec_read_line(old(self).remaining()) == Ok::<_, ProtocolError>(
                        (line, final(self).remaining()),
                    ) && valid_utf8(line) && s@ == decode_utf8(line),
                Err(e) => final(self).pos == old(self).pos && match spec_read_line(
                    old(self).remaining(),
                ) {
                    Ok((line, _)) => e == ProtocolError::InvalidEncoding && !valid_utf8(line),
                    Err(e2) => e == e2,
                },
            },
    {
        self.read_line()
    }

    /// Read a length-prefixed, newline-terminated UTF-8 string.
    pub fn read_string(&mut self) -> (r: Result<String, ProtocolError>)
        requires
            old(self).wf(),
        ensures
            final(self).wf(),
            final(self).input@ == old(self).input@,
            final(self).sent() == old(self).sent(),
            match r {
                Ok(s) => spec_read_string(old(self).remaining()) == Ok::<_, ProtocolError>(
                    (s@, final(self).remaining()),
                ),
                Err(e) => spec_read_string(old(self).remaining()) == Err::<
                    (Seq<char>, Seq<u8>),
                    _,
                >(e) && final(self).pos == old(self).pos,
            },
    {
        let start = self.pos;
        let n = match self.read_int() {
            Ok(n) => n,
            Err(e) => {
                return Err(e);
            },
        };
        let payload = match self.read_exact(n) {
            Ok(p) => p,
            Err(e) => {
                self.pos = start;
                return Err(e);
            },
        };
        match self.read_newline() {
            Ok(_) => {},
            Err(e) => {
                self.pos = start;
                return Err(e);
            },
        }
        let ghost pv = payload@;
        match string_from_utf8(payload) {
            Some(s) => Ok(s),
            None => {
                self.pos = start;
                Err(ProtocolError::InvalidEncoding)
            },
        }
    }

    /// Read an image payload: width, height, then `width * height * 4` raw
    /// pixel bytes and the `\n` sentinel.
    pub fn read_image(&mut self) -> (r: Result<Image, ProtocolError>)
        requires
            old(self).wf(),
        ensures
            final(self).wf(),
            final(self).input@ == old(self).input@,
            final(self).sent() == old(self).sent(),
            match r {
                Ok(img) => img.wf() && spec_read_image(old(self).remaining()) == Ok::<
                    _,
                    ProtocolError,
                >((img@, final(self).remaining())),
                Err(e) => spec_read_image(old(self).remaining()) == Err::<(ImageV, Seq<u8>), _>(e)
                    && final(self).pos == old(self).pos,
            },
    {
        let start = self.pos;
        let width = match self.read_int() {
            Ok(w) => w,
            Err(e) => {
                return Err(e);
            },
        };
        let height = match self.read_int() {
            Ok(h) => h,
            Err(e) => {
                self.pos = start;
                return Err(e);
            },
        };
        proof {
            assert(width as int * height as int >= 0) by (nonlinear_arith);
        }
        let n = match width.checked_mul(height) {
            Some(wh) => match wh.checked_mul(4) {
                Some(n) => n,
                None => {
                    self.pos = start;
                    return Err(ProtocolError::MalformedInteger);
                },
            },
            None => {
                proof {
                    let p = width as int * height as int;
                    assert(p > usize::MAX ==> p * 4 > usize::MAX) by (nonlinear_arith);
                }
                self.pos = start;
                return Err(ProtocolError::MalformedInteger);
            },
        };
        let bytes = match self.read_exact(n) {
            Ok(b) => b,
            Err(e) => {
                self.pos = start;
                return Err(e);
            },
        };
        match self.read_newline() {
            Ok(_) => {},
            Err(e) => {
                self.pos = start;
                return Err(e);
            },
        }
        Ok(Image { width, height, bytes })
    }

    /// Write the clipboard's content as a response frame: `COPY NONE` for
    /// an empty clipboard, otherwise `COPY TEXT` or `COPY IMAGE` with the
    /// typed payload.
    pub fn send_clipboard(&mut self, content: &Option<Content>)
        requires
            old(self).wf(),
            content matches Some(c) ==> c.wf(),
        ensures
            final(self).wf(),
            final(self).input@ == old(self).input@,
            final(self).pos == old(self).pos,
            final(self).sent() == old(self).sent() + clipboard_frame(
                opt_content_view_ref(content),
            ),
    {
        match content {
            None => {
                self.send_command("COPY NONE");
            },
            Some(Content::Text(text)) => {
                self.send_command("COPY TEXT");
                self.send_string(text.as_str());
                proof {
                    assert(self.output@ =~= old(self).output@ + clipboard_frame(
                        opt_content_view_ref(content),
                    ));
                }
            },
            Some(Content::Image(img)) => {
                self.send_command("COPY IMAGE");
                self.send_int(img.width);
                self.send_int(img.height);
                self.write_bytes(img.bytes.as_slice());
                self.output.push(NEWLINE);
                proof {
                    assert(self.output@ =~= old(self).output@ + clipboard_frame(
                        opt_content_view_ref(content),
                    ));
                }
            },
        }
    }

    /// Write an `ERROR` response carrying a message.
    pub fn send_error(&mut self, message: &str)
        requires
            old(self).wf(),
        ensures
            final(self).wf(),
            final(self).input@ == old(self).input@,
            final(self).pos == old(self).pos,
            final(self).sent() == old(self).sent() + error_frame(message@),
    {
        self.send_command("ERROR");
        self.send_string(message);
        proof {
            assert(self.output@ =~= old(self).output@ + error_frame(message@));
        }
    }
}

/// The model of an optional clipboard value behind a reference.
pub open spec fn opt_content_view_ref(c: &Option<Content>) -> Option<ContentV> {
    match c {
        Some(content) => Some(content@),
        None => None,
    }
}

/// The response frame for a clipboard value.
pub open spec fn clipboard_frame(c: Option<ContentV>) -> Seq<u8> {
    match c {
        None => line_frame(encode_utf8("COPY NONE"@)),
        Some(ContentV::Text(t)) => line_frame(encode_utf8("COPY TEXT"@)) + string_frame(
            encode_utf8(t),
        ),
        Some(ContentV::Image(iv)) => line_frame(encode_utf8("COPY IMAGE"@)) + image_frame(iv),
    }
}

/// The response frame for a failed clipboard operation.
pub open spec fn error_frame(msg: Seq<char>) -> Seq<u8> {
    line_frame(encode_utf8("ERROR"@)) + string_frame(encode_utf8(msg))
}

/// Compare two strings by their bytes.
pub fn str_eq(a: &str, b: &str) -> (r: bool)
    ensures
        r == (a@ == b@),
{
    broadcast use vstd::utf8::encode_utf8_decode_utf8;

    let ab = a.as_bytes();
    let bb = b.as_bytes();
    if ab.len() != bb.len() {
        return false;
    }
    let mut i: usize = 0;
    while i < ab.len()
        invariant
            0 <= i <= ab@.len(),
            ab@.len() == bb@.len(),
            ab@ == encode_utf8(a@),
            bb@ == encode_utf8(b@),
            forall|j: int| 0 <= j < i ==> ab@[j] == bb@[j],
        decreases ab@.len() - i,
    {
        if ab[i] != bb[i] {
            return false;
        }
        i = i + 1;
    }
    proof {
        assert(ab@ =~= bb@);
        assert(decode_utf8(encode_utf8(a@)) == a@);
        assert(decode_utf8(encode_utf8(b@)) == b@);
    }
    true
}

// ---------------------------------------------------------------------------
// Round trips of the typed payloads
// ---------------------------------------------------------------------------

/// The bytes of an ASCII text that holds no newline: one byte per
/// character, none of them the line terminator.
pub proof fn lemma_ascii_line(s: Seq<char>)
    requires
        is_ascii_chars(s),
        forall|i: int| 0 <= i < s.len() ==> s[i] != '\n',
    ensures
        encode_utf8(s).len() == s.len(),
        forall|i: int| 0 <= i < encode_utf8(s).len() ==> #[trigger] encode_utf8(s)[i] != NEWLINE,
{
    is_ascii_chars_encode_utf8(s);
    assert(forall|i: int| 0 <= i < encode_utf8(s).len() ==> #[trigger] encode_utf8(s)[i]
        != NEWLINE) by {
        assert(forall|i: int|
            0 <= i < s.len() ==> #[trigger] encode_utf8(s)[i] == s[i] as u8);
        assert('\n' as u8 == 10);
    }
}

/// What `send_string` writes, `read_string` reads back as exactly the
/// string that was sent, for every string — empty, with embedded newlines,
/// or multi-byte UTF-8 — leaving exactly what followed the frame.
pub proof fn lemma_string_round_trip(s: Seq<char>, rest: Seq<u8>)
    requires
        encode_utf8(s).len() <= usize::MAX,
    ensures
        spec_read_string(string_frame(encode_utf8(s)) + rest) == Ok::<_, ProtocolError>((s, rest)),
{
    broadcast use vstd::utf8::encode_utf8_valid_utf8;
    broadcast use vstd::utf8::encode_utf8_decode_utf8;

    let b = encode_utf8(s);
    let n = b.len() as usize;
    let tail = b + seq![NEWLINE] + rest;
    assert(string_frame(b) + rest =~= int_frame(n as nat) + tail);
    lemma_read_int_frame(n, tail);
    assert(tail.take(n as int) =~= b);
    assert(tail.skip(n as int) =~= seq![NEWLINE] + rest);
    assert(spec_read_exact(tail, n as int) == Ok::<_, ProtocolError>(
        (b, seq![NEWLINE] + rest),
    ));
    assert((seq![NEWLINE] + rest)[0] == NEWLINE);
    assert((seq![NEWLINE] + rest).skip(1) =~= rest);
}

/// What `send_clipboard` writes for an image, `read_image` reads back with
/// identical width, height, and pixel bytes, for all dimensions and every
/// matching byte buffer.
pub proof fn lemma_image_round_trip(img: ImageV, rest: Seq<u8>)
    requires
        img.wf(),
        img.width <= usize::MAX,
        img.height <= usize::MAX,
        img.bytes.len() <= usize::MAX,
    ensures
        spec_read_image(image_frame(img) + rest) == Ok::<_, ProtocolError>((img, rest)),
{
    let w = img.width as usize;
    let h = img.height as usize;
    let b = img.bytes;
    let tail1 = int_frame(img.height) + b + seq![NEWLINE] + rest;
    let tail2 = b + seq![NEWLINE] + rest;
    assert(image_frame(img) + rest =~= int_frame(img.width) + tail1);
    lemma_read_int_frame(w, tail1);
    assert(tail1 =~= int_frame(img.height) + tail2);
    lemma_read_int_frame(h, tail2);
    assert(w * h * 4 == b.len());
    assert(tail2.take(b.len() as int) =~= b);
    assert(tail2.skip(b.len() as int) =~= seq![NEWLINE] + rest);
    assert((seq![NEWLINE] + rest)[0] == NEWLINE);
    assert((seq![NEWLINE] + rest).skip(1) =~= rest);
    assert(spec_read_image(image_frame(img) + rest) == Ok::<_, ProtocolError>(
        (ImageV { width: w as nat, height: h as nat, bytes: b }, rest),
    ));
}

/// What `send_clipboard` writes for a text value, the reader gets back as
/// the same text: the response opens with the line `COPY TEXT`, and the
/// string payload after it reads back as exactly the characters sent.
pub proof fn lemma_text_response_round_trip(t: Seq<char>, rest: Seq<u8>)
    requires
        encode_utf8(t).len() <= usize::MAX,
    ensures
        spec_read_line(clipboard_frame(Some(ContentV::Text(t))) + rest) == Ok::<_, ProtocolError>(
            (encode_utf8("COPY TEXT"@), string_frame(encode_utf8(t)) + rest),
        ),
        valid_utf8(encode_utf8("COPY TEXT"@)),
        decode_utf8(encode_utf8("COPY TEXT"@)) == "COPY TEXT"@,
        spec_read_string(string_frame(encode_utf8(t)) + rest) == Ok::<_, ProtocolError>((t, rest)),
{
    broadcast use vstd::utf8::encode_utf8_valid_utf8;
    broadcast use vstd::utf8::encode_utf8_decode_utf8;

    reveal_strlit("COPY TEXT");
    let cmd = "COPY TEXT"@;
    assert(forall|i: int| 0 <= i < cmd.len() ==> cmd[i] != '\n') by {
        assert(cmd.len() == 9);
        assert(cmd[0] == 'C' && cmd[1] == 'O' && cmd[2] == 'P' && cmd[3] == 'Y' && cmd[4] == ' '
            && cmd[5] == 'T' && cmd[6] == 'E' && cmd[7] == 'X' && cmd[8] == 'T');
    }
    assert(is_ascii_chars(cmd));
    lemma_ascii_line(cmd);
    let tail = string_frame(encode_utf8(t)) + rest;
    assert(clipboard_frame(Some(ContentV::Text(t))) + rest =~= line_frame(encode_utf8(cmd))
        + tail);
    lemma_read_line_frame(encode_utf8(cmd), tail);
    lemma_string_round_trip(t, rest);
}

/// What `send_clipboard` writes for an image, the reader gets back as the
/// same image: the response opens with the line `COPY IMAGE`, and the
/// payload after it reads back with identical dimensions and pixel bytes.
pub proof fn lemma_image_response_round_trip(img: ImageV, rest: Seq<u8>)
    requires
        img.wf(),
        img.width <= usize::MAX,
        img.height <= usize::MAX,
        img.bytes.len() <= usize::MAX,
    ensures
        spec_read_line(clipboard_frame(Some(ContentV::Image(img))) + rest) == Ok::<
            _,
            ProtocolError,
        >((encode_utf8("COPY IMAGE"@), image_frame(img) + rest)),
        valid_utf8(encode_utf8("COPY IMAGE"@)),
        decode_utf8(encode_utf8("COPY IMAGE"@)) == "COPY IMAGE"@,
        spec_read_image(image_frame(img) + rest) == Ok::<_, ProtocolError>((img, rest)),
{
    broadcast use vstd::utf8::encode_utf8_valid_utf8;
    broadcast use vstd::utf8::encode_utf8_decode_utf8;

    reveal_strlit("COPY IMAGE");
    let cmd = "COPY IMAGE"@;
    assert(forall|i: int| 0 <= i < cmd.len() ==> cmd[i] != '\n') by {
        assert(cmd.len() == 10);
        assert(cmd[0] == 'C' && cmd[1] == 'O' && cmd[2] == 'P' && cmd[3] == 'Y' && cmd[4] == ' '
            && cmd[5] == 'I' && cmd[6] == 'M' && cmd[7] == 'A' && cmd[8] == 'G' && cmd[9] == 'E');
    }
    assert(is_ascii_chars(cmd));
    lemma_ascii_line(cmd);
    let tail = image_frame(img) + rest;
    assert(clipboard_frame(Some(ContentV::Image(img))) + rest =~= line_frame(encode_utf8(cmd))
        + tail);
    lemma_read_line_frame(encode_utf8(cmd), tail);
    lemma_image_round_trip(img, rest);
}

/// An empty clipboard goes over the wire as the single line `COPY NONE`,
/// with no trailing payload: reading the command line back consumes the
/// whole frame and yields exactly that token.
pub proof fn lemma_copy_none_round_trip(rest: Seq<u8>)
    ensures
        clipboard_frame(None) == line_frame(encode_utf8("COPY NONE"@)),
        spec_read_line(clipboard_frame(None) + rest) == Ok::<_, ProtocolError>(
            (encode_utf8("COPY NONE"@), rest),
        ),
        decode_utf8(encode_utf8("COPY NONE"@)) == "COPY NONE"@,
{
    broadcast use vstd::utf8::encode_utf8_decode_utf8;

    reveal_strlit("COPY NONE");
    let s = "COPY NONE"@;
    assert(forall|i: int| 0 <= i < s.len() ==> s[i] != '\n') by {
        assert(s.len() == 9);
        assert(s[0] == 'C' && s[1] == 'O' && s[2] == 'P' && s[3] == 'Y' && s[4] == ' ' && s[5]
            == 'N' && s[6] == 'O' && s[7] == 'N' && s[8] == 'E');
    }
    assert(is_ascii_chars(s));
    lemma_ascii_line(s);
    lemma_read_line_frame(encode_utf8(s), rest);
}

} // verus!
