//! A UTF-8 decoder over an in-memory byte source that always holds the one
//! character it decoded last, for the tokenizer to peek at, and a flag for
//! the error of its latest step.
use vstd::prelude::*;
use vstd::utf8::{
    char_u32_cast, encode_scalar, has_width_1_encoding, has_width_2_encoding,
    has_width_3_encoding, has_width_4_encoding, is_scalar,
};
use crate::token::Error;
use crate::chars::char_from_u32;

verus! {

/// The character that the decoder holds: the one it decoded last, or `End`
/// before the first character and once the source is used up.
#[derive(Clone, Copy, Debug, PartialEq, Eq, Structural)]
pub enum Lookahead {
    Char(char),
    End,
}

/// The errors that decoding itself can give.
pub open spec fn decode_error(e: Error) -> bool {
    e == Error::DecoderError || e == Error::UnexpectedEndOfFile || e == Error::InvalidCodePoint
}

/// The number of continuation bytes that a leading byte announces, or
/// `None` for a byte of the form `11111xxx`.
pub open spec fn continuation_count(b: u8) -> Option<nat> {
    if b & 0x80 == 0 {
        Some(0)
    } else if b & 0x20 == 0 {
        Some(1)
    } else if b & 0x10 == 0 {
        Some(2)
    } else if b & 0x08 == 0 {
        Some(3)
    } else {
        None
    }
}

/// The value bits of a leading byte that announces `n` continuation bytes.
pub open spec fn leading_value(b: u8, n: nat) -> u32 {
    if n == 0 {
        b as u32
    } else if n == 1 {
        (b & 0x1F) as u32
    } else if n == 2 {
        (b & 0x0F) as u32
    } else {
        (b & 0x07) as u32
    }
}

/// Folds the low six bits of `count` bytes from `start` on into `acc`.
pub open spec fn fold_continuation(acc: u32, bytes: Seq<u8>, start: int, count: nat) -> u32
    decreases count,
{
    if count == 0 {
        acc
    } else {
        fold_continuation(
            (acc << 6u32) | ((bytes[start] & 0x3F) as u32),
            bytes,
            start + 1,
            (count - 1) as nat,
        )
    }
}

proof fn lemma_fold_step(acc: u32, bytes: Seq<u8>, start: int, count: nat)
    requires
        count > 0,
    ensures
        fold_continuation(acc, bytes, start, count) == fold_continuation(
            (acc << 6u32) | ((bytes[start] & 0x3F) as u32),
            bytes,
            start + 1,
            (count - 1) as nat,
        ),
{
}

/// One decoding step at `pos`: the character decoded (or the end), or the
/// error, and the position after the bytes the step read. A bad leading byte
/// is read alone; a sequence that the source ends inside is read to the end;
/// an invalid code point is read whole.
pub open spec fn decode_at(bytes: Seq<u8>, pos: int) -> (Result<Lookahead, Error>, int) {
    if pos >= bytes.len() {
        (Ok(Lookahead::End), pos)
    } else {
        let b = bytes[pos];
        match continuation_count(b) {
            None => (Err(Error::DecoderError), pos + 1),
            Some(n) => if pos + n >= bytes.len() {
                (Err(Error::UnexpectedEndOfFile), bytes.len() as int)
            } else {
                let v = fold_continuation(leading_value(b, n), bytes, pos + 1, n);
                if is_scalar(v) {
                    (Ok(Lookahead::Char(v as char)), pos + 1 + n)
                } else {
                    (Err(Error::InvalidCodePoint), pos + 1 + n)
                }
            },
        }
    }
}

proof fn lemma_width_1(v: u32)
    by (bit_vector)
    requires
        v <= 0x7F,
    ensures
        ((v & 0x7F) as u8) & 0x80 == 0,
        ((v & 0x7F) as u8) as u32 == v,
{
}

proof fn lemma_width_2(v: u32)
    by (bit_vector)
    requires
        0x80 <= v <= 0x7FF,
    ensures
        (0xC0u8 | ((v >> 6u32) & 0x1F) as u8) & 0x80 != 0,
        (0xC0u8 | ((v >> 6u32) & 0x1F) as u8) & 0x20 == 0,
        ((((0xC0u8 | ((v >> 6u32) & 0x1F) as u8) & 0x1F) as u32) << 6u32) | (((0x80u8 | (v
            & 0x3F) as u8) & 0x3F) as u32) == v,
{
}

proof fn lemma_width_3(v: u32)
    by (bit_vector)
    requires
        0x800 <= v <= 0xFFFF,
    ensures
        (0xE0u8 | ((v >> 12u32) & 0x0F) as u8) & 0x80 != 0,
        (0xE0u8 | ((v >> 12u32) & 0x0F) as u8) & 0x20 != 0,
        (0xE0u8 | ((v >> 12u32) & 0x0F) as u8) & 0x10 == 0,
        ((((((0xE0u8 | ((v >> 12u32) & 0x0F) as u8) & 0x0F) as u32) << 6u32) | (((0x80u8 | ((v
            >> 6u32) & 0x3F) as u8) & 0x3F) as u32)) << 6u32) | (((0x80u8 | (v & 0x3F) as u8)
            & 0x3F) as u32) == v,
{
}

proof fn lemma_width_4(v: u32)
    by (bit_vector)
    requires
        0x10000 <= v <= 0x10FFFF,
    ensures
        (0xF0u8 | ((v >> 18u32) & 0x7) as u8) & 0x80 != 0,
        (0xF0u8 | ((v >> 18u32) & 0x7) as u8) & 0x20 != 0,
        (0xF0u8 | ((v >> 18u32) & 0x7) as u8) & 0x10 != 0,
        (0xF0u8 | ((v >> 18u32) & 0x7) as u8) & 0x08 == 0,
        ((((((((0xF0u8 | ((v >> 18u32) & 0x7) as u8) & 0x07) as u32) << 6u32) | (((0x80u8 | ((v
            >> 12u32) & 0x3F) as u8) & 0x3F) as u32)) << 6u32) | (((0x80u8 | ((v >> 6u32) & 0x3F)
            as u8) & 0x3F) as u32)) << 6u32) | (((0x80u8 | (v & 0x3F) as u8) & 0x3F) as u32) == v,
{
}

/// Decoding the UTF-8 encoding of any character, whatever follows it,
/// yields that very character and consumes exactly its encoding.
pub proof fn lemma_decode_encoded_char(c: char, rest: Seq<u8>)
    ensures
        decode_at(encode_scalar(c as u32) + rest, 0) == (
            Ok::<Lookahead, Error>(Lookahead::Char(c)),
            encode_scalar(c as u32).len() as int,
        ),
{
    let v = c as u32;
    let e = encode_scalar(v);
    let bytes = e + rest;
    char_u32_cast(c, v);
    vstd::utf8::char_is_scalar(c);
    if has_width_1_encoding(v) {
        lemma_width_1(v);
    } else if has_width_2_encoding(v) {
        lemma_width_2(v);
        let b = bytes[0];
        lemma_fold_step(leading_value(b, 1), bytes, 1, 1);
    } else if has_width_3_encoding(v) {
        lemma_width_3(v);
        let b = bytes[0];
        let a0 = leading_value(b, 2);
        let a1 = (a0 << 6u32) | ((bytes[1] & 0x3F) as u32);
        lemma_fold_step(a0, bytes, 1, 2);
        lemma_fold_step(a1, bytes, 2, 1);
    } else {
        assert(has_width_4_encoding(v));
        lemma_width_4(v);
        let b = bytes[0];
        let a0 = leading_value(b, 3);
        let a1 = (a0 << 6u32) | ((bytes[1] & 0x3F) as u32);
        let a2 = (a1 << 6u32) | ((bytes[2] & 0x3F) as u32);
        lemma_fold_step(a0, bytes, 1, 3);
        lemma_fold_step(a1, bytes, 2, 2);
        lemma_fold_step(a2, bytes, 3, 1);
    }
}

/// A multi-byte encoding that the source ends in the middle of fails with
/// `UnexpectedEndOfFile` and is read to the end; a leading byte of the form
/// `11111xxx` fails with `DecoderError` and is read alone.
pub proof fn lemma_decode_malformed(c: char, k: int, bytes: Seq<u8>, pos: int)
    ensures
        1 <= k < encode_scalar(c as u32).len() ==> decode_at(
            encode_scalar(c as u32).subrange(0, k),
            0,
        ) == (Err::<Lookahead, Error>(Error::UnexpectedEndOfFile), k),
        0 <= pos < bytes.len() && bytes[pos] & 0xF8 == 0xF8 ==> decode_at(bytes, pos) == (
            Err::<Lookahead, Error>(Error::DecoderError),
            pos + 1,
        ),
{
    let v = c as u32;
    vstd::utf8::char_is_scalar(c);
    if has_width_2_encoding(v) {
        lemma_width_2(v);
    } else if has_width_3_encoding(v) {
        lemma_width_3(v);
    } else if has_width_4_encoding(v) {
        lemma_width_4(v);
    }
    if 0 <= pos < bytes.len() && bytes[pos] & 0xF8 == 0xF8 {
        let b = bytes[pos];
        assert(b & 0x80 != 0 && b & 0x20 != 0 && b & 0x10 != 0 && b & 0x08 != 0) by (bit_vector)
            requires b & 0xF8 == 0xF8;
    }
}

/// The decoder's state as values: the whole source, the position of the
/// next unread byte, the character at hand, and the error of the latest
/// step if it failed.
pub struct DecoderView {
    pub source: Seq<u8>,
    pub pos: int,
    pub current: Lookahead,
    pub fault: Option<Error>,
}

/// A decoder over `source` before its first step.
pub open spec fn unprimed(source: Seq<u8>) -> DecoderView {
    DecoderView { source, pos: 0, current: Lookahead::End, fault: None }
}

/// The state after one decoding step: a success replaces the character and
/// clears the fault; a failure keeps the character and sets the fault.
/// Either way the position moves past the bytes that were read.
pub open spec fn next_state(d: DecoderView) -> DecoderView {
    let (res, p) = decode_at(d.source, d.pos);
    match res {
        Ok(l) => DecoderView { pos: p, current: l, fault: None, ..d },
        Err(e) => DecoderView { pos: p, fault: Some(e), ..d },
    }
}

/// A cursor over a byte source that has always decoded one character ahead.
pub struct Decoder {
    source: Vec<u8>,
    pos: usize,
    current: Lookahead,
    fault: Option<Error>,
}

impl View for Decoder {
    type V = DecoderView;

    closed spec fn view(&self) -> DecoderView {
        DecoderView {
            source: self.source@,
            pos: self.pos as int,
            current: self.current,
            fault: self.fault,
        }
    }
}

impl DecoderView {
    pub open spec fn wf(self) -> bool {
        &&& 0 <= self.pos <= self.source.len()
        &&& self.fault matches Some(e) ==> decode_error(e)
    }
}

impl Decoder {
    pub open spec fn wf(&self) -> bool {
        self@.wf()
    }

    /// A decoder over `source`, primed with its first character (or the
    /// error that decoding it gave).
    pub fn new(source: Vec<u8>) -> (r: Decoder)
        ensures
            r.wf(),
            r@ == next_state(unprimed(source@)),
    {
        let mut d = Decoder { source, pos: 0, current: Lookahead::End, fault: None };
        let _ = d.advance();
        d
    }

    /// The character at hand.
    pub fn current(&self) -> (r: Lookahead)
        ensures
            r == self@.current,
    {
        self.current
    }

    /// The error of the latest step, if it failed.
    pub fn fault(&self) -> (r: Option<Error>)
        ensures
            r == self@.fault,
    {
        self.fault
    }

    /// Decodes the next character of the source: the character (or the end)
    /// on success, else the error.
    pub fn advance(&mut self) -> (r: Result<Lookahead, Error>)
        requires
            old(self).wf(),
        ensures
            final(self).wf(),
            final(self)@ == next_state(old(self)@),
            r == decode_at(old(self)@.source, old(self)@.pos).0,
    {
        let pos = self.pos;
        if pos >= self.source.len() {
            self.current = Lookahead::End;
            self.fault = None;
            return Ok(Lookahead::End);
        }
        let b = self.source[pos];
        if b & 0x80 == 0 {
            proof {
                assert(continuation_count(b) == Some(0nat));
                assert(is_scalar(b as u32)) by (bit_vector)
                    requires b & 0x80 == 0;
            }
            self.current = Lookahead::Char(b as char);
            self.fault = None;
            self.pos = pos + 1;
            return Ok(self.current);
        }
        let count: usize;
        let mut v: u32;
        if b & 0x20 == 0 {
            count = 1;
            v = (b & 0x1F) as u32;
        } else if b & 0x10 == 0 {
            count = 2;
            v = (b & 0x0F) as u32;
        } else if b & 0x08 == 0 {
            count = 3;
            v = (b & 0x07) as u32;
        } else {
            self.fault = Some(Error::DecoderError);
            self.pos = pos + 1;
            return Err(Error::DecoderError);
        }
        assert(continuation_count(b) == Some(count as nat));
        if count >= self.source.len() - pos {
            self.fault = Some(Error::UnexpectedEndOfFile);
            self.pos = self.source.len();
            return Err(Error::UnexpectedEndOfFile);
        }
        let ghost whole = leading_value(b, count as nat);
        let mut i: usize = 0;
        while i < count
            invariant
                i <= count,
                pos + count < self.source.len(),
                fold_continuation(v, self.source@, pos + 1 + i, (count - i) as nat)
                    == fold_continuation(whole, self.source@, pos + 1, count as nat),
            decreases count - i,
        {
            let ghost before = v;
            let byte = self.source[pos + 1 + i];
            v = (v << 6u32) | ((byte & 0x3F) as u32);
            proof {
                lemma_fold_step(before, self.source@, pos + 1 + i, (count - i) as nat);
            }
            i = i + 1;
        }
        self.pos = pos + 1 + count;
        match char_from_u32(v) {
            Some(c) => {
                self.current = Lookahead::Char(c);
                self.fault = None;
                Ok(self.current)
            },
            None => {
                self.fault = Some(Error::InvalidCodePoint);
                Err(Error::InvalidCodePoint)
            },
        }
    }
}

} // verus!
