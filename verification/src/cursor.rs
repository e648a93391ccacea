//! A forward-only cursor over a window of bytes.
//!
//! The low-level decoding (variable-length integers, strings) is done by the
//! `wasmparser` crate. Each primitive is a function of the bytes it is handed,
//! and this module names those functions so that everything built on top of
//! the cursor can be specified exactly.

use vstd::prelude::*;
use vstd::slice::slice_subrange;
use wasmparser::BinaryReader;

verus! {

/// What `wasmparser::BinaryReader::read_var_u32` yields at the start of
/// `window`: the decoded value and the number of bytes it occupies, or `None`
/// where the read fails.
pub uninterp spec fn var_u32(window: Seq<u8>) -> Option<(u32, usize)>;

/// What `wasmparser::BinaryReader::read_string` yields at the start of
/// `window`: the decoded text and the number of bytes it occupies (length
/// prefix included), or `None` where the read fails.
pub uninterp spec fn length_prefixed_text(window: Seq<u8>) -> Option<(Seq<char>, usize)>;

/// Calls `wasmparser::BinaryReader::read_var_u32` on a fresh reader over
/// `window`. Trusted: the result is the function [`var_u32`] of the bytes,
/// paired with the reader's position after the read.
#[verifier::external_body]
fn decode_var_u32(window: &[u8]) -> (r: Option<(u32, usize)>)
    ensures
        r == var_u32(window@),
{
    let mut reader = BinaryReader::new(window);
    let value = reader.read_var_u32().ok()?;
    Some((value, reader.current_position()))
}

/// Calls `wasmparser::BinaryReader::read_string` on a fresh reader over
/// `window`. Trusted: the result is the function [`length_prefixed_text`] of
/// the bytes, paired with the reader's position after the read.
#[verifier::external_body]
fn decode_text(window: &[u8]) -> (r: Option<(String, usize)>)
    ensures
        match r {
            Some((text, used)) => length_prefixed_text(window@) == Some((text@, used)),
            None => length_prefixed_text(window@) is None,
        },
{
    let mut reader = BinaryReader::new(window);
    let text = reader.read_string().ok()?;
    Some((text.to_string(), reader.current_position()))
}

/// A decoded item together with the bytes it took, accepted only where the
/// item is not empty and lies inside the window it was read from.
pub open spec fn within<T>(raw: Option<(T, usize)>, window: Seq<u8>) -> Option<(T, int)> {
    match raw {
        Some((item, used)) => if 1 <= used <= window.len() {
            Some((item, used as int))
        } else {
            None
        },
        None => None,
    }
}

/// The variable-length integer at the start of `window` and its encoded length.
pub open spec fn leb_u32(window: Seq<u8>) -> Option<(u32, int)> {
    within(var_u32(window), window)
}

/// The length-prefixed text at the start of `window` and its encoded length.
pub open spec fn text(window: Seq<u8>) -> Option<(Seq<char>, int)> {
    within(length_prefixed_text(window), window)
}

/// Skipping `used` bytes of what is left behind position `pos` leaves what is
/// behind position `pos + used`.
pub proof fn lemma_skip_skip(bytes: Seq<u8>, pos: int, used: int)
    requires
        0 <= pos,
        0 <= used,
        pos + used <= bytes.len(),
    ensures
        bytes.skip(pos).skip(used) == bytes.skip(pos + used),
{
    assert(bytes.skip(pos).skip(used) =~= bytes.skip(pos + used));
}

/// A read position inside a window of bytes.
pub struct Cursor<'a> {
    pub bytes: &'a [u8],
    pub pos: usize,
}

impl<'a> Cursor<'a> {
    /// The position never passes the end of the window.
    pub open spec fn wf(&self) -> bool {
        self.pos <= self.bytes@.len()
    }

    /// The bytes that are still to be read.
    pub open spec fn rest(&self) -> Seq<u8> {
        self.bytes@.skip(self.pos as int)
    }

    /// A cursor at the start of `bytes`.
    pub fn new(bytes: &'a [u8]) -> (c: Cursor<'a>)
        ensures
            c.wf(),
            c.bytes == bytes,
            c.pos == 0,
    {
        Cursor { bytes, pos: 0 }
    }

    /// The offset of the next unread byte from the start of the window.
    pub fn position(&self) -> (p: usize)
        ensures
            p == self.pos,
    {
        self.pos
    }

    /// Whether every byte of the window has been read.
    pub fn eof(&self) -> (b: bool)
        requires
            self.wf(),
        ensures
            b <==> self.pos == self.bytes@.len(),
    {
        self.pos >= self.bytes.len()
    }

    /// Reads one variable-length `u32` and advances past it; on failure the
    /// cursor stays where it was.
    pub fn read_var_u32(&mut self) -> (r: Option<u32>)
        requires
            old(self).wf(),
        ensures
            final(self).wf(),
            final(self).bytes == old(self).bytes,
            match leb_u32(old(self).rest()) {
                Some((value, used)) => r == Some(value) && final(self).pos == old(self).pos + used,
                None => r is None && final(self).pos == old(self).pos,
            },
    {
        let window = slice_subrange(self.bytes, self.pos, self.bytes.len());
        assert(window@ == self.rest());
        match decode_var_u32(window) {
            Some((value, used)) => {
                if 1 <= used && used <= self.bytes.len() - self.pos {
                    self.pos = self.pos + used;
                    Some(value)
                } else {
                    None
                }
            },
            None => None,
        }
    }

    /// Reads one length-prefixed text and advances past it; on failure the
    /// cursor stays where it was.
    pub fn read_text(&mut self) -> (r: Option<String>)
        requires
            old(self).wf(),
        ensures
            final(self).wf(),
            final(self).bytes == old(self).bytes,
            match text(old(self).rest()) {
                Some((value, used)) => r matches Some(s) && s@ == value && final(self).pos
                    == old(self).pos + used,
                None => r is None && final(self).pos == old(self).pos,
            },
    {
        let window = slice_subrange(self.bytes, self.pos, self.bytes.len());
        assert(window@ == self.rest());
        match decode_text(window) {
            Some((value, used)) => {
                if 1 <= used && used <= self.bytes.len() - self.pos {
                    self.pos = self.pos + used;
                    Some(value)
                } else {
                    None
                }
            },
            None => None,
        }
    }
}

} // verus!
