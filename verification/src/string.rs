//! Owned and borrowed nul-terminated UTF-8 strings, and the scratch
//! buffer that stages transient nul-terminated text.

use vstd::prelude::*;
use vstd::slice::{slice_index_get, slice_subrange};
use vstd::string::StringSliceAdditionalSpecFns;
use vstd::utf8::{decode_utf8, encode_scalar, encode_utf8, valid_utf8};
use vstd::utf8::{char_is_scalar, encode_utf8_decode_utf8, has_width_3_encoding};

use crate::nulterm::{first_nul, has_nul, stored_bytes, wf_bytes};
use crate::nulterm::{
    lemma_append_model, lemma_first_nul, lemma_raw_bytes, lemma_wf_first_nul,
};

verus! {

/// Relies on `str::from_utf8`: it succeeds exactly on UTF-8 input, and
/// the returned string slice views the given bytes unchanged.
#[verifier::external_body]
fn try_bytes_to_str<'a>(bytes: &'a [u8]) -> (r: Option<&'a str>)
    ensures
        r is Some <==> valid_utf8(bytes@),
        (r matches Some(s) ==> s.spec_bytes() == bytes@),
{
    core::str::from_utf8(bytes).ok()
}

/// Relies on `Vec::capacity`: a vector's length never exceeds its
/// capacity.
#[verifier::external_body]
fn vec_capacity<T>(v: &Vec<T>) -> (c: usize)
    ensures
        c >= v@.len(),
{
    v.capacity()
}

/// Relies on `Vec::reserve_exact`: reserving capacity leaves the
/// contents unchanged.
#[verifier::external_body]
fn vec_reserve_exact<T>(v: &mut Vec<T>, additional: usize)
    ensures
        final(v)@ == old(v)@,
{
    v.reserve_exact(additional)
}

/// Appends every byte of `bytes` to `v`, in order.
fn extend_bytes(v: &mut Vec<u8>, bytes: &[u8])
    ensures
        final(v)@ == old(v)@ + bytes@,
{
    let n = bytes.len();
    let mut i: usize = 0;
    while i < n
        invariant
            i <= n,
            n == bytes@.len(),
            v@ == old(v)@ + bytes@.take(i as int),
        decreases n - i,
    {
        let b = *slice_index_get(bytes, i);
        v.push(b);
        proof {
            assert(bytes@.take(i + 1) =~= bytes@.take(i as int).push(bytes@[i as int]));
            assert(old(v)@ + bytes@.take(i as int).push(bytes@[i as int]) =~= (old(v)@
                + bytes@.take(i as int)).push(bytes@[i as int]));
        }
        i += 1;
    }
    proof {
        assert(bytes@.take(n as int) =~= bytes@);
    }
}

/// Position of the first nul byte in `v`, found by a linear scan.
fn find_first_nul(v: &Vec<u8>) -> (i: usize)
    requires
        has_nul(v@),
    ensures
        i == first_nul(v@),
{
    proof {
        lemma_first_nul(v@);
    }
    let n = v.len();
    let mut i: usize = 0;
    while v[i] != 0u8
        invariant
            has_nul(v@),
            n == v@.len(),
            0 <= i <= first_nul(v@),
            first_nul(v@) < n,
        decreases n - i,
    {
        i += 1;
        proof {
            lemma_first_nul(v@);
        }
    }
    proof {
        lemma_first_nul(v@);
    }
    i
}

/// The UTF-8 encoding of a single character, computed byte by byte.
fn encode_char(c: char) -> (r: Vec<u8>)
    ensures
        r@ == encode_utf8(seq![c]),
{
    proof {
        char_is_scalar(c);
    }
    let u = c as u32;
    let mut v: Vec<u8> = Vec::new();
    if u <= 0x7F {
        v.push((u & 0x7F) as u8);
        proof {
            assert(v@ =~= encode_scalar(u));
        }
    } else if u <= 0x7FF {
        v.push(0xC0u8 | ((u >> 6) & 0x1F) as u8);
        v.push(0x80u8 | (u & 0x3F) as u8);
        proof {
            assert(v@ =~= encode_scalar(u));
        }
    } else if u <= 0xFFFF {
        v.push(0xE0u8 | ((u >> 12) & 0x0F) as u8);
        v.push(0x80u8 | ((u >> 6) & 0x3F) as u8);
        v.push(0x80u8 | (u & 0x3F) as u8);
        proof {
            assert(has_width_3_encoding(u));
            assert(v@ =~= encode_scalar(u));
        }
    } else {
        v.push(0xF0u8 | ((u >> 18) & 0x7) as u8);
        v.push(0x80u8 | ((u >> 12) & 0x3F) as u8);
        v.push(0x80u8 | ((u >> 6) & 0x3F) as u8);
        v.push(0x80u8 | (u & 0x3F) as u8);
        proof {
            assert(v@ =~= encode_scalar(u));
        }
    }
    proof {
        let cs = seq![c];
        assert(cs.len() == 1 && cs[0] == c);
        assert(cs.drop_first() =~= Seq::<char>::empty());
        assert(encode_utf8(cs.drop_first()) =~= Seq::<u8>::empty());
        assert(encode_utf8(cs) == encode_scalar(c as u32) + encode_utf8(cs.drop_first()));
        assert(encode_scalar(c as u32) + encode_utf8(cs.drop_first()) =~= encode_scalar(
            c as u32,
        ));
    }
    v
}

/// A UTF-8 encoded, growable, implicitly nul-terminated string.
///
/// The backing bytes always end in a nul terminator; the logical content
/// is everything before the first nul. The byte representation is public
/// so that callers staging the bytes for a C consumer can reach it.
#[derive(Clone, Hash, Ord, Eq, PartialOrd, PartialEq)]
pub struct ImString(pub Vec<u8>);

impl View for ImString {
    type V = Seq<u8>;

    open spec fn view(&self) -> Seq<u8> {
        self.0@
    }
}

impl ImString {
    /// Well-formed backing bytes: one terminating nul, valid UTF-8 before it.
    pub open spec fn wf(self) -> bool {
        wf_bytes(self@)
    }

    /// Creates a new `ImString` from an existing string. Content past an
    /// interior nul character is silently dropped.
    pub fn new(value: String) -> (s: ImString)
        ensures
            s@ == stored_bytes(value@),
            s.wf(),
    {
        let mut bytes = vstd::slice::slice_to_vec(value.as_str().as_bytes());
        bytes.push(0u8);
        let mut s = ImString(bytes);
        proof {
            assert(s@ =~= encode_utf8(value@) + seq![0u8]);
            lemma_raw_bytes(value@);
        }
        s.refresh_len();
        s
    }

    /// Creates a new empty `ImString` with a particular capacity.
    pub fn with_capacity(capacity: usize) -> (s: ImString)
        requires
            capacity < usize::MAX,
        ensures
            s@ == seq![0u8],
            s.wf(),
    {
        let mut v: Vec<u8> = Vec::with_capacity(capacity + 1);
        v.push(0u8);
        proof {
            assert(v@ =~= seq![0u8]);
            assert(v@.subrange(0, 0) =~= Seq::<u8>::empty());
        }
        ImString(v)
    }

    /// Builds from bytes that hold UTF-8 content without any nul byte; a
    /// terminator is appended.
    pub fn from_utf8_unchecked(v: Vec<u8>) -> (s: ImString)
        requires
            valid_utf8(v@),
            forall|i: int| 0 <= i < v@.len() ==> v@[i] != 0u8,
        ensures
            s@ == v@ + seq![0u8],
            s.wf(),
    {
        let ghost orig = v@;
        let mut v = v;
        v.push(0u8);
        proof {
            assert(v@.subrange(0, v@.len() - 1) =~= orig);
        }
        ImString(v)
    }

    /// Builds from bytes that already carry their single trailing nul
    /// terminator and valid UTF-8 content.
    pub fn from_utf8_with_nul_unchecked(v: Vec<u8>) -> (s: ImString)
        requires
            wf_bytes(v@),
        ensures
            s@ == v@,
            s.wf(),
    {
        ImString(v)
    }

    /// Truncates this `ImString`, removing all contents.
    pub fn clear(&mut self)
        ensures
            final(self)@ == seq![0u8],
            final(self).wf(),
    {
        self.0.clear();
        self.0.push(0u8);
        proof {
            assert(self@ =~= seq![0u8]);
            assert(self@.subrange(0, 0) =~= Seq::<u8>::empty());
        }
    }

    /// Appends encoded content plus a fresh terminator, then rescans, so
    /// that appended bytes past an interior nul are dropped.
    fn append_encoded(&mut self, bytes: &[u8], Ghost(chars): Ghost<Seq<char>>)
        requires
            old(self).wf(),
            bytes@ == encode_utf8(chars),
        ensures
            final(self)@ == old(self)@.subrange(0, old(self)@.len() - 1) + stored_bytes(chars),
            final(self).wf(),
    {
        let ghost content = self.0@.subrange(0, self.0@.len() - 1);
        self.0.pop();
        proof {
            assert(self.0@ =~= content);
        }
        extend_bytes(&mut self.0, bytes);
        self.0.push(0u8);
        proof {
            assert(self.0@ =~= content + (encode_utf8(chars) + seq![0u8]));
            lemma_append_model(content, chars);
        }
        self.refresh_len();
    }

    /// Appends the given character to the end of this `ImString`.
    pub fn push(&mut self, ch: char)
        requires
            old(self).wf(),
        ensures
            final(self)@ == old(self)@.subrange(0, old(self)@.len() - 1) + stored_bytes(seq![ch]),
            final(self).wf(),
    {
        let buf = encode_char(ch);
        let ghost chars = seq![ch];
        self.append_encoded(buf.as_slice(), Ghost(chars));
    }

    /// Appends a given string slice to the end of this `ImString`.
    /// Content past an interior nul character is silently dropped.
    pub fn push_str(&mut self, string: &str)
        requires
            old(self).wf(),
        ensures
            final(self)@ == old(self)@.subrange(0, old(self)@.len() - 1) + stored_bytes(string@),
            final(self).wf(),
    {
        self.append_encoded(string.as_bytes(), Ghost(string@));
    }

    /// Returns the capacity of this `ImString` in bytes, excluding the
    /// slot used by the terminator.
    pub fn capacity(&self) -> (r: usize)
        requires
            self@.len() >= 1,
        ensures
            r >= self@.len() - 1,
    {
        vec_capacity(&self.0) - 1
    }

    /// Returns the capacity of this `ImString` in bytes, including the
    /// implicit nul byte.
    pub fn capacity_with_nul(&self) -> (r: usize)
        ensures
            r >= self@.len(),
    {
        vec_capacity(&self.0)
    }

    /// Ensures that the capacity of this `ImString` is at least
    /// `additional` bytes larger than the current length, growing
    /// amortized. The contents are unchanged.
    pub fn reserve(&mut self, additional: usize)
        ensures
            final(self)@ == old(self)@,
    {
        self.0.reserve(additional);
    }

    /// Like `reserve`, but asks for the exact additional capacity.
    pub fn reserve_exact(&mut self, additional: usize)
        ensures
            final(self)@ == old(self)@,
    {
        vec_reserve_exact(&mut self.0, additional);
    }

    /// Overwrites one backing byte in place. This models an edit made by
    /// the external system through the string's raw pointer: it bypasses
    /// the type's own bookkeeping, so `refresh_len` must be called before
    /// the string is read as text again.
    pub fn write_byte(&mut self, pos: usize, byte: u8)
        requires
            pos < old(self)@.len(),
        ensures
            final(self)@ == old(self)@.update(pos as int, byte),
    {
        self.0[pos] = byte;
    }

    /// Rescans the buffer for the first nul byte and truncates the
    /// logical length to include exactly that nul. This resynchronizes
    /// the wrapper after the bytes were edited in place; the bytes before
    /// the first nul must be valid UTF-8.
    pub fn refresh_len(&mut self)
        requires
            has_nul(old(self)@),
            valid_utf8(old(self)@.subrange(0, first_nul(old(self)@))),
        ensures
            final(self)@ == old(self)@.subrange(0, first_nul(old(self)@) + 1),
            final(self).wf(),
    {
        let i = find_first_nul(&self.0);
        let n = self.0.len();
        proof {
            lemma_first_nul(self.0@);
            assert(i < n);
        }
        self.0.truncate(i + 1);
        proof {
            let b = old(self)@;
            let t = final(self)@;
            assert(t == b.subrange(0, first_nul(b) + 1));
            assert(t.last() == 0u8);
            assert forall|j: int| 0 <= j < t.len() - 1 implies t[j] != 0u8 by {
                assert(t[j] == b[j]);
            }
            assert(t.subrange(0, t.len() - 1) =~= b.subrange(0, first_nul(b)));
        }
    }

    /// True when the logical content (excluding the terminator) is empty.
    pub fn is_empty(&self) -> (r: bool)
        requires
            self@.len() >= 1,
        ensures
            r == (self@[0] == 0u8),
            self.wf() ==> r == (self@.len() == 1),
    {
        proof {
            if self.wf() {
                lemma_wf_first_nul(self@);
                lemma_first_nul(self@);
            }
        }
        self.0[0] == 0u8
    }

    /// The logical content as a string slice, excluding the terminator.
    /// Like the borrowed view, it covers the bytes before the first nul.
    pub fn to_str(&self) -> (r: &str)
        requires
            has_nul(self@),
            valid_utf8(self@.subrange(0, first_nul(self@))),
        ensures
            r@ == decode_utf8(self@.subrange(0, first_nul(self@))),
    {
        let i = find_first_nul(&self.0);
        proof {
            lemma_first_nul(self.0@);
        }
        let content = slice_subrange(self.0.as_slice(), 0, i);
        match try_bytes_to_str(content) {
            Some(s) => {
                proof {
                    encode_utf8_decode_utf8(s@);
                }
                s
            },
            None => {
                proof {
                    assert(false);
                }
                vstd::pervasive::unreached()
            },
        }
    }

    /// Borrows the stored string: the bytes up to and including the first
    /// nul, as a borrowed nul-terminated slice.
    pub fn as_im_str(&self) -> (r: ImStr<'_>)
        requires
            has_nul(self@),
            valid_utf8(self@.subrange(0, first_nul(self@))),
        ensures
            r@ == self@.subrange(0, first_nul(self@) + 1),
            wf_bytes(r@),
    {
        let i = find_first_nul(&self.0);
        let n = self.0.len();
        proof {
            lemma_first_nul(self.0@);
            assert(i < n);
        }
        let bytes = slice_subrange(self.0.as_slice(), 0, i + 1);
        proof {
            let b = self@;
            let t = b.subrange(0, first_nul(b) + 1);
            assert(t.last() == 0u8);
            assert forall|j: int| 0 <= j < t.len() - 1 implies t[j] != 0u8 by {
                assert(t[j] == b[j]);
            }
            assert(t.subrange(0, t.len() - 1) =~= b.subrange(0, first_nul(b)));
        }
        ImStr { bytes }
    }
}

impl Default for ImString {
    /// An empty string: a single terminator byte.
    fn default() -> (s: ImString)
        ensures
            s@ == seq![0u8],
            s.wf(),
    {
        let mut v: Vec<u8> = Vec::new();
        v.push(0u8);
        proof {
            assert(v@ =~= seq![0u8]);
            assert(v@.subrange(0, 0) =~= Seq::<u8>::empty());
        }
        ImString(v)
    }
}

/// A UTF-8 encoded, implicitly nul-terminated string slice: a borrowed,
/// non-owning view of well-formed backing bytes.
#[derive(Clone, Copy)]
pub struct ImStr<'a> {
    bytes: &'a [u8],
}

impl<'a> View for ImStr<'a> {
    type V = Seq<u8>;

    closed spec fn view(&self) -> Seq<u8> {
        self.bytes@
    }
}

impl<'a> ImStr<'a> {
    /// Wraps a byte slice that carries valid UTF-8 content and its single
    /// trailing nul terminator, without copying.
    pub fn from_utf8_with_nul_unchecked(bytes: &'a [u8]) -> (r: ImStr<'a>)
        requires
            wf_bytes(bytes@),
        ensures
            r@ == bytes@,
    {
        ImStr { bytes }
    }

    /// The backing bytes, terminator included; what a C consumer of the
    /// string reads.
    pub fn as_bytes(&self) -> (r: &[u8])
        ensures
            r@ == self@,
    {
        self.bytes
    }

    /// Converts to a normal string slice, excluding the terminator.
    pub fn to_str(&self) -> (r: &str)
        requires
            wf_bytes(self@),
        ensures
            r@ == decode_utf8(self@.subrange(0, self@.len() - 1)),
    {
        let n = self.bytes.len();
        let content = slice_subrange(self.bytes, 0, n - 1);
        match try_bytes_to_str(content) {
            Some(s) => {
                proof {
                    encode_utf8_decode_utf8(s@);
                }
                s
            },
            None => {
                proof {
                    assert(false);
                }
                vstd::pervasive::unreached()
            },
        }
    }

    /// Returns true if the string slice is empty: it holds only the
    /// terminator.
    pub fn is_empty(&self) -> (r: bool)
        requires
            self@.len() >= 1,
        ensures
            r == (self@.len() == 1),
    {
        self.bytes.len() == 1
    }

    /// Copies the borrowed bytes into an owned string.
    pub fn to_im_string(&self) -> (r: ImString)
        requires
            wf_bytes(self@),
        ensures
            r@ == self@,
            r.wf(),
    {
        ImString::from_utf8_with_nul_unchecked(vstd::slice::slice_to_vec(self.bytes))
    }

    /// Checks at run time that the backing bytes are well formed: valid
    /// UTF-8, non-empty, no interior nul, and a final nul byte.
    pub fn sanity_check(&self) -> (r: bool)
        ensures
            r == wf_bytes(self@),
    {
        let n = self.bytes.len();
        if n == 0 {
            return false;
        }
        if *slice_index_get(self.bytes, n - 1) != 0u8 {
            return false;
        }
        let mut i: usize = 0;
        while i < n - 1
            invariant
                n == self@.len(),
                1 <= n,
                i <= n - 1,
                forall|j: int| 0 <= j < i ==> self@[j] != 0u8,
            decreases n - 1 - i,
        {
            if *slice_index_get(self.bytes, i) == 0u8 {
                return false;
            }
            i += 1;
        }
        let content = slice_subrange(self.bytes, 0, n - 1);
        match try_bytes_to_str(content) {
            Some(_) => true,
            None => false,
        }
    }
}

/// A reusable scratch arena that stages transient nul-terminated strings.
///
/// Each staged string is appended as its UTF-8 bytes plus one nul
/// terminator, and is addressed by the byte offset where it starts.
/// Before every staging operation the buffer is refreshed: once its
/// length has grown past `max_len`, it is cleared, bounding long-term
/// growth from bursty per-round text construction.
#[derive(Debug)]
pub struct UiBuffer {
    pub buffer: Vec<u8>,
    pub max_len: usize,
}

impl UiBuffer {
    /// The buffer contents right after a refresh: cleared when the
    /// current length exceeds the retained-length threshold.
    pub open spec fn spec_refreshed(self) -> Seq<u8> {
        if self.buffer@.len() > self.max_len {
            Seq::<u8>::empty()
        } else {
            self.buffer@
        }
    }

    /// Creates a new scratch buffer with the given retained-length
    /// threshold.
    pub fn new(max_len: usize) -> (r: UiBuffer)
        ensures
            r.buffer@ == Seq::<u8>::empty(),
            r.max_len == max_len,
    {
        UiBuffer { buffer: Vec::new(), max_len }
    }

    /// Clears the buffer if it has grown over the maximum length
    /// allowed, so that the arena does not keep a giant allocation
    /// forever.
    pub fn refresh_buffer(&mut self)
        ensures
            final(self).buffer@ == old(self).spec_refreshed(),
            final(self).max_len == old(self).max_len,
    {
        if self.buffer.len() > self.max_len {
            self.buffer.clear();
        }
    }

    /// Appends one string plus a nul terminator and returns the byte
    /// offset where the staged text starts.
    pub fn push(&mut self, txt: &str) -> (start: usize)
        ensures
            start == old(self).buffer@.len(),
            final(self).buffer@ == old(self).buffer@ + txt.spec_bytes() + seq![0u8],
            final(self).max_len == old(self).max_len,
    {
        let start = self.buffer.len();
        extend_bytes(&mut self.buffer, txt.as_bytes());
        self.buffer.push(0u8);
        proof {
            assert((old(self).buffer@ + txt.spec_bytes()).push(0u8) =~= old(self).buffer@
                + txt.spec_bytes() + seq![0u8]);
        }
        start
    }

    /// Refreshes the buffer, then stages a single string; returns the
    /// offset of its first byte.
    pub fn scratch_txt(&mut self, txt: &str) -> (start: usize)
        ensures
            start == old(self).spec_refreshed().len(),
            final(self).buffer@ == old(self).spec_refreshed() + txt.spec_bytes() + seq![0u8],
            final(self).max_len == old(self).max_len,
    {
        self.refresh_buffer();
        self.push(txt)
    }

    /// Stages an optional string: an absent value stages nothing and
    /// yields no offset, standing for the null pointer handed to the
    /// external system.
    pub fn scratch_txt_opt(&mut self, txt: Option<&str>) -> (start: Option<usize>)
        ensures
            match txt {
                Option::None => start is None && *final(self) == *old(self),
                Option::Some(t) => {
                    &&& start == Some(old(self).spec_refreshed().len() as usize)
                    &&& final(self).buffer@ == old(self).spec_refreshed() + t.spec_bytes()
                        + seq![0u8]
                    &&& final(self).max_len == old(self).max_len
                },
            },
    {
        match txt {
            Some(v) => Some(self.scratch_txt(v)),
            None => None,
        }
    }

    /// Stages two strings under one refresh, so both offsets stay valid
    /// relative to the same buffer state.
    pub fn scratch_txt_two(&mut self, txt_0: &str, txt_1: &str) -> (r: (usize, usize))
        ensures
            ({
                let base = old(self).spec_refreshed();
                &&& r.0 == base.len()
                &&& r.1 == base.len() + txt_0.spec_bytes().len() + 1
                &&& final(self).buffer@ == base + txt_0.spec_bytes() + seq![0u8]
                    + txt_1.spec_bytes() + seq![0u8]
                &&& final(self).max_len == old(self).max_len
            }),
    {
        self.refresh_buffer();
        let first_offset = self.push(txt_0);
        let second_offset = self.push(txt_1);
        (first_offset, second_offset)
    }

    /// Stages a mandatory string and an optional one under one refresh.
    pub fn scratch_txt_with_opt(&mut self, txt_0: &str, txt_1: Option<&str>) -> (r: (
        usize,
        Option<usize>,
    ))
        ensures
            ({
                let base = old(self).spec_refreshed();
                match txt_1 {
                    Option::None => {
                        &&& r.0 == base.len()
                        &&& r.1 is None
                        &&& final(self).buffer@ == base + txt_0.spec_bytes() + seq![0u8]
                        &&& final(self).max_len == old(self).max_len
                    },
                    Option::Some(t) => {
                        &&& r.0 == base.len()
                        &&& r.1 == Some((base.len() + txt_0.spec_bytes().len() + 1) as usize)
                        &&& final(self).buffer@ == base + txt_0.spec_bytes() + seq![0u8]
                            + t.spec_bytes() + seq![0u8]
                        &&& final(self).max_len == old(self).max_len
                    },
                }
            }),
    {
        match txt_1 {
            Some(value) => {
                let r = self.scratch_txt_two(txt_0, value);
                (r.0, Some(r.1))
            },
            None => (self.scratch_txt(txt_0), None),
        }
    }
}

/// Scratch-buffer bounding: once staged text has grown the buffer past
/// its retained-length threshold, the next staging call starts from an
/// empty buffer — the refreshed contents are empty and the next staged
/// string begins at offset zero.
pub proof fn lemma_scratch_bounded(b: UiBuffer)
    requires
        b.buffer@.len() > b.max_len,
    ensures
        b.spec_refreshed() == Seq::<u8>::empty(),
        b.spec_refreshed().len() == 0,
{
}

} // verus!
