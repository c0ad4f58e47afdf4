//! Byte-level model of nul-terminated UTF-8 strings.
//!
//! An owned or borrowed string of this crate is backed by a byte sequence
//! that ends in a nul terminator. The spec functions here describe that
//! representation: where the first nul sits, which bytes a construction
//! from a character sequence stores, and what it means for backing bytes
//! to be well formed. The proof functions state the laws the string types
//! obey and are reused by their contracts.

use vstd::prelude::*;
use vstd::utf8::*;

verus! {

/// Position of the first nul byte in `b`, or `b.len()` if `b` holds none.
pub open spec fn first_nul(b: Seq<u8>) -> int
    decreases b.len(),
{
    if b.len() == 0 {
        0
    } else if b[0] == 0u8 {
        0
    } else {
        1 + first_nul(b.drop_first())
    }
}

/// True when `b` holds at least one nul byte.
pub open spec fn has_nul(b: Seq<u8>) -> bool {
    exists|i: int| 0 <= i < b.len() && b[i] == 0u8
}

/// Position of the first nul character in `s`, or `s.len()` if `s` holds none.
pub open spec fn first_nul_char(s: Seq<char>) -> int
    decreases s.len(),
{
    if s.len() == 0 {
        0
    } else if s[0] == '\0' {
        0
    } else {
        1 + first_nul_char(s.drop_first())
    }
}

/// The characters of `s` before its first nul character.
pub open spec fn prefix_before_nul(s: Seq<char>) -> Seq<char> {
    s.take(first_nul_char(s))
}

/// The bytes an owned string stores after being built from `s`: the UTF-8
/// encoding of the prefix of `s` before its first nul character, followed
/// by a single nul terminator.
pub open spec fn stored_bytes(s: Seq<char>) -> Seq<u8> {
    encode_utf8(prefix_before_nul(s)) + seq![0u8]
}

/// Well-formed backing bytes for a nul-terminated string: non-empty, the
/// last byte is the only nul, and everything before it is valid UTF-8.
pub open spec fn wf_bytes(b: Seq<u8>) -> bool {
    &&& b.len() >= 1
    &&& b.last() == 0u8
    &&& forall|i: int| 0 <= i < b.len() - 1 ==> b[i] != 0u8
    &&& valid_utf8(b.subrange(0, b.len() - 1))
}

/// Basic facts about `first_nul`: it is in bounds, every byte before it is
/// non-nul, and it points at a nul byte exactly when one exists.
pub proof fn lemma_first_nul(b: Seq<u8>)
    ensures
        0 <= first_nul(b) <= b.len(),
        forall|i: int| 0 <= i < first_nul(b) ==> b[i] != 0u8,
        first_nul(b) < b.len() ==> b[first_nul(b)] == 0u8,
        has_nul(b) <==> first_nul(b) < b.len(),
    decreases b.len(),
{
    if b.len() == 0 {
    } else if b[0] == 0u8 {
        assert(has_nul(b));
    } else {
        let t = b.drop_first();
        lemma_first_nul(t);
        assert forall|i: int| 0 <= i < first_nul(b) implies b[i] != 0u8 by {
            if i > 0 {
                assert(t[i - 1] == b[i]);
            }
        }
        if first_nul(b) < b.len() {
            assert(t[first_nul(b) - 1] == b[first_nul(b)]);
        }
        if has_nul(b) {
            let i = choose|i: int| 0 <= i < b.len() && b[i] == 0u8;
            assert(t[i - 1] == 0u8);
            assert(has_nul(t));
        }
        if has_nul(t) {
            let i = choose|i: int| 0 <= i < t.len() && t[i] == 0u8;
            assert(b[i + 1] == 0u8);
            assert(has_nul(b));
        }
    }
}

/// `first_nul` is the unique position with only non-nul bytes before it
/// and, when inside the sequence, a nul byte at it.
pub proof fn lemma_first_nul_at(b: Seq<u8>, k: int)
    requires
        0 <= k <= b.len(),
        forall|i: int| 0 <= i < k ==> b[i] != 0u8,
        k < b.len() ==> b[k] == 0u8,
    ensures
        first_nul(b) == k,
{
    lemma_first_nul(b);
    if first_nul(b) < k {
        assert(b[first_nul(b)] != 0u8);
    }
    if first_nul(b) > k {
        assert(b[k] != 0u8);
    }
}

/// Prepending nul-free bytes shifts the first nul by their length.
pub proof fn lemma_first_nul_concat(a: Seq<u8>, b: Seq<u8>)
    requires
        forall|i: int| 0 <= i < a.len() ==> a[i] != 0u8,
    ensures
        first_nul(a + b) == a.len() + first_nul(b),
{
    lemma_first_nul(b);
    let c = a + b;
    let k = a.len() + first_nul(b);
    assert forall|i: int| 0 <= i < k implies c[i] != 0u8 by {
        if i < a.len() {
            assert(c[i] == a[i]);
        } else {
            assert(c[i] == b[i - a.len()]);
        }
    }
    if k < c.len() {
        assert(c[k] == b[first_nul(b)]);
    }
    lemma_first_nul_at(c, k);
}

/// Basic facts about `first_nul_char`, mirroring `lemma_first_nul`.
pub proof fn lemma_first_nul_char(s: Seq<char>)
    ensures
        0 <= first_nul_char(s) <= s.len(),
        forall|i: int| 0 <= i < first_nul_char(s) ==> s[i] != '\0',
        first_nul_char(s) < s.len() ==> s[first_nul_char(s)] == '\0',
    decreases s.len(),
{
    if s.len() == 0 {
    } else if s[0] == '\0' {
    } else {
        let t = s.drop_first();
        lemma_first_nul_char(t);
        assert forall|i: int| 0 <= i < first_nul_char(s) implies s[i] != '\0' by {
            if i > 0 {
                assert(t[i - 1] == s[i]);
            }
        }
        if first_nul_char(s) < s.len() {
            assert(t[first_nul_char(s) - 1] == s[first_nul_char(s)]);
        }
    }
}

/// A sequence without nul characters has its `first_nul_char` at the end.
pub proof fn lemma_first_nul_char_none(s: Seq<char>)
    requires
        forall|i: int| 0 <= i < s.len() ==> s[i] != '\0',
    ensures
        first_nul_char(s) == s.len(),
        prefix_before_nul(s) == s,
    decreases s.len(),
{
    if s.len() != 0 {
        let t = s.drop_first();
        assert forall|i: int| 0 <= i < t.len() implies t[i] != '\0' by {
            assert(t[i] == s[i + 1]);
        }
        lemma_first_nul_char_none(t);
    }
    assert(prefix_before_nul(s) =~= s);
}

/// UTF-8 encoding distributes over concatenation.
pub proof fn lemma_encode_utf8_concat(a: Seq<char>, b: Seq<char>)
    ensures
        encode_utf8(a + b) == encode_utf8(a) + encode_utf8(b),
    decreases a.len(),
{
    if a.len() == 0 {
        assert(a + b =~= b);
        assert(encode_utf8(a) + encode_utf8(b) =~= encode_utf8(b));
    } else {
        assert((a + b).len() > 0);
        assert((a + b)[0] == a[0]);
        assert((a + b).drop_first() =~= a.drop_first() + b);
        lemma_encode_utf8_concat(a.drop_first(), b);
        assert(encode_utf8(a + b) =~= encode_scalar(a[0] as u32) + (encode_utf8(a.drop_first())
            + encode_utf8(b)));
        assert(encode_scalar(a[0] as u32) + (encode_utf8(a.drop_first()) + encode_utf8(b))
            =~= (encode_scalar(a[0] as u32) + encode_utf8(a.drop_first())) + encode_utf8(b));
    }
}

/// The encoding of a character other than nul contains no nul byte.
pub proof fn lemma_encode_scalar_no_nul(c: char)
    requires
        c != '\0',
    ensures
        forall|i: int|
            0 <= i < encode_scalar(c as u32).len() ==> #[trigger] encode_scalar(c as u32)[i]
                != 0u8,
{
    char_is_scalar(c);
    let u = c as u32;
    assert(u != 0) by {
        if u == 0 {
            char_u32_cast(c, u);
            char_u32_cast('\0', 0u32);
        }
    }
    let e = encode_scalar(u);
    if has_width_1_encoding(u) {
        assert((u & 0x7F) as u8 != 0u8) by (bit_vector)
            requires
                u != 0u32 && u <= 0x7fu32,
        ;
        assert(e =~= seq![leading_byte_width_1(u)]);
    } else if has_width_2_encoding(u) {
        let y1 = ((u >> 6) & 0x1F) as u8;
        let y2 = (u & 0x3F) as u8;
        assert((0xC0u8 | y1) != 0u8) by (bit_vector);
        assert((0x80u8 | y2) != 0u8) by (bit_vector);
        assert(e =~= seq![leading_byte_width_2(u), last_continuation_byte(u)]);
    } else if has_width_3_encoding(u) {
        let y1 = ((u >> 12) & 0x0F) as u8;
        let y2 = ((u >> 6) & 0x3F) as u8;
        let y3 = (u & 0x3F) as u8;
        assert((0xE0u8 | y1) != 0u8) by (bit_vector);
        assert((0x80u8 | y2) != 0u8) by (bit_vector);
        assert((0x80u8 | y3) != 0u8) by (bit_vector);
        assert(e =~= seq![
            leading_byte_width_3(u),
            second_last_continuation_byte(u),
            last_continuation_byte(u),
        ]);
    } else {
        let y1 = ((u >> 18) & 0x7) as u8;
        let y2 = ((u >> 12) & 0x3F) as u8;
        let y3 = ((u >> 6) & 0x3F) as u8;
        let y4 = (u & 0x3F) as u8;
        assert((0xF0u8 | y1) != 0u8) by (bit_vector);
        assert((0x80u8 | y2) != 0u8) by (bit_vector);
        assert((0x80u8 | y3) != 0u8) by (bit_vector);
        assert((0x80u8 | y4) != 0u8) by (bit_vector);
        assert(e =~= seq![
            leading_byte_width_4(u),
            third_last_continuation_byte(u),
            second_last_continuation_byte(u),
            last_continuation_byte(u),
        ]);
    }
}

/// The encoding of a sequence without nul characters has no nul byte.
pub proof fn lemma_encode_utf8_no_nul(s: Seq<char>)
    requires
        forall|i: int| 0 <= i < s.len() ==> s[i] != '\0',
    ensures
        forall|i: int| 0 <= i < encode_utf8(s).len() ==> encode_utf8(s)[i] != 0u8,
    decreases s.len(),
{
    if s.len() != 0 {
        let t = s.drop_first();
        assert forall|i: int| 0 <= i < t.len() implies t[i] != '\0' by {
            assert(t[i] == s[i + 1]);
        }
        lemma_encode_scalar_no_nul(s[0]);
        lemma_encode_utf8_no_nul(t);
        let head = encode_scalar(s[0] as u32);
        assert forall|i: int| 0 <= i < encode_utf8(s).len() implies encode_utf8(s)[i] != 0u8 by {
            assert(encode_utf8(s) == head + encode_utf8(t));
            if i < head.len() {
                assert(encode_utf8(s)[i] == head[i]);
            } else {
                assert(encode_utf8(s)[i] == encode_utf8(t)[i - head.len()]);
            }
        }
    }
}

/// The nul character encodes to a single nul byte.
pub proof fn lemma_encode_nul_char()
    ensures
        encode_scalar('\0' as u32) == seq![0u8],
{
    assert('\0' as u32 == 0);
    assert(has_width_1_encoding(0u32));
    assert((0u32 & 0x7F) as u8 == 0u8) by (bit_vector);
    assert(encode_scalar(0u32) =~= seq![0u8]);
}

/// An encoding is empty exactly when the character sequence is empty.
pub proof fn lemma_encode_utf8_empty(s: Seq<char>)
    ensures
        encode_utf8(s).len() == 0 <==> s.len() == 0,
{
    if s.len() != 0 {
        let e = encode_scalar(s[0] as u32);
        assert(e.len() >= 1);
        assert(encode_utf8(s) == e + encode_utf8(s.drop_first()));
    }
}

/// How a raw construction behaves: appending one terminator to the
/// encoding of `s` and truncating after the first nul yields exactly
/// `stored_bytes(s)`, which is well formed.
pub proof fn lemma_raw_bytes(s: Seq<char>)
    ensures
        ({
            let raw = encode_utf8(s) + seq![0u8];
            &&& has_nul(raw)
            &&& first_nul(raw) == stored_bytes(s).len() - 1
            &&& raw.subrange(0, first_nul(raw)) == encode_utf8(prefix_before_nul(s))
            &&& raw.subrange(0, first_nul(raw) + 1) == stored_bytes(s)
            &&& valid_utf8(raw.subrange(0, first_nul(raw)))
            &&& wf_bytes(stored_bytes(s))
        }),
{
    let raw = encode_utf8(s) + seq![0u8];
    let k = first_nul_char(s);
    lemma_first_nul_char(s);
    let p = prefix_before_nul(s);
    let rest = s.skip(k);
    assert(s =~= p + rest);
    lemma_encode_utf8_concat(p, rest);
    assert forall|i: int| 0 <= i < p.len() implies p[i] != '\0' by {
        assert(p[i] == s[i]);
    }
    lemma_encode_utf8_no_nul(p);
    let ep = encode_utf8(p);
    let tail = encode_utf8(rest) + seq![0u8];
    assert(raw =~= ep + tail);
    if k < s.len() {
        assert(rest[0] == s[k]);
        lemma_encode_nul_char();
        assert(encode_utf8(rest) == encode_scalar(rest[0] as u32) + encode_utf8(
            rest.drop_first(),
        ));
        assert(encode_utf8(rest)[0] == 0u8);
        assert(tail[0] == 0u8);
    } else {
        assert(rest.len() == 0);
        assert(encode_utf8(rest) =~= Seq::<u8>::empty());
        assert(tail[0] == 0u8);
    }
    lemma_first_nul_concat(ep, tail);
    assert(first_nul(tail) == 0) by {
        lemma_first_nul_at(tail, 0);
    }
    assert(first_nul(raw) == ep.len());
    assert(raw.subrange(0, ep.len() as int) =~= ep);
    assert(raw.subrange(0, ep.len() as int + 1) =~= ep + seq![0u8]);
    assert(raw.subrange(0, ep.len() as int + 1) =~= stored_bytes(s));
    encode_utf8_valid_utf8(p);
    assert(has_nul(raw)) by {
        assert(raw[ep.len() as int] == 0u8);
    }
    assert(wf_bytes(stored_bytes(s))) by {
        let sb = stored_bytes(s);
        assert(sb.len() == ep.len() + 1);
        assert(sb.last() == 0u8);
        assert forall|i: int| 0 <= i < sb.len() - 1 implies sb[i] != 0u8 by {
            assert(sb[i] == ep[i]);
        }
        assert(sb.subrange(0, sb.len() - 1) =~= ep);
    }
}

/// Appending the encoding of `s` and a terminator to nul-free valid
/// content `c`, then truncating after the first nul, appends exactly
/// `stored_bytes(s)` to `c`.
pub proof fn lemma_append_model(c: Seq<u8>, s: Seq<char>)
    requires
        forall|i: int| 0 <= i < c.len() ==> c[i] != 0u8,
        valid_utf8(c),
    ensures
        ({
            let b = c + (encode_utf8(s) + seq![0u8]);
            &&& has_nul(b)
            &&& first_nul(b) == c.len() + stored_bytes(s).len() - 1
            &&& b.subrange(0, first_nul(b)) == c + encode_utf8(prefix_before_nul(s))
            &&& b.subrange(0, first_nul(b) + 1) == c + stored_bytes(s)
            &&& valid_utf8(b.subrange(0, first_nul(b)))
            &&& wf_bytes(c + stored_bytes(s))
        }),
{
    let raw = encode_utf8(s) + seq![0u8];
    let b = c + raw;
    lemma_raw_bytes(s);
    lemma_first_nul_concat(c, raw);
    lemma_first_nul(raw);
    lemma_first_nul(b);
    let p = prefix_before_nul(s);
    let ep = encode_utf8(p);
    assert(raw.subrange(0, first_nul(raw)) == ep);
    assert(first_nul(raw) < raw.len());
    assert(first_nul(b) == c.len() + ep.len());
    assert forall|j: int| 0 <= j < ep.len() implies raw[j] == ep[j] by {
        assert(ep[j] == raw.subrange(0, first_nul(raw))[j]);
    }
    assert(b[first_nul(b)] == 0u8);
    assert(b.subrange(0, first_nul(b)) =~= c + ep);
    assert(b.subrange(0, first_nul(b) + 1) =~= c + stored_bytes(s));
    encode_utf8_valid_utf8(p);
    valid_utf8_concat(c, ep);
    assert(has_nul(b)) by {
        lemma_first_nul(b);
        assert(first_nul(b) < b.len());
    }
    assert(wf_bytes(c + stored_bytes(s))) by {
        let w = c + stored_bytes(s);
        assert(w.len() >= 1);
        assert(w.last() == stored_bytes(s).last());
        assert forall|i: int| 0 <= i < w.len() - 1 implies w[i] != 0u8 by {
            if i < c.len() {
                assert(w[i] == c[i]);
            } else {
                assert(w[i] == stored_bytes(s)[i - c.len()]);
            }
        }
        assert(w.subrange(0, w.len() - 1) =~= c + ep);
    }
}

/// Well-formed backing bytes have their first nul exactly at the end.
pub proof fn lemma_wf_first_nul(b: Seq<u8>)
    requires
        wf_bytes(b),
    ensures
        first_nul(b) == b.len() - 1,
        has_nul(b),
        valid_utf8(b.subrange(0, first_nul(b))),
{
    lemma_first_nul_at(b, b.len() - 1);
    lemma_first_nul(b);
}

/// Round trip: a string without interior nul characters is stored as its
/// exact UTF-8 encoding plus one terminator, and the stored content
/// decodes back to the original string.
pub proof fn lemma_round_trip(s: Seq<char>)
    requires
        forall|i: int| 0 <= i < s.len() ==> s[i] != '\0',
    ensures
        stored_bytes(s) == encode_utf8(s) + seq![0u8],
        decode_utf8(stored_bytes(s).subrange(0, stored_bytes(s).len() - 1)) == s,
{
    lemma_first_nul_char_none(s);
    lemma_raw_bytes(s);
    assert(stored_bytes(s).subrange(0, stored_bytes(s).len() - 1) =~= encode_utf8(s));
    encode_utf8_decode_utf8(s);
}

/// Truncation: construction stores exactly the prefix before the first
/// nul character, and stores an empty content precisely when that prefix
/// is empty.
pub proof fn lemma_truncation(s: Seq<char>)
    ensures
        decode_utf8(stored_bytes(s).subrange(0, stored_bytes(s).len() - 1))
            == prefix_before_nul(s),
        stored_bytes(s)[0] == 0u8 <==> prefix_before_nul(s).len() == 0,
        stored_bytes(s).len() == 1 <==> prefix_before_nul(s).len() == 0,
{
    lemma_raw_bytes(s);
    let p = prefix_before_nul(s);
    let ep = encode_utf8(p);
    assert(stored_bytes(s).subrange(0, stored_bytes(s).len() - 1) =~= ep);
    encode_utf8_decode_utf8(p);
    lemma_encode_utf8_empty(p);
    if p.len() > 0 {
        lemma_first_nul_char(s);
        assert forall|i: int| 0 <= i < p.len() implies p[i] != '\0' by {
            assert(p[i] == s[i]);
        }
        lemma_encode_utf8_no_nul(p);
        assert(stored_bytes(s)[0] == ep[0]);
    }
}

/// Terminator uniqueness: well-formed backing bytes end in exactly one
/// nul byte and hold no nul anywhere before it. Constructions and appends
/// keep the backing bytes well formed, so this holds after any sequence
/// of `push` and `push_str` calls.
pub proof fn lemma_single_terminator(b: Seq<u8>)
    requires
        wf_bytes(b),
    ensures
        b[b.len() - 1] == 0u8,
        forall|i: int| 0 <= i < b.len() - 1 ==> b[i] != 0u8,
{
}

} // verus!
