//! Small helpers on string slices.

use vstd::prelude::*;
use vstd::string::StringSliceAdditionalSpecFns;
use vstd::utf8::*;

verus! {

/// The byte of an ASCII character is the character itself.
proof fn lemma_ascii_scalar(b: u8)
    requires
        b < 0x80,
    ensures
        is_leading_byte_width_1(b),
        codepoint_width_1(b) == b as u32,
{
    assert(b < 0x80 ==> b & 0x80 == 0) by (bit_vector);
    assert(b < 0x80 ==> (b & 0x7F) as u32 == b as u32) by (bit_vector);
}

/// A character below 128 is encoded as the one byte of the same number.
proof fn lemma_encode_ascii_char(c: char)
    requires
        (c as u32) < 0x80,
    ensures
        encode_scalar(c as u32) == seq![c as u8],
{
    let s = c as u32;
    assert(s < 0x80 ==> (s & 0x7F) as u8 == s as u8) by (bit_vector);
}

/// In valid UTF-8 a run of ASCII bytes at the front decodes byte by byte, and
/// the run ends on a character boundary.
proof fn lemma_ascii_prefix(bytes: Seq<u8>, n: int)
    requires
        valid_utf8(bytes),
        0 <= n <= bytes.len(),
        forall|i: int| 0 <= i < n ==> bytes[i] < 0x80,
    ensures
        is_char_boundary(bytes, n),
        decode_utf8(bytes).len() >= n,
        n == bytes.len() ==> decode_utf8(bytes).len() == n,
        forall|i: int| 0 <= i < n ==> (#[trigger] decode_utf8(bytes)[i]) as u32 == bytes[i] as u32,
    decreases n,
{
    if n > 0 {
        lemma_ascii_scalar(bytes[0]);
        let rest = pop_first_scalar(bytes);
        assert(rest == bytes.subrange(1, bytes.len() as int));
        assert forall|i: int| 0 <= i < n - 1 implies rest[i] < 0x80 by {
            assert(rest[i] == bytes[i + 1]);
        }
        lemma_ascii_prefix(rest, n - 1);
        let first = decode_first_scalar(bytes);
        assert(first == bytes[0] as u32);
        assert(decode_utf8(bytes) == seq![first as char] + decode_utf8(rest));
        assert forall|i: int| 0 <= i < n implies (#[trigger] decode_utf8(bytes)[i]) as u32
            == bytes[i] as u32 by {
            if i > 0 {
                assert(decode_utf8(bytes)[i] == decode_utf8(rest)[i - 1]);
                assert(rest[i - 1] == bytes[i]);
            }
        }
    }
}

/// The input without its leading spaces.
///
/// Only the space character U+0020 is removed; tabs and other white space
/// stay. The result borrows from the input.
pub fn trim_start(input: &str) -> (res: &str)
    ensures
        res@.len() <= input@.len(),
        res@ == input@.skip(input@.len() - res@.len()),
        forall|i: int| 0 <= i < input@.len() - res@.len() ==> input@[i] == ' ',
        res@.len() > 0 ==> res@[0] != ' ',
{
    let bytes = input.as_bytes();
    let mut pos: usize = 0;
    while pos < bytes.len() && bytes[pos] == 0x20u8
        invariant
            pos <= bytes@.len(),
            forall|i: int| 0 <= i < pos ==> bytes@[i] == 0x20u8,
        decreases bytes@.len() - pos,
    {
        pos = pos + 1;
    }
    proof {
        broadcast use encode_utf8_valid_utf8, encode_utf8_decode_utf8;
        lemma_ascii_prefix(bytes@, pos as int);
    }
    let (_, res) = input.split_at(pos);
    proof {
        broadcast use encode_utf8_valid_utf8, encode_utf8_decode_utf8;
        let all = bytes@;
        let tail = all.subrange(pos as int, all.len() as int);
        decode_utf8_split(all, pos as int);
        valid_utf8_split(all, pos as int);
        assert(res.spec_bytes() == tail);
        assert(decode_utf8(tail) == res@);
        assert(decode_utf8(all) == input@);
        let head = decode_utf8(all.subrange(0, pos as int));
        assert(input@ == head + res@);
        lemma_ascii_prefix(all.subrange(0, pos as int), pos as int);
        assert(head.len() == pos);
        assert(res@ == input@.skip(input@.len() - res@.len()));
        assert forall|i: int| 0 <= i < input@.len() - res@.len() implies input@[i] == ' ' by {
            assert(decode_utf8(all)[i] as u32 == all[i] as u32);
            char_u32_cast(input@[i], 0x20u32);
            char_u32_cast(' ', 0x20u32);
        }
        if res@.len() > 0 && res@[0] == ' ' {
            lemma_encode_ascii_char(res@[0]);
            assert(encode_utf8(res@)[0] == 0x20u8);
            assert(tail[0] == all[pos as int]);
        }
    }
    res
}

/// Whether two string slices hold the same characters.
pub fn same_text(a: &str, b: &str) -> (r: bool)
    ensures
        r == (a@ == b@),
{
    let x = a.as_bytes();
    let y = b.as_bytes();
    proof {
        broadcast use encode_utf8_decode_utf8;
        assert(decode_utf8(x@) == a@);
        assert(decode_utf8(y@) == b@);
    }
    if x.len() != y.len() {
        return false;
    }
    let mut i: usize = 0;
    while i < x.len()
        invariant
            i <= x@.len(),
            x@.len() == y@.len(),
            forall|j: int| 0 <= j < i ==> x@[j] == y@[j],
            a@ == b@ ==> x@ == y@,
        decreases x@.len() - i,
    {
        if x[i] != y[i] {
            return false;
        }
        i = i + 1;
    }
    assert(x@ =~= y@);
    true
}

} // verus!
