//! Wire codec: ULEB128 variable-length integers, little-endian fixed-width
//! integers, length-prefixed strings, and the frame format
//! `[type_id: u8][2 reserved bytes][payload_length: u32 LE][payload]`.

use vstd::prelude::*;

verus! {

// ---------------------------------------------------------------------------
// ULEB128
// ---------------------------------------------------------------------------

/// Value of a complete ULEB128 encoding: zero or more continuation bytes
/// (high bit set) followed by exactly one terminating byte (high bit clear).
pub open spec fn uleb_decode(s: Seq<u8>) -> Option<nat>
    decreases s.len(),
{
    if s.len() == 0 {
        None
    } else if s[0] < 128 {
        if s.len() == 1 {
            Some(s[0] as nat)
        } else {
            None
        }
    } else {
        match uleb_decode(s.drop_first()) {
            Some(m) => Some(((s[0] - 128) + 128 * m) as nat),
            None => None,
        }
    }
}

/// The canonical (minimal-length) ULEB128 encoding of `v`.
pub open spec fn uleb_encode(v: nat) -> Seq<u8>
    decreases v,
{
    if v < 128 {
        seq![v as u8]
    } else {
        seq![(v % 128 + 128) as u8] + uleb_encode(v / 128)
    }
}

/// Decoding the canonical encoding gives the value back.
pub proof fn lemma_uleb_round_trip(v: nat)
    ensures
        uleb_decode(uleb_encode(v)) == Some(v),
    decreases v,
{
    if v < 128 {
    } else {
        lemma_uleb_round_trip(v / 128);
        assert((seq![(v % 128 + 128) as u8] + uleb_encode(v / 128)).drop_first() =~= uleb_encode(
            v / 128,
        ));
        vstd::arithmetic::div_mod::lemma_fundamental_div_mod(v as int, 128);
    }
}

/// The canonical encoding is minimal: no complete encoding of `v` is shorter.
pub proof fn lemma_uleb_minimal(s: Seq<u8>, v: nat)
    requires
        uleb_decode(s) == Some(v),
    ensures
        s.len() >= uleb_encode(v).len(),
    decreases s.len(),
{
    if s[0] < 128 {
    } else {
        let rest = s.drop_first();
        let m = uleb_decode(rest)->Some_0;
        assert(v == (s[0] - 128) + 128 * m);
        if v < 128 {
        } else {
            vstd::arithmetic::div_mod::lemma_fundamental_div_mod_converse(
                v as int,
                128,
                m as int,
                (s[0] - 128) as int,
            );
            lemma_uleb_minimal(rest, m);
        }
    }
}

/// One past the index of the first terminating byte (high bit clear) at or
/// after `start`, if any byte before the end of `s` terminates the run.
pub open spec fn uleb_end(s: Seq<u8>, start: int) -> Option<int>
    decreases s.len() - start,
{
    if start < 0 || start >= s.len() {
        None
    } else if s[start] < 128 {
        Some(start + 1)
    } else {
        uleb_end(s, start + 1)
    }
}

pub proof fn lemma_uleb_end_bounds(s: Seq<u8>, start: int)
    requires
        0 <= start,
        uleb_end(s, start) is Some,
    ensures
        start < uleb_end(s, start)->Some_0 <= s.len(),
    decreases s.len() - start,
{
    if start < s.len() && s[start] >= 128 {
        lemma_uleb_end_bounds(s, start + 1);
    }
}

/// The bytes from `start` to `uleb_end` form a complete ULEB128 encoding.
pub proof fn lemma_uleb_end_decodes(s: Seq<u8>, start: int)
    requires
        0 <= start,
        uleb_end(s, start) is Some,
    ensures
        uleb_decode(s.subrange(start, uleb_end(s, start)->Some_0)) is Some,
    decreases s.len() - start,
{
    let end = uleb_end(s, start)->Some_0;
    lemma_uleb_end_bounds(s, start);
    if s[start] < 128 {
        assert(s.subrange(start, end) =~= seq![s[start]]);
    } else {
        lemma_uleb_end_decodes(s, start + 1);
        assert(s.subrange(start, end).drop_first() =~= s.subrange(start + 1, end));
    }
}

/// Reads one ULEB128 value from `slice` beginning at `start`.
///
/// Returns the value and the index one past its last byte.  Returns `None`
/// when the run of continuation bytes is never terminated within the slice
/// (a truncated field) or when the encoded value does not fit in a `u32`.
pub fn read_uleb128_at(slice: &[u8], start: usize) -> (r: Option<(u32, usize)>)
    requires
        start <= slice@.len(),
    ensures
        match r {
            Some(p) => {
                &&& uleb_end(slice@, start as int) == Some(p.1 as int)
                &&& start < p.1 <= slice@.len()
                &&& uleb_decode(slice@.subrange(start as int, p.1 as int)) == Some(p.0 as nat)
            },
            None => match uleb_end(slice@, start as int) {
                Some(end) => uleb_decode(slice@.subrange(start as int, end))->Some_0 > u32::MAX,
                None => true,
            },
        },
    decreases slice@.len() - start,
{
    if start >= slice.len() {
        return None;
    }
    let b = slice[start];
    if b < 128 {
        proof {
            assert(slice@.subrange(start as int, start + 1) =~= seq![slice@[start as int]]);
        }
        return Some((b as u32, start + 1));
    }
    let g: u32 = (b - 128) as u32;
    match read_uleb128_at(slice, start + 1) {
        None => {
            proof {
                if uleb_end(slice@, start as int) is Some {
                    let end = uleb_end(slice@, start as int)->Some_0;
                    lemma_uleb_end_bounds(slice@, start + 1);
                    lemma_uleb_end_decodes(slice@, start + 1);
                    assert(slice@.subrange(start as int, end).drop_first() =~= slice@.subrange(
                        start + 1,
                        end,
                    ));
                    let m = uleb_decode(slice@.subrange(start + 1, end))->Some_0;
                    assert(g + 128 * m >= m) by (nonlinear_arith)
                        requires m >= 0, g >= 0;
                }
            }
            None
        },
        Some((rest, end)) => {
            proof {
                let e = end as int;
                assert(slice@.subrange(start as int, e).drop_first() =~= slice@.subrange(
                    start + 1,
                    e,
                ));
            }
            if rest <= (u32::MAX - g) / 128 {
                proof {
                    assert(g + 128 * rest <= u32::MAX) by (nonlinear_arith)
                        requires
                            g < 128,
                            rest <= ((u32::MAX - g) as u32 / 128u32) as int,
                            u32::MAX == 0xffff_ffffu32,
                    ;
                }
                Some((g + 128 * rest, end))
            } else {
                proof {
                    assert(g + 128 * rest > u32::MAX) by (nonlinear_arith)
                        requires
                            g < 128,
                            rest > ((u32::MAX - g) as u32 / 128u32) as int,
                            u32::MAX == 0xffff_ffffu32,
                    ;
                }
                None
            }
        },
    }
}

/// Reads one ULEB128 value from the front of `slice`, returning the value
/// and the number of bytes consumed.  `None` on a truncated or oversized
/// field: every read here is bounds-checked rather than trusted.
pub fn read_uleb128(slice: &[u8]) -> (r: Option<(u32, usize)>)
    ensures
        match r {
            Some(p) => {
                &&& uleb_end(slice@, 0) == Some(p.1 as int)
                &&& 0 < p.1 <= slice@.len()
                &&& uleb_decode(slice@.subrange(0, p.1 as int)) == Some(p.0 as nat)
            },
            None => match uleb_end(slice@, 0) {
                Some(end) => uleb_decode(slice@.subrange(0, end))->Some_0 > u32::MAX,
                None => true,
            },
        },
{
    read_uleb128_at(slice, 0)
}

/// Appends the canonical ULEB128 encoding of `value` to `out`.
pub fn write_uleb128(out: &mut Vec<u8>, value: u32)
    ensures
        final(out)@ == old(out)@ + uleb_encode(value as nat),
{
    let ghost base: Seq<u8> = out@;
    let mut v: u32 = value;
    loop
        invariant
            base == old(out)@,
            base + uleb_encode(value as nat) == out@ + uleb_encode(v as nat),
        decreases v,
    {
        if v < 128 {
            out.push(v as u8);
            proof {
                assert(base + uleb_encode(value as nat) =~= out@);
            }
            return ;
        }
        let g: u8 = ((v % 128) + 128) as u8;
        out.push(g);
        proof {
            assert(out@ + uleb_encode((v / 128) as nat) =~= base + uleb_encode(value as nat));
        }
        v = v / 128;
    }
}

// ---------------------------------------------------------------------------
// Little-endian fixed-width integers
// ---------------------------------------------------------------------------

/// Value of two little-endian bytes.
pub open spec fn le_u16(s: Seq<u8>) -> nat
    recommends
        s.len() == 2,
{
    (s[0] + 0x100 * s[1]) as nat
}

/// Value of four little-endian bytes.
pub open spec fn le_u32(s: Seq<u8>) -> nat
    recommends
        s.len() == 4,
{
    (s[0] + 0x100 * s[1] + 0x1_0000 * s[2] + 0x100_0000 * s[3]) as nat
}

/// Value of eight little-endian bytes.
pub open spec fn le_u64(s: Seq<u8>) -> nat
    recommends
        s.len() == 8,
{
    le_u32(s.subrange(0, 4)) + 0x1_0000_0000 * le_u32(s.subrange(4, 8))
}

/// The two little-endian bytes of `v`.
pub open spec fn le_bytes_u16(v: u16) -> Seq<u8> {
    seq![(v % 0x100) as u8, (v / 0x100) as u8]
}

/// The four little-endian bytes of `v`.
pub open spec fn le_bytes_u32(v: u32) -> Seq<u8> {
    seq![
        (v % 0x100) as u8,
        ((v / 0x100) % 0x100) as u8,
        ((v / 0x1_0000) % 0x100) as u8,
        (v / 0x100_0000) as u8,
    ]
}

/// The eight little-endian bytes of `v`.
pub open spec fn le_bytes_u64(v: u64) -> Seq<u8> {
    le_bytes_u32((v % 0x1_0000_0000) as u32) + le_bytes_u32((v / 0x1_0000_0000) as u32)
}

pub proof fn lemma_le_u32_round_trip(v: u32)
    ensures
        le_u32(le_bytes_u32(v)) == v,
{
}

/// Four bytes are recovered exactly from the value they encode.
pub proof fn lemma_le_u32_bytes_unique(s: Seq<u8>)
    requires
        s.len() == 4,
    ensures
        le_bytes_u32(le_u32(s) as u32) =~= s,
{
    let v = le_u32(s) as int;
    assert(v == s[0] + 0x100 * (s[1] + 0x100 * s[2] + 0x1_0000 * s[3]));
    vstd::arithmetic::div_mod::lemma_fundamental_div_mod_converse(
        v,
        0x100,
        s[1] + 0x100 * s[2] + 0x1_0000 * s[3],
        s[0] as int,
    );
    let v1 = s[1] + 0x100 * s[2] + 0x1_0000 * s[3];
    vstd::arithmetic::div_mod::lemma_fundamental_div_mod_converse(
        v1,
        0x100,
        s[2] + 0x100 * s[3],
        s[1] as int,
    );
    let v2 = s[2] + 0x100 * s[3];
    vstd::arithmetic::div_mod::lemma_fundamental_div_mod_converse(v2, 0x100, s[3] as int, s[2] as int);
    vstd::arithmetic::div_mod::lemma_div_denominator(v, 0x100, 0x100);
    vstd::arithmetic::div_mod::lemma_div_denominator(v, 0x1_0000, 0x100);
    assert(v / 0x1_0000 == v2);
    assert(v / 0x100_0000 == s[3]);
}

/// Appends the two little-endian bytes of `v` to `out`.
pub fn write_u16_le(out: &mut Vec<u8>, v: u16)
    ensures
        final(out)@ == old(out)@ + le_bytes_u16(v),
{
    out.push((v % 0x100) as u8);
    out.push((v / 0x100) as u8);
    proof {
        assert(final(out)@ =~= old(out)@ + le_bytes_u16(v));
    }
}

/// Appends the four little-endian bytes of `v` to `out`.
pub fn write_u32_le(out: &mut Vec<u8>, v: u32)
    ensures
        final(out)@ == old(out)@ + le_bytes_u32(v),
{
    out.push((v % 0x100) as u8);
    out.push(((v / 0x100) % 0x100) as u8);
    out.push(((v / 0x1_0000) % 0x100) as u8);
    out.push((v / 0x100_0000) as u8);
    proof {
        assert(final(out)@ =~= old(out)@ + le_bytes_u32(v));
    }
}

/// Appends the eight little-endian bytes of `v` to `out`.
pub fn write_u64_le(out: &mut Vec<u8>, v: u64)
    ensures
        final(out)@ == old(out)@ + le_bytes_u64(v),
{
    write_u32_le(out, (v % 0x1_0000_0000) as u32);
    write_u32_le(out, (v / 0x1_0000_0000) as u32);
    proof {
        assert(final(out)@ =~= old(out)@ + le_bytes_u64(v));
    }
}

/// Appends the four little-endian bytes of `v` (two's complement) to `out`.
pub fn write_i32_le(out: &mut Vec<u8>, v: i32)
    ensures
        final(out)@ == old(out)@ + le_bytes_u32(v as u32),
{
    write_u32_le(out, v as u32);
}

/// Reads four little-endian bytes starting at `s[i]`.
pub fn read_u32_le_at(s: &[u8], i: usize) -> (r: u32)
    requires
        i + 4 <= s@.len(),
    ensures
        r == le_u32(s@.subrange(i as int, i + 4)),
{
    let r = s[i] as u32 + 0x100 * (s[i + 1] as u32) + 0x1_0000 * (s[i + 2] as u32) + 0x100_0000
        * (s[i + 3] as u32);
    proof {
        let sub = s@.subrange(i as int, i + 4);
        assert(sub[0] == s@[i as int]);
        assert(sub[1] == s@[i + 1]);
        assert(sub[2] == s@[i + 2]);
        assert(sub[3] == s@[i + 3]);
    }
    r
}

// ---------------------------------------------------------------------------
// String fields and the trusted UTF-8 decoder
// ---------------------------------------------------------------------------

/// Wire encoding of a string field: the presence sentinel, a ULEB128 byte
/// length, then the UTF-8 bytes.
pub open spec fn spec_string_field(s: Seq<char>) -> Seq<u8> {
    let bytes = vstd::utf8::encode_utf8(s);
    seq![STRING_SENTINEL] + uleb_encode(bytes.len() as nat) + bytes
}

/// Presence byte announcing that a string follows.
pub const STRING_SENTINEL: u8 = 11;

/// Relies on `String::from_utf8`: returns the decoded characters exactly
/// when the bytes are valid UTF-8, per vstd's UTF-8 model.
#[verifier::external_body]
pub(crate) fn utf8_to_string(bytes: Vec<u8>) -> (r: Option<String>)
    ensures
        match r {
            Some(s) => vstd::utf8::valid_utf8(bytes@) && s@ == vstd::utf8::decode_utf8(bytes@),
            None => !vstd::utf8::valid_utf8(bytes@),
        },
{
    String::from_utf8(bytes).ok()
}

/// The characters a string field's byte content stands for: its UTF-8
/// decoding when valid, the empty string otherwise (never an error).
pub open spec fn spec_string_of_bytes(bytes: Seq<u8>) -> Seq<char> {
    if vstd::utf8::valid_utf8(bytes) {
        vstd::utf8::decode_utf8(bytes)
    } else {
        Seq::empty()
    }
}

/// Appends the wire encoding of the string `s` to `out`.
pub fn write_string_field(out: &mut Vec<u8>, s: &str)
    requires
        vstd::utf8::encode_utf8(s@).len() <= u32::MAX,
    ensures
        final(out)@ == old(out)@ + spec_string_field(s@),
{
    out.push(STRING_SENTINEL);
    let bytes = s.as_bytes();
    write_uleb128(out, bytes.len() as u32);
    out.extend_from_slice(bytes);
    proof {
        assert(final(out)@ =~= old(out)@ + spec_string_field(s@));
    }
}

// ---------------------------------------------------------------------------
// Frames
// ---------------------------------------------------------------------------

/// One wire frame: type id, two reserved bytes, payload length, payload.
pub open spec fn spec_frame(id: u8, payload: Seq<u8>) -> Seq<u8> {
    seq![id, 0u8, 0u8] + le_bytes_u32(payload.len() as u32) + payload
}

/// A byte sequence is one well-formed frame: a full header whose reserved
/// bytes are clear and whose length field equals the payload size exactly.
pub open spec fn frame_well_formed(b: Seq<u8>) -> bool {
    &&& b.len() >= 7
    &&& b[1] == 0
    &&& b[2] == 0
    &&& le_u32(b.subrange(3, 7)) == b.len() - 7
}

/// Re-encoding a decoded well-formed frame reproduces the original bytes.
pub proof fn lemma_frame_round_trip(b: Seq<u8>)
    requires
        frame_well_formed(b),
    ensures
        spec_frame(b[0], b.subrange(7, b.len() as int)) == b,
{
    lemma_le_u32_bytes_unique(b.subrange(3, 7));
    assert(spec_frame(b[0], b.subrange(7, b.len() as int)) =~= b);
}

/// Builds one frame around `payload`.
pub fn new_frame(id: u8, payload: &Vec<u8>) -> (r: Vec<u8>)
    requires
        payload@.len() <= u32::MAX,
    ensures
        r@ == spec_frame(id, payload@),
        frame_well_formed(r@),
{
    let mut out: Vec<u8> = Vec::new();
    out.push(id);
    out.push(0);
    out.push(0);
    write_u32_le(&mut out, payload.len() as u32);
    out.extend_from_slice(payload.as_slice());
    proof {
        assert(out@ =~= spec_frame(id, payload@));
        assert(out@.subrange(3, 7) =~= le_bytes_u32(payload@.len() as u32));
        lemma_le_u32_round_trip(payload@.len() as u32);
    }
    out
}

/// A fresh copy of a byte string.
pub fn clone_bytes(v: &Vec<u8>) -> (r: Vec<u8>)
    ensures
        r@ == v@,
{
    let mut out: Vec<u8> = Vec::new();
    out.extend_from_slice(v.as_slice());
    proof {
        assert(out@ =~= v@);
    }
    out
}

/// Accumulates encoded frames into one response body, consumed once.
pub struct PacketBuilder {
    pub content: Vec<u8>,
}

impl PacketBuilder {
    pub fn new() -> (r: PacketBuilder)
        ensures
            r.content@ == Seq::<u8>::empty(),
    {
        PacketBuilder { content: Vec::new() }
    }

    /// Appends a freshly framed blob.
    pub fn add(&mut self, packet: Vec<u8>)
        ensures
            final(self).content@ == old(self).content@ + packet@,
    {
        let mut p = packet;
        self.content.append(&mut p);
    }

    /// Appends an already-framed blob held by the caller, without re-encoding.
    pub fn add_ref(&mut self, packet: &Vec<u8>)
        ensures
            final(self).content@ == old(self).content@ + packet@,
    {
        self.content.extend_from_slice(packet.as_slice());
    }

    /// Concatenated response body.
    pub fn write_out(self) -> (r: Vec<u8>)
        ensures
            r@ == self.content@,
    {
        self.content
    }
}

} // verus!
