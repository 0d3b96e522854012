//! The wire codec: a total, format-parametric encoding of every value that
//! travels inside a container.
//!
//! Two byte-level flavours share one interface, selected by [`PackFormat`]:
//!
//! * `Bincode`: fixed-width little-endian primitives, 64-bit length
//!   prefixes, 32-bit enum tags, no per-value framing.
//! * `MessagePack`: every value carries its own tag byte; wide forms are
//!   used throughout (`uint`/`int` families, `str 32`, `bin 8`,
//!   `array 32`), integers big-endian as the format demands; structs are
//!   arrays of their fields and a data-carrying enum variant is a two-slot
//!   array of tag and payload.
//!
//! Each implementation carries a specification-level encoder `venc` and a
//! total decoder `vdec`, an executable writer and reader proved equal to
//! them, and a proof that decoding inverts encoding.

use vstd::bytes::*;
use vstd::prelude::*;
use vstd::utf8::{
    decode_utf8, encode_utf8, encode_utf8_decode_utf8, encode_utf8_valid_utf8, valid_utf8,
};

use crate::format::PackFormat;
use crate::text::string_from_utf8;

verus! {

// ------------------------------------------------------------------
// Big-endian byte order
// ------------------------------------------------------------------
/// The two big-endian bytes of `x`.
pub open spec fn be2(x: u16) -> Seq<u8> {
    seq![(x >> 8) as u8, x as u8]
}

/// The four big-endian bytes of `x`.
pub open spec fn be4(x: u32) -> Seq<u8> {
    seq![(x >> 24) as u8, (x >> 16) as u8, (x >> 8) as u8, x as u8]
}

/// The eight big-endian bytes of `x`.
pub open spec fn be8(x: u64) -> Seq<u8> {
    seq![
        (x >> 56) as u8,
        (x >> 48) as u8,
        (x >> 40) as u8,
        (x >> 32) as u8,
        (x >> 24) as u8,
        (x >> 16) as u8,
        (x >> 8) as u8,
        x as u8,
    ]
}

/// The value of two big-endian bytes.
pub open spec fn from_be2(s: Seq<u8>) -> u16 {
    (((s[0] as u16) << 8) | (s[1] as u16)) as u16
}

/// The value of four big-endian bytes.
pub open spec fn from_be4(s: Seq<u8>) -> u32 {
    (((s[0] as u32) << 24) | ((s[1] as u32) << 16) | ((s[2] as u32) << 8) | (s[3] as u32)) as u32
}

/// The value of eight big-endian bytes.
pub open spec fn from_be8(s: Seq<u8>) -> u64 {
    (((s[0] as u64) << 56) | ((s[1] as u64) << 48) | ((s[2] as u64) << 40) | ((s[3] as u64) << 32)
        | ((s[4] as u64) << 24) | ((s[5] as u64) << 16) | ((s[6] as u64) << 8) | (s[7] as u64)) as u64
}

/// Reading back the two big-endian bytes of `x` yields `x`.
pub proof fn lemma_be2_roundtrip(x: u16)
    ensures
        from_be2(be2(x)) == x,
{
    assert((((((x >> 8) as u8) as u16) << 8) | (((x as u8)) as u16)) == x) by (bit_vector);
}

/// Reading back the four big-endian bytes of `x` yields `x`.
pub proof fn lemma_be4_roundtrip(x: u32)
    ensures
        from_be4(be4(x)) == x,
{
    assert(((((x >> 24) as u8 as u32) << 24) | (((x >> 16) as u8 as u32) << 16) | (((x
        >> 8) as u8 as u32) << 8) | ((x as u8) as u32)) == x) by (bit_vector);
}

/// Reading back the eight big-endian bytes of `x` yields `x`.
pub proof fn lemma_be8_roundtrip(x: u64)
    ensures
        from_be8(be8(x)) == x,
{
    assert(((((x >> 56) as u8 as u64) << 56) | (((x >> 48) as u8 as u64) << 48) | (((x
        >> 40) as u8 as u64) << 40) | (((x >> 32) as u8 as u64) << 32) | (((x
        >> 24) as u8 as u64) << 24) | (((x >> 16) as u8 as u64) << 16) | (((x
        >> 8) as u8 as u64) << 8) | ((x as u8) as u64)) == x) by (bit_vector);
}

/// Appends the two big-endian bytes of `x`.
pub fn put_be2(x: u16, out: &mut Vec<u8>)
    ensures
        final(out)@ == old(out)@ + be2(x),
{
    out.push((x >> 8) as u8);
    out.push(x as u8);
    proof {
        assert(out@ =~= old(out)@ + be2(x));
    }
}

/// Appends the four big-endian bytes of `x`.
pub fn put_be4(x: u32, out: &mut Vec<u8>)
    ensures
        final(out)@ == old(out)@ + be4(x),
{
    out.push((x >> 24) as u8);
    out.push((x >> 16) as u8);
    out.push((x >> 8) as u8);
    out.push(x as u8);
    proof {
        assert(out@ =~= old(out)@ + be4(x));
    }
}

/// Appends the eight big-endian bytes of `x`.
pub fn put_be8(x: u64, out: &mut Vec<u8>)
    ensures
        final(out)@ == old(out)@ + be8(x),
{
    out.push((x >> 56) as u8);
    out.push((x >> 48) as u8);
    out.push((x >> 40) as u8);
    out.push((x >> 32) as u8);
    out.push((x >> 24) as u8);
    out.push((x >> 16) as u8);
    out.push((x >> 8) as u8);
    out.push(x as u8);
    proof {
        assert(out@ =~= old(out)@ + be8(x));
    }
}

/// Reads two big-endian bytes at `pos`.
pub fn get_be2(b: &[u8], pos: usize) -> (x: u16)
    requires
        pos + 2 <= b@.len(),
    ensures
        x == from_be2(b@.subrange(pos as int, pos as int + 2)),
{
    let x = ((b[pos] as u16) << 8) | (b[pos + 1] as u16);
    proof {
        let s = b@.subrange(pos as int, pos as int + 2);
        assert(s[0] == b@[pos as int] && s[1] == b@[pos as int + 1]);
    }
    x
}

/// Reads four big-endian bytes at `pos`.
pub fn get_be4(b: &[u8], pos: usize) -> (x: u32)
    requires
        pos + 4 <= b@.len(),
    ensures
        x == from_be4(b@.subrange(pos as int, pos as int + 4)),
{
    let x = ((b[pos] as u32) << 24) | ((b[pos + 1] as u32) << 16) | ((b[pos + 2] as u32) << 8) | (
    b[pos + 3] as u32);
    proof {
        let s = b@.subrange(pos as int, pos as int + 4);
        assert(s[0] == b@[pos as int] && s[1] == b@[pos as int + 1] && s[2] == b@[pos as int + 2]
            && s[3] == b@[pos as int + 3]);
    }
    x
}

/// Reads eight big-endian bytes at `pos`.
pub fn get_be8(b: &[u8], pos: usize) -> (x: u64)
    requires
        pos + 8 <= b@.len(),
    ensures
        x == from_be8(b@.subrange(pos as int, pos as int + 8)),
{
    let x = ((b[pos] as u64) << 56) | ((b[pos + 1] as u64) << 48) | ((b[pos + 2] as u64) << 40) | (
    (b[pos + 3] as u64) << 32) | ((b[pos + 4] as u64) << 24) | ((b[pos + 5] as u64) << 16) | ((b[pos
        + 6] as u64) << 8) | (b[pos + 7] as u64);
    proof {
        let s = b@.subrange(pos as int, pos as int + 8);
        assert(s[0] == b@[pos as int] && s[1] == b@[pos as int + 1] && s[2] == b@[pos as int + 2]
            && s[3] == b@[pos as int + 3] && s[4] == b@[pos as int + 4] && s[5] == b@[pos as int + 5]
            && s[6] == b@[pos as int + 6] && s[7] == b@[pos as int + 7]);
    }
    x
}

// ------------------------------------------------------------------
// Little-endian helpers over vstd's byte conversions
// ------------------------------------------------------------------
/// Appends the two little-endian bytes of `x`.
pub fn put_le2(x: u16, out: &mut Vec<u8>)
    ensures
        final(out)@ == old(out)@ + spec_u16_to_le_bytes(x),
{
    let mut v = u16_to_le_bytes(x);
    out.append(&mut v);
}

/// Appends the four little-endian bytes of `x`.
pub fn put_le4(x: u32, out: &mut Vec<u8>)
    ensures
        final(out)@ == old(out)@ + spec_u32_to_le_bytes(x),
{
    let mut v = u32_to_le_bytes(x);
    out.append(&mut v);
}

/// Appends the eight little-endian bytes of `x`.
pub fn put_le8(x: u64, out: &mut Vec<u8>)
    ensures
        final(out)@ == old(out)@ + spec_u64_to_le_bytes(x),
{
    let mut v = u64_to_le_bytes(x);
    out.append(&mut v);
}

/// Reads two little-endian bytes at `pos`.
pub fn get_le2(b: &[u8], pos: usize) -> (x: u16)
    requires
        pos + 2 <= b@.len(),
    ensures
        x == spec_u16_from_le_bytes(b@.subrange(pos as int, pos as int + 2)),
{
    let n = b.len();
    u16_from_le_bytes(&b[pos..pos + 2])
}

/// Reads four little-endian bytes at `pos`.
pub fn get_le4(b: &[u8], pos: usize) -> (x: u32)
    requires
        pos + 4 <= b@.len(),
    ensures
        x == spec_u32_from_le_bytes(b@.subrange(pos as int, pos as int + 4)),
{
    let n = b.len();
    u32_from_le_bytes(&b[pos..pos + 4])
}

/// Reads eight little-endian bytes at `pos`.
pub fn get_le8(b: &[u8], pos: usize) -> (x: u64)
    requires
        pos + 8 <= b@.len(),
    ensures
        x == spec_u64_from_le_bytes(b@.subrange(pos as int, pos as int + 8)),
{
    let n = b.len();
    u64_from_le_bytes(&b[pos..pos + 8])
}

// ------------------------------------------------------------------
// Sequence plumbing
// ------------------------------------------------------------------
/// Dropping `i` and then `j` elements drops `i + j` elements.
pub proof fn lemma_skip_skip(b: Seq<u8>, i: int, j: int)
    requires
        0 <= i,
        0 <= j,
        i + j <= b.len(),
    ensures
        b.skip(i).skip(j) =~= b.skip(i + j),
{
}

/// A concatenation's prefix of the first operand's length is that operand,
/// and skipping it leaves the second.
pub proof fn lemma_concat_split(a: Seq<u8>, c: Seq<u8>)
    ensures
        (a + c).subrange(0, a.len() as int) =~= a,
        (a + c).skip(a.len() as int) =~= c,
        (a + c).len() == a.len() + c.len(),
{
}

/// Whether two byte slices hold the same bytes.
pub fn bytes_eq(a: &[u8], b: &[u8]) -> (r: bool)
    ensures
        r == (a@ == b@),
{
    if a.len() != b.len() {
        proof {
            assert(a@.len() != b@.len());
        }
        return false;
    }
    let n = a.len();
    let mut i: usize = 0;
    while i < n
        invariant
            i <= n,
            n == a@.len(),
            n == b@.len(),
            forall|j: int| 0 <= j < i ==> a@[j] == b@[j],
        decreases n - i,
    {
        if a[i] != b[i] {
            return false;
        }
        i += 1;
    }
    proof {
        assert(a@ =~= b@);
    }
    true
}

// ------------------------------------------------------------------
// The Wire trait
// ------------------------------------------------------------------
/// A value that can travel on the wire in either body format.
///
/// `venc` is the bytes of a view, `vok` the format's limits on it, and
/// `vdec` the total decoder on a byte suffix, returning the decoded view
/// and the count of bytes consumed. The executable writer and reader are
/// proved equal to them, and `lemma_complete` shows that decoding inverts
/// encoding.
pub trait Wire: DeepView + Sized {
    /// The wire bytes of view `v` under format `f`.
    spec fn venc(v: Self::V, f: PackFormat) -> Seq<u8>;

    /// Whether view `v` fits format `f`'s limits.
    spec fn vok(v: Self::V, f: PackFormat) -> bool;

    /// The total decoder: the view read from the front of `b` and the
    /// count of bytes consumed, or `None` if `b` does not start with a
    /// well-formed value.
    spec fn vdec(b: Seq<u8>, f: PackFormat) -> Option<(Self::V, int)>;

    /// A successful decode consumes between zero and all of `b`.
    proof fn lemma_vdec_bounds(b: Seq<u8>, f: PackFormat)
        ensures
            Self::vdec(b, f) matches Some(p) ==> 0 <= p.1 <= b.len(),
    ;

    /// Decoding inverts encoding, whatever follows the encoded bytes.
    proof fn lemma_complete(v: Self::V, rest: Seq<u8>, f: PackFormat)
        requires
            Self::vok(v, f),
        ensures
            Self::vdec(Self::venc(v, f) + rest, f) == Some(
                (v, Self::venc(v, f).len() as int),
            ),
    ;

    /// Whether this value fits format `f`'s limits.
    fn wire_ok(&self, f: PackFormat) -> (b: bool)
        ensures
            b == Self::vok(self.deep_view(), f),
    ;

    /// Appends this value's wire bytes to `out`.
    fn wire_write(&self, f: PackFormat, out: &mut Vec<u8>)
        requires
            Self::vok(self.deep_view(), f),
        ensures
            final(out)@ == old(out)@ + Self::venc(self.deep_view(), f),
    ;

    /// Reads one value from `b` starting at `pos`; returns it with the
    /// position just past its bytes.
    fn wire_read(b: &[u8], pos: usize, f: PackFormat) -> (r: Option<(Self, usize)>)
        requires
            pos <= b@.len(),
        ensures
            r matches Some(p) ==> pos <= p.1 <= b@.len() && Self::vdec(b@.skip(pos as int), f)
                == Some((p.0.deep_view(), p.1 - pos as int)),
            r is None ==> Self::vdec(b@.skip(pos as int), f) is None,
    ;
}

// ------------------------------------------------------------------
// Format framing
// ------------------------------------------------------------------
/// Whether `f` is the MessagePack flavour.
pub open spec fn mp(f: PackFormat) -> bool {
    f == PackFormat::MessagePack
}

/// The length prefix of a sequence of `n` elements.
pub open spec fn enc_seq_len(n: u64, f: PackFormat) -> Seq<u8> {
    if mp(f) {
        seq![0xddu8] + be4(n as u32)
    } else {
        spec_u64_to_le_bytes(n)
    }
}

/// Decodes a sequence length prefix.
pub open spec fn dec_seq_len(b: Seq<u8>, f: PackFormat) -> Option<(u64, int)> {
    if mp(f) {
        if b.len() >= 5 && b[0] == 0xdd {
            Some(((from_be4(b.subrange(1, 5)) as u64), 5int))
        } else {
            None
        }
    } else {
        if b.len() >= 8 {
            Some((spec_u64_from_le_bytes(b.subrange(0, 8)), 8int))
        } else {
            None
        }
    }
}

/// Decoding inverts encoding for sequence length prefixes.
pub proof fn lemma_seq_len_complete(n: u64, rest: Seq<u8>, f: PackFormat)
    requires
        mp(f) ==> n < 0x1_0000_0000,
    ensures
        dec_seq_len(enc_seq_len(n, f) + rest, f) == Some((n, enc_seq_len(n, f).len() as int)),
{
    let b = enc_seq_len(n, f) + rest;
    if mp(f) {
        assert(b[0] == 0xdd);
        assert(b.subrange(1, 5) =~= be4(n as u32));
        lemma_be4_roundtrip(n as u32);
        assert((from_be4(be4(n as u32)) as u64) == n);
    } else {
        lemma_auto_spec_u64_to_from_le_bytes();
        assert(b.subrange(0, 8) =~= spec_u64_to_le_bytes(n));
    }
}

/// Appends a sequence length prefix.
pub fn write_seq_len(n: u64, f: PackFormat, out: &mut Vec<u8>)
    requires
        mp(f) ==> n < 0x1_0000_0000,
    ensures
        final(out)@ == old(out)@ + enc_seq_len(n, f),
{
    if f == PackFormat::MessagePack {
        out.push(0xdd);
        put_be4(n as u32, out);
        proof {
            assert(out@ =~= old(out)@ + enc_seq_len(n, f));
        }
    } else {
        put_le8(n, out);
    }
}

/// Reads a sequence length prefix at `pos`.
pub fn read_seq_len(b: &[u8], pos: usize, f: PackFormat) -> (r: Option<(u64, usize)>)
    requires
        pos <= b@.len(),
    ensures
        r matches Some(p) ==> pos <= p.1 <= b@.len() && dec_seq_len(b@.skip(pos as int), f)
            == Some((p.0, p.1 - pos as int)),
        r is None ==> dec_seq_len(b@.skip(pos as int), f) is None,
{
    let n = b.len();
    if f == PackFormat::MessagePack {
        if n - pos >= 5 && b[pos] == 0xdd {
            let x = get_be4(b, pos + 1);
            proof {
                assert(b@.skip(pos as int)[0] == b@[pos as int]);
                assert(b@.skip(pos as int).subrange(1, 5) =~= b@.subrange(
                    pos as int + 1,
                    pos as int + 5,
                ));
            }
            Some(((x as u64), pos + 5))
        } else {
            proof {
                if b@.skip(pos as int).len() >= 5 {
                    assert(b@.skip(pos as int)[0] == b@[pos as int]);
                }
            }
            None
        }
    } else {
        if n - pos >= 8 {
            let x = get_le8(b, pos);
            proof {
                assert(b@.skip(pos as int).subrange(0, 8) =~= b@.subrange(
                    pos as int,
                    pos as int + 8,
                ));
            }
            Some((x, pos + 8))
        } else {
            None
        }
    }
}

/// The byte-length prefix of a string of `n` UTF-8 bytes.
pub open spec fn enc_str_len(n: u64, f: PackFormat) -> Seq<u8> {
    if mp(f) {
        seq![0xdbu8] + be4(n as u32)
    } else {
        spec_u64_to_le_bytes(n)
    }
}

/// Decodes a string byte-length prefix.
pub open spec fn dec_str_len(b: Seq<u8>, f: PackFormat) -> Option<(u64, int)> {
    if mp(f) {
        if b.len() >= 5 && b[0] == 0xdb {
            Some(((from_be4(b.subrange(1, 5)) as u64), 5int))
        } else {
            None
        }
    } else {
        if b.len() >= 8 {
            Some((spec_u64_from_le_bytes(b.subrange(0, 8)), 8int))
        } else {
            None
        }
    }
}

/// Decoding inverts encoding for string length prefixes.
pub proof fn lemma_str_len_complete(n: u64, rest: Seq<u8>, f: PackFormat)
    requires
        mp(f) ==> n < 0x1_0000_0000,
    ensures
        dec_str_len(enc_str_len(n, f) + rest, f) == Some((n, enc_str_len(n, f).len() as int)),
{
    let b = enc_str_len(n, f) + rest;
    if mp(f) {
        assert(b[0] == 0xdb);
        assert(b.subrange(1, 5) =~= be4(n as u32));
        lemma_be4_roundtrip(n as u32);
        assert((from_be4(be4(n as u32)) as u64) == n);
    } else {
        lemma_auto_spec_u64_to_from_le_bytes();
        assert(b.subrange(0, 8) =~= spec_u64_to_le_bytes(n));
    }
}

/// Appends a string byte-length prefix.
pub fn write_str_len(n: u64, f: PackFormat, out: &mut Vec<u8>)
    requires
        mp(f) ==> n < 0x1_0000_0000,
    ensures
        final(out)@ == old(out)@ + enc_str_len(n, f),
{
    if f == PackFormat::MessagePack {
        out.push(0xdb);
        put_be4(n as u32, out);
        proof {
            assert(out@ =~= old(out)@ + enc_str_len(n, f));
        }
    } else {
        put_le8(n, out);
    }
}

/// Reads a string byte-length prefix at `pos`.
pub fn read_str_len(b: &[u8], pos: usize, f: PackFormat) -> (r: Option<(u64, usize)>)
    requires
        pos <= b@.len(),
    ensures
        r matches Some(p) ==> pos <= p.1 <= b@.len() && dec_str_len(b@.skip(pos as int), f)
            == Some((p.0, p.1 - pos as int)),
        r is None ==> dec_str_len(b@.skip(pos as int), f) is None,
{
    let n = b.len();
    if f == PackFormat::MessagePack {
        if n - pos >= 5 && b[pos] == 0xdb {
            let x = get_be4(b, pos + 1);
            proof {
                assert(b@.skip(pos as int)[0] == b@[pos as int]);
                assert(b@.skip(pos as int).subrange(1, 5) =~= b@.subrange(
                    pos as int + 1,
                    pos as int + 5,
                ));
            }
            Some(((x as u64), pos + 5))
        } else {
            proof {
                if b@.skip(pos as int).len() >= 5 {
                    assert(b@.skip(pos as int)[0] == b@[pos as int]);
                }
            }
            None
        }
    } else {
        if n - pos >= 8 {
            let x = get_le8(b, pos);
            proof {
                assert(b@.skip(pos as int).subrange(0, 8) =~= b@.subrange(
                    pos as int,
                    pos as int + 8,
                ));
            }
            Some((x, pos + 8))
        } else {
            None
        }
    }
}

/// The tag of a unit enum variant.
pub open spec fn enc_enum_tag(t: u32, f: PackFormat) -> Seq<u8> {
    if mp(f) {
        seq![0xceu8] + be4(t)
    } else {
        spec_u32_to_le_bytes(t)
    }
}

/// Decodes a unit enum variant tag.
pub open spec fn dec_enum_tag(b: Seq<u8>, f: PackFormat) -> Option<(u32, int)> {
    if mp(f) {
        if b.len() >= 5 && b[0] == 0xce {
            Some((from_be4(b.subrange(1, 5)), 5int))
        } else {
            None
        }
    } else {
        if b.len() >= 4 {
            Some((spec_u32_from_le_bytes(b.subrange(0, 4)), 4int))
        } else {
            None
        }
    }
}

/// Decoding inverts encoding for unit enum tags.
pub proof fn lemma_enum_tag_complete(t: u32, rest: Seq<u8>, f: PackFormat)
    ensures
        dec_enum_tag(enc_enum_tag(t, f) + rest, f) == Some((t, enc_enum_tag(t, f).len() as int)),
{
    let b = enc_enum_tag(t, f) + rest;
    if mp(f) {
        assert(b[0] == 0xce);
        assert(b.subrange(1, 5) =~= be4(t));
        lemma_be4_roundtrip(t);
    } else {
        lemma_auto_spec_u32_to_from_le_bytes();
        assert(b.subrange(0, 4) =~= spec_u32_to_le_bytes(t));
    }
}

/// Appends a unit enum variant tag.
pub fn write_enum_tag(t: u32, f: PackFormat, out: &mut Vec<u8>)
    ensures
        final(out)@ == old(out)@ + enc_enum_tag(t, f),
{
    if f == PackFormat::MessagePack {
        out.push(0xce);
        put_be4(t, out);
        proof {
            assert(out@ =~= old(out)@ + enc_enum_tag(t, f));
        }
    } else {
        put_le4(t, out);
    }
}

/// Reads a unit enum variant tag at `pos`.
pub fn read_enum_tag(b: &[u8], pos: usize, f: PackFormat) -> (r: Option<(u32, usize)>)
    requires
        pos <= b@.len(),
    ensures
        r matches Some(p) ==> pos <= p.1 <= b@.len() && dec_enum_tag(b@.skip(pos as int), f)
            == Some((p.0, p.1 - pos as int)),
        r is None ==> dec_enum_tag(b@.skip(pos as int), f) is None,
{
    let n = b.len();
    if f == PackFormat::MessagePack {
        if n - pos >= 5 && b[pos] == 0xce {
            let x = get_be4(b, pos + 1);
            proof {
                assert(b@.skip(pos as int)[0] == b@[pos as int]);
                assert(b@.skip(pos as int).subrange(1, 5) =~= b@.subrange(
                    pos as int + 1,
                    pos as int + 5,
                ));
            }
            Some((x, pos + 5))
        } else {
            proof {
                if b@.skip(pos as int).len() >= 5 {
                    assert(b@.skip(pos as int)[0] == b@[pos as int]);
                }
            }
            None
        }
    } else {
        if n - pos >= 4 {
            let x = get_le4(b, pos);
            proof {
                assert(b@.skip(pos as int).subrange(0, 4) =~= b@.subrange(
                    pos as int,
                    pos as int + 4,
                ));
            }
            Some((x, pos + 4))
        } else {
            None
        }
    }
}

/// The header of a data-carrying enum variant with tag `t`: under
/// MessagePack the variant is a two-slot array of tag and payload.
pub open spec fn enc_variant_hdr(t: u32, f: PackFormat) -> Seq<u8> {
    if mp(f) {
        seq![0xddu8] + be4(2) + seq![0xceu8] + be4(t)
    } else {
        spec_u32_to_le_bytes(t)
    }
}

/// Decodes a data-carrying enum variant header.
pub open spec fn dec_variant_hdr(b: Seq<u8>, f: PackFormat) -> Option<(u32, int)> {
    if mp(f) {
        if b.len() >= 10 && b[0] == 0xdd && from_be4(b.subrange(1, 5)) == 2 && b[5] == 0xce {
            Some((from_be4(b.subrange(6, 10)), 10int))
        } else {
            None
        }
    } else {
        if b.len() >= 4 {
            Some((spec_u32_from_le_bytes(b.subrange(0, 4)), 4int))
        } else {
            None
        }
    }
}

/// Decoding inverts encoding for data-carrying enum variant headers.
pub proof fn lemma_variant_hdr_complete(t: u32, rest: Seq<u8>, f: PackFormat)
    ensures
        dec_variant_hdr(enc_variant_hdr(t, f) + rest, f) == Some(
            (t, enc_variant_hdr(t, f).len() as int),
        ),
{
    let b = enc_variant_hdr(t, f) + rest;
    if mp(f) {
        assert(b[0] == 0xdd && b[5] == 0xce);
        assert(b.subrange(1, 5) =~= be4(2));
        assert(b.subrange(6, 10) =~= be4(t));
        lemma_be4_roundtrip(2);
        lemma_be4_roundtrip(t);
    } else {
        lemma_auto_spec_u32_to_from_le_bytes();
        assert(b.subrange(0, 4) =~= spec_u32_to_le_bytes(t));
    }
}

/// Appends a data-carrying enum variant header.
pub fn write_variant_hdr(t: u32, f: PackFormat, out: &mut Vec<u8>)
    ensures
        final(out)@ == old(out)@ + enc_variant_hdr(t, f),
{
    if f == PackFormat::MessagePack {
        out.push(0xdd);
        put_be4(2, out);
        out.push(0xce);
        put_be4(t, out);
        proof {
            assert(out@ =~= old(out)@ + enc_variant_hdr(t, f));
        }
    } else {
        put_le4(t, out);
    }
}

/// Reads a data-carrying enum variant header at `pos`.
pub fn read_variant_hdr(b: &[u8], pos: usize, f: PackFormat) -> (r: Option<(u32, usize)>)
    requires
        pos <= b@.len(),
    ensures
        r matches Some(p) ==> pos <= p.1 <= b@.len() && dec_variant_hdr(b@.skip(pos as int), f)
            == Some((p.0, p.1 - pos as int)),
        r is None ==> dec_variant_hdr(b@.skip(pos as int), f) is None,
{
    let n = b.len();
    if f == PackFormat::MessagePack {
        proof {
            if b@.skip(pos as int).len() >= 10 {
                assert(b@.skip(pos as int)[0] == b@[pos as int]);
                assert(b@.skip(pos as int)[5] == b@[pos as int + 5]);
                assert(b@.skip(pos as int).subrange(1, 5) =~= b@.subrange(
                    pos as int + 1,
                    pos as int + 5,
                ));
                assert(b@.skip(pos as int).subrange(6, 10) =~= b@.subrange(
                    pos as int + 6,
                    pos as int + 10,
                ));
            }
        }
        if n - pos >= 10 && b[pos] == 0xdd {
            let k = get_be4(b, pos + 1);
            if k == 2 && b[pos + 5] == 0xce {
                let x = get_be4(b, pos + 6);
                Some((x, pos + 10))
            } else {
                None
            }
        } else {
            None
        }
    } else {
        if n - pos >= 4 {
            let x = get_le4(b, pos);
            proof {
                assert(b@.skip(pos as int).subrange(0, 4) =~= b@.subrange(
                    pos as int,
                    pos as int + 4,
                ));
            }
            Some((x, pos + 4))
        } else {
            None
        }
    }
}

/// The header of a struct with `k` fields: under MessagePack the struct is
/// an array of its fields; under Bincode it has no framing.
pub open spec fn enc_struct_hdr(k: u32, f: PackFormat) -> Seq<u8> {
    if mp(f) {
        seq![0xddu8] + be4(k)
    } else {
        Seq::empty()
    }
}

/// Decodes a struct header, checking the field count is `k`.
pub open spec fn dec_struct_hdr(b: Seq<u8>, k: u32, f: PackFormat) -> Option<int> {
    if mp(f) {
        if b.len() >= 5 && b[0] == 0xdd && from_be4(b.subrange(1, 5)) == k {
            Some(5int)
        } else {
            None
        }
    } else {
        Some(0int)
    }
}

/// Decoding inverts encoding for struct headers.
pub proof fn lemma_struct_hdr_complete(k: u32, rest: Seq<u8>, f: PackFormat)
    ensures
        dec_struct_hdr(enc_struct_hdr(k, f) + rest, k, f) == Some(enc_struct_hdr(k, f).len() as int),
{
    let b = enc_struct_hdr(k, f) + rest;
    if mp(f) {
        assert(b[0] == 0xdd);
        assert(b.subrange(1, 5) =~= be4(k));
        lemma_be4_roundtrip(k);
    }
}

/// Appends a struct header.
pub fn write_struct_hdr(k: u32, f: PackFormat, out: &mut Vec<u8>)
    ensures
        final(out)@ == old(out)@ + enc_struct_hdr(k, f),
{
    if f == PackFormat::MessagePack {
        out.push(0xdd);
        put_be4(k, out);
        proof {
            assert(out@ =~= old(out)@ + enc_struct_hdr(k, f));
        }
    } else {
        proof {
            assert(out@ =~= old(out)@ + enc_struct_hdr(k, f));
        }
    }
}

/// Reads a struct header at `pos`, checking the field count is `k`.
pub fn read_struct_hdr(b: &[u8], pos: usize, k: u32, f: PackFormat) -> (r: Option<usize>)
    requires
        pos <= b@.len(),
    ensures
        r matches Some(p) ==> pos <= p <= b@.len() && dec_struct_hdr(b@.skip(pos as int), k, f)
            == Some(p - pos as int),
        r is None ==> dec_struct_hdr(b@.skip(pos as int), k, f) is None,
{
    let n = b.len();
    if f == PackFormat::MessagePack {
        proof {
            if b@.skip(pos as int).len() >= 5 {
                assert(b@.skip(pos as int)[0] == b@[pos as int]);
                assert(b@.skip(pos as int).subrange(1, 5) =~= b@.subrange(
                    pos as int + 1,
                    pos as int + 5,
                ));
            }
        }
        if n - pos >= 5 && b[pos] == 0xdd {
            let x = get_be4(b, pos + 1);
            if x == k {
                Some(pos + 5)
            } else {
                None
            }
        } else {
            None
        }
    } else {
        Some(pos)
    }
}

// ------------------------------------------------------------------
// Tagged fixed-width integers
// ------------------------------------------------------------------
/// A one-byte value: under MessagePack a tag byte then the value.
pub open spec fn enc_tagged1(tag: u8, x: u8, f: PackFormat) -> Seq<u8> {
    if mp(f) {
        seq![tag, x]
    } else {
        seq![x]
    }
}

/// Decodes a one-byte value behind tag `tag`.
pub open spec fn dec_tagged1(b: Seq<u8>, tag: u8, f: PackFormat) -> Option<(u8, int)> {
    if mp(f) {
        if b.len() >= 2 && b[0] == tag {
            Some((b[1], 2int))
        } else {
            None
        }
    } else {
        if b.len() >= 1 {
            Some((b[0], 1int))
        } else {
            None
        }
    }
}

/// Decoding inverts encoding for one-byte values.
pub proof fn lemma_tagged1_complete(tag: u8, x: u8, rest: Seq<u8>, f: PackFormat)
    ensures
        dec_tagged1(enc_tagged1(tag, x, f) + rest, tag, f) == Some(
            (x, enc_tagged1(tag, x, f).len() as int),
        ),
{
    let b = enc_tagged1(tag, x, f) + rest;
    if mp(f) {
        assert(b[0] == tag && b[1] == x);
    } else {
        assert(b[0] == x);
    }
}

/// Appends a one-byte value.
pub fn write_tagged1(tag: u8, x: u8, f: PackFormat, out: &mut Vec<u8>)
    ensures
        final(out)@ == old(out)@ + enc_tagged1(tag, x, f),
{
    if f == PackFormat::MessagePack {
        out.push(tag);
    }
    out.push(x);
    proof {
        assert(out@ =~= old(out)@ + enc_tagged1(tag, x, f));
    }
}

/// Reads a one-byte value behind tag `tag` at `pos`.
pub fn read_tagged1(b: &[u8], pos: usize, tag: u8, f: PackFormat) -> (r: Option<(u8, usize)>)
    requires
        pos <= b@.len(),
    ensures
        r matches Some(p) ==> pos <= p.1 <= b@.len() && dec_tagged1(b@.skip(pos as int), tag, f)
            == Some((p.0, p.1 - pos as int)),
        r is None ==> dec_tagged1(b@.skip(pos as int), tag, f) is None,
{
    let n = b.len();
    proof {
        if b@.skip(pos as int).len() >= 1 {
            assert(b@.skip(pos as int)[0] == b@[pos as int]);
        }
        if b@.skip(pos as int).len() >= 2 {
            assert(b@.skip(pos as int)[1] == b@[pos as int + 1]);
        }
    }
    if f == PackFormat::MessagePack {
        if n - pos >= 2 && b[pos] == tag {
            Some((b[pos + 1], pos + 2))
        } else {
            None
        }
    } else {
        if n - pos >= 1 {
            Some((b[pos], pos + 1))
        } else {
            None
        }
    }
}

/// A two-byte integer: big-endian behind a tag under MessagePack,
/// little-endian bare under Bincode.
pub open spec fn enc_tagged2(tag: u8, x: u16, f: PackFormat) -> Seq<u8> {
    if mp(f) {
        seq![tag] + be2(x)
    } else {
        spec_u16_to_le_bytes(x)
    }
}

/// Decodes a two-byte integer behind tag `tag`.
pub open spec fn dec_tagged2(b: Seq<u8>, tag: u8, f: PackFormat) -> Option<(u16, int)> {
    if mp(f) {
        if b.len() >= 3 && b[0] == tag {
            Some((from_be2(b.subrange(1, 3)), 3int))
        } else {
            None
        }
    } else {
        if b.len() >= 2 {
            Some((spec_u16_from_le_bytes(b.subrange(0, 2)), 2int))
        } else {
            None
        }
    }
}

/// Decoding inverts encoding for two-byte integers.
pub proof fn lemma_tagged2_complete(tag: u8, x: u16, rest: Seq<u8>, f: PackFormat)
    ensures
        dec_tagged2(enc_tagged2(tag, x, f) + rest, tag, f) == Some(
            (x, enc_tagged2(tag, x, f).len() as int),
        ),
{
    let b = enc_tagged2(tag, x, f) + rest;
    if mp(f) {
        assert(b[0] == tag);
        assert(b.subrange(1, 3) =~= be2(x));
        lemma_be2_roundtrip(x);
    } else {
        lemma_auto_spec_u16_to_from_le_bytes();
        assert(b.subrange(0, 2) =~= spec_u16_to_le_bytes(x));
    }
}

/// Appends a two-byte integer.
pub fn write_tagged2(tag: u8, x: u16, f: PackFormat, out: &mut Vec<u8>)
    ensures
        final(out)@ == old(out)@ + enc_tagged2(tag, x, f),
{
    if f == PackFormat::MessagePack {
        out.push(tag);
        put_be2(x, out);
        proof {
            assert(out@ =~= old(out)@ + enc_tagged2(tag, x, f));
        }
    } else {
        put_le2(x, out);
    }
}

/// Reads a two-byte integer behind tag `tag` at `pos`.
pub fn read_tagged2(b: &[u8], pos: usize, tag: u8, f: PackFormat) -> (r: Option<(u16, usize)>)
    requires
        pos <= b@.len(),
    ensures
        r matches Some(p) ==> pos <= p.1 <= b@.len() && dec_tagged2(b@.skip(pos as int), tag, f)
            == Some((p.0, p.1 - pos as int)),
        r is None ==> dec_tagged2(b@.skip(pos as int), tag, f) is None,
{
    let n = b.len();
    if f == PackFormat::MessagePack {
        proof {
            if b@.skip(pos as int).len() >= 3 {
                assert(b@.skip(pos as int)[0] == b@[pos as int]);
                assert(b@.skip(pos as int).subrange(1, 3) =~= b@.subrange(
                    pos as int + 1,
                    pos as int + 3,
                ));
            } else if b@.skip(pos as int).len() >= 1 {
                assert(b@.skip(pos as int)[0] == b@[pos as int]);
            }
        }
        if n - pos >= 3 && b[pos] == tag {
            let x = get_be2(b, pos + 1);
            Some((x, pos + 3))
        } else {
            None
        }
    } else {
        if n - pos >= 2 {
            let x = get_le2(b, pos);
            proof {
                assert(b@.skip(pos as int).subrange(0, 2) =~= b@.subrange(
                    pos as int,
                    pos as int + 2,
                ));
            }
            Some((x, pos + 2))
        } else {
            None
        }
    }
}

/// A four-byte integer: big-endian behind a tag under MessagePack,
/// little-endian bare under Bincode.
pub open spec fn enc_tagged4(tag: u8, x: u32, f: PackFormat) -> Seq<u8> {
    if mp(f) {
        seq![tag] + be4(x)
    } else {
        spec_u32_to_le_bytes(x)
    }
}

/// Decodes a four-byte integer behind tag `tag`.
pub open spec fn dec_tagged4(b: Seq<u8>, tag: u8, f: PackFormat) -> Option<(u32, int)> {
    if mp(f) {
        if b.len() >= 5 && b[0] == tag {
            Some((from_be4(b.subrange(1, 5)), 5int))
        } else {
            None
        }
    } else {
        if b.len() >= 4 {
            Some((spec_u32_from_le_bytes(b.subrange(0, 4)), 4int))
        } else {
            None
        }
    }
}

/// Decoding inverts encoding for four-byte integers.
pub proof fn lemma_tagged4_complete(tag: u8, x: u32, rest: Seq<u8>, f: PackFormat)
    ensures
        dec_tagged4(enc_tagged4(tag, x, f) + rest, tag, f) == Some(
            (x, enc_tagged4(tag, x, f).len() as int),
        ),
{
    let b = enc_tagged4(tag, x, f) + rest;
    if mp(f) {
        assert(b[0] == tag);
        assert(b.subrange(1, 5) =~= be4(x));
        lemma_be4_roundtrip(x);
    } else {
        lemma_auto_spec_u32_to_from_le_bytes();
        assert(b.subrange(0, 4) =~= spec_u32_to_le_bytes(x));
    }
}

/// Appends a four-byte integer.
pub fn write_tagged4(tag: u8, x: u32, f: PackFormat, out: &mut Vec<u8>)
    ensures
        final(out)@ == old(out)@ + enc_tagged4(tag, x, f),
{
    if f == PackFormat::MessagePack {
        out.push(tag);
        put_be4(x, out);
        proof {
            assert(out@ =~= old(out)@ + enc_tagged4(tag, x, f));
        }
    } else {
        put_le4(x, out);
    }
}

/// Reads a four-byte integer behind tag `tag` at `pos`.
pub fn read_tagged4(b: &[u8], pos: usize, tag: u8, f: PackFormat) -> (r: Option<(u32, usize)>)
    requires
        pos <= b@.len(),
    ensures
        r matches Some(p) ==> pos <= p.1 <= b@.len() && dec_tagged4(b@.skip(pos as int), tag, f)
            == Some((p.0, p.1 - pos as int)),
        r is None ==> dec_tagged4(b@.skip(pos as int), tag, f) is None,
{
    let n = b.len();
    if f == PackFormat::MessagePack {
        proof {
            if b@.skip(pos as int).len() >= 5 {
                assert(b@.skip(pos as int)[0] == b@[pos as int]);
                assert(b@.skip(pos as int).subrange(1, 5) =~= b@.subrange(
                    pos as int + 1,
                    pos as int + 5,
                ));
            } else if b@.skip(pos as int).len() >= 1 {
                assert(b@.skip(pos as int)[0] == b@[pos as int]);
            }
        }
        if n - pos >= 5 && b[pos] == tag {
            let x = get_be4(b, pos + 1);
            Some((x, pos + 5))
        } else {
            None
        }
    } else {
        if n - pos >= 4 {
            let x = get_le4(b, pos);
            proof {
                assert(b@.skip(pos as int).subrange(0, 4) =~= b@.subrange(
                    pos as int,
                    pos as int + 4,
                ));
            }
            Some((x, pos + 4))
        } else {
            None
        }
    }
}

/// An eight-byte integer: big-endian behind a tag under MessagePack,
/// little-endian bare under Bincode.
pub open spec fn enc_tagged8(tag: u8, x: u64, f: PackFormat) -> Seq<u8> {
    if mp(f) {
        seq![tag] + be8(x)
    } else {
        spec_u64_to_le_bytes(x)
    }
}

/// Decodes an eight-byte integer behind tag `tag`.
pub open spec fn dec_tagged8(b: Seq<u8>, tag: u8, f: PackFormat) -> Option<(u64, int)> {
    if mp(f) {
        if b.len() >= 9 && b[0] == tag {
            Some((from_be8(b.subrange(1, 9)), 9int))
        } else {
            None
        }
    } else {
        if b.len() >= 8 {
            Some((spec_u64_from_le_bytes(b.subrange(0, 8)), 8int))
        } else {
            None
        }
    }
}

/// Decoding inverts encoding for eight-byte integers.
pub proof fn lemma_tagged8_complete(tag: u8, x: u64, rest: Seq<u8>, f: PackFormat)
    ensures
        dec_tagged8(enc_tagged8(tag, x, f) + rest, tag, f) == Some(
            (x, enc_tagged8(tag, x, f).len() as int),
        ),
{
    let b = enc_tagged8(tag, x, f) + rest;
    if mp(f) {
        assert(b[0] == tag);
        assert(b.subrange(1, 9) =~= be8(x));
        lemma_be8_roundtrip(x);
    } else {
        lemma_auto_spec_u64_to_from_le_bytes();
        assert(b.subrange(0, 8) =~= spec_u64_to_le_bytes(x));
    }
}

/// Appends an eight-byte integer.
pub fn write_tagged8(tag: u8, x: u64, f: PackFormat, out: &mut Vec<u8>)
    ensures
        final(out)@ == old(out)@ + enc_tagged8(tag, x, f),
{
    if f == PackFormat::MessagePack {
        out.push(tag);
        put_be8(x, out);
        proof {
            assert(out@ =~= old(out)@ + enc_tagged8(tag, x, f));
        }
    } else {
        put_le8(x, out);
    }
}

/// Reads an eight-byte integer behind tag `tag` at `pos`.
pub fn read_tagged8(b: &[u8], pos: usize, tag: u8, f: PackFormat) -> (r: Option<(u64, usize)>)
    requires
        pos <= b@.len(),
    ensures
        r matches Some(p) ==> pos <= p.1 <= b@.len() && dec_tagged8(b@.skip(pos as int), tag, f)
            == Some((p.0, p.1 - pos as int)),
        r is None ==> dec_tagged8(b@.skip(pos as int), tag, f) is None,
{
    let n = b.len();
    if f == PackFormat::MessagePack {
        proof {
            if b@.skip(pos as int).len() >= 9 {
                assert(b@.skip(pos as int)[0] == b@[pos as int]);
                assert(b@.skip(pos as int).subrange(1, 9) =~= b@.subrange(
                    pos as int + 1,
                    pos as int + 9,
                ));
            } else if b@.skip(pos as int).len() >= 1 {
                assert(b@.skip(pos as int)[0] == b@[pos as int]);
            }
        }
        if n - pos >= 9 && b[pos] == tag {
            let x = get_be8(b, pos + 1);
            Some((x, pos + 9))
        } else {
            None
        }
    } else {
        if n - pos >= 8 {
            let x = get_le8(b, pos);
            proof {
                assert(b@.skip(pos as int).subrange(0, 8) =~= b@.subrange(
                    pos as int,
                    pos as int + 8,
                ));
            }
            Some((x, pos + 8))
        } else {
            None
        }
    }
}


// ------------------------------------------------------------------
// Primitive implementations
// ------------------------------------------------------------------
impl Wire for u8 {
    open spec fn venc(v: u8, f: PackFormat) -> Seq<u8> {
        enc_tagged1(0xcc, v, f)
    }

    open spec fn vok(v: u8, f: PackFormat) -> bool {
        true
    }

    open spec fn vdec(b: Seq<u8>, f: PackFormat) -> Option<(u8, int)> {
        dec_tagged1(b, 0xcc, f)
    }

    proof fn lemma_vdec_bounds(b: Seq<u8>, f: PackFormat) {
    }

    proof fn lemma_complete(v: u8, rest: Seq<u8>, f: PackFormat) {
        lemma_tagged1_complete(0xcc, v, rest, f);
    }

    fn wire_ok(&self, f: PackFormat) -> bool {
        true
    }

    fn wire_write(&self, f: PackFormat, out: &mut Vec<u8>) {
        write_tagged1(0xcc, *self, f, out);
    }

    fn wire_read(b: &[u8], pos: usize, f: PackFormat) -> Option<(u8, usize)> {
        read_tagged1(b, pos, 0xcc, f)
    }
}

impl Wire for u16 {
    open spec fn venc(v: u16, f: PackFormat) -> Seq<u8> {
        enc_tagged2(0xcd, v, f)
    }

    open spec fn vok(v: u16, f: PackFormat) -> bool {
        true
    }

    open spec fn vdec(b: Seq<u8>, f: PackFormat) -> Option<(u16, int)> {
        dec_tagged2(b, 0xcd, f)
    }

    proof fn lemma_vdec_bounds(b: Seq<u8>, f: PackFormat) {
    }

    proof fn lemma_complete(v: u16, rest: Seq<u8>, f: PackFormat) {
        lemma_tagged2_complete(0xcd, v, rest, f);
    }

    fn wire_ok(&self, f: PackFormat) -> bool {
        true
    }

    fn wire_write(&self, f: PackFormat, out: &mut Vec<u8>) {
        write_tagged2(0xcd, *self, f, out);
    }

    fn wire_read(b: &[u8], pos: usize, f: PackFormat) -> Option<(u16, usize)> {
        read_tagged2(b, pos, 0xcd, f)
    }
}

impl Wire for u32 {
    open spec fn venc(v: u32, f: PackFormat) -> Seq<u8> {
        enc_tagged4(0xce, v, f)
    }

    open spec fn vok(v: u32, f: PackFormat) -> bool {
        true
    }

    open spec fn vdec(b: Seq<u8>, f: PackFormat) -> Option<(u32, int)> {
        dec_tagged4(b, 0xce, f)
    }

    proof fn lemma_vdec_bounds(b: Seq<u8>, f: PackFormat) {
    }

    proof fn lemma_complete(v: u32, rest: Seq<u8>, f: PackFormat) {
        lemma_tagged4_complete(0xce, v, rest, f);
    }

    fn wire_ok(&self, f: PackFormat) -> bool {
        true
    }

    fn wire_write(&self, f: PackFormat, out: &mut Vec<u8>) {
        write_tagged4(0xce, *self, f, out);
    }

    fn wire_read(b: &[u8], pos: usize, f: PackFormat) -> Option<(u32, usize)> {
        read_tagged4(b, pos, 0xce, f)
    }
}

impl Wire for u64 {
    open spec fn venc(v: u64, f: PackFormat) -> Seq<u8> {
        enc_tagged8(0xcf, v, f)
    }

    open spec fn vok(v: u64, f: PackFormat) -> bool {
        true
    }

    open spec fn vdec(b: Seq<u8>, f: PackFormat) -> Option<(u64, int)> {
        dec_tagged8(b, 0xcf, f)
    }

    proof fn lemma_vdec_bounds(b: Seq<u8>, f: PackFormat) {
    }

    proof fn lemma_complete(v: u64, rest: Seq<u8>, f: PackFormat) {
        lemma_tagged8_complete(0xcf, v, rest, f);
    }

    fn wire_ok(&self, f: PackFormat) -> bool {
        true
    }

    fn wire_write(&self, f: PackFormat, out: &mut Vec<u8>) {
        write_tagged8(0xcf, *self, f, out);
    }

    fn wire_read(b: &[u8], pos: usize, f: PackFormat) -> Option<(u64, usize)> {
        read_tagged8(b, pos, 0xcf, f)
    }
}

impl Wire for i8 {
    open spec fn venc(v: i8, f: PackFormat) -> Seq<u8> {
        enc_tagged1(0xd0, v as u8, f)
    }

    open spec fn vok(v: i8, f: PackFormat) -> bool {
        true
    }

    open spec fn vdec(b: Seq<u8>, f: PackFormat) -> Option<(i8, int)> {
        match dec_tagged1(b, 0xd0, f) {
            Some(p) => Some((p.0 as i8, p.1)),
            None => None,
        }
    }

    proof fn lemma_vdec_bounds(b: Seq<u8>, f: PackFormat) {
    }

    proof fn lemma_complete(v: i8, rest: Seq<u8>, f: PackFormat) {
        lemma_tagged1_complete(0xd0, v as u8, rest, f);
        assert(v as u8 as i8 == v) by (bit_vector);
    }

    fn wire_ok(&self, f: PackFormat) -> bool {
        true
    }

    fn wire_write(&self, f: PackFormat, out: &mut Vec<u8>) {
        write_tagged1(0xd0, *self as u8, f, out);
    }

    fn wire_read(b: &[u8], pos: usize, f: PackFormat) -> Option<(i8, usize)> {
        match read_tagged1(b, pos, 0xd0, f) {
            Some((x, p)) => Some((x as i8, p)),
            None => None,
        }
    }
}

impl Wire for i16 {
    open spec fn venc(v: i16, f: PackFormat) -> Seq<u8> {
        enc_tagged2(0xd1, v as u16, f)
    }

    open spec fn vok(v: i16, f: PackFormat) -> bool {
        true
    }

    open spec fn vdec(b: Seq<u8>, f: PackFormat) -> Option<(i16, int)> {
        match dec_tagged2(b, 0xd1, f) {
            Some(p) => Some((p.0 as i16, p.1)),
            None => None,
        }
    }

    proof fn lemma_vdec_bounds(b: Seq<u8>, f: PackFormat) {
    }

    proof fn lemma_complete(v: i16, rest: Seq<u8>, f: PackFormat) {
        lemma_tagged2_complete(0xd1, v as u16, rest, f);
        assert(v as u16 as i16 == v) by (bit_vector);
    }

    fn wire_ok(&self, f: PackFormat) -> bool {
        true
    }

    fn wire_write(&self, f: PackFormat, out: &mut Vec<u8>) {
        write_tagged2(0xd1, *self as u16, f, out);
    }

    fn wire_read(b: &[u8], pos: usize, f: PackFormat) -> Option<(i16, usize)> {
        match read_tagged2(b, pos, 0xd1, f) {
            Some((x, p)) => Some((x as i16, p)),
            None => None,
        }
    }
}

impl Wire for i32 {
    open spec fn venc(v: i32, f: PackFormat) -> Seq<u8> {
        enc_tagged4(0xd2, v as u32, f)
    }

    open spec fn vok(v: i32, f: PackFormat) -> bool {
        true
    }

    open spec fn vdec(b: Seq<u8>, f: PackFormat) -> Option<(i32, int)> {
        match dec_tagged4(b, 0xd2, f) {
            Some(p) => Some((p.0 as i32, p.1)),
            None => None,
        }
    }

    proof fn lemma_vdec_bounds(b: Seq<u8>, f: PackFormat) {
    }

    proof fn lemma_complete(v: i32, rest: Seq<u8>, f: PackFormat) {
        lemma_tagged4_complete(0xd2, v as u32, rest, f);
        assert(v as u32 as i32 == v) by (bit_vector);
    }

    fn wire_ok(&self, f: PackFormat) -> bool {
        true
    }

    fn wire_write(&self, f: PackFormat, out: &mut Vec<u8>) {
        write_tagged4(0xd2, *self as u32, f, out);
    }

    fn wire_read(b: &[u8], pos: usize, f: PackFormat) -> Option<(i32, usize)> {
        match read_tagged4(b, pos, 0xd2, f) {
            Some((x, p)) => Some((x as i32, p)),
            None => None,
        }
    }
}

impl Wire for i64 {
    open spec fn venc(v: i64, f: PackFormat) -> Seq<u8> {
        enc_tagged8(0xd3, v as u64, f)
    }

    open spec fn vok(v: i64, f: PackFormat) -> bool {
        true
    }

    open spec fn vdec(b: Seq<u8>, f: PackFormat) -> Option<(i64, int)> {
        match dec_tagged8(b, 0xd3, f) {
            Some(p) => Some((p.0 as i64, p.1)),
            None => None,
        }
    }

    proof fn lemma_vdec_bounds(b: Seq<u8>, f: PackFormat) {
    }

    proof fn lemma_complete(v: i64, rest: Seq<u8>, f: PackFormat) {
        lemma_tagged8_complete(0xd3, v as u64, rest, f);
        assert(v as u64 as i64 == v) by (bit_vector);
    }

    fn wire_ok(&self, f: PackFormat) -> bool {
        true
    }

    fn wire_write(&self, f: PackFormat, out: &mut Vec<u8>) {
        write_tagged8(0xd3, *self as u64, f, out);
    }

    fn wire_read(b: &[u8], pos: usize, f: PackFormat) -> Option<(i64, usize)> {
        match read_tagged8(b, pos, 0xd3, f) {
            Some((x, p)) => Some((x as i64, p)),
            None => None,
        }
    }
}

impl Wire for bool {
    open spec fn venc(v: bool, f: PackFormat) -> Seq<u8> {
        if mp(f) {
            seq![if v { 0xc3u8 } else { 0xc2u8 }]
        } else {
            seq![if v { 1u8 } else { 0u8 }]
        }
    }

    open spec fn vok(v: bool, f: PackFormat) -> bool {
        true
    }

    open spec fn vdec(b: Seq<u8>, f: PackFormat) -> Option<(bool, int)> {
        if mp(f) {
            if b.len() >= 1 && (b[0] == 0xc2 || b[0] == 0xc3) {
                Some((b[0] == 0xc3, 1int))
            } else {
                None
            }
        } else {
            if b.len() >= 1 && (b[0] == 0 || b[0] == 1) {
                Some((b[0] == 1, 1int))
            } else {
                None
            }
        }
    }

    proof fn lemma_vdec_bounds(b: Seq<u8>, f: PackFormat) {
    }

    proof fn lemma_complete(v: bool, rest: Seq<u8>, f: PackFormat) {
        let b = Self::venc(v, f) + rest;
        assert(b[0] == Self::venc(v, f)[0]);
    }

    fn wire_ok(&self, f: PackFormat) -> bool {
        true
    }

    fn wire_write(&self, f: PackFormat, out: &mut Vec<u8>) {
        if f == PackFormat::MessagePack {
            out.push(if *self { 0xc3 } else { 0xc2 });
        } else {
            out.push(if *self { 1 } else { 0 });
        }
        proof {
            assert(out@ =~= old(out)@ + Self::venc(*self, f));
        }
    }

    fn wire_read(b: &[u8], pos: usize, f: PackFormat) -> Option<(bool, usize)> {
        let n = b.len();
        proof {
            if b@.skip(pos as int).len() >= 1 {
                assert(b@.skip(pos as int)[0] == b@[pos as int]);
            }
        }
        if n - pos < 1 {
            return None;
        }
        let c = b[pos];
        if f == PackFormat::MessagePack {
            if c == 0xc2 {
                Some((false, pos + 1))
            } else if c == 0xc3 {
                Some((true, pos + 1))
            } else {
                None
            }
        } else {
            if c == 0 {
                Some((false, pos + 1))
            } else if c == 1 {
                Some((true, pos + 1))
            } else {
                None
            }
        }
    }
}


// ------------------------------------------------------------------
// Strings
// ------------------------------------------------------------------
impl Wire for String {
    open spec fn venc(v: Seq<char>, f: PackFormat) -> Seq<u8> {
        enc_str_len(encode_utf8(v).len() as u64, f) + encode_utf8(v)
    }

    open spec fn vok(v: Seq<char>, f: PackFormat) -> bool {
        encode_utf8(v).len() <= usize::MAX && (mp(f) ==> encode_utf8(v).len() < 0x1_0000_0000)
    }

    open spec fn vdec(b: Seq<u8>, f: PackFormat) -> Option<(Seq<char>, int)> {
        match dec_str_len(b, f) {
            Some((n, c)) => {
                if n <= usize::MAX as u64 && c + n <= b.len() {
                    let bytes = b.subrange(c, c + n as int);
                    if valid_utf8(bytes) {
                        Some((decode_utf8(bytes), c + n as int))
                    } else {
                        None
                    }
                } else {
                    None
                }
            },
            None => None,
        }
    }

    proof fn lemma_vdec_bounds(b: Seq<u8>, f: PackFormat) {
    }

    proof fn lemma_complete(v: Seq<char>, rest: Seq<u8>, f: PackFormat) {
        let bytes = encode_utf8(v);
        let n = bytes.len() as u64;
        let pre = enc_str_len(n, f);
        let whole = Self::venc(v, f) + rest;
        assert(whole =~= pre + (bytes + rest));
        lemma_str_len_complete(n, bytes + rest, f);
        assert(dec_str_len(whole, f) == Some((n, pre.len() as int)));
        let c = pre.len() as int;
        assert(whole.subrange(c, c + n as int) =~= bytes);
        encode_utf8_valid_utf8(v);
        encode_utf8_decode_utf8(v);
    }

    fn wire_ok(&self, f: PackFormat) -> (r: bool)
    {
        let bl = self.as_str().as_bytes().len();
        if f == PackFormat::MessagePack {
            (bl as u64) < 0x1_0000_0000u64
        } else {
            true
        }
    }

    fn wire_write(&self, f: PackFormat, out: &mut Vec<u8>) {
        let bs = self.as_str().as_bytes();
        let n = bs.len();
        write_str_len(n as u64, f, out);
        out.extend_from_slice(bs);
        proof {
            assert(out@ =~= old(out)@ + Self::venc(self.deep_view(), f));
        }
    }

    fn wire_read(b: &[u8], pos: usize, f: PackFormat) -> (r: Option<(String, usize)>) {
        let nb = b.len();
        match read_str_len(b, pos, f) {
            None => None,
            Some((n, p1)) => {
                if n > usize::MAX as u64 {
                    return None;
                }
                let nn = n as usize;
                if nn > nb - p1 {
                    proof {
                        assert(b@.skip(pos as int).len() == nb - pos);
                    }
                    return None;
                }
                let bytes = vstd::slice::slice_to_vec(&b[p1..p1 + nn]);
                proof {
                    assert(bytes@ =~= b@.skip(pos as int).subrange(
                        p1 - pos as int,
                        p1 - pos as int + n as int,
                    ));
                }
                match string_from_utf8(bytes) {
                    None => {
                        proof {
                            let sub = b@.skip(pos as int).subrange(
                                p1 - pos as int,
                                p1 - pos as int + n as int,
                            );
                            if valid_utf8(sub) {
                                assert(false);
                            }
                        }
                        None
                    },
                    Some(s) => {
                        proof {
                            let sub = b@.skip(pos as int).subrange(
                                p1 - pos as int,
                                p1 - pos as int + n as int,
                            );
                            encode_utf8_valid_utf8(s@);
                            encode_utf8_decode_utf8(s@);
                            assert(decode_utf8(sub) == s@);
                        }
                        Some((s, p1 + nn))
                    },
                }
            },
        }
    }
}

// ------------------------------------------------------------------
// Vectors
// ------------------------------------------------------------------
/// The concatenated encodings of a sequence of views.
pub open spec fn enc_list<T: Wire>(vs: Seq<T::V>, f: PackFormat) -> Seq<u8>
    decreases vs.len(),
{
    if vs.len() == 0 {
        Seq::empty()
    } else {
        T::venc(vs[0], f) + enc_list::<T>(vs.drop_first(), f)
    }
}

/// Decodes exactly `n` consecutive values.
pub open spec fn dec_list<T: Wire>(b: Seq<u8>, n: nat, f: PackFormat) -> Option<(Seq<T::V>, int)>
    decreases n,
{
    if n == 0 {
        Some((Seq::empty(), 0int))
    } else {
        match T::vdec(b, f) {
            Some(p) => match dec_list::<T>(b.skip(p.1), (n - 1) as nat, f) {
                Some(q) => Some((seq![p.0] + q.0, p.1 + q.1)),
                None => None,
            },
            None => None,
        }
    }
}

/// Splitting the encoding of a non-empty sequence at its last element.
pub proof fn lemma_enc_list_snoc<T: Wire>(vs: Seq<T::V>, f: PackFormat)
    requires
        vs.len() > 0,
    ensures
        enc_list::<T>(vs, f) == enc_list::<T>(vs.drop_last(), f) + T::venc(vs.last(), f),
    decreases vs.len(),
{
    if vs.len() == 1 {
        assert(vs.drop_last() =~= Seq::<T::V>::empty());
        assert(vs.drop_first() =~= Seq::<T::V>::empty());
        assert(enc_list::<T>(vs, f) =~= enc_list::<T>(vs.drop_last(), f) + T::venc(
            vs.last(),
            f,
        ));
    } else {
        let tail = vs.drop_first();
        lemma_enc_list_snoc::<T>(tail, f);
        assert(tail.drop_last() =~= vs.drop_last().drop_first());
        assert(tail.last() == vs.last());
        assert(vs.drop_last().len() > 0);
        assert(vs.drop_last()[0] == vs[0]);
        assert(enc_list::<T>(vs, f) == T::venc(vs[0], f) + (enc_list::<T>(tail.drop_last(), f)
            + T::venc(vs.last(), f)));
        assert(enc_list::<T>(vs.drop_last(), f) == T::venc(vs[0], f) + enc_list::<T>(
            tail.drop_last(),
            f,
        ));
        assert(T::venc(vs[0], f) + (enc_list::<T>(tail.drop_last(), f) + T::venc(vs.last(), f))
            =~= (T::venc(vs[0], f) + enc_list::<T>(tail.drop_last(), f)) + T::venc(vs.last(), f));
    }
}

/// A successful list decode consumes between zero and all of `b`, and
/// yields exactly `n` views.
pub proof fn lemma_dec_list_bounds<T: Wire>(b: Seq<u8>, n: nat, f: PackFormat)
    ensures
        dec_list::<T>(b, n, f) matches Some(q) ==> 0 <= q.1 <= b.len() && q.0.len() == n,
    decreases n,
{
    if n > 0 {
        match T::vdec(b, f) {
            Some(p) => {
                T::lemma_vdec_bounds(b, f);
                lemma_dec_list_bounds::<T>(b.skip(p.1), (n - 1) as nat, f);
            },
            None => {},
        }
    }
}

/// Decoding inverts encoding for lists.
pub proof fn lemma_dec_list_complete<T: Wire>(vs: Seq<T::V>, rest: Seq<u8>, f: PackFormat)
    requires
        forall|i: int| 0 <= i < vs.len() ==> T::vok(#[trigger] vs[i], f),
    ensures
        dec_list::<T>(enc_list::<T>(vs, f) + rest, vs.len(), f) == Some(
            (vs, enc_list::<T>(vs, f).len() as int),
        ),
    decreases vs.len(),
{
    if vs.len() == 0 {
        assert(enc_list::<T>(vs, f) + rest =~= rest);
        assert(vs =~= Seq::<T::V>::empty());
    } else {
        let e0 = T::venc(vs[0], f);
        let tail = vs.drop_first();
        let etail = enc_list::<T>(tail, f);
        let whole = enc_list::<T>(vs, f) + rest;
        assert(whole =~= e0 + (etail + rest));
        T::lemma_complete(vs[0], etail + rest, f);
        assert(T::vdec(whole, f) == Some((vs[0], e0.len() as int)));
        lemma_concat_split(e0, etail + rest);
        assert(whole.skip(e0.len() as int) =~= etail + rest);
        assert(forall|i: int| 0 <= i < tail.len() ==> T::vok(#[trigger] tail[i], f)) by {
            assert(forall|i: int| 0 <= i < tail.len() ==> tail[i] == vs[i + 1]);
        }
        lemma_dec_list_complete::<T>(tail, rest, f);
        assert(seq![vs[0]] + tail =~= vs);
    }
}

/// Shifts a list-decode outcome by a decoded prefix and an offset.
pub open spec fn dl_shift<TV>(prefix: Seq<TV>, off: int, r: Option<(Seq<TV>, int)>) -> Option<
    (Seq<TV>, int),
> {
    match r {
        Some(q) => Some((prefix + q.0, off + q.1)),
        None => None,
    }
}

impl<T: Wire> Wire for Vec<T> {
    open spec fn venc(vs: Seq<T::V>, f: PackFormat) -> Seq<u8> {
        enc_seq_len(vs.len() as u64, f) + enc_list::<T>(vs, f)
    }

    open spec fn vok(vs: Seq<T::V>, f: PackFormat) -> bool {
        vs.len() <= usize::MAX && (mp(f) ==> vs.len() < 0x1_0000_0000) && (forall|i: int|
            0 <= i < vs.len() ==> T::vok(#[trigger] vs[i], f))
    }

    open spec fn vdec(b: Seq<u8>, f: PackFormat) -> Option<(Seq<T::V>, int)> {
        match dec_seq_len(b, f) {
            Some((n, c)) => {
                if n <= usize::MAX as u64 {
                    match dec_list::<T>(b.skip(c), n as nat, f) {
                        Some(q) => Some((q.0, c + q.1)),
                        None => None,
                    }
                } else {
                    None
                }
            },
            None => None,
        }
    }

    proof fn lemma_vdec_bounds(b: Seq<u8>, f: PackFormat) {
        match dec_seq_len(b, f) {
            Some((n, c)) => {
                if n <= usize::MAX as u64 {
                    lemma_dec_list_bounds::<T>(b.skip(c), n as nat, f);
                }
            },
            None => {},
        }
    }

    proof fn lemma_complete(vs: Seq<T::V>, rest: Seq<u8>, f: PackFormat) {
        let n = vs.len() as u64;
        let pre = enc_seq_len(n, f);
        let el = enc_list::<T>(vs, f);
        let whole = Self::venc(vs, f) + rest;
        assert(whole =~= pre + (el + rest));
        lemma_seq_len_complete(n, el + rest, f);
        assert(dec_seq_len(whole, f) == Some((n, pre.len() as int)));
        lemma_concat_split(pre, el + rest);
        assert(whole.skip(pre.len() as int) =~= el + rest);
        lemma_dec_list_complete::<T>(vs, rest, f);
    }

    fn wire_ok(&self, f: PackFormat) -> (r: bool) {
        let n = self.len();
        if f == PackFormat::MessagePack && !((n as u64) < 0x1_0000_0000u64) {
            return false;
        }
        let mut i: usize = 0;
        while i < n
            invariant
                i <= n,
                n == self@.len(),
                forall|j: int| 0 <= j < i ==> T::vok(#[trigger] self.deep_view()[j], f),
            decreases n - i,
        {
            if !self[i].wire_ok(f) {
                proof {
                    assert(self.deep_view()[i as int] == self@[i as int].deep_view());
                }
                return false;
            }
            proof {
                assert(self.deep_view()[i as int] == self@[i as int].deep_view());
            }
            i += 1;
        }
        true
    }

    fn wire_write(&self, f: PackFormat, out: &mut Vec<u8>) {
        let n = self.len();
        write_seq_len(n as u64, f, out);
        let ghost vs = self.deep_view();
        let ghost base = old(out)@ + enc_seq_len(n as u64, f);
        let mut i: usize = 0;
        while i < n
            invariant
                i <= n,
                n == self@.len(),
                vs == self.deep_view(),
                Self::vok(vs, f),
                out@ == base + enc_list::<T>(vs.take(i as int), f),
            decreases n - i,
        {
            proof {
                assert(self.deep_view()[i as int] == self@[i as int].deep_view());
                assert(T::vok(vs[i as int], f));
            }
            self[i].wire_write(f, out);
            proof {
                let taken = vs.take(i as int + 1);
                assert(taken.drop_last() =~= vs.take(i as int));
                assert(taken.last() == vs[i as int]);
                lemma_enc_list_snoc::<T>(taken, f);
                assert(out@ =~= base + enc_list::<T>(vs.take(i as int + 1), f));
            }
            i += 1;
        }
        proof {
            assert(vs.take(n as int) =~= vs);
            assert(out@ =~= old(out)@ + Self::venc(vs, f));
        }
    }

    fn wire_read(b: &[u8], pos: usize, f: PackFormat) -> (r: Option<(Vec<T>, usize)>) {
        let nb = b.len();
        match read_seq_len(b, pos, f) {
            None => None,
            Some((n64, p1)) => {
                if n64 > usize::MAX as u64 {
                    return None;
                }
                let n = n64 as usize;
                let mut out: Vec<T> = Vec::new();
                let mut p = p1;
                let mut i: usize = 0;
                proof {
                    assert(out.deep_view() =~= Seq::<T::V>::empty());
                    match dec_list::<T>(b@.skip(p1 as int), n as nat, f) {
                        Some(q) => {
                            assert(Seq::<T::V>::empty() + q.0 =~= q.0);
                        },
                        None => {},
                    }
                }
                while i < n
                    invariant
                        i <= n,
                        pos <= p1 <= p <= nb,
                        nb == b@.len(),
                        n == n64 as usize,
                        n64 <= usize::MAX as u64,
                        dec_seq_len(b@.skip(pos as int), f) == Some((n64, p1 - pos as int)),
                        dec_list::<T>(b@.skip(p1 as int), n as nat, f) == dl_shift(
                            out.deep_view(),
                            p - p1 as int,
                            dec_list::<T>(b@.skip(p as int), (n - i) as nat, f),
                        ),
                        out.deep_view().len() == i,
                    decreases n - i,
                {
                    match T::wire_read(b, p, f) {
                        None => {
                            proof {
                                assert(dec_list::<T>(b@.skip(p as int), (n - i) as nat, f)
                                    is None);
                                assert(dec_list::<T>(b@.skip(p1 as int), n as nat, f) is None);
                                lemma_skip_skip(b@, pos as int, p1 - pos as int);
                                assert(b@.skip(pos as int).skip(p1 - pos as int) =~= b@.skip(
                                    p1 as int,
                                ));
                                assert(n as nat == n64 as nat);
                                assert(dec_list::<T>(
                                    b@.skip(pos as int).skip(p1 - pos as int),
                                    n64 as nat,
                                    f,
                                ) is None);
                            }
                            return None;
                        },
                        Some((x, p2)) => {
                            proof {
                                lemma_skip_skip(b@, p as int, p2 - p as int);
                                T::lemma_vdec_bounds(b@.skip(p as int), f);
                                assert(dec_list::<T>(b@.skip(p as int), (n - i) as nat, f)
                                    == dl_shift(
                                    seq![x.deep_view()],
                                    p2 - p as int,
                                    dec_list::<T>(b@.skip(p2 as int), (n - i - 1) as nat, f),
                                ));
                                let r2 = dec_list::<T>(b@.skip(p2 as int), (n - i - 1) as nat, f);
                                match r2 {
                                    Some(q) => {
                                        assert(out.deep_view() + (seq![x.deep_view()] + q.0)
                                            =~= (out.deep_view() + seq![x.deep_view()]) + q.0);
                                    },
                                    None => {},
                                }
                            }
                            let ghost old_dv = out.deep_view();
                            out.push(x);
                            proof {
                                assert(out.deep_view() =~= old_dv + seq![x.deep_view()]);
                            }
                            p = p2;
                            i += 1;
                        },
                    }
                }
                proof {
                    assert(dec_list::<T>(b@.skip(p as int), 0nat, f) == Some(
                        (Seq::<T::V>::empty(), 0int),
                    ));
                    assert(out.deep_view() + Seq::<T::V>::empty() =~= out.deep_view());
                    assert(dec_list::<T>(b@.skip(p1 as int), n as nat, f) == Some(
                        (out.deep_view(), p - p1 as int),
                    ));
                    lemma_skip_skip(b@, pos as int, p1 - pos as int);
                    assert(b@.skip(pos as int).skip(p1 - pos as int) =~= b@.skip(p1 as int));
                }
                Some((out, p))
            },
        }
    }
}


// ------------------------------------------------------------------
// Short fixed-length byte strings
// ------------------------------------------------------------------
/// A fixed-length byte string of known length: bare under Bincode, a
/// `bin 8` value under MessagePack.
pub open spec fn enc_bin(s: Seq<u8>, f: PackFormat) -> Seq<u8> {
    if mp(f) {
        seq![0xc4u8, s.len() as u8] + s
    } else {
        s
    }
}

/// Decodes a fixed-length byte string of expected length `n`.
pub open spec fn dec_bin(b: Seq<u8>, n: nat, f: PackFormat) -> Option<(Seq<u8>, int)> {
    if mp(f) {
        if b.len() >= 2 + n && b[0] == 0xc4 && b[1] == n as u8 {
            Some((b.subrange(2, 2 + n as int), 2 + n as int))
        } else {
            None
        }
    } else {
        if b.len() >= n {
            Some((b.subrange(0, n as int), n as int))
        } else {
            None
        }
    }
}

/// Decoding inverts encoding for fixed-length byte strings.
pub proof fn lemma_bin_complete(s: Seq<u8>, rest: Seq<u8>, f: PackFormat)
    requires
        s.len() <= 255,
    ensures
        dec_bin(enc_bin(s, f) + rest, s.len(), f) == Some((s, enc_bin(s, f).len() as int)),
{
    let b = enc_bin(s, f) + rest;
    if mp(f) {
        assert(b[0] == 0xc4 && b[1] == s.len() as u8);
        assert(b.subrange(2, 2 + s.len() as int) =~= s);
    } else {
        assert(b.subrange(0, s.len() as int) =~= s);
    }
}

/// Appends a fixed-length byte string.
pub fn write_bin(bytes: &[u8], f: PackFormat, out: &mut Vec<u8>)
    requires
        bytes@.len() <= 255,
    ensures
        final(out)@ == old(out)@ + enc_bin(bytes@, f),
{
    if f == PackFormat::MessagePack {
        out.push(0xc4);
        out.push(bytes.len() as u8);
    }
    out.extend_from_slice(bytes);
    proof {
        assert(out@ =~= old(out)@ + enc_bin(bytes@, f));
    }
}

/// Reads an eight-byte string at `pos`.
pub fn read_bin8(b: &[u8], pos: usize, f: PackFormat) -> (r: Option<([u8; 8], usize)>)
    requires
        pos <= b@.len(),
    ensures
        r matches Some(p) ==> pos <= p.1 <= b@.len() && dec_bin(b@.skip(pos as int), 8, f)
            == Some((p.0@, p.1 - pos as int)),
        r is None ==> dec_bin(b@.skip(pos as int), 8, f) is None,
{
    let n = b.len();
    let q: usize;
    if f == PackFormat::MessagePack {
        proof {
            if b@.skip(pos as int).len() >= 2 {
                assert(b@.skip(pos as int)[0] == b@[pos as int]);
                assert(b@.skip(pos as int)[1] == b@[pos as int + 1]);
            }
        }
        if !(n - pos >= 10 && b[pos] == 0xc4 && b[pos + 1] == 8) {
            return None;
        }
        q = pos + 2;
    } else {
        if n - pos < 8 {
            return None;
        }
        q = pos;
    }
    let a: [u8; 8] = [b[q], b[q + 1], b[q + 2], b[q + 3], b[q + 4], b[q + 5], b[q + 6], b[q + 7]];
    proof {
        broadcast use vstd::array::group_array_axioms;

        assert(a@ =~= b@.skip(pos as int).subrange(q - pos as int, q - pos as int + 8));
    }
    Some((a, q + 8))
}

/// Reads a thirty-two-byte string at `pos`.
pub fn read_bin32(b: &[u8], pos: usize, f: PackFormat) -> (r: Option<([u8; 32], usize)>)
    requires
        pos <= b@.len(),
    ensures
        r matches Some(p) ==> pos <= p.1 <= b@.len() && dec_bin(b@.skip(pos as int), 32, f)
            == Some((p.0@, p.1 - pos as int)),
        r is None ==> dec_bin(b@.skip(pos as int), 32, f) is None,
{
    let n = b.len();
    let q: usize;
    if f == PackFormat::MessagePack {
        proof {
            if b@.skip(pos as int).len() >= 2 {
                assert(b@.skip(pos as int)[0] == b@[pos as int]);
                assert(b@.skip(pos as int)[1] == b@[pos as int + 1]);
            }
        }
        if !(n - pos >= 34 && b[pos] == 0xc4 && b[pos + 1] == 32) {
            return None;
        }
        q = pos + 2;
    } else {
        if n - pos < 32 {
            return None;
        }
        q = pos;
    }
    let a: [u8; 32] = [
        b[q],
        b[q + 1],
        b[q + 2],
        b[q + 3],
        b[q + 4],
        b[q + 5],
        b[q + 6],
        b[q + 7],
        b[q + 8],
        b[q + 9],
        b[q + 10],
        b[q + 11],
        b[q + 12],
        b[q + 13],
        b[q + 14],
        b[q + 15],
        b[q + 16],
        b[q + 17],
        b[q + 18],
        b[q + 19],
        b[q + 20],
        b[q + 21],
        b[q + 22],
        b[q + 23],
        b[q + 24],
        b[q + 25],
        b[q + 26],
        b[q + 27],
        b[q + 28],
        b[q + 29],
        b[q + 30],
        b[q + 31],
    ];
    proof {
        broadcast use vstd::array::group_array_axioms;

        assert(a@ =~= b@.skip(pos as int).subrange(q - pos as int, q - pos as int + 32));
    }
    Some((a, q + 32))
}

} // verus!
