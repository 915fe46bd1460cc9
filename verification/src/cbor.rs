//! The deposit-memo wire format: a two-element CBOR array holding the
//! recipient principal as a byte string and the amount as an unsigned
//! integer, both in canonical (minimal-length) encoding.
//!
//! The parser accepts exactly the encoder's output; the round-trip law is
//! proved below.

use vstd::prelude::*;

use crate::crypto::spec_cbor_uint;

verus! {

/// Canonical CBOR byte-string header (major type 2) for lengths up to 255.
pub open spec fn spec_bstr_header(len: int) -> Seq<u8> {
    if len < 24 {
        seq![(0x40 + len) as u8]
    } else {
        seq![0x58u8, len as u8]
    }
}

/// The deposit memo: `array(2) [ bytes(recipient), uint(amount) ]`.
pub open spec fn spec_encode_memo(p: Seq<u8>, a: u64) -> Seq<u8> {
    seq![0x82u8] + spec_bstr_header(p.len() as int) + p + spec_cbor_uint(a)
}

/// A canonical unsigned integer starting at `off` and ending exactly at
/// the end of `b`.
pub open spec fn spec_parse_uint_at(b: Seq<u8>, off: int) -> Option<u64> {
    if off < 0 || off >= b.len() {
        None
    } else {
        let h = b[off];
        if h < 24 {
            if b.len() == off + 1 {
                Some(h as u64)
            } else {
                None
            }
        } else if h == 24 {
            if b.len() == off + 2 && b[off + 1] >= 24 {
                Some(b[off + 1] as u64)
            } else {
                None
            }
        } else if h == 25 {
            if b.len() == off + 3 && b[off + 1] != 0 {
                Some((((b[off + 1] as u64) << 8u64) | (b[off + 2] as u64)) as u64)
            } else {
                None
            }
        } else if h == 26 {
            if b.len() == off + 5 && (b[off + 1] != 0 || b[off + 2] != 0) {
                Some(
                    (((b[off + 1] as u64) << 24u64) | ((b[off + 2] as u64) << 16u64) | ((b[off
                        + 3] as u64) << 8u64) | (b[off + 4] as u64)) as u64,
                )
            } else {
                None
            }
        } else if h == 27 {
            if b.len() == off + 9 && (b[off + 1] != 0 || b[off + 2] != 0 || b[off + 3] != 0 || b[off
                + 4] != 0) {
                Some(
                    (((b[off + 1] as u64) << 56u64) | ((b[off + 2] as u64) << 48u64) | ((b[off
                        + 3] as u64) << 40u64) | ((b[off + 4] as u64) << 32u64) | ((b[off
                        + 5] as u64) << 24u64) | ((b[off + 6] as u64) << 16u64) | ((b[off
                        + 7] as u64) << 8u64) | (b[off + 8] as u64)) as u64,
                )
            } else {
                None
            }
        } else {
            None
        }
    }
}

/// The recipient bytes and amount after the byte-string header, with the
/// integer running to the end of the memo.
pub open spec fn spec_parse_after_header(b: Seq<u8>, off: int, plen: int) -> Option<(Seq<u8>, u64)> {
    if b.len() < off + plen + 1 {
        None
    } else {
        match spec_parse_uint_at(b, off + plen) {
            None => None,
            Some(a) => Some((b.subrange(off, off + plen), a)),
        }
    }
}

/// What a deposit memo means: `Some((recipient, amount))` exactly on
/// canonical encodings, `None` on everything else.
pub open spec fn spec_parse_memo(b: Seq<u8>) -> Option<(Seq<u8>, u64)> {
    if b.len() < 2 || b[0] != 0x82 {
        None
    } else if 0x40 <= b[1] && b[1] < 0x58 {
        spec_parse_after_header(b, 2, b[1] - 0x40)
    } else if b[1] == 0x58 && b.len() >= 3 && b[2] >= 24 {
        spec_parse_after_header(b, 3, b[2] as int)
    } else {
        None
    }
}

/// Canonical unsigned integer encoder; the executable side of
/// [`spec_cbor_uint`].
pub fn encode_uint(v: u64) -> (r: Vec<u8>)
    ensures
        r@ == spec_cbor_uint(v),
{
    let mut r: Vec<u8> = Vec::new();
    if v < 24 {
        r.push(v as u8);
    } else if v <= 0xff {
        r.push(24u8);
        r.push(v as u8);
    } else if v <= 0xffff {
        r.push(25u8);
        r.push((v >> 8) as u8);
        r.push(v as u8);
    } else if v <= 0xffff_ffff {
        r.push(26u8);
        r.push((v >> 24) as u8);
        r.push((v >> 16) as u8);
        r.push((v >> 8) as u8);
        r.push(v as u8);
    } else {
        r.push(27u8);
        crate::bytes::push_be_bytes_8(&mut r, v);
    }
    proof {
        assert(r@ =~= spec_cbor_uint(v));
    }
    r
}

/// Encodes a deposit memo for a recipient of at most 255 bytes.
pub fn encode_deposit_memo(recipient: &Vec<u8>, amount: u64) -> (r: Vec<u8>)
    requires
        recipient@.len() <= 255,
    ensures
        r@ == spec_encode_memo(recipient@, amount),
{
    let mut r: Vec<u8> = Vec::new();
    r.push(0x82u8);
    if recipient.len() < 24 {
        r.push(0x40u8 + recipient.len() as u8);
    } else {
        r.push(0x58u8);
        r.push(recipient.len() as u8);
    }
    proof {
        assert(r@ =~= seq![0x82u8] + spec_bstr_header(recipient@.len() as int));
    }
    crate::bytes::push_all(&mut r, recipient);
    let tail = encode_uint(amount);
    crate::bytes::push_all(&mut r, &tail);
    proof {
        assert(r@ =~= spec_encode_memo(recipient@, amount));
    }
    r
}

/// Reads the canonical integer that must end the memo.
fn parse_uint_at(b: &Vec<u8>, off: usize) -> (r: Option<u64>)
    requires
        off < b@.len(),
    ensures
        r == spec_parse_uint_at(b@, off as int),
{
    let h = b[off];
    if h < 24 {
        if b.len() - off == 1 {
            Some(h as u64)
        } else {
            None
        }
    } else if h == 24 {
        if b.len() - off == 2 && b[off + 1] >= 24 {
            Some(b[off + 1] as u64)
        } else {
            None
        }
    } else if h == 25 {
        if b.len() - off == 3 && b[off + 1] != 0 {
            Some(((b[off + 1] as u64) << 8) | (b[off + 2] as u64))
        } else {
            None
        }
    } else if h == 26 {
        if b.len() - off == 5 && (b[off + 1] != 0 || b[off + 2] != 0) {
            Some(
                ((b[off + 1] as u64) << 24) | ((b[off + 2] as u64) << 16) | ((b[off + 3] as u64)
                    << 8) | (b[off + 4] as u64),
            )
        } else {
            None
        }
    } else if h == 27 {
        if b.len() - off == 9 && (b[off + 1] != 0 || b[off + 2] != 0 || b[off + 3] != 0 || b[off
            + 4] != 0) {
            Some(
                ((b[off + 1] as u64) << 56) | ((b[off + 2] as u64) << 48) | ((b[off + 3] as u64)
                    << 40) | ((b[off + 4] as u64) << 32) | ((b[off + 5] as u64) << 24) | ((b[off
                    + 6] as u64) << 16) | ((b[off + 7] as u64) << 8) | (b[off + 8] as u64),
            )
        } else {
            None
        }
    } else {
        None
    }
}

/// Decodes a deposit memo; `Some` exactly on canonical encodings.
pub fn parse_deposit_memo(b: &Vec<u8>) -> (r: Option<(Vec<u8>, u64)>)
    ensures
        match r {
            Some((p, a)) => spec_parse_memo(b@) == Some((p@, a)),
            None => spec_parse_memo(b@) is None,
        },
{
    if b.len() < 2 {
        return None;
    }
    if b[0] != 0x82 {
        return None;
    }
    let h = b[1];
    let (off, plen): (usize, usize) = if 0x40 <= h && h < 0x58 {
        (2, (h - 0x40) as usize)
    } else if h == 0x58 && b.len() >= 3 && b[2] >= 24 {
        (3, b[2] as usize)
    } else {
        return None;
    };
    let blen = b.len();
    if blen < off + plen + 1 {
        return None;
    }
    let mut p: Vec<u8> = Vec::new();
    let mut i: usize = 0;
    while i < plen
        invariant
            blen == b@.len(),
            off + plen < blen,
            i <= plen,
            p@ == b@.subrange(off as int, off + i as int),
        decreases plen - i,
    {
        proof {
            assert((off as int) + (i as int) < b@.len());
        }
        p.push(b[off + i]);
        proof {
            assert(p@ =~= b@.subrange(off as int, off + i + 1 as int));
        }
        i += 1;
    }
    match parse_uint_at(b, off + plen) {
        None => None,
        Some(a) => Some((p, a)),
    }
}

/// Round trip: a canonically encoded memo parses back to its own fields.
pub proof fn lemma_memo_roundtrip(p: Seq<u8>, a: u64)
    requires
        p.len() <= 255,
    ensures
        spec_parse_memo(spec_encode_memo(p, a)) == Some((p, a)),
{
    let b = spec_encode_memo(p, a);
    let hdr = spec_bstr_header(p.len() as int);
    let off: int = 1 + hdr.len() as int;
    let e = spec_cbor_uint(a);
    assert(b.len() == 1 + hdr.len() + p.len() + e.len());
    assert(b[0] == 0x82);
    assert(b[1] == hdr[0]);
    if p.len() < 24 {
        assert(hdr[0] == (0x40 + p.len() as int) as u8);
        assert(0x40 <= b[1] && b[1] < 0x58);
        assert(b[1] - 0x40 == p.len());
    } else {
        assert(hdr.len() == 2);
        assert(b[2] == hdr[1] == p.len() as u8);
        assert(b[1] == 0x58 && b[2] >= 24);
    }
    assert(b.subrange(off, off + p.len() as int) =~= p);
    assert(b.subrange(off + p.len() as int, b.len() as int) =~= e);
    lemma_uint_roundtrip(b, off + p.len() as int, a);
    assert(spec_parse_memo(b) == Some((p, a)));
}

/// A canonical integer at the end of a buffer reads back as itself.
proof fn lemma_uint_roundtrip(b: Seq<u8>, off: int, a: u64)
    requires
        0 <= off,
        b.len() == off + spec_cbor_uint(a).len(),
        b.subrange(off, b.len() as int) == spec_cbor_uint(a),
    ensures
        spec_parse_uint_at(b, off) == Some(a),
{
    let e = spec_cbor_uint(a);
    assert forall|i: int| 0 <= i < e.len() implies b[off + i] == e[i] by {
        assert(b.subrange(off, b.len() as int)[i] == e[i]);
        assert(b.subrange(off, b.len() as int)[i] == b[off + i]);
    }
    assert(b[off] == e[0]) by {
        assert(b[off + 0] == e[0]);
    }
    if a < 24 {
        assert(b[off] == a as u8);
    } else if a <= 0xff {
        assert(b[off] == 24 && b[off + 1] == a as u8);
        assert(a as u8 >= 24 && (a as u8) as u64 == a) by (bit_vector)
            requires
                24 <= a <= 0xff,
        ;
    } else if a <= 0xffff {
        assert(b[off] == 25 && b[off + 1] == (a >> 8u64) as u8 && b[off + 2] == a as u8);
        assert((a >> 8u64) as u8 != 0 && ((((a >> 8u64) as u8) as u64) << 8u64) | ((a as u8) as u64)
            == a) by (bit_vector)
            requires
                0xff < a <= 0xffff,
        ;
    } else if a <= 0xffff_ffff {
        assert(b[off] == 26 && b[off + 1] == (a >> 24u64) as u8 && b[off + 2] == (a >> 16u64) as u8
            && b[off + 3] == (a >> 8u64) as u8 && b[off + 4] == a as u8);
        assert(((a >> 24u64) as u8 != 0 || (a >> 16u64) as u8 != 0) && ((((a >> 24u64) as u8) as u64)
            << 24u64) | ((((a >> 16u64) as u8) as u64) << 16u64) | ((((a >> 8u64) as u8) as u64)
            << 8u64) | ((a as u8) as u64) == a) by (bit_vector)
            requires
                0xffff < a <= 0xffff_ffff,
        ;
    } else {
        let be = crate::bytes::spec_be_bytes_8(a);
        assert(e[0] == 27 && e[1] == be[0] && e[2] == be[1] && e[3] == be[2] && e[4] == be[3]
            && e[5] == be[4] && e[6] == be[5] && e[7] == be[6] && e[8] == be[7]);
        assert(b[off] == 27);
        assert(b[off + 1] == (a >> 56u64) as u8 && b[off + 2] == (a >> 48u64) as u8 && b[off + 3]
            == (a >> 40u64) as u8 && b[off + 4] == (a >> 32u64) as u8 && b[off + 5] == (a
            >> 24u64) as u8 && b[off + 6] == (a >> 16u64) as u8 && b[off + 7] == (a >> 8u64) as u8
            && b[off + 8] == a as u8);
        assert(((a >> 56u64) as u8 != 0 || (a >> 48u64) as u8 != 0 || (a >> 40u64) as u8 != 0 || (a
            >> 32u64) as u8 != 0) && ((((a >> 56u64) as u8) as u64) << 56u64) | ((((a
            >> 48u64) as u8) as u64) << 48u64) | ((((a >> 40u64) as u8) as u64) << 40u64) | ((((a
            >> 32u64) as u8) as u64) << 32u64) | ((((a >> 24u64) as u8) as u64) << 24u64) | ((((a
            >> 16u64) as u8) as u64) << 16u64) | ((((a >> 8u64) as u8) as u64) << 8u64) | ((
        a as u8) as u64) == a) by (bit_vector)
            requires
                0xffff_ffff < a,
        ;
    }
}

} // verus!
