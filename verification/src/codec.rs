//! Binary serialization of an entry's metadata for the persistent store.
//! A record is 17 bytes: one kind byte, the size as 8 little-endian bytes,
//! and the mtime, shifted into unsigned range, as 8 little-endian bytes.

use vstd::prelude::*;

verus! {

/// The eight little-endian bytes of `v`.
pub open spec fn spec_u64_le(v: u64) -> Seq<u8> {
    seq![
        (v & 0xff) as u8,
        ((v >> 8) & 0xff) as u8,
        ((v >> 16) & 0xff) as u8,
        ((v >> 24) & 0xff) as u8,
        ((v >> 32) & 0xff) as u8,
        ((v >> 40) & 0xff) as u8,
        ((v >> 48) & 0xff) as u8,
        ((v >> 56) & 0xff) as u8,
    ]
}

/// An mtime shifted from signed into unsigned range, keeping the order.
pub open spec fn spec_mtime_code(m: i64) -> u64 {
    (m + 0x8000000000000000) as u64
}

/// The stored record for an entry's metadata.
pub open spec fn spec_encode_meta(is_dir: bool, size: u64, mtime: i64) -> Seq<u8> {
    seq![if is_dir { 1u8 } else { 0u8 }] + spec_u64_le(size) + spec_u64_le(spec_mtime_code(mtime))
}

fn push_u64_le(out: &mut Vec<u8>, v: u64)
    ensures
        final(out)@ == old(out)@ + spec_u64_le(v),
{
    proof {
        assert(v & 0xff < 256 && (v >> 8) & 0xff < 256 && (v >> 16) & 0xff < 256 && (v >> 24)
            & 0xff < 256 && (v >> 32) & 0xff < 256 && (v >> 40) & 0xff < 256 && (v >> 48) & 0xff
            < 256 && (v >> 56) & 0xff < 256) by (bit_vector);
    }
    out.push((v & 0xff) as u8);
    out.push(((v >> 8) & 0xff) as u8);
    out.push(((v >> 16) & 0xff) as u8);
    out.push(((v >> 24) & 0xff) as u8);
    out.push(((v >> 32) & 0xff) as u8);
    out.push(((v >> 40) & 0xff) as u8);
    out.push(((v >> 48) & 0xff) as u8);
    out.push(((v >> 56) & 0xff) as u8);
    proof {
        assert(out@ =~= old(out)@ + spec_u64_le(v));
    }
}

fn mtime_code(m: i64) -> (r: u64)
    ensures
        r == spec_mtime_code(m),
{
    if m >= 0 {
        (m as u64) + 0x8000000000000000u64
    } else {
        (m + 1 + 0x7fffffffffffffffi64) as u64
    }
}

fn mtime_decode(u: u64) -> (r: i64)
    ensures
        spec_mtime_code(r) == u,
{
    if u >= 0x8000000000000000u64 {
        (u - 0x8000000000000000u64) as i64
    } else {
        -((0x8000000000000000u64 - 1 - u) as i64) - 1
    }
}

/// Encode an entry's metadata into its 17-byte stored record.
pub fn encode_meta(is_dir: bool, size: u64, mtime: i64) -> (r: Vec<u8>)
    ensures
        r@ == spec_encode_meta(is_dir, size, mtime),
{
    let mut out: Vec<u8> = Vec::new();
    out.push(if is_dir { 1u8 } else { 0u8 });
    push_u64_le(&mut out, size);
    push_u64_le(&mut out, mtime_code(mtime));
    proof {
        assert(out@ =~= spec_encode_meta(is_dir, size, mtime));
    }
    out
}

fn read_u64_le(b: &Vec<u8>, off: usize) -> (r: u64)
    requires
        off + 8 <= b@.len(),
    ensures
        spec_u64_le(r) == b@.subrange(off as int, off as int + 8),
{
    let n = b.len();
    let x0 = b[off] as u64;
    let x1 = b[off + 1] as u64;
    let x2 = b[off + 2] as u64;
    let x3 = b[off + 3] as u64;
    let x4 = b[off + 4] as u64;
    let x5 = b[off + 5] as u64;
    let x6 = b[off + 6] as u64;
    let x7 = b[off + 7] as u64;
    let r = x0 | (x1 << 8) | (x2 << 16) | (x3 << 24) | (x4 << 32) | (x5 << 40) | (x6 << 48) | (x7
        << 56);
    proof {
        assert((x0 | (x1 << 8) | (x2 << 16) | (x3 << 24) | (x4 << 32) | (x5 << 40) | (x6 << 48) | (
        x7 << 56)) & 0xff == x0 && ((x0 | (x1 << 8) | (x2 << 16) | (x3 << 24) | (x4 << 32) | (x5
            << 40) | (x6 << 48) | (x7 << 56)) >> 8) & 0xff == x1 && ((x0 | (x1 << 8) | (x2 << 16)
            | (x3 << 24) | (x4 << 32) | (x5 << 40) | (x6 << 48) | (x7 << 56)) >> 16) & 0xff == x2
            && ((x0 | (x1 << 8) | (x2 << 16) | (x3 << 24) | (x4 << 32) | (x5 << 40) | (x6 << 48) | (
        x7 << 56)) >> 24) & 0xff == x3 && ((x0 | (x1 << 8) | (x2 << 16) | (x3 << 24) | (x4 << 32)
            | (x5 << 40) | (x6 << 48) | (x7 << 56)) >> 32) & 0xff == x4 && ((x0 | (x1 << 8) | (x2
            << 16) | (x3 << 24) | (x4 << 32) | (x5 << 40) | (x6 << 48) | (x7 << 56)) >> 40) & 0xff
            == x5 && ((x0 | (x1 << 8) | (x2 << 16) | (x3 << 24) | (x4 << 32) | (x5 << 40) | (x6
            << 48) | (x7 << 56)) >> 48) & 0xff == x6 && ((x0 | (x1 << 8) | (x2 << 16) | (x3 << 24)
            | (x4 << 32) | (x5 << 40) | (x6 << 48) | (x7 << 56)) >> 56) & 0xff == x7)
            by (bit_vector)
            requires
                x0 < 256 && x1 < 256 && x2 < 256 && x3 < 256 && x4 < 256 && x5 < 256 && x6 < 256
                    && x7 < 256,
        ;
        assert(spec_u64_le(r) =~= b@.subrange(off as int, off as int + 8));
    }
    r
}

/// Decode a stored record back into entry metadata. Returns the fields
/// exactly when the bytes are a record that `encode_meta` produces.
pub fn decode_meta(b: &Vec<u8>) -> (r: Option<(bool, u64, i64)>)
    ensures
        r is Some <==> (b@.len() == 17 && (b@[0] == 0u8 || b@[0] == 1u8)),
        r matches Some(t) ==> b@ == spec_encode_meta(t.0, t.1, t.2),
{
    if b.len() != 17 {
        return None;
    }
    let kind = b[0];
    if kind > 1 {
        return None;
    }
    let size = read_u64_le(b, 1);
    let code = read_u64_le(b, 9);
    let mtime = mtime_decode(code);
    proof {
        assert(b@ =~= spec_encode_meta(kind == 1u8, size, mtime));
    }
    Some((kind == 1, size, mtime))
}

/// Decoding recovers exactly what was encoded: the stored record of an
/// entry's metadata loses nothing.
pub proof fn lemma_meta_round_trip(is_dir: bool, size: u64, mtime: i64)
    ensures
        spec_encode_meta(is_dir, size, mtime).len() == 17,
        spec_encode_meta(is_dir, size, mtime)[0] == (if is_dir {
            1u8
        } else {
            0u8
        }),
        forall|d2: bool, s2: u64, m2: i64|
            spec_encode_meta(is_dir, size, mtime) == #[trigger] spec_encode_meta(d2, s2, m2) ==> (
            is_dir == d2 && size == s2 && mtime == m2),
{
    assert forall|d2: bool, s2: u64, m2: i64|
        spec_encode_meta(is_dir, size, mtime) == #[trigger] spec_encode_meta(d2, s2, m2) implies (
    is_dir == d2 && size == s2 && mtime == m2) by {
        let a = spec_encode_meta(is_dir, size, mtime);
        let c = spec_encode_meta(d2, s2, m2);
        assert(a[0] == c[0]);
        assert forall|k: int| 0 <= k < 8 implies spec_u64_le(size)[k] == spec_u64_le(s2)[k] by {
            assert(a[k + 1] == c[k + 1]);
        }
        lemma_u64_le_injective(size, s2);
        assert forall|k: int| 0 <= k < 8 implies spec_u64_le(spec_mtime_code(mtime))[k]
            == spec_u64_le(spec_mtime_code(m2))[k] by {
            assert(a[k + 9] == c[k + 9]);
        }
        lemma_u64_le_injective(spec_mtime_code(mtime), spec_mtime_code(m2));
    }
}

proof fn lemma_u64_le_injective(a: u64, c: u64)
    requires
        forall|k: int| 0 <= k < 8 ==> spec_u64_le(a)[k] == spec_u64_le(c)[k],
    ensures
        a == c,
{
    assert(spec_u64_le(a)[0] == spec_u64_le(c)[0]);
    assert(spec_u64_le(a)[1] == spec_u64_le(c)[1]);
    assert(spec_u64_le(a)[2] == spec_u64_le(c)[2]);
    assert(spec_u64_le(a)[3] == spec_u64_le(c)[3]);
    assert(spec_u64_le(a)[4] == spec_u64_le(c)[4]);
    assert(spec_u64_le(a)[5] == spec_u64_le(c)[5]);
    assert(spec_u64_le(a)[6] == spec_u64_le(c)[6]);
    assert(spec_u64_le(a)[7] == spec_u64_le(c)[7]);
    assert(a == c) by (bit_vector)
        requires
            (a & 0xff) as u8 == (c & 0xff) as u8 && ((a >> 8) & 0xff) as u8 == ((c >> 8)
                & 0xff) as u8 && ((a >> 16) & 0xff) as u8 == ((c >> 16) & 0xff) as u8 && ((a >> 24)
                & 0xff) as u8 == ((c >> 24) & 0xff) as u8 && ((a >> 32) & 0xff) as u8 == ((c >> 32)
                & 0xff) as u8 && ((a >> 40) & 0xff) as u8 == ((c >> 40) & 0xff) as u8 && ((a >> 48)
                & 0xff) as u8 == ((c >> 48) & 0xff) as u8 && ((a >> 56) & 0xff) as u8 == ((c >> 56)
                & 0xff) as u8,
    ;
}

} // verus!
