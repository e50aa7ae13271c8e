//! Length-prefixed framing for the append-only chunk log: each record is
//! its payload preceded by a four-byte little-endian length.  A reader
//! treats an incomplete trailing record as end-of-stream.

use vstd::prelude::*;

verus! {

/// The four little-endian bytes of a record length.
pub open spec fn le32(n: int) -> Seq<u8> {
    seq![
        (n % 256) as u8,
        ((n / 256) % 256) as u8,
        ((n / 256 / 256) % 256) as u8,
        ((n / 256 / 256 / 256) % 256) as u8,
    ]
}

/// The length read back from four little-endian bytes.
pub open spec fn le32_val(b: Seq<u8>) -> int {
    ((b[3] * 256 + b[2]) * 256 + b[1]) * 256 + b[0]
}

/// A framed record: the payload's length, then the payload.
pub open spec fn spec_frame(p: Seq<u8>) -> Seq<u8> {
    le32(p.len() as int) + p
}

/// What reading one frame at `pos` yields: the payload and the next
/// position — or nothing when the buffer ends inside the length prefix or
/// inside the payload (a truncated trailing record).
pub open spec fn spec_read_frame(buf: Seq<u8>, pos: int) -> Option<(Seq<u8>, int)> {
    if pos < 0 || pos + 4 > buf.len() {
        None
    } else {
        let n = le32_val(buf.subrange(pos, pos + 4));
        if pos + 4 + n > buf.len() {
            None
        } else {
            Some((buf.subrange(pos + 4, pos + 4 + n), pos + 4 + n))
        }
    }
}

/// Frame one record payload.
pub fn encode_frame(payload: &Vec<u8>) -> (r: Vec<u8>)
    requires
        payload@.len() <= 0xFFFF_FFFF,
    ensures
        r@ == spec_frame(payload@),
{
    let n: usize = payload.len();
    let mut out: Vec<u8> = Vec::new();
    out.push((n % 256) as u8);
    out.push((n / 256 % 256) as u8);
    out.push((n / 256 / 256 % 256) as u8);
    out.push((n / 256 / 256 / 256 % 256) as u8);
    let mut i: usize = 0;
    while i < n
        invariant
            n == payload@.len(),
            0 <= i <= n,
            out@ == le32(n as int) + payload@.take(i as int),
        decreases n - i,
    {
        out.push(payload[i]);
        proof {
            assert(out@ =~= le32(n as int) + payload@.take(i + 1));
        }
        i = i + 1;
    }
    proof {
        assert(payload@.take(n as int) =~= payload@);
        assert(out@ =~= spec_frame(payload@));
    }
    out
}

/// Read one frame at `pos`, exactly as `spec_read_frame` describes;
/// `None` means end-of-stream (including a truncated trailing record).
pub fn read_frame(buf: &Vec<u8>, pos: usize) -> (r: Option<(Vec<u8>, usize)>)
    ensures
        match (r, spec_read_frame(buf@, pos as int)) {
            (Some((p, np)), Some((sp, snp))) => p@ == sp && np as int == snp,
            (None, None) => true,
            _ => false,
        },
{
    let len: usize = buf.len();
    if pos > len || len - pos < 4 {
        return None;
    }
    let b0: u64 = buf[pos] as u64;
    let b1: u64 = buf[pos + 1] as u64;
    let b2: u64 = buf[pos + 2] as u64;
    let b3: u64 = buf[pos + 3] as u64;
    let n64: u64 = ((b3 * 256 + b2) * 256 + b1) * 256 + b0;
    proof {
        assert(buf@.subrange(pos as int, pos + 4) =~= seq![
            buf@[pos as int],
            buf@[pos + 1],
            buf@[pos + 2],
            buf@[pos + 3],
        ]);
        assert(n64 as int == le32_val(buf@.subrange(pos as int, pos + 4)));
    }
    let rem: usize = len - pos - 4;
    if n64 > (rem as u64) {
        return None;
    }
    let n: usize = n64 as usize;
    let mut payload: Vec<u8> = Vec::new();
    let mut i: usize = 0;
    while i < n
        invariant
            len == buf@.len(),
            pos + 4 + n <= len,
            0 <= i <= n,
            payload@ == buf@.subrange(pos + 4, pos + 4 + i),
        decreases n - i,
    {
        payload.push(buf[pos + 4 + i]);
        proof {
            assert(payload@ =~= buf@.subrange(pos + 4, pos + 4 + i + 1));
        }
        i = i + 1;
    }
    Some((payload, pos + 4 + n))
}

/// Round trip: reading at the start of a framed record, whatever follows
/// it, yields exactly the payload and the position just after it.
pub proof fn lemma_frame_round_trip(p: Seq<u8>, rest: Seq<u8>)
    requires
        p.len() <= 0xFFFF_FFFF,
    ensures
        spec_read_frame(spec_frame(p) + rest, 0) == Some((p, 4 + p.len() as int)),
{
    let buf = spec_frame(p) + rest;
    let n = p.len() as int;
    assert(buf.subrange(0, 4) =~= le32(n));
    lemma_le32_round_trip(n);
    assert(le32_val(buf.subrange(0, 4)) == n);
    assert(buf.subrange(4, 4 + n) =~= p);
}

/// Reading back the four little-endian bytes of a 32-bit length yields
/// that length.
pub proof fn lemma_le32_round_trip(n: int)
    requires
        0 <= n <= 0xFFFF_FFFF,
    ensures
        le32_val(le32(n)) == n,
{
    let d0 = n % 256;
    let m1 = n / 256;
    let d1 = m1 % 256;
    let m2 = m1 / 256;
    let d2 = m2 % 256;
    let m3 = m2 / 256;
    assert(m1 == n / 256 && m2 == n / 256 / 256 && m3 == n / 256 / 256 / 256);
    assert(0 <= m3 < 256) by (nonlinear_arith)
        requires
            0 <= n <= 0xFFFF_FFFF,
            m1 == n / 256,
            m2 == m1 / 256,
            m3 == m2 / 256,
    {}
    assert(m3 % 256 == m3);
    assert(n == 256 * m1 + d0) by (nonlinear_arith)
        requires
            m1 == n / 256,
            d0 == n % 256,
    {}
    assert(m1 == 256 * m2 + d1) by (nonlinear_arith)
        requires
            m2 == m1 / 256,
            d1 == m1 % 256,
    {}
    assert(m2 == 256 * m3 + d2) by (nonlinear_arith)
        requires
            m3 == m2 / 256,
            d2 == m2 % 256,
    {}
    assert(((m3 * 256 + d2) * 256 + d1) * 256 + d0 == n) by (nonlinear_arith)
        requires
            n == 256 * m1 + d0,
            m1 == 256 * m2 + d1,
            m2 == 256 * m3 + d2,
    {}
}

} // verus!
