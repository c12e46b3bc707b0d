//! Wire format for TrueForce samples captured from a game's own SDK calls.
//!
//! The relay format carries telemetry that the daemon turns into an engine
//! note; this one carries finished haptic samples a game already produced,
//! copied out of the SDK call path by the proxy DLL.
//!
//! Packet layout (little-endian, 8-byte header + samples):
//!
//! | offset | field   | type        | notes                                 |
//! |--------|---------|-------------|---------------------------------------|
//! | 0      | magic   | [u8;4]      | `b"LTFT"`                             |
//! | 4      | version | u8          | 1                                     |
//! | 5      | flags   | u8          | reserved, sent as 0                   |
//! | 6      | count   | u16         | samples following, 1..=[`MAX_SAMPLES`] |
//! | 8      | samples | f32 * count | normalized -1.0..=1.0                 |
//!
//! The encoder on the other end is C inside a Windows DLL; [`GOLDEN`] pins
//! the layout from this side. Samples are handled here as the bit patterns
//! of their `f32` values.

use vstd::prelude::*;
use crate::fftest::{le16, le32};
use crate::floatbits::{f32_bits_finite, is_finite, u32_at, u32_le, F32_MINUS_ONE, F32_ONE, F32_SIGN};

verus! {

/// Fixed packet magic, `b"LTFT"`.
pub const MAGIC: [u8; 4] = [0x4c, 0x54, 0x46, 0x54];

/// The only wire version understood.
pub const VERSION: u8 = 1;

/// Bytes before the sample array.
pub const HEADER_LEN: usize = 8;

/// Most samples one datagram may carry: 256 * 4 + 8 = 1032 bytes stays
/// inside a normal MTU.
pub const MAX_SAMPLES: usize = 256;

/// Default UDP port the daemon listens on for captured TrueForce.
pub const DEFAULT_PORT: u16 = 20781;

/// Largest encoded packet.
pub const MAX_PACKET_LEN: usize = HEADER_LEN + MAX_SAMPLES * 4;

/// The exact bytes for samples 0.5 and -1.0, which the C encoder is
/// checked against.
pub const GOLDEN: [u8; 16] = [
    0x4c, 0x54, 0x46, 0x54, 0x01, 0x00, 0x02, 0x00, 0x00, 0x00, 0x00, 0x3f, 0x00, 0x00, 0x80, 0xbf,
];

pub open spec fn magic_bytes() -> Seq<u8> {
    seq![0x4cu8, 0x54u8, 0x46u8, 0x54u8]
}

/// The samples' bytes, each little-endian, in order.
pub open spec fn sample_bytes(s: Seq<u32>) -> Seq<u8>
    decreases s.len(),
{
    if s.len() == 0 {
        Seq::empty()
    } else {
        sample_bytes(s.drop_last()) + le32(s.last())
    }
}

/// The packet that carries `s`.
pub open spec fn packet(s: Seq<u32>) -> Seq<u8> {
    magic_bytes() + seq![VERSION, 0u8] + le16(s.len() as u16) + sample_bytes(s)
}

/// A finite sample clamped into -1.0..=1.0, on its bits.
pub open spec fn clamp_unit(b: u32) -> u32 {
    if b & F32_SIGN == 0 {
        if b > F32_ONE {
            F32_ONE
        } else {
            b
        }
    } else if b > F32_MINUS_ONE {
        F32_MINUS_ONE
    } else {
        b
    }
}

/// The sample at index `i` of a packet.
pub open spec fn sample_at(p: Seq<u8>, i: int) -> u32 {
    u32_le(p, HEADER_LEN + 4 * i)
}

/// The sample count a packet's header states.
pub open spec fn stated_count(p: Seq<u8>) -> int {
    p[6] as int + p[7] as int * 256
}

/// What a datagram decodes to: `None` for a wrong magic or version, a
/// count of zero, above [`MAX_SAMPLES`] or disagreeing with the length,
/// or any non-finite sample; else every sample clamped into -1.0..=1.0.
pub open spec fn decoded(p: Seq<u8>) -> Option<Seq<u32>> {
    if p.len() < HEADER_LEN || p.subrange(0, 4) != magic_bytes() || p[4] != VERSION {
        None
    } else {
        let n = stated_count(p);
        if n == 0 || n > MAX_SAMPLES || p.len() != HEADER_LEN + 4 * n {
            None
        } else if exists|i: int| 0 <= i < n && !f32_bits_finite(#[trigger] sample_at(p, i)) {
            None
        } else {
            Some(Seq::new(n as nat, |i: int| clamp_unit(sample_at(p, i))))
        }
    }
}

proof fn lemma_le32_value(v: u32)
    ensures
        u32_le(le32(v), 0) == v,
{
    let b = le32(v);
    assert(b[0] == (v % 256) as u8);
    assert(b[1] == ((v / 256) % 256) as u8);
    assert(b[2] == ((v / 65536) % 256) as u8);
    assert(b[3] == (v / 16777216) as u8);
    assert((v % 256) as int + ((v / 256) % 256) as int * 0x100 + ((v / 65536) % 256) as int * 0x1_0000
        + (v / 16777216) as int * 0x100_0000 == v) by (nonlinear_arith);
}

proof fn lemma_sample_bytes(s: Seq<u32>)
    ensures
        sample_bytes(s).len() == 4 * s.len(),
        forall|i: int, k: int|
            0 <= i < s.len() && 0 <= k < 4 ==> #[trigger] sample_bytes(s)[4 * i + k] == le32(
                s[i],
            )[k],
    decreases s.len(),
{
    if s.len() > 0 {
        lemma_sample_bytes(s.drop_last());
        let p = s.drop_last();
        assert forall|i: int, k: int|
            0 <= i < s.len() && 0 <= k < 4 implies #[trigger] sample_bytes(s)[4 * i + k] == le32(
            s[i],
        )[k] by {
            if i < s.len() - 1 {
                assert(sample_bytes(p)[4 * i + k] == le32(p[i])[k]);
            }
        }
    }
}

proof fn lemma_packet_samples(s: Seq<u32>)
    requires
        s.len() <= MAX_SAMPLES,
    ensures
        packet(s).len() == HEADER_LEN + 4 * s.len(),
        packet(s).subrange(0, 4) == magic_bytes(),
        packet(s)[4] == VERSION,
        stated_count(packet(s)) == s.len(),
        forall|i: int| 0 <= i < s.len() ==> #[trigger] sample_at(packet(s), i) == s[i],
{
    lemma_sample_bytes(s);
    let p = packet(s);
    let n = s.len() as u16;
    assert(p.subrange(0, 4) =~= magic_bytes());
    assert(p[6] == (n % 256) as u8);
    assert(p[7] == (n / 256) as u8);
    assert forall|i: int| 0 <= i < s.len() implies #[trigger] sample_at(p, i) == s[i] by {
        lemma_le32_value(s[i]);
        let b = le32(s[i]);
        assert(p[HEADER_LEN + 4 * i] == sample_bytes(s)[4 * i + 0]);
        assert(p[HEADER_LEN + 4 * i + 1] == sample_bytes(s)[4 * i + 1]);
        assert(p[HEADER_LEN + 4 * i + 2] == sample_bytes(s)[4 * i + 2]);
        assert(p[HEADER_LEN + 4 * i + 3] == sample_bytes(s)[4 * i + 3]);
    }
}

/// A packet carries its samples back, `decode(encode(s))` being `s`
/// clamped: decoding what [`encode`] produced from one to [`MAX_SAMPLES`]
/// finite samples gives each sample clamped
/// into -1.0..=1.0, and so gives back exactly the samples that were
/// already in range. A non-finite sample makes the packet undecodable.
pub proof fn lemma_round_trip(s: Seq<u32>)
    requires
        1 <= s.len() <= MAX_SAMPLES,
    ensures
        (forall|i: int| 0 <= i < s.len() ==> f32_bits_finite(#[trigger] s[i])) ==> decoded(packet(s))
            == Some(s.map_values(|b: u32| clamp_unit(b))),
        (forall|i: int| 0 <= i < s.len() ==> f32_bits_finite(#[trigger] s[i]) && clamp_unit(s[i])
            == s[i]) ==> decoded(packet(s)) == Some(s),
        (exists|i: int| 0 <= i < s.len() && !f32_bits_finite(#[trigger] s[i])) ==> decoded(packet(s))
            is None,
{
    lemma_packet_samples(s);
    let p = packet(s);
    if forall|i: int| 0 <= i < s.len() ==> f32_bits_finite(#[trigger] s[i]) {
        assert(!exists|i: int| 0 <= i < s.len() && !f32_bits_finite(#[trigger] sample_at(p, i)));
        assert(Seq::new(s.len(), |i: int| clamp_unit(sample_at(p, i))) =~= s.map_values(
            |b: u32| clamp_unit(b),
        ));
        if forall|i: int| 0 <= i < s.len() ==> f32_bits_finite(#[trigger] s[i]) && clamp_unit(s[i])
            == s[i] {
            assert(s.map_values(|b: u32| clamp_unit(b)) =~= s);
        }
    } else {
        let i = choose|i: int| 0 <= i < s.len() && !f32_bits_finite(#[trigger] s[i]);
        assert(!f32_bits_finite(sample_at(p, i)));
    }
}

fn push_le32(buf: &mut Vec<u8>, v: u32)
    ensures
        final(buf)@ == old(buf)@ + le32(v),
{
    buf.push((v % 256) as u8);
    buf.push(((v / 256) % 256) as u8);
    buf.push(((v / 65536) % 256) as u8);
    buf.push((v / 16777216) as u8);
    assert(final(buf)@ =~= old(buf)@ + le32(v));
}

/// Encode `samples` (the bits of their `f32` values) into a datagram, or
/// `None` if there are none or more than one packet holds. Callers split
/// longer runs themselves.
pub fn encode(samples: &[u32]) -> (r: Option<Vec<u8>>)
    ensures
        r is Some <==> 1 <= samples@.len() <= MAX_SAMPLES,
        r matches Some(b) ==> b@ == packet(samples@),
        r matches Some(b) ==> ((forall|i: int|
            0 <= i < samples@.len() ==> f32_bits_finite(#[trigger] samples@[i])) ==> decoded(b@) == Some(
            samples@.map_values(|x: u32| clamp_unit(x)),
        )),
        r matches Some(b) ==> ((exists|i: int|
            0 <= i < samples@.len() && !f32_bits_finite(#[trigger] samples@[i])) ==> decoded(b@) is None),
{
    if samples.len() == 0 || samples.len() > MAX_SAMPLES {
        return None;
    }
    let mut buf: Vec<u8> = Vec::new();
    buf.push(MAGIC[0]);
    buf.push(MAGIC[1]);
    buf.push(MAGIC[2]);
    buf.push(MAGIC[3]);
    buf.push(VERSION);
    buf.push(0);
    let n = samples.len() as u16;
    buf.push((n % 256) as u8);
    buf.push((n / 256) as u8);
    assert(buf@ =~= magic_bytes() + seq![VERSION, 0u8] + le16(n));
    let ghost head = buf@;
    let mut i: usize = 0;
    while i < samples.len()
        invariant
            i <= samples@.len(),
            buf@ == head + sample_bytes(samples@.take(i as int)),
        decreases samples@.len() - i,
    {
        assert(samples@.take(i + 1).drop_last() =~= samples@.take(i as int));
        push_le32(&mut buf, samples[i]);
        assert(buf@ =~= head + sample_bytes(samples@.take(i + 1)));
        i = i + 1;
    }
    assert(samples@.take(samples@.len() as int) =~= samples@);
    proof {
        lemma_round_trip(samples@);
    }
    Some(buf)
}

fn clamp_sample(b: u32) -> (r: u32)
    ensures
        r == clamp_unit(b),
{
    if b & F32_SIGN == 0 {
        if b > F32_ONE {
            F32_ONE
        } else {
            b
        }
    } else if b > F32_MINUS_ONE {
        F32_MINUS_ONE
    } else {
        b
    }
}

/// Decode a datagram into samples (the bits of their `f32` values).
///
/// A wrong magic, an unknown version, a count that disagrees with the
/// length, or any non-finite sample drops the whole packet: a non-finite
/// torque command has no defined meaning. A finite sample outside
/// -1.0..=1.0 is a loud sample, not a corrupt one, and is clamped.
pub fn decode(pkt: &[u8]) -> (r: Option<Vec<u32>>)
    ensures
        match r {
            Some(v) => decoded(pkt@) == Some(v@),
            None => decoded(pkt@) is None,
        },
{
    if pkt.len() < HEADER_LEN || pkt[0] != MAGIC[0] || pkt[1] != MAGIC[1] || pkt[2] != MAGIC[2]
        || pkt[3] != MAGIC[3] || pkt[4] != VERSION {
        proof {
            if pkt@.len() >= HEADER_LEN && pkt@.subrange(0, 4) == magic_bytes() {
                assert(pkt@.subrange(0, 4)[0] == pkt@[0]);
                assert(pkt@.subrange(0, 4)[1] == pkt@[1]);
                assert(pkt@.subrange(0, 4)[2] == pkt@[2]);
                assert(pkt@.subrange(0, 4)[3] == pkt@[3]);
            }
        }
        return None;
    }
    assert(pkt@.subrange(0, 4) =~= magic_bytes());
    let count: usize = pkt[6] as usize + pkt[7] as usize * 256;
    if count == 0 || count > MAX_SAMPLES || pkt.len() != HEADER_LEN + count * 4 {
        return None;
    }
    let mut out: Vec<u32> = Vec::new();
    let mut i: usize = 0;
    while i < count
        invariant
            count == stated_count(pkt@),
            1 <= count <= MAX_SAMPLES,
            pkt@.len() == HEADER_LEN + 4 * count,
            i <= count,
            out@ == Seq::new(i as nat, |j: int| clamp_unit(sample_at(pkt@, j))),
            forall|j: int| 0 <= j < i ==> f32_bits_finite(#[trigger] sample_at(pkt@, j)),
        decreases count - i,
    {
        let v = u32_at(pkt, HEADER_LEN + i * 4);
        assert(v == sample_at(pkt@, i as int));
        if !is_finite(v) {
            assert(!f32_bits_finite(sample_at(pkt@, i as int)));
            return None;
        }
        out.push(clamp_sample(v));
        assert(out@ =~= Seq::new((i + 1) as nat, |j: int| clamp_unit(sample_at(pkt@, j))));
        i = i + 1;
    }
    Some(out)
}

} // verus!
