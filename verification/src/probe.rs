//! Packets that open a way through a NAT. They look like TLS records.
use crate::net::{IpAddress, SocketAddress};
use crate::wire::{be16, push_bytes, push_u16};
use vstd::prelude::*;

verus! {

pub const TLS_RECORD_HEADER_LEN: usize = 5;

pub const MIN_BODY_LEN: usize = 48;

pub const MAX_BODY_LEN: usize = 128;

/// Version, flags, time, two ports and a nonce.
pub const METADATA_LEN: usize = 26;

/// How often a probe is sent.
pub const MAX_PROBES: usize = 6;

/// The milliseconds between two probes.
pub const PROBE_INTERVAL_MS: u64 = 200;

/// The length of a body, by a random number.
pub open spec fn body_len_of(random: u32) -> nat {
    MIN_BODY_LEN as nat + random as nat % 81
}

pub fn body_len(random: u32) -> (r: usize)
    ensures
        r == body_len_of(random),
        MIN_BODY_LEN <= r <= MAX_BODY_LEN,
{
    MIN_BODY_LEN + (random % 81) as usize
}

/// An address as sixteen bytes. One of four bytes stands behind ten zeros and
/// two bytes of ones.
pub open spec fn mapped_ip(ip: IpAddress) -> Seq<u8> {
    match ip {
        IpAddress::V4(b) => seq![0u8, 0, 0, 0, 0, 0, 0, 0, 0, 0, 0xffu8, 0xffu8] + b@,
        IpAddress::V6 { octets, .. } => octets@,
    }
}

fn mapped_bytes(ip: &IpAddress) -> (r: Vec<u8>)
    ensures
        r@ == mapped_ip(*ip),
        r@.len() == 16,
{
    let mut out: Vec<u8> = Vec::new();
    match ip {
        IpAddress::V4(b) => {
            let mut i: usize = 0;
            while i < 10
                invariant
                    i <= 10,
                    out@.len() == i,
                    forall|k: int| 0 <= k < i ==> #[trigger] out@[k] == 0,
                decreases 10 - i,
            {
                out.push(0);
                i = i + 1;
            }
            out.push(0xff);
            out.push(0xff);
            push_bytes(&mut out, b.as_slice());
            proof {
                assert(out@ =~= mapped_ip(*ip));
            }
        },
        IpAddress::V6 { octets: b, .. } => {
            push_bytes(&mut out, b.as_slice());
            proof {
                assert(out@ =~= b@);
            }
        },
    }
    out
}

/// A number as four bytes, the most significant first.
pub open spec fn be32(x: u32) -> Seq<u8> {
    be16((x / 65536) as u16) + be16((x % 65536) as u16)
}

/// Bytes with the first of them mixed with others.
pub open spec fn mixed_nonce(random: Seq<u8>, ip: Seq<u8>) -> Seq<u8> {
    Seq::new(random.len(), |i: int| random[i] ^ ip[i])
}

/// What a probe says of itself.
pub open spec fn metadata_bytes(
    timestamp: u32,
    sender: SocketAddress,
    target: SocketAddress,
    random: Seq<u8>,
) -> Seq<u8> {
    seq![1u8, 0u8] + be32(timestamp) + be16(sender.port) + be16(target.port) + mixed_nonce(
        random,
        mapped_ip(sender.ip),
    )
}

fn encode_metadata(
    timestamp: u32,
    sender: &SocketAddress,
    target: &SocketAddress,
    random: &[u8],
) -> (r: Vec<u8>)
    requires
        random@.len() == 16,
    ensures
        r@ == metadata_bytes(timestamp, *sender, *target, random@),
        r@.len() == METADATA_LEN,
{
    let mut out: Vec<u8> = Vec::new();
    out.push(1);
    out.push(0);
    push_u16(&mut out, (timestamp / 65536) as u16);
    push_u16(&mut out, (timestamp % 65536) as u16);
    push_u16(&mut out, sender.port);
    push_u16(&mut out, target.port);
    let ghost head = out@;
    let ip: Vec<u8> = mapped_bytes(&sender.ip);
    let mut i: usize = 0;
    while i < 16
        invariant
            i <= 16,
            random@.len() == 16,
            ip@.len() == 16,
            out@.len() == head.len() + i,
            out@.take(head.len() as int) =~= head,
            forall|k: int|
                0 <= k < i ==> #[trigger] out@[head.len() + k] == random@[k] ^ ip@[k],
        decreases 16 - i,
    {
        out.push(random[i] ^ ip[i]);
        i = i + 1;
    }
    proof {
        let nonce = mixed_nonce(random@, ip@);
        assert forall|k: int| 0 <= k < out@.len() implies out@[k] == (head + nonce)[k] by {
            if k < head.len() {
                assert(out@.take(head.len() as int)[k] == head[k]);
            } else {
                assert(out@[head.len() + (k - head.len())] == nonce[k - head.len()]);
            }
        }
        assert(out@ =~= head + nonce);
        assert(out@ =~= metadata_bytes(timestamp, *sender, *target, random@));
    }
    out
}

/// A body whose last bytes are mixed with others. A body that is too short
/// stays as it is.
pub open spec fn mixed_into(body: Seq<u8>, metadata: Seq<u8>) -> Seq<u8> {
    if body.len() < metadata.len() {
        body
    } else {
        let offset = body.len() - metadata.len();
        Seq::new(
            body.len(),
            |i: int|
                if i < offset {
                    body[i]
                } else {
                    body[i] ^ metadata[i - offset]
                },
        )
    }
}

/// Mixes bytes into the end of a body.
pub fn mix_into(body: Vec<u8>, metadata: &[u8]) -> (r: Vec<u8>)
    ensures
        r@ == mixed_into(body@, metadata@),
{
    if body.len() < metadata.len() {
        return body;
    }
    let offset: usize = body.len() - metadata.len();
    let mut out: Vec<u8> = Vec::new();
    let mut i: usize = 0;
    while i < body.len()
        invariant
            i <= body@.len(),
            metadata@.len() <= body@.len(),
            offset == body@.len() - metadata@.len(),
            out@.len() == i,
            forall|k: int| 0 <= k < i ==> #[trigger] out@[k] == mixed_into(body@, metadata@)[k],
        decreases body@.len() - i,
    {
        if i < offset {
            out.push(body[i]);
        } else {
            out.push(body[i] ^ metadata[i - offset]);
        }
        i = i + 1;
    }
    proof {
        assert(out@ =~= mixed_into(body@, metadata@));
    }
    out
}

/// Who knows the bytes that a body started from can read what was mixed into
/// it.
pub proof fn law_metadata_reads_back(body: Seq<u8>, metadata: Seq<u8>)
    requires
        metadata.len() <= body.len(),
    ensures
        mixed_into(mixed_into(body, metadata), metadata) == body,
        ({
            let offset = body.len() - metadata.len();
            forall|i: int|
                0 <= i < metadata.len() ==> #[trigger] metadata[i] == mixed_into(
                    body,
                    metadata,
                )[offset + i] ^ body[offset + i]
        }),
{
    let m = mixed_into(body, metadata);
    let offset = body.len() - metadata.len();
    assert forall|i: int| 0 <= i < body.len() implies #[trigger] mixed_into(m, metadata)[i]
        == body[i] by {
        if i >= offset {
            let a = body[i];
            let b = metadata[i - offset];
            assert((a ^ b) ^ b == a) by (bit_vector);
        }
    }
    assert(mixed_into(m, metadata) =~= body);
    assert forall|i: int| 0 <= i < metadata.len() implies #[trigger] metadata[i] == m[offset + i]
        ^ body[offset + i] by {
        let a = body[offset + i];
        let b = metadata[i];
        assert((a ^ b) ^ a == b) by (bit_vector);
    }
}

/// A probe: the head of a TLS record with application data, and a body.
pub open spec fn probe_bytes(body: Seq<u8>) -> Seq<u8> {
    seq![0x17u8, 0x03u8, 0x03u8] + be16(body.len() as u16) + body
}

/// Makes a probe from random bytes.
pub fn probe_payload(
    sender: &SocketAddress,
    target: &SocketAddress,
    body: Vec<u8>,
    nonce: &[u8],
    timestamp: u32,
) -> (r: Vec<u8>)
    requires
        body@.len() <= 65535,
        nonce@.len() == 16,
    ensures
        r@ == probe_bytes(
            mixed_into(body@, metadata_bytes(timestamp, *sender, *target, nonce@)),
        ),
{
    let metadata: Vec<u8> = encode_metadata(timestamp, sender, target, nonce);
    let mixed: Vec<u8> = mix_into(body, metadata.as_slice());
    let mut out: Vec<u8> = Vec::new();
    out.push(0x17);
    out.push(0x03);
    out.push(0x03);
    push_u16(&mut out, mixed.len() as u16);
    push_bytes(&mut out, mixed.as_slice());
    proof {
        assert(out@ =~= probe_bytes(mixed@));
    }
    out
}

/// `rand::RngCore::next_u32` of the generator of the thread. Any number can
/// come.
#[verifier::external_body]
fn random_u32() -> (r: u32) {
    rand::RngCore::next_u32(&mut rand::rng())
}

/// `rand::RngCore::fill_bytes` of the generator of the thread: as many bytes
/// as are asked for. Which bytes is left open.
#[verifier::external_body]
pub(crate) fn random_bytes(n: usize) -> (r: Vec<u8>)
    ensures
        r@.len() == n,
{
    let mut out = vec![0u8; n];
    rand::RngCore::fill_bytes(&mut rand::rng(), &mut out);
    out
}

/// `p` is a probe from a sender to a target at a time.
pub open spec fn is_probe(
    p: Seq<u8>,
    sender: SocketAddress,
    target: SocketAddress,
    timestamp: u32,
) -> bool {
    exists|body: Seq<u8>, nonce: Seq<u8>|
        {
            &&& MIN_BODY_LEN <= body.len() <= MAX_BODY_LEN
            &&& nonce.len() == 16
            &&& p == #[trigger] probe_bytes(
                mixed_into(body, metadata_bytes(timestamp, sender, target, nonce)),
            )
        }
}

/// Makes a probe with random bytes. A time beyond the last that four bytes
/// hold counts as that one.
pub fn build_probe_payload(sender: &SocketAddress, target: &SocketAddress, now_secs: u64) -> (r: Vec<
    u8,
>)
    ensures
        is_probe(
            r@,
            *sender,
            *target,
            if now_secs < u32::MAX {
                now_secs as u32
            } else {
                u32::MAX
            },
        ),
        r@.len() >= TLS_RECORD_HEADER_LEN + MIN_BODY_LEN,
        r@[0] == 0x17,
        r@[1] == 0x03 && r@[2] == 0x03,
        crate::wire::u16_at(r@, 3) == r@.len() - TLS_RECORD_HEADER_LEN,
{
    let timestamp: u32 = if now_secs < u32::MAX as u64 {
        now_secs as u32
    } else {
        u32::MAX
    };
    let n: usize = body_len(random_u32());
    let body: Vec<u8> = random_bytes(n);
    let nonce: Vec<u8> = random_bytes(16);
    let ghost body_view = body@;
    let out: Vec<u8> = probe_payload(sender, target, body, nonce.as_slice(), timestamp);
    proof {
        let mixed = mixed_into(body_view, metadata_bytes(timestamp, *sender, *target, nonce@));
        assert(out@ == probe_bytes(mixed));
        assert(mixed.len() == n);
        assert(out@[3] == be16(n as u16)[0] && out@[4] == be16(n as u16)[1]);
    }
    out
}

/// A probe is sent a fixed number of times; tells whether one more is due, and
/// after how many milliseconds.
pub fn next_probe(sent: usize) -> (r: Option<u64>)
    ensures
        r == (if sent >= MAX_PROBES {
            None
        } else {
            Some(PROBE_INTERVAL_MS)
        }),
{
    if sent >= MAX_PROBES {
        None
    } else {
        Some(PROBE_INTERVAL_MS)
    }
}

/// A body is no shorter than the shortest and no longer than the longest, and
/// every length in between occurs.
pub proof fn law_every_body_length_occurs(random: u32, r: usize, n: int, at_n: usize)
    requires
        call_ensures(body_len, (random,), r),
        48 <= n <= 128,
        call_ensures(body_len, ((n - 48) as u32,), at_n),
    ensures
        48 <= r <= 128,
        at_n == n,
{
}

/// Mixing twice with the same bytes gives back the body, and what stands before
/// the mixed bytes is not touched.
pub proof fn law_mixing_twice_undoes(
    body: Vec<u8>,
    metadata: &[u8],
    once: Vec<u8>,
    twice: Vec<u8>,
)
    requires
        call_ensures(mix_into, (body, metadata), once),
        call_ensures(mix_into, (once, metadata), twice),
    ensures
        twice@ == body@,
        once@.len() == body@.len(),
        metadata@.len() > body@.len() ==> once@ == body@,
        forall|i: int|
            0 <= i < body@.len() - metadata@.len() ==> #[trigger] once@[i] == body@[i],
        forall|i: int|
            0 <= i < metadata@.len() <= body@.len() ==> (#[trigger] metadata@[i]) == once@[
                body@.len() - metadata@.len() + i
            ] ^ body@[body@.len() - metadata@.len() + i],
{
    if metadata@.len() <= body@.len() {
        law_metadata_reads_back(body@, metadata@);
    }
}

/// A probe is a TLS record of application data whose length is that of its
/// body. Its last bytes, with the random ones taken off, say the version, the
/// time and the two ports; all before them is random.
pub proof fn law_probe_tells_time_and_ports(
    sender: SocketAddress,
    target: SocketAddress,
    body: Vec<u8>,
    nonce: &[u8],
    timestamp: u32,
    r: Vec<u8>,
)
    requires
        26 <= body@.len() <= 65535,
        nonce@.len() == 16,
        call_ensures(probe_payload, (&sender, &target, body, nonce, timestamp), r),
    ensures
        r@.len() == 5 + body@.len(),
        r@[0] == 0x17 && r@[1] == 3 && r@[2] == 3,
        crate::wire::u16_at(r@, 3) == body@.len(),
        ({
            let n = body@.len();
            let said = Seq::new(26, |i: int| r@[5 + n - 26 + i] ^ body@[n - 26 + i]);
            &&& forall|i: int| 0 <= i < n - 26 ==> #[trigger] r@[5 + i] == body@[i]
            &&& said[0] == 1 && said[1] == 0
            &&& crate::wire::u16_at(said, 2) * 65536 + crate::wire::u16_at(said, 4) == timestamp
            &&& crate::wire::u16_at(said, 6) == sender.port
            &&& crate::wire::u16_at(said, 8) == target.port
        }),
{
    let m = metadata_bytes(timestamp, sender, target, nonce@);
    let n = body@.len();
    assert(be32(timestamp).len() == 4);
    assert(m.len() == 26);
    let mixed = mixed_into(body@, m);
    assert(r@ == probe_bytes(mixed));
    assert(r@.subrange(5, 5 + n as int) =~= mixed);
    assert(r@[3] == be16(n as u16)[0] && r@[4] == be16(n as u16)[1]);
    assert forall|i: int| 0 <= i < n - 26 implies #[trigger] r@[5 + i] == body@[i] by {
        assert(r@.subrange(5, 5 + n as int)[i] == mixed[i]);
    }
    law_metadata_reads_back(body@, m);
    let said = Seq::new(26, |i: int| r@[5 + n - 26 + i] ^ body@[n - 26 + i]);
    assert forall|i: int| 0 <= i < 26 implies #[trigger] said[i] == m[i] by {
        assert(r@.subrange(5, 5 + n as int)[n - 26 + i] == mixed[n - 26 + i]);
        assert(m[i] == mixed[n - 26 + i] ^ body@[n - 26 + i]);
    }
    assert(said =~= m);
    let high = (timestamp / 65536) as u16;
    let low = (timestamp % 65536) as u16;
    assert(m[2] == be16(high)[0] && m[3] == be16(high)[1]);
    assert(m[4] == be16(low)[0] && m[5] == be16(low)[1]);
    assert(m[6] == be16(sender.port)[0] && m[7] == be16(sender.port)[1]);
    assert(m[8] == be16(target.port)[0] && m[9] == be16(target.port)[1]);
}

/// A probe is sent six times, a fifth of a second apart.
pub proof fn law_six_probes_are_sent(sent: usize, r: Option<u64>)
    requires
        call_ensures(next_probe, (sent,), r),
    ensures
        r is Some <==> sent < 6,
        r matches Some(ms) ==> ms == 200,
{
}

} // verus!
