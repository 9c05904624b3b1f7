//! The SILK v3 file container: an optional Tencent prefix byte, the
//! `#!SILK_V3` magic, then packets, each a little-endian signed 16-bit
//! payload size followed by that many payload bytes. Files written
//! without the prefix end with the size -1.

use vstd::prelude::*;
use crate::pcm::{le_i16, spec_le_i16};

verus! {

/// First byte of a file in Tencent's layout.
pub const TENCENT_PREFIX: u8 = 0x02;

/// Reasons a SILK stream is refused.
#[derive(Clone, Copy, Debug, PartialEq, Eq)]
pub enum ContainerError {
    /// The magic is missing or wrong.
    InvalidHeader,
    /// A packet size with only one of its two bytes.
    TruncatedPacketSize,
    /// A packet whose payload is cut short.
    TruncatedPayload,
}

/// One step of reading packets.
#[derive(Clone, Copy, Debug, PartialEq, Eq)]
pub enum PacketRead {
    /// The stream ends here: no byte left, or a negative size.
    End,
    /// A packet whose payload is `size` bytes starting at `payload_start`.
    Packet { payload_start: usize, size: usize },
}

/// `#!SILK_V3`.
pub open spec fn spec_silk_magic() -> Seq<u8> {
    seq![0x23u8, 0x21, 0x53, 0x49, 0x4c, 0x4b, 0x5f, 0x56, 0x33]
}

/// The header a file starts with, with or without the Tencent prefix.
pub open spec fn spec_silk_header(tencent: bool) -> Seq<u8> {
    if tencent {
        seq![TENCENT_PREFIX] + spec_silk_magic()
    } else {
        spec_silk_magic()
    }
}

/// Where the packets of a SILK stream begin: after the magic, or after the
/// Tencent prefix and the magic.
pub open spec fn spec_check_silk_header(b: Seq<u8>) -> Result<usize, ContainerError> {
    if b.len() < 1 {
        Err(ContainerError::InvalidHeader)
    } else if b[0] == TENCENT_PREFIX {
        if b.len() >= 10 && b.subrange(1, 10) == spec_silk_magic() {
            Ok(10usize)
        } else {
            Err(ContainerError::InvalidHeader)
        }
    } else if b.len() >= 9 && b.subrange(0, 9) == spec_silk_magic() {
        Ok(9usize)
    } else {
        Err(ContainerError::InvalidHeader)
    }
}

/// The packet read at the start of `s`.
pub open spec fn spec_next_packet(s: Seq<u8>) -> Result<(bool, int), ContainerError> {
    if s.len() == 0 {
        Ok((false, 0))
    } else if s.len() == 1 {
        Err(ContainerError::TruncatedPacketSize)
    } else if spec_le_i16(s[0], s[1]) < 0 {
        Ok((false, 0))
    } else if s.len() - 2 < spec_le_i16(s[0], s[1]) {
        Err(ContainerError::TruncatedPayload)
    } else {
        Ok((true, spec_le_i16(s[0], s[1]) as int))
    }
}

/// All packet payloads read from the start of `s` up to the end marker or
/// the end of the stream.
pub open spec fn spec_read_packets(s: Seq<u8>) -> Result<Seq<Seq<u8>>, ContainerError>
    decreases s.len(),
{
    match spec_next_packet(s) {
        Err(e) => Err(e),
        Ok((more, size)) => if !more || size < 0 {
            Ok(Seq::empty())
        } else {
            match spec_read_packets(s.skip(2 + size)) {
                Err(e) => Err(e),
                Ok(rest) => Ok(seq![s.subrange(2, 2 + size)] + rest),
            }
        },
    }
}

/// All packet payloads of a SILK stream.
pub open spec fn spec_read_silk(b: Seq<u8>) -> Result<Seq<Seq<u8>>, ContainerError> {
    match spec_check_silk_header(b) {
        Err(e) => Err(e),
        Ok(start) => spec_read_packets(b.skip(start as int)),
    }
}

/// The bytes of a packet size.
pub open spec fn spec_size_bytes(n: i16) -> Seq<u8> {
    let u = if n < 0 {
        n + 65536
    } else {
        n as int
    };
    seq![(u % 256) as u8, (u / 256) as u8]
}

/// The record written for a packet of size `n`: the size, then the first
/// `n` payload bytes when `n` is positive.
pub open spec fn spec_packet_bytes(n: i16, payload: Seq<u8>) -> Seq<u8> {
    if n > 0 {
        spec_size_bytes(n) + payload.take(n as int)
    } else {
        spec_size_bytes(n)
    }
}

/// The end marker: size -1 without the Tencent prefix, nothing with it.
pub open spec fn spec_end_marker(tencent: bool) -> Seq<u8> {
    if tencent {
        Seq::empty()
    } else {
        spec_size_bytes(-1i16)
    }
}

/// The records of a list of packets, one after the other.
pub open spec fn spec_packets_bytes(packets: Seq<Seq<u8>>) -> Seq<u8>
    decreases packets.len(),
{
    if packets.len() == 0 {
        Seq::empty()
    } else {
        spec_packet_bytes(packets[0].len() as i16, packets[0]) + spec_packets_bytes(
            packets.drop_first(),
        )
    }
}

/// A whole SILK file holding `packets`.
pub open spec fn spec_silk_file(tencent: bool, packets: Seq<Seq<u8>>) -> Seq<u8> {
    spec_silk_header(tencent) + spec_packets_bytes(packets) + spec_end_marker(tencent)
}

/// The header written at the start of a file.
pub fn silk_header(tencent: bool) -> (out: Vec<u8>)
    ensures
        out@ == spec_silk_header(tencent),
        out@.len() == if tencent {
            10nat
        } else {
            9nat
        },
        (out@[0] == TENCENT_PREFIX) == tencent,
        spec_check_silk_header(out@) == Ok::<usize, ContainerError>(out@.len() as usize),
{
    let mut out: Vec<u8> = Vec::new();
    if tencent {
        out.push(TENCENT_PREFIX);
    }
    out.push(0x23);
    out.push(0x21);
    out.push(0x53);
    out.push(0x49);
    out.push(0x4c);
    out.push(0x4b);
    out.push(0x5f);
    out.push(0x56);
    out.push(0x33);
    assert(out@ =~= spec_silk_header(tencent));
    if tencent {
        assert(out@.subrange(1, 10) =~= spec_silk_magic());
    } else {
        assert(out@.subrange(0, 9) =~= spec_silk_magic());
    }
    out
}

fn magic_matches(b: &[u8], from: usize) -> (r: bool)
    requires
        from + 9 <= b@.len(),
    ensures
        r == (b@.subrange(from as int, from + 9) == spec_silk_magic()),
{
    let magic: [u8; 9] = [0x23, 0x21, 0x53, 0x49, 0x4c, 0x4b, 0x5f, 0x56, 0x33];
    assert(magic@ =~= spec_silk_magic());
    let len = b.len();
    let ghost x = b@.subrange(from as int, from + 9);
    let mut i: usize = 0;
    while i < 9
        invariant
            from + 9 <= b@.len(),
            len == b@.len(),
            i <= 9,
            magic@ == spec_silk_magic(),
            x == b@.subrange(from as int, from + 9),
            forall|j: int| 0 <= j < i ==> #[trigger] x[j] == magic@[j],
        decreases 9 - i,
    {
        assert(x[i as int] == b@[from + i]);
        if b[from + i] != magic[i] {
            assert(x[i as int] != spec_silk_magic()[i as int]);
            return false;
        }
        i = i + 1;
    }
    assert(x =~= spec_silk_magic());
    true
}

/// Checks the header of a SILK stream: where its packets begin.
pub fn check_silk_header(bytes: &[u8]) -> (r: Result<usize, ContainerError>)
    ensures
        r == spec_check_silk_header(bytes@),
{
    let len = bytes.len();
    if len < 1 {
        return Err(ContainerError::InvalidHeader);
    }
    if bytes[0] == TENCENT_PREFIX {
        if len >= 10 && magic_matches(bytes, 1) {
            Ok(10)
        } else {
            Err(ContainerError::InvalidHeader)
        }
    } else if len >= 9 && magic_matches(bytes, 0) {
        Ok(9)
    } else {
        Err(ContainerError::InvalidHeader)
    }
}

/// Reads the packet that starts at `pos`. The two size bytes are read as
/// one word wherever they fall in the stream: a valid file whose size word
/// straddles the first twelve bytes (one without the Tencent prefix whose
/// first packet is empty) decodes like any other. This is deliberate: the
/// tool is to decode SILK v3 files, and a reader that returned only part of
/// the word at that boundary would report such a file as a truncated size.
pub fn next_packet(bytes: &[u8], pos: usize) -> (r: Result<PacketRead, ContainerError>)
    requires
        pos <= bytes@.len(),
    ensures
        match spec_next_packet(bytes@.skip(pos as int)) {
            Err(e) => r == Err::<PacketRead, ContainerError>(e),
            Ok((more, size)) => if more {
                r == Ok::<PacketRead, ContainerError>(
                    PacketRead::Packet { payload_start: (pos + 2) as usize, size: size as usize },
                )
            } else {
                r == Ok::<PacketRead, ContainerError>(PacketRead::End)
            },
        },
        r matches Ok(PacketRead::Packet { payload_start, size }) ==> payload_start + size
            <= bytes@.len(),
{
    let len = bytes.len();
    let remaining = len - pos;
    let ghost s = bytes@.skip(pos as int);
    if remaining == 0 {
        return Ok(PacketRead::End);
    }
    if remaining == 1 {
        return Err(ContainerError::TruncatedPacketSize);
    }
    assert(s[0] == bytes@[pos as int] && s[1] == bytes@[pos + 1]);
    let n = le_i16(bytes[pos], bytes[pos + 1]);
    if n < 0 {
        return Ok(PacketRead::End);
    }
    if remaining - 2 < n as usize {
        return Err(ContainerError::TruncatedPayload);
    }
    Ok(PacketRead::Packet { payload_start: pos + 2, size: n as usize })
}

/// The record written for a packet whose encoder reported `n_bytes` bytes.
pub fn packet_bytes(n_bytes: i16, payload: &[u8]) -> (out: Vec<u8>)
    requires
        n_bytes <= payload@.len(),
    ensures
        out@ == spec_packet_bytes(n_bytes, payload@),
{
    let u: u32 = if n_bytes < 0 {
        (n_bytes as i32 + 65536) as u32
    } else {
        n_bytes as u32
    };
    let mut out: Vec<u8> = Vec::new();
    out.push((u % 256) as u8);
    out.push((u / 256) as u8);
    assert(out@ =~= spec_size_bytes(n_bytes));
    if n_bytes > 0 {
        let n = n_bytes as usize;
        let mut i: usize = 0;
        while i < n
            invariant
                n == n_bytes,
                n <= payload@.len(),
                i <= n,
                out@ =~= spec_size_bytes(n_bytes) + payload@.take(i as int),
            decreases n - i,
        {
            out.push(payload[i]);
            i = i + 1;
            assert(payload@.take(i as int) =~= payload@.take(i - 1).push(payload@[i - 1]));
        }
    }
    out
}

/// The end marker written after the last packet.
pub fn end_marker(tencent: bool) -> (out: Vec<u8>)
    ensures
        out@ == spec_end_marker(tencent),
        tencent ==> out@.len() == 0,
        !tencent ==> out@ == seq![0xffu8, 0xff],
        spec_next_packet(out@) == Ok::<(bool, int), ContainerError>((false, 0)),
{
    let mut out: Vec<u8> = Vec::new();
    if !tencent {
        out.push(0xff);
        out.push(0xff);
    }
    assert(out@ =~= spec_end_marker(tencent));
    out
}


/// Whether every payload fits the signed 16-bit size field.
pub open spec fn spec_payloads_fit(packets: Seq<Seq<u8>>) -> bool {
    forall|i: int| 0 <= i < packets.len() ==> #[trigger] packets[i].len() <= i16::MAX
}

/// Reading back the size bytes of a non-negative size gives the size.
pub proof fn lemma_size_bytes_roundtrip(n: i16)
    ensures
        spec_le_i16(spec_size_bytes(n)[0], spec_size_bytes(n)[1]) == n,
{
}

/// Reading the records of `packets` followed by the end marker gives back
/// `packets`.
pub proof fn lemma_read_packets_roundtrip(tencent: bool, packets: Seq<Seq<u8>>)
    requires
        spec_payloads_fit(packets),
    ensures
        spec_read_packets(spec_packets_bytes(packets) + spec_end_marker(tencent)) == Ok::<
            Seq<Seq<u8>>,
            ContainerError,
        >(packets),
    decreases packets.len(),
{
    let s = spec_packets_bytes(packets) + spec_end_marker(tencent);
    if packets.len() == 0 {
        assert(s =~= spec_end_marker(tencent));
        if !tencent {
            lemma_size_bytes_roundtrip(-1i16);
        }
        assert(packets =~= Seq::<Seq<u8>>::empty());
    } else {
        let p0 = packets[0];
        let rest = packets.drop_first();
        let n = p0.len() as i16;
        assert(p0.len() <= i16::MAX);
        assert(spec_payloads_fit(rest)) by {
            assert forall|i: int| 0 <= i < rest.len() implies #[trigger] rest[i].len()
                <= i16::MAX by {
                assert(rest[i] == packets[i + 1]);
            }
        }
        lemma_read_packets_roundtrip(tencent, rest);
        lemma_size_bytes_roundtrip(n);
        let tail = spec_packets_bytes(rest) + spec_end_marker(tencent);
        let rec = spec_packet_bytes(n, p0);
        assert(rec =~= spec_size_bytes(n) + p0) by {
            if n > 0 {
                assert(p0.take(n as int) =~= p0);
            } else {
                assert(p0 =~= Seq::<u8>::empty());
            }
        }
        assert(s =~= rec + tail);
        assert(s[0] == spec_size_bytes(n)[0]);
        assert(s[1] == spec_size_bytes(n)[1]);
        assert(s.skip(2 + n) =~= tail);
        assert(s.subrange(2, 2 + n) =~= p0);
        assert(seq![p0] + rest =~= packets);
    }
}

/// A SILK file written with or without the Tencent prefix reads back as the
/// packets that were written into it.
pub proof fn lemma_silk_file_roundtrip(tencent: bool, packets: Seq<Seq<u8>>)
    requires
        spec_payloads_fit(packets),
    ensures
        spec_read_silk(spec_silk_file(tencent, packets)) == Ok::<Seq<Seq<u8>>, ContainerError>(
            packets,
        ),
{
    let b = spec_silk_file(tencent, packets);
    let h = spec_silk_header(tencent);
    let body = spec_packets_bytes(packets) + spec_end_marker(tencent);
    assert(b =~= h + body);
    if tencent {
        assert(b.subrange(1, 10) =~= spec_silk_magic());
        assert(spec_check_silk_header(b) == Ok::<usize, ContainerError>(10usize));
    } else {
        assert(b.subrange(0, 9) =~= spec_silk_magic());
        assert(spec_check_silk_header(b) == Ok::<usize, ContainerError>(9usize));
    }
    assert(b.skip(h.len() as int) =~= body);
    lemma_read_packets_roundtrip(tencent, packets);
}


/// The records written for packets whose codec reported sizes `sizes`
/// and payload buffers `payloads`, one after the other.
pub open spec fn spec_records(sizes: Seq<i16>, payloads: Seq<Seq<u8>>) -> Seq<u8>
    decreases sizes.len(),
{
    if sizes.len() == 0 || payloads.len() == 0 {
        Seq::empty()
    } else {
        spec_packet_bytes(sizes[0], payloads[0]) + spec_records(
            sizes.drop_first(),
            payloads.drop_first(),
        )
    }
}

/// The payloads those records carry: each buffer cut to its reported size.
pub open spec fn spec_sent_payloads(sizes: Seq<i16>, payloads: Seq<Seq<u8>>) -> Seq<Seq<u8>> {
    Seq::new(sizes.len(), |i: int| payloads[i].take(sizes[i] as int))
}

/// The records of reported sizes and buffers are the records of the cut
/// payloads.
pub proof fn lemma_records_are_packets(sizes: Seq<i16>, payloads: Seq<Seq<u8>>)
    requires
        sizes.len() == payloads.len(),
        forall|i: int| 0 <= i < sizes.len() ==> 0 <= #[trigger] sizes[i] <= payloads[i].len(),
    ensures
        spec_records(sizes, payloads) == spec_packets_bytes(spec_sent_payloads(sizes, payloads)),
        spec_payloads_fit(spec_sent_payloads(sizes, payloads)),
    decreases sizes.len(),
{
    let sent = spec_sent_payloads(sizes, payloads);
    assert(spec_payloads_fit(sent)) by {
        assert forall|i: int| 0 <= i < sent.len() implies #[trigger] sent[i].len() <= i16::MAX by {
            assert(0 <= sizes[i] <= payloads[i].len());
        }
    }
    if sizes.len() > 0 {
        let s1 = sizes.drop_first();
        let p1 = payloads.drop_first();
        assert forall|i: int| 0 <= i < s1.len() implies 0 <= #[trigger] s1[i] <= p1[i].len() by {
            assert(s1[i] == sizes[i + 1] && p1[i] == payloads[i + 1]);
        }
        lemma_records_are_packets(s1, p1);
        assert(sent.drop_first() =~= spec_sent_payloads(s1, p1));
        let n = sizes[0];
        let p0 = payloads[0];
        assert(0 <= n <= p0.len());
        assert(sent[0] == p0.take(n as int));
        assert(sent[0].len() as i16 == n);
        if n > 0 {
            assert(sent[0].take(n as int) =~= p0.take(n as int));
        }
        assert(spec_packet_bytes(n, p0) =~= spec_packet_bytes(sent[0].len() as i16, sent[0]));
    }
}

/// What the decoder reads is what the encoder wrote: a stream made of the
/// header, the records for the sizes the codec reported and their payload
/// buffers, and the end marker, reads back as the payloads cut to those
/// sizes, in order.
pub proof fn lemma_encoded_stream_reads_back(
    tencent: bool,
    sizes: Seq<i16>,
    payloads: Seq<Seq<u8>>,
)
    requires
        sizes.len() == payloads.len(),
        forall|i: int| 0 <= i < sizes.len() ==> 0 <= #[trigger] sizes[i] <= payloads[i].len(),
    ensures
        spec_read_silk(
            spec_silk_header(tencent) + spec_records(sizes, payloads) + spec_end_marker(tencent),
        ) == Ok::<Seq<Seq<u8>>, ContainerError>(spec_sent_payloads(sizes, payloads)),
{
    lemma_records_are_packets(sizes, payloads);
    lemma_silk_file_roundtrip(tencent, spec_sent_payloads(sizes, payloads));
}

} // verus!
