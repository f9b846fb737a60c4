use vstd::prelude::*;

verus! {

/// UDP port of the Art-Net protocol.
pub const ARTNET_PORT: u16 = 6454;

/// Index one past the last non-zero byte of `data`, 0 when every byte is zero.
pub open spec fn last_nonzero(data: Seq<u8>) -> nat
    decreases data.len(),
{
    if data.len() == 0 {
        0
    } else if data.last() != 0 {
        data.len()
    } else {
        last_nonzero(data.drop_last())
    }
}

/// The data length that an ArtDmx packet carries for the universe `data`.
pub open spec fn dmx_length_of(data: Seq<u8>) -> nat {
    let last = last_nonzero(data);
    if last == 0 {
        512
    } else {
        let l = if last < 2 { 2 } else { last };
        let even = if l % 2 == 1 { l + 1 } else { l };
        if even > 512 { 512 } else { even }
    }
}

proof fn lemma_last_nonzero_le(data: Seq<u8>)
    ensures
        last_nonzero(data) <= data.len(),
    decreases data.len(),
{
    if data.len() > 0 && data.last() == 0 {
        lemma_last_nonzero_le(data.drop_last());
    }
}

pub fn compute_dmx_length(data: &[u8; 512]) -> (r: u16)
    ensures
        r as nat == dmx_length_of(data@),
{
    let mut last: usize = 0;
    let mut i: usize = 0;
    while i < 512
        invariant
            0 <= i <= 512,
            data@.len() == 512,
            last as nat == last_nonzero(data@.take(i as int)),
            last <= i,
        decreases 512 - i,
    {
        proof {
            assert(data@.take(i as int + 1).drop_last() =~= data@.take(i as int));
        }
        if data[i] != 0 {
            last = i + 1;
        } else {
            proof { lemma_last_nonzero_le(data@.take(i as int)); }
        }
        i = i + 1;
    }
    assert(data@.take(512) =~= data@);
    let mut len: u16 = if last == 0 {
        512
    } else if last < 2 {
        2
    } else {
        last as u16
    };
    if len % 2 == 1 {
        len = len + 1;
    }
    if len > 512 {
        512
    } else {
        len
    }
}


/// Where the receiver listens.
#[derive(Debug, Clone)]
pub struct ReceiverConfig {
    pub bind_ip: String,
    pub port: u16,
}

impl Default for ReceiverConfig {
    fn default() -> (r: Self)
        ensures
            r.bind_ip@ == "0.0.0.0"@,
            r.port == ARTNET_PORT,
    {
        ReceiverConfig { bind_ip: "0.0.0.0".to_owned(), port: ARTNET_PORT }
    }
}

/// Where and how the sender transmits; `net` is 0..=127, `subnet` and
/// `universe` 0..=15, wider values are masked on the wire.
#[derive(Debug, Clone)]
pub struct SenderConfig {
    pub target_ip: String,
    pub port: u16,
    pub net: u8,
    pub subnet: u8,
    pub universe: u8,
    pub fps: u32,
}

impl Default for SenderConfig {
    fn default() -> (r: Self)
        ensures
            r.target_ip@ == "255.255.255.255"@,
            r.port == ARTNET_PORT,
            r.net == 0,
            r.subnet == 0,
            r.universe == 0,
            r.fps == 44,
    {
        SenderConfig {
            target_ip: "255.255.255.255".to_owned(),
            port: ARTNET_PORT,
            net: 0,
            subnet: 0,
            universe: 0,
            fps: 44,
        }
    }
}

/// One decoded ArtDmx frame; `values` holds exactly `length` bytes.
#[derive(Debug, Clone)]
pub struct DmxFrame {
    pub net: u8,
    pub subnet: u8,
    pub universe: u8,
    pub length: u16,
    pub sequence: u8,
    pub physical: u8,
    pub values: Vec<u8>,
}

/// Why a datagram is not an ArtDmx frame.
#[derive(Debug, Clone, Copy, PartialEq, Eq, Structural)]
pub enum DecodeError {
    ShortPacket,
    NotArtNet,
    UnsupportedOp,
    LengthMismatch,
}

/// The eight bytes `Art-Net\0` that open every packet.
pub open spec fn artnet_id() -> Seq<u8> {
    seq![65u8, 114u8, 116u8, 45u8, 78u8, 101u8, 116u8, 0u8]
}

/// The SubUni byte: subnet in the high nibble, universe in the low one.
pub open spec fn sub_uni(subnet: u8, universe: u8) -> u8 {
    (((subnet & 0x0f) << 4u8) | (universe & 0x0f)) as u8
}

/// The ArtDmx packet for `data` under the address of `cfg`.
pub open spec fn artdmx_packet(cfg: SenderConfig, data: Seq<u8>, sequence: u8) -> Seq<u8> {
    let len = dmx_length_of(data);
    artnet_id() + seq![
        0x00u8,
        0x50u8,
        0u8,
        14u8,
        sequence,
        0u8,
        sub_uni(cfg.subnet, cfg.universe),
        cfg.net & 0x7f,
        (len / 256) as u8,
        (len % 256) as u8,
    ] + data.take(len as int)
}

/// Big-endian 16-bit value at `pos`.
pub open spec fn be_u16_at(b: Seq<u8>, pos: int) -> nat {
    b[pos] as nat * 256 + b[pos + 1] as nat
}

/// Little-endian 16-bit value at `pos`.
pub open spec fn le_u16_at(b: Seq<u8>, pos: int) -> nat {
    b[pos] as nat + b[pos + 1] as nat * 256
}

/// The error that decoding `b` gives, if any.
pub open spec fn decode_error(b: Seq<u8>) -> Option<DecodeError> {
    if b.len() < 18 {
        Some(DecodeError::ShortPacket)
    } else if b.take(8) != artnet_id() {
        Some(DecodeError::NotArtNet)
    } else if le_u16_at(b, 8) != 0x5000 {
        Some(DecodeError::UnsupportedOp)
    } else if b.len() < 18 + be_u16_at(b, 16) {
        Some(DecodeError::LengthMismatch)
    } else {
        None
    }
}

/// `f` is the frame that the packet `b` carries.
pub open spec fn decodes_to(b: Seq<u8>, f: DmxFrame) -> bool {
    let len = be_u16_at(b, 16);
    &&& f.sequence == b[12]
    &&& f.physical == b[13]
    &&& f.subnet == (b[14] >> 4u8) & 0x0f
    &&& f.universe == b[14] & 0x0f
    &&& f.net == b[15]
    &&& f.length as nat == len
    &&& f.values@ == b.subrange(18, 18 + len as int)
}

pub fn encode_artdmx(cfg: &SenderConfig, data: &[u8; 512], sequence: u8) -> (pkt: Vec<u8>)
    ensures
        pkt@ == artdmx_packet(*cfg, data@, sequence),
{
    let length = compute_dmx_length(data);
    let mut pkt: Vec<u8> = Vec::new();
    pkt.push(65u8);
    pkt.push(114u8);
    pkt.push(116u8);
    pkt.push(45u8);
    pkt.push(78u8);
    pkt.push(101u8);
    pkt.push(116u8);
    pkt.push(0u8);
    pkt.push(0x00u8);
    pkt.push(0x50u8);
    pkt.push(0u8);
    pkt.push(14u8);
    pkt.push(sequence);
    pkt.push(0u8);
    let sub = cfg.subnet & 0x0f;
    let uni = cfg.universe & 0x0f;
    pkt.push((sub << 4u8) | uni);
    pkt.push(cfg.net & 0x7f);
    pkt.push((length / 256) as u8);
    pkt.push((length % 256) as u8);
    let ghost head = pkt@;
    let n = length as usize;
    let mut i: usize = 0;
    while i < n
        invariant
            n <= 512,
            data@.len() == 512,
            i <= n,
            head.len() == 18,
            pkt@ == head + data@.take(i as int),
        decreases n - i,
    {
        pkt.push(data[i]);
        proof {
            assert(data@.take(i as int + 1) =~= data@.take(i as int).push(data@[i as int]));
        }
        i = i + 1;
    }
    assert(pkt@ =~= artdmx_packet(*cfg, data@, sequence));
    pkt
}

pub fn parse_artdmx(buf: &[u8]) -> (r: Result<DmxFrame, DecodeError>)
    ensures
        match r {
            Ok(f) => decode_error(buf@).is_none() && decodes_to(buf@, f),
            Err(e) => decode_error(buf@) == Some(e),
        },
{
    if buf.len() < 18 {
        return Err(DecodeError::ShortPacket);
    }
    let id: [u8; 8] = [65u8, 114u8, 116u8, 45u8, 78u8, 101u8, 116u8, 0u8];
    let mut k: usize = 0;
    while k < 8
        invariant
            k <= 8,
            buf@.len() >= 18,
            id@ == artnet_id(),
            forall|j: int| 0 <= j < k ==> buf@[j] == artnet_id()[j],
        decreases 8 - k,
    {
        if buf[k] != id[k] {
            assert(buf@.take(8)[k as int] != artnet_id()[k as int]);
            return Err(DecodeError::NotArtNet);
        }
        k = k + 1;
    }
    assert(buf@.take(8) =~= artnet_id());
    let op = buf[8] as u16 + buf[9] as u16 * 256;
    if op != 0x5000 {
        return Err(DecodeError::UnsupportedOp);
    }
    let len = buf[16] as usize * 256 + buf[17] as usize;
    if buf.len() < 18 + len {
        return Err(DecodeError::LengthMismatch);
    }
    let mut values: Vec<u8> = Vec::new();
    let mut i: usize = 0;
    while i < len
        invariant
            i <= len,
            18 + len <= buf@.len(),
            buf@.len() <= usize::MAX,
            values@ == buf@.subrange(18, 18 + i),
        decreases len - i,
    {
        values.push(buf[18 + i]);
        proof {
            assert(buf@.subrange(18, 18 + i + 1) =~= buf@.subrange(18, 18 + i).push(buf@[18 + i]));
        }
        i = i + 1;
    }
    let subuni = buf[14];
    Ok(DmxFrame {
        net: buf[15],
        subnet: (subuni >> 4u8) & 0x0f,
        universe: subuni & 0x0f,
        length: len as u16,
        sequence: buf[12],
        physical: buf[13],
        values,
    })
}

/// The data length of any 512-channel universe is even and lies in `2..=512`.
pub proof fn lemma_dmx_length_bounds(data: Seq<u8>)
    requires
        data.len() == 512,
    ensures
        dmx_length_of(data) % 2 == 0,
        2 <= dmx_length_of(data) <= 512,
{
    lemma_last_nonzero_le(data);
}

/// An all-zero universe is sent whole: its data length is 512.
pub proof fn lemma_zero_frame_length(data: Seq<u8>)
    requires
        data.len() == 512,
        forall|i: int| 0 <= i < data.len() ==> data[i] == 0,
    ensures
        dmx_length_of(data) == 512,
{
    lemma_last_nonzero_zero(data);
}

proof fn lemma_last_nonzero_zero(data: Seq<u8>)
    requires
        forall|i: int| 0 <= i < data.len() ==> data[i] == 0,
    ensures
        last_nonzero(data) == 0,
    decreases data.len(),
{
    if data.len() > 0 {
        lemma_last_nonzero_zero(data.drop_last());
    }
}

/// Decoding an encoded universe gives back the first `length` channels, an
/// even `length` in `2..=512`, and the sender's address masked to the widths
/// of the wire fields.
pub proof fn lemma_round_trip(cfg: SenderConfig, data: Seq<u8>, sequence: u8, f: DmxFrame)
    requires
        data.len() == 512,
        decodes_to(artdmx_packet(cfg, data, sequence), f),
    ensures
        decode_error(artdmx_packet(cfg, data, sequence)).is_none(),
        f.length as nat == dmx_length_of(data),
        f.length % 2 == 0,
        2 <= f.length <= 512,
        f.values@ == data.take(f.length as int),
        f.net == cfg.net & 0x7f,
        f.subnet == cfg.subnet & 0x0f,
        f.universe == cfg.universe & 0x0f,
        f.sequence == sequence,
{
    let p = artdmx_packet(cfg, data, sequence);
    let len = dmx_length_of(data);
    lemma_dmx_length_bounds(data);
    assert(p.take(8) =~= artnet_id());
    let s = cfg.subnet;
    let u = cfg.universe;
    assert(((((s & 0x0f) << 4u8) | (u & 0x0f)) >> 4u8) & 0x0f == s & 0x0f) by (bit_vector);
    assert((((s & 0x0f) << 4u8) | (u & 0x0f)) & 0x0f == u & 0x0f) by (bit_vector);
    assert(be_u16_at(p, 16) == len);
    assert(p.subrange(18, 18 + len as int) =~= data.take(len as int));
}

/// Milliseconds between transmissions at `fps` frames a second:
/// `1000 / max(fps, 1)` rounded half up, at least 1.
pub open spec fn interval_ms_of(fps: u32) -> nat {
    let f: nat = if fps == 0 { 1 } else { fps as nat };
    let r = (2000 + f) / (2 * f);
    if r == 0 { 1 } else { r }
}

pub fn sender_interval_ms(fps: u32) -> (r: u64)
    ensures
        r as nat == interval_ms_of(fps),
        r >= 1,
{
    let f: u64 = if fps == 0 { 1 } else { fps as u64 };
    let r = (2000 + f) / (2 * f);
    if r == 0 { 1 } else { r }
}

impl SenderConfig {
    /// This configuration with another destination universe.
    pub fn with_address(&self, net: u8, subnet: u8, universe: u8) -> (r: SenderConfig)
        ensures
            r.target_ip@ == self.target_ip@,
            r.port == self.port,
            r.fps == self.fps,
            r.net == net,
            r.subnet == subnet,
            r.universe == universe,
    {
        SenderConfig { target_ip: self.target_ip.clone(), port: self.port, net, subnet, universe, fps: self.fps }
    }
}

} // verus!
