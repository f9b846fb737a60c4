use artnet_engine::codec::{
    compute_dmx_length, encode_artdmx, parse_artdmx, sender_interval_ms, DecodeError, ReceiverConfig, SenderConfig,
    ARTNET_PORT,
};

fn cfg(net: u8, subnet: u8, universe: u8) -> SenderConfig {
    let mut c = SenderConfig::default();
    c.net = net;
    c.subnet = subnet;
    c.universe = universe;
    c
}

#[test]
fn defaults_match_the_protocol() {
    let r = ReceiverConfig::default();
    assert_eq!(r.bind_ip, "0.0.0.0");
    assert_eq!(r.port, 6454);
    let s = SenderConfig::default();
    assert_eq!(s.target_ip, "255.255.255.255");
    assert_eq!(s.port, ARTNET_PORT);
    assert_eq!((s.net, s.subnet, s.universe, s.fps), (0, 0, 0, 44));
}

#[test]
fn zero_frame_is_sent_whole() {
    let data = [0u8; 512];
    assert_eq!(compute_dmx_length(&data), 512);
    let pkt = encode_artdmx(&cfg(0, 0, 0), &data, 1);
    assert_eq!(pkt.len(), 18 + 512);
    assert_eq!(&pkt[16..18], &[2u8, 0u8]);
}

#[test]
fn length_is_trimmed_and_even() {
    let mut data = [0u8; 512];
    data[0] = 9;
    assert_eq!(compute_dmx_length(&data), 2);
    data[2] = 1;
    assert_eq!(compute_dmx_length(&data), 4);
    data[9] = 1;
    assert_eq!(compute_dmx_length(&data), 10);
    data[510] = 1;
    assert_eq!(compute_dmx_length(&data), 512);
    let mut last = [0u8; 512];
    last[511] = 7;
    assert_eq!(compute_dmx_length(&last), 512);
}

#[test]
fn length_parity_and_bounds_over_many_buffers() {
    for pos in 0..512usize {
        let mut data = [0u8; 512];
        data[pos] = 1;
        let len = compute_dmx_length(&data);
        assert_eq!(len % 2, 0);
        assert!(len >= 2 && len <= 512);
        assert!(len as usize > pos);
    }
}

#[test]
fn packet_layout() {
    let mut data = [0u8; 512];
    data[0] = 200;
    data[1] = 5;
    let pkt = encode_artdmx(&cfg(0x85, 0x12, 0x1f), &data, 42);
    assert_eq!(&pkt[0..8], b"Art-Net\0");
    assert_eq!(&pkt[8..10], &[0x00, 0x50]);
    assert_eq!(&pkt[10..12], &[0, 14]);
    assert_eq!(pkt[12], 42);
    assert_eq!(pkt[13], 0);
    assert_eq!(pkt[14], 0x2f);
    assert_eq!(pkt[15], 0x05);
    assert_eq!(&pkt[16..18], &[0, 2]);
    assert_eq!(&pkt[18..], &[200, 5]);
}

#[test]
fn round_trip_masks_the_address() {
    let mut data = [0u8; 512];
    for i in 0..300 {
        data[i] = (i % 251) as u8 + 1;
    }
    let pkt = encode_artdmx(&cfg(200, 18, 33), &data, 9);
    let f = parse_artdmx(&pkt).unwrap();
    assert_eq!(f.length, 300);
    assert_eq!(f.values, data[..300].to_vec());
    assert_eq!((f.net, f.subnet, f.universe), (200 & 0x7f, 18 & 0x0f, 33 & 0x0f));
    assert_eq!(f.sequence, 9);
    assert_eq!(f.physical, 0);
}

#[test]
fn loopback_frame_carries_first_and_last_channel() {
    let mut data = [0u8; 512];
    data[0] = 200;
    data[511] = 7;
    let pkt = encode_artdmx(&cfg(1, 2, 3), &data, 1);
    let f = parse_artdmx(&pkt).unwrap();
    assert_eq!((f.net, f.subnet, f.universe), (1, 2, 3));
    assert_eq!(f.length, 512);
    assert_eq!(f.values[0], 200);
    assert_eq!(f.values[511], 7);
}

#[test]
fn decode_errors() {
    assert_eq!(parse_artdmx(&[0u8; 17]).unwrap_err(), DecodeError::ShortPacket);
    let mut pkt = encode_artdmx(&cfg(0, 0, 0), &[1u8; 512], 0);
    pkt[3] = b'x';
    assert_eq!(parse_artdmx(&pkt).unwrap_err(), DecodeError::NotArtNet);
    let mut pkt = encode_artdmx(&cfg(0, 0, 0), &[1u8; 512], 0);
    pkt[9] = 0x20;
    assert_eq!(parse_artdmx(&pkt).unwrap_err(), DecodeError::UnsupportedOp);
    let pkt = encode_artdmx(&cfg(0, 0, 0), &[1u8; 512], 0);
    assert_eq!(parse_artdmx(&pkt[..100]).unwrap_err(), DecodeError::LengthMismatch);
}

#[test]
fn decode_ignores_protocol_version_and_trailing_bytes() {
    let mut pkt = encode_artdmx(&cfg(0, 0, 0), &[3u8; 512], 0);
    pkt[11] = 99;
    pkt.extend_from_slice(&[1, 2, 3]);
    let f = parse_artdmx(&pkt).unwrap();
    assert_eq!(f.values.len(), 512);
}

#[test]
fn sender_interval_rounds() {
    assert_eq!(sender_interval_ms(44), 23);
    assert_eq!(sender_interval_ms(10), 100);
    assert_eq!(sender_interval_ms(0), 1000);
    assert_eq!(sender_interval_ms(16), 63);
    assert_eq!(sender_interval_ms(3000), 1);
    assert_eq!(sender_interval_ms(u32::MAX), 1);
}

#[test]
fn with_address_keeps_the_destination() {
    let base = cfg(0, 0, 0);
    let c = base.with_address(4, 5, 6);
    assert_eq!((c.net, c.subnet, c.universe), (4, 5, 6));
    assert_eq!(c.target_ip, base.target_ip);
    assert_eq!(c.fps, base.fps);
}
