use artnet_engine::live::{animation_frame, apply_master_scaling, ConfigError, LiveBuffer};

#[test]
fn sequence_wraps_after_256_steps() {
    let mut live = LiveBuffer::new();
    let start = live.sequence;
    let mut seen = Vec::new();
    for _ in 0..256 {
        seen.push(live.next_sequence());
    }
    assert_eq!(live.sequence, start);
    assert_eq!(seen[0], 1);
    assert_eq!(seen[254], 255);
    assert_eq!(seen[255], 0);
}

#[test]
fn set_channel_ignores_out_of_range() {
    let mut live = LiveBuffer::new();
    live.set_channel(0, 200);
    live.set_channel(511, 7);
    live.set_channel(512, 9);
    let snap = live.snapshot();
    assert_eq!(snap[0], 200);
    assert_eq!(snap[511], 7);
    assert_eq!(snap.iter().map(|v| *v as u32).sum::<u32>(), 207);
}

#[test]
fn set_channels_requires_a_full_universe() {
    let mut live = LiveBuffer::new();
    assert_eq!(live.set_channels(&[1u8; 511]), Err(ConfigError::WrongChannelCount));
    assert_eq!(live.snapshot(), [0u8; 512]);
    assert_eq!(live.set_channels(&[4u8; 512]), Ok(()));
    assert_eq!(live.snapshot(), [4u8; 512]);
}

#[test]
fn master_scaling() {
    let mut v = [0u8; 512];
    v[0] = 255;
    v[1] = 128;
    v[2] = 1;
    let s = apply_master_scaling(&v, 128);
    assert_eq!(s[0], 128);
    assert_eq!(s[1], 64);
    assert_eq!(s[2], 0);
    let full = apply_master_scaling(&v, 255);
    assert_eq!(full, v);
}

#[test]
fn animation_frame_is_flat() {
    let f = animation_frame(128, 255);
    assert!(f.iter().all(|v| *v == 128));
    let g = animation_frame(255, 100);
    assert!(g.iter().all(|v| *v == 100));
}
