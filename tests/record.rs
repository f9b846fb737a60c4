use artnet_engine::codec::DmxFrame;
use artnet_engine::record::{
    channel_indices, channel_numbers_of, normalize_channels, RecordBuffer, RecordData, MAX_RECORD_FRAMES,
};

fn frame(values: Vec<u8>, addr: (u8, u8, u8)) -> DmxFrame {
    DmxFrame {
        net: addr.0,
        subnet: addr.1,
        universe: addr.2,
        length: values.len() as u16,
        sequence: 0,
        physical: 0,
        values,
    }
}

fn assert_aligned(b: &RecordBuffer) {
    let d = b.to_record_data();
    assert_eq!(d.addresses.len(), d.timestamps.len());
    assert_eq!(d.values.len(), d.channels.len());
    for c in &d.values {
        assert_eq!(c.len(), d.timestamps.len());
    }
}

#[test]
fn normalize_dedups_and_drops_out_of_range() {
    assert_eq!(normalize_channels(vec![3, 1, 3, 512, 0, 1, 600, 511]), vec![3, 1, 0, 511]);
    assert_eq!(normalize_channels(vec![]), Vec::<usize>::new());
}

#[test]
fn channel_number_conversions() {
    assert_eq!(channel_indices(&vec![1, 256, 0, 512]), vec![0, 255, 0, 511]);
    assert_eq!(channel_numbers_of(&vec![0, 255, 511]), vec![1, 256, 512]);
}

#[test]
fn append_projects_selected_channels() {
    let mut b = RecordBuffer::new(vec![0, 255, 3], true);
    b.append(&frame(vec![10, 11, 12, 13], (1, 2, 3)), 5);
    let d = b.to_record_data();
    assert_eq!(d.timestamps, vec![5]);
    assert_eq!(d.addresses, vec![(1, 2, 3)]);
    assert_eq!(d.values, vec![vec![10], vec![0], vec![13]]);
    assert_eq!(b.frame_count(), 1);
    assert_eq!(b.duration_ms(), 5);
    assert_eq!(b.last_address(), Some((1, 2, 3)));
}

#[test]
fn inactive_buffer_ignores_frames() {
    let mut b = RecordBuffer::new(vec![0], false);
    b.append(&frame(vec![1, 2], (0, 0, 0)), 1);
    assert_eq!(b.frame_count(), 0);
    assert_eq!(b.duration_ms(), 0);
    assert_eq!(b.last_address(), None);
}

#[test]
fn set_channels_keeps_and_zero_fills_columns() {
    let mut b = RecordBuffer::new(vec![0, 1], true);
    b.append(&frame(vec![10, 20], (0, 0, 0)), 1);
    b.append(&frame(vec![11, 21], (0, 0, 0)), 2);
    b.set_channels(vec![1, 7]);
    let d = b.to_record_data();
    assert_eq!(d.channels, vec![1, 7]);
    assert_eq!(d.values, vec![vec![20, 21], vec![0, 0]]);
    assert_eq!(d.timestamps, vec![1, 2]);
    assert_aligned(&b);
    b.append(&frame(vec![12, 22, 0, 0, 0, 0, 0, 9], (0, 0, 0)), 3);
    assert_aligned(&b);
    assert_eq!(b.to_record_data().values, vec![vec![20, 21, 22], vec![0, 0, 9]]);
}

#[test]
fn ring_cap_evicts_oldest() {
    let mut b = RecordBuffer::new(vec![0], true);
    let k = 3u64;
    for i in 0..(MAX_RECORD_FRAMES as u64 + k) {
        b.append(&frame(vec![(i % 256) as u8, 0], (0, 0, 0)), i);
    }
    assert_eq!(b.frame_count(), MAX_RECORD_FRAMES);
    let d = b.to_record_data();
    assert_eq!(d.timestamps[0], k);
    assert_eq!(d.values[0][0], (k % 256) as u8);
    assert_eq!(d.values[0].len(), MAX_RECORD_FRAMES);
    assert_eq!(*d.timestamps.last().unwrap(), MAX_RECORD_FRAMES as u64 + k - 1);
}

#[test]
fn buffered_record_and_preview() {
    let channels = normalize_channels(vec![0, 255]);
    let mut b = RecordBuffer::new(channels, true);
    let mut v = vec![0u8; 512];
    for i in 0..1000u64 {
        v[0] = (i % 256) as u8;
        v[255] = ((2 * i) % 256) as u8;
        b.append(&frame(v.clone(), (0, 0, 0)), i * 2);
    }
    let p = b.preview(0, 100).unwrap();
    assert_eq!(p.frame_count, 1000);
    assert_eq!(p.duration_ms, 1998);
    assert!(p.points.len() == 100 || p.points.len() == 101);
    assert_eq!(p.points[0].t_ms, 0);
    assert_eq!(p.points[1].t_ms, 20);
    assert_eq!(p.points[1].value, 10);
    assert_eq!(p.points.last().unwrap().t_ms, 1998);
    assert_eq!(p.points.last().unwrap().value, (999 % 256) as u8);
    let q = b.preview(255, 100).unwrap();
    assert_eq!(q.points[1].value, 20);
}

#[test]
fn preview_small_and_degenerate() {
    let mut b = RecordBuffer::new(vec![4], true);
    assert!(b.preview(5, 10).is_none());
    let empty = b.preview(4, 10).unwrap();
    assert!(empty.points.is_empty());
    for i in 0..7u64 {
        b.append(&frame(vec![0, 0, 0, 0, i as u8], (0, 0, 0)), 10 * i);
    }
    let all = b.preview(4, 7).unwrap();
    assert_eq!(all.points.len(), 7);
    for (i, p) in all.points.iter().enumerate() {
        assert_eq!(p.t_ms, 10 * i as u64);
        assert_eq!(p.value, i as u8);
    }
    let none = b.preview(4, 0).unwrap();
    assert!(none.points.is_empty());
    assert_eq!(none.frame_count, 7);
    assert_eq!(none.duration_ms, 60);
    let strided = b.preview(4, 3).unwrap();
    let ts: Vec<u64> = strided.points.iter().map(|p| p.t_ms).collect();
    assert_eq!(ts, vec![0, 30, 60]);
    let strided2 = b.preview(4, 4).unwrap();
    let ts2: Vec<u64> = strided2.points.iter().map(|p| p.t_ms).collect();
    assert_eq!(ts2, vec![0, 20, 40, 60]);
}

#[test]
fn record_data_accessors() {
    let d = RecordData {
        timestamps: vec![3, 9],
        addresses: vec![(0, 0, 1), (0, 1, 2)],
        channels: vec![0, 9],
        values: vec![vec![1, 2], vec![3, 4]],
    };
    assert_eq!(d.frame_count(), 2);
    assert_eq!(d.duration_ms(), 9);
    assert_eq!(d.channel_numbers(), vec![1, 10]);
    assert_eq!(d.last_address(), Some((0, 1, 2)));
    let b = RecordBuffer::from_data(d, false);
    assert_eq!(b.frame_count(), 2);
}
