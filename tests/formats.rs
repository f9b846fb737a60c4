use artnet_engine::jsonl::{jsonl_rows, record_from_jsonl, JsonlError, JsonlLine};
use artnet_engine::player::{frame_from_record, playback_delay, playback_numbers, wav_frame};
use artnet_engine::record::RecordData;
use artnet_engine::wav::{decode_wav, encode_wav, record_data_from_wav, wav_export, WavError, WavExportError, WavRecordingData};

fn header(channels: Option<Vec<Option<u64>>>) -> JsonlLine {
    JsonlLine {
        has_format: true,
        channels,
        channel: None,
        t_ms: None,
        net: None,
        subnet: None,
        universe: None,
        values: None,
    }
}

fn data_line(t: u64, addr: (u64, u64, u64), values: Vec<u64>) -> JsonlLine {
    JsonlLine {
        has_format: false,
        channels: None,
        channel: None,
        t_ms: Some(t),
        net: Some(addr.0),
        subnet: Some(addr.1),
        universe: Some(addr.2),
        values: Some(values.into_iter().map(Some).collect()),
    }
}

fn two_channel_recording() -> RecordData {
    let mut timestamps = Vec::new();
    let mut a = Vec::new();
    let mut b = Vec::new();
    for i in 0..50u64 {
        timestamps.push(1000 + i * 2000 / 49);
        a.push(i as u8);
        b.push(255 - i as u8);
    }
    RecordData {
        addresses: vec![(0, 0, 0); timestamps.len()],
        timestamps,
        channels: vec![0, 255],
        values: vec![a, b],
    }
}

#[test]
fn wav_export_and_import() {
    let data = two_channel_recording();
    let (rate, grid) = wav_export(&data).unwrap();
    assert_eq!(rate, 16);
    assert_eq!(grid.timestamps[0], 0);
    let bytes = encode_wav(rate, &grid);
    assert_eq!(bytes.len(), 44 + 100);
    let back = decode_wav(&bytes).unwrap();
    assert_eq!(back.channels, grid.channels);
    for (i, t) in back.timestamps.iter().enumerate() {
        assert_eq!(*t, i as u64 * 1000 / 16);
    }
    let loaded = record_data_from_wav(back);
    assert_eq!(loaded.channels, vec![0, 1]);
    assert_eq!(loaded.values.len(), 2);
    assert_eq!(loaded.addresses, vec![(0, 0, 0); 50]);
}

#[test]
fn wav_sample_rate_over_two_seconds() {
    let mut timestamps = Vec::new();
    for i in 0..50u64 {
        timestamps.push(i * 2000 / 49);
    }
    let data = RecordData {
        addresses: vec![(0, 0, 0); 50],
        channels: vec![0, 1],
        values: vec![vec![7; 50], vec![9; 50]],
        timestamps,
    };
    let (rate, grid) = wav_export(&data).unwrap();
    assert_eq!(rate, 25);
    let back = decode_wav(&encode_wav(rate, &grid)).unwrap();
    assert_eq!(back.channels.len(), 2);
    assert_eq!(back.timestamps[1], 40);
    assert_eq!(back.timestamps[49], 49 * 1000 / 25);
}

#[test]
fn wav_header_fields() {
    let grid = WavRecordingData { timestamps: vec![0, 40, 80], channels: vec![vec![1, 2, 3], vec![4, 5]] };
    let bytes = encode_wav(25, &grid);
    assert_eq!(&bytes[0..4], b"RIFF");
    assert_eq!(u32::from_le_bytes([bytes[4], bytes[5], bytes[6], bytes[7]]), 36 + 6);
    assert_eq!(&bytes[8..16], b"WAVEfmt ");
    assert_eq!(u16::from_le_bytes([bytes[22], bytes[23]]), 2);
    assert_eq!(u32::from_le_bytes([bytes[24], bytes[25], bytes[26], bytes[27]]), 25);
    assert_eq!(u32::from_le_bytes([bytes[28], bytes[29], bytes[30], bytes[31]]), 50);
    assert_eq!(u16::from_le_bytes([bytes[34], bytes[35]]), 8);
    assert_eq!(&bytes[36..40], b"data");
    assert_eq!(&bytes[44..], &[1, 4, 2, 5, 3, 0]);
}

#[test]
fn wav_tolerates_extra_chunks_and_short_data() {
    let grid = WavRecordingData { timestamps: vec![0, 1, 2], channels: vec![vec![10, 11, 12]] };
    let plain = encode_wav(1000, &grid);
    let mut bytes = plain[..12].to_vec();
    bytes.extend_from_slice(b"LIST");
    bytes.extend_from_slice(&4u32.to_le_bytes());
    bytes.extend_from_slice(b"abcd");
    bytes.extend_from_slice(&plain[12..]);
    let w = decode_wav(&bytes).unwrap();
    assert_eq!(w.channels, vec![vec![10, 11, 12]]);
    assert_eq!(w.timestamps, vec![0, 1, 2]);
    let mut cut = plain.clone();
    cut.truncate(46);
    cut.extend_from_slice(&[0u8; 0]);
    let mut padded = cut.clone();
    padded.resize(46, 0);
    let short = decode_wav(&padded).unwrap();
    assert_eq!(short.channels, vec![vec![10, 11, 0]]);
}

#[test]
fn wav_errors() {
    let grid = WavRecordingData { timestamps: vec![0, 1], channels: vec![vec![1, 2]] };
    let good = encode_wav(10, &grid);
    assert_eq!(decode_wav(&good[..40]).unwrap_err(), WavError::TooShort);
    let mut b = good.clone();
    b[0] = b'X';
    assert_eq!(decode_wav(&b).unwrap_err(), WavError::BadRiff);
    let mut b = good.clone();
    b[8] = b'X';
    assert_eq!(decode_wav(&b).unwrap_err(), WavError::BadWave);
    let mut b = good.clone();
    b[34] = 16;
    assert_eq!(decode_wav(&b).unwrap_err(), WavError::UnsupportedFormat(16));
    let mut b = good.clone();
    b[16] = 8;
    assert_eq!(decode_wav(&b).unwrap_err(), WavError::BadFmt);
    let mut b = good.clone();
    b[22] = 0;
    assert_eq!(decode_wav(&b).unwrap_err(), WavError::BadFmt);
    let mut b = good.clone();
    b[36] = b'x';
    assert_eq!(decode_wav(&b).unwrap_err(), WavError::MissingData);
    let mut b = good.clone();
    b[12] = b'x';
    assert_eq!(decode_wav(&b).unwrap_err(), WavError::MissingData);
}

#[test]
fn wav_export_needs_frames() {
    let empty = RecordData { timestamps: vec![], addresses: vec![], channels: vec![0], values: vec![vec![]] };
    assert_eq!(wav_export(&empty).unwrap_err(), WavExportError::NoFrames);
    let one = RecordData { timestamps: vec![0], addresses: vec![(0, 0, 0)], channels: vec![0], values: vec![vec![5]] };
    let (rate, grid) = wav_export(&one).unwrap();
    assert_eq!(rate, 1000);
    assert_eq!(grid.channels, vec![vec![5]]);
}

#[test]
fn jsonl_export_rows_are_relative_and_aligned() {
    let data = two_channel_recording();
    let rows = jsonl_rows(&data);
    assert_eq!(rows.len(), 50);
    assert_eq!(rows[0].t_ms, 0);
    assert_eq!(rows[49].t_ms, 2000);
    assert_eq!(rows[3].values, vec![3, 252]);
    assert_eq!(data.channel_numbers(), vec![1, 256]);
}

#[test]
fn jsonl_round_trip_through_rows() {
    let data = two_channel_recording();
    let rows = jsonl_rows(&data);
    let mut lines = vec![header(Some(vec![Some(1), Some(256)]))];
    for r in &rows {
        lines.push(data_line(
            r.t_ms,
            (r.net as u64, r.subnet as u64, r.universe as u64),
            r.values.iter().map(|v| *v as u64).collect(),
        ));
    }
    let back = record_from_jsonl(&lines).unwrap();
    assert_eq!(back.channels, vec![0, 255]);
    assert_eq!(back.values, data.values);
    assert_eq!(back.timestamps[49], 2000);
}

#[test]
fn jsonl_without_header_reads_all_channels() {
    let lines = vec![data_line(5, (1, 2, 3), vec![9, 8, 300])];
    let d = record_from_jsonl(&lines).unwrap();
    assert_eq!(d.channels.len(), 512);
    assert_eq!(d.values.len(), 512);
    assert_eq!(d.values[0], vec![9]);
    assert_eq!(d.values[2], vec![44]);
    assert_eq!(d.values[3], vec![0]);
    assert_eq!(d.addresses, vec![(1, 2, 3)]);
    assert_eq!(d.timestamps, vec![5]);
}

#[test]
fn jsonl_header_variants() {
    let mut single = header(None);
    single.channel = Some(3);
    let d = record_from_jsonl(&vec![single, data_line(0, (0, 0, 0), vec![77])]).unwrap();
    assert_eq!(d.channels, vec![2]);
    assert_eq!(d.values, vec![vec![77]]);
    let dup = header(Some(vec![Some(2), None, Some(2), Some(600), Some(1)]));
    let d = record_from_jsonl(&vec![dup, data_line(0, (0, 0, 0), vec![10, 20, 30])]).unwrap();
    assert_eq!(d.channels, vec![1, 0]);
    assert_eq!(d.values, vec![vec![10], vec![30]]);
    let only = record_from_jsonl(&vec![header(Some(vec![Some(4)]))]).unwrap();
    assert_eq!(only.channels, vec![3]);
    assert_eq!(only.values, vec![Vec::<u8>::new()]);
}

#[test]
fn jsonl_errors() {
    let mut no_time = data_line(0, (0, 0, 0), vec![1]);
    no_time.t_ms = None;
    let mut no_values = data_line(0, (0, 0, 0), vec![1]);
    no_values.values = None;
    assert_eq!(record_from_jsonl(&vec![no_time.clone(), no_values.clone()]).unwrap_err(), JsonlError::MissingTime);
    assert_eq!(record_from_jsonl(&vec![no_values, no_time]).unwrap_err(), JsonlError::MissingValues);
}

#[test]
fn playback_frames() {
    let nums = playback_numbers(Some(&header(Some(vec![Some(1), Some(512), None, Some(0), Some(513)]))));
    assert_eq!(nums, vec![1, 512, 0, 513]);
    let f = frame_from_record(&nums, &vec![5, 6, 7, 8]);
    assert_eq!(f[0], 5);
    assert_eq!(f[511], 6);
    assert_eq!(f.iter().map(|v| *v as u32).sum::<u32>(), 11);
    let all = playback_numbers(None);
    assert_eq!(all.len(), 512);
    assert_eq!(all[511], 512);
    let g = frame_from_record(&all, &vec![1, 2]);
    assert_eq!((g[0], g[1], g[2]), (1, 2, 0));
    let no_list = playback_numbers(Some(&header(None)));
    assert_eq!(no_list, all);
}

#[test]
fn playback_timing_and_wav_frames() {
    assert_eq!(playback_delay(None, 50), 0);
    assert_eq!(playback_delay(Some(20), 50), 30);
    assert_eq!(playback_delay(Some(80), 50), 0);
    let grid = WavRecordingData { timestamps: vec![0, 40], channels: vec![vec![1, 2], vec![3]] };
    let f = wav_frame(&grid, 1);
    assert_eq!((f[0], f[1], f[2]), (2, 0, 0));
    let g = wav_frame(&grid, 0);
    assert_eq!((g[0], g[1]), (1, 3));
}
