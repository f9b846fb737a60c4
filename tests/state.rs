use artnet_engine::codec::DmxFrame;
use artnet_engine::live::ConfigError;
use artnet_engine::state::{AppState, TaskKind, TaskSlots};

fn frame(universe: u8, v0: u8) -> DmxFrame {
    DmxFrame { net: 0, subnet: 0, universe, length: 2, sequence: 0, physical: 0, values: vec![v0, 0] }
}

#[test]
fn filter_rejects_non_match() {
    let mut s = AppState::new();
    s.start_buffered_recording(vec![0]);
    s.set_event_filter(Some((0, 0, 5)));
    let d4 = s.ingest_frame(&frame(4, 1), 10);
    let d5 = s.ingest_frame(&frame(5, 2), 20);
    assert!(!d4.filtered);
    assert!(d5.filtered);
    assert_eq!(s.record_summary(), (1, 20));
    assert_eq!(s.record_last_address(), Some((0, 0, 5)));
}

#[test]
fn unfiltered_frames_still_reach_the_stream() {
    let mut s = AppState::new();
    s.set_recording(1);
    s.set_event_filter(Some((0, 0, 5)));
    let d = s.ingest_frame(&frame(4, 1), 0);
    assert!(!d.filtered);
    assert!(d.stream);
    assert_eq!(s.stop_recording(), Some(1));
    assert!(!s.ingest_frame(&frame(4, 1), 0).stream);
}

#[test]
fn no_filter_passes_everything() {
    let mut s = AppState::new();
    assert!(s.ingest_frame(&frame(9, 1), 0).filtered);
    assert_eq!(s.record_summary(), (0, 0));
}

#[test]
fn at_most_one_task_per_slot() {
    let mut s = AppState::new();
    assert_eq!(s.set_sender_task(1), None);
    assert_eq!(s.set_sender_task(2), Some(1));
    assert_eq!(s.stop_sender(), Some(2));
    assert_eq!(s.stop_sender(), None);
    assert_eq!(s.set_receiver_task(3), None);
    assert_eq!(s.stop_receiver(), Some(3));
    assert_eq!(s.set_play_task(4), None);
    assert_eq!(s.stop_playback(), Some(4));
    assert_eq!(s.set_animation_task(5), None);
    assert_eq!(s.set_animation_task(6), Some(5));
    assert_eq!(s.stop_animation(), Some(6));
    let mut slots = TaskSlots::new();
    assert_eq!(slots.install(TaskKind::Player, 7), None);
    assert_eq!(slots.take(TaskKind::Recorder), None);
    assert_eq!(slots.take(TaskKind::Player), Some(7));
}

#[test]
fn buffered_recording_lifecycle() {
    let mut s = AppState::new();
    assert_eq!(s.record_channels(), Vec::<usize>::new());
    assert_eq!(s.set_record_channels(vec![4, 4, 700]), vec![4]);
    s.ingest_frame(&frame(0, 1), 0);
    assert_eq!(s.record_summary(), (0, 0));
    assert_eq!(s.start_buffered_recording(vec![1, 0, 1]), vec![1, 0]);
    s.ingest_frame(&frame(0, 9), 3);
    s.stop_buffered_recording();
    s.ingest_frame(&frame(0, 9), 4);
    assert_eq!(s.record_summary(), (1, 3));
    let snap = s.record_data_snapshot().unwrap();
    assert_eq!(snap.values, vec![vec![0], vec![9]]);
    assert_eq!(s.record_channels(), vec![1, 0]);
    s.clear_record_buffer();
    assert!(s.record_data_snapshot().is_none());
    s.load_record_data(snap, false);
    assert_eq!(s.record_summary(), (1, 3));
}

#[test]
fn preview_command() {
    let mut s = AppState::new();
    assert_eq!(s.recording_preview(0, 10).unwrap_err(), ConfigError::ChannelZero);
    let empty = s.recording_preview(1, 10).unwrap();
    assert_eq!((empty.points.len(), empty.frame_count, empty.duration_ms), (0, 0, 0));
    s.start_buffered_recording(vec![0]);
    s.ingest_frame(&frame(0, 42), 7);
    let p = s.recording_preview(1, 10).unwrap();
    assert_eq!(p.points.len(), 1);
    assert_eq!(p.points[0].value, 42);
    assert_eq!(p.points[0].t_ms, 7);
    let other = s.recording_preview(2, 10).unwrap();
    assert_eq!(other.points.len(), 0);
}

#[test]
fn live_commands_and_configs() {
    let mut s = AppState::new();
    s.set_channel(0, 200);
    s.set_channel(600, 1);
    assert_eq!(s.set_channels(&[1u8; 3]), Err(ConfigError::WrongChannelCount));
    assert_eq!(s.channels_snapshot()[0], 200);
    assert_eq!(s.next_sequence(), 1);
    let mut cfg = s.get_sender_config();
    assert_eq!(cfg.fps, 44);
    cfg.fps = 10;
    cfg.target_ip = "127.0.0.1".to_string();
    s.set_sender_config(cfg);
    assert_eq!(s.get_sender_config().fps, 10);
    assert_eq!(s.get_sender_config().target_ip, "127.0.0.1");
    let mut rc = s.get_receiver_config();
    rc.port = 7000;
    s.set_receiver_config(rc);
    assert_eq!(s.get_receiver_config().port, 7000);
    assert_eq!(s.get_receiver_config().bind_ip, "0.0.0.0");
}
