use vstd::prelude::*;

use crate::codec::{DmxFrame, ReceiverConfig, SenderConfig};
use crate::live::{ConfigError, LiveBuffer};
use crate::record::{
    channels_ok, normalize_channels, normalized, Address, PreviewResponse, RecordBuffer, RecordData,
};

verus! {

/// The long-running tasks, one slot each.
#[derive(Debug, Clone, Copy, PartialEq, Eq, Structural)]
pub enum TaskKind {
    Receiver,
    Sender,
    Recorder,
    Player,
    Animator,
}

/// The task occupying each slot, by the id its runner gave it.
#[derive(Debug, Clone, Copy)]
pub struct TaskSlots {
    pub receiver: Option<u64>,
    pub sender: Option<u64>,
    pub recorder: Option<u64>,
    pub player: Option<u64>,
    pub animator: Option<u64>,
}

impl TaskSlots {
    pub open spec fn slot(self, kind: TaskKind) -> Option<u64> {
        match kind {
            TaskKind::Receiver => self.receiver,
            TaskKind::Sender => self.sender,
            TaskKind::Recorder => self.recorder,
            TaskKind::Player => self.player,
            TaskKind::Animator => self.animator,
        }
    }

    /// These slots with `kind` set to `v`.
    pub open spec fn with_slot(self, kind: TaskKind, v: Option<u64>) -> TaskSlots {
        match kind {
            TaskKind::Receiver => TaskSlots { receiver: v, ..self },
            TaskKind::Sender => TaskSlots { sender: v, ..self },
            TaskKind::Recorder => TaskSlots { recorder: v, ..self },
            TaskKind::Player => TaskSlots { player: v, ..self },
            TaskKind::Animator => TaskSlots { animator: v, ..self },
        }
    }

    pub fn new() -> (r: Self)
        ensures
            forall|k: TaskKind| r.slot(k).is_none(),
    {
        TaskSlots { receiver: None, sender: None, recorder: None, player: None, animator: None }
    }

    /// Puts task `id` in the slot of `kind`; returns the task it displaces,
    /// which the caller must cancel.
    pub fn install(&mut self, kind: TaskKind, id: u64) -> (r: Option<u64>)
        ensures
            r == old(self).slot(kind),
            *final(self) == old(self).with_slot(kind, Some(id)),
    {
        let prev = self.take(kind);
        match kind {
            TaskKind::Receiver => self.receiver = Some(id),
            TaskKind::Sender => self.sender = Some(id),
            TaskKind::Recorder => self.recorder = Some(id),
            TaskKind::Player => self.player = Some(id),
            TaskKind::Animator => self.animator = Some(id),
        }
        prev
    }

    /// Empties the slot of `kind`; returns the task that was there, which
    /// the caller must cancel. Nothing happens to an empty slot.
    pub fn take(&mut self, kind: TaskKind) -> (r: Option<u64>)
        ensures
            r == old(self).slot(kind),
            *final(self) == old(self).with_slot(kind, None),
    {
        match kind {
            TaskKind::Receiver => {
                let r = self.receiver;
                self.receiver = None;
                r
            },
            TaskKind::Sender => {
                let r = self.sender;
                self.sender = None;
                r
            },
            TaskKind::Recorder => {
                let r = self.recorder;
                self.recorder = None;
                r
            },
            TaskKind::Player => {
                let r = self.player;
                self.player = None;
                r
            },
            TaskKind::Animator => {
                let r = self.animator;
                self.animator = None;
                r
            },
        }
    }
}

/// Starting a task twice leaves only the second live: the second start
/// hands back the first for cancelling, and no other slot changes.
pub proof fn lemma_at_most_one_task(s: TaskSlots, kind: TaskKind, first: u64, second: u64)
    ensures
        s.with_slot(kind, Some(first)).slot(kind) == Some(first),
        s.with_slot(kind, Some(first)).with_slot(kind, Some(second)).slot(kind) == Some(second),
        forall|k: TaskKind| k != kind ==> #[trigger] s.with_slot(kind, Some(first)).with_slot(kind, Some(second)).slot(k)
            == s.slot(k),
{
}

/// What the receiver does with a decoded frame besides showing it on the
/// unfiltered stream.
#[derive(Debug, Clone, Copy, PartialEq, Eq, Structural)]
pub struct Dispatch {
    /// Show it on the filtered stream.
    pub filtered: bool,
    /// Hand it to the streaming recorder.
    pub stream: bool,
}

/// Whether a frame addressed to `addr` passes `filter`.
pub open spec fn passes(filter: Option<Address>, addr: Address) -> bool {
    match filter {
        Some(f) => f == addr,
        None => true,
    }
}

/// The state shared by the commands and the tasks.
pub struct AppState {
    pub recv_cfg: ReceiverConfig,
    pub send_cfg: SenderConfig,
    pub live: LiveBuffer,
    pub record_buffer: Option<RecordBuffer>,
    /// A streaming recorder is taking frames.
    pub streaming: bool,
    pub event_filter: Option<Address>,
    pub tasks: TaskSlots,
}

impl AppState {
    pub open spec fn wf(&self) -> bool {
        match self.record_buffer {
            Some(b) => b.wf(),
            None => true,
        }
    }

    pub fn new() -> (r: Self)
        ensures
            r.wf(),
            r.record_buffer.is_none(),
            !r.streaming,
            r.event_filter.is_none(),
            r.live.sequence == 0,
            forall|i: int| 0 <= i < 512 ==> r.live.channels@[i] == 0,
            forall|k: TaskKind| r.tasks.slot(k).is_none(),
    {
        AppState {
            recv_cfg: ReceiverConfig::default(),
            send_cfg: SenderConfig::default(),
            live: LiveBuffer::new(),
            record_buffer: None,
            streaming: false,
            event_filter: None,
            tasks: TaskSlots::new(),
        }
    }

    pub fn channels_snapshot(&self) -> (r: [u8; 512])
        ensures
            r@ == self.live.channels@,
    {
        self.live.snapshot()
    }

    pub fn next_sequence(&mut self) -> (r: u8)
        ensures
            r == crate::live::advanced(old(self).live.sequence, 1),
            final(self).live.sequence == r,
            final(self).live.channels@ == old(self).live.channels@,
            final(self).record_buffer == old(self).record_buffer,
    {
        self.live.next_sequence()
    }

    /// Starts a fresh buffered recording over the normalized `channels`,
    /// which it returns.
    pub fn start_buffered_recording(&mut self, channels: Vec<usize>) -> (r: Vec<usize>)
        ensures
            final(self).wf(),
            r@ == normalized(channels@),
            match final(self).record_buffer {
                Some(b) => b.active && b.data.channels@ == r@ && b.data.timestamps@.len() == 0,
                None => false,
            },
    {
        let normalized = normalize_channels(channels);
        let copy = crate::record::tail_from(&normalized, 0);
        assert(copy@ =~= normalized@);
        self.record_buffer = Some(RecordBuffer::new(copy, true));
        normalized
    }

    /// Stops taking frames; the recording stays.
    pub fn stop_buffered_recording(&mut self)
        requires
            old(self).wf(),
        ensures
            final(self).wf(),
            match (old(self).record_buffer, final(self).record_buffer) {
                (Some(a), Some(b)) => !b.active && b.data == a.data,
                (None, None) => true,
                _ => false,
            },
    {
        if let Some(b) = &mut self.record_buffer {
            b.active = false;
        }
    }

    pub fn clear_record_buffer(&mut self)
        ensures
            final(self).wf(),
            final(self).record_buffer.is_none(),
    {
        self.record_buffer = None;
    }

    /// Selects the normalized `channels`, which it returns; creates an
    /// inactive empty recording when there is none.
    pub fn set_record_channels(&mut self, channels: Vec<usize>) -> (r: Vec<usize>)
        requires
            old(self).wf(),
        ensures
            final(self).wf(),
            r@ == normalized(channels@),
            match (old(self).record_buffer, final(self).record_buffer) {
                (Some(a), Some(b)) => a.rechanneled(b, r@),
                (None, Some(b)) => !b.active && b.data.channels@ == r@ && b.data.timestamps@.len() == 0,
                _ => false,
            },
    {
        let normalized = normalize_channels(channels);
        let copy = crate::record::tail_from(&normalized, 0);
        assert(copy@ =~= normalized@);
        match &mut self.record_buffer {
            Some(b) => b.set_channels(copy),
            None => self.record_buffer = Some(RecordBuffer::new(copy, false)),
        }
        normalized
    }

    /// Replaces the recording wholesale.
    pub fn load_record_data(&mut self, data: RecordData, active: bool)
        requires
            data.wf(),
        ensures
            final(self).wf(),
            final(self).record_buffer == Some(RecordBuffer { data, active }),
    {
        self.record_buffer = Some(RecordBuffer::from_data(data, active));
    }

    pub fn record_preview(&self, channel: usize, max_points: usize) -> (r: Option<PreviewResponse>)
        requires
            self.wf(),
        ensures
            match self.record_buffer {
                Some(b) => (r.is_some() <==> b.data.channels@.contains(channel)) && match r {
                    Some(p) => b.previews(channel, max_points, p),
                    None => true,
                },
                None => r.is_none(),
            },
    {
        match &self.record_buffer {
            Some(b) => b.preview(channel, max_points),
            None => None,
        }
    }

    pub fn record_data_snapshot(&self) -> (r: Option<RecordData>)
        requires
            self.wf(),
        ensures
            match (self.record_buffer, r) {
                (Some(b), Some(d)) => d.wf() && d.timestamps@ == b.data.timestamps@
                    && d.addresses@ == b.data.addresses@ && d.channels@ == b.data.channels@
                    && d.values@.len() == b.data.values@.len()
                    && forall|k: int| 0 <= k < d.values@.len() ==> d.column(k) == b.data.column(k),
                (None, None) => true,
                _ => false,
            },
    {
        match &self.record_buffer {
            Some(b) => Some(b.to_record_data()),
            None => None,
        }
    }

    pub fn record_channels(&self) -> (r: Vec<usize>)
        ensures
            match self.record_buffer {
                Some(b) => r@ == b.data.channels@,
                None => r@.len() == 0,
            },
    {
        match &self.record_buffer {
            Some(b) => crate::record::tail_from(&b.data.channels, 0),
            None => Vec::new(),
        }
    }

    /// `(frame_count, duration_ms)` of the recording, zeros without one.
    pub fn record_summary(&self) -> (r: (usize, u64))
        ensures
            match self.record_buffer {
                Some(b) => r == (b.data.timestamps@.len() as usize, b.data.spec_duration_ms()),
                None => r == (0usize, 0u64),
            },
    {
        match &self.record_buffer {
            Some(b) => (b.frame_count(), b.duration_ms()),
            None => (0, 0),
        }
    }

    pub fn record_last_address(&self) -> (r: Option<Address>)
        ensures
            match self.record_buffer {
                Some(b) => if b.data.addresses@.len() == 0 {
                    r.is_none()
                } else {
                    r == Some(b.data.addresses@.last())
                },
                None => r.is_none(),
            },
    {
        match &self.record_buffer {
            Some(b) => b.last_address(),
            None => None,
        }
    }

    pub fn set_event_filter(&mut self, filter: Option<Address>)
        ensures
            final(self).event_filter == filter,
            final(self).record_buffer == old(self).record_buffer,
            final(self).streaming == old(self).streaming,
    {
        self.event_filter = filter;
    }

    /// Hands `frame`, received `elapsed_ms` after the buffered recording
    /// began, to the buffered recorder if there is one.
    pub fn append_record_frame(&mut self, frame: &DmxFrame, elapsed_ms: u64)
        requires
            old(self).wf(),
        ensures
            final(self).wf(),
            final(self).event_filter == old(self).event_filter,
            final(self).streaming == old(self).streaming,
            match (old(self).record_buffer, final(self).record_buffer) {
                (Some(a), Some(b)) => a.appended(b, frame.values@, (frame.net, frame.subnet, frame.universe), elapsed_ms),
                (None, None) => true,
                _ => false,
            },
    {
        if let Some(b) = &mut self.record_buffer {
            b.append(frame, elapsed_ms);
        }
    }

    /// Handles a decoded frame received `elapsed_ms` after the buffered
    /// recording began: a frame that passes the event filter goes to the
    /// filtered stream and the buffered recorder, and any frame goes to the
    /// streaming recorder when one runs.
    pub fn ingest_frame(&mut self, frame: &DmxFrame, elapsed_ms: u64) -> (r: Dispatch)
        requires
            old(self).wf(),
        ensures
            final(self).wf(),
            r.filtered == passes(old(self).event_filter, (frame.net, frame.subnet, frame.universe)),
            r.stream == old(self).streaming,
            final(self).event_filter == old(self).event_filter,
            final(self).streaming == old(self).streaming,
            !r.filtered ==> final(self).record_buffer == old(self).record_buffer,
            r.filtered ==> match (old(self).record_buffer, final(self).record_buffer) {
                (Some(a), Some(b)) => a.appended(b, frame.values@, (frame.net, frame.subnet, frame.universe), elapsed_ms),
                (None, None) => true,
                _ => false,
            },
    {
        let pass = match self.event_filter {
            Some((net, subnet, universe)) => frame.net == net && frame.subnet == subnet && frame.universe
                == universe,
            None => true,
        };
        if pass {
            self.append_record_frame(frame, elapsed_ms);
        }
        Dispatch { filtered: pass, stream: self.streaming }
    }

    pub fn get_receiver_config(&self) -> (r: ReceiverConfig)
        ensures
            r.bind_ip@ == self.recv_cfg.bind_ip@,
            r.port == self.recv_cfg.port,
    {
        ReceiverConfig { bind_ip: self.recv_cfg.bind_ip.clone(), port: self.recv_cfg.port }
    }

    pub fn set_receiver_config(&mut self, cfg: ReceiverConfig)
        ensures
            final(self).recv_cfg == cfg,
            final(self).record_buffer == old(self).record_buffer,
    {
        self.recv_cfg = cfg;
    }

    pub fn get_sender_config(&self) -> (r: SenderConfig)
        ensures
            r.target_ip@ == self.send_cfg.target_ip@,
            r.port == self.send_cfg.port,
            r.net == self.send_cfg.net,
            r.subnet == self.send_cfg.subnet,
            r.universe == self.send_cfg.universe,
            r.fps == self.send_cfg.fps,
    {
        self.send_cfg.with_address(self.send_cfg.net, self.send_cfg.subnet, self.send_cfg.universe)
    }

    pub fn set_sender_config(&mut self, cfg: SenderConfig)
        ensures
            final(self).send_cfg == cfg,
            final(self).record_buffer == old(self).record_buffer,
    {
        self.send_cfg = cfg;
    }

    /// Sets one live channel; an index past the universe is ignored.
    pub fn set_channel(&mut self, index: usize, value: u8)
        requires
            old(self).wf(),
        ensures
            final(self).wf(),
            index < 512 ==> final(self).live.channels@ == old(self).live.channels@.update(index as int, value),
            index >= 512 ==> final(self).live.channels@ == old(self).live.channels@,
            final(self).live.sequence == old(self).live.sequence,
    {
        self.live.set_channel(index, value);
    }

    /// Replaces the live universe; refused unless `values` holds 512 bytes.
    pub fn set_channels(&mut self, values: &[u8]) -> (r: Result<(), ConfigError>)
        requires
            old(self).wf(),
        ensures
            final(self).wf(),
            values@.len() == 512 ==> r.is_ok() && final(self).live.channels@ == values@,
            values@.len() != 512 ==> r == Err::<(), ConfigError>(ConfigError::WrongChannelCount)
                && final(self).live.channels@ == old(self).live.channels@,
    {
        self.live.set_channels(values)
    }

    /// The preview of the channel numbered `channel` (1-based); refused for
    /// channel 0, empty when nothing of that channel is recorded.
    pub fn recording_preview(&self, channel: u16, max_points: usize) -> (r: Result<PreviewResponse, ConfigError>)
        requires
            self.wf(),
        ensures
            channel == 0 ==> r == Err::<PreviewResponse, ConfigError>(ConfigError::ChannelZero),
            channel > 0 ==> match r {
                Ok(p) => match self.record_buffer {
                    Some(b) => if b.data.channels@.contains((channel - 1) as usize) {
                        b.previews((channel - 1) as usize, max_points, p)
                    } else {
                        p.points@.len() == 0 && p.frame_count == 0 && p.duration_ms == 0
                    },
                    None => p.points@.len() == 0 && p.frame_count == 0 && p.duration_ms == 0,
                },
                Err(_) => false,
            },
    {
        if channel == 0 {
            return Err(ConfigError::ChannelZero);
        }
        match self.record_preview((channel - 1) as usize, max_points) {
            Some(p) => Ok(p),
            None => Ok(PreviewResponse { points: Vec::new(), frame_count: 0, duration_ms: 0 }),
        }
    }

    /// Puts the receiver task `id` in its slot; returns the one to cancel.
    pub fn set_receiver_task(&mut self, id: u64) -> (r: Option<u64>)
        ensures
            r == old(self).tasks.slot(TaskKind::Receiver),
            final(self).tasks == old(self).tasks.with_slot(TaskKind::Receiver, Some(id)),
    {
        self.tasks.install(TaskKind::Receiver, id)
    }

    /// Empties the receiver slot; returns the task to cancel.
    pub fn stop_receiver(&mut self) -> (r: Option<u64>)
        ensures
            r == old(self).tasks.slot(TaskKind::Receiver),
            final(self).tasks == old(self).tasks.with_slot(TaskKind::Receiver, None),
    {
        self.tasks.take(TaskKind::Receiver)
    }

    pub fn set_sender_task(&mut self, id: u64) -> (r: Option<u64>)
        ensures
            r == old(self).tasks.slot(TaskKind::Sender),
            final(self).tasks == old(self).tasks.with_slot(TaskKind::Sender, Some(id)),
    {
        self.tasks.install(TaskKind::Sender, id)
    }

    pub fn stop_sender(&mut self) -> (r: Option<u64>)
        ensures
            r == old(self).tasks.slot(TaskKind::Sender),
            final(self).tasks == old(self).tasks.with_slot(TaskKind::Sender, None),
    {
        self.tasks.take(TaskKind::Sender)
    }

    pub fn set_play_task(&mut self, id: u64) -> (r: Option<u64>)
        ensures
            r == old(self).tasks.slot(TaskKind::Player),
            final(self).tasks == old(self).tasks.with_slot(TaskKind::Player, Some(id)),
    {
        self.tasks.install(TaskKind::Player, id)
    }

    pub fn stop_playback(&mut self) -> (r: Option<u64>)
        ensures
            r == old(self).tasks.slot(TaskKind::Player),
            final(self).tasks == old(self).tasks.with_slot(TaskKind::Player, None),
    {
        self.tasks.take(TaskKind::Player)
    }

    pub fn set_animation_task(&mut self, id: u64) -> (r: Option<u64>)
        ensures
            r == old(self).tasks.slot(TaskKind::Animator),
            final(self).tasks == old(self).tasks.with_slot(TaskKind::Animator, Some(id)),
    {
        self.tasks.install(TaskKind::Animator, id)
    }

    pub fn stop_animation(&mut self) -> (r: Option<u64>)
        ensures
            r == old(self).tasks.slot(TaskKind::Animator),
            final(self).tasks == old(self).tasks.with_slot(TaskKind::Animator, None),
    {
        self.tasks.take(TaskKind::Animator)
    }

    /// Marks the streaming recorder running as task `id`; returns the
    /// recorder task it replaces.
    pub fn set_recording(&mut self, id: u64) -> (r: Option<u64>)
        ensures
            final(self).streaming,
            r == old(self).tasks.slot(TaskKind::Recorder),
            final(self).tasks == old(self).tasks.with_slot(TaskKind::Recorder, Some(id)),
    {
        self.streaming = true;
        self.tasks.install(TaskKind::Recorder, id)
    }

    /// Stops the streaming recorder; returns its task.
    pub fn stop_recording(&mut self) -> (r: Option<u64>)
        ensures
            !final(self).streaming,
            r == old(self).tasks.slot(TaskKind::Recorder),
            final(self).tasks == old(self).tasks.with_slot(TaskKind::Recorder, None),
    {
        self.streaming = false;
        self.tasks.take(TaskKind::Recorder)
    }
}

} // verus!
