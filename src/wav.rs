use vstd::prelude::*;

use crate::record::{channels_ok, RecordData};

verus! {

/// A recording laid out as a dense grid: one timestamp per frame and one
/// byte column per channel.
#[derive(Debug)]
pub struct WavRecordingData {
    pub timestamps: Vec<u64>,
    pub channels: Vec<Vec<u8>>,
}

/// Why a byte string is not a recording in 8-bit PCM WAV form.
#[derive(Debug, Clone, Copy, PartialEq, Eq, Structural)]
pub enum WavError {
    /// Shorter than the 44 bytes of a canonical header.
    TooShort,
    /// The file does not open with `RIFF`.
    BadRiff,
    /// The RIFF form is not `WAVE`.
    BadWave,
    /// The `fmt ` chunk is truncated, too small, or names zero channels or a
    /// zero sample rate.
    BadFmt,
    /// Samples are not 8 bits wide; holds the width found.
    UnsupportedFormat(u16),
    /// No `data` chunk follows the `fmt ` chunk.
    MissingData,
}

/// Little-endian bytes of a 16-bit value.
pub open spec fn le16(x: nat) -> Seq<u8> {
    seq![(x % 256) as u8, ((x / 256) % 256) as u8]
}

/// Little-endian bytes of a 32-bit value.
pub open spec fn le32(x: nat) -> Seq<u8> {
    seq![
        (x % 256) as u8,
        ((x / 256) % 256) as u8,
        ((x / 65536) % 256) as u8,
        ((x / 16777216) % 256) as u8,
    ]
}

/// Little-endian 16-bit value at `pos`.
pub open spec fn le16_at(b: Seq<u8>, pos: int) -> nat {
    b[pos] as nat + b[pos + 1] as nat * 256
}

/// Little-endian 32-bit value at `pos`.
pub open spec fn le32_at(b: Seq<u8>, pos: int) -> nat {
    b[pos] as nat + b[pos + 1] as nat * 256 + b[pos + 2] as nat * 65536 + b[pos + 3] as nat * 16777216
}

pub open spec fn tag_riff() -> Seq<u8> {
    seq![82u8, 73u8, 70u8, 70u8]
}

pub open spec fn tag_wave() -> Seq<u8> {
    seq![87u8, 65u8, 86u8, 69u8]
}

pub open spec fn tag_fmt() -> Seq<u8> {
    seq![102u8, 109u8, 116u8, 32u8]
}

pub open spec fn tag_data() -> Seq<u8> {
    seq![100u8, 97u8, 116u8, 97u8]
}

/// The 44-byte header of an 8-bit PCM file with `nc` channels, `rate`
/// samples a second and `frames` frames.
pub open spec fn wav_header(nc: nat, rate: nat, frames: nat) -> Seq<u8> {
    let data_size = frames * nc;
    tag_riff() + le32(36 + data_size) + tag_wave() + tag_fmt() + le32(16) + le16(1) + le16(nc) + le32(rate)
        + le32(rate * nc) + le16(nc) + le16(8) + tag_data() + le32(data_size)
}

/// Sample of channel `ch` in frame `f`, zero where the column is short.
pub open spec fn grid_sample(channels: Seq<Seq<u8>>, ch: int, f: int) -> u8 {
    if f < channels[ch].len() {
        channels[ch][f]
    } else {
        0
    }
}

/// The interleaved samples of the first `frames` frames.
pub open spec fn wav_samples(channels: Seq<Seq<u8>>, frames: nat) -> Seq<u8>
    decreases frames,
{
    if frames == 0 {
        Seq::empty()
    } else {
        wav_samples(channels, (frames - 1) as nat) + Seq::new(
            channels.len(),
            |ch: int| grid_sample(channels, ch, frames - 1),
        )
    }
}

/// The columns of a recording as sequences.
pub open spec fn grid(data: &WavRecordingData) -> Seq<Seq<u8>> {
    Seq::new(data.channels@.len(), |k: int| data.channels@[k]@)
}

/// The WAV file of `data` at `rate` samples a second.
pub open spec fn wav_file(data: &WavRecordingData, rate: nat) -> Seq<u8> {
    let frames = data.timestamps@.len();
    wav_header(data.channels@.len(), rate, frames) + wav_samples(grid(data), frames)
}

fn push_le16(out: &mut Vec<u8>, x: u16)
    ensures
        final(out)@ == old(out)@ + le16(x as nat),
{
    out.push((x % 256) as u8);
    out.push((x / 256) as u8);
    assert(final(out)@ =~= old(out)@ + le16(x as nat));
}

fn push_le32(out: &mut Vec<u8>, x: u32)
    ensures
        final(out)@ == old(out)@ + le32(x as nat),
{
    out.push((x % 256) as u8);
    out.push(((x / 256) % 256) as u8);
    out.push(((x / 65536) % 256) as u8);
    out.push((x / 16777216) as u8);
    assert(final(out)@ =~= old(out)@ + le32(x as nat));
}

fn push_tag(out: &mut Vec<u8>, a: u8, b: u8, c: u8, d: u8)
    ensures
        final(out)@ == old(out)@ + seq![a, b, c, d],
{
    out.push(a);
    out.push(b);
    out.push(c);
    out.push(d);
    assert(final(out)@ =~= old(out)@ + seq![a, b, c, d]);
}

/// The 8-bit PCM WAV file of `data`, one channel per column, samples
/// interleaved frame by frame.
pub fn encode_wav(sample_rate: u32, data: &WavRecordingData) -> (r: Vec<u8>)
    requires
        data.channels@.len() <= 65535,
        36 + data.timestamps@.len() * data.channels@.len() <= u32::MAX,
        sample_rate * data.channels@.len() <= u32::MAX,
    ensures
        r@ == wav_file(data, sample_rate as nat),
{
    let nc = data.channels.len();
    let frames = data.timestamps.len();
    proof {
        assert(frames * nc <= u32::MAX);
    }
    let data_size = (frames * nc) as u32;
    let mut out: Vec<u8> = Vec::new();
    push_tag(&mut out, 82u8, 73u8, 70u8, 70u8);
    push_le32(&mut out, 36 + data_size);
    push_tag(&mut out, 87u8, 65u8, 86u8, 69u8);
    push_tag(&mut out, 102u8, 109u8, 116u8, 32u8);
    push_le32(&mut out, 16);
    push_le16(&mut out, 1);
    push_le16(&mut out, nc as u16);
    push_le32(&mut out, sample_rate);
    push_le32(&mut out, sample_rate * (nc as u32));
    push_le16(&mut out, nc as u16);
    push_le16(&mut out, 8);
    push_tag(&mut out, 100u8, 97u8, 116u8, 97u8);
    push_le32(&mut out, data_size);
    let ghost head = out@;
    assert(head =~= wav_header(nc as nat, sample_rate as nat, frames as nat));
    let ghost g = grid(data);
    let mut f: usize = 0;
    while f < frames
        invariant
            f <= frames,
            frames == data.timestamps@.len(),
            nc == data.channels@.len(),
            g == grid(data),
            out@ == head + wav_samples(g, f as nat),
        decreases frames - f,
    {
        let ghost before = out@;
        let mut ch: usize = 0;
        while ch < nc
            invariant
                ch <= nc,
                f < frames,
                nc == data.channels@.len(),
                g == grid(data),
                out@ == before + Seq::new(ch as nat, |c: int| grid_sample(g, c, f as int)),
            decreases nc - ch,
        {
            let col = &data.channels[ch];
            let v = if f < col.len() {
                col[f]
            } else {
                0u8
            };
            out.push(v);
            proof {
                assert(out@ =~= before + Seq::new((ch + 1) as nat, |c: int| grid_sample(g, c, f as int)));
            }
            ch = ch + 1;
        }
        proof {
            assert(g.len() == nc);
            assert(wav_samples(g, (f + 1) as nat) =~= wav_samples(g, f as nat) + Seq::new(
                nc as nat,
                |c: int| grid_sample(g, c, f as int),
            ));
        }
        f = f + 1;
    }
    out
}

/// Whether the four bytes at `pos` are `tag`.
pub open spec fn tag_at(b: Seq<u8>, pos: int, tag: Seq<u8>) -> bool {
    b.subrange(pos, pos + 4) == tag
}

/// Start of the first chunk named `tag` met when walking the chunks from
/// `pos`; the walk stops once fewer than nine bytes remain.
pub open spec fn find_chunk(b: Seq<u8>, pos: nat, tag: Seq<u8>) -> Option<nat>
    decreases b.len() - pos,
{
    if pos + 8 >= b.len() {
        None
    } else if tag_at(b, pos as int, tag) {
        Some(pos)
    } else {
        let next = pos + 8 + le32_at(b, (pos + 4) as int);
        if next + 8 >= b.len() {
            None
        } else {
            find_chunk(b, next, tag)
        }
    }
}

/// What the header of `b` says: `(channels, sample_rate, data_start, frames)`,
/// or why `b` is refused.
pub open spec fn wav_layout(b: Seq<u8>) -> Result<(nat, nat, nat, nat), WavError> {
    if b.len() < 44 {
        Err(WavError::TooShort)
    } else if !tag_at(b, 0, tag_riff()) {
        Err(WavError::BadRiff)
    } else if !tag_at(b, 8, tag_wave()) {
        Err(WavError::BadWave)
    } else {
        match find_chunk(b, 12, tag_fmt()) {
            None => Err(WavError::MissingData),
            Some(p) => {
                let size = le32_at(b, (p + 4) as int);
                if size < 16 || p + 24 > b.len() {
                    Err(WavError::BadFmt)
                } else if le16_at(b, (p + 22) as int) != 8 {
                    Err(WavError::UnsupportedFormat(le16_at(b, (p + 22) as int) as u16))
                } else {
                    let nc = le16_at(b, (p + 10) as int);
                    let rate = le32_at(b, (p + 12) as int);
                    if nc == 0 || rate == 0 {
                        Err(WavError::BadFmt)
                    } else {
                        match find_chunk(b, p + 8 + size, tag_data()) {
                            None => Err(WavError::MissingData),
                            Some(d) => Ok((nc, rate, d + 8, le32_at(b, (d + 4) as int) / nc)),
                        }
                    }
                }
            },
        }
    }
}

/// The byte at `pos`, zero past the end of `b`.
pub open spec fn byte_or_zero(b: Seq<u8>, pos: int) -> u8 {
    if pos < b.len() {
        b[pos]
    } else {
        0
    }
}

/// `w` is the recording that the file `b` with layout `(nc, rate, start,
/// frames)` holds: frame `i` at `i * 1000 / rate` ms, sample `ch` of frame
/// `i` read from `start + i * nc + ch`.
pub open spec fn holds_grid(b: Seq<u8>, nc: nat, rate: nat, start: nat, frames: nat, w: &WavRecordingData) -> bool {
    &&& w.timestamps@.len() == frames
    &&& w.channels@.len() == nc
    &&& forall|i: int| 0 <= i < frames ==> #[trigger] w.timestamps@[i] == i * 1000 / (rate as int)
    &&& forall|ch: int| 0 <= ch < nc ==> #[trigger] w.channels@[ch]@.len() == frames
    &&& forall|ch: int, i: int| 0 <= ch < nc && 0 <= i < frames
            ==> #[trigger] w.channels@[ch]@[i] == byte_or_zero(b, start + i * nc + ch)
}

fn read_le16(b: &[u8], pos: usize) -> (r: u16)
    requires
        pos + 2 <= b@.len(),
    ensures
        r as nat == le16_at(b@, pos as int),
{
    b[pos] as u16 + b[pos + 1] as u16 * 256
}

fn read_le32(b: &[u8], pos: usize) -> (r: u32)
    requires
        pos + 4 <= b@.len(),
    ensures
        r as nat == le32_at(b@, pos as int),
{
    b[pos] as u32 + b[pos + 1] as u32 * 256 + b[pos + 2] as u32 * 65536 + b[pos + 3] as u32 * 16777216
}

/// The tag made of four bytes.
pub open spec fn tag4(t0: u8, t1: u8, t2: u8, t3: u8) -> Seq<u8> {
    seq![t0, t1, t2, t3]
}

fn tag_matches(b: &[u8], pos: usize, t0: u8, t1: u8, t2: u8, t3: u8) -> (r: bool)
    requires
        pos + 4 <= b@.len(),
    ensures
        r == tag_at(b@, pos as int, tag4(t0, t1, t2, t3)),
{
    let r = b[pos] == t0 && b[pos + 1] == t1 && b[pos + 2] == t2 && b[pos + 3] == t3;
    proof {
        if r {
            assert(b@.subrange(pos as int, pos + 4) =~= tag4(t0, t1, t2, t3));
        } else if b@.subrange(pos as int, pos + 4) == tag4(t0, t1, t2, t3) {
            assert(b@.subrange(pos as int, pos + 4)[0] == t0);
            assert(b@.subrange(pos as int, pos + 4)[1] == t1);
            assert(b@.subrange(pos as int, pos + 4)[2] == t2);
            assert(b@.subrange(pos as int, pos + 4)[3] == t3);
        }
    }
    r
}

fn find_chunk_exec(b: &[u8], start: usize, t0: u8, t1: u8, t2: u8, t3: u8) -> (r: Option<usize>)
    requires
        start <= b@.len(),
    ensures
        match r {
            Some(p) => find_chunk(b@, start as nat, tag4(t0, t1, t2, t3)) == Some(p as nat) && p + 8 < b@.len(),
            None => find_chunk(b@, start as nat, tag4(t0, t1, t2, t3)).is_none(),
        },
{
    let len = b.len();
    let mut pos = start;
    while len > 8 && pos < len - 8
        invariant
            pos <= len,
            len == b@.len(),
            find_chunk(b@, start as nat, tag4(t0, t1, t2, t3)) == find_chunk(b@, pos as nat, tag4(t0, t1, t2, t3)),
        decreases len - pos,
    {
        if tag_matches(b, pos, t0, t1, t2, t3) {
            assert(tag_at(b@, pos as int, tag4(t0, t1, t2, t3)));
            assert(pos + 8 < b@.len());
            assert(find_chunk(b@, pos as nat, tag4(t0, t1, t2, t3)) == Some(pos as nat));
            return Some(pos);
        }
        let size = read_le32(b, pos + 4) as usize;
        let rest = len - pos - 8;
        if size > rest {
            assert(find_chunk(b@, pos as nat, tag4(t0, t1, t2, t3)).is_none());
            return None;
        }
        pos = pos + 8 + size;
    }
    None
}

/// Reads a recording from the bytes of an 8-bit PCM WAV file. Chunks other
/// than `fmt ` and `data` are skipped; samples missing at the end of the file
/// read as zero.
pub fn decode_wav(b: &[u8]) -> (r: Result<WavRecordingData, WavError>)
    ensures
        match r {
            Ok(w) => match wav_layout(b@) {
                Ok((nc, rate, start, frames)) => holds_grid(b@, nc, rate, start, frames, &w),
                Err(_) => false,
            },
            Err(e) => wav_layout(b@) == Err::<(nat, nat, nat, nat), WavError>(e),
        },
{
    if b.len() < 44 {
        return Err(WavError::TooShort);
    }
    if !tag_matches(b, 0, 82u8, 73u8, 70u8, 70u8) {
        return Err(WavError::BadRiff);
    }
    if !tag_matches(b, 8, 87u8, 65u8, 86u8, 69u8) {
        return Err(WavError::BadWave);
    }
    let p = match find_chunk_exec(b, 12, 102u8, 109u8, 116u8, 32u8) {
        None => return Err(WavError::MissingData),
        Some(p) => p,
    };
    let size = read_le32(b, p + 4);
    if size < 16 || b.len() - p < 24 {
        return Err(WavError::BadFmt);
    }
    let bits = read_le16(b, p + 22);
    if bits != 8 {
        return Err(WavError::UnsupportedFormat(bits));
    }
    let nc = read_le16(b, p + 10);
    let rate = read_le32(b, p + 12);
    if nc == 0 || rate == 0 {
        return Err(WavError::BadFmt);
    }
    let after = b.len() - p - 8;
    let d = if (size as usize) > after {
        proof {
            let next = p + 8 + le32_at(b@, p + 4);
            assert(find_chunk(b@, next as nat, tag_data()).is_none());
        }
        return Err(WavError::MissingData);
    } else {
        match find_chunk_exec(b, p + 8 + size as usize, 100u8, 97u8, 116u8, 97u8) {
            None => return Err(WavError::MissingData),
            Some(d) => d,
        }
    };
    let data_size = read_le32(b, d + 4);
    let frames = (data_size / (nc as u32)) as usize;
    let start = d + 8;
    let ghost layout = (nc as nat, rate as nat, start as nat, frames as nat);
    assert(wav_layout(b@) == Ok::<(nat, nat, nat, nat), WavError>(layout));
    let mut timestamps: Vec<u64> = Vec::new();
    let mut i: usize = 0;
    while i < frames
        invariant
            i <= frames,
            frames <= u32::MAX,
            rate > 0,
            timestamps@.len() == i,
            forall|m: int| 0 <= m < i ==> #[trigger] timestamps@[m] == m * 1000 / (rate as int),
        decreases frames - i,
    {
        timestamps.push((i as u64 * 1000) / (rate as u64));
        i = i + 1;
    }
    let mut channels: Vec<Vec<u8>> = Vec::new();
    let mut ch: usize = 0;
    while ch < nc as usize
        invariant
            ch <= nc,
            channels@.len() == ch,
            frames <= u32::MAX,
            start <= usize::MAX,
            forall|c: int| 0 <= c < ch ==> #[trigger] channels@[c]@.len() == frames,
            forall|c: int, m: int| 0 <= c < ch && 0 <= m < frames
                ==> #[trigger] channels@[c]@[m] == byte_or_zero(b@, start + m * (nc as int) + c),
        decreases nc - ch,
    {
        let mut col: Vec<u8> = Vec::new();
        let mut f: usize = 0;
        while f < frames
            invariant
                f <= frames,
                frames <= u32::MAX,
                start <= usize::MAX,
                ch < nc,
                col@.len() == f,
                forall|m: int| 0 <= m < f ==> #[trigger] col@[m] == byte_or_zero(b@, start + m * (nc as int) + ch),
            decreases frames - f,
        {
            proof {
                let fi = f as int;
                let ni = nc as int;
                assert(fi * ni <= 0x1_0000_0000 * 0x1_0000) by (nonlinear_arith)
                    requires 0 <= fi <= 0xffff_ffff, 0 <= ni <= 0xffff;
            }
            let at: u128 = start as u128 + (f as u128) * (nc as u128) + ch as u128;
            let v = if at < b.len() as u128 {
                b[at as usize]
            } else {
                0u8
            };
            col.push(v);
            f = f + 1;
        }
        channels.push(col);
        ch = ch + 1;
    }
    Ok(WavRecordingData { timestamps, channels })
}

/// Why a recording cannot be written as WAV.
#[derive(Debug, Clone, Copy, PartialEq, Eq, Structural)]
pub enum WavExportError {
    /// The recording holds no frame.
    NoFrames,
    /// The file would not fit the 32-bit sizes of the format.
    TooLarge,
}

/// Sample rate that spreads `frames` frames over `duration_ms`:
/// `max(1, frames * 1000 / max(duration_ms, 1))`.
pub open spec fn export_rate(frames: nat, duration_ms: nat) -> nat {
    let d = if duration_ms == 0 { 1 } else { duration_ms };
    let r = frames * 1000 / d;
    if r == 0 { 1 } else { r }
}

/// The WAV grid of a recording: timestamps made relative to the first
/// frame, and the sample rate of its frames over its duration.
pub fn wav_export(data: &RecordData) -> (r: Result<(u32, WavRecordingData), WavExportError>)
    requires
        data.wf(),
    ensures
        match r {
            Ok((rate, w)) => {
                &&& data.timestamps@.len() > 0
                &&& rate as nat == export_rate(data.timestamps@.len(), data.spec_duration_ms() as nat)
                &&& w.timestamps@.len() == data.timestamps@.len()
                &&& forall|i: int| 0 <= i < w.timestamps@.len() ==> #[trigger] w.timestamps@[i]
                    == if data.timestamps@[i] >= data.timestamps@[0] {
                        data.timestamps@[i] - data.timestamps@[0]
                    } else {
                        0
                    }
                &&& grid(&w) == Seq::new(data.values@.len(), |k: int| data.column(k))
                &&& w.channels@.len() <= 65535
                &&& 36 + w.timestamps@.len() * w.channels@.len() <= u32::MAX
                &&& rate * w.channels@.len() <= u32::MAX
            },
            Err(WavExportError::NoFrames) => data.timestamps@.len() == 0,
            Err(WavExportError::TooLarge) => data.timestamps@.len() > 0 && (data.values@.len() > 65535
                || 36 + data.timestamps@.len() * data.values@.len() > u32::MAX
                || export_rate(data.timestamps@.len(), data.spec_duration_ms() as nat) > u32::MAX
                || export_rate(data.timestamps@.len(), data.spec_duration_ms() as nat) * data.values@.len()
                > u32::MAX),
        },
{
    let frames = data.frame_count();
    if frames == 0 {
        return Err(WavExportError::NoFrames);
    }
    let nc = data.values.len();
    let duration = data.duration_ms();
    let d: u128 = if duration == 0 { 1 } else { duration as u128 };
    if nc > 65535 {
        return Err(WavExportError::TooLarge);
    }
    proof {
        let f = frames as int;
        let n = nc as int;
        assert(f * n <= 0xffff_ffff_ffff_ffff * 0xffff) by (nonlinear_arith)
            requires 0 <= f <= 0xffff_ffff_ffff_ffff, 0 <= n <= 0xffff;
        assert(f * 1000 <= 0xffff_ffff_ffff_ffff * 1000) by (nonlinear_arith)
            requires 0 <= f <= 0xffff_ffff_ffff_ffff;
    }
    if 36 + (frames as u128) * (nc as u128) > u32::MAX as u128 {
        return Err(WavExportError::TooLarge);
    }
    let raw: u128 = (frames as u128 * 1000) / d;
    let rate_wide: u128 = if raw == 0 { 1 } else { raw };
    proof {
        let f = frames as int;
        let n = nc as int;
        assert(f * n <= 0xffff_ffff) by (nonlinear_arith)
            requires 36 + f * n <= 0xffff_ffff;
        assert(raw <= f * 1000) by (nonlinear_arith)
            requires raw == (f * 1000) / (d as int), d >= 1, f >= 0;
        assert(rate_wide * n <= 0xffff_ffff_ffff_ffff_ffff * 0xffff) by (nonlinear_arith)
            requires 0 <= rate_wide <= 0xffff_ffff_ffff_ffff_ffff, 0 <= n <= 0xffff;
    }
    if rate_wide > u32::MAX as u128 || rate_wide * (nc as u128) > u32::MAX as u128 {
        return Err(WavExportError::TooLarge);
    }
    let rate = rate_wide as u32;
    let base = data.timestamps[0];
    let mut timestamps: Vec<u64> = Vec::new();
    let mut i: usize = 0;
    while i < frames
        invariant
            i <= frames,
            frames == data.timestamps@.len(),
            base == data.timestamps@[0],
            timestamps@.len() == i,
            forall|m: int| 0 <= m < i ==> #[trigger] timestamps@[m]
                == if data.timestamps@[m] >= base { data.timestamps@[m] - base } else { 0 },
        decreases frames - i,
    {
        let t = data.timestamps[i];
        timestamps.push(if t >= base { t - base } else { 0 });
        i = i + 1;
    }
    let mut channels: Vec<Vec<u8>> = Vec::new();
    let mut k: usize = 0;
    while k < nc
        invariant
            k <= nc,
            nc == data.values@.len(),
            channels@.len() == k,
            forall|m: int| 0 <= m < k ==> #[trigger] channels@[m]@ == data.column(m),
        decreases nc - k,
    {
        channels.push(crate::record::tail_from(&data.values[k], 0));
        k = k + 1;
    }
    let w = WavRecordingData { timestamps, channels };
    assert(grid(&w) =~= Seq::new(data.values@.len(), |k: int| data.column(k)));
    Ok((rate, w))
}

/// A recording read from a WAV file: its columns select channels
/// `0..columns` and every frame is addressed to `(0, 0, 0)`.
pub fn record_data_from_wav(data: WavRecordingData) -> (r: RecordData)
    requires
        data.channels@.len() <= 512,
        forall|k: int| 0 <= k < data.channels@.len() ==> #[trigger] data.channels@[k]@.len()
            == data.timestamps@.len(),
    ensures
        r.wf(),
        r.timestamps@ == data.timestamps@,
        r.addresses@ == Seq::new(data.timestamps@.len(), |i: int| (0u8, 0u8, 0u8)),
        r.channels@ == Seq::new(data.channels@.len(), |k: int| k as usize),
        Seq::new(r.values@.len(), |k: int| r.column(k)) == grid(&data),
{
    let n = data.timestamps.len();
    let mut addresses: Vec<(u8, u8, u8)> = Vec::new();
    let mut i: usize = 0;
    while i < n
        invariant
            i <= n,
            addresses@ == Seq::new(i as nat, |m: int| (0u8, 0u8, 0u8)),
        decreases n - i,
    {
        addresses.push((0u8, 0u8, 0u8));
        assert(addresses@ =~= Seq::new((i + 1) as nat, |m: int| (0u8, 0u8, 0u8)));
        i = i + 1;
    }
    let nc = data.channels.len();
    let mut channels: Vec<usize> = Vec::new();
    let mut k: usize = 0;
    while k < nc
        invariant
            k <= nc,
            channels@ == Seq::new(k as nat, |m: int| m as usize),
        decreases nc - k,
    {
        channels.push(k);
        assert(channels@ =~= Seq::new((k + 1) as nat, |m: int| m as usize));
        k = k + 1;
    }
    let r = RecordData { timestamps: data.timestamps, addresses, channels, values: data.channels };
    proof {
        assert(channels_ok(r.channels@)) by {
            assert forall|a: int, b: int| 0 <= a < b < r.channels@.len() implies r.channels@[a] != r.channels@[b] by {}
        }
        assert(Seq::new(r.values@.len(), |k: int| r.column(k)) =~= grid(&data));
    }
    r
}

} // verus!
