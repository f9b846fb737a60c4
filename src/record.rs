use vstd::prelude::*;

verus! {

/// Most frames the ring keeps; older ones are evicted first.
pub const MAX_RECORD_FRAMES: usize = 200_000;

/// `(net, subnet, universe)` of a frame.
pub type Address = (u8, u8, u8);

/// The last `MAX_RECORD_FRAMES` entries of `s`.
pub open spec fn keep_last<A>(s: Seq<A>) -> Seq<A> {
    if s.len() > MAX_RECORD_FRAMES {
        s.subrange(s.len() - MAX_RECORD_FRAMES, s.len() as int)
    } else {
        s
    }
}

/// Channel indices in order of first appearance, without repeats and
/// without those that lie outside the universe.
pub open spec fn normalized(channels: Seq<usize>) -> Seq<usize>
    decreases channels.len(),
{
    if channels.len() == 0 {
        Seq::empty()
    } else {
        let r = normalized(channels.drop_last());
        let c = channels.last();
        if c < 512 && !r.contains(c) {
            r.push(c)
        } else {
            r
        }
    }
}

/// A list of distinct channel indices of one universe.
pub open spec fn channels_ok(channels: Seq<usize>) -> bool {
    &&& channels.no_duplicates()
    &&& forall|i: int| 0 <= i < channels.len() ==> channels[i] < 512
}

/// `n` zero bytes.
pub open spec fn zeros(n: nat) -> Seq<u8> {
    Seq::new(n, |i: int| 0u8)
}

/// A recording held as one byte column per selected channel.
#[derive(Debug)]
pub struct RecordData {
    pub timestamps: Vec<u64>,
    pub addresses: Vec<Address>,
    pub channels: Vec<usize>,
    pub values: Vec<Vec<u8>>,
}

impl RecordData {
    /// Frame lists of one length, one column per channel, each as long as
    /// the frame list, and channels distinct within the universe.
    pub open spec fn wf(&self) -> bool {
        &&& self.timestamps@.len() == self.addresses@.len()
        &&& self.values@.len() == self.channels@.len()
        &&& forall|k: int| 0 <= k < self.values@.len()
                ==> #[trigger] self.values@[k]@.len() == self.timestamps@.len()
        &&& channels_ok(self.channels@)
    }

    /// The column of the `k`-th selected channel.
    pub open spec fn column(&self, k: int) -> Seq<u8> {
        self.values@[k]@
    }

    /// Timestamp of the newest frame, 0 when there is none.
    pub open spec fn spec_duration_ms(&self) -> u64 {
        if self.timestamps@.len() == 0 {
            0
        } else {
            self.timestamps@.last()
        }
    }

    pub fn frame_count(&self) -> (r: usize)
        ensures
            r == self.timestamps@.len(),
    {
        self.timestamps.len()
    }

    pub fn duration_ms(&self) -> (r: u64)
        ensures
            r == self.spec_duration_ms(),
    {
        if self.timestamps.len() == 0 {
            0
        } else {
            self.timestamps[self.timestamps.len() - 1]
        }
    }

    /// The selected channels, numbered from 1.
    pub fn channel_numbers(&self) -> (r: Vec<u16>)
        requires
            channels_ok(self.channels@),
        ensures
            r@.len() == self.channels@.len(),
            forall|i: int| 0 <= i < r@.len() ==> r@[i] == self.channels@[i] + 1,
    {
        channel_numbers_of(&self.channels)
    }

    pub fn last_address(&self) -> (r: Option<Address>)
        ensures
            self.addresses@.len() == 0 ==> r.is_none(),
            self.addresses@.len() > 0 ==> r == Some(self.addresses@.last()),
    {
        if self.addresses.len() == 0 {
            None
        } else {
            Some(self.addresses[self.addresses.len() - 1])
        }
    }

    /// A copy of this recording.
    pub fn duplicate(&self) -> (r: RecordData)
        ensures
            r.timestamps@ == self.timestamps@,
            r.addresses@ == self.addresses@,
            r.channels@ == self.channels@,
            r.values@.len() == self.values@.len(),
            forall|k: int| 0 <= k < r.values@.len() ==> r.column(k) == self.column(k),
    {
        let mut values: Vec<Vec<u8>> = Vec::new();
        let mut k: usize = 0;
        while k < self.values.len()
            invariant
                k <= self.values@.len(),
                values@.len() == k,
                forall|j: int| 0 <= j < k ==> values@[j]@ == self.values@[j]@,
            decreases self.values@.len() - k,
        {
            values.push(tail_from(&self.values[k], 0));
            k = k + 1;
        }
        RecordData {
            timestamps: tail_from(&self.timestamps, 0),
            addresses: tail_from(&self.addresses, 0),
            channels: tail_from(&self.channels, 0),
            values,
        }
    }
}

/// The entries of `v` from index `from` on.
pub fn tail_from<T: Copy>(v: &Vec<T>, from: usize) -> (r: Vec<T>)
    requires
        from <= v@.len(),
    ensures
        r@ == v@.subrange(from as int, v@.len() as int),
{
    let mut r: Vec<T> = Vec::new();
    let mut i: usize = from;
    while i < v.len()
        invariant
            from <= i <= v@.len(),
            r@ == v@.subrange(from as int, i as int),
        decreases v@.len() - i,
    {
        r.push(v[i]);
        proof {
            assert(v@.subrange(from as int, i + 1) =~= v@.subrange(from as int, i as int).push(v@[i as int]));
        }
        i = i + 1;
    }
    r
}

fn zero_column(n: usize) -> (r: Vec<u8>)
    ensures
        r@ == zeros(n as nat),
{
    let mut r: Vec<u8> = Vec::new();
    let mut i: usize = 0;
    while i < n
        invariant
            i <= n,
            r@ == zeros(i as nat),
        decreases n - i,
    {
        r.push(0u8);
        proof {
            assert(zeros((i + 1) as nat) =~= zeros(i as nat).push(0u8));
        }
        i = i + 1;
    }
    r
}

proof fn lemma_normalized_ok(channels: Seq<usize>)
    ensures
        channels_ok(normalized(channels)),
        forall|c: usize| normalized(channels).contains(c) <==> (c < 512 && channels.contains(c)),
    decreases channels.len(),
{
    if channels.len() > 0 {
        let init = channels.drop_last();
        lemma_normalized_ok(init);
        let r = normalized(init);
        let x = channels.last();
        assert forall|c: usize| normalized(channels).contains(c) <==> (c < 512 && channels.contains(c)) by {
            if c < 512 && channels.contains(c) {
                let i = choose|i: int| 0 <= i < channels.len() && channels[i] == c;
                if i < channels.len() - 1 {
                    assert(init[i] == c);
                    assert(init.contains(c));
                    assert(r.contains(c));
                    let m = choose|m: int| 0 <= m < r.len() && r[m] == c;
                    if x < 512 && !r.contains(x) {
                        assert(r.push(x)[m] == c);
                    }
                } else if x < 512 && !r.contains(x) {
                    assert(r.push(x)[r.len() as int] == c);
                }
            }
            if normalized(channels).contains(c) {
                let m = choose|m: int| 0 <= m < normalized(channels).len() && normalized(channels)[m] == c;
                if m < r.len() {
                    assert(r[m] == c);
                    assert(r.contains(c));
                    assert(init.contains(c));
                    let i = choose|i: int| 0 <= i < init.len() && init[i] == c;
                    assert(init[i] == channels[i]);
                    assert(channels[i] == c);
                } else {
                    assert(channels[channels.len() - 1] == c);
                }
            }
        }
    }
}

pub fn normalize_channels(channels: Vec<usize>) -> (r: Vec<usize>)
    ensures
        r@ == normalized(channels@),
        channels_ok(r@),
        forall|c: usize| r@.contains(c) <==> (c < 512 && channels@.contains(c)),
{
    let mut result: Vec<usize> = Vec::new();
    let mut i: usize = 0;
    while i < channels.len()
        invariant
            i <= channels@.len(),
            result@ == normalized(channels@.take(i as int)),
        decreases channels@.len() - i,
    {
        let ch = channels[i];
        proof {
            assert(channels@.take(i + 1).drop_last() =~= channels@.take(i as int));
        }
        let mut found = false;
        let mut j: usize = 0;
        while j < result.len()
            invariant
                j <= result@.len(),
                found <==> exists|m: int| 0 <= m < j && result@[m] == ch,
            decreases result@.len() - j,
        {
            if result[j] == ch {
                found = true;
            }
            j = j + 1;
        }
        if ch < 512 && !found {
            result.push(ch);
        }
        i = i + 1;
    }
    assert(channels@.take(channels@.len() as int) =~= channels@);
    proof {
        lemma_normalized_ok(channels@);
    }
    result
}

/// The value that channel `ch` of a frame carrying `values` contributes.
pub open spec fn cell(values: Seq<u8>, ch: usize) -> u8 {
    if ch < values.len() {
        values[ch as int]
    } else {
        0
    }
}

/// The in-memory recorder: a `RecordData` and whether it is taking frames.
#[derive(Debug)]
pub struct RecordBuffer {
    pub data: RecordData,
    pub active: bool,
}

impl RecordBuffer {
    pub open spec fn wf(&self) -> bool {
        self.data.wf()
    }

    /// `next` is this buffer after a frame carrying `values`, addressed to
    /// `addr`, arrived `elapsed_ms` into the recording: unchanged when
    /// inactive, else one more entry everywhere and the oldest beyond the
    /// cap gone.
    pub open spec fn appended(self, next: RecordBuffer, values: Seq<u8>, addr: Address, elapsed_ms: u64) -> bool {
        &&& !self.active ==> next == self
        &&& self.active ==> {
            &&& next.active
            &&& next.data.channels@ == self.data.channels@
            &&& next.data.timestamps@ == keep_last(self.data.timestamps@.push(elapsed_ms))
            &&& next.data.addresses@ == keep_last(self.data.addresses@.push(addr))
            &&& next.data.values@.len() == self.data.values@.len()
            &&& forall|k: int|
                0 <= k < self.data.channels@.len() ==> #[trigger] next.data.column(k)
                    == keep_last(self.data.column(k).push(cell(values, self.data.channels@[k])))
        }
    }

    /// `next` is this buffer with `channels` selected: a channel that was
    /// selected keeps its column, a new one gets a zero column as long as
    /// the recording; frames and state are untouched.
    pub open spec fn rechanneled(self, next: RecordBuffer, channels: Seq<usize>) -> bool {
        &&& next.active == self.active
        &&& next.data.timestamps@ == self.data.timestamps@
        &&& next.data.addresses@ == self.data.addresses@
        &&& next.data.channels@ == channels
        &&& forall|k: int, j: int|
            0 <= k < channels.len() && 0 <= j < self.data.channels@.len() && self.data.channels@[j] == channels[k]
                ==> next.data.column(k) == self.data.column(j)
        &&& forall|k: int|
            0 <= k < channels.len() && !self.data.channels@.contains(#[trigger] channels[k])
                ==> next.data.column(k) == zeros(self.data.timestamps@.len())
    }

    /// `p` is the preview of `channel` limited to `max_points`.
    pub open spec fn previews(self, channel: usize, max_points: usize, p: PreviewResponse) -> bool {
        forall|k: int| 0 <= k < self.data.channels@.len() && self.data.channels@[k] == channel ==> {
            &&& p.frame_count == self.data.column(k).len()
            &&& p.duration_ms == self.data.spec_duration_ms()
            &&& p.points@ == points_at(
                self.data.timestamps@,
                self.data.column(k),
                preview_indices(self.data.column(k).len(), max_points as nat),
            )
        }
    }

    /// An empty recording over `channels`.
    pub fn new(channels: Vec<usize>, active: bool) -> (r: Self)
        requires
            channels_ok(channels@),
        ensures
            r.wf(),
            r.active == active,
            r.data.channels@ == channels@,
            r.data.timestamps@.len() == 0,
            r.data.addresses@.len() == 0,
    {
        let mut values: Vec<Vec<u8>> = Vec::new();
        let mut k: usize = 0;
        while k < channels.len()
            invariant
                k <= channels@.len(),
                values@.len() == k,
                forall|j: int| 0 <= j < k ==> #[trigger] values@[j]@.len() == 0,
            decreases channels@.len() - k,
        {
            values.push(Vec::new());
            k = k + 1;
        }
        RecordBuffer {
            data: RecordData { timestamps: Vec::new(), addresses: Vec::new(), channels, values },
            active,
        }
    }

    pub fn from_data(data: RecordData, active: bool) -> (r: Self)
        requires
            data.wf(),
        ensures
            r.wf(),
            r.data == data,
            r.active == active,
    {
        RecordBuffer { data, active }
    }

    /// Selects `channels`: a channel that was selected keeps its column, a
    /// new one gets a zero column as long as the recording.
    pub fn set_channels(&mut self, channels: Vec<usize>)
        requires
            old(self).wf(),
            channels_ok(channels@),
        ensures
            final(self).wf(),
            old(self).rechanneled(*final(self), channels@),
    {
        let frame_count = self.data.timestamps.len();
        let mut new_values: Vec<Vec<u8>> = Vec::new();
        let mut k: usize = 0;
        while k < channels.len()
            invariant
                self.wf(),
                frame_count == self.data.timestamps@.len(),
                k <= channels@.len(),
                new_values@.len() == k,
                forall|m: int| 0 <= m < k ==> #[trigger] new_values@[m]@.len() == frame_count,
                forall|m: int, j: int|
                    0 <= m < k && 0 <= j < self.data.channels@.len()
                        && self.data.channels@[j] == channels@[m]
                        ==> new_values@[m]@ == self.data.column(j),
                forall|m: int|
                    0 <= m < k && !self.data.channels@.contains(#[trigger] channels@[m])
                        ==> new_values@[m]@ == zeros(frame_count as nat),
            decreases channels@.len() - k,
        {
            let ch = channels[k];
            let mut pos: usize = 0;
            while pos < self.data.channels.len() && self.data.channels[pos] != ch
                invariant
                    pos <= self.data.channels@.len(),
                    forall|j: int| 0 <= j < pos ==> self.data.channels@[j] != ch,
                decreases self.data.channels@.len() - pos,
            {
                pos = pos + 1;
            }
            if pos < self.data.channels.len() {
                let col = tail_from(&self.data.values[pos], 0);
                proof {
                    assert(col@ =~= self.data.column(pos as int));
                    assert forall|j: int| 0 <= j < self.data.channels@.len() && self.data.channels@[j] == ch
                        implies j == pos by {
                        if j != pos {
                            assert(self.data.channels@.no_duplicates());
                        }
                    }
                }
                new_values.push(col);
            } else {
                let col = zero_column(frame_count);
                proof {
                    assert(!self.data.channels@.contains(ch));
                }
                new_values.push(col);
            }
            k = k + 1;
        }
        self.data.channels = channels;
        self.data.values = new_values;
    }

    /// Records `frame`, received `elapsed_ms` after the recording began,
    /// when the buffer is active; the oldest frames beyond the cap go.
    pub fn append(&mut self, frame: &crate::codec::DmxFrame, elapsed_ms: u64)
        requires
            old(self).wf(),
        ensures
            final(self).wf(),
            old(self).appended(*final(self), frame.values@, (frame.net, frame.subnet, frame.universe), elapsed_ms),
    {
        if !self.active {
            return;
        }
        let ghost before = self.data.values@;
        let ghost chans = self.data.channels@;
        self.data.timestamps.push(elapsed_ms);
        self.data.addresses.push((frame.net, frame.subnet, frame.universe));
        let ghost stamps = self.data.timestamps@;
        let ghost addrs = self.data.addresses@;
        let mut k: usize = 0;
        while k < self.data.channels.len()
            invariant
                self.active,
                self.data.channels@ == chans,
                self.data.timestamps@ == stamps,
                self.data.addresses@ == addrs,
                self.data.values@.len() == self.data.channels@.len(),
                before.len() == self.data.channels@.len(),
                channels_ok(self.data.channels@),
                self.data.timestamps@.len() == self.data.addresses@.len(),
                forall|j: int| 0 <= j < before.len() ==> #[trigger] before[j]@.len() + 1 == self.data.timestamps@.len(),
                k <= self.data.channels@.len(),
                forall|j: int| 0 <= j < k ==> #[trigger] self.data.values@[j]@
                    == before[j]@.push(cell(frame.values@, self.data.channels@[j])),
                forall|j: int| k <= j < before.len() ==> #[trigger] self.data.values@[j]@ == before[j]@,
            decreases self.data.channels@.len() - k,
        {
            let ch = self.data.channels[k];
            let value = if ch < frame.values.len() {
                frame.values[ch]
            } else {
                0
            };
            self.data.values[k].push(value);
            k = k + 1;
        }
        self.enforce_limit();
    }

    fn enforce_limit(&mut self)
        requires
            old(self).wf(),
        ensures
            final(self).wf(),
            final(self).active == old(self).active,
            final(self).data.channels@ == old(self).data.channels@,
            final(self).data.timestamps@ == keep_last(old(self).data.timestamps@),
            final(self).data.addresses@ == keep_last(old(self).data.addresses@),
            final(self).data.values@.len() == old(self).data.values@.len(),
            forall|k: int|
                0 <= k < old(self).data.values@.len() ==> #[trigger] final(self).data.column(k)
                    == keep_last(old(self).data.column(k)),
    {
        let n = self.data.timestamps.len();
        if n <= MAX_RECORD_FRAMES {
            return;
        }
        let drop = n - MAX_RECORD_FRAMES;
        self.data.timestamps = tail_from(&self.data.timestamps, drop);
        self.data.addresses = tail_from(&self.data.addresses, drop);
        let ghost before = self.data.values@;
        let ghost prior = *self;
        let mut k: usize = 0;
        while k < self.data.values.len()
            invariant
                self.active == prior.active,
                self.data.channels@ == prior.data.channels@,
                self.data.timestamps@ == prior.data.timestamps@,
                self.data.addresses@ == prior.data.addresses@,
                self.data.timestamps@.len() == MAX_RECORD_FRAMES,
                self.data.addresses@.len() == MAX_RECORD_FRAMES,
                channels_ok(self.data.channels@),
                self.data.channels@.len() == before.len(),
                self.data.values@.len() == before.len(),
                forall|j: int| 0 <= j < before.len() ==> #[trigger] before[j]@.len() == n,
                drop == n - MAX_RECORD_FRAMES,
                n > MAX_RECORD_FRAMES,
                k <= before.len(),
                forall|j: int| 0 <= j < k ==> #[trigger] self.data.values@[j]@ == keep_last(before[j]@),
                forall|j: int| k <= j < before.len() ==> #[trigger] self.data.values@[j]@ == before[j]@,
            decreases before.len() - k,
        {
            let col = tail_from(&self.data.values[k], drop);
            self.data.values[k] = col;
            k = k + 1;
        }
    }
}

/// One sample of a preview: when it was taken and the channel's value.
#[derive(Debug, Clone, Copy, PartialEq, Eq, Structural)]
pub struct PreviewPoint {
    pub t_ms: u64,
    pub value: u8,
}

/// A downsampled view of one channel's column.
#[derive(Debug, Clone)]
pub struct PreviewResponse {
    pub points: Vec<PreviewPoint>,
    pub frame_count: usize,
    pub duration_ms: u64,
}

/// Step between samples when `total` samples are cut down to `max_points`:
/// `ceil(total / max_points)`.
pub open spec fn preview_stride(total: nat, max_points: nat) -> nat {
    if total == 0 || max_points == 0 {
        1
    } else {
        ((total - 1) as nat / max_points) + 1
    }
}

/// Indices of the samples a preview takes from a column of `total`: all of
/// them when they fit, else every stride-th one and the last.
pub open spec fn preview_indices(total: nat, max_points: nat) -> Seq<int> {
    if total == 0 || max_points == 0 {
        Seq::empty()
    } else if total <= max_points {
        Seq::new(total, |i: int| i)
    } else {
        let st = preview_stride(total, max_points);
        let cnt = ((total - 1) as nat / st) + 1;
        let base = Seq::new(cnt, |j: int| j * st);
        if (cnt - 1) * st == total - 1 {
            base
        } else {
            base.push(total - 1)
        }
    }
}

/// The preview points of `column` under `timestamps` at `indices`.
pub open spec fn points_at(timestamps: Seq<u64>, column: Seq<u8>, indices: Seq<int>) -> Seq<PreviewPoint> {
    Seq::new(indices.len(), |j: int| PreviewPoint { t_ms: timestamps[indices[j]], value: column[indices[j]] })
}

proof fn lemma_stride_index(j: int, st: int, total: int)
    requires
        st >= 1,
        total >= 1,
        0 <= j <= (total - 1) / st,
    ensures
        0 <= j * st <= total - 1,
{
    assert(0 <= j * st) by (nonlinear_arith)
        requires 0 <= j, st >= 1;
    assert(j * st <= ((total - 1) / st) * st) by (nonlinear_arith)
        requires 0 <= j <= (total - 1) / st, st >= 1;
    assert(((total - 1) / st) * st <= total - 1) by (nonlinear_arith)
        requires st >= 1, total >= 1;
}

/// The shape of a preview of a column of `total` samples limited to
/// `max_points`: everything in order when it fits; otherwise the stride lies
/// between `floor(total / max_points)` and `ceil(total / max_points)`. Either
/// way the indices rise strictly, stay in the column and end at its last
/// sample.
pub proof fn lemma_preview_shape(total: nat, max_points: nat)
    requires
        total > 0,
        max_points > 0,
    ensures
        total <= max_points ==> preview_indices(total, max_points).len() == total
            && forall|i: int| 0 <= i < total ==> preview_indices(total, max_points)[i] == i,
        total > max_points ==> total / max_points <= preview_stride(total, max_points)
            <= ((total + max_points - 1) as nat) / max_points,
        preview_indices(total, max_points).len() > 0,
        preview_indices(total, max_points).last() == total - 1,
        forall|i: int| 0 <= i < preview_indices(total, max_points).len()
            ==> 0 <= #[trigger] preview_indices(total, max_points)[i] < total,
        forall|i: int, j: int| 0 <= i < j < preview_indices(total, max_points).len()
            ==> preview_indices(total, max_points)[i] < preview_indices(total, max_points)[j],
{
    let idx = preview_indices(total, max_points);
    if total > max_points {
        let st = preview_stride(total, max_points) as int;
        let t = total as int;
        let m = max_points as int;
        assert(st == (t - 1) / m + 1);
        assert(t / m <= (t - 1) / m + 1) by (nonlinear_arith)
            requires t >= 1, m >= 1;
        assert((t - 1) / m + 1 == (t + m - 1) / m) by (nonlinear_arith)
            requires t >= 1, m >= 1;
        let cnt = (t - 1) / st + 1;
        lemma_stride_index(cnt - 1, st, t);
        assert forall|i: int| 0 <= i < idx.len() implies 0 <= #[trigger] idx[i] < total by {
            if i < cnt {
                lemma_stride_index(i, st, t);
            }
        }
        let base = Seq::new(cnt as nat, |q: int| q * st);
        assert forall|i: int, j: int| 0 <= i < j < idx.len() implies idx[i] < idx[j] by {
            assert(idx[i] == base[i]);
            if j < cnt {
                assert(idx[j] == base[j]);
                assert(i * st < j * st) by (nonlinear_arith)
                    requires 0 <= i < j, st >= 1;
            } else {
                lemma_stride_index(i, st, t);
                assert(idx[j] == total - 1);
                if i == cnt - 1 {
                    assert(idx[i] != total - 1);
                } else {
                    assert(i * st < (cnt - 1) * st) by (nonlinear_arith)
                        requires 0 <= i < cnt - 1, st >= 1;
                }
            }
        }
    }
}

impl RecordBuffer {
    pub fn frame_count(&self) -> (r: usize)
        ensures
            r == self.data.timestamps@.len(),
    {
        self.data.frame_count()
    }

    pub fn duration_ms(&self) -> (r: u64)
        ensures
            r == self.data.spec_duration_ms(),
    {
        self.data.duration_ms()
    }

    pub fn last_address(&self) -> (r: Option<Address>)
        ensures
            self.data.addresses@.len() == 0 ==> r.is_none(),
            self.data.addresses@.len() > 0 ==> r == Some(self.data.addresses@.last()),
    {
        self.data.last_address()
    }

    /// A copy of the recording for export.
    pub fn to_record_data(&self) -> (r: RecordData)
        requires
            self.wf(),
        ensures
            r.wf(),
            r.timestamps@ == self.data.timestamps@,
            r.addresses@ == self.data.addresses@,
            r.channels@ == self.data.channels@,
            r.values@.len() == self.data.values@.len(),
            forall|k: int| 0 <= k < r.values@.len() ==> r.column(k) == self.data.column(k),
    {
        let r = self.data.duplicate();
        assert forall|k: int| 0 <= k < r.values@.len() implies #[trigger] r.values@[k]@.len() == r.timestamps@.len() by {
            assert(r.column(k) == self.data.column(k));
        }
        r
    }

    /// Samples of `channel`'s column, at most `max_points` of them plus the
    /// last; `None` when the channel is not selected.
    pub fn preview(&self, channel: usize, max_points: usize) -> (r: Option<PreviewResponse>)
        requires
            self.wf(),
        ensures
            r.is_none() <==> !self.data.channels@.contains(channel),
            match r {
                Some(p) => self.previews(channel, max_points, p),
                None => true,
            },
    {
        let mut idx: usize = 0;
        while idx < self.data.channels.len() && self.data.channels[idx] != channel
            invariant
                idx <= self.data.channels@.len(),
                forall|j: int| 0 <= j < idx ==> self.data.channels@[j] != channel,
            decreases self.data.channels@.len() - idx,
        {
            idx = idx + 1;
        }
        if idx == self.data.channels.len() {
            return None;
        }
        proof {
            assert forall|k: int| 0 <= k < self.data.channels@.len() && self.data.channels@[k] == channel
                implies k == idx by {
                assert(self.data.channels@.no_duplicates());
            }
        }
        let values = &self.data.values[idx];
        let total = values.len();
        let duration = self.duration_ms();
        let ghost col = self.data.column(idx as int);
        let ghost ts = self.data.timestamps@;
        let ghost want = preview_indices(total as nat, max_points as nat);
        if total == 0 || max_points == 0 {
            assert(points_at(ts, col, want) =~= Seq::<PreviewPoint>::empty());
            return Some(PreviewResponse { points: Vec::new(), frame_count: total, duration_ms: duration });
        }
        let mut points: Vec<PreviewPoint> = Vec::new();
        if total <= max_points {
            let mut i: usize = 0;
            while i < total
                invariant
                    i <= total,
                    total == col.len(),
                    ts.len() == total,
                    values@ == col,
                    ts == self.data.timestamps@,
                    want == Seq::new(total as nat, |m: int| m),
                    points@ == points_at(ts, col, want.take(i as int)),
                decreases total - i,
            {
                points.push(PreviewPoint { t_ms: self.data.timestamps[i], value: values[i] });
                proof {
                    assert(points_at(ts, col, want.take(i + 1)) =~= points_at(ts, col, want.take(i as int)).push(
                        PreviewPoint { t_ms: ts[i as int], value: col[i as int] },
                    ));
                }
                i = i + 1;
            }
            assert(want.take(total as int) =~= want);
        } else {
            let step = (total - 1) / max_points + 1;
            let cnt = (total - 1) / step + 1;
            let ghost base = Seq::new(cnt as nat, |j: int| j * step);
            let mut j: usize = 0;
            while j < cnt
                invariant
                    j <= cnt,
                    step >= 1,
                    total >= 1,
                    cnt as int == (total as int - 1) / (step as int) + 1,
                    total == col.len(),
                    ts.len() == total,
                    values@ == col,
                    ts == self.data.timestamps@,
                    base == Seq::new(cnt as nat, |m: int| m * step),
                    points@ == points_at(ts, col, base.take(j as int)),
                decreases cnt - j,
            {
                proof {
                    lemma_stride_index(j as int, step as int, total as int);
                }
                let i = j * step;
                points.push(PreviewPoint { t_ms: self.data.timestamps[i], value: values[i] });
                proof {
                    assert(points_at(ts, col, base.take(j + 1)) =~= points_at(ts, col, base.take(j as int)).push(
                        PreviewPoint { t_ms: ts[i as int], value: col[i as int] },
                    ));
                }
                j = j + 1;
            }
            assert(base.take(cnt as int) =~= base);
            proof {
                lemma_stride_index(cnt - 1, step as int, total as int);
            }
            let last_sampled = (cnt - 1) * step;
            if last_sampled != total - 1 {
                points.push(PreviewPoint { t_ms: self.data.timestamps[total - 1], value: values[total - 1] });
                assert(points_at(ts, col, base.push(total - 1)) =~= points_at(ts, col, base).push(
                    PreviewPoint { t_ms: ts[total - 1], value: col[total - 1] },
                ));
            }
        }
        Some(PreviewResponse { points, frame_count: total, duration_ms: duration })
    }
}

/// The timestamps of an active ring that held `ts`, after `times` were
/// appended in order (each step as `RecordBuffer::append` states it).
pub open spec fn timestamps_after(ts: Seq<u64>, times: Seq<u64>) -> Seq<u64>
    decreases times.len(),
{
    if times.len() == 0 {
        ts
    } else {
        keep_last(timestamps_after(ts, times.drop_last()).push(times.last()))
    }
}

proof fn lemma_timestamps_after_empty(times: Seq<u64>)
    ensures
        timestamps_after(Seq::empty(), times) == (if times.len() > MAX_RECORD_FRAMES {
            times.subrange(times.len() - MAX_RECORD_FRAMES, times.len() as int)
        } else {
            times
        }),
    decreases times.len(),
{
    if times.len() > 0 {
        let init = times.drop_last();
        lemma_timestamps_after_empty(init);
        let n = times.len() as int;
        let lo = if n - 1 > MAX_RECORD_FRAMES { n - 1 - MAX_RECORD_FRAMES } else { 0 };
        assert(timestamps_after(Seq::empty(), init) =~= times.subrange(lo, n - 1));
        assert(times.subrange(lo, n - 1).push(times.last()) =~= times.subrange(lo, n));
        if n > MAX_RECORD_FRAMES {
            assert(times.subrange(lo, n).subrange(n - lo - MAX_RECORD_FRAMES, n - lo)
                =~= times.subrange(n - MAX_RECORD_FRAMES, n));
        } else {
            assert(times.subrange(0, n) =~= times);
        }
    }
}

/// After `MAX_RECORD_FRAMES + k` appends to an empty active ring it holds
/// exactly `MAX_RECORD_FRAMES` frames, the oldest being the `(k+1)`-th append.
pub proof fn lemma_ring_cap(times: Seq<u64>, k: nat)
    requires
        times.len() == MAX_RECORD_FRAMES + k,
    ensures
        timestamps_after(Seq::empty(), times).len() == MAX_RECORD_FRAMES,
        timestamps_after(Seq::empty(), times)[0] == times[k as int],
        timestamps_after(Seq::empty(), times) == times.subrange(k as int, times.len() as int),
{
    lemma_timestamps_after_empty(times);
    if k == 0 {
        assert(times.subrange(0, times.len() as int) =~= times);
    }
}

/// 0-based indices of 1-based channel numbers (0 stays 0).
pub fn channel_indices(numbers: &Vec<u16>) -> (r: Vec<usize>)
    ensures
        r@.len() == numbers@.len(),
        forall|i: int| 0 <= i < r@.len() ==> #[trigger] r@[i] == if numbers@[i] == 0 { 0 } else { numbers@[i] - 1 },
{
    let mut r: Vec<usize> = Vec::new();
    let mut i: usize = 0;
    while i < numbers.len()
        invariant
            i <= numbers@.len(),
            r@.len() == i,
            forall|m: int| 0 <= m < i ==> #[trigger] r@[m] == if numbers@[m] == 0 { 0 } else { numbers@[m] - 1 },
        decreases numbers@.len() - i,
    {
        let n = numbers[i];
        r.push(if n == 0 { 0 } else { (n - 1) as usize });
        i = i + 1;
    }
    r
}

/// 1-based numbers of channel indices of one universe.
pub fn channel_numbers_of(channels: &Vec<usize>) -> (r: Vec<u16>)
    requires
        channels_ok(channels@),
    ensures
        r@.len() == channels@.len(),
        forall|i: int| 0 <= i < r@.len() ==> #[trigger] r@[i] == channels@[i] + 1,
{
    let mut r: Vec<u16> = Vec::new();
    let mut i: usize = 0;
    while i < channels.len()
        invariant
            i <= channels@.len(),
            channels_ok(channels@),
            r@.len() == i,
            forall|m: int| 0 <= m < i ==> #[trigger] r@[m] == channels@[m] + 1,
        decreases channels@.len() - i,
    {
        r.push((channels[i] + 1) as u16);
        i = i + 1;
    }
    r
}

} // verus!
