use vstd::prelude::*;

use crate::jsonl::JsonlLine;
use crate::wav::WavRecordingData;

verus! {

/// The universe after writing `values[k]` to the channel numbered
/// `numbers[k]` (1-based), for each `k` in order; numbers outside `1..=512`
/// and positions without a value are skipped.
pub open spec fn mapped_frame(numbers: Seq<u64>, values: Seq<u8>) -> Seq<u8>
    decreases numbers.len(),
{
    if numbers.len() == 0 {
        Seq::new(512, |i: int| 0u8)
    } else {
        let k = numbers.len() - 1;
        let prev = mapped_frame(numbers.drop_last(), values);
        let n = numbers[k];
        if k < values.len() && 1 <= n <= 512 {
            prev.update(n - 1, values[k])
        } else {
            prev
        }
    }
}

proof fn lemma_mapped_frame_len(numbers: Seq<u64>, values: Seq<u8>)
    ensures
        mapped_frame(numbers, values).len() == 512,
    decreases numbers.len(),
{
    if numbers.len() > 0 {
        lemma_mapped_frame_len(numbers.drop_last(), values);
    }
}

/// The channel numbers that a playback header names: the unsigned entries
/// of its `channels` array, or `1..=512` when it has none.
pub open spec fn header_numbers(h: JsonlLine) -> Seq<u64> {
    match h.channels {
        Some(v) => present(v@),
        None => Seq::new(512, |i: int| (i + 1) as u64),
    }
}

/// The entries of `s` that are present.
pub open spec fn present(s: Seq<Option<u64>>) -> Seq<u64>
    decreases s.len(),
{
    if s.len() == 0 {
        Seq::empty()
    } else {
        match s.last() {
            Some(n) => present(s.drop_last()).push(n),
            None => present(s.drop_last()),
        }
    }
}

/// Channel numbers that playback maps a line's values to.
pub fn playback_numbers(header: Option<&JsonlLine>) -> (r: Vec<u64>)
    ensures
        r@ == match header {
            Some(h) => header_numbers(*h),
            None => Seq::new(512, |i: int| (i + 1) as u64),
        },
{
    let list = match header {
        Some(h) => match &h.channels {
            Some(v) => Some(v),
            None => None,
        },
        None => None,
    };
    match list {
        Some(v) => {
            let mut r: Vec<u64> = Vec::new();
            let mut i: usize = 0;
            while i < v.len()
                invariant
                    i <= v@.len(),
                    r@ == present(v@.take(i as int)),
                decreases v@.len() - i,
            {
                proof {
                    assert(v@.take(i + 1).drop_last() =~= v@.take(i as int));
                }
                if let Some(n) = v[i] {
                    r.push(n);
                }
                i = i + 1;
            }
            assert(v@.take(v@.len() as int) =~= v@);
            r
        },
        None => {
            let mut r: Vec<u64> = Vec::new();
            let mut i: u64 = 0;
            while i < 512
                invariant
                    i <= 512,
                    r@ == Seq::new(i as nat, |m: int| (m + 1) as u64),
                decreases 512 - i,
            {
                r.push(i + 1);
                assert(r@ =~= Seq::new((i + 1) as nat, |m: int| (m + 1) as u64));
                i = i + 1;
            }
            r
        },
    }
}

/// The universe that playback sends for one line of values.
pub fn frame_from_record(numbers: &Vec<u64>, values: &Vec<u8>) -> (r: [u8; 512])
    ensures
        r@ == mapped_frame(numbers@, values@),
{
    let mut arr = [0u8; 512];
    let mut k: usize = 0;
    assert(arr@ =~= mapped_frame(numbers@.take(0), values@));
    while k < numbers.len()
        invariant
            k <= numbers@.len(),
            arr@ == mapped_frame(numbers@.take(k as int), values@),
        decreases numbers@.len() - k,
    {
        proof {
            assert(numbers@.take(k + 1).drop_last() =~= numbers@.take(k as int));
            lemma_mapped_frame_len(numbers@.take(k as int), values@);
        }
        let n = numbers[k];
        if k < values.len() && 1 <= n && n <= 512 {
            arr[(n - 1) as usize] = values[k];
        }
        k = k + 1;
    }
    assert(numbers@.take(numbers@.len() as int) =~= numbers@);
    arr
}

/// Frame `idx` of a WAV recording as a universe: column `ch` feeds channel
/// index `ch`, missing samples read as zero.
pub fn wav_frame(data: &WavRecordingData, idx: usize) -> (r: [u8; 512])
    ensures
        forall|ch: int| 0 <= ch < 512 ==> r@[ch] == if ch < data.channels@.len() && idx < data.channels@[ch]@.len() {
            data.channels@[ch]@[idx as int]
        } else {
            0
        },
{
    let mut arr = [0u8; 512];
    let mut ch: usize = 0;
    while ch < 512
        invariant
            ch <= 512,
            forall|c: int| 0 <= c < ch ==> arr@[c] == if c < data.channels@.len() && idx < data.channels@[c]@.len() {
                data.channels@[c]@[idx as int]
            } else {
                0
            },
            forall|c: int| ch <= c < 512 ==> arr@[c] == 0,
        decreases 512 - ch,
    {
        if ch < data.channels.len() && idx < data.channels[ch].len() {
            arr[ch] = data.channels[ch][idx];
        }
        ch = ch + 1;
    }
    arr
}

/// How long playback waits before a frame stamped `t_ms` when the previous
/// one was stamped `prev` (no wait before the first, never negative).
pub fn playback_delay(prev: Option<u64>, t_ms: u64) -> (r: u64)
    ensures
        r == match prev {
            Some(p) => if t_ms >= p { (t_ms - p) as u64 } else { 0 },
            None => 0,
        },
{
    match prev {
        Some(p) => if t_ms >= p { t_ms - p } else { 0 },
        None => 0,
    }
}

} // verus!
