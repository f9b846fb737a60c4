use vstd::prelude::*;

verus! {

/// Why a command's arguments are refused.
#[derive(Debug, Clone, Copy, PartialEq, Eq, Structural)]
pub enum ConfigError {
    /// A full universe must hold exactly 512 values.
    WrongChannelCount,
    /// Channel numbers start at 1.
    ChannelZero,
}

/// The universe being transmitted, channel 1 at index 0, and the sequence
/// counter of outgoing packets.
#[derive(Debug, Clone, Copy)]
pub struct LiveBuffer {
    pub channels: [u8; 512],
    pub sequence: u8,
}

/// The counter after `n` advances from `s`.
pub open spec fn advanced(s: u8, n: nat) -> u8
    decreases n,
{
    if n == 0 {
        s
    } else {
        ((advanced(s, (n - 1) as nat) + 1) % 256) as u8
    }
}

proof fn lemma_advanced_mod(s: u8, n: nat)
    ensures
        advanced(s, n) as nat == (s as nat + n) % 256,
    decreases n,
{
    if n > 0 {
        lemma_advanced_mod(s, (n - 1) as nat);
        assert(((s as nat + (n - 1)) % 256 + 1) % 256 == (s as nat + n) % 256) by (nonlinear_arith);
    }
}

/// The sequence counter wraps: 256 advances bring it back where it started.
pub proof fn lemma_sequence_wrap(s: u8)
    ensures
        advanced(s, 256) == s,
{
    lemma_advanced_mod(s, 256);
    assert((s as nat + 256) % 256 == s as nat);
}

impl LiveBuffer {
    /// All channels dark, counter at zero.
    pub fn new() -> (r: Self)
        ensures
            forall|i: int| 0 <= i < 512 ==> r.channels@[i] == 0,
            r.sequence == 0,
    {
        LiveBuffer { channels: [0u8; 512], sequence: 0 }
    }

    pub fn snapshot(&self) -> (r: [u8; 512])
        ensures
            r@ == self.channels@,
    {
        self.channels
    }

    /// Sets one channel; an index past the universe is ignored.
    pub fn set_channel(&mut self, index: usize, value: u8)
        ensures
            final(self).sequence == old(self).sequence,
            index < 512 ==> final(self).channels@ == old(self).channels@.update(index as int, value),
            index >= 512 ==> final(self).channels@ == old(self).channels@,
    {
        if index < 512 {
            self.channels[index] = value;
        }
    }

    /// Replaces the whole universe; refused unless `values` holds 512 bytes.
    pub fn set_channels(&mut self, values: &[u8]) -> (r: Result<(), ConfigError>)
        ensures
            final(self).sequence == old(self).sequence,
            values@.len() == 512 ==> r.is_ok() && final(self).channels@ == values@,
            values@.len() != 512 ==> r == Err::<(), ConfigError>(ConfigError::WrongChannelCount)
                && final(self).channels@ == old(self).channels@,
    {
        if values.len() != 512 {
            return Err(ConfigError::WrongChannelCount);
        }
        let mut i: usize = 0;
        while i < 512
            invariant
                i <= 512,
                values@.len() == 512,
                self.sequence == old(self).sequence,
                forall|j: int| 0 <= j < i ==> self.channels@[j] == values@[j],
            decreases 512 - i,
        {
            self.channels[i] = values[i];
            i = i + 1;
        }
        assert(self.channels@ =~= values@);
        Ok(())
    }

    /// Advances the counter, wrapping after 255, and returns the new value.
    pub fn next_sequence(&mut self) -> (r: u8)
        ensures
            r == advanced(old(self).sequence, 1),
            final(self).sequence == r,
            final(self).channels@ == old(self).channels@,
    {
        proof {
            assert(advanced(self.sequence, 0) == self.sequence);
        }
        self.sequence = if self.sequence == 255 { 0 } else { self.sequence + 1 };
        self.sequence
    }
}

/// `value * master / 255`: a channel value under the master fader.
pub open spec fn scaled(value: u8, master: u8) -> u8 {
    (value as nat * master as nat / 255) as u8
}

/// Every channel of `values` under the master fader `master`.
pub fn apply_master_scaling(values: &[u8; 512], master: u8) -> (r: [u8; 512])
    ensures
        forall|i: int| 0 <= i < 512 ==> r@[i] == scaled(values@[i], master),
{
    let mut out = [0u8; 512];
    let mut i: usize = 0;
    while i < 512
        invariant
            i <= 512,
            forall|j: int| 0 <= j < i ==> out@[j] == scaled(values@[j], master),
        decreases 512 - i,
    {
        let v = values[i];
        proof {
            assert(v as nat * master as nat <= 255 * 255) by (nonlinear_arith)
                requires v <= 255, master <= 255;
            assert(v as nat * master as nat / 255 <= 255) by (nonlinear_arith)
                requires v as nat * master as nat <= 255 * 255;
        }
        out[i] = ((v as u16 * master as u16) / 255) as u8;
        i = i + 1;
    }
    out
}

/// The universe that an animation step writes: every channel at `level`,
/// scaled by `master`.
pub fn animation_frame(level: u8, master: u8) -> (r: [u8; 512])
    ensures
        forall|i: int| 0 <= i < 512 ==> r@[i] == scaled(level, master),
{
    let flat = [level; 512];
    apply_master_scaling(&flat, master)
}

} // verus!
