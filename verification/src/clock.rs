//! The epoch clock: turns the host's monotonically increasing block height
//! into a discrete epoch number through `(height - offset) / period`.

use vstd::prelude::*;

verus! {

/// The clock's configuration: epochs begin `offset` blocks after genesis and
/// last `period` blocks each. `period` is at least 1.
#[derive(Clone, Copy)]
pub struct Epoch {
    pub offset: u32,
    pub period: u32,
}

impl Epoch {
    /// The clock is usable only with a positive period.
    pub open spec fn wf(self) -> bool {
        self.period >= 1
    }

    /// The epoch that block `height` falls in.
    pub open spec fn epoch_of(self, height: u32) -> int
        recommends
            self.wf(),
            height >= self.offset,
    {
        (height - self.offset) / (self.period as int)
    }

    pub fn new(offset: u32, period: u32) -> (e: Epoch)
        requires
            period >= 1,
        ensures
            e.wf(),
            e.offset == offset,
            e.period == period,
    {
        Epoch { offset, period }
    }

    /// Moves the start of the first epoch.
    pub fn set_offset(&mut self, offset: u32)
        ensures
            final(self).offset == offset,
            final(self).period == old(self).period,
    {
        self.offset = offset;
    }

    /// Changes the length of an epoch.
    pub fn set_period(&mut self, period: u32)
        requires
            period >= 1,
        ensures
            final(self).period == period,
            final(self).offset == old(self).offset,
            final(self).wf(),
    {
        self.period = period;
    }

    pub fn get_offset(&self) -> (r: u32)
        ensures
            r == self.offset,
    {
        self.offset
    }

    pub fn get_period_length(&self) -> (r: u32)
        ensures
            r == self.period,
    {
        self.period
    }

    /// The current epoch at block `height`.
    pub fn get_current_epoch(&self, height: u32) -> (r: u32)
        requires
            self.wf(),
            height >= self.offset,
        ensures
            r == self.epoch_of(height),
    {
        (height - self.offset) / self.period
    }

    /// How many whole epochs lie between the epoch of `since` and the epoch
    /// of `height`.
    pub fn get_current_epoch_since(&self, since: u32, height: u32) -> (r: u32)
        requires
            self.wf(),
            self.offset <= since <= height,
        ensures
            r == self.epoch_of(height) - self.epoch_of(since),
    {
        let s = (since - self.offset) / self.period;
        let off = (height - self.offset) / self.period;
        proof {
            vstd::arithmetic::div_mod::lemma_div_is_ordered(
                (since - self.offset) as int,
                (height - self.offset) as int,
                self.period as int,
            );
        }
        off - s
    }

    /// The position of block `height` inside its epoch.
    pub fn get_current_block(&self, height: u32) -> (r: u32)
        requires
            self.wf(),
            height >= self.offset,
        ensures
            r == (height - self.offset) % (self.period as int),
    {
        (height - self.offset) % self.period
    }
}

/// A thin accessor around a clock value, handed to the components that need
/// one at construction time.
#[derive(Clone, Copy)]
pub struct EpochProxy {
    pub epoch: Epoch,
}

impl EpochProxy {
    pub fn new(init_value: Epoch) -> (p: EpochProxy)
        ensures
            p.epoch == init_value,
    {
        EpochProxy { epoch: init_value }
    }

    pub fn get(&self) -> (e: Epoch)
        ensures
            e == self.epoch,
    {
        self.epoch
    }
}

/// Whole epochs (or blocks) elapsed between `since` and `now`; zero when
/// `since` lies in the future, so the distance never underflows.
pub open spec fn spec_elapsed(now: u32, since: u32) -> u32 {
    if now >= since {
        (now - since) as u32
    } else {
        0
    }
}

/// Executable counterpart of [`spec_elapsed`].
pub fn elapsed(now: u32, since: u32) -> (r: u32)
    ensures
        r == spec_elapsed(now, since),
{
    if now >= since {
        now - since
    } else {
        0
    }
}

} // verus!
