//! The oscillator: a wavetable, a phase cursor and the step between two pulls.

use crate::interpolation::{blend, interpolate, lemma_blend_at_zero, lemma_blend_between};
use crate::phase::{
    advance, lemma_wrap_drops_turns, lemma_wrap_fixes_circle, lemma_wrap_in_range,
    lemma_wrap_then_step, wrap,
};
use std::time::Duration;
use vstd::arithmetic::div_mod::{lemma_fundamental_div_mod, lemma_mod_bound, lemma_mod_self_0};
use vstd::prelude::*;

verus! {

/// Frequencies are given in thousandths of a hertz.
pub const MILLIHERTZ_PER_HERTZ: u64 = 1000;

/// Why an oscillator could not be built.
#[derive(Debug, Clone, Copy, PartialEq, Eq)]
pub enum OscillatorError {
    /// The table has fewer than two samples, so there is nothing to
    /// interpolate between.
    InvalidWavetable,
    /// The sample rate is zero.
    InvalidSampleRate,
}

/// What an oscillator is, mathematically.
///
/// The cursor and the step are counted in ticks. One table slot is
/// `sample_rate * 1000` ticks wide, so that the step that belongs to a
/// frequency in millihertz is a whole number of ticks.
pub struct OscillatorState {
    /// Samples per second that the consumer pulls.
    pub sample_rate: int,
    /// One period of the waveform.
    pub table: Seq<i16>,
    /// The phase cursor, in ticks from the start of the table.
    pub index: int,
    /// Ticks by which the cursor moves with each pull.
    pub increment: int,
}

impl OscillatorState {
    /// Width of one table slot, in ticks.
    pub open spec fn ticks_per_slot(self) -> int {
        self.sample_rate * MILLIHERTZ_PER_HERTZ
    }

    /// Length of the whole table, in ticks.
    pub open spec fn ticks_per_cycle(self) -> int {
        self.table.len() * self.ticks_per_slot()
    }

    /// The state is well formed: there is a rate, there are two samples or
    /// more, and the cursor lies within the table.
    pub open spec fn wf(self) -> bool {
        &&& self.sample_rate > 0
        &&& self.table.len() >= 2
        &&& 0 <= self.index < self.ticks_per_cycle()
    }

    /// The slot that the cursor stands in.
    pub open spec fn slot(self) -> int {
        self.index / self.ticks_per_slot()
    }

    /// The slot after that one; after the last slot comes the first.
    pub open spec fn next_slot(self) -> int {
        (self.slot() + 1) % (self.table.len() as int)
    }

    /// How far into its slot the cursor stands, in ticks.
    pub open spec fn fraction(self) -> int {
        self.index % self.ticks_per_slot()
    }

    /// The sample at the cursor: the two neighbouring table entries, blended
    /// by how far the cursor has moved from the first towards the second.
    pub open spec fn value(self) -> int {
        blend(
            self.table[self.slot()] as int,
            self.table[self.next_slot()] as int,
            self.fraction(),
            self.ticks_per_slot(),
        )
    }

    /// `sample` lies between the two table entries round the cursor.
    pub open spec fn encloses(self, sample: int) -> bool {
        let here = self.table[self.slot()] as int;
        let there = self.table[self.next_slot()] as int;
        here <= sample <= there || there <= sample <= here
    }

    /// The state after one pull.
    pub open spec fn advanced(self) -> OscillatorState {
        OscillatorState {
            index: wrap(self.index + self.increment, self.ticks_per_cycle()),
            ..self
        }
    }

    /// The state after a number of pulls.
    pub open spec fn after(self, pulls: nat) -> OscillatorState
        decreases pulls,
    {
        if pulls == 0 {
            self
        } else {
            self.after((pulls - 1) as nat).advanced()
        }
    }

    /// The state once the frequency has been set.
    pub open spec fn tuned(self, millihertz: int) -> OscillatorState {
        OscillatorState { increment: millihertz * self.table.len(), ..self }
    }
}

/// The cursor of a well-formed state stands in a slot of the table, and less
/// than one slot's width into it.
pub proof fn lemma_cursor_parts(state: OscillatorState)
    requires
        state.wf(),
    ensures
        0 <= state.slot() < state.table.len(),
        0 <= state.next_slot() < state.table.len(),
        0 <= state.fraction() < state.ticks_per_slot(),
        state.index == state.slot() * state.ticks_per_slot() + state.fraction(),
{
    let width = state.ticks_per_slot();
    let length = state.table.len() as int;
    assert(width > 0) by (nonlinear_arith)
        requires
            width == state.sample_rate * MILLIHERTZ_PER_HERTZ,
            state.sample_rate > 0,
            MILLIHERTZ_PER_HERTZ > 0,
    ;
    lemma_fundamental_div_mod(state.index, width);
    lemma_mod_bound(state.index, width);
    lemma_mod_bound(state.slot() + 1, length);
    assert(0 <= state.slot() < length) by (nonlinear_arith)
        requires
            state.index == width * state.slot() + state.fraction(),
            0 <= state.fraction() < width,
            0 <= state.index < length * width,
    ;
    assert(width * state.slot() == state.slot() * width) by (nonlinear_arith);
}

/// However often a sample is pulled, the cursor stays within the table, and
/// nothing but the cursor changes.
pub proof fn lemma_pulls_keep_cursor_in_table(state: OscillatorState, pulls: nat)
    requires
        state.wf(),
    ensures
        state.after(pulls).wf(),
        0 <= state.after(pulls).index < state.ticks_per_cycle(),
        state.after(pulls) == (OscillatorState { index: state.after(pulls).index, ..state }),
    decreases pulls,
{
    if pulls > 0 {
        let before = state.after((pulls - 1) as nat);
        lemma_pulls_keep_cursor_in_table(state, (pulls - 1) as nat);
        lemma_wrap_in_range(before.index + before.increment, before.ticks_per_cycle());
    }
}

/// After a number of pulls the cursor stands where that many steps in one
/// go would have taken it.
pub proof fn lemma_cursor_after_pulls(state: OscillatorState, pulls: nat)
    requires
        state.wf(),
    ensures
        state.after(pulls).index == wrap(
            state.index + pulls * state.increment,
            state.ticks_per_cycle(),
        ),
    decreases pulls,
{
    let cycle = state.ticks_per_cycle();
    if pulls == 0 {
        lemma_wrap_fixes_circle(state.index, cycle);
        assert(0 * state.increment == 0);
    } else {
        let fewer = (pulls - 1) as nat;
        lemma_cursor_after_pulls(state, fewer);
        lemma_pulls_keep_cursor_in_table(state, fewer);
        lemma_wrap_then_step(state.index + fewer * state.increment, state.increment, cycle);
        assert(fewer * state.increment + state.increment == pulls * state.increment)
            by (nonlinear_arith)
            requires
                fewer == pulls - 1,
        ;
    }
}

/// Pulls whose steps add up to whole turns round the table bring the state
/// back to where it was.
pub proof fn lemma_whole_turns_return(state: OscillatorState, pulls: nat, turns: int)
    requires
        state.wf(),
        pulls * state.increment == turns * state.ticks_per_cycle(),
    ensures
        state.after(pulls) == state,
{
    let cycle = state.ticks_per_cycle();
    lemma_cursor_after_pulls(state, pulls);
    lemma_pulls_keep_cursor_in_table(state, pulls);
    lemma_wrap_drops_turns(state.index, turns, cycle);
    lemma_wrap_fixes_circle(state.index, cycle);
}

/// Periodicity: where the step divides the length of the table, that many
/// pulls as steps make up the table bring the state back to where it was.
pub proof fn lemma_one_turn_returns(state: OscillatorState, pulls: nat)
    requires
        state.wf(),
        pulls * state.increment == state.ticks_per_cycle(),
    ensures
        state.after(pulls) == state,
{
    assert(1 * state.ticks_per_cycle() == state.ticks_per_cycle());
    lemma_whole_turns_return(state, pulls, 1);
}

/// Only the frequency that was set last counts: nothing of an earlier one
/// is left in the step.
pub proof fn lemma_last_frequency_counts(state: OscillatorState, earlier: int, last: int)
    ensures
        state.tuned(earlier).tuned(last) == state.tuned(last),
        state.tuned(last).tuned(last) == state.tuned(last),
{
}

/// A step that leads past the end of the table, by less than its length,
/// ends that far from its start.
pub proof fn lemma_step_past_end(state: OscillatorState)
    requires
        state.wf(),
        state.ticks_per_cycle() <= state.index + state.increment < 2 * state.ticks_per_cycle(),
    ensures
        state.advanced().index == state.index + state.increment - state.ticks_per_cycle(),
{
    let cycle = state.ticks_per_cycle();
    let target = state.index + state.increment;
    lemma_wrap_drops_turns(target - cycle, 1, cycle);
    lemma_wrap_fixes_circle(target - cycle, cycle);
    assert(1 * cycle == cycle);
}

/// Where the cursor stands exactly on a table entry, the sample is that entry.
pub proof fn lemma_value_on_entry(state: OscillatorState)
    requires
        state.wf(),
        state.fraction() == 0,
    ensures
        state.value() == state.table[state.slot()],
{
    lemma_cursor_parts(state);
    lemma_blend_at_zero(
        state.table[state.slot()] as int,
        state.table[state.next_slot()] as int,
        state.ticks_per_slot(),
    );
}

/// In the last slot the sample is blended from the last entry and the first:
/// the table closes to a ring.
pub proof fn lemma_last_slot_meets_first(state: OscillatorState)
    requires
        state.wf(),
        state.slot() == state.table.len() - 1,
    ensures
        state.next_slot() == 0,
        state.value() == blend(
            state.table[state.table.len() - 1] as int,
            state.table[0] as int,
            state.fraction(),
            state.ticks_per_slot(),
        ),
{
    lemma_mod_self_0(state.table.len() as int);
}

/// The sample lies between the two table entries round the cursor.
pub proof fn lemma_value_between_neighbours(state: OscillatorState)
    requires
        state.wf(),
    ensures
        state.encloses(state.value()),
{
    lemma_cursor_parts(state);
    lemma_blend_between(
        state.table[state.slot()] as int,
        state.table[state.next_slot()] as int,
        state.fraction(),
        state.ticks_per_slot(),
    );
}

/// The sample lies within any bounds that hold of the whole table: no pull
/// leaves the range that the table spans.
pub proof fn lemma_value_within_table(state: OscillatorState, low: int, high: int)
    requires
        state.wf(),
        forall|i: int| 0 <= i < state.table.len() ==> low <= #[trigger] state.table[i] <= high,
    ensures
        low <= state.value() <= high,
{
    lemma_cursor_parts(state);
    lemma_value_between_neighbours(state);
}

/// A wavetable oscillator.
#[derive(Debug)]
pub struct WavetableOscillator {
    sample_rate: u32,
    wavetable: Vec<i16>,
    index: u128,
    index_increment: i128,
}

impl View for WavetableOscillator {
    type V = OscillatorState;

    closed spec fn view(&self) -> OscillatorState {
        OscillatorState {
            sample_rate: self.sample_rate as int,
            table: self.wavetable@,
            index: self.index as int,
            increment: self.index_increment as int,
        }
    }
}

impl WavetableOscillator {
    /// Builds an oscillator that stands still at the start of the table.
    pub fn new(sample_rate: u32, wavetable: Vec<i16>) -> (made: Result<
        WavetableOscillator,
        OscillatorError,
    >)
        ensures
            match made {
                Ok(oscillator) => {
                    &&& wavetable@.len() >= 2
                    &&& sample_rate > 0
                    &&& oscillator@ == (OscillatorState {
                        sample_rate: sample_rate as int,
                        table: wavetable@,
                        index: 0,
                        increment: 0,
                    })
                    &&& oscillator@.wf()
                },
                Err(OscillatorError::InvalidWavetable) => wavetable@.len() < 2,
                Err(OscillatorError::InvalidSampleRate) => wavetable@.len() >= 2 && sample_rate
                    == 0,
            },
    {
        if wavetable.len() < 2 {
            return Err(OscillatorError::InvalidWavetable);
        }
        if sample_rate == 0 {
            return Err(OscillatorError::InvalidSampleRate);
        }
        proof {
            assert(0 < wavetable@.len() * (sample_rate * MILLIHERTZ_PER_HERTZ)) by (nonlinear_arith)
                requires
                    wavetable@.len() >= 2,
                    sample_rate > 0,
            ;
        }
        Ok(WavetableOscillator { sample_rate, wavetable, index: 0, index_increment: 0 })
    }

    /// Width of one table slot, in ticks.
    pub fn ticks_per_slot(&self) -> (ticks: u64)
        ensures
            ticks == self@.ticks_per_slot(),
    {
        self.sample_rate as u64 * MILLIHERTZ_PER_HERTZ
    }

    /// Length of the whole table, in ticks.
    pub fn ticks_per_cycle(&self) -> (ticks: u128)
        ensures
            ticks == self@.ticks_per_cycle(),
            ticks <= i128::MAX,
    {
        let slot: u64 = self.ticks_per_slot();
        let length: usize = self.wavetable.len();
        proof {
            assert(length * slot <= 0xffff_ffff_ffff_ffff * 0xffff_ffff_ffff) by (nonlinear_arith)
                requires
                    length <= 0xffff_ffff_ffff_ffff,
                    slot <= 0xffff_ffff_ffff,
            ;
        }
        length as u128 * slot as u128
    }

    /// Sets the frequency, in millihertz. It takes effect with the next pull.
    ///
    /// With each pull the cursor then moves by `millihertz * length` ticks,
    /// which is `frequency * length / sample_rate` table slots, exactly. A
    /// negative frequency runs the cursor backwards, and nothing keeps the
    /// frequency below half the sample rate.
    pub fn set_frequency(&mut self, millihertz: i64)
        ensures
            final(self)@ == old(self)@.tuned(millihertz as int),
            final(self)@.increment == millihertz * old(self)@.table.len(),
            old(self)@.wf() ==> final(self)@.wf(),
    {
        let length: usize = self.wavetable.len();
        proof {
            assert(-0x8000_0000_0000_0000 * 0xffff_ffff_ffff_ffff <= millihertz * length
                <= 0x7fff_ffff_ffff_ffff * 0xffff_ffff_ffff_ffff) by (nonlinear_arith)
                requires
                    -0x8000_0000_0000_0000 <= millihertz <= 0x7fff_ffff_ffff_ffff,
                    0 <= length <= 0xffff_ffff_ffff_ffff,
            ;
        }
        self.index_increment = millihertz as i128 * length as i128;
    }

    /// The sample at the cursor, which stays where it is.
    pub fn lerp(&self) -> (sample: i16)
        requires
            self@.wf(),
        ensures
            sample == self@.value(),
            self@.encloses(sample as int),
    {
        let slot_width: u64 = self.ticks_per_slot();
        let length: usize = self.wavetable.len();
        proof {
            lemma_cursor_parts(self@);
            lemma_value_between_neighbours(self@);
        }
        let truncated_index: usize = (self.index / slot_width as u128) as usize;
        let next_index: usize = (truncated_index + 1) % length;
        let next_index_weight: u64 = (self.index % slot_width as u128) as u64;
        interpolate(
            self.wavetable[truncated_index],
            self.wavetable[next_index],
            next_index_weight,
            slot_width,
        )
    }

    /// Pulls one sample: returns the sample at the cursor and then moves the
    /// cursor on by one step, wrapping it at the end of the table.
    pub fn get_sample(&mut self) -> (sample: i16)
        requires
            old(self)@.wf(),
        ensures
            sample == old(self)@.value(),
            old(self)@.encloses(sample as int),
            final(self)@ == old(self)@.advanced(),
            final(self)@.wf(),
    {
        let sample: i16 = self.lerp();
        let cycle: u128 = self.ticks_per_cycle();
        proof {
            lemma_wrap_in_range(self@.index + self@.increment, cycle as int);
        }
        self.index = advance(self.index, self.index_increment, cycle);
        sample
    }

    /// Pulls one sample, as a stream that never ends hands it out.
    pub fn next(&mut self) -> (item: Option<i16>)
        requires
            old(self)@.wf(),
        ensures
            item matches Some(sample) && sample == old(self)@.value() && old(self)@.encloses(
                sample as int,
            ),
            final(self)@ == old(self)@.advanced(),
            final(self)@.wf(),
    {
        Some(self.get_sample())
    }

    /// Number of channels: the stream is mono.
    pub fn channels(&self) -> (count: u16)
        ensures
            count == 1,
    {
        1
    }

    /// Samples per second that the stream is meant to be pulled at.
    pub fn sample_rate(&self) -> (rate: u32)
        ensures
            rate == self@.sample_rate,
    {
        self.sample_rate
    }

    /// Length of the current frame: none, the stream has no frames.
    pub fn current_frame_len(&self) -> (length: Option<usize>)
        ensures
            length.is_none(),
    {
        None
    }

    /// Duration of the whole stream: none, it never ends.
    pub fn total_duration(&self) -> (duration: Option<Duration>)
        ensures
            duration.is_none(),
    {
        None
    }

    /// The phase cursor, in ticks from the start of the table.
    pub fn index(&self) -> (ticks: u128)
        ensures
            ticks == self@.index,
    {
        self.index
    }

    /// Ticks by which the cursor moves with each pull.
    pub fn index_increment(&self) -> (ticks: i128)
        ensures
            ticks == self@.increment,
    {
        self.index_increment
    }
}

} // verus!
