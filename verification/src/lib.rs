//! A wavetable oscillator in exact integer arithmetic.
//!
//! The oscillator owns one period of a waveform as 16-bit samples and a phase
//! cursor. Each pull returns the linear interpolation of the two table entries
//! round the cursor and then moves the cursor on by a step that the frequency
//! fixes. Cursor and step are counted in ticks, a whole number of which make up
//! one table slot, so that a frequency in millihertz gives a step without
//! rounding and no error builds up however long the oscillator runs.
//!
//! - [`oscillator`] holds the oscillator, its mathematical state and what
//!   holds of that state;
//! - [`interpolation`] blends two samples;
//! - [`phase`] moves a cursor round a circle.
#![allow(unused_imports)]

pub mod interpolation;
pub mod oscillator;
pub mod phase;
