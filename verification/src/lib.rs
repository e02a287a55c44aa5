//! A verified core for a string-instrument rhythm trainer.
//!
//! The crate models timed guitar tracks (fret hits, slides, bends and
//! hand-position markers), parses and serializes them, generates the
//! reference pitch table used for tuning, classifies correlation spectra
//! into detected notes, and drives the audio-capture duty cycle.

pub mod capture;
pub mod note;
pub mod search;
pub mod service;
pub mod text;
pub mod track;
pub mod tuner;
pub mod wire;
