//! A browser for large collections of sound effects: the logic behind its index,
//! its search and its player.
//!
//! * [`formats`] and [`paths`]: which files matter, and the names inside paths.
//! * [`sidecar`]: tables and notes that describe the audio files next to them.
//! * [`tags`] and [`dsp`]: the tags of a file, from its name, its sidecar and
//!   the signal itself.
//! * [`indexer`], [`roots`] and [`db`]: scanning a root and keeping the index.
//! * [`query`], [`words`], [`placeholders`] and [`facets`]: searching the index
//!   and counting what the side panels show.
//! * [`player`] and [`waveform`]: playback, metering and the waveform overview.
//! * [`text`], [`numbers`] and [`ieee`]: texts, decimal numbers, and
//!   floating-point numbers by their bits.
//! * [`laws`]: what holds of all of these, whatever they are given.

pub mod db;
pub mod dsp;
pub mod facets;
pub mod formats;
pub mod ieee;
pub mod indexer;
pub mod laws;
pub mod numbers;
pub mod paths;
pub mod placeholders;
pub mod player;
pub mod query;
pub mod roots;
pub mod sidecar;
pub mod tags;
pub mod text;
pub mod waveform;
pub mod words;
