//! Audio sample pipeline of a WAV viewer: decoding and normalisation of PCM
//! data, channel (de-)interleaving, waveform downsampling for display, a
//! playback ring buffer and a square-wave generator.
use vstd::prelude::*;

pub mod cli;
pub mod decode;
pub mod downsample;
pub mod generator;
pub mod interleave;
pub mod log;
pub mod mixer;
pub mod pcm;
pub mod ring;
pub mod shuffle;
pub mod state;

pub use cli::CommandLineArgs;
pub use decode::{assemble, check_header, decode, wav_header, DecodeError, DecodedAudio, WavHeader};
pub use downsample::{downsample, downsample_channels, Bar};
pub use generator::{square, SquareWave};
pub use interleave::{deinterleave, interleave};
pub use log::Logger;
pub use mixer::top_up;
pub use pcm::{normalize, Fraction};
pub use ring::{refill_pause_micros, PlaybackRing};
pub use shuffle::{inshuffle_permutation, inverse_inshuffle_permutation, rotate, SliceInterleave};
pub use state::{AudioFile, State};

verus! {

} // verus!
