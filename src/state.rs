//! The file the application currently shows, replaced whole on each load.
use vstd::prelude::*;
use crate::decode::{decode, header_error, wav_header_of, wav_int_samples_of, DecodeError};
use crate::interleave::deinterleaved;
use crate::pcm::{in_sample_range, in_unit_range, normalized};

verus! {

/// A decoded file: its samples grouped by channel, one run of
/// `samples.len() / channels` values per channel.
#[derive(Debug)]
pub struct AudioFile {
    pub filename: String,
    pub samples: Vec<i32>,
    pub channels: u16,
    pub sample_rate: u32,
    pub bits_per_sample: u16,
}

/// Whether `bytes` decode, and to a file whose fields are those of `f`.
pub open spec fn decodes_to(bytes: Seq<u8>, f: AudioFile) -> bool {
    &&& wav_header_of(bytes) matches Some(h)
    &&& header_error(h) is None
    &&& wav_int_samples_of(bytes) matches Some(s)
    &&& s.len() % (h.channels as nat) == 0
    &&& f.channels == h.channels
    &&& f.sample_rate == h.sample_rate
    &&& f.bits_per_sample == h.bits_per_sample
    &&& f.samples@ == deinterleaved(s, h.channels as nat)
    &&& forall|k: int| 0 <= k < f.samples@.len() ==> {
        &&& in_sample_range(#[trigger] f.samples@[k], f.bits_per_sample as nat)
        &&& in_unit_range(normalized(f.samples@[k], f.bits_per_sample as nat))
    }
}

/// Whether `bytes` decode at all.
pub open spec fn decodable(bytes: Seq<u8>) -> bool {
    &&& wav_header_of(bytes) matches Some(h)
    &&& header_error(h) is None
    &&& wav_int_samples_of(bytes) matches Some(s)
    &&& s.len() % (h.channels as nat) == 0
}

/// The state the renderer draws from.
#[derive(Debug)]
pub struct State {
    pub current_file: Option<AudioFile>,
}

impl State {
    /// A state with no file open.
    pub fn new() -> (r: Self)
        ensures
            r.current_file is None,
    {
        State { current_file: None }
    }

    /// Decodes `bytes`, read from `filename`, and makes the result the
    /// current file; on failure the state is left as it was.
    pub fn load_file(&mut self, filename: String, bytes: &[u8]) -> (r: Result<(), DecodeError>)
        ensures
            r is Ok <==> decodable(bytes@),
            r is Ok ==> {
                &&& final(self).current_file matches Some(f)
                &&& f.filename == filename
                &&& decodes_to(bytes@, f)
            },
            r is Err ==> *final(self) == *old(self),
    {
        match decode(bytes) {
            Ok(audio) => {
                let file = AudioFile {
                    filename,
                    channels: audio.header.channels,
                    sample_rate: audio.header.sample_rate,
                    bits_per_sample: audio.header.bits_per_sample,
                    samples: audio.samples,
                };
                self.current_file = Some(file);
                Ok(())
            },
            Err(e) => Err(e),
        }
    }
}

} // verus!
