//! Decoding of RIFF/WAVE data with signed-integer PCM samples into one
//! contiguous run of samples per channel.
use vstd::prelude::*;
use crate::interleave::{deinterleave, deinterleaved, lemma_deinterleaved_source};
use crate::pcm::{in_sample_range, in_unit_range, lemma_normalized_in_unit_range, normalized, supported_int_bits};

verus! {

#[verifier::external_type_specification]
#[verifier::external_body]
pub struct ExHoundError(hound::Error);

/// What the header of a WAVE stream says of its samples.
#[derive(Clone, Copy, Debug, PartialEq, Eq)]
pub struct WavHeader {
    pub channels: u16,
    pub sample_rate: u32,
    pub bits_per_sample: u16,
    /// IEEE float samples rather than signed integers.
    pub is_float: bool,
}

/// Why a WAVE stream could not be decoded.
#[derive(Clone, Copy, Debug, PartialEq, Eq)]
pub enum DecodeError {
    /// The underlying bytes could not be read.
    Io,
    /// The header or the layout of the data is ill-formed.
    Malformed,
    /// The stream uses an encoding that the WAVE reader does not handle.
    Unsupported,
    /// The samples are in a format that this decoder does not produce.
    UnsupportedFormat { bits_per_sample: u16, is_float: bool },
    /// The data ends in the middle of a sample or of a frame.
    Truncated,
}

/// Decoded audio: the header and the samples grouped by channel, each
/// channel one contiguous run of `samples.len() / channels` values.
#[derive(Debug)]
pub struct DecodedAudio {
    pub header: WavHeader,
    pub samples: Vec<i32>,
}

/// The header that hound reads from `bytes`, if it accepts them.
pub uninterp spec fn wav_header_of(bytes: Seq<u8>) -> Option<WavHeader>;

/// The integer samples, in file order, that hound reads from `bytes`, if it
/// reads them all.
pub uninterp spec fn wav_int_samples_of(bytes: Seq<u8>) -> Option<Seq<i32>>;

/// Relies on hound::WavReader::new and WavReader::spec: the header parsed
/// from the start of `bytes`, which depends on the bytes alone.
#[verifier::external_body]
fn read_header(bytes: &[u8]) -> (r: Result<WavHeader, hound::Error>)
    ensures
        match r {
            Ok(h) => wav_header_of(bytes@) == Some(h),
            Err(_) => wav_header_of(bytes@) is None,
        },
{
    let spec = hound::WavReader::new(std::io::Cursor::new(bytes))?.spec();
    let is_float = matches!(spec.sample_format, hound::SampleFormat::Float);
    Ok(WavHeader {
        channels: spec.channels,
        sample_rate: spec.sample_rate,
        bits_per_sample: spec.bits_per_sample,
        is_float,
    })
}

/// Relies on hound::WavReader::new and WavReader::samples::<i32>: every
/// sample of `bytes` in file order, or the first error met; this depends on
/// the bytes alone. A sample is read only at a depth of 8, 16, 24 or 32 bits,
/// and is sign-extended from that depth, so it lies in the depth's range.
#[verifier::external_body]
fn read_int_samples(bytes: &[u8]) -> (r: Result<Vec<i32>, hound::Error>)
    ensures
        match r {
            Ok(v) => {
                &&& wav_int_samples_of(bytes@) == Some(v@)
                &&& wav_header_of(bytes@) matches Some(h)
                &&& v@.len() > 0 ==> supported_int_bits(h.bits_per_sample as nat)
                &&& forall|i: int| 0 <= i < v@.len() ==> in_sample_range(#[trigger] v@[i], h.bits_per_sample as nat)
            },
            Err(_) => wav_int_samples_of(bytes@) is None,
        },
{
    let mut reader = hound::WavReader::new(std::io::Cursor::new(bytes))?;
    reader.samples::<i32>().collect()
}

/// Relies on the variants of hound::Error: maps each to the error of this
/// library with the same meaning.
#[verifier::external_body]
fn error_kind(e: hound::Error) -> (r: DecodeError) {
    match e {
        hound::Error::IoError(_) => DecodeError::Io,
        hound::Error::FormatError(_) => DecodeError::Malformed,
        hound::Error::TooWide => DecodeError::Unsupported,
        hound::Error::UnfinishedSample => DecodeError::Truncated,
        hound::Error::Unsupported => DecodeError::Unsupported,
        hound::Error::InvalidSampleFormat => DecodeError::Unsupported,
    }
}

/// The error that a header earns before any sample is read, if any.
pub open spec fn header_error(h: WavHeader) -> Option<DecodeError> {
    if h.channels == 0 || h.sample_rate == 0 {
        Some(DecodeError::Malformed)
    } else if h.is_float || !supported_int_bits(h.bits_per_sample as nat) {
        Some(DecodeError::UnsupportedFormat { bits_per_sample: h.bits_per_sample, is_float: h.is_float })
    } else {
        None
    }
}

/// What decoding gives for header `h` and samples `s` in file order.
pub open spec fn decode_outcome(h: WavHeader, s: Seq<i32>, r: Result<DecodedAudio, DecodeError>) -> bool {
    match header_error(h) {
        Some(e) => r == Err::<DecodedAudio, DecodeError>(e),
        None => if s.len() % (h.channels as nat) != 0 {
            r == Err::<DecodedAudio, DecodeError>(DecodeError::Truncated)
        } else {
            &&& r is Ok
            &&& r->Ok_0.header == h
            &&& r->Ok_0.samples@ == deinterleaved(s, h.channels as nat)
        },
    }
}

/// Checks a header read from a stream.
pub fn check_header(h: WavHeader) -> (r: Option<DecodeError>)
    ensures
        r == header_error(h),
{
    if h.channels == 0 || h.sample_rate == 0 {
        Some(DecodeError::Malformed)
    } else if h.is_float || !(h.bits_per_sample == 8 || h.bits_per_sample == 16 || h.bits_per_sample == 24
        || h.bits_per_sample == 32) {
        Some(DecodeError::UnsupportedFormat { bits_per_sample: h.bits_per_sample, is_float: h.is_float })
    } else {
        None
    }
}

/// Builds decoded audio from a header and its samples in file order
/// (interleaved by channel).
pub fn assemble(header: WavHeader, interleaved: &[i32]) -> (r: Result<DecodedAudio, DecodeError>)
    ensures
        decode_outcome(header, interleaved@, r),
{
    if let Some(e) = check_header(header) {
        return Err(e);
    }
    let channels = header.channels as usize;
    if interleaved.len() % channels != 0 {
        return Err(DecodeError::Truncated);
    }
    let samples = deinterleave(interleaved, channels);
    Ok(DecodedAudio { header, samples })
}

/// Reads the header of a WAVE stream.
pub fn wav_header(bytes: &[u8]) -> (r: Result<WavHeader, DecodeError>)
    ensures
        wav_header_of(bytes@) is None <==> r is Err,
        r is Ok ==> wav_header_of(bytes@) == Some(r->Ok_0),
{
    match read_header(bytes) {
        Ok(h) => Ok(h),
        Err(e) => Err(error_kind(e)),
    }
}

/// Decodes a WAVE stream of signed-integer PCM samples: the header is checked
/// before any sample is read, and the samples come out grouped by channel.
pub fn decode(bytes: &[u8]) -> (r: Result<DecodedAudio, DecodeError>)
    ensures
        wav_header_of(bytes@) is None ==> r is Err,
        wav_header_of(bytes@) matches Some(h) ==> {
            &&& header_error(h) matches Some(e) ==> r == Err::<DecodedAudio, DecodeError>(e)
            &&& header_error(h) is None ==> {
                &&& wav_int_samples_of(bytes@) is None ==> r is Err
                &&& wav_int_samples_of(bytes@) matches Some(s) ==> decode_outcome(h, s, r)
            }
        },
        r matches Ok(a) ==> forall|k: int| 0 <= k < a.samples@.len() ==> {
            &&& in_sample_range(#[trigger] a.samples@[k], a.header.bits_per_sample as nat)
            &&& in_unit_range(normalized(a.samples@[k], a.header.bits_per_sample as nat))
        },
{
    let header = match wav_header(bytes) {
        Ok(h) => h,
        Err(e) => return Err(e),
    };
    if let Some(e) = check_header(header) {
        return Err(e);
    }
    match read_int_samples(bytes) {
        Ok(samples) => {
            let r = assemble(header, samples.as_slice());
            proof {
                if r is Ok {
                    let a = r->Ok_0;
                    let bits = header.bits_per_sample as nat;
                    let ch = header.channels as nat;
                    assert forall|k: int| 0 <= k < a.samples@.len() implies {
                        &&& in_sample_range(#[trigger] a.samples@[k], bits)
                        &&& in_unit_range(normalized(a.samples@[k], bits))
                    } by {
                        lemma_deinterleaved_source(samples@, ch, k);
                        let n = (samples@.len() / ch) as int;
                        let j = (k % n) * ch + k / n;
                        assert(in_sample_range(samples@[j], bits));
                        lemma_normalized_in_unit_range(a.samples@[k], bits);
                    }
                }
            }
            r
        },
        Err(e) => Err(error_kind(e)),
    }
}

} // verus!
