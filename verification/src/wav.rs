//! Audio-format inspection: the waveform container header is parsed by the
//! `hound` crate behind a trusted wrapper, and the reported profile is
//! checked against the fixed requirement of one channel, 16000 Hz, 16 bits.

use vstd::prelude::*;

verus! {

/// What parsing a byte buffer as a waveform container reports: channel
/// count, sample rate and bits per sample, or nothing when the container
/// is malformed. A function of the bytes alone.
pub uninterp spec fn wav_header_of(bytes: Seq<u8>) -> Option<(u16, u32, u16)>;

/// The derived attributes of an audio buffer's header.
#[derive(Debug)]
pub struct WavFormat {
    pub channels: u16,
    pub sample_rate: u32,
    pub bits_per_sample: u16,
}

/// The only profile the pipeline accepts: mono, 16 kHz, 16-bit.
pub open spec fn required_profile(f: WavFormat) -> bool {
    f.channels == 1 && f.sample_rate == 16000 && f.bits_per_sample == 16
}

/// Relies on `hound::WavReader::new` and `WavReader::spec`: the header of
/// the byte buffer is parsed up front, and the reported channel count,
/// sample rate and bits per sample are a function of the bytes alone.
/// The error text is hound's own diagnostic and is left unspecified.
#[verifier::external_body]
pub(crate) fn read_wav_header(bytes: &Vec<u8>) -> (r: Result<(u16, u32, u16), String>)
    ensures
        r is Ok <==> wav_header_of(bytes@) is Some,
        r is Ok ==> wav_header_of(bytes@) == Some(r->Ok_0),
{
    match hound::WavReader::new(std::io::Cursor::new(bytes.as_slice())) {
        Ok(reader) => {
            let ws = reader.spec();
            Ok((ws.channels, ws.sample_rate, ws.bits_per_sample))
        },
        Err(e) => Err(format!("{}", e)),
    }
}

/// Exec check of `required_profile`.
pub fn matches_required_profile(f: &WavFormat) -> (b: bool)
    ensures
        b == required_profile(*f),
{
    f.channels == 1 && f.sample_rate == 16000 && f.bits_per_sample == 16
}

} // verus!
