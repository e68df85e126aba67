//! Inspection of the WAV files that serve as impulse responses.
use vstd::prelude::*;

use crate::text::push_str;

verus! {

/// The longest impulse response, in seconds.
pub const MAX_DURATION_SECONDS: u64 = 30;

/// The largest WAV file accepted, in bytes.
pub const MAX_FILE_BYTES: u64 = 67108864;

/// The little-endian 16-bit value at `o`.
pub open spec fn le_u16(b: Seq<u8>, o: int) -> int {
    b[o] as int + 256 * (b[o + 1] as int)
}

/// The little-endian 32-bit value at `o`.
pub open spec fn le_u32(b: Seq<u8>, o: int) -> int {
    b[o] as int + 256 * (b[o + 1] as int) + 65536 * (b[o + 2] as int) + 16777216 * (b[o + 3] as int)
}

/// The four bytes at `o` are the ASCII characters `a`, `b`, `c`, `d`.
pub open spec fn tag_at(b: Seq<u8>, o: int, t: (u8, u8, u8, u8)) -> bool {
    b[o] == t.0 && b[o + 1] == t.1 && b[o + 2] == t.2 && b[o + 3] == t.3
}

pub open spec fn riff_tag() -> (u8, u8, u8, u8) {
    (82, 73, 70, 70)
}

pub open spec fn wave_tag() -> (u8, u8, u8, u8) {
    (87, 65, 86, 69)
}

pub open spec fn fmt_tag() -> (u8, u8, u8, u8) {
    (102, 109, 116, 32)
}

pub open spec fn data_tag() -> (u8, u8, u8, u8) {
    (100, 97, 116, 97)
}

/// Why a file is not an impulse response that the project can use.
#[derive(Clone, Copy, Debug, PartialEq, Eq, Structural)]
pub enum WavProblem {
    NotWavExtension,
    NotAFile,
    TooLarge,
    NoRiffHeader,
    ChunkOverflow,
    ChunkBeyondEnd,
    FormatIncomplete,
    NoFormat,
    UnsupportedEncoding,
    NotMono,
    ZeroSampleRate,
    UnsupportedSampleFormat,
    BlockAlignMismatch,
    NoSamples,
    PartialFrame,
    TooLong,
    AssetConflict,
}

/// The text that describes each problem.
pub open spec fn problem_text(p: WavProblem) -> Seq<char> {
    match p {
        WavProblem::NotWavExtension => "select a file with a .wav extension"@,
        WavProblem::NotAFile => "the selected path is not a file"@,
        WavProblem::TooLarge => "the WAV file must be no larger than 64 MiB"@,
        WavProblem::NoRiffHeader => "the file does not contain a RIFF/WAVE header"@,
        WavProblem::ChunkOverflow => "a WAV chunk length overflows the file size"@,
        WavProblem::ChunkBeyondEnd => "a WAV chunk extends beyond the end of the file"@,
        WavProblem::FormatIncomplete => "the WAV format chunk is incomplete"@,
        WavProblem::NoFormat => "the WAV file has no format chunk"@,
        WavProblem::UnsupportedEncoding => "only PCM and IEEE-float WAV files are supported"@,
        WavProblem::NotMono => "the impulse response must contain exactly one channel"@,
        WavProblem::ZeroSampleRate => "the WAV sample rate must be greater than zero"@,
        WavProblem::UnsupportedSampleFormat => "the WAV sample format is not supported"@,
        WavProblem::BlockAlignMismatch => "the WAV block alignment does not match its sample format"@,
        WavProblem::NoSamples => "the WAV file contains no audio samples"@,
        WavProblem::PartialFrame => "the WAV audio data ends in a partial sample frame"@,
        WavProblem::TooLong => "the impulse response must be no longer than 30 seconds"@,
        WavProblem::AssetConflict => "the content-addressed asset already exists with different contents"@,
    }
}

impl WavProblem {
    pub fn message(self) -> (r: String)
        ensures
            r@ == problem_text(self),
    {
        match self {
            WavProblem::NotWavExtension => "select a file with a .wav extension".to_owned(),
            WavProblem::NotAFile => "the selected path is not a file".to_owned(),
            WavProblem::TooLarge => "the WAV file must be no larger than 64 MiB".to_owned(),
            WavProblem::NoRiffHeader => "the file does not contain a RIFF/WAVE header".to_owned(),
            WavProblem::ChunkOverflow => "a WAV chunk length overflows the file size".to_owned(),
            WavProblem::ChunkBeyondEnd => "a WAV chunk extends beyond the end of the file".to_owned(),
            WavProblem::FormatIncomplete => "the WAV format chunk is incomplete".to_owned(),
            WavProblem::NoFormat => "the WAV file has no format chunk".to_owned(),
            WavProblem::UnsupportedEncoding => "only PCM and IEEE-float WAV files are supported".to_owned(),
            WavProblem::NotMono => "the impulse response must contain exactly one channel".to_owned(),
            WavProblem::ZeroSampleRate => "the WAV sample rate must be greater than zero".to_owned(),
            WavProblem::UnsupportedSampleFormat => "the WAV sample format is not supported".to_owned(),
            WavProblem::BlockAlignMismatch => "the WAV block alignment does not match its sample format".to_owned(),
            WavProblem::NoSamples => "the WAV file contains no audio samples".to_owned(),
            WavProblem::PartialFrame => "the WAV audio data ends in a partial sample frame".to_owned(),
            WavProblem::TooLong => "the impulse response must be no longer than 30 seconds".to_owned(),
            WavProblem::AssetConflict => "the content-addressed asset already exists with different contents".to_owned(),
        }
    }
}

/// Why an impulse response could not be read or used.
#[derive(Debug, PartialEq, Eq)]
pub enum ImpulseResponseError {
    /// Reading `path` failed; `message` is what the system said.
    Io { path: String, message: String },
    /// The file at `path` cannot be used.
    Invalid { path: String, problem: WavProblem },
}

impl ImpulseResponseError {
    pub fn invalid(path: &str, problem: WavProblem) -> (r: Self)
        ensures
            r matches ImpulseResponseError::Invalid { path: p, problem: q } && p@ == path@ && q
                == problem,
    {
        ImpulseResponseError::Invalid { path: path.to_owned(), problem }
    }

    /// The text of the error, as it is shown to the user.
    pub fn message(&self) -> (r: String)
        ensures
            r@ == match self {
                ImpulseResponseError::Io { path, message } => "failed to read "@ + path@ + ": "@
                    + message@,
                ImpulseResponseError::Invalid { path, problem } => "invalid impulse response at "@
                    + path@ + ": "@ + problem_text(*problem),
            },
    {
        match self {
            ImpulseResponseError::Io { path, message } => {
                let mut r = "failed to read ".to_owned();
                push_str(&mut r, path.as_str());
                push_str(&mut r, ": ");
                push_str(&mut r, message.as_str());
                r
            },
            ImpulseResponseError::Invalid { path, problem } => {
                let mut r = "invalid impulse response at ".to_owned();
                push_str(&mut r, path.as_str());
                push_str(&mut r, ": ");
                let text = problem.message();
                push_str(&mut r, text.as_str());
                r
            },
        }
    }
}

/// The fields of a WAV format chunk that inspection reads.
#[derive(Clone, Copy, Debug, PartialEq, Eq, Structural)]
pub struct WavFormat {
    pub audio_format: u16,
    pub channels: u16,
    pub sample_rate: u32,
    pub block_align: u16,
    pub bits_per_sample: u16,
}

/// The format chunk whose content starts at `o`.
pub open spec fn format_at(b: Seq<u8>, o: int) -> WavFormat {
    WavFormat {
        audio_format: le_u16(b, o) as u16,
        channels: le_u16(b, o + 2) as u16,
        sample_rate: le_u32(b, o + 4) as u32,
        block_align: le_u16(b, o + 12) as u16,
        bits_per_sample: le_u16(b, o + 14) as u16,
    }
}

/// `data + n`, at most `u64::MAX`.
pub open spec fn saturated(data: u64, n: int) -> u64 {
    if data + n > u64::MAX {
        u64::MAX
    } else {
        (data + n) as u64
    }
}

/// Walks the chunks from `offset`: the last format chunk seen, and the total size of the
/// data chunks.
pub open spec fn chunk_walk(b: Seq<u8>, offset: int, format: Option<WavFormat>, data: u64) -> Result<
    (Option<WavFormat>, u64),
    WavProblem,
>
    decreases b.len() + 1 - offset,
{
    if offset < 0 || offset + 8 > b.len() {
        Ok((format, data))
    } else {
        let size = le_u32(b, offset + 4);
        let start = offset + 8;
        let end = start + size;
        if end > usize::MAX {
            Err(WavProblem::ChunkOverflow)
        } else if end > b.len() {
            Err(WavProblem::ChunkBeyondEnd)
        } else if tag_at(b, offset, fmt_tag()) && size < 16 {
            Err(WavProblem::FormatIncomplete)
        } else {
            let format2 = if tag_at(b, offset, fmt_tag()) {
                Some(format_at(b, start))
            } else {
                format
            };
            let data2 = if tag_at(b, offset, data_tag()) {
                saturated(data, size)
            } else {
                data
            };
            chunk_walk(b, end + size % 2, format2, data2)
        }
    }
}

/// What inspection reports of a usable impulse response.
pub struct WavMetadataModel {
    pub sample_rate: u32,
    pub bits_per_sample: u16,
    pub frame_count: u64,
}

/// Whether the bits per sample suit the encoding: PCM takes 8, 16, 24 or 32 bits, IEEE
/// float 32 or 64.
pub open spec fn supported_bits(audio_format: u16, bits: u16) -> bool {
    if audio_format == 1 {
        bits == 8 || bits == 16 || bits == 24 || bits == 32
    } else if audio_format == 3 {
        bits == 32 || bits == 64
    } else {
        false
    }
}

/// The checks after the chunk walk, in order.
pub open spec fn checked_format(format: Option<WavFormat>, data: u64) -> Result<WavMetadataModel, WavProblem> {
    match format {
        None => Err(WavProblem::NoFormat),
        Some(f) => if !(f.audio_format == 1 || f.audio_format == 3) {
            Err(WavProblem::UnsupportedEncoding)
        } else if f.channels != 1 {
            Err(WavProblem::NotMono)
        } else if f.sample_rate == 0 {
            Err(WavProblem::ZeroSampleRate)
        } else if !supported_bits(f.audio_format, f.bits_per_sample) {
            Err(WavProblem::UnsupportedSampleFormat)
        } else if f.block_align == 0 || f.block_align != f.bits_per_sample / 8 {
            Err(WavProblem::BlockAlignMismatch)
        } else if data == 0 {
            Err(WavProblem::NoSamples)
        } else if data % (f.block_align as u64) != 0 {
            Err(WavProblem::PartialFrame)
        } else if data / (f.block_align as u64) > f.sample_rate * MAX_DURATION_SECONDS {
            Err(WavProblem::TooLong)
        } else {
            Ok(
                WavMetadataModel {
                    sample_rate: f.sample_rate,
                    bits_per_sample: f.bits_per_sample,
                    frame_count: (data / (f.block_align as u64)) as u64,
                },
            )
        },
    }
}

/// What inspecting the bytes of a WAV file gives: its metadata, or the first problem found.
pub open spec fn wav_metadata(b: Seq<u8>) -> Result<WavMetadataModel, WavProblem> {
    if b.len() < 12 || !tag_at(b, 0, riff_tag()) || !tag_at(b, 8, wave_tag()) {
        Err(WavProblem::NoRiffHeader)
    } else {
        match chunk_walk(b, 12, None, 0) {
            Err(p) => Err(p),
            Ok((format, data)) => checked_format(format, data),
        }
    }
}

/// The sample rate, sample size and length of a usable impulse response.
#[derive(Clone, Copy, Debug, PartialEq, Eq)]
pub struct WavMetadata {
    sample_rate: u32,
    bits_per_sample: u16,
    frame_count: u64,
}

impl View for WavMetadata {
    type V = WavMetadataModel;

    closed spec fn view(&self) -> WavMetadataModel {
        WavMetadataModel {
            sample_rate: self.sample_rate,
            bits_per_sample: self.bits_per_sample,
            frame_count: self.frame_count,
        }
    }
}

impl WavMetadata {
    pub fn sample_rate(self) -> (r: u32)
        ensures
            r == self@.sample_rate,
    {
        self.sample_rate
    }

    pub fn bits_per_sample(self) -> (r: u16)
        ensures
            r == self@.bits_per_sample,
    {
        self.bits_per_sample
    }

    pub fn frame_count(self) -> (r: u64)
        ensures
            r == self@.frame_count,
    {
        self.frame_count
    }
}

fn read_u16(b: &[u8], o: usize) -> (r: u16)
    requires
        o + 2 <= b@.len(),
    ensures
        r == le_u16(b@, o as int),
{
    b[o] as u16 + 256 * (b[o + 1] as u16)
}

fn read_u32(b: &[u8], o: usize) -> (r: u32)
    requires
        o + 4 <= b@.len(),
    ensures
        r == le_u32(b@, o as int),
{
    b[o] as u32 + 256 * (b[o + 1] as u32) + 65536 * (b[o + 2] as u32) + 16777216 * (b[o + 3] as u32)
}

fn has_tag(b: &[u8], o: usize, t: (u8, u8, u8, u8)) -> (r: bool)
    requires
        o + 4 <= b@.len(),
    ensures
        r == tag_at(b@, o as int, t),
{
    b[o] == t.0 && b[o + 1] == t.1 && b[o + 2] == t.2 && b[o + 3] == t.3
}

/// Checks that `contents` is a mono PCM or IEEE-float WAV file no longer than 30 seconds,
/// and reports its metadata; `path` names the file in the error.
pub fn inspect_wav_bytes(path: &str, contents: &[u8]) -> (r: Result<WavMetadata, ImpulseResponseError>)
    requires
        contents@.len() < usize::MAX,
    ensures
        match wav_metadata(contents@) {
            Ok(m) => r matches Ok(x) && x@ == m,
            Err(p) => r matches Err(ImpulseResponseError::Invalid { path: q, problem }) && q@ == path@
                && problem == p,
        },
{
    let len = contents.len();
    if len < 12 || !has_tag(contents, 0, (82, 73, 70, 70)) || !has_tag(contents, 8, (87, 65, 86, 69)) {
        return Err(ImpulseResponseError::invalid(path, WavProblem::NoRiffHeader));
    }
    let ghost b = contents@;
    let mut offset: usize = 12;
    let mut format: Option<WavFormat> = None;
    let mut data_bytes: u64 = 0;
    while offset <= len && len - offset >= 8
        invariant
            b == contents@,
            len == b.len(),
            len < usize::MAX,
            offset <= len + 1,
            len >= 12 && tag_at(b, 0, riff_tag()) && tag_at(b, 8, wave_tag()),
            chunk_walk(b, offset as int, format, data_bytes) == chunk_walk(b, 12, None, 0),
        decreases len + 1 - offset,
    {
        let chunk_size = read_u32(contents, offset + 4);
        let chunk_start = offset + 8;
        let chunk_end = match chunk_start.checked_add(chunk_size as usize) {
            Some(e) => e,
            None => {
                return Err(ImpulseResponseError::invalid(path, WavProblem::ChunkOverflow));
            },
        };
        if chunk_end > len {
            return Err(ImpulseResponseError::invalid(path, WavProblem::ChunkBeyondEnd));
        }
        if has_tag(contents, offset, (102, 109, 116, 32)) {
            if chunk_size < 16 {
                return Err(ImpulseResponseError::invalid(path, WavProblem::FormatIncomplete));
            }
            format = Some(
                WavFormat {
                    audio_format: read_u16(contents, chunk_start),
                    channels: read_u16(contents, chunk_start + 2),
                    sample_rate: read_u32(contents, chunk_start + 4),
                    block_align: read_u16(contents, chunk_start + 12),
                    bits_per_sample: read_u16(contents, chunk_start + 14),
                },
            );
        } else if has_tag(contents, offset, (100, 97, 116, 97)) {
            data_bytes = data_bytes.saturating_add(chunk_size as u64);
        }
        offset = chunk_end + (chunk_size % 2) as usize;
    }
    let format = match format {
        Some(f) => f,
        None => {
            return Err(ImpulseResponseError::invalid(path, WavProblem::NoFormat));
        },
    };
    if !(format.audio_format == 1 || format.audio_format == 3) {
        return Err(ImpulseResponseError::invalid(path, WavProblem::UnsupportedEncoding));
    }
    if format.channels != 1 {
        return Err(ImpulseResponseError::invalid(path, WavProblem::NotMono));
    }
    if format.sample_rate == 0 {
        return Err(ImpulseResponseError::invalid(path, WavProblem::ZeroSampleRate));
    }
    let bits = format.bits_per_sample;
    let supported = if format.audio_format == 1 {
        bits == 8 || bits == 16 || bits == 24 || bits == 32
    } else {
        bits == 32 || bits == 64
    };
    if !supported {
        return Err(ImpulseResponseError::invalid(path, WavProblem::UnsupportedSampleFormat));
    }
    let expected_block_align = format.channels * (format.bits_per_sample / 8);
    if format.block_align == 0 || format.block_align != expected_block_align {
        return Err(ImpulseResponseError::invalid(path, WavProblem::BlockAlignMismatch));
    }
    if data_bytes == 0 {
        return Err(ImpulseResponseError::invalid(path, WavProblem::NoSamples));
    }
    let block_align = format.block_align as u64;
    if data_bytes % block_align != 0 {
        return Err(ImpulseResponseError::invalid(path, WavProblem::PartialFrame));
    }
    let frame_count = data_bytes / block_align;
    if frame_count > format.sample_rate as u64 * MAX_DURATION_SECONDS {
        return Err(ImpulseResponseError::invalid(path, WavProblem::TooLong));
    }
    Ok(
        WavMetadata {
            sample_rate: format.sample_rate,
            bits_per_sample: format.bits_per_sample,
            frame_count,
        },
    )
}

/// A file of a RIFF/WAVE header, a 16-byte format chunk and one data chunk of `n` bytes is
/// accepted exactly when it is mono PCM of 8, 16, 24 or 32 bits or mono IEEE float of 32 or
/// 64 bits, its block align is the sample size in bytes, its rate is positive, and the data
/// is a whole number of frames, at least one and at most 30 seconds; it is then reported
/// with its own rate, sample size and `n / block_align` frames.
pub proof fn law_plain_wav_accepted(
    b: Seq<u8>,
    audio_format: u16,
    channels: u16,
    rate: u32,
    block_align: u16,
    bits: u16,
    n: u32,
)
    requires
        b.len() == 44 + n,
        b.len() < usize::MAX,
        tag_at(b, 0, riff_tag()),
        tag_at(b, 8, wave_tag()),
        tag_at(b, 12, fmt_tag()),
        le_u32(b, 16) == 16,
        le_u16(b, 20) == audio_format,
        le_u16(b, 22) == channels,
        le_u32(b, 24) == rate,
        le_u16(b, 32) == block_align,
        le_u16(b, 34) == bits,
        tag_at(b, 36, data_tag()),
        le_u32(b, 40) == n,
    ensures
        (wav_metadata(b) is Ok) <==> {
            &&& (audio_format == 1 && (bits == 8 || bits == 16 || bits == 24 || bits == 32)) || (
            audio_format == 3 && (bits == 32 || bits == 64))
            &&& channels == 1
            &&& rate > 0
            &&& block_align == bits / 8
            &&& n > 0
            &&& n % (block_align as u32) == 0
            &&& n / (block_align as u32) <= rate * MAX_DURATION_SECONDS
        },
        wav_metadata(b) is Ok ==> wav_metadata(b) == Ok::<WavMetadataModel, WavProblem>(
            WavMetadataModel {
                sample_rate: rate,
                bits_per_sample: bits,
                frame_count: (n / (block_align as u32)) as u64,
            },
        ),
{
    let f = WavFormat { audio_format, channels, sample_rate: rate, block_align, bits_per_sample: bits };
    assert(format_at(b, 20) == f);
    assert(chunk_walk(b, 12, None, 0) == chunk_walk(b, 36, Some(f), 0));
    assert(saturated(0, n as int) == n);
    assert(chunk_walk(b, 36, Some(f), 0) == chunk_walk(b, 44 + n + n % 2, Some(f), n as u64));
    assert(chunk_walk(b, 44 + n + n % 2, Some(f), n as u64) == Ok::<(Option<WavFormat>, u64), WavProblem>(
        (Some(f), n as u64),
    ));
}

/// Every impulse response that inspection accepts has a positive sample rate, a sample
/// size its encoding supports, at least one frame, and lasts at most 30 seconds.
pub proof fn law_accepted_wav_bounds(b: Seq<u8>)
    ensures
        wav_metadata(b) matches Ok(m) ==> {
            &&& m.sample_rate > 0
            &&& m.frame_count >= 1
            &&& m.frame_count <= m.sample_rate * MAX_DURATION_SECONDS
            &&& (m.bits_per_sample == 8 || m.bits_per_sample == 16 || m.bits_per_sample == 24
                || m.bits_per_sample == 32 || m.bits_per_sample == 64)
        },
{
    if let Ok(m) = wav_metadata(b) {
        let (format, data) = chunk_walk(b, 12, None, 0)->Ok_0;
        let f = format->Some_0;
        let d = data / (f.block_align as u64);
        assert(data % (f.block_align as u64) == 0);
        assert(data > 0);
        assert(d >= 1) by (nonlinear_arith)
            requires
                data > 0,
                f.block_align > 0,
                data % (f.block_align as u64) == 0,
                d == data / (f.block_align as u64),
        ;
    }
}

} // verus!
