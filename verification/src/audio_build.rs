//! The decisions of an audio build: the sample rates offered, the files planned for a
//! project, the size limits of a WAV file, and the bytes of a float stereo WAV header.
use vstd::prelude::*;

use crate::project::{Project, Voice};
use crate::text::{
    chars_of, decimal, decimal2, eq_ignore_ascii_case, push_char, push_decimal, push_decimal2,
    push_str, str_eq_ignore_ascii_case, string_from_chars,
};

verus! {

/// The size of the header that `write_wav_header` writes.
pub const WAV_HEADER_SIZE: u64 = 58;

/// Where the header holds the size of the data chunk.
pub const WAV_DATA_SIZE_OFFSET: u64 = 54;

/// Where the header holds the number of sample frames.
pub const WAV_FACT_SAMPLE_LENGTH_OFFSET: u64 = 46;

/// Where the header holds the size of the RIFF chunk.
pub const WAV_RIFF_SIZE_OFFSET: u64 = 4;

/// The bytes of the RIFF chunk besides the audio data.
pub const WAV_RIFF_OVERHEAD: u64 = 50;

/// The bytes of one stereo frame of 32-bit floats.
pub const STEREO_FLOAT_FRAME_BYTES: u64 = 8;

/// The sample rates that a build can render at.
#[derive(Clone, Copy, Debug, PartialEq, Eq, Structural)]
pub enum BuildSampleRate {
    Hz44100,
    Hz48000,
    Hz96000,
}

/// The rates in the order the build dialog lists them.
pub open spec fn all_rates() -> Seq<BuildSampleRate> {
    seq![BuildSampleRate::Hz44100, BuildSampleRate::Hz48000, BuildSampleRate::Hz96000]
}

pub open spec fn rate_hz(r: BuildSampleRate) -> u32 {
    match r {
        BuildSampleRate::Hz44100 => 44100,
        BuildSampleRate::Hz48000 => 48000,
        BuildSampleRate::Hz96000 => 96000,
    }
}

pub open spec fn rate_index(r: BuildSampleRate) -> usize {
    match r {
        BuildSampleRate::Hz44100 => 0,
        BuildSampleRate::Hz48000 => 1,
        BuildSampleRate::Hz96000 => 2,
    }
}

impl BuildSampleRate {
    pub const DEFAULT: BuildSampleRate = BuildSampleRate::Hz48000;

    /// Every rate, in the order the build dialog lists them.
    pub fn all() -> (r: [BuildSampleRate; 3])
        ensures
            r@ == all_rates(),
    {
        let r = [BuildSampleRate::Hz44100, BuildSampleRate::Hz48000, BuildSampleRate::Hz96000];
        assert(r@ =~= all_rates());
        r
    }

    pub fn hz(self) -> (r: u32)
        ensures
            r == rate_hz(self),
    {
        match self {
            BuildSampleRate::Hz44100 => 44100,
            BuildSampleRate::Hz48000 => 48000,
            BuildSampleRate::Hz96000 => 96000,
        }
    }

    pub fn label(self) -> (r: &'static str)
        ensures
            r@ == match self {
                BuildSampleRate::Hz44100 => "44.1 kHz"@,
                BuildSampleRate::Hz48000 => "48 kHz"@,
                BuildSampleRate::Hz96000 => "96 kHz"@,
            },
    {
        match self {
            BuildSampleRate::Hz44100 => "44.1 kHz",
            BuildSampleRate::Hz48000 => "48 kHz",
            BuildSampleRate::Hz96000 => "96 kHz",
        }
    }

    /// The rate at `index` in the dialog's list.
    pub fn from_index(index: usize) -> (r: Option<BuildSampleRate>)
        ensures
            index < 3 ==> r == Some(all_rates()[index as int]),
            index >= 3 ==> r is None,
    {
        if index == 0 {
            Some(BuildSampleRate::Hz44100)
        } else if index == 1 {
            Some(BuildSampleRate::Hz48000)
        } else if index == 2 {
            Some(BuildSampleRate::Hz96000)
        } else {
            None
        }
    }

    /// Where the rate stands in the dialog's list.
    pub fn index(self) -> (r: usize)
        ensures
            r == rate_index(self),
            r < 3 && all_rates()[r as int] == self,
    {
        match self {
            BuildSampleRate::Hz44100 => 0,
            BuildSampleRate::Hz48000 => 1,
            BuildSampleRate::Hz96000 => 2,
        }
    }
}

/// A rate's place in the list gives the rate back, and each place holds a rate at that place.
pub proof fn law_rate_index_roundtrip(r: BuildSampleRate, i: usize)
    ensures
        rate_index(r) < 3 && all_rates()[rate_index(r) as int] == r,
        i < 3 ==> rate_index(all_rates()[i as int]) == i,
{
}

/// Why an audio build failed, as text.
#[derive(Debug, PartialEq, Eq)]
pub struct AudioBuildError {
    message: String,
}

impl View for AudioBuildError {
    type V = Seq<char>;

    closed spec fn view(&self) -> Seq<char> {
        self.message@
    }
}

impl AudioBuildError {
    pub fn new(message: &str) -> (r: Self)
        ensures
            r@ == message@,
    {
        AudioBuildError { message: message.to_owned() }
    }

    /// An error caused by a failed read or write; `source` is what the system said.
    pub fn io(message: &str, source: &str) -> (r: Self)
        ensures
            r@ == message@ + ": "@ + source@,
    {
        let mut text = message.to_owned();
        push_str(&mut text, ": ");
        push_str(&mut text, source);
        AudioBuildError { message: text }
    }

    pub fn message(&self) -> (r: &str)
        ensures
            r@ == self@,
    {
        self.message.as_str()
    }
}

/// The largest number of frames a standard WAV file of stereo floats can hold.
pub open spec fn wav_frames_fit(frame_count: u64) -> bool {
    frame_count * STEREO_FLOAT_FRAME_BYTES <= u32::MAX - WAV_RIFF_OVERHEAD
}

/// Checks that `frame_count` stereo float frames fit a WAV file, whose sizes are 32-bit.
pub fn ensure_wav_size_can_hold(frame_count: u64) -> (r: Result<(), AudioBuildError>)
    ensures
        frame_count * 8 > u64::MAX ==> (r matches Err(e) && e@ == "the audio build is too large for a WAV file"@),
        frame_count * 8 <= u64::MAX && !wav_frames_fit(frame_count) ==> (r matches Err(e) && e@
            == "the audio build is too large for a standard WAV file"@),
        wav_frames_fit(frame_count) ==> r is Ok,
{
    let data_size = match frame_count.checked_mul(STEREO_FLOAT_FRAME_BYTES) {
        Some(d) => d,
        None => {
            return Err(AudioBuildError::new("the audio build is too large for a WAV file"));
        },
    };
    if data_size > u32::MAX as u64 - WAV_RIFF_OVERHEAD {
        return Err(AudioBuildError::new("the audio build is too large for a standard WAV file"));
    }
    Ok(())
}

/// The values a finished WAV file holds at its size fields: the RIFF chunk size, the
/// number of frames, and the data chunk size.
pub fn wav_size_fields(frame_count: u64) -> (r: Result<(u32, u32, u32), AudioBuildError>)
    ensures
        wav_frames_fit(frame_count) ==> r == Ok::<(u32, u32, u32), AudioBuildError>(
            (
                (frame_count * 8 + 50) as u32,
                frame_count as u32,
                (frame_count * 8) as u32,
            ),
        ),
        frame_count * 8 > u64::MAX ==> (r matches Err(e) && e@ == "the audio build is too large for a WAV file"@),
        frame_count * 8 <= u64::MAX && !wav_frames_fit(frame_count) ==> (r matches Err(e) && e@
            == "the audio build is too large for a standard WAV file"@),
{
    ensure_wav_size_can_hold(frame_count)?;
    let data_size = (frame_count * STEREO_FLOAT_FRAME_BYTES) as u32;
    let riff_size = data_size + WAV_RIFF_OVERHEAD as u32;
    Ok((riff_size, frame_count as u32, data_size))
}

/// The four little-endian bytes of `x`.
pub open spec fn le32_bytes(x: u32) -> Seq<u8> {
    seq![
        (x % 256) as u8,
        ((x / 256) % 256) as u8,
        ((x / 65536) % 256) as u8,
        (x / 16777216) as u8,
    ]
}

/// The two little-endian bytes of `x`.
pub open spec fn le16_bytes(x: u16) -> Seq<u8> {
    seq![(x % 256) as u8, (x / 256) as u8]
}

/// The header of a float stereo WAV file at `rate` frames per second, with its size fields
/// still zero.
pub open spec fn wav_header_bytes(rate: u32) -> Seq<u8> {
    seq![82u8, 73, 70, 70] + le32_bytes(0) + seq![87u8, 65, 86, 69] + seq![102u8, 109, 116, 32]
        + le32_bytes(18) + le16_bytes(3) + le16_bytes(2) + le32_bytes(rate) + le32_bytes(
        (rate * 8) as u32,
    ) + le16_bytes(8) + le16_bytes(32) + le16_bytes(0) + seq![102u8, 97, 99, 116] + le32_bytes(
        4,
    ) + le32_bytes(0) + seq![100u8, 97, 116, 97] + le32_bytes(0)
}

fn push_le32(v: &mut Vec<u8>, x: u32)
    ensures
        final(v)@ == old(v)@ + le32_bytes(x),
{
    v.push((x % 256) as u8);
    v.push(((x / 256) % 256) as u8);
    v.push(((x / 65536) % 256) as u8);
    v.push((x / 16777216) as u8);
    assert(final(v)@ =~= old(v)@ + le32_bytes(x));
}

fn push_le16(v: &mut Vec<u8>, x: u16)
    ensures
        final(v)@ == old(v)@ + le16_bytes(x),
{
    v.push((x % 256) as u8);
    v.push((x / 256) as u8);
    assert(final(v)@ =~= old(v)@ + le16_bytes(x));
}

fn push_tag(v: &mut Vec<u8>, a: u8, b: u8, c: u8, d: u8)
    ensures
        final(v)@ == old(v)@ + seq![a, b, c, d],
{
    v.push(a);
    v.push(b);
    v.push(c);
    v.push(d);
    assert(final(v)@ =~= old(v)@ + seq![a, b, c, d]);
}

/// Writes the header of a float stereo WAV file to `h`; the rate's byte rate must fit 32
/// bits, else nothing is written and the error says why. The bytes go to a buffer and the
/// error is its message: the writer that puts them in a file reports that message as it
/// reports a failed write.
pub fn write_wav_header(h: &mut Vec<u8>, sample_rate: u32) -> (r: Result<(), String>)
    ensures
        sample_rate * 8 <= u32::MAX ==> r is Ok && final(h)@ == old(h)@ + wav_header_bytes(sample_rate),
        sample_rate * 8 > u32::MAX ==> (r matches Err(m) && m@ == "sample rate is too large"@)
            && final(h)@ == old(h)@,
{
    let byte_rate = match sample_rate.checked_mul(STEREO_FLOAT_FRAME_BYTES as u32) {
        Some(b) => b,
        None => {
            return Err("sample rate is too large".to_owned());
        },
    };
    let ghost start = h@;
    push_tag(h, 82, 73, 70, 70);
    push_le32(h, 0);
    push_tag(h, 87, 65, 86, 69);
    push_tag(h, 102, 109, 116, 32);
    push_le32(h, 18);
    push_le16(h, 3);
    push_le16(h, 2);
    push_le32(h, sample_rate);
    push_le32(h, byte_rate);
    push_le16(h, STEREO_FLOAT_FRAME_BYTES as u16);
    push_le16(h, 32);
    push_le16(h, 0);
    push_tag(h, 102, 97, 99, 116);
    push_le32(h, 4);
    push_le32(h, 0);
    push_tag(h, 100, 97, 116, 97);
    push_le32(h, 0);
    assert(h@ =~= start + wav_header_bytes(sample_rate));
    Ok(())
}

/// The header is 58 bytes: RIFF and WAVE tags, a stereo (2 channel) IEEE-float
/// (format 3) layout of 32-bit samples at the given rate, and its size fields at the
/// offsets a finished build patches. Its block align is the bytes of one frame, channels
/// times bytes per sample (8), and its byte rate is the rate times the block align, as
/// readers of the format check.
pub proof fn law_wav_header_layout(rate: u32)
    requires
        rate * 8 <= u32::MAX,
    ensures
        ({
            let h = wav_header_bytes(rate);
            &&& h.len() == WAV_HEADER_SIZE
            &&& crate::wav::tag_at(h, 0, crate::wav::riff_tag())
            &&& crate::wav::tag_at(h, 8, crate::wav::wave_tag())
            &&& crate::wav::le_u16(h, 20) == 3
            &&& crate::wav::le_u16(h, 22) == 2
            &&& crate::wav::le_u32(h, 24) == rate
            &&& crate::wav::le_u16(h, 34) == 32
            &&& crate::wav::tag_at(h, 12, crate::wav::fmt_tag())
            &&& crate::wav::le_u32(h, 16) == 18
            &&& crate::wav::le_u16(h, 36) == 0
            &&& crate::wav::tag_at(h, 38, (102u8, 97u8, 99u8, 116u8))
            &&& crate::wav::le_u32(h, 42) == 4
            &&& crate::wav::tag_at(h, 50, crate::wav::data_tag())
            &&& crate::wav::le_u16(h, 32) == 8
            &&& crate::wav::le_u16(h, 32) == crate::wav::le_u16(h, 22) * (crate::wav::le_u16(h, 34) / 8)
            &&& crate::wav::le_u32(h, 28) == rate * crate::wav::le_u16(h, 32)
            &&& crate::wav::le_u32(h, WAV_RIFF_SIZE_OFFSET as int) == 0
            &&& crate::wav::le_u32(h, WAV_FACT_SAMPLE_LENGTH_OFFSET as int) == 0
            &&& crate::wav::le_u32(h, WAV_DATA_SIZE_OFFSET as int) == 0
        }),
{
    let h = wav_header_bytes(rate);
    assert(h.len() == 58);
    assert(h[24] == (rate % 256) as u8);
    assert(h[25] == ((rate / 256) % 256) as u8);
    assert(h[26] == ((rate / 65536) % 256) as u8);
    assert(h[27] == (rate / 16777216) as u8);
    assert(crate::wav::le_u32(h, 24) == rate) by (nonlinear_arith)
        requires
            h[24] == (rate % 256) as u8,
            h[25] == ((rate / 256) % 256) as u8,
            h[26] == ((rate / 65536) % 256) as u8,
            h[27] == (rate / 16777216) as u8,
    {
    }
    let byte_rate = (rate * 8) as u32;
    assert(byte_rate == rate * 8);
    assert(h[28] == (byte_rate % 256) as u8);
    assert(h[29] == ((byte_rate / 256) % 256) as u8);
    assert(h[30] == ((byte_rate / 65536) % 256) as u8);
    assert(h[31] == (byte_rate / 16777216) as u8);
    assert(crate::wav::le_u32(h, 28) == byte_rate) by (nonlinear_arith)
        requires
            h[28] == (byte_rate % 256) as u8,
            h[29] == ((byte_rate / 256) % 256) as u8,
            h[30] == ((byte_rate / 65536) % 256) as u8,
            h[31] == (byte_rate / 16777216) as u8,
    {
    }
    assert(h[32] == 8 && h[33] == 0);
}

/// One file that a build writes: what it holds, and its name.
#[derive(Debug, PartialEq, Eq)]
pub struct PlannedAudioFile {
    pub label: String,
    pub file_name: String,
}

pub struct PlannedModel {
    pub label: Seq<char>,
    pub file_name: Seq<char>,
}

impl View for PlannedAudioFile {
    type V = PlannedModel;

    open spec fn view(&self) -> PlannedModel {
        PlannedModel { label: self.label@, file_name: self.file_name@ }
    }
}

/// The file names of a build's plans, in order.
pub open spec fn plan_names(plans: Seq<PlannedAudioFile>) -> Seq<Seq<char>> {
    plans.map_values(|f: PlannedAudioFile| f.file_name@)
}

/// The names joined by line breaks, with no break after the last.
pub open spec fn joined_lines(names: Seq<Seq<char>>) -> Seq<char>
    decreases names.len(),
{
    if names.len() == 0 {
        Seq::empty()
    } else if names.len() == 1 {
        names[0]
    } else {
        joined_lines(names.drop_last()) + seq!['\n'] + names.last()
    }
}

/// The text of a build manifest: the file names joined by line breaks, then a line break.
pub open spec fn manifest_text(names: Seq<Seq<char>>) -> Seq<char> {
    joined_lines(names) + seq!['\n']
}

/// The manifest that records the files of a build.
pub fn build_manifest(plans: &[PlannedAudioFile]) -> (r: String)
    ensures
        r@ == manifest_text(plan_names(plans@)),
{
    let ghost names = plan_names(plans@);
    let mut text = String::new();
    let n = plans.len();
    for i in 0..n
        invariant
            n == plans@.len(),
            names == plan_names(plans@),
            text@ == joined_lines(names.take(i as int)),
    {
        proof {
            assert(names.take(i + 1).drop_last() =~= names.take(i as int));
            assert(names.take(i + 1).last() == plans@[i as int].file_name@);
            if i == 0 {
                assert(names.take(1) =~= seq![plans@[0].file_name@]);
            }
        }
        if i > 0 {
            push_char(&mut text, '\n');
        }
        push_str(&mut text, plans[i].file_name.as_str());
    }
    assert(names.take(n as int) =~= names);
    push_char(&mut text, '\n');
    text
}

/// A line without the carriage return that ended it, if one did.
pub open spec fn without_cr(l: Seq<char>) -> Seq<char> {
    if l.len() > 0 && l.last() == '\r' {
        l.drop_last()
    } else {
        l
    }
}

/// The lines of `t` that follow the partial line `cur`: each line break ends a line, which
/// loses a carriage return just before the break; text after the last break is a last line.
pub open spec fn lines_after(t: Seq<char>, cur: Seq<char>) -> Seq<Seq<char>>
    decreases t.len(),
{
    if t.len() == 0 {
        if cur.len() == 0 {
            Seq::empty()
        } else {
            seq![cur]
        }
    } else if t[0] == '\n' {
        seq![without_cr(cur)] + lines_after(t.drop_first(), Seq::empty())
    } else {
        lines_after(t.drop_first(), cur.push(t[0]))
    }
}

/// The lines of a text, split as `str::lines` splits them.
pub open spec fn text_lines(t: Seq<char>) -> Seq<Seq<char>> {
    lines_after(t, Seq::empty())
}

/// Splits a manifest into its lines.
pub fn manifest_lines(text: &str) -> (r: Vec<String>)
    ensures
        r@.map_values(|l: String| l@) == text_lines(text@),
{
    let chars = chars_of(text);
    let mut lines: Vec<String> = Vec::new();
    let mut cur: Vec<char> = Vec::new();
    let n = chars.len();
    assert(chars@.skip(0) =~= chars@);
    for i in 0..n
        invariant
            n == chars@.len(),
            chars@ == text@,
            lines@.map_values(|l: String| l@) + lines_after(chars@.skip(i as int), cur@) == text_lines(
                text@,
            ),
    {
        let ghost before = lines@.map_values(|l: String| l@);
        let ghost rest = chars@.skip(i as int);
        assert(rest.drop_first() =~= chars@.skip(i + 1));
        assert(rest[0] == chars@[i as int]);
        if chars[i] == '\n' {
            let ghost line = without_cr(cur@);
            if cur.len() > 0 && cur[cur.len() - 1] == '\r' {
                cur.pop();
            }
            assert(cur@ == line);
            lines.push(string_from_chars(&cur));
            assert(lines@.map_values(|l: String| l@) =~= before.push(line));
            assert(before + (seq![line] + lines_after(chars@.skip(i + 1), Seq::empty())) =~= before.push(
                line,
            ) + lines_after(chars@.skip(i + 1), Seq::empty()));
            cur = Vec::new();
        } else {
            cur.push(chars[i]);
        }
    }
    assert(chars@.skip(n as int) =~= Seq::<char>::empty());
    if cur.len() > 0 {
        let ghost before = lines@.map_values(|l: String| l@);
        lines.push(string_from_chars(&cur));
        assert(lines@.map_values(|l: String| l@) =~= before + seq![cur@]);
    } else {
        assert(lines@.map_values(|l: String| l@) =~= lines@.map_values(|l: String| l@) + Seq::<
            Seq<char>,
        >::empty());
    }
    lines
}

/// The lines among `lines` that are not among `current`, in order.
pub open spec fn stale_names(lines: Seq<Seq<char>>, current: Seq<Seq<char>>) -> Seq<Seq<char>>
    decreases lines.len(),
{
    if lines.len() == 0 {
        Seq::empty()
    } else {
        let rest = stale_names(lines.drop_last(), current);
        if current.contains(lines.last()) {
            rest
        } else {
            rest.push(lines.last())
        }
    }
}

/// A name that a line of a manifest can hold as it is: no line break, and no carriage
/// return at its end.
pub open spec fn fits_a_line(w: Seq<char>) -> bool {
    &&& forall|i: int| 0 <= i < w.len() ==> w[i] != '\n'
    &&& !(w.len() > 0 && w.last() == '\r')
}

proof fn lemma_lines_after_text(w: Seq<char>, rest: Seq<char>, cur: Seq<char>)
    requires
        forall|i: int| 0 <= i < w.len() ==> w[i] != '\n',
    ensures
        lines_after(w + rest, cur) == lines_after(rest, cur + w),
    decreases w.len(),
{
    if w.len() == 0 {
        assert(w + rest =~= rest);
        assert(cur + w =~= cur);
    } else {
        let t = w + rest;
        assert(t[0] == w[0]);
        assert(t.drop_first() =~= w.drop_first() + rest);
        lemma_lines_after_text(w.drop_first(), rest, cur.push(w[0]));
        assert(cur.push(w[0]) + w.drop_first() =~= cur + w);
    }
}

proof fn lemma_line_read_back(w: Seq<char>, rest: Seq<char>)
    requires
        fits_a_line(w),
    ensures
        lines_after(w + seq!['\n'] + rest, Seq::empty()) == seq![w] + lines_after(rest, Seq::empty()),
{
    assert(w + seq!['\n'] + rest =~= w + (seq!['\n'] + rest));
    lemma_lines_after_text(w, seq!['\n'] + rest, Seq::empty());
    assert(Seq::<char>::empty() + w =~= w);
    let t = seq!['\n'] + rest;
    assert(t[0] == '\n');
    assert(t.drop_first() =~= rest);
    assert(without_cr(w) == w);
}

proof fn lemma_manifest_read_back(names: Seq<Seq<char>>, rest: Seq<char>)
    requires
        names.len() > 0,
        forall|i: int| 0 <= i < names.len() ==> fits_a_line(#[trigger] names[i]),
    ensures
        lines_after(manifest_text(names) + rest, Seq::empty()) == names + lines_after(rest, Seq::empty()),
    decreases names.len(),
{
    if names.len() == 1 {
        assert(manifest_text(names) == names[0] + seq!['\n']);
        lemma_line_read_back(names[0], rest);
        assert(seq![names[0]] =~= names);
    } else {
        let first = names.drop_last();
        let last = names.last();
        assert(manifest_text(names) =~= manifest_text(first) + last + seq!['\n']);
        assert(manifest_text(names) + rest =~= manifest_text(first) + (last + seq!['\n'] + rest));
        assert(fits_a_line(names[names.len() - 1]));
        lemma_manifest_read_back(first, last + seq!['\n'] + rest);
        lemma_line_read_back(last, rest);
        assert(first + (seq![last] + lines_after(rest, Seq::empty())) =~= names + lines_after(rest, Seq::empty()));
    }
}

/// A build reads back from its manifest the names it wrote there, so its own manifest lists
/// nothing stale: for at least one name, each fitting a line.
pub proof fn law_manifest_reads_back(names: Seq<Seq<char>>)
    requires
        names.len() > 0,
        forall|i: int| 0 <= i < names.len() ==> fits_a_line(#[trigger] names[i]),
    ensures
        text_lines(manifest_text(names)) == names,
        stale_names(text_lines(manifest_text(names)), names).len() == 0,
{
    lemma_manifest_read_back(names, Seq::empty());
    assert(manifest_text(names) + Seq::<char>::empty() =~= manifest_text(names));
    assert(names + Seq::<Seq<char>>::empty() =~= names);
    lemma_nothing_stale(names, names);
}

proof fn lemma_nothing_stale(lines: Seq<Seq<char>>, current: Seq<Seq<char>>)
    requires
        forall|i: int| 0 <= i < lines.len() ==> current.contains(#[trigger] lines[i]),
    ensures
        stale_names(lines, current).len() == 0,
    decreases lines.len(),
{
    if lines.len() > 0 {
        assert(current.contains(lines[lines.len() - 1]));
        lemma_nothing_stale(lines.drop_last(), current);
    }
}

/// Whether one of the plans writes a file of this name. The plans are searched in place of
/// a `BTreeSet` or `HashSet` of their names: vstd specifies those sets only for keys whose
/// order or hashing it models (integers, and tuples, references and options of them), not
/// for strings, so a set of names would carry no contract to prove against.
fn is_planned(name: &String, plans: &[PlannedAudioFile]) -> (r: bool)
    ensures
        r == plan_names(plans@).contains(name@),
{
    let ghost names = plan_names(plans@);
    let n = plans.len();
    for i in 0..n
        invariant
            n == plans@.len(),
            names == plan_names(plans@),
            forall|j: int| 0 <= j < i ==> names[j] != name@,
    {
        if plans[i].file_name == *name {
            assert(names[i as int] == name@);
            return true;
        }
    }
    false
}

/// The names that an earlier manifest lists and that the planned build no longer writes,
/// in the order of the manifest.
pub fn stale_manifest_entries(previous_manifest: &str, plans: &[PlannedAudioFile]) -> (r: Vec<
    String,
>)
    ensures
        r@.map_values(|l: String| l@) == stale_names(text_lines(previous_manifest@), plan_names(plans@)),
{
    let lines = manifest_lines(previous_manifest);
    let ghost all = lines@.map_values(|l: String| l@);
    let mut stale: Vec<String> = Vec::new();
    let n = lines.len();
    for i in 0..n
        invariant
            n == lines@.len(),
            all == lines@.map_values(|l: String| l@),
            all == text_lines(previous_manifest@),
            stale@.map_values(|l: String| l@) == stale_names(all.take(i as int), plan_names(plans@)),
    {
        assert(all.take(i + 1).drop_last() =~= all.take(i as int));
        assert(all.take(i + 1).last() == lines@[i as int]@);
        let ghost before = stale@.map_values(|l: String| l@);
        if !is_planned(&lines[i], plans) {
            stale.push(lines[i].clone());
            assert(stale@.map_values(|l: String| l@) =~= before.push(lines@[i as int]@));
        }
    }
    assert(all.take(n as int) =~= all);
    stale
}

/// A name that std's path parsing reads as a single normal component on every platform:
/// not empty, neither `.` nor `..`, and free of separators (`/`, `\`) and of `:`.
pub open spec fn plain_file_name(s: Seq<char>) -> bool {
    &&& s.len() > 0
    &&& s != seq!['.']
    &&& s != seq!['.', '.']
    &&& forall|i: int| 0 <= i < s.len() ==> s[i] != '/' && s[i] != '\\' && s[i] != ':'
}

/// Where the last `.` of `s` stands, if it has one.
pub open spec fn last_dot(s: Seq<char>) -> Option<int>
    decreases s.len(),
{
    if s.len() == 0 {
        None
    } else if s.last() == '.' {
        Some(s.len() - 1)
    } else {
        last_dot(s.drop_last())
    }
}

/// The extension that `Path::extension` documents for a file name: the text after its last
/// `.`; none when it has no `.`, or when its only `.` begins it.
pub open spec fn file_extension(s: Seq<char>) -> Option<Seq<char>> {
    match last_dot(s) {
        Some(k) => if k > 0 {
            Some(s.skip(k + 1))
        } else {
            None
        },
        None => None,
    }
}

/// The extension of generated audio files.
pub open spec fn wav_extension() -> Seq<char> {
    seq!['w', 'a', 'v']
}

/// Whether an extension is `wav`, in any case.
pub open spec fn is_wav_extension(e: Option<Seq<char>>) -> bool {
    match e {
        Some(x) => eq_ignore_ascii_case(x, wav_extension()),
        None => false,
    }
}

/// The text of an optional string slice.
pub open spec fn text_of(e: Option<&str>) -> Option<Seq<char>> {
    match e {
        Some(x) => Some(x@),
        None => None,
    }
}

/// Free of `\` and `:`, and not beginning with `//`: a name in which `/` alone separates
/// components and in which no platform reads a prefix (a drive, a UNC share or a verbatim
/// path).
pub open spec fn slash_separated(s: Seq<char>) -> bool {
    &&& forall|i: int| 0 <= i < s.len() ==> s[i] != '\\' && s[i] != ':'
    &&& !(s.len() >= 2 && s[0] == '/' && s[1] == '/')
}

/// `t`, split at `/`, has a segment that is neither empty nor `.`: one that path parsing
/// keeps as a component of its own (`..` among them).
pub open spec fn has_kept_segment(t: Seq<char>) -> bool {
    exists|a: int, b: int|
        0 <= a < b <= t.len() && (a == 0 || t[a - 1] == '/') && (b == t.len() || t[b] == '/') && (
        forall|i: int| a <= i < b ==> t[i] != '/') && #[trigger] t.subrange(a, b) != seq!['.']
}

/// A name that path parsing splits into two components or more: a `/`-separated name that
/// begins at the root (`/a.wav`) or at the current directory (`./a.wav`) and has a kept
/// segment after it, or that has kept segments on both sides of some `/` (`sub/a.wav`,
/// `../a.wav`, `a/b/c.wav`, `../../x.wav`).
pub open spec fn multi_component_name(s: Seq<char>) -> bool {
    &&& slash_separated(s)
    &&& {
        ||| (s.len() > 0 && s[0] == '/' && has_kept_segment(s.skip(1)))
        ||| (s.len() > 1 && s[0] == '.' && s[1] == '/' && has_kept_segment(s.skip(2)))
        ||| exists|k: int|
            0 <= k < s.len() && s[k] == '/' && has_kept_segment(#[trigger] s.take(k))
                && has_kept_segment(s.skip(k + 1))
    }
}

/// Whether `c` separates components: `/` on every platform, and `\` too where
/// `backslash` says the platform reads it as a separator.
pub open spec fn is_separator(c: char, backslash: bool) -> bool {
    c == '/' || (backslash && c == '\\')
}

/// Where the last separator of `s` stands, if it has one.
pub open spec fn last_separator(s: Seq<char>, backslash: bool) -> Option<int>
    decreases s.len(),
{
    if s.len() == 0 {
        None
    } else if is_separator(s.last(), backslash) {
        Some(s.len() - 1)
    } else {
        last_separator(s.drop_last(), backslash)
    }
}

/// `s` without the separators and `.` segments that end it, which path parsing drops.
pub open spec fn trimmed_end(s: Seq<char>, backslash: bool) -> Seq<char>
    decreases s.len(),
{
    if s.len() == 0 {
        s
    } else if is_separator(s.last(), backslash) {
        trimmed_end(s.drop_last(), backslash)
    } else if s == seq!['.'] {
        Seq::empty()
    } else if s.len() >= 2 && s.last() == '.' && is_separator(s[s.len() - 2], backslash) {
        trimmed_end(s.take(s.len() - 2), backslash)
    } else {
        s
    }
}

/// The file name of `s` when the separators are those that `backslash` gives: its last
/// component, unless there is none or it is `..`.
pub open spec fn file_name_with(s: Seq<char>, backslash: bool) -> Option<Seq<char>> {
    let t = trimmed_end(s, backslash);
    let last = match last_separator(t, backslash) {
        Some(k) => t.skip(k + 1),
        None => t,
    };
    if t.len() == 0 || last == seq!['.', '.'] {
        None
    } else {
        Some(last)
    }
}

/// No platform reads a prefix at the start of `s`: it begins neither with a drive (`c:`)
/// nor with two separators (`//`, `\\`, a UNC share or a verbatim path).
pub open spec fn prefix_free(s: Seq<char>) -> bool {
    &&& !(s.len() >= 2 && s[1] == ':')
    &&& !(s.len() >= 2 && is_separator(s[0], true) && is_separator(s[1], true))
}

/// The extension that `Path::extension` documents for an optional file name.
pub open spec fn extension_of(f: Option<Seq<char>>) -> Option<Seq<char>> {
    match f {
        Some(n) => file_extension(n),
        None => None,
    }
}

/// The file name of `s` where every platform finds the same one: with no prefix read, the
/// file name is the same whether `\` separates or not.
pub open spec fn known_file_name(s: Seq<char>) -> Option<Option<Seq<char>>> {
    if prefix_free(s) && file_name_with(s, false) == file_name_with(s, true) {
        Some(file_name_with(s, false))
    } else {
        None
    }
}

/// The extension of `s` where every platform finds the same one: with no prefix read, the
/// extension of the file name is the same whether `\` separates or not (so `sub\a.txt` has
/// `txt`, and `a.txt/.` has `txt`).
pub open spec fn known_extension(s: Seq<char>) -> Option<Option<Seq<char>>> {
    if prefix_free(s) && extension_of(file_name_with(s, false)) == extension_of(file_name_with(s, true)) {
        Some(extension_of(file_name_with(s, false)))
    } else {
        None
    }
}

/// A name without separators has none to find.
proof fn lemma_no_separator(s: Seq<char>, backslash: bool)
    requires
        forall|i: int| 0 <= i < s.len() ==> s[i] != '/' && s[i] != '\\',
    ensures
        last_separator(s, backslash) is None,
    decreases s.len(),
{
    if s.len() > 0 {
        lemma_no_separator(s.drop_last(), backslash);
    }
}

/// A plain file name is its own file name on every platform.
pub proof fn lemma_plain_known(s: Seq<char>)
    requires
        plain_file_name(s),
    ensures
        known_file_name(s) == Some(Some(s)),
        known_extension(s) == Some(file_extension(s)),
{
    lemma_no_separator(s, false);
    lemma_no_separator(s, true);
    assert(trimmed_end(s, false) == s);
    assert(trimmed_end(s, true) == s);
}

/// The number of components that `std::path::Path::components` finds in `name`.
/// A plain file name is one normal component. Where `/` alone separates and no prefix is
/// read, every segment that is neither empty nor `.` is a component (a normal one, or a
/// parent for `..`), and a leading `/` is the root: so a `multi_component_name` has two
/// components or more, on every platform. For other names the count follows the platform's
/// path syntax, which is not stated here.
#[verifier::external_body]
fn path_component_count(name: &str) -> (r: usize)
    ensures
        plain_file_name(name@) ==> r == 1,
        multi_component_name(name@) ==> r >= 2,
{
    std::path::Path::new(name).components().count()
}

/// The extension that `std::path::Path::extension` finds in `name`, as text: the one that
/// its documentation gives for the file name (`file_extension`), wherever every platform
/// finds the same (`known_extension`). For other names it depends on the platform's path
/// syntax, which is not stated here.
#[verifier::external_body]
pub(crate) fn path_extension(name: &str) -> (r: Option<&str>)
    ensures
        known_extension(name@) matches Some(e) ==> text_of(r) == e,
{
    std::path::Path::new(name).extension().and_then(|extension| extension.to_str())
}

/// The file name that `std::path::Path::file_name` finds in `name`, as text, wherever every
/// platform finds the same (`known_file_name`). For other names it depends on the
/// platform's path syntax, which is not stated here.
#[verifier::external_body]
pub(crate) fn path_file_name(name: &str) -> (r: Option<&str>)
    ensures
        known_file_name(name@) matches Some(f) ==> text_of(r) == f,
{
    std::path::Path::new(name).file_name().and_then(|file_name| file_name.to_str())
}

/// Whether a path with `component_count` components and this extension names a generated
/// audio file: a single component whose extension is `wav` in any case.
pub fn is_generated_file_name(component_count: usize, extension: Option<&str>) -> (r: bool)
    ensures
        r == (component_count == 1 && is_wav_extension(text_of(extension))),
{
    if component_count != 1 {
        return false;
    }
    match extension {
        Some(e) => {
            proof {
                reveal_strlit("wav");
                assert("wav"@ =~= wav_extension());
            }
            str_eq_ignore_ascii_case(e, "wav")
        },
        None => false,
    }
}

/// Whether a name read from an old manifest may be removed as a generated audio file:
/// one path component with a `wav` extension, in any case. Names of more components, such
/// as `sub/a.wav`, `/a.wav`, `../a.wav` or `../../a.wav`, are never such names.
pub fn safe_generated_file_name(file_name: &str) -> (r: bool)
    ensures
        plain_file_name(file_name@) ==> r == is_wav_extension(file_extension(file_name@)),
        multi_component_name(file_name@) ==> !r,
{
    let count = path_component_count(file_name);
    let extension = path_extension(file_name);
    proof {
        if plain_file_name(file_name@) {
            lemma_plain_known(file_name@);
        }
    }
    is_generated_file_name(count, extension)
}

/// `f` can turn `name` into the directory name `o`.
pub open spec fn names_to<G: Fn(&String) -> Option<String>>(f: G, name: Seq<char>, o: Option<Seq<char>>) -> bool {
    exists|x: String, y: Option<String>|
        x@ == name && match y {
            Some(s) => o == Some(s@),
            None => o is None,
        } && #[trigger] call_ensures(f, (&x,), y)
}

/// The stem of the whole-piece file: the project's directory name, else `project`.
pub open spec fn project_stem(o: Option<Seq<char>>) -> Seq<char> {
    match o {
        Some(s) => s,
        None => "project"@,
    }
}

/// The stem of a voice's file: the voice's directory name, else `voice-` and its number.
pub open spec fn voice_stem(o: Option<Seq<char>>, id: u32) -> Seq<char> {
    match o {
        Some(s) => s,
        None => "voice-"@ + decimal(id as nat),
    }
}

/// The planned file of voice `i`, whose directory name is `o`, in a build whose stem is `stem`.
pub open spec fn voice_file(
    project: crate::project::ProjectModel,
    stem: Seq<char>,
    i: int,
    o: Option<Seq<char>>,
) -> PlannedModel {
    PlannedModel {
        label: "voice: "@ + project.voices[i].name,
        file_name: stem + "-voice-"@ + decimal2((i + 1) as nat) + "-"@ + voice_stem(o, project.voices[i].id)
            + ".wav"@,
    }
}

/// The planned files, from the directory names `stems` of the project and of each voice:
/// the mix first, then one stem file per voice in order, numbered from 01.
pub open spec fn planned_files(project: crate::project::ProjectModel, stems: Seq<Option<Seq<char>>>) -> Seq<PlannedModel> {
    let stem = project_stem(stems[0]);
    seq![PlannedModel { label: "whole piece"@, file_name: stem + "-mix.wav"@ }] + Seq::new(
        project.voices.len(),
        |i: int| voice_file(project, stem, i, stems[i + 1]),
    )
}

/// The files a build of `project` writes; `directory_name` turns a name into the stem of a
/// file name, or gives nothing when the name has no usable characters.
pub fn planned_audio_files<G: Fn(&String) -> Option<String>>(project: &Project, directory_name: &G) -> (r: Vec<PlannedAudioFile>)
    requires
        forall|x: String| #[trigger] call_requires(*directory_name, (&x,)),
    ensures
        exists|stems: Seq<Option<Seq<char>>>|
            stems.len() == project@.voices.len() + 1 && names_to(*directory_name, project@.name, stems[0])
                && (forall|i: int| 0 <= i < project@.voices.len() ==> names_to(*directory_name, (#[trigger] project@.voices[i]).name, stems[i + 1]))
                && r@.map_values(|f: PlannedAudioFile| f@) == planned_files(project@, stems),
{
    let found = directory_name(&project.name);
    let ghost first = match &found {
        Some(s) => Some(s@),
        None => None,
    };
    assert(names_to(*directory_name, project@.name, first));
    let stem = match found {
        Some(s) => s,
        None => "project".to_owned(),
    };
    let mut mix_name = stem.clone();
    push_str(&mut mix_name, "-mix.wav");
    let mut files: Vec<PlannedAudioFile> = Vec::new();
    files.push(PlannedAudioFile { label: "whole piece".to_owned(), file_name: mix_name });
    let voices = project.voices();
    let n = voices.len();
    let ghost mut stems: Seq<Option<Seq<char>>> = seq![first];
    for i in 0..n
        invariant
            n == project@.voices.len(),
            voices@.map_values(|v: Voice| v@) == project@.voices,
            stems.len() == i + 1,
            stems[0] == first,
            stem@ == project_stem(first),
            names_to(*directory_name, project@.name, first),
            forall|x: String| #[trigger] call_requires(*directory_name, (&x,)),
            forall|j: int| 0 <= j < i ==> names_to(*directory_name, (#[trigger] project@.voices[j]).name, stems[j + 1]),
            files@.len() == i + 1,
            files@[0]@ == (PlannedModel { label: "whole piece"@, file_name: stem@ + "-mix.wav"@ }),
            forall|j: int| 0 <= j < i ==> (#[trigger] files@[j + 1])@ == voice_file(project@, stem@, j, stems[j + 1]),
    {
        let voice = &voices[i];
        assert(voice@ == project@.voices[i as int]);
        let found = directory_name(&voice.name);
        let ghost o = match &found {
            Some(s) => Some(s@),
            None => None,
        };
        assert(names_to(*directory_name, project@.voices[i as int].name, o));
        let vstem = match found {
            Some(s) => s,
            None => {
                let mut t = "voice-".to_owned();
                push_decimal(&mut t, voice.id().value() as u128);
                t
            },
        };
        let mut label = "voice: ".to_owned();
        push_str(&mut label, voice.name.as_str());
        let mut file_name = stem.clone();
        push_str(&mut file_name, "-voice-");
        push_decimal2(&mut file_name, (i + 1) as u128);
        push_str(&mut file_name, "-");
        push_str(&mut file_name, vstem.as_str());
        push_str(&mut file_name, ".wav");
        files.push(PlannedAudioFile { label, file_name });
        proof {
            stems = stems.push(o);
        }
    }
    assert(files@.map_values(|f: PlannedAudioFile| f@) =~= planned_files(project@, stems));
    files
}

} // verus!
