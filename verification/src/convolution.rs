//! Impulse-response assets: their content-addressed paths inside a project, their display
//! names, and the checks made on a file before it is read.
use vstd::prelude::*;

use crate::text::{
    chars_of, control_char, eq_ignore_ascii_case, is_control, is_white_space, push_char, push_str,
    str_eq_ignore_ascii_case, white_space_char,
};
use crate::audio_build::{
    is_wav_extension, known_extension, known_file_name, path_extension, path_file_name, wav_extension,
};
use crate::wav::{ImpulseResponseError, MAX_FILE_BYTES, WavProblem};

verus! {

/// The FNV-1a offset basis.
pub const FNV_OFFSET_BASIS: u64 = 0xcbf29ce484222325;

/// The FNV-1a prime.
pub const FNV_PRIME: u64 = 0x100000001b3;

/// The directory of a project that holds impulse responses, followed by a slash.
pub open spec fn asset_prefix() -> Seq<char> {
    "assets/impulse-responses/"@
}

pub open spec fn wav_suffix() -> Seq<char> {
    ".wav"@
}

/// A lower-case hexadecimal digit.
pub open spec fn is_hash_char(c: char) -> bool {
    ('0' <= c && c <= '9') || ('a' <= c && c <= 'f')
}

/// Why a path is not the path of an impulse-response asset.
#[derive(Clone, Copy, Debug, PartialEq, Eq, Structural)]
pub enum AssetPathProblem {
    OutsideDirectory,
    NotWav,
    NotContentHash,
}

pub open spec fn asset_problem_text(p: AssetPathProblem) -> Seq<char> {
    match p {
        AssetPathProblem::OutsideDirectory => "impulse response files must be stored under assets/impulse-responses"@,
        AssetPathProblem::NotWav => "impulse response assets must be WAV files"@,
        AssetPathProblem::NotContentHash => "impulse response asset names must use their content hash"@,
    }
}

impl AssetPathProblem {
    pub fn message(self) -> (r: String)
        ensures
            r@ == asset_problem_text(self),
    {
        match self {
            AssetPathProblem::OutsideDirectory => "impulse response files must be stored under assets/impulse-responses".to_owned(),
            AssetPathProblem::NotWav => "impulse response assets must be WAV files".to_owned(),
            AssetPathProblem::NotContentHash => "impulse response asset names must use their content hash".to_owned(),
        }
    }
}

/// The first problem with `v` as an asset path: it must be `assets/impulse-responses/`,
/// sixteen lower-case hexadecimal digits, and `.wav`.
pub open spec fn asset_path_problem(v: Seq<char>) -> Option<AssetPathProblem> {
    let p = asset_prefix();
    if !(v.len() >= p.len() && v.take(p.len() as int) == p) {
        Some(AssetPathProblem::OutsideDirectory)
    } else {
        let rest = v.skip(p.len() as int);
        let w = wav_suffix();
        if !(rest.len() >= w.len() && rest.skip(rest.len() - w.len()) == w) {
            Some(AssetPathProblem::NotWav)
        } else {
            let hash = rest.take(rest.len() - w.len());
            if hash.len() != 16 || !(forall|i: int| 0 <= i < hash.len() ==> is_hash_char(#[trigger] hash[i])) {
                Some(AssetPathProblem::NotContentHash)
            } else {
                None
            }
        }
    }
}

/// The FNV-1a hash of `b`.
pub open spec fn fnv1a(b: Seq<u8>) -> u64
    decreases b.len(),
{
    if b.len() == 0 {
        FNV_OFFSET_BASIS
    } else {
        (fnv1a(b.drop_last()) ^ (b.last() as u64)).wrapping_mul(FNV_PRIME)
    }
}

pub open spec fn hex_digits() -> Seq<char> {
    seq!['0', '1', '2', '3', '4', '5', '6', '7', '8', '9', 'a', 'b', 'c', 'd', 'e', 'f']
}

/// The 16 lower-case hexadecimal digits of `h`, most significant first.
pub open spec fn hex16(h: u64) -> Seq<char> {
    Seq::new(16, |i: int| hex_digits()[((h >> ((60 - 4 * i) as u64)) & 15) as int])
}

/// The asset path of contents whose hash is `h`.
pub open spec fn asset_path_for(h: u64) -> Seq<char> {
    asset_prefix() + hex16(h) + wav_suffix()
}

/// A path inside a project that names an impulse response by the hash of its contents.
#[derive(Debug, PartialEq, Eq)]
pub struct ImpulseResponseAssetPath {
    path: String,
}

impl View for ImpulseResponseAssetPath {
    type V = Seq<char>;

    closed spec fn view(&self) -> Seq<char> {
        self.path@
    }
}

impl Clone for ImpulseResponseAssetPath {
    fn clone(&self) -> (r: Self)
        ensures
            r@ == self@,
    {
        ImpulseResponseAssetPath { path: self.path.clone() }
    }
}

/// Whether `v` starts with `p`.
fn starts_with(v: &Vec<char>, p: &Vec<char>) -> (r: bool)
    ensures
        r == (v@.len() >= p@.len() && v@.take(p@.len() as int) == p@),
{
    if v.len() < p.len() {
        return false;
    }
    let n = p.len();
    for i in 0..n
        invariant
            n == p@.len(),
            n <= v@.len(),
            forall|j: int| 0 <= j < i ==> v@[j] == p@[j],
    {
        if v[i] != p[i] {
            assert(v@.take(n as int)[i as int] != p@[i as int]);
            return false;
        }
    }
    assert(v@.take(n as int) =~= p@);
    true
}

/// Whether `v` ends with `p`.
fn ends_with(v: &Vec<char>, p: &Vec<char>) -> (r: bool)
    ensures
        r == (v@.len() >= p@.len() && v@.skip(v@.len() - p@.len()) == p@),
{
    if v.len() < p.len() {
        return false;
    }
    let n = p.len();
    let k = v.len() - n;
    for i in 0..n
        invariant
            n == p@.len(),
            k + n == v.len(),
            forall|j: int| 0 <= j < i ==> v@[k + j] == p@[j],
    {
        if v[k + i] != p[i] {
            assert(v@.skip(k as int)[i as int] != p@[i as int]);
            return false;
        }
    }
    assert(v@.skip(k as int) =~= p@);
    true
}

fn hash_digit_char(c: char) -> (r: bool)
    ensures
        r == is_hash_char(c),
{
    ('0' <= c && c <= '9') || ('a' <= c && c <= 'f')
}

fn hex_digit(n: u64) -> (c: char)
    requires
        n < 16,
    ensures
        c == hex_digits()[n as int],
{
    let digits = ['0', '1', '2', '3', '4', '5', '6', '7', '8', '9', 'a', 'b', 'c', 'd', 'e', 'f'];
    assert(digits@ == hex_digits());
    digits[n as usize]
}

impl ImpulseResponseAssetPath {
    /// Accepts `value` when it is `assets/impulse-responses/`, a 16-digit lower-case
    /// hexadecimal content hash, and `.wav`.
    pub fn new(value: String) -> (r: Result<Self, String>)
        ensures
            match asset_path_problem(value@) {
                None => r matches Ok(a) && a@ == value@,
                Some(p) => r matches Err(m) && m@ == asset_problem_text(p),
            },
    {
        let v = chars_of(value.as_str());
        let p = chars_of("assets/impulse-responses/");
        if !starts_with(&v, &p) {
            return Err(AssetPathProblem::OutsideDirectory.message());
        }
        let mut rest: Vec<char> = Vec::new();
        let n = v.len();
        let m = p.len();
        for i in m..n
            invariant
                m <= n,
                n == v@.len(),
                rest@ == v@.subrange(m as int, i as int),
        {
            rest.push(v[i]);
        }
        assert(rest@ =~= v@.skip(m as int));
        let w = chars_of(".wav");
        if !ends_with(&rest, &w) {
            return Err(AssetPathProblem::NotWav.message());
        }
        let hash_len = rest.len() - w.len();
        let ghost hash = rest@.take(hash_len as int);
        if hash_len != 16 {
            return Err(AssetPathProblem::NotContentHash.message());
        }
        for i in 0..hash_len
            invariant
                hash_len <= rest@.len(),
                hash == rest@.take(hash_len as int),
                asset_path_problem(value@) == (if !(forall|j: int| 0 <= j < hash.len() ==> is_hash_char(#[trigger] hash[j])) {
                    Some(AssetPathProblem::NotContentHash)
                } else {
                    None::<AssetPathProblem>
                }),
                forall|j: int| 0 <= j < i ==> is_hash_char(#[trigger] hash[j]),
        {
            if !hash_digit_char(rest[i]) {
                assert(!is_hash_char(hash[i as int]));
                return Err(AssetPathProblem::NotContentHash.message());
            }
        }
        Ok(ImpulseResponseAssetPath { path: value })
    }

    /// The asset path of `contents`: the 16-digit FNV-1a hash of the bytes, in hexadecimal.
    pub fn for_contents(contents: &[u8]) -> (r: Self)
        ensures
            r@ == asset_path_for(fnv1a(contents@)),
    {
        let mut hash: u64 = FNV_OFFSET_BASIS;
        let n = contents.len();
        for i in 0..n
            invariant
                n == contents@.len(),
                hash == fnv1a(contents@.take(i as int)),
        {
            assert(contents@.take(i + 1).drop_last() =~= contents@.take(i as int));
            hash = (hash ^ (contents[i] as u64)).wrapping_mul(FNV_PRIME);
        }
        assert(contents@.take(n as int) =~= contents@);
        let mut path = "assets/impulse-responses/".to_owned();
        let ghost start = path@;
        for i in 0..16usize
            invariant
                hash == fnv1a(contents@),
                start == asset_prefix(),
                path@ == start + hex16(hash).take(i as int),
        {
            let shift = 60 - 4 * (i as u64);
            let digit = (hash >> shift) & 15;
            assert(digit < 16) by (bit_vector)
                requires
                    digit == (hash >> shift) & 15,
            ;
            let c = hex_digit(digit);
            push_char(&mut path, c);
            assert(hex16(hash).take(i + 1) =~= hex16(hash).take(i as int).push(c));
        }
        assert(hex16(hash).take(16) =~= hex16(hash));
        push_str(&mut path, ".wav");
        ImpulseResponseAssetPath { path }
    }

    pub fn as_str(&self) -> (r: &str)
        ensures
            r@ == self@,
    {
        self.path.as_str()
    }
}

proof fn lemma_nibble(h: u64, s: u64)
    ensures
        (h >> s) & 15 < 16,
{
    assert((h >> s) & 15 < 16) by (bit_vector);
}

/// The path of every asset made from contents is accepted as an asset path.
pub proof fn law_content_path_is_valid(contents: Seq<u8>)
    ensures
        asset_path_problem(asset_path_for(fnv1a(contents))) is None,
{
    reveal_strlit("assets/impulse-responses/");
    reveal_strlit(".wav");
    let h = fnv1a(contents);
    let v = asset_path_for(h);
    let p = asset_prefix();
    let w = wav_suffix();
    assert(v.take(p.len() as int) =~= p);
    let rest = v.skip(p.len() as int);
    assert(rest =~= hex16(h) + w);
    assert(rest.skip(rest.len() - w.len()) =~= w);
    let hash = rest.take(rest.len() - w.len());
    assert(hash =~= hex16(h));
    assert forall|i: int| 0 <= i < hash.len() implies is_hash_char(#[trigger] hash[i]) by {
        lemma_nibble(h, (60 - 4 * i) as u64);
    }
}

/// A display name must hold a character that is not whitespace, and no control character.
pub open spec fn display_name_ok(name: Seq<char>) -> bool {
    &&& exists|i: int| 0 <= i < name.len() && !is_white_space(#[trigger] name[i])
    &&& forall|i: int| 0 <= i < name.len() ==> !is_control(#[trigger] name[i])
}

pub open spec fn display_name_text() -> Seq<char> {
    "the impulse response display name must contain visible text"@
}

/// Checks that an impulse response's display name contains visible text.
pub fn validate_display_name(name: &str) -> (r: Result<(), String>)
    ensures
        display_name_ok(name@) ==> r is Ok,
        !display_name_ok(name@) ==> (r matches Err(m) && m@ == display_name_text()),
{
    let v = chars_of(name);
    let n = v.len();
    let mut visible = false;
    for i in 0..n
        invariant
            n == v@.len(),
            v@ == name@,
            visible == exists|j: int| 0 <= j < i && !is_white_space(#[trigger] v@[j]),
            forall|j: int| 0 <= j < i ==> !is_control(#[trigger] v@[j]),
    {
        if control_char(v[i]) {
            assert(!display_name_ok(name@));
            return Err("the impulse response display name must contain visible text".to_owned());
        }
        if !white_space_char(v[i]) {
            visible = true;
        }
    }
    if !visible {
        assert(!display_name_ok(name@));
        return Err("the impulse response display name must contain visible text".to_owned());
    }
    Ok(())
}

/// An impulse response chosen for a voice: its asset path and the name it is shown by.
#[derive(Debug, PartialEq, Eq)]
pub struct VoiceConvolutionSpec {
    file: ImpulseResponseAssetPath,
    name: String,
}

pub struct ConvolutionModel {
    pub file: Seq<char>,
    pub name: Seq<char>,
}

impl View for VoiceConvolutionSpec {
    type V = ConvolutionModel;

    closed spec fn view(&self) -> ConvolutionModel {
        ConvolutionModel { file: self.file@, name: self.name@ }
    }
}

impl Clone for VoiceConvolutionSpec {
    fn clone(&self) -> (r: Self)
        ensures
            r@ == self@,
    {
        VoiceConvolutionSpec { file: self.file.clone(), name: self.name.clone() }
    }
}

/// The display name kept for an imported file: its own file name when it is a valid
/// display name, else `impulse-response.wav`.
pub open spec fn import_name(file_name: Option<Seq<char>>) -> Seq<char> {
    match file_name {
        Some(n) => if display_name_ok(n) {
            n
        } else {
            "impulse-response.wav"@
        },
        None => "impulse-response.wav"@,
    }
}

impl VoiceConvolutionSpec {
    /// A spec as it is stored in a project: the asset path must be valid, and so must the
    /// display name.
    pub fn from_stored(file: String, name: String) -> (r: Result<Self, String>)
        ensures
            match asset_path_problem(file@) {
                Some(p) => r matches Err(m) && m@ == asset_problem_text(p),
                None => if display_name_ok(name@) {
                    r matches Ok(s) && s@ == (ConvolutionModel { file: file@, name: name@ })
                } else {
                    r matches Err(m) && m@ == display_name_text()
                },
            },
    {
        let file = ImpulseResponseAssetPath::new(file)?;
        validate_display_name(name.as_str())?;
        Ok(VoiceConvolutionSpec { file, name })
    }

    /// The spec of an imported file: the asset path of its contents, and its display name.
    pub fn for_import(contents: &[u8], file_name: Option<&str>) -> (r: Self)
        ensures
            r@.file == asset_path_for(fnv1a(contents@)),
            r@.name == import_name(match file_name {
                Some(n) => Some(n@),
                None => None,
            }),
    {
        let file = ImpulseResponseAssetPath::for_contents(contents);
        let name = match file_name {
            Some(n) => match validate_display_name(n) {
                Ok(()) => n.to_owned(),
                Err(_) => "impulse-response.wav".to_owned(),
            },
            None => "impulse-response.wav".to_owned(),
        };
        VoiceConvolutionSpec { file, name }
    }

    /// The spec of a file imported from `source_path`: the asset path of its contents, and as
    /// display name the file name that `Path::file_name` finds in the path, where it is a valid
    /// display name.
    pub fn for_source_path(source_path: &str, contents: &[u8]) -> (r: Self)
        ensures
            r@.file == asset_path_for(fnv1a(contents@)),
            known_file_name(source_path@) matches Some(f) ==> r@.name == import_name(f),
    {
        let file_name = path_file_name(source_path);
        Self::for_import(contents, file_name)
    }

    /// The asset path, relative to the project directory, as text: `std::path::Path` has no
    /// place in verified code, so the caller that opens the file makes the path of it.
    pub fn file(&self) -> (r: &str)
        ensures
            r@ == self@.file,
    {
        self.file.as_str()
    }

    pub fn file_name(&self) -> (r: &str)
        ensures
            r@ == self@.name,
    {
        self.name.as_str()
    }

    pub fn file_config_value(&self) -> (r: &str)
        ensures
            r@ == self@.file,
    {
        self.file.as_str()
    }
}

/// A file selected as an impulse response must have the extension `wav`, in any case.
pub fn check_wav_extension(path: &str, extension: Option<&str>) -> (r: Result<(), ImpulseResponseError>)
    ensures
        match extension {
            Some(e) if eq_ignore_ascii_case(e@, "wav"@) => r is Ok,
            _ => r matches Err(ImpulseResponseError::Invalid { path: p, problem }) && p@ == path@
                && problem == WavProblem::NotWavExtension,
        },
{
    match extension {
        Some(e) => {
            if str_eq_ignore_ascii_case(e, "wav") {
                return Ok(());
            }
        },
        None => {},
    }
    Err(ImpulseResponseError::invalid(path, WavProblem::NotWavExtension))
}

/// A path selected as an impulse response must name a file whose extension, as
/// `Path::extension` finds it, is `wav` in any case; else it is refused before anything is
/// read.
pub fn check_wav_path(path: &str) -> (r: Result<(), ImpulseResponseError>)
    ensures
        known_extension(path@) matches Some(e) ==> (r is Ok <==> is_wav_extension(e)),
        r is Err ==> (r matches Err(ImpulseResponseError::Invalid { path: p, problem }) && p@ == path@
            && problem == WavProblem::NotWavExtension),
{
    let extension = path_extension(path);
    proof {
        reveal_strlit("wav");
        assert("wav"@ =~= wav_extension());
    }
    check_wav_extension(path, extension)
}

/// A file selected as an impulse response must be a file of at most 64 MiB.
pub fn check_wav_file(path: &str, is_file: bool, length: u64) -> (r: Result<(), ImpulseResponseError>)
    ensures
        !is_file ==> (r matches Err(ImpulseResponseError::Invalid { path: p, problem }) && p@ == path@
            && problem == WavProblem::NotAFile),
        is_file && length > MAX_FILE_BYTES ==> (r matches Err(
            ImpulseResponseError::Invalid { path: p, problem },
        ) && p@ == path@ && problem == WavProblem::TooLarge),
        is_file && length <= MAX_FILE_BYTES ==> r is Ok,
{
    if !is_file {
        return Err(ImpulseResponseError::invalid(path, WavProblem::NotAFile));
    }
    if length > MAX_FILE_BYTES {
        return Err(ImpulseResponseError::invalid(path, WavProblem::TooLarge));
    }
    Ok(())
}

/// An asset that already exists must hold the same bytes as the file being imported.
pub fn check_existing_asset(path: &str, existing: &[u8], contents: &[u8]) -> (r: Result<(), ImpulseResponseError>)
    ensures
        existing@ == contents@ ==> r is Ok,
        existing@ != contents@ ==> (r matches Err(ImpulseResponseError::Invalid { path: p, problem })
            && p@ == path@ && problem == WavProblem::AssetConflict),
{
    if existing.len() != contents.len() {
        return Err(ImpulseResponseError::invalid(path, WavProblem::AssetConflict));
    }
    let n = existing.len();
    for i in 0..n
        invariant
            n == existing@.len(),
            n == contents@.len(),
            forall|j: int| 0 <= j < i ==> existing@[j] == contents@[j],
    {
        if existing[i] != contents[i] {
            return Err(ImpulseResponseError::invalid(path, WavProblem::AssetConflict));
        }
    }
    assert(existing@ =~= contents@);
    Ok(())
}

} // verus!
