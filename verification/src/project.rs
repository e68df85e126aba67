//! A project: its settings, its voices and its parts.
use vstd::prelude::*;

use crate::part::{Part, PartModel, PartName};
use crate::text::{eq_ignore_ascii_case, first_match, lemma_first_match, lemma_first_match_found};

verus! {

/// The waveform of a voice.
#[derive(Clone, Copy, Debug, PartialEq, Eq, Structural)]
pub enum VoiceType {
    Saw,
    Sin,
}

/// The identifier of a voice, stable across renames.
#[derive(Clone, Copy, Debug, PartialEq, Eq, Structural)]
pub struct VoiceId {
    pub value: u32,
}

impl VoiceId {
    pub fn value(self) -> (r: u32)
        ensures
            r == self.value,
    {
        self.value
    }
}

/// One voice of a project: a column of every score.
#[derive(Debug, PartialEq, Eq)]
pub struct Voice {
    pub id: VoiceId,
    pub name: String,
    pub voice_type: VoiceType,
}

pub struct VoiceModel {
    pub id: u32,
    pub name: Seq<char>,
    pub voice_type: VoiceType,
}

impl View for Voice {
    type V = VoiceModel;

    open spec fn view(&self) -> VoiceModel {
        VoiceModel { id: self.id.value, name: self.name@, voice_type: self.voice_type }
    }
}

impl Clone for Voice {
    fn clone(&self) -> (r: Self)
        ensures
            r@ == self@,
    {
        Voice { id: self.id, name: self.name.clone(), voice_type: self.voice_type }
    }
}

impl Voice {
    pub fn new(id: u32, name: &str, voice_type: VoiceType) -> (r: Self)
        ensures
            r@ == (VoiceModel { id, name: name@, voice_type }),
    {
        Voice { id: VoiceId { value: id }, name: name.to_owned(), voice_type }
    }

    pub fn id(&self) -> (r: VoiceId)
        ensures
            r == self.id,
    {
        self.id
    }
}

/// The seed of a project's random choices.
#[derive(Clone, Copy, Debug, PartialEq, Eq, Structural)]
pub struct Seed {
    pub value: u64,
}

impl Seed {
    pub fn new(value: u64) -> (r: Self)
        ensures
            r.value == value,
    {
        Seed { value }
    }
}

/// A project: the settings that every score shares, its voices, its parts and the order in
/// which its parts are played.
#[derive(Debug, PartialEq, Eq)]
pub struct Project {
    pub name: String,
    pub description: String,
    pub beat_duration_millis: u32,
    pub beat_offset: u32,
    pub seed: Seed,
    pub voices: Vec<Voice>,
    pub parts: Vec<Part>,
    pub sequence: Vec<PartName>,
}

pub struct ProjectModel {
    pub name: Seq<char>,
    pub description: Seq<char>,
    pub beat_duration_millis: u32,
    pub beat_offset: u32,
    pub seed: u64,
    pub voices: Seq<VoiceModel>,
    pub parts: Seq<PartModel>,
    pub sequence: Seq<Seq<char>>,
}

impl View for Project {
    type V = ProjectModel;

    open spec fn view(&self) -> ProjectModel {
        ProjectModel {
            name: self.name@,
            description: self.description@,
            beat_duration_millis: self.beat_duration_millis,
            beat_offset: self.beat_offset,
            seed: self.seed.value,
            voices: self.voices@.map_values(|v: Voice| v@),
            parts: self.parts@.map_values(|p: Part| p@),
            sequence: self.sequence@.map_values(|n: PartName| n@),
        }
    }
}

/// The names of a list of parts.
pub open spec fn part_names(parts: Seq<PartModel>) -> Seq<Seq<char>> {
    parts.map_values(|p: PartModel| p.name)
}

/// Compares two voices field by field.
pub fn voices_equal(a: &Vec<Voice>, b: &Vec<Voice>) -> (r: bool)
    ensures
        r == (a@.map_values(|v: Voice| v@) == b@.map_values(|v: Voice| v@)),
{
    if a.len() != b.len() {
        assert(a@.map_values(|v: Voice| v@).len() != b@.map_values(|v: Voice| v@).len());
        return false;
    }
    let n = a.len();
    for i in 0..n
        invariant
            n == a@.len(),
            n == b@.len(),
            forall|j: int| 0 <= j < i ==> (#[trigger] a@[j])@ == b@[j]@,
    {
        let x = &a[i];
        let y = &b[i];
        if !(x.id.value == y.id.value && x.name == y.name && x.voice_type == y.voice_type) {
            assert(a@.map_values(|v: Voice| v@)[i as int] != b@.map_values(|v: Voice| v@)[i as int]);
            return false;
        }
    }
    assert(a@.map_values(|v: Voice| v@) =~= b@.map_values(|v: Voice| v@));
    true
}

/// Compares two part lists field by field.
pub fn parts_equal(a: &Vec<Part>, b: &Vec<Part>) -> (r: bool)
    ensures
        r == (a@.map_values(|p: Part| p@) == b@.map_values(|p: Part| p@)),
{
    if a.len() != b.len() {
        assert(a@.map_values(|p: Part| p@).len() != b@.map_values(|p: Part| p@).len());
        return false;
    }
    let n = a.len();
    for i in 0..n
        invariant
            n == a@.len(),
            n == b@.len(),
            forall|j: int| 0 <= j < i ==> (#[trigger] a@[j])@ == b@[j]@,
    {
        let x = &a[i];
        let y = &b[i];
        if !x.equals(y) {
            assert(a@.map_values(|p: Part| p@)[i as int] != b@.map_values(|p: Part| p@)[i as int]);
            return false;
        }
    }
    assert(a@.map_values(|p: Part| p@) =~= b@.map_values(|p: Part| p@));
    true
}

/// Compares two lists of part names, name by name and exactly.
pub fn names_equal(a: &Vec<PartName>, b: &Vec<PartName>) -> (r: bool)
    ensures
        r == (a@.map_values(|n: PartName| n@) == b@.map_values(|n: PartName| n@)),
{
    if a.len() != b.len() {
        assert(a@.map_values(|n: PartName| n@).len() != b@.map_values(|n: PartName| n@).len());
        return false;
    }
    let n = a.len();
    for i in 0..n
        invariant
            n == a@.len(),
            n == b@.len(),
            forall|j: int| 0 <= j < i ==> (#[trigger] a@[j])@ == b@[j]@,
    {
        if !a[i].equals(&b[i]) {
            assert(a@.map_values(|n: PartName| n@)[i as int] != b@.map_values(|n: PartName| n@)[i as int]);
            return false;
        }
    }
    assert(a@.map_values(|n: PartName| n@) =~= b@.map_values(|n: PartName| n@));
    true
}

/// Copies a list of part names.
pub fn copy_names(v: &Vec<PartName>) -> (r: Vec<PartName>)
    ensures
        r@.map_values(|x: PartName| x@) == v@.map_values(|x: PartName| x@),
{
    let mut r: Vec<PartName> = Vec::new();
    let n = v.len();
    for i in 0..n
        invariant
            n == v@.len(),
            r@.len() == i,
            forall|j: int| 0 <= j < i ==> (#[trigger] r@[j])@ == v@[j]@,
    {
        r.push(v[i].clone());
    }
    assert(r@.map_values(|x: PartName| x@) =~= v@.map_values(|x: PartName| x@));
    r
}

/// Copies a list of voices.
pub fn copy_voices(v: &Vec<Voice>) -> (r: Vec<Voice>)
    ensures
        r@.map_values(|x: Voice| x@) == v@.map_values(|x: Voice| x@),
{
    let mut r: Vec<Voice> = Vec::new();
    let n = v.len();
    for i in 0..n
        invariant
            n == v@.len(),
            r@.len() == i,
            forall|j: int| 0 <= j < i ==> (#[trigger] r@[j])@ == v@[j]@,
    {
        r.push(v[i].clone());
    }
    assert(r@.map_values(|x: Voice| x@) =~= v@.map_values(|x: Voice| x@));
    r
}

/// Copies a list of parts.
pub fn copy_parts(v: &Vec<Part>) -> (r: Vec<Part>)
    ensures
        r@.map_values(|x: Part| x@) == v@.map_values(|x: Part| x@),
{
    let mut r: Vec<Part> = Vec::new();
    let n = v.len();
    for i in 0..n
        invariant
            n == v@.len(),
            r@.len() == i,
            forall|j: int| 0 <= j < i ==> (#[trigger] r@[j])@ == v@[j]@,
    {
        r.push(v[i].clone());
    }
    assert(r@.map_values(|x: Part| x@) =~= v@.map_values(|x: Part| x@));
    r
}

impl Clone for Project {
    fn clone(&self) -> (r: Self)
        ensures
            r@ == self@,
    {
        Project {
            name: self.name.clone(),
            description: self.description.clone(),
            beat_duration_millis: self.beat_duration_millis,
            beat_offset: self.beat_offset,
            seed: self.seed,
            voices: copy_voices(&self.voices),
            parts: copy_parts(&self.parts),
            sequence: copy_names(&self.sequence),
        }
    }
}

impl Project {
    pub fn new(name: &str, beat_duration_millis: u32, beat_offset: u32, seed: Seed) -> (r: Self)
        ensures
            r@ == (ProjectModel {
                name: name@,
                description: Seq::empty(),
                beat_duration_millis,
                beat_offset,
                seed: seed.value,
                voices: Seq::empty(),
                parts: Seq::empty(),
                sequence: Seq::empty(),
            }),
    {
        let r = Project {
            name: name.to_owned(),
            description: String::new(),
            beat_duration_millis,
            beat_offset,
            seed,
            voices: Vec::new(),
            parts: Vec::new(),
            sequence: Vec::new(),
        };
        assert(r@.voices =~= Seq::empty());
        assert(r@.parts =~= Seq::empty());
        assert(r@.sequence =~= Seq::empty());
        r
    }

    pub fn with_voices(self, voices: Vec<Voice>) -> (r: Self)
        ensures
            r@ == (ProjectModel { voices: voices@.map_values(|v: Voice| v@), ..self@ }),
    {
        Project { voices, ..self }
    }

    pub fn with_parts(self, parts: Vec<Part>) -> (r: Self)
        ensures
            r@ == (ProjectModel { parts: parts@.map_values(|p: Part| p@), ..self@ }),
    {
        Project { parts, ..self }
    }

    pub fn with_sequence(self, sequence: Vec<PartName>) -> (r: Self)
        ensures
            r@ == (ProjectModel { sequence: sequence@.map_values(|n: PartName| n@), ..self@ }),
    {
        Project { sequence, ..self }
    }

    /// Replaces the order in which the parts are played.
    pub fn set_sequence(&mut self, sequence: Vec<PartName>)
        ensures
            final(self)@ == (ProjectModel { sequence: sequence@.map_values(|n: PartName| n@), ..old(self)@ }),
    {
        self.sequence = sequence;
    }

    /// The order in which the parts are played, by name.
    pub fn sequence(&self) -> (r: &Vec<PartName>)
        ensures
            r@.map_values(|n: PartName| n@) == self@.sequence,
    {
        &self.sequence
    }

    pub fn voices(&self) -> (r: &Vec<Voice>)
        ensures
            r@.map_values(|v: Voice| v@) == self@.voices,
    {
        &self.voices
    }

    pub fn parts(&self) -> (r: &Vec<Part>)
        ensures
            r@.map_values(|p: Part| p@) == self@.parts,
    {
        &self.parts
    }

    /// The first part whose name matches `name` without regard to ASCII case.
    pub fn part(&self, name: &PartName) -> (r: Option<&Part>)
        ensures
            match first_match(part_names(self@.parts), name@) {
                Some(i) => r matches Some(p) && p@ == self@.parts[i],
                None => r is None,
            },
    {
        let n = self.parts.len();
        for i in 0..n
            invariant
                n == self.parts@.len(),
                forall|j: int| 0 <= j < i ==> !eq_ignore_ascii_case(#[trigger] part_names(self@.parts)[j], name@),
        {
            if self.parts[i].name.eq_ignore_ascii_case(name) {
                proof {
                    lemma_first_match(part_names(self@.parts), name@, i as int);
                }
                return Some(&self.parts[i]);
            }
        }
        proof {
            lemma_first_match_found(part_names(self@.parts), name@);
        }
        None
    }

    /// Compares two projects field by field.
    pub fn equals(&self, other: &Project) -> (r: bool)
        ensures
            r == (self@ == other@),
    {
        self.name == other.name && self.description == other.description
            && self.beat_duration_millis == other.beat_duration_millis
            && self.beat_offset == other.beat_offset && self.seed.value == other.seed.value
            && voices_equal(&self.voices, &other.voices) && parts_equal(&self.parts, &other.parts)
            && names_equal(&self.sequence, &other.sequence)
    }
}

} // verus!
