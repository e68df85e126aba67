//! Parts of a project and their scores: the values the history records.
use vstd::prelude::*;

use crate::text::{eq_ignore_ascii_case, str_eq_ignore_ascii_case};

verus! {

/// The name of a part. Names are matched without regard to ASCII case.
#[derive(Debug, PartialEq, Eq)]
pub struct PartName {
    name: String,
}

impl View for PartName {
    type V = Seq<char>;

    closed spec fn view(&self) -> Seq<char> {
        self.name@
    }
}

impl Clone for PartName {
    fn clone(&self) -> (r: Self)
        ensures
            r@ == self@,
    {
        PartName { name: self.name.clone() }
    }
}

impl PartName {
    pub fn new(name: &str) -> (r: Self)
        ensures
            r@ == name@,
    {
        PartName { name: name.to_owned() }
    }

    pub fn as_str(&self) -> (r: &str)
        ensures
            r@ == self@,
    {
        self.name.as_str()
    }

    pub fn equals(&self, other: &PartName) -> (r: bool)
        ensures
            r == (self@ == other@),
    {
        self.name == other.name
    }

    pub fn eq_ignore_ascii_case(&self, other: &PartName) -> (r: bool)
        ensures
            r == eq_ignore_ascii_case(self@, other@),
    {
        str_eq_ignore_ascii_case(self.name.as_str(), other.name.as_str())
    }
}

/// Copies a row of cells.
pub fn copy_row(row: &Vec<String>) -> (r: Vec<String>)
    ensures
        r@ == row@,
{
    let mut r: Vec<String> = Vec::new();
    let n = row.len();
    for i in 0..n
        invariant
            n == row@.len(),
            r@ == row@.take(i as int),
    {
        r.push(row[i].clone());
        assert(row@.take(i + 1) == row@.take(i as int).push(row@[i as int]));
    }
    assert(row@.take(n as int) == row@);
    r
}

/// The view of a row: the text of each cell.
pub open spec fn row_view(row: Vec<String>) -> Seq<Seq<char>> {
    row@.map_values(|s: String| s@)
}

/// The view of a grid of rows.
pub open spec fn rows_view(rows: Seq<Vec<String>>) -> Seq<Seq<Seq<char>>> {
    rows.map_values(|r: Vec<String>| row_view(r))
}

/// Copies a grid of rows.
pub fn copy_rows(rows: &Vec<Vec<String>>) -> (r: Vec<Vec<String>>)
    ensures
        rows_view(r@) == rows_view(rows@),
{
    let mut r: Vec<Vec<String>> = Vec::new();
    let n = rows.len();
    for i in 0..n
        invariant
            n == rows@.len(),
            r@.len() == i,
            forall|j: int| 0 <= j < i ==> row_view(#[trigger] r@[j]) == row_view(rows@[j]),
    {
        let row = copy_row(&rows[i]);
        r.push(row);
    }
    assert(rows_view(r@) =~= rows_view(rows@));
    r
}

/// The score of a part: rows of beats, one cell per voice.
#[derive(Debug, PartialEq, Eq)]
pub struct PartScore {
    rows: Vec<Vec<String>>,
}

impl View for PartScore {
    type V = Seq<Seq<Seq<char>>>;

    closed spec fn view(&self) -> Seq<Seq<Seq<char>>> {
        rows_view(self.rows@)
    }
}

impl Clone for PartScore {
    fn clone(&self) -> (r: Self)
        ensures
            r@ == self@,
    {
        PartScore { rows: copy_rows(&self.rows) }
    }
}

impl PartScore {
    pub fn from_rows(rows: Vec<Vec<String>>) -> (r: Self)
        ensures
            r@ == rows_view(rows@),
    {
        PartScore { rows }
    }

    pub fn rows(&self) -> (r: &Vec<Vec<String>>)
        ensures
            rows_view(r@) == self@,
    {
        &self.rows
    }
}

/// A part of the arrangement: its name, its length in beats, and how its beats are grouped:
/// the sizes of the repeating groups of beats (`4` or `4, 3, 3`) and the number of beats of
/// a major subdivision, each where the part has one.
#[derive(Debug, PartialEq, Eq)]
pub struct Part {
    pub name: PartName,
    pub length: u32,
    pub subdivision_pattern: Option<Vec<u32>>,
    pub major_subdivision: Option<u32>,
}

pub struct PartModel {
    pub name: Seq<char>,
    pub length: u32,
    pub subdivision_pattern: Option<Seq<u32>>,
    pub major_subdivision: Option<u32>,
}

/// The view of an optional list of group sizes.
pub open spec fn pattern_view(p: Option<Vec<u32>>) -> Option<Seq<u32>> {
    match p {
        Some(v) => Some(v@),
        None => None,
    }
}

impl View for Part {
    type V = PartModel;

    open spec fn view(&self) -> PartModel {
        PartModel {
            name: self.name@,
            length: self.length,
            subdivision_pattern: pattern_view(self.subdivision_pattern),
            major_subdivision: self.major_subdivision,
        }
    }
}

/// Copies an optional list of group sizes.
pub fn copy_pattern(p: &Option<Vec<u32>>) -> (r: Option<Vec<u32>>)
    ensures
        pattern_view(r) == pattern_view(*p),
{
    match p {
        Some(v) => Some(v.clone()),
        None => None,
    }
}

/// Compares two optional lists of group sizes.
pub fn patterns_equal(a: &Option<Vec<u32>>, b: &Option<Vec<u32>>) -> (r: bool)
    ensures
        r == (pattern_view(*a) == pattern_view(*b)),
{
    match (a, b) {
        (Some(x), Some(y)) => {
            if x.len() != y.len() {
                return false;
            }
            let n = x.len();
            for i in 0..n
                invariant
                    n == x@.len(),
                    n == y@.len(),
                    pattern_view(*a) == Some(x@),
                    pattern_view(*b) == Some(y@),
                    forall|j: int| 0 <= j < i ==> x@[j] == y@[j],
            {
                if x[i] != y[i] {
                    assert(x@[i as int] != y@[i as int]);
                    assert(x@ != y@);
                    return false;
                }
            }
            assert(x@ =~= y@);
            true
        },
        (None, None) => true,
        _ => false,
    }
}

impl Clone for Part {
    fn clone(&self) -> (r: Self)
        ensures
            r@ == self@,
    {
        Part {
            name: self.name.clone(),
            length: self.length,
            subdivision_pattern: copy_pattern(&self.subdivision_pattern),
            major_subdivision: self.major_subdivision,
        }
    }
}

impl Part {
    /// A part with this name and length, and no subdivisions.
    pub fn new(name: &str, length: u32) -> (r: Self)
        ensures
            r@ == (PartModel { name: name@, length, subdivision_pattern: None, major_subdivision: None }),
    {
        Part { name: PartName { name: name.to_owned() }, length, subdivision_pattern: None, major_subdivision: None }
    }

    pub fn with_subdivision_pattern(self, pattern: Option<Vec<u32>>) -> (r: Self)
        ensures
            r@ == (PartModel { subdivision_pattern: pattern_view(pattern), ..self@ }),
    {
        Part { subdivision_pattern: pattern, ..self }
    }

    pub fn with_major_subdivision(self, beats: Option<u32>) -> (r: Self)
        ensures
            r@ == (PartModel { major_subdivision: beats, ..self@ }),
    {
        Part { major_subdivision: beats, ..self }
    }

    /// The sizes of the repeating groups of beats, where the part has them.
    pub fn subdivision_pattern(&self) -> (r: Option<&Vec<u32>>)
        ensures
            match r {
                Some(v) => self@.subdivision_pattern == Some(v@),
                None => self@.subdivision_pattern is None,
            },
    {
        match &self.subdivision_pattern {
            Some(v) => Some(v),
            None => None,
        }
    }

    /// The number of beats of a major subdivision, where the part has one.
    pub fn major_subdivision(&self) -> (r: Option<u32>)
        ensures
            r == self@.major_subdivision,
    {
        self.major_subdivision
    }

    /// Compares two parts field by field, names exactly.
    pub fn equals(&self, other: &Part) -> (r: bool)
        ensures
            r == (self@ == other@),
    {
        self.name.equals(&other.name) && self.length == other.length
            && patterns_equal(&self.subdivision_pattern, &other.subdivision_pattern)
            && self.major_subdivision == other.major_subdivision
    }
}

} // verus!
