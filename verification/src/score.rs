//! Edits of single score cells, and cell-by-cell transformations of a score.
use vstd::prelude::*;

use crate::part::{PartScore, row_view, rows_view};
use crate::arrangement::{trim_chars, trimmed};
use crate::change_db::{parse_u32, parsed_u32};
use crate::text::{chars_of, decimal, push_decimal, push_str};

verus! {

/// One cell of a score changed from `before` to `after`.
#[derive(Debug, PartialEq, Eq)]
pub struct ScoreCellEdit {
    pub row: usize,
    pub column: usize,
    pub before: String,
    pub after: String,
}

pub struct EditModel {
    pub row: usize,
    pub column: usize,
    pub before: Seq<char>,
    pub after: Seq<char>,
}

impl View for ScoreCellEdit {
    type V = EditModel;

    open spec fn view(&self) -> EditModel {
        EditModel { row: self.row, column: self.column, before: self.before@, after: self.after@ }
    }
}

impl Clone for ScoreCellEdit {
    fn clone(&self) -> (r: Self)
        ensures
            r@ == self@,
    {
        ScoreCellEdit {
            row: self.row,
            column: self.column,
            before: self.before.clone(),
            after: self.after.clone(),
        }
    }
}

/// The edit that undoes `e`.
pub open spec fn reversed_edit(e: EditModel) -> EditModel {
    EditModel { row: e.row, column: e.column, before: e.after, after: e.before }
}

impl ScoreCellEdit {
    /// The edit that undoes this one: the same cell, with `before` and `after` swapped.
    pub fn reversed(&self) -> (r: Self)
        ensures
            r@ == reversed_edit(self@),
    {
        ScoreCellEdit {
            row: self.row,
            column: self.column,
            before: self.after.clone(),
            after: self.before.clone(),
        }
    }
}

/// Reversing an edit twice gives the edit back.
pub proof fn law_reversed_twice(e: EditModel)
    ensures
        reversed_edit(reversed_edit(e)) == e,
{
}

/// `f` can turn a cell holding `x` into the cell `y`.
pub open spec fn cell_maps_to<F: Fn(&String) -> Result<String, String>>(f: F, x: Seq<char>, y: Seq<char>) -> bool {
    exists|a: String, b: String| a@ == x && b@ == y && #[trigger] call_ensures(f, (&a,), Ok::<String, String>(b))
}

/// `f` can refuse a cell holding `x` with the message `e`.
pub open spec fn cell_fails_with<F: Fn(&String) -> Result<String, String>>(f: F, x: Seq<char>, e: Seq<char>) -> bool {
    exists|a: String, b: String| a@ == x && b@ == e && #[trigger] call_ensures(f, (&a,), Err::<String, String>(b))
}

/// The message of a refused cell: its beat and voice, counted from one, and why.
pub open spec fn cell_error_text(row: int, column: int, e: Seq<char>) -> Seq<char> {
    "beat "@ + decimal((row + 1) as nat) + ", voice "@ + decimal((column + 1) as nat) + ": "@ + e
}

/// Cell (`r`, `c`) comes before cell (`r2`, `c2`) in reading order.
pub open spec fn cell_before(r: int, c: int, r2: int, c2: int) -> bool {
    r < r2 || (r == r2 && c < c2)
}

/// Transforms every cell of a score with `transform`, row by row; the first cell it refuses
/// fails the whole score, with the cell's beat and voice in the message.
pub fn map_score_cells<F: Fn(&String) -> Result<String, String>>(score: &PartScore, transform: &F) -> (r: Result<PartScore, String>)
    requires
        forall|x: String| #[trigger] call_requires(*transform, (&x,)),
    ensures
        r matches Ok(t) ==> {
            &&& t@.len() == score@.len()
            &&& forall|i: int| 0 <= i < score@.len() ==> (#[trigger] t@[i]).len() == score@[i].len()
            &&& forall|i: int, j: int|
                0 <= i < score@.len() && 0 <= j < score@[i].len() ==> cell_maps_to(*transform, score@[i][j], #[trigger] t@[i][j])
        },
        r matches Err(m) ==> exists|i: int, j: int, e: Seq<char>|
            0 <= i < score@.len() && 0 <= j < score@[i].len() && #[trigger] cell_fails_with(*transform, score@[i][j], e)
                && m@ == cell_error_text(i, j, e)
                && (forall|i2: int, j2: int|
                    0 <= i2 < score@.len() && 0 <= j2 < score@[i2].len() && cell_before(i2, j2, i, j) ==> exists|y: Seq<char>|
                        #[trigger] cell_maps_to(*transform, score@[i2][j2], y)),
{
    let rows = score.rows();
    let n = rows.len();
    let mut out: Vec<Vec<String>> = Vec::new();
    for i in 0..n
        invariant
            n == rows@.len(),
            rows_view(rows@) == score@,
            forall|x: String| #[trigger] call_requires(*transform, (&x,)),
            out@.len() == i,
            forall|k: int| 0 <= k < i ==> row_view(#[trigger] out@[k]).len() == score@[k].len(),
            forall|k: int, j: int|
                0 <= k < i && 0 <= j < score@[k].len() ==> cell_maps_to(*transform, score@[k][j], #[trigger] row_view(out@[k])[j]),
    {
        let row = &rows[i];
        assert(row_view(*row) == score@[i as int]);
        let m = row.len();
        let mut mapped: Vec<String> = Vec::new();
        for j in 0..m
            invariant
                m == row@.len(),
                row_view(*row) == score@[i as int],
                rows_view(rows@) == score@,
                0 <= i < n,
                n == rows@.len(),
                forall|x: String| #[trigger] call_requires(*transform, (&x,)),
                mapped@.len() == j,
                forall|k: int| 0 <= k < j ==> cell_maps_to(*transform, score@[i as int][k], #[trigger] row_view(mapped)[k]),
                out@.len() == i,
                forall|k: int| 0 <= k < i ==> row_view(#[trigger] out@[k]).len() == score@[k].len(),
                forall|k: int, l: int|
                    0 <= k < i && 0 <= l < score@[k].len() ==> cell_maps_to(*transform, score@[k][l], #[trigger] row_view(out@[k])[l]),
        {
            let value = &row[j];
            assert(value@ == score@[i as int][j as int]);
            match transform(value) {
                Ok(v) => {
                    assert(cell_maps_to(*transform, score@[i as int][j as int], v@));
                    let ghost before = row_view(mapped);
                    mapped.push(v);
                    assert(row_view(mapped)[j as int] == v@);
                    assert forall|k: int| 0 <= k < j implies cell_maps_to(*transform, score@[i as int][k], #[trigger] row_view(mapped)[k]) by {
                        assert(row_view(mapped)[k] == before[k]);
                        assert(cell_maps_to(*transform, score@[i as int][k], before[k]));
                    }
                },
                Err(e) => {
                    let mut message = "beat ".to_owned();
                    push_decimal(&mut message, (i + 1) as u128);
                    push_str(&mut message, ", voice ");
                    push_decimal(&mut message, (j + 1) as u128);
                    push_str(&mut message, ": ");
                    push_str(&mut message, e.as_str());
                    assert(cell_fails_with(*transform, score@[i as int][j as int], e@));
                    assert forall|i2: int, j2: int|
                        0 <= i2 < score@.len() && 0 <= j2 < score@[i2].len() && cell_before(i2, j2, i as int, j as int) implies exists|y: Seq<char>|
                            #[trigger] cell_maps_to(*transform, score@[i2][j2], y) by {
                        if i2 < i {
                            assert(cell_maps_to(*transform, score@[i2][j2], row_view(out@[i2])[j2]));
                        } else {
                            assert(cell_maps_to(*transform, score@[i2][j2], row_view(mapped)[j2]));
                        }
                    }
                    return Err(message);
                },
            }
        }
        out.push(mapped);
        assert(row_view(out@[i as int]) == row_view(mapped));
    }
    let t = PartScore::from_rows(out);
    assert(t@ == rows_view(out@));
    Ok(t)
}

/// The step that SplitMix64 adds to its seed before each draw.
pub const SPLITMIX_GAMMA: u64 = 0x9e3779b97f4a7c15;

/// The seed after one SplitMix64 draw.
pub open spec fn next_seed(seed: u64) -> u64 {
    vstd::wrapping::u64_specs::wrapping_add(seed, SPLITMIX_GAMMA)
}

/// The SplitMix64 output for a seed that has just been advanced.
pub open spec fn splitmix_output(seed: u64) -> u64 {
    let z1 = vstd::wrapping::u64_specs::wrapping_mul(seed ^ (seed >> 30u64), 0xbf58476d1ce4e5b9u64);
    let z2 = vstd::wrapping::u64_specs::wrapping_mul(z1 ^ (z1 >> 27u64), 0x94d049bb133111ebu64);
    z2 ^ (z2 >> 31u64)
}

/// Draws the next random number for a volume range: advances `seed` by one SplitMix64 step
/// and gives the top 53 bits of its output, the numerator of a fraction of 2^53.
pub fn next_volume_draw(seed: &mut u64) -> (r: u64)
    ensures
        *final(seed) == next_seed(*old(seed)),
        r == splitmix_output(*final(seed)) >> 11u64,
        r < 0x20_0000_0000_0000,
{
    *seed = seed.wrapping_add(SPLITMIX_GAMMA);
    let mut z = *seed;
    z = (z ^ (z >> 30)).wrapping_mul(0xbf58476d1ce4e5b9);
    z = (z ^ (z >> 27)).wrapping_mul(0x94d049bb133111eb);
    let out = z ^ (z >> 31);
    let r = out >> 11;
    assert(out >> 11u64 < 0x20_0000_0000_0000u64) by (bit_vector);
    r
}

/// The number of steps a transposition moves notes by, from the text of its field and its
/// direction: a whole number from 1 to 127, upwards or downwards.
pub open spec fn transpose_steps_of(value: Seq<char>, upward: bool) -> Option<i32> {
    match parsed_u32(trimmed(value)) {
        Some(n) => if 1 <= n <= 127 {
            Some(if upward { n as i32 } else { (-(n as int)) as i32 })
        } else {
            None
        },
        None => None,
    }
}

/// Reads the steps of a transposition; the steps field holds a whole number from 1 to 127.
pub fn transpose_steps(value: &str, upward: bool) -> (r: Result<i32, String>)
    ensures
        match transpose_steps_of(value@, upward) {
            Some(n) => r == Ok::<i32, String>(n),
            None => r matches Err(m) && m@ == "steps must be a whole number from 1 to 127"@,
        },
{
    let chars = chars_of(value);
    let text = trim_chars(&chars);
    match parse_u32(&text) {
        Some(n) => if 1 <= n && n <= 127 {
            let steps = n as i32;
            if upward {
                Ok(steps)
            } else {
                Ok(-steps)
            }
        } else {
            Err("steps must be a whole number from 1 to 127".to_owned())
        },
        None => Err("steps must be a whole number from 1 to 127".to_owned()),
    }
}

} // verus!
