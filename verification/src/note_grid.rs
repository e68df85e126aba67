//! The rows of the note details grid of a score cell: offsets in ticks around the cell's
//! beat, on a grid of the chosen step, together with every offset that holds a note.
use vstd::prelude::*;

verus! {

/// The steps the grid offers, in ticks, in the order of its step menu.
pub open spec fn grid_steps() -> Seq<i32> {
    seq![24i32, 12, 6, 32, 16, 8, 4, 3, 2, 1]
}

/// The steps the grid offers, in ticks, in the order of its step menu.
pub fn steps() -> (r: [i32; 10])
    ensures
        r@ == grid_steps(),
{
    let r = [24i32, 12, 6, 32, 16, 8, 4, 3, 2, 1];
    assert(r@ =~= grid_steps());
    r
}

/// `x` lies on the grid of `step` ticks that runs from -96 up to, not including, 96.
pub open spec fn on_grid(step: i32, x: i32) -> bool {
    -96 <= x < 96 && (x + 96) % (step as int) == 0
}

/// The values strictly increase.
pub open spec fn increasing(s: Seq<i32>) -> bool {
    forall|i: int, j: int| 0 <= i < j < s.len() ==> s[i] < s[j]
}

/// Inserts `x` into the strictly increasing `v`, unless it is there already.
fn insert_once(v: &mut Vec<i32>, x: i32)
    requires
        increasing(old(v)@),
    ensures
        increasing(final(v)@),
        forall|y: i32| #[trigger] final(v)@.contains(y) <==> (old(v)@.contains(y) || y == x),
{
    let ghost before = v@;
    let n = v.len();
    let mut i: usize = 0;
    while i < n && v[i] < x
        invariant
            i <= n,
            n == v@.len(),
            v@ == before,
            increasing(v@),
            forall|j: int| 0 <= j < i ==> v@[j] < x,
        decreases n - i,
    {
        i = i + 1;
    }
    if i < n && v[i] == x {
        assert forall|y: i32| #[trigger] v@.contains(y) <==> (before.contains(y) || y == x) by {
            if y == x {
                assert(v@[i as int] == x);
            }
        }
        return;
    }
    v.insert(i, x);
    assert(v@ =~= before.insert(i as int, x));
    assert forall|a: int, b: int| 0 <= a < b < v@.len() implies v@[a] < v@[b] by {
        if b < i {
        } else if a < i && b == i {
        } else if a < i {
            assert(v@[b] == before[b - 1]);
            assert(before[a] < x);
            assert(i < n ==> x < before[i as int]);
            if b - 1 > i {
                assert(before[i as int] < before[b - 1]);
            }
        } else if a == i {
            assert(v@[b] == before[b - 1]);
            assert(x < before[i as int]);
            if b - 1 > i {
                assert(before[i as int] < before[b - 1]);
            }
        } else {
            assert(v@[a] == before[a - 1] && v@[b] == before[b - 1]);
        }
    }
    assert forall|y: i32| #[trigger] v@.contains(y) <==> (before.contains(y) || y == x) by {
        if v@.contains(y) {
            let k = choose|k: int| 0 <= k < v@.len() && v@[k] == y;
            if k < i {
                assert(before[k] == y);
            } else if k > i {
                assert(before[k - 1] == y);
            }
        }
        if before.contains(y) {
            let k = choose|k: int| 0 <= k < before.len() && before[k] == y;
            if k < i {
                assert(v@[k] == y);
            } else {
                assert(v@[k + 1] == y);
            }
        }
        if y == x {
            assert(v@[i as int] == x);
        }
    }
}

/// `y` is one of the first `k` occupied offsets.
pub open spec fn among_first(occupied: Seq<i32>, k: int, y: i32) -> bool {
    exists|j: int| 0 <= j < k && occupied[j] == y
}

/// The offsets of the grid of `step` ticks, in increasing order.
fn grid_offsets(step: i32) -> (r: Vec<i32>)
    requires
        step > 0,
    ensures
        increasing(r@),
        forall|y: i32| #[trigger] r@.contains(y) <==> on_grid(step, y),
{
    let mut positions: Vec<i32> = Vec::new();
    let mut x: i64 = -96;
    assert((x + 96) % (step as int) == 0) by {
        vstd::arithmetic::div_mod::lemma_small_mod(0, step as nat);
    }
    while x < 96
        invariant
            step > 0,
            -96 <= x <= 96 + step,
            (x + 96) % (step as int) == 0,
            increasing(positions@),
            forall|j: int| 0 <= j < positions@.len() ==> positions@[j] < x,
            forall|y: i32| #[trigger] positions@.contains(y) <==> (on_grid(step, y) && y < x),
        decreases 96 + step - x,
    {
        let ghost before = positions@;
        positions.push(x as i32);
        assert(positions@ =~= before.push(x as i32));
        assert forall|y: i32| #[trigger] positions@.contains(y) <==> (on_grid(step, y) && y < x + step) by {
            if positions@.contains(y) {
                let k = choose|k: int| 0 <= k < positions@.len() && positions@[k] == y;
                if k < before.len() {
                    assert(before.contains(y));
                } else {
                    assert(y == x);
                }
            }
            if on_grid(step, y) && y < x + step {
                if y < x {
                    assert(before.contains(y));
                    let k = choose|k: int| 0 <= k < before.len() && before[k] == y;
                    assert(positions@[k] == y);
                } else {
                    assert(y == x) by (nonlinear_arith)
                        requires
                            x <= y < x + step,
                            (x + 96) % (step as int) == 0,
                            (y + 96) % (step as int) == 0,
                            step > 0,
                    {
                        vstd::arithmetic::div_mod::lemma_fundamental_div_mod(x + 96, step as int);
                        vstd::arithmetic::div_mod::lemma_fundamental_div_mod(y + 96, step as int);
                    }
                    assert(positions@[before.len() as int] == y);
                }
            }
        }
        assert((x + step + 96) % (step as int) == 0) by {
            vstd::arithmetic::div_mod::lemma_mod_add_multiples_vanish(x + 96, step as int);
        }
        x = x + step as i64;
    }
    positions
}

/// The rows of the grid at `step` ticks: the grid's offsets and every offset in `occupied`,
/// in increasing order, each once.
pub fn note_grid_positions(step: i32, occupied: &Vec<i32>) -> (r: Vec<i32>)
    requires
        step > 0,
    ensures
        increasing(r@),
        forall|x: i32| #[trigger] r@.contains(x) <==> (on_grid(step, x) || occupied@.contains(x)),
{
    let mut positions = grid_offsets(step);
    let n = occupied.len();
    for k in 0..n
        invariant
            n == occupied@.len(),
            increasing(positions@),
            forall|y: i32| #[trigger] positions@.contains(y) <==> (on_grid(step, y) || among_first(occupied@, k as int, y)),
    {
        let ghost before = positions@;
        let z = occupied[k];
        insert_once(&mut positions, z);
        assert forall|y: i32| #[trigger] positions@.contains(y) <==> (on_grid(step, y) || among_first(occupied@, k + 1, y)) by {
            if among_first(occupied@, k + 1, y) {
                let j = choose|j: int| 0 <= j < k + 1 && occupied@[j] == y;
                if j < k {
                    assert(among_first(occupied@, k as int, y));
                } else {
                    assert(y == z);
                }
            }
            if among_first(occupied@, k as int, y) {
                let j = choose|j: int| 0 <= j < k && occupied@[j] == y;
                assert(0 <= j < k + 1 && occupied@[j] == y);
            }
            if y == z {
                assert(0 <= k < k + 1 && occupied@[k as int] == y);
            }
            assert(positions@.contains(y) <==> (before.contains(y) || y == z));
            assert(before.contains(y) <==> (on_grid(step, y) || among_first(occupied@, k as int, y)));
        }
    }
    assert forall|y: i32| #[trigger] positions@.contains(y) <==> (on_grid(step, y) || occupied@.contains(y)) by {
        if occupied@.contains(y) {
            let j = choose|j: int| 0 <= j < occupied@.len() && occupied@[j] == y;
            assert(0 <= j < n && occupied@[j] == y);
        }
        if among_first(occupied@, n as int, y) {
            let j = choose|j: int| 0 <= j < n && occupied@[j] == y;
            assert(occupied@[j] == y);
        }
    }
    positions
}

} // verus!
