use vstd::prelude::*;
use crate::sort::sorted_by_hash;
use crate::unit::{Unit, NONE};

verus! {

/// Position `i` of `s` starts a run of key `h`: it holds `h` and its
/// predecessor, if any, does not.
pub open spec fn starts_run(s: Seq<Unit>, i: int, h: int) -> bool {
    s[i].hash_id == h && (i == 0 || s[i - 1].hash_id != h)
}

/// The table entry for key `h` after the positions below `n` have been
/// visited: the last of them that starts a run of `h`, or `NONE`.
pub open spec fn run_start(s: Seq<Unit>, n: int, h: int) -> int
    decreases n,
{
    if n <= 0 {
        NONE as int
    } else if starts_run(s, n - 1, h) {
        n - 1
    } else {
        run_start(s, n - 1, h)
    }
}

/// The cell index table of `s` with `cells` entries.
pub open spec fn cell_table(s: Seq<Unit>, cells: int) -> Seq<i32> {
    Seq::new(cells as nat, |h: int| run_start(s, s.len() as int, h) as i32)
}

proof fn lemma_run_start_range(s: Seq<Unit>, n: int, h: int)
    requires
        0 <= n <= s.len(),
    ensures
        run_start(s, n, h) == NONE || 0 <= run_start(s, n, h) < n,
    decreases n,
{
    if n > 0 {
        lemma_run_start_range(s, n - 1, h);
    }
}

/// Builds the cell index table from the units in sorted order: entry `h`
/// holds the position at which a run of key `h` starts, `NONE` where none
/// does. Keys outside `0..cells` leave no entry.
pub fn build_cell_table(units: &Vec<Unit>, cells: usize) -> (r: Vec<i32>)
    requires
        units.len() < 0x7fff_ffff,
    ensures
        r@ == cell_table(units@, cells as int),
{
    let ghost s = units@;
    let mut table: Vec<i32> = Vec::new();
    let mut h: usize = 0;
    while h < cells
        invariant
            h <= cells,
            table@.len() == h,
            forall|j: int| 0 <= j < h ==> table@[j] == NONE,
        decreases cells - h,
    {
        table.push(NONE);
        h = h + 1;
    }
    let mut i: usize = 0;
    while i < units.len()
        invariant
            s == units@,
            units.len() < 0x7fff_ffff,
            i <= units.len(),
            table@.len() == cells,
            forall|j: int| 0 <= j < cells ==> #[trigger] table@[j] == run_start(s, i as int, j) as i32,
        decreases units.len() - i,
    {
        let key = units[i].hash_id;
        if 0 <= key && (key as usize) < cells && (i == 0 || units[i - 1].hash_id != key) {
            table.set(key as usize, i as i32);
        }
        proof {
            assert forall|j: int| 0 <= j < cells implies #[trigger] table@[j] == run_start(s, i + 1, j) as i32 by {
                lemma_run_start_range(s, i as int, j);
            }
        }
        i = i + 1;
    }
    assert(table@ =~= cell_table(s, cells as int));
    table
}

proof fn lemma_run_start_sorted(s: Seq<Unit>, n: int, h: int)
    requires
        sorted_by_hash(s),
        0 <= n <= s.len(),
    ensures
        run_start(s, n, h) == NONE <==> (forall|i: int| 0 <= i < n ==> s[i].hash_id != h),
        run_start(s, n, h) != NONE ==> {
            let t = run_start(s, n, h);
            0 <= t < n && s[t].hash_id == h && forall|j: int| 0 <= j < t ==> s[j].hash_id != h
        },
    decreases n,
{
    if n > 0 {
        lemma_run_start_sorted(s, n - 1, h);
        lemma_run_start_range(s, n - 1, h);
        if starts_run(s, n - 1, h) && n - 1 > 0 {
            assert forall|j: int| 0 <= j < n - 1 implies s[j].hash_id != h by {
                assert(s[j].hash_id <= s[n - 2].hash_id);
            }
        }
        if !starts_run(s, n - 1, h) && s[n - 1].hash_id == h {
            assert(s[n - 2].hash_id == h);
        }
    }
}

/// In units sorted by key, those of one key stand together, and the cell
/// index table gives for each key the first position that holds it, or
/// `NONE` where no unit does.
pub proof fn lemma_cell_index(s: Seq<Unit>, cells: int)
    requires
        sorted_by_hash(s),
        s.len() < 0x7fff_ffff,
        0 <= cells,
    ensures
        forall|i: int, j: int, k: int|
            0 <= i <= j <= k < s.len() && s[i].hash_id == s[k].hash_id ==> s[j].hash_id
                == s[i].hash_id,
        forall|h: int|
            0 <= h < cells ==> {
                let t = #[trigger] cell_table(s, cells)[h];
                &&& t == NONE <==> (forall|i: int| 0 <= i < s.len() ==> s[i].hash_id != h)
                &&& t != NONE ==> 0 <= t < s.len() && s[t as int].hash_id == h && forall|j: int|
                    0 <= j < t ==> s[j].hash_id != h
            },
{
    assert forall|h: int| 0 <= h < cells implies {
        let t = #[trigger] cell_table(s, cells)[h];
        &&& t == NONE <==> (forall|i: int| 0 <= i < s.len() ==> s[i].hash_id != h)
        &&& t != NONE ==> 0 <= t < s.len() && s[t as int].hash_id == h && forall|j: int|
            0 <= j < t ==> s[j].hash_id != h
    } by {
        lemma_run_start_sorted(s, s.len() as int, h);
        lemma_run_start_range(s, s.len() as int, h);
        assert(cell_table(s, cells)[h] == run_start(s, s.len() as int, h) as i32);
    }
}

} // verus!
