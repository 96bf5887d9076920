use vstd::prelude::*;
use crate::padding::{pow2, lemma_pow2_pos, lemma_pow2_monotone, lemma_pow2_strict, lemma_pow2_30};
use crate::order::lemma_mod_parts;
use crate::pipeline::PipelineStatus;
use crate::unit::Unit;

verus! {

/// One compare-exchange stage of the network. Within a stage the units at
/// `i` and `i + step / 2` are compared for each `i` with
/// `i % step < step / 2`; the pair is put in ascending order of `hash_id`
/// when `i / level` is even, in descending order when it is odd.
#[derive(Clone, Copy, PartialEq, Eq, Structural, Debug)]
pub struct SortStage {
    pub level: i32,
    pub step: i32,
}

/// The pair whose lower index is `i` is swapped by the stage: it is out of the
/// order that the stage puts it in.
pub open spec fn out_of_order(s: Seq<Unit>, i: int, level: int, half: int) -> bool {
    if (i / level) % 2 == 0 {
        s[i].hash_id > s[i + half].hash_id
    } else {
        s[i].hash_id < s[i + half].hash_id
    }
}

/// `s` after the stage with block size `level` and step `2 * half`.
pub open spec fn stage(s: Seq<Unit>, level: int, half: int) -> Seq<Unit> {
    Seq::new(
        s.len(),
        |k: int|
            if k % (2 * half) < half {
                if out_of_order(s, k, level, half) {
                    s[k + half]
                } else {
                    s[k]
                }
            } else {
                if out_of_order(s, k - half, level, half) {
                    s[k - half]
                } else {
                    s[k]
                }
            },
    )
}

/// The stages for the inner passes `q = hi, hi - 1, ..., 1` of outer pass `p`.
pub open spec fn inner_stages(p: nat, hi: nat) -> Seq<(int, int)>
    decreases hi,
{
    if hi == 0 {
        seq![]
    } else {
        seq![(pow2(p) as int, pow2(hi) as int)] + inner_stages(p, (hi - 1) as nat)
    }
}

/// All stages for `2^k` units, in the order in which they run: outer passes
/// `p = 1, ..., k`, each with its inner passes.
pub open spec fn stages(k: nat) -> Seq<(int, int)>
    decreases k,
{
    if k == 0 {
        seq![]
    } else {
        stages((k - 1) as nat) + inner_stages(k, k)
    }
}

/// `s` after the stages `st`, the first one first.
pub open spec fn apply_stages(s: Seq<Unit>, st: Seq<(int, int)>) -> Seq<Unit>
    decreases st.len(),
{
    if st.len() == 0 {
        s
    } else {
        let l = st.last();
        stage(apply_stages(s, st.drop_last()), l.0 as int, l.1 as int / 2)
    }
}

/// `s` after the whole network for `2^k` units.
pub open spec fn network(s: Seq<Unit>, k: nat) -> Seq<Unit> {
    apply_stages(s, stages(k))
}

/// `s` is in ascending order of `hash_id`.
pub open spec fn sorted_by_hash(s: Seq<Unit>) -> bool {
    forall|i: int, j: int| 0 <= i <= j < s.len() ==> s[i].hash_id <= s[j].hash_id
}

pub(crate) proof fn lemma_pair_in_bounds(k: int, half: int, n: int)
    requires
        0 <= k < n,
        0 < half,
        n % (2 * half) == 0,
        k % (2 * half) < half,
    ensures
        k + half < n,
{
    let st = 2 * half;
    assert(k == st * (k / st) + k % st) by (nonlinear_arith)
        requires st > 0;
    assert(n == st * (n / st)) by (nonlinear_arith)
        requires st > 0, n % st == 0;
    assert(k / st < n / st) by (nonlinear_arith)
        requires st > 0, k == st * (k / st) + k % st, n == st * (n / st), k < n, 0 <= k % st;
    assert(st * (k / st) + st <= n) by (nonlinear_arith)
        requires st > 0, k / st < n / st, n == st * (n / st);
}

/// Position `k` has been visited once the pair holding it has been, that is
/// once its lower index is below `i`.
pub open spec fn settled(k: int, i: int, half: int) -> bool {
    if k % (2 * half) < half {
        k < i
    } else {
        k - half < i
    }
}

/// Runs one stage in place.
pub fn compare_exchange_stage(units: &mut Vec<Unit>, level: usize, half: usize)
    requires
        0 < level,
        0 < half,
        half <= 0x4000_0000,
        old(units).len() as int % (2 * half as int) == 0,
    ensures
        final(units)@ == stage(old(units)@, level as int, half as int),
        final(units)@.to_multiset() == old(units)@.to_multiset(),
{
    let ghost start = units@;
    let ghost target = stage(start, level as int, half as int);
    let n = units.len();
    let step = 2 * half;
    let mut i: usize = 0;
    proof {
        assert forall|k: int| 0 <= k < n implies #[trigger] units@[k] == if settled(k, 0, half as int) {
            target[k]
        } else {
            start[k]
        } by {
            if k % (2 * half as int) >= half {
                lemma_mod_parts(k, half as int);
            }
        }
    }
    while i < n
        invariant
            0 < level,
            0 < half <= 0x4000_0000,
            step == 2 * half,
            n == units.len() == start.len(),
            n as int % (2 * half as int) == 0,
            i <= n,
            target == stage(start, level as int, half as int),
            units@.to_multiset() == start.to_multiset(),
            forall|k: int|
                0 <= k < n ==> #[trigger] units@[k] == if settled(k, i as int, half as int) {
                    target[k]
                } else {
                    start[k]
                },
        decreases n - i,
    {
        if i % step < half {
            proof {
                lemma_pair_in_bounds(i as int, half as int, n as int);
            }
            let j = i + half;
            let a = units[i];
            let b = units[j];
            let ascending = (i / level) % 2 == 0;
            let swap = if ascending {
                a.hash_id > b.hash_id
            } else {
                a.hash_id < b.hash_id
            };
            proof {
                lemma_mod_parts(i as int, half as int);
                lemma_mod_parts(j as int, half as int);
            }
            if swap {
                let ghost before = units@;
                units.set(i, b);
                proof {
                    vstd::seq_lib::to_multiset_update(before, i as int, b);
                }
                let ghost mid = units@;
                units.set(j, a);
                proof {
                    vstd::seq_lib::to_multiset_update(mid, j as int, a);
                    broadcast use vstd::multiset::group_multiset_axioms, vstd::seq_lib::to_multiset_contains;
                    assert(mid == before.update(i as int, b));
                    assert(units@ == mid.update(j as int, a));
                    assert(mid[j as int] == b);
                    assert(before[i as int] == a);
                    assert(before.contains(a));
                    assert(mid.contains(b));
                    assert(units@.to_multiset() =~= before.to_multiset());
                }
            }
            proof {
                assert forall|k: int|
                    0 <= k < n implies #[trigger] units@[k] == if settled(k, i + 1, half as int) {
                        target[k]
                    } else {
                        start[k]
                    } by {
                    if k % (2 * half as int) >= half {
                        lemma_mod_parts(k, half as int);
                    }
                }
            }
        } else {
            proof {
                assert forall|k: int|
                    0 <= k < n implies #[trigger] units@[k] == if settled(k, i + 1, half as int) {
                        target[k]
                    } else {
                        start[k]
                    } by {
                    if k % (2 * half as int) >= half {
                        lemma_mod_parts(k, half as int);
                    }
                }
            }
        }
        i = i + 1;
    }
    proof {
        assert forall|k: int| 0 <= k < n implies #[trigger] units@[k] == target[k] by {
            if k % (2 * half as int) >= half {
                lemma_mod_parts(k, half as int);
            }
        }
    }
    assert(units@ =~= target);
}

/// The stages of a list as `(level, step)` pairs.
pub open spec fn stages_view(s: Seq<SortStage>) -> Seq<(int, int)> {
    s.map_values(|x: SortStage| (x.level as int, x.step as int))
}

proof fn lemma_inner_stages(p: nat, hi: nat)
    requires
        hi <= p,
    ensures
        inner_stages(p, hi).len() == hi,
        forall|i: int|
            0 <= i < hi ==> #[trigger] inner_stages(p, hi)[i] == (pow2(p) as int, pow2((hi - i) as nat) as int),
    decreases hi,
{
    if hi > 0 {
        lemma_inner_stages(p, (hi - 1) as nat);
        let t = inner_stages(p, (hi - 1) as nat);
        assert forall|i: int| 0 <= i < hi implies #[trigger] inner_stages(p, hi)[i] == (
            pow2(p) as int,
            pow2((hi - i) as nat) as int,
        ) by {
            if i > 0 {
                assert(inner_stages(p, hi)[i] == t[i - 1]);
            }
        }
    }
}

/// The network for `2^k` units has `k * (k + 1) / 2` stages; in each, `level`
/// and `step` are powers of two with `2 <= step <= level <= 2^k`.
pub proof fn lemma_stage_count(k: nat)
    ensures
        stages(k).len() == k * (k + 1) / 2,
        forall|i: int|
            0 <= i < stages(k).len() ==> {
                let st = #[trigger] stages(k)[i];
                exists|p: nat, q: nat|
                    1 <= q <= p <= k && st.0 == pow2(p) && st.1 == pow2(q)
            },
    decreases k,
{
    if k > 0 {
        let k1 = (k - 1) as nat;
        lemma_stage_count(k1);
        lemma_inner_stages(k, k);
        let a = stages(k1);
        let b = inner_stages(k, k);
        assert(stages(k) == a + b);
        assert(stages(k).len() == a.len() + b.len());
        assert(k * (k + 1) / 2 == k1 * (k1 + 1) / 2 + k) by (nonlinear_arith)
            requires k1 + 1 == k;
        assert forall|i: int| 0 <= i < stages(k).len() implies {
            let st = #[trigger] stages(k)[i];
            exists|p: nat, q: nat| 1 <= q <= p <= k && st.0 == pow2(p) && st.1 == pow2(q)
        } by {
            if i < a.len() {
                assert(stages(k)[i] == a[i]);
                let st = a[i];
                let (p, q) = choose|p: nat, q: nat|
                    1 <= q <= p <= k1 && st.0 == pow2(p) && st.1 == pow2(q);
                assert(1 <= q <= p <= k && st.0 == pow2(p) && st.1 == pow2(q));
            } else {
                let j = i - a.len();
                assert(stages(k)[i] == b[j]);
                assert(b[j] == (pow2(k) as int, pow2((k - j) as nat) as int));
                assert(1 <= (k - j) as nat <= k);
            }
        }
    } else {
        assert(k * (k + 1) / 2 == 0) by (nonlinear_arith)
            requires k == 0;
    }
}

pub proof fn lemma_pow2_divides(a: nat, b: nat)
    requires
        a <= b,
    ensures
        pow2(b) as int % pow2(a) as int == 0,
    decreases b,
{
    lemma_pow2_pos(a);
    if a == b {
        vstd::arithmetic::div_mod::lemma_mod_self_0(pow2(a) as int);
    } else {
        lemma_pow2_divides(a, (b - 1) as nat);
        let x = pow2((b - 1) as nat) as int;
        let d = pow2(a) as int;
        assert(x == (x / d) * d) by (nonlinear_arith)
            requires d > 0, x % d == 0;
        assert(2 * x == (2 * (x / d)) * d) by (nonlinear_arith)
            requires x == (x / d) * d;
        vstd::arithmetic::div_mod::lemma_fundamental_div_mod_converse(2 * x, d, 2 * (x / d), 0);
    }
}

/// The stage list for `count` units, `count` a power of two.
pub fn sort_stages(count: usize) -> (r: Vec<SortStage>)
    requires
        exists|k: nat| k <= 30 && pow2(k) == count,
    ensures
        forall|k: nat| pow2(k) == count ==> stages_view(r@) == stages(k),
{
    let ghost kk = choose|k: nat| k <= 30 && pow2(k) == count;
    let mut n: usize = 1;
    let mut k: usize = 0;
    while n < count
        invariant
            kk <= 30,
            pow2(kk) == count,
            k <= kk,
            n == pow2(k as nat),
        decreases kk - k,
    {
        proof {
            if k >= kk {
                lemma_pow2_monotone(kk, k as nat);
            }
            lemma_pow2_monotone((k + 1) as nat, 30);
            lemma_pow2_30();
        }
        n = n * 2;
        k = k + 1;
    }
    proof {
        if k < kk {
            lemma_pow2_strict(k as nat, kk);
        }
    }
    let mut out: Vec<SortStage> = Vec::new();
    let mut p: usize = 1;
    let mut level: i32 = 2;
    proof {
        reveal_with_fuel(pow2, 2);
    }
    while p <= k
        invariant
            k == kk <= 30,
            1 <= p <= k + 1,
            p <= k ==> level as int == pow2(p as nat),
            stages_view(out@) == stages((p - 1) as nat),
        decreases k + 1 - p,
    {
        let ghost before = stages_view(out@);
        let mut q: usize = p;
        let mut step: i32 = level;
        while q >= 1
            invariant
                k == kk <= 30,
                1 <= p <= k,
                q <= p,
                level as int == pow2(p as nat),
                step as int == pow2(q as nat),
                stages_view(out@) + inner_stages(p as nat, q as nat) == stages(p as nat),
            decreases q,
        {
            let ghost old_out = stages_view(out@);
            out.push(SortStage { level, step });
            proof {
                assert(stages_view(out@) =~= old_out.push((pow2(p as nat) as int, pow2(q as nat) as int)));
                assert(inner_stages(p as nat, q as nat) =~= seq![(pow2(p as nat) as int, pow2(q as nat) as int)]
                    + inner_stages(p as nat, (q - 1) as nat));
                assert(stages_view(out@) + inner_stages(p as nat, (q - 1) as nat) =~= old_out
                    + inner_stages(p as nat, q as nat));
            }
            q = q - 1;
            assert(pow2((q + 1) as nat) == 2 * pow2(q as nat));
            step = step / 2;
        }
        proof {
            assert(stages_view(out@) + inner_stages(p as nat, 0) =~= stages_view(out@));
        }
        proof {
            if p < k {
                lemma_pow2_monotone((p + 1) as nat, 30);
                lemma_pow2_30();
            }
            assert(pow2((p + 1) as nat) == 2 * pow2(p as nat));
        }
        if p < k {
            level = level * 2;
        }
        p = p + 1;
    }
    proof {
        assert forall|k2: nat| pow2(k2) == count implies stages_view(out@) == stages(k2) by {
            if k2 < kk {
                lemma_pow2_strict(k2, kk);
            } else if k2 > kk {
                lemma_pow2_strict(kk, k2);
            }
        }
    }
    out
}

proof fn lemma_apply_stages_len(s: Seq<Unit>, st: Seq<(int, int)>)
    ensures
        apply_stages(s, st).len() == s.len(),
    decreases st.len(),
{
    if st.len() > 0 {
        lemma_apply_stages_len(s, st.drop_last());
    }
}

/// The network keeps the number of units.
pub proof fn lemma_network_len(s: Seq<Unit>, k: nat)
    ensures
        network(s, k).len() == s.len(),
{
    lemma_apply_stages_len(s, stages(k));
}

/// Runs the stages `st` in order on `units`, each on the result of the one
/// before.
pub fn run_stages(units: &mut Vec<Unit>, st: &Vec<SortStage>)
    requires
        exists|k: nat| k <= 30 && pow2(k) == old(units).len() && stages_view(st@) == stages(k),
    ensures
        final(units)@ == apply_stages(old(units)@, stages_view(st@)),
        final(units)@.len() == old(units)@.len(),
        final(units)@.to_multiset() == old(units)@.to_multiset(),
{
    let ghost start = units@;
    let ghost k = choose|k: nat| k <= 30 && pow2(k) == units.len() && stages_view(st@) == stages(k);
    let ghost sv = stages_view(st@);
    proof {
        lemma_stage_count(k);
    }
    let mut i: usize = 0;
    while i < st.len()
        invariant
            k <= 30,
            pow2(k) == units.len(),
            sv == stages_view(st@),
            sv == stages(k),
            i <= st.len(),
            forall|j: int|
                0 <= j < sv.len() ==> {
                    let e = #[trigger] sv[j];
                    exists|p: nat, q: nat| 1 <= q <= p <= k && e.0 == pow2(p) && e.1 == pow2(q)
                },
            units@ == apply_stages(start, sv.take(i as int)),
            units@.to_multiset() == start.to_multiset(),
        decreases st.len() - i,
    {
        let stg = st[i];
        let ghost e = sv[i as int];
        proof {
            let (p, q) = choose|p: nat, q: nat| 1 <= q <= p <= k && e.0 == pow2(p) && e.1 == pow2(q);
            lemma_pow2_monotone(p, 30);
            lemma_pow2_pos(p);
            lemma_pow2_30();
            lemma_pow2_divides(q, k);
            assert(pow2(q) == 2 * pow2((q - 1) as nat));
            lemma_pow2_pos((q - 1) as nat);
            assert(stg.level as int == e.0 && stg.step as int == e.1);
        }
        compare_exchange_stage(units, stg.level as usize, (stg.step / 2) as usize);
        proof {
            let t = sv.take(i + 1);
            assert(t.drop_last() =~= sv.take(i as int));
            assert(t.last() == e);
        }
        i = i + 1;
    }
    assert(sv.take(i as int) =~= sv);
    proof {
        lemma_apply_stages_len(start, sv);
    }
}

/// Sorts `units` by `hash_id` with the whole network.
pub fn bitonic_sort(units: &mut Vec<Unit>)
    requires
        exists|k: nat| k <= 30 && pow2(k) == old(units).len(),
    ensures
        forall|k: nat| pow2(k) == old(units).len() ==> final(units)@ == network(old(units)@, k),
        final(units)@.len() == old(units)@.len(),
        final(units)@.to_multiset() == old(units)@.to_multiset(),
        sorted_by_hash(final(units)@),
{
    let st = sort_stages(units.len());
    let ghost k = choose|k: nat| k <= 30 && pow2(k) == units.len();
    run_stages(units, &st);
    proof {
        crate::order::lemma_network_sorts(old(units)@, k);
        assert(stages_view(st@) == stages(k));
        assert forall|k2: nat| pow2(k2) == old(units).len() implies final(units)@ == network(old(units)@, k2) by {
            assert(stages_view(st@) == stages(k2));
        }
    }
}

/// Readiness of a sort stage node.
#[derive(Clone, Copy, PartialEq, Eq, Structural, Debug)]
pub enum SortState {
    Loading,
    Update,
}

/// One stage of the network as a node of its own, for a chain of nodes wired
/// head to tail.
pub struct SortNode {
    pub state: SortState,
    pub level: i32,
    pub step: i32,
}

impl SortNode {
    pub fn new(level: i32, step: i32) -> (r: SortNode)
        ensures
            r.state == SortState::Loading,
            r.level == level,
            r.step == step,
    {
        SortNode { state: SortState::Loading, level, step }
    }

    /// Polls the sort program while loading: ready once it is, `Err` if it
    /// failed to compile.
    pub fn update(&mut self, status: PipelineStatus) -> (r: Result<(), ()>)
        ensures
            r is Err <==> (old(self).state == SortState::Loading && status == PipelineStatus::Failed),
            final(self).state == if old(self).state == SortState::Loading && status
                == PipelineStatus::Ready {
                SortState::Update
            } else {
                old(self).state
            },
            final(self).level == old(self).level,
            final(self).step == old(self).step,
    {
        match self.state {
            SortState::Loading => match status {
                PipelineStatus::Ready => {
                    self.state = SortState::Update;
                    Ok(())
                },
                PipelineStatus::Failed => Err(()),
                PipelineStatus::Pending => Ok(()),
            },
            SortState::Update => Ok(()),
        }
    }

    /// Runs this node's stage on `units` once the program is ready; while
    /// loading it does nothing.
    pub fn run(&self, units: &mut Vec<Unit>)
        requires
            0 < self.level,
            2 <= self.step,
            self.step % 2 == 0,
            old(units).len() as int % self.step as int == 0,
        ensures
            self.state == SortState::Update ==> final(units)@ == stage(
                old(units)@,
                self.level as int,
                self.step / 2,
            ),
            self.state == SortState::Loading ==> final(units)@ == old(units)@,
    {
        match self.state {
            SortState::Loading => {},
            SortState::Update => {
                let half = (self.step / 2) as usize;
                compare_exchange_stage(units, self.level as usize, half);
            },
        }
    }
}

/// The stages of a chain of nodes as `(level, step)` pairs.
pub open spec fn nodes_view(s: Seq<SortNode>) -> Seq<(int, int)> {
    s.map_values(|x: SortNode| (x.level as int, x.step as int))
}

/// The chain of stage nodes for `count` units, one per stage, in order.
pub fn sort_nodes(count: usize) -> (r: Vec<SortNode>)
    requires
        exists|k: nat| k <= 30 && pow2(k) == count,
    ensures
        forall|i: int| 0 <= i < r@.len() ==> (#[trigger] r@[i]).state == SortState::Loading,
        forall|k: nat| pow2(k) == count ==> nodes_view(r@) == stages(k),
{
    let st = sort_stages(count);
    let mut out: Vec<SortNode> = Vec::new();
    let mut i: usize = 0;
    while i < st.len()
        invariant
            i <= st.len(),
            out@.len() == i,
            forall|j: int|
                0 <= j < i ==> (#[trigger] out@[j]).state == SortState::Loading && out@[j].level
                    == st@[j].level && out@[j].step == st@[j].step,
        decreases st.len() - i,
    {
        out.push(SortNode::new(st[i].level, st[i].step));
        i = i + 1;
    }
    assert(nodes_view(out@) =~= stages_view(st@));
    out
}

} // verus!
