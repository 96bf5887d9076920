use vstd::prelude::*;
use crate::order::{fits, lemma_mod_parts};
use crate::padding::is_pow2;
use crate::simulation::{MAX_UNITS, log2, tick_units, sorted_units, lemma_small_pow2};
use crate::sort::{apply_stages, lemma_pair_in_bounds, lemma_stage_count, settled, stage, stages, network};
use crate::hash::hashed;
use crate::uniforms::UniformData;
use crate::unit::Unit;
use crate::update::updated_all;

verus! {

/// The identities of `s`, in order.
pub open spec fn ids(s: Seq<Unit>) -> Seq<i32> {
    s.map_values(|u: Unit| u.id)
}

/// A stage carried out on the pairs whose lower index is below `m` only.
spec fn stage_upto(s: Seq<Unit>, level: int, half: int, m: int) -> Seq<Unit> {
    Seq::new(s.len(), |k: int| if settled(k, m, half) { stage(s, level, half)[k] } else { s[k] })
}

proof fn lemma_swap_ids(t: Seq<Unit>, i: int, j: int)
    requires
        0 <= i < j < t.len(),
    ensures
        ids(t.update(i, t[j]).update(j, t[i])).to_multiset() == ids(t).to_multiset(),
{
    let a = ids(t);
    let mid = a.update(i, t[j].id);
    let fin = mid.update(j, t[i].id);
    assert(ids(t.update(i, t[j]).update(j, t[i])) =~= fin);
    vstd::seq_lib::to_multiset_update(a, i, t[j].id);
    vstd::seq_lib::to_multiset_update(mid, j, t[i].id);
    broadcast use vstd::multiset::group_multiset_axioms, vstd::seq_lib::to_multiset_contains;
    assert(a[i] == t[i].id);
    assert(mid[j] == t[j].id);
    assert(a.contains(t[i].id));
    assert(mid.contains(t[j].id));
    assert(fin.to_multiset() =~= a.to_multiset());
}

proof fn lemma_stage_upto_ids(s: Seq<Unit>, level: int, half: int, m: int)
    requires
        0 < half,
        0 < level,
        s.len() as int % (2 * half) == 0,
        0 <= m <= s.len(),
    ensures
        ids(stage_upto(s, level, half, m)).to_multiset() == ids(s).to_multiset(),
    decreases m,
{
    let n = s.len() as int;
    if m == 0 {
        assert forall|k: int| 0 <= k < n implies !settled(k, 0, half) by {
            lemma_mod_parts(k, half);
        }
        assert(stage_upto(s, level, half, 0) =~= s);
    } else {
        let i = m - 1;
        lemma_stage_upto_ids(s, level, half, i);
        let t = stage_upto(s, level, half, i);
        let u = stage_upto(s, level, half, m);
        let full = stage(s, level, half);
        lemma_mod_parts(i, half);
        if i % (2 * half) < half {
            lemma_pair_in_bounds(i, half, n);
            let j = i + half;
            lemma_mod_parts(j, half);
            assert forall|k: int| 0 <= k < n && k != i && k != j implies (settled(k, m, half) == settled(
                k,
                i,
                half,
            )) by {
                lemma_mod_parts(k, half);
            }
            assert(t[i] == s[i] && t[j] == s[j]);
            if full[i] == s[i] {
                assert(full[j] == s[j]);
                assert(u =~= t);
            } else {
                assert(full[i] == s[j] && full[j] == s[i]);
                assert(u =~= t.update(i, t[j]).update(j, t[i]));
                lemma_swap_ids(t, i, j);
            }
        } else {
            assert forall|k: int| 0 <= k < n implies (settled(k, m, half) == settled(k, i, half)) by {
                lemma_mod_parts(k, half);
            }
            assert(u =~= t);
        }
    }
}

/// A stage only moves units: it keeps the identities they hold.
proof fn lemma_stage_ids(s: Seq<Unit>, level: int, half: int)
    requires
        0 < half,
        0 < level,
        s.len() as int % (2 * half) == 0,
    ensures
        ids(stage(s, level, half)).to_multiset() == ids(s).to_multiset(),
        stage(s, level, half).len() == s.len(),
{
    let n = s.len() as int;
    lemma_stage_upto_ids(s, level, half, n);
    assert forall|k: int| 0 <= k < n implies settled(k, n, half) by {
        lemma_mod_parts(k, half);
    }
    assert(stage_upto(s, level, half, n) =~= stage(s, level, half));
}

proof fn lemma_apply_ids(s: Seq<Unit>, st: Seq<(int, int)>)
    requires
        forall|i: int| 0 <= i < st.len() ==> fits(#[trigger] st[i], s.len() as int),
    ensures
        ids(apply_stages(s, st)).to_multiset() == ids(s).to_multiset(),
        apply_stages(s, st).len() == s.len(),
    decreases st.len(),
{
    if st.len() > 0 {
        let init = st.drop_last();
        assert forall|i: int| 0 <= i < init.len() implies fits(#[trigger] init[i], s.len() as int) by {
            assert(init[i] == st[i]);
        }
        lemma_apply_ids(s, init);
        let l = st.last();
        assert(fits(st[st.len() - 1], s.len() as int));
        assert(2 * (l.1 / 2) == l.1);
        lemma_stage_ids(apply_stages(s, init), l.0, l.1 / 2);
    }
}

/// A tick never gives a unit another identity nor loses or copies one: the
/// identities after it are those before it, in some order.
pub proof fn lemma_tick_keeps_ids(units: Seq<Unit>, data: UniformData)
    requires
        is_pow2(units.len() as int),
        units.len() <= MAX_UNITS,
    ensures
        ids(tick_units(units, data)).to_multiset() == ids(units).to_multiset(),
{
    lemma_small_pow2(units.len() as int);
    let k = log2(units.len() as int);
    let hs = hashed(units, data);
    assert(ids(hs) =~= ids(units));
    let n = units.len() as int;
    lemma_stage_count(k);
    let st = stages(k);
    assert forall|i: int| 0 <= i < st.len() implies fits(#[trigger] st[i], n) by {
        let e = st[i];
        let (p, q) = choose|p: nat, q: nat| 1 <= q <= p <= k && e.0 == crate::padding::pow2(p) && e.1
            == crate::padding::pow2(q);
        crate::padding::lemma_pow2_pos(p);
        crate::sort::lemma_pow2_divides(q, k);
        assert(crate::padding::pow2(q) == 2 * crate::padding::pow2((q - 1) as nat));
        crate::padding::lemma_pow2_pos((q - 1) as nat);
    }
    lemma_apply_ids(hs, st);
    let s = sorted_units(units, data);
    assert(s == network(hs, k));
    let t = tick_units(units, data);
    assert(ids(t) =~= ids(s));
}

} // verus!
