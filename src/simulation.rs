use vstd::prelude::*;
use crate::hash::{hash_units, hashed};
use crate::index::{build_cell_table, cell_table};
use crate::padding::{is_pow2, pow2, lemma_pow2_30, lemma_pow2_strict};
use crate::pipeline::{LogicNode, LogicState};
use crate::sort::{bitonic_sort, network};
use crate::timestep::{alpha_of, FixedTimestep};
use crate::uniforms::UniformData;
use crate::unit::{Unit, NONE};
use crate::update::{update_units, updated_all};

verus! {

/// Largest number of unit slots.
pub const MAX_UNITS: i32 = 0x4000_0000;

/// The exponent of a power of two.
pub open spec fn log2(n: int) -> nat {
    choose|k: nat| pow2(k) == n
}

/// The units in network order at the point where the cell table is built.
pub open spec fn sorted_units(units: Seq<Unit>, data: UniformData) -> Seq<Unit> {
    network(hashed(units, data), log2(units.len() as int))
}

/// The cell index table built during a tick.
pub open spec fn tick_table(units: Seq<Unit>, data: UniformData) -> Seq<i32> {
    cell_table(sorted_units(units, data), data.cell_count())
}

/// The units after one tick: hashed, put in network order, then updated.
pub open spec fn tick_units(units: Seq<Unit>, data: UniformData) -> Seq<Unit> {
    let s = sorted_units(units, data);
    updated_all(s, cell_table(s, data.cell_count()), data)
}

/// The units after `n` ticks.
pub open spec fn ticked(units: Seq<Unit>, data: UniformData, n: nat) -> Seq<Unit>
    decreases n,
{
    if n == 0 {
        units
    } else {
        tick_units(ticked(units, data, (n - 1) as nat), data)
    }
}

/// The state that the stages work on: the configuration, the unit store and
/// the cell index table.
pub struct SimulationUniforms {
    pub data: UniformData,
    pub units: Vec<Unit>,
    pub indices: Vec<i32>,
}

pub(crate) proof fn lemma_small_pow2(n: int)
    requires
        is_pow2(n),
        n <= MAX_UNITS,
    ensures
        exists|k: nat| k <= 30 && pow2(k) == n,
        pow2(log2(n)) == n,
        log2(n) <= 30,
{
    let k = choose|k: nat| pow2(k) == n;
    lemma_pow2_30();
    if k > 30 {
        lemma_pow2_strict(30, k);
    }
    assert(pow2(log2(n)) == n);
    if log2(n) > 30 {
        lemma_pow2_strict(30, log2(n));
    }
}

impl SimulationUniforms {
    pub open spec fn wf(&self) -> bool {
        &&& self.data.wf()
        &&& self.data.unit_count <= MAX_UNITS
        &&& self.units.len() == self.data.unit_count
        &&& self.indices.len() == self.data.cell_count()
    }

    /// The state before the first tick: `units` as given and an empty table.
    pub fn new(data: UniformData, units: Vec<Unit>) -> (r: SimulationUniforms)
        requires
            data.wf(),
            data.unit_count <= MAX_UNITS,
            units.len() == data.unit_count,
        ensures
            r.wf(),
            r.data == data,
            r.units@ == units@,
            forall|h: int| 0 <= h < r.indices.len() ==> r.indices@[h] == NONE,
    {
        let cells = data.cells();
        let mut indices: Vec<i32> = Vec::new();
        let mut h: usize = 0;
        while h < cells
            invariant
                h <= cells,
                indices.len() == h,
                forall|j: int| 0 <= j < h ==> indices@[j] == NONE,
            decreases cells - h,
        {
            indices.push(NONE);
            h = h + 1;
        }
        SimulationUniforms { data, units, indices }
    }

    /// One tick: hash every unit, run the sort network, rebuild the cell
    /// index table, update every unit.
    pub fn tick(&mut self)
        requires
            old(self).wf(),
        ensures
            final(self).wf(),
            final(self).data == old(self).data,
            final(self).units@ == tick_units(old(self).units@, old(self).data),
            final(self).indices@ == tick_table(old(self).units@, old(self).data),
    {
        let ghost start = self.units@;
        proof {
            lemma_small_pow2(self.data.unit_count as int);
        }
        hash_units(&mut self.units, &self.data);
        bitonic_sort(&mut self.units);
        let cells = self.data.cells();
        self.indices = build_cell_table(&self.units, cells);
        let next = update_units(&self.units, &self.indices, &self.data);
        self.units = next;
        proof {
            assert(self.units@.len() == start.len());
        }
    }
}

impl LogicNode {
    /// Runs one tick if the stage programs are ready; otherwise does nothing.
    pub fn logic_update(&self, sim: &mut SimulationUniforms)
        requires
            old(sim).wf(),
        ensures
            final(sim).wf(),
            final(sim).data == old(sim).data,
            self.state == LogicState::Update ==> final(sim).units@ == tick_units(
                old(sim).units@,
                old(sim).data,
            ) && final(sim).indices@ == tick_table(old(sim).units@, old(sim).data),
            self.state != LogicState::Update ==> *final(sim) == *old(sim),
    {
        match self.state {
            LogicState::Loading => {},
            LogicState::Update => sim.tick(),
        }
    }

    /// Runs `ticks` ticks once the stage programs are ready; while loading it
    /// does nothing.
    pub fn run(&self, sim: &mut SimulationUniforms, ticks: u64)
        requires
            old(sim).wf(),
        ensures
            final(sim).wf(),
            final(sim).data == old(sim).data,
            self.state == LogicState::Update ==> final(sim).units@ == ticked(
                old(sim).units@,
                old(sim).data,
                ticks as nat,
            ),
            self.state == LogicState::Update && ticks > 0 ==> final(sim).indices@ == tick_table(
                ticked(old(sim).units@, old(sim).data, (ticks - 1) as nat),
                old(sim).data,
            ),
            self.state != LogicState::Update || ticks == 0 ==> *final(sim) == *old(sim),
    {
        if self.state != LogicState::Update || ticks == 0 {
            return;
        }
        let ghost start = sim.units@;
        let mut n: u64 = 0;
        while n < ticks
            invariant
                sim.wf(),
                sim.data == old(sim).data,
                start == old(sim).units@,
                n <= ticks,
                self.state == LogicState::Update,
                sim.units@ == ticked(start, sim.data, n as nat),
                n > 0 ==> sim.indices@ == tick_table(ticked(start, sim.data, (n - 1) as nat), sim.data),
            decreases ticks - n,
        {
            self.logic_update(sim);
            n = n + 1;
        }
    }
}

/// The whole simulation as the host drives it, frame by frame.
pub struct Simulation {
    pub uniforms: SimulationUniforms,
    pub fixed: FixedTimestep,
    pub logic: LogicNode,
}

impl Simulation {
    pub open spec fn wf(&self) -> bool {
        &&& self.uniforms.wf()
        &&& self.fixed.wf()
    }

    /// A simulation of `units` under `data`, ticking every `timestep`
    /// microseconds, with its stages still loading.
    pub fn new(data: UniformData, units: Vec<Unit>, fixed: FixedTimestep) -> (r: Simulation)
        requires
            data.wf(),
            data.unit_count <= MAX_UNITS,
            units.len() == data.unit_count,
            fixed.wf(),
        ensures
            r.wf(),
            r.uniforms.data == data,
            r.uniforms.units@ == units@,
            r.fixed == fixed,
            r.logic.state == LogicState::Loading,
    {
        Simulation {
            uniforms: SimulationUniforms::new(data, units),
            fixed,
            logic: LogicNode::new(),
        }
    }

    /// One frame at wall-clock time `now`: schedules the ticks that are due,
    /// hands the interpolation factor to the uniform block and runs the ticks
    /// if the stages are ready. Returns the number of ticks scheduled.
    pub fn frame(&mut self, now: u64) -> (ticks: u64)
        requires
            old(self).wf(),
        ensures
            final(self).wf(),
            ticks == (old(self).fixed.accumulator + old(self).fixed.frame_time(now))
                / old(self).fixed.timestep as int,
            final(self).fixed.current_time == now,
            final(self).fixed.timestep == old(self).fixed.timestep,
            final(self).fixed.accumulator == (old(self).fixed.accumulator + old(self).fixed.frame_time(
                now,
            )) % old(self).fixed.timestep as int,
            final(self).fixed.time == if old(self).fixed.time + ticks * old(self).fixed.timestep
                > u64::MAX {
                u64::MAX as int
            } else {
                old(self).fixed.time + ticks * old(self).fixed.timestep
            },
            final(self).fixed.alpha == alpha_of(
                final(self).fixed.accumulator as int,
                old(self).fixed.timestep as int,
            ),
            final(self).uniforms.data == (UniformData {
                alpha: final(self).fixed.alpha as i32,
                ..old(self).uniforms.data
            }),
            final(self).logic.state == old(self).logic.state,
            old(self).logic.state == LogicState::Update ==> final(self).uniforms.units@ == ticked(
                old(self).uniforms.units@,
                final(self).uniforms.data,
                ticks as nat,
            ),
            old(self).logic.state == LogicState::Update && ticks > 0 ==> final(self).uniforms.indices@
                == tick_table(
                ticked(old(self).uniforms.units@, final(self).uniforms.data, (ticks - 1) as nat),
                final(self).uniforms.data,
            ),
            old(self).logic.state != LogicState::Update || ticks == 0 ==> final(self).uniforms.units@
                == old(self).uniforms.units@ && final(self).uniforms.indices@ == old(
                self,
            ).uniforms.indices@,
    {
        let ticks = self.fixed.advance(now);
        self.uniforms.data.alpha = self.fixed.alpha as i32;
        self.logic.run(&mut self.uniforms, ticks);
        ticks
    }
}

/// In the tick's network order the units of one cell stand together, and
/// the table built during the tick gives for each cell the first position of
/// its units, or `NONE` where it has none.
pub proof fn lemma_tick_index(units: Seq<Unit>, data: UniformData)
    requires
        is_pow2(units.len() as int),
        units.len() <= MAX_UNITS,
    ensures
        crate::sort::sorted_by_hash(sorted_units(units, data)),
        forall|i: int, j: int, k: int|
            0 <= i <= j <= k < units.len() && sorted_units(units, data)[i].hash_id == sorted_units(
                units,
                data,
            )[k].hash_id ==> sorted_units(units, data)[j].hash_id == sorted_units(units, data)[i].hash_id,
        forall|h: int|
            0 <= h < data.cell_count() ==> {
                let s = sorted_units(units, data);
                let t = #[trigger] tick_table(units, data)[h];
                &&& t == NONE <==> (forall|i: int| 0 <= i < s.len() ==> s[i].hash_id != h)
                &&& t != NONE ==> 0 <= t < s.len() && s[t as int].hash_id == h && forall|j: int|
                    0 <= j < t ==> s[j].hash_id != h
            },
{
    lemma_small_pow2(units.len() as int);
    let k = log2(units.len() as int);
    let hs = hashed(units, data);
    assert(hs.len() == units.len());
    crate::order::lemma_network_sorts(hs, k);
    crate::sort::lemma_network_len(hs, k);
    let s = sorted_units(units, data);
    if data.cell_count() >= 0 {
        crate::index::lemma_cell_index(s, data.cell_count());
    }
}

} // verus!
