use unit_sim::encode::{encode_cell_table, encode_units};
use unit_sim::hash::{cell_hash, hash_units, unit_hash};
use unit_sim::index::build_cell_table;
use unit_sim::padding::{nearest_base, padded_count};
use unit_sim::pipeline::PipelineStatus::{Failed, Pending, Ready};
use unit_sim::pipeline::{get_pipeline_states, LogicNode, LogicState, PipelineStatus, RenderNode, RenderState};
use unit_sim::simulation::{Simulation, SimulationUniforms};
use unit_sim::sort::{bitonic_sort, compare_exchange_stage, sort_nodes, sort_stages, SortNode, SortStage, SortState};
use unit_sim::timestep::FixedTimestep;
use unit_sim::uniforms::UniformData;
use unit_sim::unit::{spawn_units, Point, Unit, NO_CELL, NONE, START_HEALTH};
use unit_sim::update::{find_target, update_units};

fn keyed(hashes: &[i32]) -> Vec<Unit> {
    hashes
        .iter()
        .enumerate()
        .map(|(i, h)| {
            let mut u = Unit::spawn(i as i32, Point::new(0, 0));
            u.hash_id = *h;
            u
        })
        .collect()
}

fn keys(units: &[Unit]) -> Vec<i32> {
    units.iter().map(|u| u.hash_id).collect()
}

/// A world 8 wide and 2 high cut into cells of side 2: four cells in a row.
fn strip(unit_count: i32, logical_count: i32) -> UniformData {
    UniformData::new(Point::new(8, 2), Point::new(8, 2), 2, unit_count, logical_count)
}

struct Lcg(u64);

impl Lcg {
    fn next(&mut self) -> u64 {
        self.0 = self.0.wrapping_mul(6364136223846793005).wrapping_add(1442695040888963407);
        self.0 >> 33
    }
}

#[test]
fn nearest_base_examples() {
    assert_eq!(nearest_base(1_000_000, 2), 1_048_576);
    assert_eq!(nearest_base(3, 2), 4);
    assert_eq!(nearest_base(5, 2), 8);
    assert_eq!(nearest_base(8, 2), 8);
    assert_eq!(nearest_base(1, 0), 1);
}

#[test]
fn padding_to_power_of_two() {
    assert_eq!(padded_count(1_000_000, 1), 1_048_576);
    assert_eq!(padded_count(1, 1), 1);
    assert_eq!(padded_count(3, 3), 16);
    assert_eq!(padded_count(64, 16), 1024);
    assert_eq!(padded_count(0, 5), 1);
}

#[test]
fn four_units_sort_and_index() {
    let data = strip(4, 4);
    // cells 3, 1, 0, 2
    let positions = vec![Point::new(3, 0), Point::new(-2, -1), Point::new(-4, 0), Point::new(1, 0)];
    let mut units = spawn_units(&positions);
    hash_units(&mut units, &data);
    assert_eq!(keys(&units), vec![3, 1, 0, 2]);
    bitonic_sort(&mut units);
    assert_eq!(keys(&units), vec![0, 1, 2, 3]);
    let table = build_cell_table(&units, data.cells());
    assert_eq!(table, vec![0, 1, 2, 3]);
}

#[test]
fn sort_random_keys_all_sizes() {
    let mut rng = Lcg(7);
    let mut n = 2usize;
    while n <= 1024 {
        for _ in 0..4 {
            let hashes: Vec<i32> = (0..n).map(|_| (rng.next() % 50) as i32).collect();
            let mut units = keyed(&hashes);
            bitonic_sort(&mut units);
            let got = keys(&units);
            let mut want = hashes.clone();
            want.sort();
            assert_eq!(got, want, "size {}", n);
            let mut ids: Vec<i32> = units.iter().map(|u| u.id).collect();
            ids.sort();
            assert_eq!(ids, (0..n as i32).collect::<Vec<i32>>());
        }
        n *= 2;
    }
}

#[test]
fn sort_puts_no_cell_last() {
    let mut units = keyed(&[NO_CELL, 5, NO_CELL, 0]);
    bitonic_sort(&mut units);
    assert_eq!(keys(&units), vec![0, 5, NO_CELL, NO_CELL]);
}

#[test]
fn stage_schedule_for_eight() {
    let st = sort_stages(8);
    let pairs: Vec<(i32, i32)> = st.iter().map(|s| (s.level, s.step)).collect();
    assert_eq!(pairs, vec![(2, 2), (4, 4), (4, 2), (8, 8), (8, 4), (8, 2)]);
}

#[test]
fn stage_count_is_triangular() {
    for k in 0..=12u32 {
        let n = 1usize << k;
        let st = sort_stages(n);
        assert_eq!(st.len() as u32, k * (k + 1) / 2);
        for s in st.iter() {
            assert!(s.step <= s.level);
            assert!(s.step >= 2);
            assert_eq!(s.step & (s.step - 1), 0);
            assert_eq!(s.level & (s.level - 1), 0);
        }
    }
    assert_eq!(sort_stages(1_048_576).len(), 210);
}

#[test]
fn single_stage_directions() {
    // level 2, step 2: pairs (0,1) ascending, (2,3) descending
    let mut units = keyed(&[5, 1, 1, 5]);
    compare_exchange_stage(&mut units, 2, 1);
    assert_eq!(keys(&units), vec![1, 5, 5, 1]);
    // level 4, step 4: pairs (0,2) and (1,3), ascending
    let mut units = keyed(&[4, 3, 2, 1]);
    compare_exchange_stage(&mut units, 4, 2);
    assert_eq!(keys(&units), vec![2, 1, 4, 3]);
}

#[test]
fn sort_node_chain() {
    let mut nodes = sort_nodes(4);
    let pairs: Vec<(i32, i32)> = nodes.iter().map(|s| (s.level, s.step)).collect();
    assert_eq!(pairs, vec![(2, 2), (4, 4), (4, 2)]);
    let mut units = keyed(&[3, 1, 0, 2]);
    for node in nodes.iter() {
        node.run(&mut units);
    }
    assert_eq!(keys(&units), vec![3, 1, 0, 2]);
    for node in nodes.iter_mut() {
        assert_eq!(node.update(PipelineStatus::Ready), Ok(()));
        assert_eq!(node.state, SortState::Update);
    }
    for node in nodes.iter() {
        node.run(&mut units);
    }
    assert_eq!(keys(&units), vec![0, 1, 2, 3]);
}

#[test]
fn sort_node_failure() {
    let mut node = SortNode::new(2, 2);
    assert_eq!(node.update(PipelineStatus::Pending), Ok(()));
    assert_eq!(node.state, SortState::Loading);
    assert_eq!(node.update(PipelineStatus::Failed), Err(()));
    assert_eq!(node.state, SortState::Loading);
    let stage = SortStage { level: 2, step: 2 };
    assert_eq!((stage.level, stage.step), (node.level, node.step));
}

#[test]
fn cell_table_marks_first_of_each_run() {
    let units = keyed(&[0, 0, 2, 2, 2, NO_CELL]);
    assert_eq!(build_cell_table(&units, 4), vec![0, NONE, 2, NONE]);
    let empty: Vec<Unit> = Vec::new();
    assert_eq!(build_cell_table(&empty, 3), vec![NONE, NONE, NONE]);
}

#[test]
fn timestep_three_tenths_frame() {
    let mut fixed = FixedTimestep::default();
    assert_eq!(fixed.timestep, 125_000);
    let ticks = fixed.schedule(300_000);
    assert_eq!(ticks, 2);
    assert_eq!(fixed.accumulator, 50_000);
    assert_eq!(fixed.alpha, 400_000);
    assert_eq!(fixed.time, 250_000);
}

#[test]
fn timestep_fast_frame_and_carry() {
    let mut fixed = FixedTimestep::new(125_000);
    assert_eq!(fixed.schedule(100_000), 0);
    assert_eq!(fixed.alpha, 800_000);
    assert_eq!(fixed.schedule(100_000), 1);
    assert_eq!(fixed.accumulator, 75_000);
    assert_eq!(fixed.alpha, 600_000);
    assert_eq!(fixed.schedule(0), 0);
    assert_eq!(fixed.accumulator, 75_000);
}

#[test]
fn advance_caps_stalls() {
    let mut fixed = FixedTimestep::new(50_000);
    // a one-second stall counts as three tenths of a second
    assert_eq!(fixed.advance(1_000_000), 6);
    assert_eq!(fixed.current_time, 1_000_000);
    assert_eq!(fixed.accumulator, 0);
    assert_eq!(fixed.time, 300_000);
    assert_eq!(fixed.advance(1_030_000), 0);
    assert_eq!(fixed.accumulator, 30_000);
    // the clock going back counts as no time
    assert_eq!(fixed.advance(500_000), 0);
    assert_eq!(fixed.accumulator, 30_000);
    assert_eq!(fixed.current_time, 500_000);
}

#[test]
fn hash_of_positions() {
    let data = UniformData::new(Point::new(1920, 1088), Point::new(5760, 3240), 5, 4, 4);
    assert_eq!(data.grid_width, 1152);
    assert_eq!(data.grid_height, 648);
    assert_eq!(data.cells(), 1152 * 648);
    assert_eq!(cell_hash(Point::new(-2880, -1620), &data), 0);
    assert_eq!(cell_hash(Point::new(0, 0), &data), 324 * 1152 + 576);
    assert_eq!(cell_hash(Point::new(-2881, 0), &data), NO_CELL);
    assert_eq!(cell_hash(Point::new(2880, 0), &data), NO_CELL);
    assert_eq!(cell_hash(Point::new(2879, 1619), &data), 647 * 1152 + 1151);
}

#[test]
fn padding_slots_have_no_cell() {
    let data = strip(4, 2);
    let a = Unit::spawn(1, Point::new(0, 0));
    let b = Unit::spawn(2, Point::new(0, 0));
    assert_eq!(unit_hash(&a, &data), 2);
    assert_eq!(unit_hash(&b, &data), NO_CELL);
}

#[test]
fn readiness_poll() {
    assert_eq!(get_pipeline_states(&vec![Ready, Ready]), Ok(true));
    assert_eq!(get_pipeline_states(&vec![]), Ok(true));
    assert_eq!(get_pipeline_states(&vec![Ready, Pending, Failed]), Ok(false));
    assert_eq!(get_pipeline_states(&vec![Ready, Failed, Pending]), Err(1));
}

#[test]
fn logic_node_transitions() {
    let mut node = LogicNode::default();
    assert_eq!(node.state, LogicState::Loading);
    assert_eq!(node.update(&vec![Ready, Pending]), Ok(()));
    assert_eq!(node.state, LogicState::Loading);
    assert_eq!(node.update(&vec![Failed, Ready]), Err(0));
    assert_eq!(node.state, LogicState::Loading);
    assert_eq!(node.update(&vec![Ready, Ready]), Ok(()));
    assert_eq!(node.state, LogicState::Update);
    assert!(node.is_ready());
    assert_eq!(node.update(&vec![Failed]), Ok(()));
    assert_eq!(node.state, LogicState::Update);
}

#[test]
fn render_node_transitions() {
    let mut node = RenderNode::default();
    assert!(!node.is_ready());
    assert_eq!(node.update(&vec![Ready, Failed]), Err(1));
    assert_eq!(node.state, RenderState::Loading);
    assert_eq!(node.update(&vec![Ready, Ready]), Ok(()));
    assert_eq!(node.state, RenderState::Update);
}

#[test]
fn opposing_units_engage() {
    // four real units; only id 3 is in the right-hand army
    let data = strip(4, 4);
    let positions = vec![Point::new(0, 0), Point::new(-4, 0), Point::new(3, 0), Point::new(1, -1)];
    let mut units = spawn_units(&positions);
    hash_units(&mut units, &data);
    assert_eq!(keys(&units), vec![2, 0, 3, 2]);
    bitonic_sort(&mut units);
    let table = build_cell_table(&units, data.cells());
    assert_eq!(table, vec![0, NONE, 1, 3]);
    let at = |id: i32| units.iter().position(|u| u.id == id).unwrap();
    assert_eq!(find_target(&units, &table, &data, at(0)), Some(at(3)));
    assert_eq!(find_target(&units, &table, &data, at(1)), None);
    let next = update_units(&units, &table, &data);
    let me = next[at(0)];
    let foe = next[at(3)];
    assert_eq!(me.attack_id, 3);
    assert_eq!(foe.attack_id, 0);
    assert_eq!(me.health, START_HEALTH - 1);
    assert_eq!(foe.health, START_HEALTH - 1);
    assert_eq!(me.velocity, Point::new(1, -1));
    assert_eq!(foe.velocity, Point::new(-1, 1));
    assert_eq!(me.previous_state, Point::new(0, 0));
    assert_eq!(me.current_state, Point::new(1, -1));
    assert_eq!(foe.current_state, Point::new(0, 0));
    assert_eq!(next[at(1)].attack_id, NONE);
    assert_eq!(next[at(1)].health, START_HEALTH);
}

#[test]
fn same_army_and_dead_units_are_ignored() {
    let data = strip(4, 4);
    let mut units = spawn_units(&vec![Point::new(0, 0), Point::new(1, 0), Point::new(-4, 0), Point::new(1, 0)]);
    units[2] = units[2].with_velocity(Point::new(-1, 0));
    units[3].health = 0;
    units[3] = units[3].with_velocity(Point::new(1, 0));
    hash_units(&mut units, &data);
    bitonic_sort(&mut units);
    let table = build_cell_table(&units, data.cells());
    let next = update_units(&units, &table, &data);
    for u in next.iter() {
        assert_eq!(u.attack_id, NONE);
        match u.id {
            // ids 0 and 1 share a cell with id 3, which is dead
            0 | 1 => assert_eq!(u.health, START_HEALTH),
            // a moving unit at the world's edge moves out of it
            2 => {
                assert_eq!(u.previous_state, Point::new(-4, 0));
                assert_eq!(u.current_state, Point::new(-5, 0));
                assert_eq!(u.velocity, Point::new(-1, 0));
            }
            // a dead unit stops
            _ => {
                assert_eq!(u.velocity, Point::new(0, 0));
                assert_eq!(u.current_state, Point::new(1, 0));
            }
        }
    }
}

#[test]
fn nearest_enemy_is_chosen() {
    let data = UniformData::new(Point::new(40, 40), Point::new(40, 40), 40, 4, 4);
    // ids 0, 1 and 2 are one army, 3 the other
    let units = spawn_units(&vec![Point::new(0, 0), Point::new(5, 5), Point::new(9, 0), Point::new(2, 2)]);
    let mut units = units;
    hash_units(&mut units, &data);
    bitonic_sort(&mut units);
    let table = build_cell_table(&units, data.cells());
    let next = update_units(&units, &table, &data);
    let by_id = |id: i32| next.iter().find(|u| u.id == id).unwrap().attack_id;
    assert_eq!(by_id(0), 3);
    assert_eq!(by_id(1), 3);
    assert_eq!(by_id(2), 3);
    assert_eq!(by_id(3), 0);
}

#[test]
fn zoom_is_clamped() {
    let mut data = strip(4, 4);
    assert_eq!(data.camera_zoom, 250);
    data.zoom_by(100);
    assert_eq!(data.camera_zoom, 150);
    data.zoom_by(500);
    assert_eq!(data.camera_zoom, 100);
    data.zoom_by(-900);
    assert_eq!(data.camera_zoom, 1000);
}

#[test]
fn encode_table_bytes() {
    assert_eq!(encode_cell_table(&vec![-1, 2]), Ok(vec![255, 255, 255, 255, 2, 0, 0, 0]));
    assert_eq!(encode_cell_table(&vec![0x0102_0304]), Ok(vec![4, 3, 2, 1]));
    assert_eq!(encode_cell_table(&vec![]), Ok(vec![0, 0, 0, 0]));
}

#[test]
fn encode_unit_bytes() {
    let units = vec![Unit::spawn(7, Point::new(-2, 3))];
    let bytes = encode_units(&units).unwrap();
    assert_eq!(bytes.len(), 40);
    assert_eq!(&bytes[0..8], &[254, 255, 255, 255, 3, 0, 0, 0]);
    assert_eq!(&bytes[24..40], &[255, 255, 255, 255, 255, 255, 255, 255, 7, 0, 0, 0, 4, 0, 0, 0]);
}

#[test]
fn frames_tick_only_when_ready() {
    let data = strip(4, 3);
    let units = spawn_units(&vec![Point::new(-4, 0), Point::new(0, 0), Point::new(3, 0), Point::new(0, 0)]);
    let units: Vec<Unit> = units.into_iter().map(|u| u.with_velocity(Point::new(1, 0))).collect();
    let mut sim = Simulation::new(data, units, FixedTimestep::new(50_000));
    assert_eq!(sim.frame(100_000), 2);
    assert_eq!(sim.uniforms.units[0].current_state, Point::new(-4, 0));
    sim.logic.update(&vec![PipelineStatus::Ready]).unwrap();
    assert_eq!(sim.frame(175_000), 1);
    assert_eq!(sim.uniforms.data.alpha, 500_000);
    let mut xs: Vec<(i32, i32)> = sim.uniforms.units.iter().map(|u| (u.id, u.current_state.x)).collect();
    xs.sort();
    // the padding slot (id 3) is out of the fight and stops; the unit at the
    // right edge moves off the world
    assert_eq!(xs, vec![(0, -3), (1, 1), (2, 4), (3, 0)]);
    let table = &sim.uniforms.indices;
    assert_eq!(table.len(), 4);
}

#[test]
fn fresh_state_has_empty_table() {
    let data = strip(4, 4);
    let sim = SimulationUniforms::new(data, spawn_units(&vec![Point::new(0, 0); 4]));
    assert_eq!(sim.indices, vec![NONE; 4]);
}

#[test]
fn units_leave_the_world_and_lose_their_cell() {
    let data = strip(4, 4);
    let units = spawn_units(&vec![Point::new(3, 0), Point::new(-4, 0), Point::new(0, 0), Point::new(0, -1)]);
    let units: Vec<Unit> = units
        .into_iter()
        .map(|u| if u.id == 0 { u.with_velocity(Point::new(1, 0)) } else { u })
        .collect();
    let mut sim = SimulationUniforms::new(data, units);
    sim.tick();
    let moved = *sim.units.iter().find(|u| u.id == 0).unwrap();
    assert_eq!(moved.previous_state, Point::new(3, 0));
    assert_eq!(moved.current_state, Point::new(4, 0));
    sim.tick();
    let moved = *sim.units.iter().find(|u| u.id == 0).unwrap();
    assert_eq!(moved.hash_id, NO_CELL);
    assert_eq!(moved.current_state, Point::new(5, 0));
}

#[test]
fn movement_saturates_at_the_integer_range() {
    let data = strip(4, 4);
    let mut far = Unit::spawn(0, Point::new(i32::MAX - 1, 0)).with_velocity(Point::new(1, 0));
    far.hash_id = NO_CELL;
    let mut back = Unit::spawn(1, Point::new(i32::MIN, 0)).with_velocity(Point::new(-1, 0));
    back.hash_id = NO_CELL;
    let units = vec![far, back];
    let next = update_units(&units, &vec![NONE; 4], &data);
    assert_eq!(next[0].current_state, Point::new(i32::MAX, 0));
    assert_eq!(next[1].current_state, Point::new(i32::MIN, 0));
    let again = update_units(&next, &vec![NONE; 4], &data);
    assert_eq!(again[0].current_state, Point::new(i32::MAX, 0));
}

#[test]
fn advance_three_tenths_frame() {
    let mut fixed = FixedTimestep::default();
    assert_eq!(fixed.advance(300_000), 2);
    assert_eq!(fixed.accumulator, 50_000);
    assert_eq!(fixed.alpha, 400_000);
    assert_eq!(fixed.time, 250_000);
    assert_eq!(fixed.current_time, 300_000);
}

#[test]
fn frame_of_three_tenths_runs_two_ticks() {
    let data = strip(4, 4);
    let units = spawn_units(&vec![Point::new(-4, 0), Point::new(-2, 0), Point::new(2, 0), Point::new(3, 0)]);
    let units: Vec<Unit> = units.into_iter().map(|u| u.with_velocity(Point::new(1, 0))).collect();
    let mut sim = Simulation::new(data, units, FixedTimestep::default());
    sim.logic.update(&vec![Ready]).unwrap();
    assert_eq!(sim.frame(300_000), 2);
    assert_eq!(sim.fixed.accumulator, 50_000);
    assert_eq!(sim.uniforms.data.alpha, 400_000);
    let x0 = sim.uniforms.units.iter().find(|u| u.id == 0).unwrap().current_state.x;
    assert_eq!(x0, -2);
    // a fast frame runs no tick and leaves units and table alone
    let before_units = sim.uniforms.units.clone();
    let before_table = sim.uniforms.indices.clone();
    assert_eq!(sim.frame(310_000), 0);
    assert_eq!(sim.uniforms.units, before_units);
    assert_eq!(sim.uniforms.indices, before_table);
    assert_eq!(sim.uniforms.data.alpha, 480_000);
}
