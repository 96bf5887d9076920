use unit_sim::encode::encode_uniforms;
use unit_sim::spawn::{random_positions, start_position, START_GAP};
use unit_sim::timestep::FixedTimestep;
use unit_sim::dispatch::{interpolate, render_plan, tick_plan, workgroups, Dispatch, Kernel};
use unit_sim::hash::hash_units;
use unit_sim::index::build_cell_table;
use unit_sim::pipeline::{LogicNode, LogicState, PipelineStatus};
use unit_sim::simulation::SimulationUniforms;
use unit_sim::sort::bitonic_sort;
use unit_sim::uniforms::UniformData;
use unit_sim::unit::{spawn_units, Point, Unit, NONE};
use unit_sim::update::update_units;

fn sort_dispatch(level: i32, step: i32, groups: u32) -> Dispatch {
    Dispatch { kernel: Kernel::Sort, level, step, groups_x: groups, groups_y: 1 }
}

fn plain(kernel: Kernel, groups: u32) -> Dispatch {
    Dispatch { kernel, level: 1, step: 1, groups_x: groups, groups_y: 1 }
}

#[test]
fn workgroup_counts_round_up() {
    assert_eq!(workgroups(256, 256), 1);
    assert_eq!(workgroups(257, 256), 2);
    assert_eq!(workgroups(0, 256), 0);
    assert_eq!(workgroups(1_048_576, 512), 2048);
    assert_eq!(workgroups(1088, 32), 34);
}

#[test]
fn tick_plan_for_eight_units() {
    let plan = tick_plan(8);
    assert_eq!(
        plan,
        vec![
            plain(Kernel::Hash, 1),
            sort_dispatch(2, 2, 1),
            sort_dispatch(4, 4, 1),
            sort_dispatch(4, 2, 1),
            sort_dispatch(8, 8, 1),
            sort_dispatch(8, 4, 1),
            sort_dispatch(8, 2, 1),
            plain(Kernel::HashIndices, 1),
            plain(Kernel::Update, 1),
        ]
    );
}

#[test]
fn tick_plan_for_a_million_units() {
    let plan = tick_plan(1_048_576);
    assert_eq!(plan.len(), 213);
    assert_eq!(plan[0], plain(Kernel::Hash, 4096));
    assert_eq!(plan[1], sort_dispatch(2, 2, 2048));
    assert_eq!(plan[210], sort_dispatch(1_048_576, 2, 2048));
    assert_eq!(plan[212], plain(Kernel::Update, 4096));
}

#[test]
fn render_plan_tiles() {
    let plan = render_plan(1920, 1088, 1000);
    assert_eq!(
        plan,
        vec![
            Dispatch { kernel: Kernel::Clear, level: 1, step: 1, groups_x: 60, groups_y: 34 },
            plain(Kernel::Render, 4),
        ]
    );
}

#[test]
fn interpolation_between_ticks() {
    let mut unit = Unit::spawn(0, Point::new(0, 10));
    unit.current_state = Point::new(10, 0);
    assert_eq!(interpolate(&unit, 400_000), Point::new(4, 6));
    assert_eq!(interpolate(&unit, 250_000), Point::new(2, 7));
    assert_eq!(interpolate(&unit, 0), Point::new(0, 10));
    assert_eq!(interpolate(&unit, 999_999), Point::new(9, 0));
}

#[test]
fn logic_update_waits_for_programs() {
    let data = UniformData::new(Point::new(8, 2), Point::new(8, 2), 2, 4, 4);
    let positions = vec![Point::new(0, 0), Point::new(-4, 0), Point::new(3, 0), Point::new(1, -1)];
    let mut sim = SimulationUniforms::new(data, spawn_units(&positions));
    let mut node = LogicNode::new();
    node.logic_update(&mut sim);
    assert_eq!(sim.indices, vec![NONE; 4]);
    assert_eq!(sim.units, spawn_units(&positions));
    node.update(&vec![PipelineStatus::Ready; 4]).unwrap();
    assert_eq!(node.state, LogicState::Update);
    node.logic_update(&mut sim);
    assert_eq!(sim.indices, vec![0, NONE, 1, 3]);

    // the same tick, stage by stage
    let mut units = spawn_units(&positions);
    hash_units(&mut units, &data);
    bitonic_sort(&mut units);
    let table = build_cell_table(&units, data.cells());
    assert_eq!(table, sim.indices);
    assert_eq!(update_units(&units, &table, &data), sim.units);
}

#[test]
fn several_ticks_run_in_sequence() {
    let data = UniformData::new(Point::new(8, 2), Point::new(8, 2), 2, 4, 4);
    let positions = vec![Point::new(-3, 0), Point::new(-4, 0), Point::new(3, 0), Point::new(2, 0)];
    let mut a = SimulationUniforms::new(data, spawn_units(&positions));
    let mut b = SimulationUniforms::new(data, spawn_units(&positions));
    let mut node = LogicNode::new();
    node.update(&vec![PipelineStatus::Ready]).unwrap();
    node.run(&mut a, 3);
    for _ in 0..3 {
        b.tick();
    }
    assert_eq!(a.units, b.units);
    assert_eq!(a.indices, b.indices);
}

#[test]
fn tick_keeps_identities() {
    let data = UniformData::new(Point::new(16, 16), Point::new(16, 16), 4, 16, 12);
    let positions: Vec<Point> = (0..16).map(|i| Point::new((i * 5) % 16 - 8, (i * 3) % 16 - 8)).collect();
    let mut sim = SimulationUniforms::new(data, spawn_units(&positions));
    for _ in 0..5 {
        sim.tick();
        let mut ids: Vec<i32> = sim.units.iter().map(|u| u.id).collect();
        ids.sort();
        assert_eq!(ids, (0..16).collect::<Vec<i32>>());
    }
}

#[test]
fn uniform_block_bytes() {
    let data = UniformData::new(Point::new(1920, 1088), Point::new(5760, 3240), 5, 4, 3);
    let stage = data.for_stage(4, 2);
    assert_eq!((stage.level, stage.step), (4, 2));
    assert_eq!(stage.grid_width, data.grid_width);
    let bytes = encode_uniforms(&stage).unwrap();
    assert_eq!(bytes.len(), 60);
    assert_eq!(&bytes[0..8], &[128, 7, 0, 0, 64, 4, 0, 0]);
    assert_eq!(&bytes[24..32], &[4, 0, 0, 0, 2, 0, 0, 0]);
    assert_eq!(&bytes[44..48], &[250, 0, 0, 0]);
}

#[test]
fn start_positions_by_army() {
    let data = UniformData::new(Point::new(1920, 1088), Point::new(5760, 3240), 5, 64, 50);
    let mut rng = rand::thread_rng();
    let positions = random_positions(&mut rng, &data);
    assert_eq!(positions.len(), 64);
    let reach_x = 5760 * 47 / 100;
    let reach_y = 3240 * 47 / 100;
    for (i, p) in positions.iter().enumerate() {
        assert!(-reach_y <= p.y && p.y < reach_y);
        if i > 25 {
            assert!(START_GAP <= p.x && p.x < reach_x, "unit {} at {:?}", i, p);
        } else {
            assert!(-reach_x <= p.x && p.x < -START_GAP, "unit {} at {:?}", i, p);
        }
    }
    let p = start_position(&mut rng, 26, &data);
    assert!(p.x >= START_GAP);
}

#[test]
fn huge_frame_does_not_overflow() {
    let mut fixed = FixedTimestep::new(3);
    fixed.schedule(2);
    assert_eq!(fixed.schedule(u64::MAX), u64::MAX / 3);
    assert_eq!(fixed.accumulator, 2);
    assert_eq!(fixed.time, u64::MAX);
    assert_eq!(fixed.alpha, 666_666);
    assert_eq!(fixed.schedule(7), 3);
    assert_eq!(fixed.time, u64::MAX);
    assert_eq!(fixed.accumulator, 0);
}
