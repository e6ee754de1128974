use std::time::Duration;

use pixie_wrangler::sim::{
    begin_frame, emitter_releases, emitter_ticks, take_step, update_sim_state, SimulationSettings, SimulationSpeed, SimulationState,
    SimulationSteps, SIMULATION_TIMESTEP_NANOS,
};

fn drain(steps: &mut SimulationSteps) -> u32 {
    let mut n = 0;
    while steps.expend() {
        n += 1;
    }
    n
}

#[test]
fn timestep_is_a_sixtieth_of_a_second() {
    assert_eq!(
        SIMULATION_TIMESTEP_NANOS,
        Duration::from_secs_f32(0.016_666_668).as_nanos()
    );
}

#[test]
fn new_clock_runs_nothing() {
    let mut steps = SimulationSteps::new();
    assert_eq!(steps.step(), 0);
    assert!(!steps.expend());
    assert_eq!(steps.step(), 0);
    let d = SimulationSteps::default();
    assert_eq!(d.step(), 0);
}

#[test]
fn expend_drains_whole_steps() {
    let mut steps = SimulationSteps::new();
    steps.tick(50_000_000);
    // 50 ms hold two whole steps of 16.666668 ms
    assert_eq!(drain(&mut steps), 2);
    assert_eq!(steps.step(), 2);
    // the remainder, 16_666_664 ns, and 4 ns more make a third step
    steps.tick(3);
    assert!(!steps.expend());
    steps.tick(1);
    assert!(steps.expend());
    assert_eq!(steps.step(), 3);
    assert!(!steps.expend());
}

#[test]
fn exact_multiple_leaves_nothing() {
    let mut steps = SimulationSteps::new();
    steps.tick(SIMULATION_TIMESTEP_NANOS * 5);
    assert_eq!(drain(&mut steps), 5);
    steps.tick(SIMULATION_TIMESTEP_NANOS - 1);
    assert!(!steps.expend());
}

#[test]
fn reset_forgets_steps_and_time() {
    let mut steps = SimulationSteps::new();
    steps.tick(SIMULATION_TIMESTEP_NANOS * 3 + 10);
    assert_eq!(drain(&mut steps), 3);
    steps.reset();
    assert_eq!(steps.step(), 0);
    assert!(!steps.expend());
}

#[test]
fn speed_scale_label_next() {
    assert_eq!(SimulationSpeed::Normal.scale(), 1);
    assert_eq!(SimulationSpeed::Fast.scale(), 4);
    assert_eq!(SimulationSpeed::Normal.label(), "1X");
    assert_eq!(SimulationSpeed::Fast.label(), "4X");
    assert_eq!(SimulationSpeed::Normal.next(), SimulationSpeed::Fast);
    assert_eq!(SimulationSpeed::Fast.next(), SimulationSpeed::Normal);
    assert_eq!(SimulationSpeed::default(), SimulationSpeed::Normal);
    assert_eq!(SimulationSettings::default().speed, SimulationSpeed::Normal);
    assert_eq!(SimulationState::default(), SimulationState::NotStarted);
}

#[test]
fn finishes_when_everything_is_emitted_and_gone() {
    let running = SimulationState::Running;
    assert_eq!(update_sim_state(running, &vec![0, 0], 0), SimulationState::Finished);
    assert_eq!(update_sim_state(running, &vec![0, 1], 0), SimulationState::Running);
    assert_eq!(update_sim_state(running, &vec![0, 0], 3), SimulationState::Running);
    assert_eq!(update_sim_state(running, &vec![], 0), SimulationState::Running);
    assert_eq!(
        update_sim_state(SimulationState::NotStarted, &vec![0], 0),
        SimulationState::NotStarted
    );
    assert_eq!(
        update_sim_state(SimulationState::Finished, &vec![4], 2),
        SimulationState::Finished
    );
}

#[test]
fn begin_frame_scales_and_restarts() {
    let mut steps = SimulationSteps::new();
    // not running: the clock is left alone
    begin_frame(&mut steps, SimulationState::NotStarted, true, 1_000_000_000, SimulationSpeed::Fast);
    assert!(!steps.expend());

    // a fresh run at 4X: one frame of one step's length runs four steps
    begin_frame(&mut steps, SimulationState::Running, true, SIMULATION_TIMESTEP_NANOS, SimulationSpeed::Fast);
    assert_eq!(drain(&mut steps), 4);
    assert_eq!(steps.step(), 4);

    // still running at 1X: the steps go on counting
    begin_frame(&mut steps, SimulationState::Running, false, SIMULATION_TIMESTEP_NANOS * 2, SimulationSpeed::Normal);
    assert_eq!(drain(&mut steps), 2);
    assert_eq!(steps.step(), 6);

    // the run restarts: the count starts over
    begin_frame(&mut steps, SimulationState::Running, true, SIMULATION_TIMESTEP_NANOS, SimulationSpeed::Normal);
    assert_eq!(drain(&mut steps), 1);
    assert_eq!(steps.step(), 1);
}

#[test]
fn finished_simulation_takes_no_more_steps_in_the_frame() {
    let mut steps = SimulationSteps::new();
    steps.tick(SIMULATION_TIMESTEP_NANOS * 3);
    // the first step runs; it finishes the simulation
    assert!(take_step(&mut steps, SimulationState::Running));
    assert_eq!(steps.step(), 1);
    // two steps of time are left, but no step runs after the finish
    assert!(!take_step(&mut steps, SimulationState::Finished));
    assert_eq!(steps.step(), 1);
    assert_eq!(steps.accumulated(), SIMULATION_TIMESTEP_NANOS * 2);
    assert!(!take_step(&mut steps, SimulationState::NotStarted));
    assert_eq!(steps.step(), 1);
}

#[test]
fn running_simulation_takes_every_whole_step() {
    let mut steps = SimulationSteps::new();
    steps.tick(SIMULATION_TIMESTEP_NANOS * 2 + 5);
    let mut n = 0;
    while take_step(&mut steps, SimulationState::Running) {
        n += 1;
    }
    assert_eq!(n, 2);
    assert_eq!(steps.step(), 2);
    assert_eq!(steps.accumulated(), 5);
}

#[test]
fn emitters_release_while_running_and_stocked() {
    assert!(emitter_ticks(SimulationState::Running, 3));
    assert!(!emitter_ticks(SimulationState::Running, 0));
    assert!(!emitter_ticks(SimulationState::NotStarted, 3));
    assert!(!emitter_ticks(SimulationState::Finished, 3));
    let mut remaining = 2;
    assert!(!emitter_releases(&mut remaining, false));
    assert_eq!(remaining, 2);
    assert!(emitter_releases(&mut remaining, true));
    assert_eq!(remaining, 1);
    assert!(emitter_releases(&mut remaining, true));
    assert_eq!(remaining, 0);
    assert!(!emitter_ticks(SimulationState::Running, remaining));
}
