//! The fixed-step simulation clock and the simulation's run state.
//!
//! Frame times are held as nanoseconds, the unit of `std::time::Duration`.

use vstd::prelude::*;

verus! {

/// The length of one simulation step, in nanoseconds
/// (`Duration::from_secs_f32(0.016_666_668)`).
pub const SIMULATION_TIMESTEP_NANOS: u128 = 16_666_668;

/// The longest `Duration`, in nanoseconds.
pub const MAX_DURATION_NANOS: u128 = 18_446_744_073_709_551_615_999_999_999;

/// Whether the pixies have been released, and whether they are done.
#[derive(Clone, Copy, Debug, PartialEq, Eq, Structural)]
pub enum SimulationState {
    NotStarted,
    Running,
    Finished,
}

impl Default for SimulationState {
    fn default() -> (s: Self)
        ensures
            s == SimulationState::NotStarted,
    {
        SimulationState::NotStarted
    }
}

/// Frame time collected so far and the number of steps run from it.
pub struct SimulationSteps {
    timestep: u128,
    accumulator: u128,
    step: u32,
}

/// What a [`SimulationSteps`] holds, as numbers.
pub struct StepsView {
    pub timestep: nat,
    pub accumulator: nat,
    pub step: nat,
}

impl View for SimulationSteps {
    type V = StepsView;

    closed spec fn view(&self) -> StepsView {
        StepsView {
            timestep: self.timestep as nat,
            accumulator: self.accumulator as nat,
            step: self.step as nat,
        }
    }
}

/// The outcome of spending one step's worth of collected time: whether there
/// was enough, and what is left.
pub open spec fn expend_spec(v: StepsView) -> (bool, StepsView) {
    if v.accumulator >= v.timestep {
        (
            true,
            StepsView {
                timestep: v.timestep,
                accumulator: (v.accumulator - v.timestep) as nat,
                step: v.step + 1,
            },
        )
    } else {
        (false, v)
    }
}

/// The clock after `n` successive calls of `expend`.
pub open spec fn expend_times(v: StepsView, n: nat) -> StepsView
    decreases n,
{
    if n == 0 {
        v
    } else {
        expend_spec(expend_times(v, (n - 1) as nat)).1
    }
}

impl SimulationSteps {
    /// The clock's own invariant: a step has a length, and the collected time
    /// fits in a `Duration`.
    pub open spec fn wf(&self) -> bool {
        &&& self@.timestep > 0
        &&& self@.accumulator <= MAX_DURATION_NANOS
        &&& self@.step <= u32::MAX
    }

    /// A clock with no collected time and no steps run.
    pub fn new() -> (s: Self)
        ensures
            s.wf(),
            s@.timestep == SIMULATION_TIMESTEP_NANOS,
            s@.accumulator == 0,
            s@.step == 0,
    {
        SimulationSteps { timestep: SIMULATION_TIMESTEP_NANOS, accumulator: 0, step: 0 }
    }

    /// Spend one step's worth of collected time, if there is that much.
    pub fn expend(&mut self) -> (r: bool)
        requires
            old(self).wf(),
            old(self)@.step < u32::MAX,
        ensures
            final(self).wf(),
            (r, final(self)@) == expend_spec(old(self)@),
    {
        if self.accumulator >= self.timestep {
            self.accumulator = self.accumulator - self.timestep;
            self.step = self.step + 1;
            true
        } else {
            false
        }
    }

    /// Collect `delta` nanoseconds of frame time.
    pub fn tick(&mut self, delta: u128)
        requires
            old(self).wf(),
            old(self)@.accumulator + delta <= MAX_DURATION_NANOS,
        ensures
            final(self).wf(),
            final(self)@.timestep == old(self)@.timestep,
            final(self)@.accumulator == old(self)@.accumulator + delta,
            final(self)@.step == old(self)@.step,
    {
        self.accumulator = self.accumulator + delta;
    }

    /// Back to a clock with no collected time and no steps run.
    pub fn reset(&mut self)
        ensures
            final(self).wf(),
            final(self)@.timestep == SIMULATION_TIMESTEP_NANOS,
            final(self)@.accumulator == 0,
            final(self)@.step == 0,
    {
        *self = Self::new();
    }

    /// The frame time collected and not yet spent, in nanoseconds.
    pub fn accumulated(&self) -> (r: u128)
        ensures
            r == self@.accumulator,
    {
        self.accumulator
    }

    /// The number of steps run.
    pub fn step(&self) -> (r: u32)
        ensures
            r == self@.step,
    {
        self.step
    }
}

impl Default for SimulationSteps {
    fn default() -> (s: Self)
        ensures
            s.wf(),
            s@.timestep == SIMULATION_TIMESTEP_NANOS,
            s@.accumulator == 0,
            s@.step == 0,
    {
        Self::new()
    }
}

/// Spending collected time step by step runs exactly
/// `accumulator / timestep` steps and leaves `accumulator % timestep`; the
/// step after that finds too little time.
pub proof fn lemma_expend_drains(v: StepsView)
    requires
        v.timestep > 0,
    ensures
        ({
            let n = v.accumulator / v.timestep;
            let after = expend_times(v, n);
            &&& after.accumulator == v.accumulator % v.timestep
            &&& after.step == v.step + n
            &&& after.timestep == v.timestep
            &&& !expend_spec(after).0
            &&& forall|k: nat| k < n ==> (#[trigger] expend_spec(expend_times(v, k))).0
        }),
{
    let n = v.accumulator / v.timestep;
    assert(n * v.timestep <= v.accumulator) by (nonlinear_arith)
        requires
            n == v.accumulator / v.timestep,
            v.timestep > 0,
    ;
    assert forall|k: nat| k <= n implies #[trigger] (k * v.timestep) <= v.accumulator by {
        assert(k * v.timestep <= n * v.timestep) by (nonlinear_arith)
            requires
                k <= n,
                v.timestep > 0,
        ;
    }
    assert forall|k: nat| k <= n implies ({
        let w = #[trigger] expend_times(v, k);
        &&& w.accumulator == v.accumulator - k * v.timestep
        &&& w.step == v.step + k
        &&& w.timestep == v.timestep
    }) by {
        lemma_expend_times_linear(v, k);
    }
    assert forall|k: nat| k < n implies (#[trigger] expend_spec(expend_times(v, k))).0 by {
        lemma_expend_times_linear(v, k);
        assert(k * v.timestep + v.timestep <= n * v.timestep) by (nonlinear_arith)
            requires
                k < n,
                v.timestep > 0,
        ;
        assert(n * v.timestep <= v.accumulator) by (nonlinear_arith)
            requires
                n == v.accumulator / v.timestep,
                v.timestep > 0,
        ;
    }
    lemma_expend_times_linear(v, n);
    assert(v.accumulator - n * v.timestep == v.accumulator % v.timestep) by (nonlinear_arith)
        requires
            n == v.accumulator / v.timestep,
            v.timestep > 0,
    ;
    assert(v.accumulator % v.timestep < v.timestep) by (nonlinear_arith)
        requires
            v.timestep > 0,
    ;
}

/// While enough time is collected, `k` steps subtract `k` timesteps.
proof fn lemma_expend_times_linear(v: StepsView, k: nat)
    requires
        v.timestep > 0,
        k * v.timestep <= v.accumulator,
    ensures
        expend_times(v, k).accumulator == v.accumulator - k * v.timestep,
        expend_times(v, k).step == v.step + k,
        expend_times(v, k).timestep == v.timestep,
    decreases k,
{
    if k > 0 {
        let k1 = (k - 1) as nat;
        assert(k1 * v.timestep + v.timestep == k * v.timestep) by (nonlinear_arith)
            requires
                k1 + 1 == k,
        ;
        lemma_expend_times_linear(v, k1);
        let w = expend_times(v, k1);
        assert(w.accumulator >= w.timestep);
        assert(expend_times(v, k) == expend_spec(w).1);
        assert(expend_spec(w).1.accumulator == w.accumulator - w.timestep);
    } else {
        assert(k * v.timestep == 0) by (nonlinear_arith)
            requires
                k == 0,
        ;
    }
}

/// Whether the frame runs another simulation step, given the run state that
/// the steps so far left: only a running simulation steps, and only while a
/// whole step of collected time is left, which the step takes. Once a step
/// leaves the simulation finished, no further step runs in that frame, even
/// with time left over.
pub fn take_step(steps: &mut SimulationSteps, state: SimulationState) -> (r: bool)
    requires
        old(steps).wf(),
        state == SimulationState::Running ==> old(steps)@.step < u32::MAX,
    ensures
        final(steps).wf(),
        state != SimulationState::Running ==> !r && final(steps)@ == old(steps)@,
        state == SimulationState::Running ==> (r, final(steps)@) == expend_spec(old(steps)@),
{
    if state != SimulationState::Running {
        return false;
    }
    steps.expend()
}

/// A frame's run of steps from the clock `v` in the run state `state`, where
/// `after[i]` is the state that the `i`-th step of the frame leaves: the clock
/// once [`take_step`] refuses a step.
pub open spec fn run_frame(v: StepsView, state: SimulationState, after: Seq<SimulationState>) -> StepsView
    decreases after.len(),
{
    if state == SimulationState::Running && expend_spec(v).0 && after.len() > 0 {
        run_frame(expend_spec(v).1, after[0], after.drop_first())
    } else {
        v
    }
}

/// A running frame runs one step for each whole timestep of collected time,
/// `n` of them, unless one of those steps leaves the simulation other than
/// running: then that step is the frame's last, and the time it did not use
/// stays collected. `after[i]` is the state that the `i`-th step leaves.
pub proof fn lemma_frame_steps(v: StepsView, after: Seq<SimulationState>)
    requires
        v.timestep > 0,
        after.len() >= v.accumulator / v.timestep,
    ensures
        ({
            let n = v.accumulator / v.timestep;
            let w = run_frame(v, SimulationState::Running, after);
            &&& (forall|i: int| 0 <= i < n ==> after[i] == SimulationState::Running) ==> w.step == v.step + n
                && w.accumulator == v.accumulator % v.timestep && w.timestep == v.timestep
            &&& forall|j: int|
                #![trigger after[j]]
                0 <= j < n && after[j] != SimulationState::Running && (forall|i: int|
                    0 <= i < j ==> after[i] == SimulationState::Running) ==> w.step == v.step + j + 1
                    && w.accumulator == v.accumulator - (j + 1) * v.timestep && w.timestep == v.timestep
        }),
    decreases after.len(),
{
    let a = v.accumulator as int;
    let t = v.timestep as int;
    let n = a / t;
    lemma_take_one_step(a, t);
    if n > 0 {
        let v1 = expend_spec(v).1;
        assert(v1.accumulator == a - t);
        let rest = after.drop_first();
        lemma_frame_steps(v1, rest);
        let w = run_frame(v, SimulationState::Running, after);
        assert(w == run_frame(v1, after[0], rest));
        if after[0] == SimulationState::Running {
            assert((forall|i: int| 0 <= i < n ==> after[i] == SimulationState::Running) ==> (forall|i: int|
                0 <= i < n - 1 ==> rest[i] == SimulationState::Running)) by {
                if forall|i: int| 0 <= i < n ==> after[i] == SimulationState::Running {
                    assert forall|i: int| 0 <= i < n - 1 implies rest[i] == SimulationState::Running by {
                        assert(rest[i] == after[i + 1]);
                    }
                }
            }
            assert forall|j: int|
                #![trigger after[j]]
                0 <= j < n && after[j] != SimulationState::Running && (forall|i: int|
                    0 <= i < j ==> after[i] == SimulationState::Running) implies w.step == v.step + j + 1
                    && w.accumulator == a - (j + 1) * t && w.timestep == v.timestep by {
                assert(j >= 1);
                assert(rest[j - 1] == after[j]);
                assert forall|i: int| 0 <= i < j - 1 implies rest[i] == SimulationState::Running by {
                    assert(rest[i] == after[i + 1]);
                }
                lemma_one_more_step(j - 1, t);
            }
        } else {
            assert(w == v1);
            lemma_one_more_step(0, t);
            assert forall|j: int|
                #![trigger after[j]]
                0 <= j < n && after[j] != SimulationState::Running && (forall|i: int|
                    0 <= i < j ==> after[i] == SimulationState::Running) implies w.step == v.step + j + 1
                    && w.accumulator == a - (j + 1) * t && w.timestep == v.timestep by {
                if j > 0 {
                    assert(after[0] == SimulationState::Running);
                }
            }
        }
    }
}

/// Spending one timestep `t` of `a` collected: there is a whole step exactly
/// when `a / t > 0`, and what is left holds one whole step fewer and the same
/// remainder.
proof fn lemma_take_one_step(a: int, t: int)
    requires
        t > 0,
        a >= 0,
    ensures
        (a >= t) == (a / t > 0),
        a < t ==> a % t == a,
        a >= t ==> (a - t) / t == a / t - 1 && (a - t) % t == a % t,
{
    vstd::arithmetic::div_mod::lemma_fundamental_div_mod(a, t);
    vstd::arithmetic::div_mod::lemma_mod_pos_bound(a, t);
    if a < t {
        vstd::arithmetic::div_mod::lemma_small_mod(a as nat, t as nat);
        vstd::arithmetic::div_mod::lemma_fundamental_div_mod_converse(a, t, 0, a);
    } else {
        let n = a / t;
        assert(n >= 1) by (nonlinear_arith)
            requires
                a == t * n + a % t,
                a % t < t,
                a >= t,
                t > 0,
        ;
        assert(a - t == (n - 1) * t + a % t) by (nonlinear_arith)
            requires
                a == t * n + a % t,
        ;
        vstd::arithmetic::div_mod::lemma_fundamental_div_mod_converse(a - t, t, n - 1, a % t);
    }
}

/// `j + 1` steps of length `t` are `j` steps and one more.
proof fn lemma_one_more_step(j: int, t: int)
    ensures
        (j + 1) * t == j * t + t,
        (j + 1 + 1) * t == (j + 1) * t + t,
{
    assert((j + 1) * t == j * t + t) by (nonlinear_arith);
    assert((j + 1 + 1) * t == (j + 1) * t + t) by (nonlinear_arith);
}

/// Whether an emitter's timer runs in this simulation step: only while the
/// simulation runs, and only while the emitter has pixies left to release.
pub fn emitter_ticks(state: SimulationState, remaining: u32) -> (r: bool)
    ensures
        r == (state == SimulationState::Running && remaining > 0),
{
    state == SimulationState::Running && remaining > 0
}

/// An emitter whose timer ran this step releases a pixie when the timer has
/// finished; then one pixie fewer is left to release.
pub fn emitter_releases(remaining: &mut u32, timer_finished: bool) -> (r: bool)
    requires
        *old(remaining) > 0,
    ensures
        r == timer_finished,
        *final(remaining) == (if r { *old(remaining) - 1 } else { *old(remaining) as int }),
{
    if !timer_finished {
        return false;
    }
    *remaining = *remaining - 1;
    true
}

/// How fast the simulation runs.
#[derive(Clone, Copy, Debug, PartialEq, Eq, Structural)]
pub enum SimulationSpeed {
    Normal,
    Fast,
}

impl Default for SimulationSpeed {
    fn default() -> (s: Self)
        ensures
            s == SimulationSpeed::Normal,
    {
        SimulationSpeed::Normal
    }
}

impl SimulationSpeed {
    pub open spec fn scale_spec(self) -> u32 {
        match self {
            SimulationSpeed::Normal => 1,
            SimulationSpeed::Fast => 4,
        }
    }

    /// How many simulated seconds pass per second of frame time.
    pub fn scale(&self) -> (r: u32)
        ensures
            r == self.scale_spec(),
    {
        match self {
            Self::Normal => 1,
            Self::Fast => 4,
        }
    }

    /// The text of the speed button.
    pub fn label(&self) -> (r: String)
        ensures
            r@ == (match self {
                SimulationSpeed::Normal => "1X"@,
                SimulationSpeed::Fast => "4X"@,
            }),
    {
        match self {
            Self::Normal => "1X".to_owned(),
            Self::Fast => "4X".to_owned(),
        }
    }

    /// The speed the speed button switches to.
    pub fn next(&self) -> (r: SimulationSpeed)
        ensures
            r == (match self {
                SimulationSpeed::Normal => SimulationSpeed::Fast,
                SimulationSpeed::Fast => SimulationSpeed::Normal,
            }),
    {
        match self {
            Self::Normal => Self::Fast,
            Self::Fast => Self::Normal,
        }
    }
}

/// Settings of the simulation that the player chooses.
pub struct SimulationSettings {
    pub speed: SimulationSpeed,
}

impl Default for SimulationSettings {
    fn default() -> (s: Self)
        ensures
            s.speed == SimulationSpeed::Normal,
    {
        SimulationSettings { speed: SimulationSpeed::Normal }
    }
}

/// The state after a simulation step: a running simulation finishes once it
/// has at least one emitter, no emitter has pixies left to emit and no pixie
/// is on the field.
pub open spec fn sim_state_after_step(
    state: SimulationState,
    emitters_remaining: Seq<u32>,
    pixies: nat,
) -> SimulationState {
    if state == SimulationState::Running && emitters_remaining.len() >= 1 && (forall|i: int|
        0 <= i < emitters_remaining.len() ==> emitters_remaining[i] == 0) && pixies == 0 {
        SimulationState::Finished
    } else {
        state
    }
}

/// The run state after a simulation step, given how many pixies each emitter
/// has left to emit and how many pixies are on the field.
pub fn update_sim_state(
    state: SimulationState,
    emitters_remaining: &Vec<u32>,
    pixies: usize,
) -> (r: SimulationState)
    ensures
        r == sim_state_after_step(state, emitters_remaining@, pixies as nat),
{
    if state != SimulationState::Running {
        return state;
    }
    if emitters_remaining.len() < 1 {
        return state;
    }
    let mut i: usize = 0;
    while i < emitters_remaining.len()
        invariant
            i <= emitters_remaining.len(),
            forall|j: int| 0 <= j < i ==> emitters_remaining@[j] == 0,
        decreases emitters_remaining.len() - i,
    {
        if emitters_remaining[i] > 0 {
            return state;
        }
        i = i + 1;
    }
    if pixies > 0 {
        return state;
    }
    SimulationState::Finished
}

/// What the frame does to the clock before stepping: a simulation that is not
/// running leaves it alone; one that has just started running starts from a
/// fresh clock; then the frame's time, scaled by the speed, is collected.
pub fn begin_frame(
    steps: &mut SimulationSteps,
    state: SimulationState,
    state_changed: bool,
    delta: u128,
    speed: SimulationSpeed,
)
    requires
        old(steps).wf(),
        state == SimulationState::Running ==> (if state_changed {
            0int
        } else {
            old(steps)@.accumulator as int
        }) + delta * speed.scale_spec() <= MAX_DURATION_NANOS,
    ensures
        final(steps).wf(),
        state != SimulationState::Running ==> final(steps)@ == old(steps)@,
        state == SimulationState::Running ==> {
            &&& final(steps)@.accumulator == (if state_changed {
                0int
            } else {
                old(steps)@.accumulator as int
            }) + delta * speed.scale_spec()
            &&& final(steps)@.step == (if state_changed { 0 } else { old(steps)@.step })
            &&& final(steps)@.timestep == (if state_changed {
                SIMULATION_TIMESTEP_NANOS as nat
            } else {
                old(steps)@.timestep
            })
        },
{
    if state != SimulationState::Running {
        return;
    }
    if state_changed {
        steps.reset();
    }
    let scaled = delta * speed.scale() as u128;
    steps.tick(scaled);
}

} // verus!
