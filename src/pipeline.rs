use vstd::prelude::*;

verus! {

/// What the device reports of one kernel program.
#[derive(Clone, Copy, PartialEq, Eq, Structural, Debug)]
pub enum PipelineStatus {
    /// Still being compiled.
    Pending,
    /// Compiled and usable.
    Ready,
    /// Compilation failed; there is no way on.
    Failed,
}

/// The first position in `s` at `from` or after that is not `Ready`, or
/// `s.len()` if there is none.
pub open spec fn first_not_ready(s: Seq<PipelineStatus>, from: int) -> int
    decreases s.len() - from,
{
    if from >= s.len() {
        s.len() as int
    } else if s[from] != PipelineStatus::Ready {
        from
    } else {
        first_not_ready(s, from + 1)
    }
}

/// The outcome of a readiness poll over `s`: `Ok(true)` when every program
/// is ready, else decided by the first one that is not: `Err` with its
/// position if it failed, `Ok(false)` if it is pending.
pub open spec fn poll_outcome(s: Seq<PipelineStatus>) -> Result<bool, usize> {
    let f = first_not_ready(s, 0);
    if f >= s.len() {
        Ok(true)
    } else if s[f] == PipelineStatus::Failed {
        Err(f as usize)
    } else {
        Ok(false)
    }
}

proof fn lemma_first_not_ready(s: Seq<PipelineStatus>, from: int)
    requires
        0 <= from <= s.len(),
    ensures
        from <= first_not_ready(s, from) <= s.len(),
        forall|i: int| from <= i < first_not_ready(s, from) ==> s[i] == PipelineStatus::Ready,
    decreases s.len() - from,
{
    if from < s.len() && s[from] == PipelineStatus::Ready {
        lemma_first_not_ready(s, from + 1);
    }
}

proof fn lemma_first_not_ready_skip(s: Seq<PipelineStatus>, from: int, i: int)
    requires
        0 <= from <= i <= s.len(),
        forall|k: int| from <= k < i ==> s[k] == PipelineStatus::Ready,
    ensures
        first_not_ready(s, from) == first_not_ready(s, i),
    decreases i - from,
{
    if from < i {
        lemma_first_not_ready_skip(s, from + 1, i);
    }
}

/// Polls the programs in order: `Ok(true)` once all are ready, `Ok(false)` if
/// one is still pending, `Err(i)` if program `i` failed to compile.
pub fn get_pipeline_states(pipelines: &Vec<PipelineStatus>) -> (r: Result<bool, usize>)
    ensures
        r == poll_outcome(pipelines@),
{
    let mut i: usize = 0;
    while i < pipelines.len()
        invariant
            i <= pipelines.len(),
            forall|k: int| 0 <= k < i ==> pipelines@[k] == PipelineStatus::Ready,
        decreases pipelines.len() - i,
    {
        match pipelines[i] {
            PipelineStatus::Ready => {},
            PipelineStatus::Failed => {
                proof {
                    lemma_first_not_ready_skip(pipelines@, 0, i as int);
                }
                return Err(i);
            },
            PipelineStatus::Pending => {
                proof {
                    lemma_first_not_ready_skip(pipelines@, 0, i as int);
                }
                return Ok(false);
            },
        }
        i = i + 1;
    }
    proof {
        lemma_first_not_ready_skip(pipelines@, 0, i as int);
    }
    Ok(true)
}

/// Readiness of the simulation stages.
#[derive(Clone, Copy, PartialEq, Eq, Structural, Debug)]
pub enum LogicState {
    Loading,
    Update,
}

/// The host's handle on the simulation stages (hash, sort, cell index,
/// update): they run only once all their programs are ready.
pub struct LogicNode {
    pub state: LogicState,
}

/// The state after a poll that gave `outcome` in state `state`: a loading
/// node becomes ready once every program is; no other state changes.
pub open spec fn logic_next(state: LogicState, outcome: Result<bool, usize>) -> LogicState {
    if state == LogicState::Loading && outcome == Ok::<bool, usize>(true) {
        LogicState::Update
    } else {
        state
    }
}

impl LogicNode {
    pub fn new() -> (r: LogicNode)
        ensures
            r.state == LogicState::Loading,
    {
        LogicNode { state: LogicState::Loading }
    }

    /// Polls the stage programs while loading. A failed program is reported
    /// by its position among `pipelines`.
    pub fn update(&mut self, pipelines: &Vec<PipelineStatus>) -> (r: Result<(), usize>)
        ensures
            old(self).state == LogicState::Loading ==> match poll_outcome(pipelines@) {
                Err(i) => r == Err::<(), usize>(i),
                Ok(_) => r == Ok::<(), usize>(()),
            },
            old(self).state != LogicState::Loading ==> r == Ok::<(), usize>(()),
            final(self).state == if old(self).state == LogicState::Loading {
                logic_next(old(self).state, poll_outcome(pipelines@))
            } else {
                old(self).state
            },
    {
        if self.state == LogicState::Loading {
            match get_pipeline_states(pipelines) {
                Ok(true) => {
                    self.state = LogicState::Update;
                    Ok(())
                },
                Ok(false) => Ok(()),
                Err(i) => Err(i),
            }
        } else {
            Ok(())
        }
    }

    /// The stages run in this state.
    pub fn is_ready(&self) -> (r: bool)
        ensures
            r == (self.state == LogicState::Update),
    {
        self.state == LogicState::Update
    }
}

impl Default for LogicNode {
    fn default() -> (r: LogicNode)
        ensures
            r.state == LogicState::Loading,
    {
        LogicNode::new()
    }
}

/// Readiness of the render stages (clear and draw).
#[derive(Clone, Copy, PartialEq, Eq, Structural, Debug)]
pub enum RenderState {
    Loading,
    Update,
}

/// The host's handle on the render stages.
pub struct RenderNode {
    pub state: RenderState,
}

impl RenderNode {
    pub fn new() -> (r: RenderNode)
        ensures
            r.state == RenderState::Loading,
    {
        RenderNode { state: RenderState::Loading }
    }

    /// Polls the render programs while loading; becomes ready once all are.
    pub fn update(&mut self, pipelines: &Vec<PipelineStatus>) -> (r: Result<(), usize>)
        ensures
            old(self).state == RenderState::Loading ==> match poll_outcome(pipelines@) {
                Err(i) => r == Err::<(), usize>(i),
                Ok(_) => r == Ok::<(), usize>(()),
            },
            old(self).state != RenderState::Loading ==> r == Ok::<(), usize>(()),
            final(self).state == if old(self).state == RenderState::Loading && poll_outcome(
                pipelines@,
            ) == Ok::<bool, usize>(true) {
                RenderState::Update
            } else {
                old(self).state
            },
    {
        if self.state == RenderState::Loading {
            match get_pipeline_states(pipelines) {
                Ok(true) => {
                    self.state = RenderState::Update;
                    Ok(())
                },
                Ok(false) => Ok(()),
                Err(i) => Err(i),
            }
        } else {
            Ok(())
        }
    }

    /// The render stages run in this state.
    pub fn is_ready(&self) -> (r: bool)
        ensures
            r == (self.state == RenderState::Update),
    {
        self.state == RenderState::Update
    }
}

impl Default for RenderNode {
    fn default() -> (r: RenderNode)
        ensures
            r.state == RenderState::Loading,
    {
        RenderNode::new()
    }
}

} // verus!
