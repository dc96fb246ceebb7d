//! The pipeline driver: the order in which the frames pass the stages.
//!
//! Frame `i` is analysed, mapped, rendered and handed to the sink, in this
//! order, and frame `i + 1` is not begun before the sink has taken frame
//! `i`. The run is done when the sink has taken the last frame. A failure in
//! any stage ends the run and names the frame and the stage.
//!
//! The driver does none of the work itself. The caller does what the state
//! asks for and reports how it went.
//!
//! Where the stages work side by side, the [`Schedule`] says which of them
//! may take its next frame: the queues between them are bounded, so a stage
//! waits while the queue behind it is full or the queue before it is empty.

use vstd::prelude::*;

verus! {

/// The work that is done for each frame, in order.
#[derive(Clone, Copy, Debug, PartialEq, Eq)]
pub enum Stage {
    /// Cutting the window and computing its spectrum.
    Analysis,
    /// Reducing the spectrum to bar amplitudes.
    Mapping,
    /// Drawing the bars.
    Rendering,
    /// Handing the frame to the sink.
    Emission,
}

/// Where a run stands.
#[derive(Clone, Copy, Debug, PartialEq, Eq)]
pub enum State {
    /// The frame is being analysed.
    Analyzing(u64),
    /// The frame's spectrum is being mapped.
    Mapping(u64),
    /// The frame is being drawn.
    Rendering(u64),
    /// The frame has been handed to the sink, which has yet to answer.
    Emitted(u64),
    /// The sink has taken every frame.
    Done,
    /// The run has failed.
    Failed { frame: u64, stage: Stage },
}

/// How the work that the state asked for went.
#[derive(Clone, Copy, Debug, PartialEq, Eq)]
pub enum Outcome {
    Completed,
    Failed,
}

/// The state in which a run of `total` frames begins.
pub open spec fn start(total: u64) -> State {
    if total == 0 {
        State::Done
    } else {
        State::Analyzing(0)
    }
}

/// The state that follows on an outcome.
pub open spec fn step(total: u64, state: State, outcome: Outcome) -> State {
    match (state, outcome) {
        (State::Analyzing(i), Outcome::Completed) => State::Mapping(i),
        (State::Analyzing(i), Outcome::Failed) => State::Failed { frame: i, stage: Stage::Analysis },
        (State::Mapping(i), Outcome::Completed) => State::Rendering(i),
        (State::Mapping(i), Outcome::Failed) => State::Failed { frame: i, stage: Stage::Mapping },
        (State::Rendering(i), Outcome::Completed) => State::Emitted(i),
        (State::Rendering(i), Outcome::Failed) => State::Failed {
            frame: i,
            stage: Stage::Rendering,
        },
        (State::Emitted(i), Outcome::Completed) => if i + 1 < total {
            State::Analyzing((i + 1) as u64)
        } else {
            State::Done
        },
        (State::Emitted(i), Outcome::Failed) => State::Failed { frame: i, stage: Stage::Emission },
        (State::Done, _) => State::Done,
        (State::Failed { frame, stage }, _) => State::Failed { frame, stage },
    }
}

/// The state's frame, if any, is one of the run's frames.
pub open spec fn fits(total: u64, state: State) -> bool {
    match state {
        State::Analyzing(i) => i < total,
        State::Mapping(i) => i < total,
        State::Rendering(i) => i < total,
        State::Emitted(i) => i < total,
        State::Done => true,
        State::Failed { frame, stage } => frame < total,
    }
}

/// How many frames the sink has taken when the run is in the state.
pub open spec fn taken(total: u64, state: State) -> nat {
    match state {
        State::Analyzing(i) => i as nat,
        State::Mapping(i) => i as nat,
        State::Rendering(i) => i as nat,
        State::Emitted(i) => i as nat,
        State::Done => total as nat,
        State::Failed { frame, stage } => frame as nat,
    }
}

/// The state after a sequence of outcomes.
pub open spec fn run(total: u64, state: State, outcomes: Seq<Outcome>) -> State
    decreases outcomes.len(),
{
    if outcomes.len() == 0 {
        state
    } else {
        step(total, run(total, state, outcomes.drop_last()), outcomes.last())
    }
}

/// `n` outcomes, all of them `Completed`.
pub open spec fn all_completed(n: nat) -> Seq<Outcome> {
    Seq::new(n, |i: int| Outcome::Completed)
}

/// A run of a given number of frames.
#[derive(Clone, Copy, Debug, PartialEq, Eq)]
pub struct Driver {
    /// The number of frames to emit.
    pub total: u64,
    /// Where the run stands.
    pub state: State,
}

impl Driver {
    /// The state's frame is one of the run's frames.
    pub open spec fn wf(&self) -> bool {
        fits(self.total, self.state)
    }

    /// Begins a run of `total` frames.
    pub fn new(total: u64) -> (driver: Driver)
        ensures
            driver.wf(),
            driver.total == total,
            driver.state == start(total),
    {
        if total == 0 {
            Driver { total, state: State::Done }
        } else {
            Driver { total, state: State::Analyzing(0) }
        }
    }

    /// Whether the run has ended, well or badly.
    pub fn is_over(&self) -> (over: bool)
        ensures
            over == (self.state is Done || self.state is Failed),
    {
        match self.state {
            State::Done => true,
            State::Failed { .. } => true,
            _ => false,
        }
    }

    /// Takes in how the current work went and moves to the next state.
    pub fn advance(&mut self, outcome: Outcome) -> (next: State)
        requires
            old(self).wf(),
        ensures
            final(self).wf(),
            final(self).total == old(self).total,
            final(self).state == step(old(self).total, old(self).state, outcome),
            next == final(self).state,
    {
        let next = match (self.state, outcome) {
            (State::Analyzing(i), Outcome::Completed) => State::Mapping(i),
            (State::Analyzing(i), Outcome::Failed) => State::Failed {
                frame: i,
                stage: Stage::Analysis,
            },
            (State::Mapping(i), Outcome::Completed) => State::Rendering(i),
            (State::Mapping(i), Outcome::Failed) => State::Failed {
                frame: i,
                stage: Stage::Mapping,
            },
            (State::Rendering(i), Outcome::Completed) => State::Emitted(i),
            (State::Rendering(i), Outcome::Failed) => State::Failed {
                frame: i,
                stage: Stage::Rendering,
            },
            (State::Emitted(i), Outcome::Completed) => {
                if i + 1 < self.total {
                    State::Analyzing(i + 1)
                } else {
                    State::Done
                }
            },
            (State::Emitted(i), Outcome::Failed) => State::Failed {
                frame: i,
                stage: Stage::Emission,
            },
            (State::Done, _) => State::Done,
            (State::Failed { frame, stage }, _) => State::Failed { frame, stage },
        };
        self.state = next;
        next
    }
}

/// Frames reach the sink in order, one at a time: the sink takes a frame
/// only when it completes the emission, the frame it takes then is the one
/// after the frames it has taken before, and nothing else changes the count.
pub proof fn lemma_frames_are_taken_in_order(total: u64, state: State, outcome: Outcome)
    requires
        fits(total, state),
    ensures
        fits(total, step(total, state, outcome)),
        state matches State::Emitted(i) ==> (outcome == Outcome::Completed ==> i == taken(
            total,
            state,
        ) && taken(total, step(total, state, outcome)) == i + 1),
        !(state is Emitted && outcome == Outcome::Completed) ==> taken(
            total,
            step(total, state, outcome),
        ) == taken(total, state),
{
}

/// A failure ends the run and names the frame and the stage that failed;
/// nothing that is reported later changes that.
pub proof fn lemma_failure_is_final(total: u64, state: State, later: Seq<Outcome>)
    requires
        !(state is Done),
    ensures
        step(total, state, Outcome::Failed) is Failed,
        step(total, state, Outcome::Failed)->frame == taken(total, state),
        state is Analyzing ==> step(total, state, Outcome::Failed)->stage == Stage::Analysis,
        state is Mapping ==> step(total, state, Outcome::Failed)->stage == Stage::Mapping,
        state is Rendering ==> step(total, state, Outcome::Failed)->stage == Stage::Rendering,
        state is Emitted ==> step(total, state, Outcome::Failed)->stage == Stage::Emission,
        run(total, step(total, state, Outcome::Failed), later) == step(
            total,
            state,
            Outcome::Failed,
        ),
    decreases later.len(),
{
    if later.len() > 0 {
        lemma_failure_is_final(total, state, later.drop_last());
    }
}

/// The state after `n` completions in a run without failures: frame
/// `n / 4` is in its stage `n % 4`, and after four completions for every
/// frame the run is done.
pub open spec fn progress(total: u64, n: nat) -> State {
    if n >= 4 * total {
        State::Done
    } else if n % 4 == 0 {
        State::Analyzing((n / 4) as u64)
    } else if n % 4 == 1 {
        State::Mapping((n / 4) as u64)
    } else if n % 4 == 2 {
        State::Rendering((n / 4) as u64)
    } else {
        State::Emitted((n / 4) as u64)
    }
}

/// A run without failures passes every frame through the four stages in
/// order and then is done: the sink has taken exactly `total` frames, and
/// before the last completion it had taken fewer.
pub proof fn lemma_run_emits_every_frame(total: u64, n: nat)
    ensures
        run(total, start(total), all_completed(n)) == progress(total, n),
        n >= 4 * total ==> taken(total, progress(total, n)) == total,
        n < 4 * total ==> taken(total, progress(total, n)) == n / 4 && n / 4 < total,
    decreases n,
{
    if n > 0 {
        let before = (n - 1) as nat;
        lemma_run_emits_every_frame(total, before);
        assert(all_completed(n).drop_last() =~= all_completed(before));
        assert(all_completed(n).last() == Outcome::Completed);
    }
}


/// The number of frames that a queue between two stages holds at most,
/// when nothing else is configured.
pub const DEFAULT_CAPACITY: u64 = 4;

/// The stages at work side by side, with a bounded queue between each two.
///
/// Each stage handles the frames in order, so a count per stage says which
/// frames have passed it. A stage may take its next frame when the stage
/// before it has passed that frame on and the queue behind it has room.
#[derive(Clone, Copy, Debug, PartialEq, Eq)]
pub struct Schedule {
    /// The number of frames to emit.
    pub total: u64,
    /// The number of frames that each queue holds at most.
    pub capacity: u64,
    /// Frames that have been analysed.
    pub analyzed: u64,
    /// Frames that have been mapped.
    pub mapped: u64,
    /// Frames that have been rendered.
    pub rendered: u64,
    /// Frames that the sink has taken.
    pub emitted: u64,
    /// Whether the run was cancelled.
    pub cancelled: bool,
}

impl Schedule {
    /// No stage is ahead of the stage before it, and no queue holds more
    /// than its capacity.
    pub open spec fn wf(&self) -> bool {
        &&& self.capacity >= 1
        &&& self.emitted <= self.rendered <= self.mapped <= self.analyzed <= self.total
        &&& self.analyzed - self.mapped <= self.capacity
        &&& self.mapped - self.rendered <= self.capacity
        &&& self.rendered - self.emitted <= self.capacity
    }

    /// The number of frames that have passed the stage.
    pub open spec fn passed(&self, stage: Stage) -> u64 {
        match stage {
            Stage::Analysis => self.analyzed,
            Stage::Mapping => self.mapped,
            Stage::Rendering => self.rendered,
            Stage::Emission => self.emitted,
        }
    }

    /// Whether the stage may take its next frame.
    pub open spec fn ready(&self, stage: Stage) -> bool {
        !self.cancelled && match stage {
            Stage::Analysis => self.analyzed < self.total && self.analyzed - self.mapped
                < self.capacity,
            Stage::Mapping => self.mapped < self.analyzed && self.mapped - self.rendered
                < self.capacity,
            Stage::Rendering => self.rendered < self.mapped && self.rendered - self.emitted
                < self.capacity,
            Stage::Emission => self.emitted < self.rendered,
        }
    }

    /// The schedule after the stage has passed its next frame on.
    pub open spec fn after(&self, stage: Stage) -> Schedule {
        match stage {
            Stage::Analysis => Schedule { analyzed: (self.analyzed + 1) as u64, ..*self },
            Stage::Mapping => Schedule { mapped: (self.mapped + 1) as u64, ..*self },
            Stage::Rendering => Schedule { rendered: (self.rendered + 1) as u64, ..*self },
            Stage::Emission => Schedule { emitted: (self.emitted + 1) as u64, ..*self },
        }
    }

    /// A schedule for `total` frames, or `None` for queues without room.
    pub fn new(total: u64, capacity: u64) -> (made: Option<Schedule>)
        ensures
            made is Some == (capacity >= 1),
            made matches Some(schedule) ==> schedule.wf() && schedule == (Schedule {
                total,
                capacity,
                analyzed: 0,
                mapped: 0,
                rendered: 0,
                emitted: 0,
                cancelled: false,
            }),
    {
        if capacity >= 1 {
            Some(
                Schedule {
                    total,
                    capacity,
                    analyzed: 0,
                    mapped: 0,
                    rendered: 0,
                    emitted: 0,
                    cancelled: false,
                },
            )
        } else {
            None
        }
    }

    /// The frame that the stage may take next, if it may take one.
    pub fn next_frame(&self, stage: Stage) -> (frame: Option<u64>)
        requires
            self.wf(),
        ensures
            frame is Some == self.ready(stage),
            frame matches Some(i) ==> i == self.passed(stage),
    {
        if self.cancelled {
            return None;
        }
        match stage {
            Stage::Analysis => if self.analyzed < self.total && self.analyzed - self.mapped
                < self.capacity {
                Some(self.analyzed)
            } else {
                None
            },
            Stage::Mapping => if self.mapped < self.analyzed && self.mapped - self.rendered
                < self.capacity {
                Some(self.mapped)
            } else {
                None
            },
            Stage::Rendering => if self.rendered < self.mapped && self.rendered - self.emitted
                < self.capacity {
                Some(self.rendered)
            } else {
                None
            },
            Stage::Emission => if self.emitted < self.rendered {
                Some(self.emitted)
            } else {
                None
            },
        }
    }

    /// Records that the stage has passed its next frame on, and says which
    /// frame that was. A stage that may not take a frame changes nothing.
    pub fn complete(&mut self, stage: Stage) -> (frame: Option<u64>)
        requires
            old(self).wf(),
        ensures
            final(self).wf(),
            old(self).ready(stage) ==> frame == Some(old(self).passed(stage)) && *final(self)
                == old(self).after(stage),
            !old(self).ready(stage) ==> frame is None && *final(self) == *old(self),
    {
        let frame = self.next_frame(stage);
        if frame.is_some() {
            match stage {
                Stage::Analysis => { self.analyzed = self.analyzed + 1; },
                Stage::Mapping => { self.mapped = self.mapped + 1; },
                Stage::Rendering => { self.rendered = self.rendered + 1; },
                Stage::Emission => { self.emitted = self.emitted + 1; },
            }
        }
        frame
    }

    /// Cancels the run: from now on no stage may take a frame.
    pub fn cancel(&mut self)
        ensures
            final(self).cancelled,
            *final(self) == (Schedule { cancelled: true, ..*old(self) }),
    {
        self.cancelled = true;
    }

    /// Whether the sink has taken every frame.
    pub fn is_done(&self) -> (done: bool)
        ensures
            done == (self.emitted == self.total),
    {
        self.emitted == self.total
    }

    /// The number of frames that are held somewhere between analysis and sink.
    pub fn in_flight(&self) -> (held: u64)
        requires
            self.wf(),
        ensures
            held == self.analyzed - self.emitted,
            held <= 3 * self.capacity,
    {
        self.analyzed - self.emitted
    }
}

/// The pipeline does not stall: unless the run is cancelled or the sink has
/// taken every frame, some stage may take its next frame.
pub proof fn lemma_some_stage_is_ready(schedule: Schedule)
    requires
        schedule.wf(),
        !schedule.cancelled,
        schedule.emitted < schedule.total,
    ensures
        schedule.ready(Stage::Analysis) || schedule.ready(Stage::Mapping) || schedule.ready(
            Stage::Rendering,
        ) || schedule.ready(Stage::Emission),
{
}

/// The stages keep to the order of the frames: a stage passes on the frame
/// whose number is the count of frames it has passed before, that frame has
/// passed every stage before it, and no queue outgrows its capacity.
pub proof fn lemma_stages_keep_order(schedule: Schedule, stage: Stage)
    requires
        schedule.wf(),
        schedule.ready(stage),
    ensures
        schedule.after(stage).wf(),
        schedule.after(stage).passed(stage) == schedule.passed(stage) + 1,
        stage == Stage::Mapping ==> schedule.passed(stage) < schedule.analyzed,
        stage == Stage::Rendering ==> schedule.passed(stage) < schedule.mapped,
        stage == Stage::Emission ==> schedule.passed(stage) < schedule.rendered,
        schedule.after(stage).analyzed - schedule.after(stage).emitted <= 3 * schedule.capacity,
{
}

/// After a cancellation nothing moves: no stage may take a frame.
pub proof fn lemma_cancelled_is_idle(schedule: Schedule, stage: Stage)
    requires
        schedule.cancelled,
    ensures
        !schedule.ready(stage),
{
}

} // verus!
