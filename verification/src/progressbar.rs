//! Decoupled progress reporting.
//!
//! Decoders submit [`Stage`] events through a [`ProgressSignal`], a
//! fire-and-forget handle over an asynchronous channel; a send never blocks
//! and its failure is swallowed, so a slow or absent consumer can never stall
//! ingestion. The consumer side drives a [`Progress`] state machine: each
//! received event is folded into the multi-stage (file N of M) state and
//! answered with the rendering action to perform.

use vstd::prelude::*;
use std::sync::mpsc::SendError;
use std::sync::mpsc::Sender;

verus! {

/// One progress event: declare the stage count, begin a stage with a label
/// and an expected maximum, advance the current stage, complete a stage, or
/// terminate the reporter.
pub enum Stage {
    Init(u64),
    Start(String, u64),
    Inc(u64),
    Finish(String),
    Stop,
}

/// The one capability a decoder needs from a progress observer: report that
/// `delta` more units (bytes) were consumed.
pub trait IncSignal {
    fn inc(&self, delta: u64);
}

#[verifier::external_type_specification]
#[verifier::external_body]
#[verifier::reject_recursive_types(T)]
pub struct ExSender<T>(Sender<T>);

#[verifier::external_type_specification]
#[verifier::external_body]
#[verifier::reject_recursive_types(T)]
pub struct ExSendError<T>(SendError<T>);

/// Relies on `std::sync::mpsc::Sender::send`: an asynchronous send on an
/// unbounded channel; it never blocks, and it fails only when the receiving
/// end has disconnected. Nothing is assumed about delivery here.
pub assume_specification<T>[ Sender::<T>::send ](s: &Sender<T>, t: T) -> Result<
    (),
    SendError<T>,
>;

/// The producer-side handle: submits events and never waits for rendering.
pub struct ProgressSignal {
    tx: Sender<Stage>,
}

impl ProgressSignal {
    /// Wraps the sending half of the channel whose receiving half drives a
    /// [`Progress`] consumer.
    pub fn new(tx: Sender<Stage>) -> ProgressSignal {
        ProgressSignal { tx }
    }

    /// Declares how many stages (files) this run will process.
    pub fn init(&self, stages: u64) -> Result<(), SendError<Stage>> {
        self.tx.send(Stage::Init(stages))
    }

    /// Begins a new stage with a human label and an expected unit maximum.
    pub fn start(&self, message: &str, max: u64) -> Result<(), SendError<Stage>> {
        self.tx.send(Stage::Start(message.to_owned(), max))
    }

    /// Advances the current stage.
    pub fn inc(&self, delta: u64) -> Result<(), SendError<Stage>> {
        self.tx.send(Stage::Inc(delta))
    }

    /// Completes the current stage.
    pub fn finish(&self, message: &str) -> Result<(), SendError<Stage>> {
        self.tx.send(Stage::Finish(message.to_owned()))
    }

    /// Terminates the reporter; sent exactly once on producer-side teardown.
    pub fn stop(&self) -> Result<(), SendError<Stage>> {
        self.tx.send(Stage::Stop)
    }
}

impl IncSignal for ProgressSignal {
    fn inc(&self, delta: u64) {
        // best-effort: a failed delivery must never surface to the data path
        let _ = ProgressSignal::inc(self, delta);
    }
}

/// What the consumer must do after folding one event into its state.
#[derive(Debug, PartialEq)]
pub enum ProgressAction {
    /// The stage count was recorded; nothing to render.
    Prepare,
    /// Begin rendering a fresh bar for stage `index` of `stages`.
    NewBar { index: u64, stages: u64, message: String, max: u64 },
    /// Advance the current bar.
    Advance { delta: u64 },
    /// Complete the current bar with a final label.
    FinishBar { message: String },
    /// Terminate the consumer loop.
    Halt,
}

/// The consumer-side state: how many stages were declared and which stage is
/// current. The consumer owns rendering exclusively; producers only ever see
/// [`ProgressSignal`].
pub struct Progress {
    stages: u64,
    index: u64,
}

impl Progress {
    /// The declared number of stages.
    pub closed spec fn stages(self) -> u64 {
        self.stages
    }

    /// The 1-based index of the current stage; 0 before any stage began.
    pub closed spec fn index(self) -> u64 {
        self.index
    }

    pub fn new() -> (r: Progress)
        ensures
            r.stages() == 0,
            r.index() == 0,
    {
        Progress { stages: 0, index: 0 }
    }

    /// Folds one received event into the state and says what to render.
    /// `Init` records the stage count, `Start` moves to the next stage and
    /// asks for a fresh bar, `Inc` and `Finish` only render, and `Stop` halts
    /// the loop; no event blocks or fails.
    pub fn apply(&mut self, stage: Stage) -> (a: ProgressAction)
        ensures
            match stage {
                Stage::Init(n) => final(self).stages() == n && final(self).index() == old(
                    self,
                ).index() && a == ProgressAction::Prepare,
                Stage::Start(message, max) => {
                    &&& final(self).stages() == old(self).stages()
                    &&& final(self).index() == if old(self).index() < u64::MAX {
                        old(self).index() + 1
                    } else {
                        old(self).index() as int
                    }
                    &&& a == (ProgressAction::NewBar {
                        index: final(self).index(),
                        stages: final(self).stages(),
                        message,
                        max,
                    })
                },
                Stage::Inc(delta) => *final(self) == *old(self) && a == (ProgressAction::Advance {
                    delta,
                }),
                Stage::Finish(message) => *final(self) == *old(self) && a
                    == (ProgressAction::FinishBar { message }),
                Stage::Stop => *final(self) == *old(self) && a == ProgressAction::Halt,
            },
    {
        match stage {
            Stage::Init(n) => {
                self.stages = n;
                ProgressAction::Prepare
            },
            Stage::Start(message, max) => {
                if self.index < u64::MAX {
                    self.index = self.index + 1;
                }
                ProgressAction::NewBar { index: self.index, stages: self.stages, message, max }
            },
            Stage::Inc(delta) => ProgressAction::Advance { delta },
            Stage::Finish(message) => ProgressAction::FinishBar { message },
            Stage::Stop => ProgressAction::Halt,
        }
    }
}

} // verus!
