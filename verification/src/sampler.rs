//! The sampling cycle as a state machine.
//!
//! One sample is a fixed exchange with the guest: pause it, dump the
//! registers, read one frame after the other along the chain of base pointers,
//! look up the names, count the folded stack, let the guest run again. The
//! sampler decides each step of that exchange and carries it out in none: it
//! is told what happened and answers with what is to be done next.

use crate::collapse::collapsed;
use crate::monitor::{frame_of, parse_frame, parse_registers, registers_of, Command, ParseError};
use crate::signature::{folded_signature, signature_of};
use crate::symbols::{groups_view, names_of, SymbolError};
use crate::table::SampleTable;
use crate::walker::{accepted, pending, started, WalkState, WalkStep, Walker};
use vstd::multiset::*;
use vstd::prelude::*;

verus! {

/// Why the settings of a run are refused.
#[derive(Clone, Copy, Debug, PartialEq, Eq, Structural)]
pub enum ConfigError {
    /// The sampling frequency is zero.
    ZeroFrequency,
    /// No executable was named to take the symbols from.
    MissingExecutable,
    /// The address at which the executable is loaded was not given.
    MissingOffset,
    /// The frequency is above a thousand million samples a second: the time
    /// from one sample to the next would be less than a nanosecond.
    FrequencyTooHigh,
}

/// Why a run ended before it was asked to.
#[derive(Clone, Copy, Debug, PartialEq, Eq, Structural)]
pub enum Failure {
    /// The control channel failed.
    Channel,
    /// A dump could not be read.
    Parse(ParseError),
    /// The chain of frames goes on beyond the bound on its depth.
    TooDeep,
    /// Something was reported that the sampler had not asked for.
    OutOfTurn,
    /// The table cannot count one sample more.
    TableFull,
}

/// Where the sampler stands in its cycle.
#[derive(Clone, Copy, Debug, PartialEq, Eq, Structural)]
pub enum Phase {
    /// Between two samples: the guest runs.
    Idle,
    /// The guest was told to stop.
    Pausing,
    /// The register dump was asked for.
    ReadingRegisters,
    /// A frame was asked for.
    Walking,
    /// The names of the stack were asked for.
    Resolving,
    /// The guest was told to go on.
    Resuming,
    /// The run is over, as it was asked to be.
    Finished,
    /// The run is over because of a failure.
    Failed(Failure),
}

/// What the sampler is told.
#[derive(Clone, Debug, PartialEq, Eq)]
pub enum Event {
    /// The timer has ticked.
    Tick,
    /// The monitor has answered the command that was sent.
    Reply(Vec<u8>),
    /// The names that were asked for, one group for each address, outermost first.
    Resolved(Vec<Result<Vec<String>, SymbolError>>),
    /// The command that was sent could not be carried out.
    ChannelFailed,
    /// The run is asked to end.
    Shutdown,
}

/// What the sampler wants done.
#[derive(Clone, Debug, PartialEq, Eq)]
pub enum Action {
    /// Wait for the next tick of the timer.
    AwaitTick,
    /// Send this command and report the answer.
    Send(Command),
    /// Look up the names of these return addresses, innermost first.
    Resolve(Vec<u64>),
    /// Nothing new: what was asked for before is still awaited.
    Wait,
    /// Write out the table: the run is over.
    Finish,
    /// Give up with this failure.
    Abort(Failure),
}

/// An event, as the contracts speak of it.
pub enum EventModel {
    Tick,
    Reply(Seq<u8>),
    Resolved(Seq<Result<Seq<Seq<char>>, SymbolError>>),
    ChannelFailed,
    Shutdown,
}

/// An action, as the contracts speak of it.
pub enum ActionModel {
    AwaitTick,
    Send(Command),
    Resolve(Seq<u64>),
    Wait,
    Finish,
    Abort(Failure),
}

impl View for Event {
    type V = EventModel;

    open spec fn view(&self) -> EventModel {
        match self {
            Event::Tick => EventModel::Tick,
            Event::Reply(text) => EventModel::Reply(text@),
            Event::Resolved(groups) => EventModel::Resolved(groups_view(groups@)),
            Event::ChannelFailed => EventModel::ChannelFailed,
            Event::Shutdown => EventModel::Shutdown,
        }
    }
}

impl View for Action {
    type V = ActionModel;

    open spec fn view(&self) -> ActionModel {
        match self {
            Action::AwaitTick => ActionModel::AwaitTick,
            Action::Send(command) => ActionModel::Send(*command),
            Action::Resolve(stack) => ActionModel::Resolve(stack@),
            Action::Wait => ActionModel::Wait,
            Action::Finish => ActionModel::Finish,
            Action::Abort(failure) => ActionModel::Abort(*failure),
        }
    }
}

/// The state of a sampler, as the contracts speak of it.
pub struct SamplerState {
    pub phase: Phase,
    /// The walk of the sample in hand, or of the last one.
    pub walk: WalkState,
    /// The signatures counted so far, each as often as it was sampled.
    pub samples: Multiset<Seq<char>>,
    /// Whether the run was asked to end while a sample was in hand.
    pub stopping: bool,
    pub max_depth: nat,
    pub patterns: Seq<Seq<Seq<char>>>,
}

/// The time from one sample to the next in whole nanoseconds, for a frequency
/// above zero: the inverse of the frequency, if that is a nanosecond at least.
pub open spec fn period_of(frequency: u64) -> Result<u64, ConfigError> {
    if frequency > 1_000_000_000 {
        Err(ConfigError::FrequencyTooHigh)
    } else {
        Ok((1_000_000_000int / (frequency as int)) as u64)
    }
}

/// Whether the table is to be written out: the run is over as it was asked to
/// be, or it failed after it was asked to end.
pub open spec fn output_owed(s: SamplerState) -> bool {
    s.phase is Finished || (s.phase matches Phase::Failed(_) && s.stopping)
}

/// The state in which a run begins.
pub open spec fn initial(max_depth: nat, patterns: Seq<Seq<Seq<char>>>) -> SamplerState {
    SamplerState {
        phase: Phase::Idle,
        walk: started(0, max_depth),
        samples: Multiset::empty(),
        stopping: false,
        max_depth,
        patterns,
    }
}

/// The run gives up.
pub open spec fn failed(s: SamplerState, failure: Failure) -> (SamplerState, ActionModel) {
    (SamplerState { phase: Phase::Failed(failure), ..s }, ActionModel::Abort(failure))
}

/// What follows from the walk as it stands: the next frame is asked for, or
/// the names of the whole stack, or the walk has grown too deep.
pub open spec fn after_walk(s: SamplerState) -> (SamplerState, ActionModel) {
    match pending(s.walk) {
        WalkStep::Read(address) => (
            SamplerState { phase: Phase::Walking, ..s },
            ActionModel::Send(Command::Examine(address)),
        ),
        WalkStep::Complete => (
            SamplerState { phase: Phase::Resolving, ..s },
            ActionModel::Resolve(s.walk.addresses),
        ),
        WalkStep::TooDeep => failed(s, Failure::TooDeep),
    }
}

/// What an answer of the monitor leads to.
pub open spec fn on_reply(s: SamplerState, text: Seq<u8>) -> (SamplerState, ActionModel) {
    match s.phase {
        Phase::Pausing => (
            SamplerState { phase: Phase::ReadingRegisters, ..s },
            ActionModel::Send(Command::Registers),
        ),
        Phase::ReadingRegisters => match registers_of(text) {
            Err(e) => failed(s, Failure::Parse(e)),
            Ok(registers) => after_walk(
                SamplerState { walk: started(registers.base_pointer, s.max_depth), ..s },
            ),
        },
        Phase::Walking => match frame_of(text) {
            Err(e) => failed(s, Failure::Parse(e)),
            Ok(frame) => after_walk(SamplerState { walk: accepted(s.walk, frame), ..s }),
        },
        Phase::Resuming => if s.stopping {
            (SamplerState { phase: Phase::Finished, ..s }, ActionModel::Finish)
        } else {
            (SamplerState { phase: Phase::Idle, ..s }, ActionModel::AwaitTick)
        },
        _ => failed(s, Failure::OutOfTurn),
    }
}

/// What the names of the stack lead to: the folded stack is counted and the
/// guest is let go.
pub open spec fn on_resolved(s: SamplerState, groups: Seq<Result<Seq<Seq<char>>, SymbolError>>) -> (
    SamplerState,
    ActionModel,
) {
    if !(s.phase is Resolving) {
        failed(s, Failure::OutOfTurn)
    } else if s.samples.len() >= u64::MAX {
        failed(s, Failure::TableFull)
    } else {
        (
            SamplerState {
                phase: Phase::Resuming,
                samples: s.samples.insert(signature_of(collapsed(names_of(groups), s.patterns))),
                ..s
            },
            ActionModel::Send(Command::Cont),
        )
    }
}

/// The next state and the action, for a state and an event.
///
/// A run that is over stays so. A failure of the channel ends the run in any
/// phase. A request to end the run takes effect between two samples: while a
/// sample is in hand it is noted, the exchange with the guest is carried
/// through, and the run ends when the guest runs again. A tick while a sample
/// is in hand is passed over.
pub open spec fn transition(s: SamplerState, event: EventModel) -> (SamplerState, ActionModel) {
    match s.phase {
        Phase::Finished => (s, ActionModel::Finish),
        Phase::Failed(failure) => (s, ActionModel::Abort(failure)),
        _ => match event {
            EventModel::ChannelFailed => failed(s, Failure::Channel),
            EventModel::Shutdown => if s.phase is Idle {
                (SamplerState { phase: Phase::Finished, ..s }, ActionModel::Finish)
            } else {
                (SamplerState { stopping: true, ..s }, ActionModel::Wait)
            },
            EventModel::Tick => if s.phase is Idle {
                (SamplerState { phase: Phase::Pausing, ..s }, ActionModel::Send(Command::Stop))
            } else {
                (s, ActionModel::Wait)
            },
            EventModel::Reply(text) => on_reply(s, text),
            EventModel::Resolved(groups) => on_resolved(s, groups),
        },
    }
}

/// The state after the events of `events`, one after the other.
pub open spec fn run(s: SamplerState, events: Seq<EventModel>) -> SamplerState
    decreases events.len(),
{
    if events.len() == 0 {
        s
    } else {
        transition(run(s, events.drop_last()), events.last()).0
    }
}

/// No step takes a sample out of the table, and a step adds one at most.
pub proof fn lemma_step_keeps_samples(s: SamplerState, event: EventModel)
    ensures
        s.samples.subset_of(transition(s, event).0.samples),
        transition(s, event).0.samples.len() <= s.samples.len() + 1,
        transition(s, event).0.max_depth == s.max_depth,
        transition(s, event).0.patterns == s.patterns,
{
    broadcast use group_multiset_axioms;

}

/// Whatever happens in a run, every sample that was counted stays counted.
pub proof fn lemma_run_keeps_samples(s: SamplerState, events: Seq<EventModel>)
    ensures
        s.samples.subset_of(run(s, events).samples),
    decreases events.len(),
{
    broadcast use group_multiset_axioms;

    if events.len() > 0 {
        lemma_run_keeps_samples(s, events.drop_last());
        lemma_step_keeps_samples(run(s, events.drop_last()), events.last());
    }
}

/// A request to end the run that comes between two samples ends it at once,
/// with the table as it is.
pub proof fn lemma_shutdown_between_samples(s: SamplerState)
    requires
        s.phase is Idle,
    ensures
        transition(s, EventModel::Shutdown) == (
            SamplerState { phase: Phase::Finished, ..s },
            ActionModel::Finish,
        ),
{
}

/// A request to end the run that comes while a sample is in hand is kept in
/// mind: no step forgets it, none goes back to waiting for a tick, and the
/// answer to the command that lets the guest go ends the run.
pub proof fn lemma_shutdown_in_hand(s: SamplerState, event: EventModel)
    requires
        !(s.phase is Idle),
        !(s.phase is Finished),
        !(s.phase matches Phase::Failed(_)),
        s.stopping || event is Shutdown,
    ensures
        transition(s, event).0.stopping,
        !(transition(s, event).0.phase is Idle),
        !(transition(s, event).1 is AwaitTick),
        s.stopping && s.phase is Resuming && event is Reply ==> transition(s, event) == (
            SamplerState { phase: Phase::Finished, ..s },
            ActionModel::Finish,
        ),
{
}

/// Once a run was asked to end while a sample was in hand, the table is to be
/// written out however the run comes to its end: as it was asked to, or by a
/// failure of that sample.
pub proof fn lemma_output_owed(s: SamplerState, events: Seq<EventModel>)
    requires
        s.stopping,
    ensures
        run(s, events).stopping,
        (run(s, events).phase is Finished || (run(s, events).phase matches Phase::Failed(_)))
            ==> output_owed(run(s, events)),
        s.samples.subset_of(run(s, events).samples),
    decreases events.len(),
{
    lemma_run_keeps_samples(s, events);
    if events.len() > 0 {
        lemma_output_owed(s, events.drop_last());
    }
}

/// The stack of a sample never grows beyond the bound: a walk within the
/// bound stays within it at every step.
pub proof fn lemma_step_keeps_depth(s: SamplerState, event: EventModel)
    requires
        s.walk.addresses.len() <= s.max_depth,
        s.walk.max_depth == s.max_depth,
    ensures
        transition(s, event).0.walk.addresses.len() <= s.max_depth,
        transition(s, event).0.walk.max_depth == s.max_depth,
{
}

/// The settings of a run.
pub struct Settings {
    frequency: u64,
    executable: String,
    load_offset: u64,
    max_depth: usize,
    patterns: Vec<Vec<String>>,
}

impl Settings {
    /// The sampling frequency, in samples a second.
    pub closed spec fn spec_frequency(&self) -> u64 {
        self.frequency
    }

    /// The path of the executable.
    pub closed spec fn spec_executable(&self) -> Seq<char> {
        self.executable@
    }

    /// The address at which the executable is loaded.
    pub closed spec fn spec_load_offset(&self) -> u64 {
        self.load_offset
    }

    /// The bound on the depth of a stack.
    pub closed spec fn spec_max_depth(&self) -> usize {
        self.max_depth
    }

    /// The recursive call cycles to fold.
    pub closed spec fn spec_patterns(&self) -> Seq<Seq<Seq<char>>> {
        self.patterns.deep_view()
    }

    /// Checks the settings of a run. The frequency is looked at first, then the
    /// executable, then the load offset.
    pub fn new(
        frequency: u64,
        executable: Option<String>,
        load_offset: Option<u64>,
        max_depth: usize,
        patterns: Vec<Vec<String>>,
    ) -> (settings: Result<Settings, ConfigError>)
        ensures
            frequency == 0 ==> settings matches Err(ConfigError::ZeroFrequency),
            frequency != 0 && executable is None ==> settings matches Err(
                ConfigError::MissingExecutable,
            ),
            frequency != 0 && executable is Some && load_offset is None ==> settings matches Err(
                ConfigError::MissingOffset,
            ),
            frequency != 0 && executable is Some && load_offset is Some ==> (settings matches Ok(
                made,
            ) && made.wf() && made.spec_frequency() == frequency && made.spec_executable()
                == executable.unwrap()@ && made.spec_load_offset() == load_offset.unwrap()
                && made.spec_max_depth() == max_depth && made.spec_patterns()
                == patterns.deep_view()),
    {
        if frequency == 0 {
            return Err(ConfigError::ZeroFrequency);
        }
        let executable = match executable {
            None => {
                return Err(ConfigError::MissingExecutable);
            },
            Some(path) => path,
        };
        let load_offset = match load_offset {
            None => {
                return Err(ConfigError::MissingOffset);
            },
            Some(offset) => offset,
        };
        Ok(Settings { frequency, executable, load_offset, max_depth, patterns })
    }

    /// Whether the settings were checked.
    pub closed spec fn wf(&self) -> bool {
        self.frequency != 0
    }

    /// The time from one sample to the next, in nanoseconds. A frequency that
    /// leaves less than a nanosecond is refused.
    pub fn period_nanos(&self) -> (period: Result<u64, ConfigError>)
        requires
            self.wf(),
        ensures
            period == period_of(self.spec_frequency()),
            period matches Ok(nanos) ==> nanos >= 1,
    {
        if self.frequency > 1_000_000_000 {
            Err(ConfigError::FrequencyTooHigh)
        } else {
            let frequency: u64 = self.frequency;
            assert(1_000_000_000int / (frequency as int) >= 1) by (nonlinear_arith)
                requires
                    0 < frequency <= 1_000_000_000,
            ;
            Ok(1_000_000_000 / frequency)
        }
    }

    /// The sampling frequency, in samples a second.
    pub fn frequency(&self) -> (frequency: u64)
        ensures
            frequency == self.spec_frequency(),
    {
        self.frequency
    }

    /// The path of the executable.
    pub fn executable(&self) -> (path: &String)
        ensures
            path@ == self.spec_executable(),
    {
        &self.executable
    }

    /// The address at which the executable is loaded.
    pub fn load_offset(&self) -> (offset: u64)
        ensures
            offset == self.spec_load_offset(),
    {
        self.load_offset
    }

    /// The bound on the depth of a stack.
    pub fn max_depth(&self) -> (bound: usize)
        ensures
            bound == self.spec_max_depth(),
    {
        self.max_depth
    }

    /// The recursive call cycles to fold.
    pub fn patterns(&self) -> (patterns: &Vec<Vec<String>>)
        ensures
            patterns.deep_view() == self.spec_patterns(),
    {
        &self.patterns
    }
}

/// The sampler of one run.
pub struct Sampler {
    phase: Phase,
    walker: Walker,
    table: SampleTable,
    stopping: bool,
    max_depth: usize,
    patterns: Vec<Vec<String>>,
}

impl View for Sampler {
    type V = SamplerState;

    closed spec fn view(&self) -> SamplerState {
        SamplerState {
            phase: self.phase,
            walk: self.walker@,
            samples: self.table@,
            stopping: self.stopping,
            max_depth: self.max_depth as nat,
            patterns: self.patterns.deep_view(),
        }
    }
}

impl Sampler {
    /// Whether the parts of the sampler fit together.
    pub closed spec fn wf(&self) -> bool {
        &&& self.table.wf()
        &&& self.walker@.max_depth == self.max_depth
        &&& self.walker@.addresses.len() <= self.max_depth
    }

    /// A sampler at the start of a run: between two samples, with an empty
    /// table.
    pub fn new(max_depth: usize, patterns: Vec<Vec<String>>) -> (sampler: Sampler)
        ensures
            sampler.wf(),
            sampler@ == initial(max_depth as nat, patterns.deep_view()),
    {
        Sampler {
            phase: Phase::Idle,
            walker: Walker::begin(0, max_depth),
            table: SampleTable::new(),
            stopping: false,
            max_depth,
            patterns,
        }
    }

    /// Where the sampler stands in its cycle.
    pub fn phase(&self) -> (phase: Phase)
        ensures
            phase == self@.phase,
    {
        self.phase
    }

    /// The depth of the stack of the sample in hand, or of the last one. It
    /// is never above the bound.
    pub fn depth(&self) -> (depth: usize)
        requires
            self.wf(),
        ensures
            depth == self@.walk.addresses.len(),
            depth <= self@.max_depth,
    {
        self.walker.depth()
    }

    /// Whether the table is to be written out: the run is over as it was asked
    /// to be, or it failed after it was asked to end.
    pub fn output_owed(&self) -> (owed: bool)
        ensures
            owed == output_owed(self@),
    {
        match self.phase {
            Phase::Finished => true,
            Phase::Failed(_) => self.stopping,
            _ => false,
        }
    }

    /// The table as it stands.
    pub fn table(&self) -> (table: &SampleTable)
        requires
            self.wf(),
        ensures
            table.wf(),
            table@ == self@.samples,
    {
        &self.table
    }

    /// Hands out the table, and ends the sampler with it.
    pub fn into_table(self) -> (table: SampleTable)
        requires
            self.wf(),
        ensures
            table.wf(),
            table@ == self@.samples,
    {
        self.table
    }

    fn fail(&mut self, failure: Failure) -> (action: Action)
        requires
            old(self).wf(),
        ensures
            final(self).wf(),
            (final(self)@, action@) == failed(old(self)@, failure),
    {
        self.phase = Phase::Failed(failure);
        Action::Abort(failure)
    }

    fn go_on(&mut self) -> (action: Action)
        requires
            old(self).wf(),
        ensures
            final(self).wf(),
            (final(self)@, action@) == after_walk(old(self)@),
    {
        match self.walker.pending() {
            WalkStep::Read(address) => {
                self.phase = Phase::Walking;
                Action::Send(Command::Examine(address))
            },
            WalkStep::Complete => {
                self.phase = Phase::Resolving;
                Action::Resolve(self.walker.stack())
            },
            WalkStep::TooDeep => self.fail(Failure::TooDeep),
        }
    }

    fn reply(&mut self, text: Vec<u8>) -> (action: Action)
        requires
            old(self).wf(),
        ensures
            final(self).wf(),
            (final(self)@, action@) == on_reply(old(self)@, text@),
    {
        match self.phase {
            Phase::Pausing => {
                self.phase = Phase::ReadingRegisters;
                Action::Send(Command::Registers)
            },
            Phase::ReadingRegisters => match parse_registers(text.as_slice()) {
                Err(e) => self.fail(Failure::Parse(e)),
                Ok(registers) => {
                    self.walker = Walker::begin(registers.base_pointer, self.max_depth);
                    self.go_on()
                },
            },
            Phase::Walking => match parse_frame(text.as_slice()) {
                Err(e) => self.fail(Failure::Parse(e)),
                Ok(frame) => {
                    self.walker.accept(frame);
                    self.go_on()
                },
            },
            Phase::Resuming => {
                if self.stopping {
                    self.phase = Phase::Finished;
                    Action::Finish
                } else {
                    self.phase = Phase::Idle;
                    Action::AwaitTick
                }
            },
            _ => self.fail(Failure::OutOfTurn),
        }
    }

    fn resolved(&mut self, groups: Vec<Result<Vec<String>, SymbolError>>) -> (action: Action)
        requires
            old(self).wf(),
        ensures
            final(self).wf(),
            (final(self)@, action@) == on_resolved(old(self)@, groups_view(groups@)),
    {
        match self.phase {
            Phase::Resolving => {
                if self.table.total() == u64::MAX {
                    self.fail(Failure::TableFull)
                } else {
                    let text = folded_signature(&groups, &self.patterns);
                    self.table.record(text);
                    self.phase = Phase::Resuming;
                    Action::Send(Command::Cont)
                }
            },
            _ => self.fail(Failure::OutOfTurn),
        }
    }

    /// Takes an event and says what is to be done next.
    pub fn step(&mut self, event: Event) -> (action: Action)
        requires
            old(self).wf(),
        ensures
            final(self).wf(),
            (final(self)@, action@) == transition(old(self)@, event@),
    {
        match self.phase {
            Phase::Finished => {
                return Action::Finish;
            },
            Phase::Failed(failure) => {
                return Action::Abort(failure);
            },
            _ => {},
        }
        match event {
            Event::ChannelFailed => self.fail(Failure::Channel),
            Event::Shutdown => {
                match self.phase {
                    Phase::Idle => {
                        self.phase = Phase::Finished;
                        Action::Finish
                    },
                    _ => {
                        self.stopping = true;
                        Action::Wait
                    },
                }
            },
            Event::Tick => {
                match self.phase {
                    Phase::Idle => {
                        self.phase = Phase::Pausing;
                        Action::Send(Command::Stop)
                    },
                    _ => Action::Wait,
                }
            },
            Event::Reply(text) => self.reply(text),
            Event::Resolved(groups) => self.resolved(groups),
        }
    }
}

} // verus!
