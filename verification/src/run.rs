//! The run as a whole: the download client is started and logged in, then
//! every item of the manifest is placed in turn. The run is a state machine.
//! In every state it asks for one action; whoever carries the action out
//! reports what came of it, and the report moves the run to its next state.

use crate::decimal::{append_decimal, decimal, format_i64};
use crate::manifest::{item_views, Item, ItemView};
use crate::placement::{decide, placement, DirState, Placement};
use crate::poller::{after_check, delay_before, delay_millis, poll_step, PollStep, MAX_CHECKS};
use crate::protocol::{
    completes_login, download_command, download_command_text, failure_of, is_login_marker,
    login_command, login_command_text, observed, DownloadFailedError, DownloadFailedErrorView,
    DownloadState, DownloadStateView,
};
use vstd::prelude::*;

verus! {

/// How often the download of one item is attempted at most.
pub const MAX_ATTEMPTS: u8 = 3;

/// Why a run was given up.
#[derive(Clone, Debug, PartialEq, Eq)]
pub enum RunError {
    /// The download client could not be started.
    ProcessLaunch,
    /// The login command could not be written to the client.
    ChannelWrite,
    /// The client's output could not be read during the login.
    ChannelRead,
    /// The client's output ended before the login was complete.
    LoginFailed,
    /// Every attempt to download an item failed.
    DownloadFailed(DownloadFailedError),
    /// A directory could not be inspected, removed, created or copied.
    Filesystem,
}

/// The reason for giving up as a mathematical value.
pub enum RunErrorView {
    ProcessLaunch,
    ChannelWrite,
    ChannelRead,
    LoginFailed,
    DownloadFailed(DownloadFailedErrorView),
    Filesystem,
}

impl View for RunError {
    type V = RunErrorView;

    open spec fn view(&self) -> RunErrorView {
        match self {
            RunError::ProcessLaunch => RunErrorView::ProcessLaunch,
            RunError::ChannelWrite => RunErrorView::ChannelWrite,
            RunError::ChannelRead => RunErrorView::ChannelRead,
            RunError::LoginFailed => RunErrorView::LoginFailed,
            RunError::DownloadFailed(e) => RunErrorView::DownloadFailed(e@),
            RunError::Filesystem => RunErrorView::Filesystem,
        }
    }
}

/// What the user is told about the end of a run.
pub open spec fn run_error_text(e: RunErrorView) -> Seq<char> {
    match e {
        RunErrorView::ProcessLaunch => "the download client could not be started"@,
        RunErrorView::ChannelWrite => "the download client could not be written to"@,
        RunErrorView::ChannelRead => "the download client could not be read from"@,
        RunErrorView::LoginFailed => "the download client closed before the login was done"@,
        RunErrorView::DownloadFailed(e) => "Error downloading mod "@ + e.name + " ("@ + decimal(
            e.identifier as int,
        ) + ")"@,
        RunErrorView::Filesystem => "a directory could not be read, removed, created or copied"@,
    }
}

impl RunError {
    /// What the user is told.
    pub fn message(&self) -> (r: String)
        ensures
            r@ == run_error_text(self@),
    {
        match self {
            RunError::ProcessLaunch => "the download client could not be started".to_owned(),
            RunError::ChannelWrite => "the download client could not be written to".to_owned(),
            RunError::ChannelRead => "the download client could not be read from".to_owned(),
            RunError::LoginFailed => {
                "the download client closed before the login was done".to_owned()
            },
            RunError::DownloadFailed(e) => {
                let mut out = "Error downloading mod ".to_owned();
                out.append(e.name.as_str());
                out.append(" (");
                append_decimal(&mut out, e.identifier);
                out.append(")");
                out
            },
            RunError::Filesystem => {
                "a directory could not be read, removed, created or copied".to_owned()
            },
        }
    }
}

/// Where a run stands. From `Inspecting` to `Copying` the phases belong to
/// the item at the run's index.
#[derive(Clone, Debug, PartialEq, Eq)]
pub enum Phase {
    /// The download client is to be started.
    Launching,
    /// The login command is to be sent.
    LoggingIn,
    /// The client's output is read until it reports the login as complete.
    AwaitingLogin,
    /// The item's two directories are to be looked at.
    Inspecting,
    /// The item's destination is to be removed, and after it the staging
    /// directory if `remove_staging` is set.
    RemovingDestination { remove_staging: bool },
    /// The item's staging directory is to be removed.
    RemovingStaging,
    /// The download request is to be sent, for the attempt with this index:
    /// the download is idle. If `create` is set, the destination has to be
    /// created once the item is there.
    Requesting { attempt: u8, create: bool },
    /// The download is requested: the client's output is read until it
    /// reports on the item. The end of the output is no report, and the
    /// request stays open.
    AwaitingOutcome { attempt: u8, create: bool },
    /// The staging directory is waited for; the check with this index is next.
    Settling { check: u8, create: bool },
    /// The item's destination is to be created.
    CreatingDestination,
    /// The staging directory's contents are to be copied to the destination.
    Copying,
    /// Every item is placed.
    Finished,
    /// The run was given up.
    Aborted(RunError),
}

/// A phase as a mathematical value.
pub enum PhaseView {
    Launching,
    LoggingIn,
    AwaitingLogin,
    Inspecting,
    RemovingDestination { remove_staging: bool },
    RemovingStaging,
    Requesting { attempt: u8, create: bool },
    AwaitingOutcome { attempt: u8, create: bool },
    Settling { check: u8, create: bool },
    CreatingDestination,
    Copying,
    Finished,
    Aborted(RunErrorView),
}

impl View for Phase {
    type V = PhaseView;

    open spec fn view(&self) -> PhaseView {
        match self {
            Phase::Launching => PhaseView::Launching,
            Phase::LoggingIn => PhaseView::LoggingIn,
            Phase::AwaitingLogin => PhaseView::AwaitingLogin,
            Phase::Inspecting => PhaseView::Inspecting,
            Phase::RemovingDestination { remove_staging } => PhaseView::RemovingDestination {
                remove_staging: *remove_staging,
            },
            Phase::RemovingStaging => PhaseView::RemovingStaging,
            Phase::Requesting { attempt, create } => PhaseView::Requesting {
                attempt: *attempt,
                create: *create,
            },
            Phase::AwaitingOutcome { attempt, create } => PhaseView::AwaitingOutcome {
                attempt: *attempt,
                create: *create,
            },
            Phase::Settling { check, create } => PhaseView::Settling {
                check: *check,
                create: *create,
            },
            Phase::CreatingDestination => PhaseView::CreatingDestination,
            Phase::Copying => PhaseView::Copying,
            Phase::Finished => PhaseView::Finished,
            Phase::Aborted(e) => PhaseView::Aborted(e@),
        }
    }
}

/// What is to be done next. A directory is named by the decimal notation of
/// its item's identifier; it lies under the destination root or under the
/// staging root.
#[derive(Clone, Debug, PartialEq, Eq)]
pub enum Action {
    /// Start the download client.
    Launch,
    /// Write this command, as one line, to the client.
    Send(String),
    /// Read one line of the client's output.
    Read,
    /// Look at the destination and the staging directory of this name.
    Inspect(String),
    /// Remove the destination of this name with all it holds.
    RemoveDestination(String),
    /// Remove the staging directory of this name with all it holds.
    RemoveStaging(String),
    /// Pause for so many milliseconds, then see whether the staging
    /// directory of this name is there.
    Probe { delay_millis: u64, directory: String },
    /// Create the destination of this name.
    CreateDestination(String),
    /// Copy what the staging directory of this name holds into the
    /// destination of the same name.
    CopyStaging(String),
    /// Stop: every item is placed.
    Finish,
    /// Stop: the run is given up for this reason.
    Abort(RunError),
}

/// An action as a mathematical value.
pub enum ActionView {
    Launch,
    Send(Seq<char>),
    Read,
    Inspect(Seq<char>),
    RemoveDestination(Seq<char>),
    RemoveStaging(Seq<char>),
    Probe { delay_millis: u64, directory: Seq<char> },
    CreateDestination(Seq<char>),
    CopyStaging(Seq<char>),
    Finish,
    Abort(RunErrorView),
}

impl View for Action {
    type V = ActionView;

    open spec fn view(&self) -> ActionView {
        match self {
            Action::Launch => ActionView::Launch,
            Action::Send(command) => ActionView::Send(command@),
            Action::Read => ActionView::Read,
            Action::Inspect(directory) => ActionView::Inspect(directory@),
            Action::RemoveDestination(directory) => ActionView::RemoveDestination(directory@),
            Action::RemoveStaging(directory) => ActionView::RemoveStaging(directory@),
            Action::Probe { delay_millis, directory } => ActionView::Probe {
                delay_millis: *delay_millis,
                directory: directory@,
            },
            Action::CreateDestination(directory) => ActionView::CreateDestination(directory@),
            Action::CopyStaging(directory) => ActionView::CopyStaging(directory@),
            Action::Finish => ActionView::Finish,
            Action::Abort(e) => ActionView::Abort(e@),
        }
    }
}

/// What came of an action.
#[derive(Clone, Debug, PartialEq, Eq)]
pub enum Event {
    /// The action was carried out: the client started, the command was
    /// written, the directory was removed, created or copied.
    Completed,
    /// The action could not be carried out.
    Failed,
    /// A line of the client's output, as it was read.
    Line(String),
    /// The client's output has ended.
    EndOfStream,
    /// What was found at the two directories of an item.
    Inspected { destination: DirState, staging: DirState },
    /// Whether the staging directory was there after the pause.
    Observed { present: bool },
}

/// An event as a mathematical value.
pub enum EventView {
    Completed,
    Failed,
    Line(Seq<char>),
    EndOfStream,
    Inspected { destination: DirState, staging: DirState },
    Observed { present: bool },
}

impl View for Event {
    type V = EventView;

    open spec fn view(&self) -> EventView {
        match self {
            Event::Completed => EventView::Completed,
            Event::Failed => EventView::Failed,
            Event::Line(line) => EventView::Line(line@),
            Event::EndOfStream => EventView::EndOfStream,
            Event::Inspected { destination, staging } => EventView::Inspected {
                destination: *destination,
                staging: *staging,
            },
            Event::Observed { present } => EventView::Observed { present: *present },
        }
    }
}

/// A run as a mathematical value: the items to place, whether they are to be
/// refreshed, the index of the item in hand, and the phase.
pub struct RunView {
    pub items: Seq<ItemView>,
    pub clean: bool,
    pub index: nat,
    pub phase: PhaseView,
}

/// The name of the directories of the item `identifier`.
pub open spec fn directory_name(identifier: i64) -> Seq<char> {
    decimal(identifier as int)
}

/// The phase belongs to the item in hand.
pub open spec fn concerns_item(phase: PhaseView) -> bool {
    !(phase is Launching || phase is LoggingIn || phase is AwaitingLogin || phase is Finished
        || phase is Aborted)
}

/// A run is well formed when its index points at an item whenever the phase
/// belongs to one, and attempts and checks are within their limits.
pub open spec fn well_formed(s: RunView) -> bool {
    &&& s.index <= s.items.len()
    &&& concerns_item(s.phase) ==> s.index < s.items.len()
    &&& s.phase is Launching || s.phase is LoggingIn || s.phase is AwaitingLogin ==> s.index == 0
    &&& s.phase is Finished ==> s.index == s.items.len()
    &&& s.phase matches PhaseView::Requesting { attempt, .. } ==> attempt < MAX_ATTEMPTS
    &&& s.phase matches PhaseView::AwaitingOutcome { attempt, .. } ==> attempt < MAX_ATTEMPTS
    &&& s.phase matches PhaseView::Settling { check, .. } ==> check < MAX_CHECKS
}

/// A run before anything was done.
pub open spec fn initial(items: Seq<ItemView>, clean: bool) -> RunView {
    RunView { items, clean, index: 0, phase: PhaseView::Launching }
}

/// The run in another phase.
pub open spec fn in_phase(s: RunView, phase: PhaseView) -> RunView {
    RunView { phase, ..s }
}

/// The run at the start of the item `index`, or finished if there is none.
pub open spec fn at_item(s: RunView, index: nat) -> RunView {
    RunView {
        index,
        phase: if index < s.items.len() {
            PhaseView::Inspecting
        } else {
            PhaseView::Finished
        },
        ..s
    }
}

/// The phase in which the staging directory's contents get to the
/// destination.
pub open spec fn delivering(create: bool) -> PhaseView {
    if create {
        PhaseView::CreatingDestination
    } else {
        PhaseView::Copying
    }
}

/// The phase in which a download begins with its removals, if any.
pub open spec fn downloading(remove_destination: bool, remove_staging: bool, create: bool)
    -> PhaseView {
    if remove_destination {
        PhaseView::RemovingDestination { remove_staging }
    } else if remove_staging {
        PhaseView::RemovingStaging
    } else {
        PhaseView::Requesting { attempt: 0, create }
    }
}

/// The phase after the attempt with index `attempt` has failed: the next
/// attempt, or the end of the run after the last one.
pub open spec fn after_failure(item: ItemView, attempt: u8, create: bool) -> PhaseView {
    if attempt + 1 < MAX_ATTEMPTS {
        PhaseView::Requesting { attempt: (attempt + 1) as u8, create }
    } else {
        PhaseView::Aborted(RunErrorView::DownloadFailed(failure_of(item)))
    }
}

/// The action a run asks for.
pub open spec fn pending(s: RunView) -> ActionView {
    match s.phase {
        PhaseView::Launching => ActionView::Launch,
        PhaseView::LoggingIn => ActionView::Send(login_command_text()),
        PhaseView::AwaitingLogin => ActionView::Read,
        PhaseView::Finished => ActionView::Finish,
        PhaseView::Aborted(e) => ActionView::Abort(e),
        _ => if s.index >= s.items.len() {
            ActionView::Finish
        } else {
            let item = s.items[s.index as int];
            let directory = directory_name(item.identifier);
            match s.phase {
                PhaseView::Inspecting => ActionView::Inspect(directory),
                PhaseView::RemovingDestination { .. } => ActionView::RemoveDestination(directory),
                PhaseView::RemovingStaging => ActionView::RemoveStaging(directory),
                PhaseView::Requesting { .. } => ActionView::Send(
                    download_command_text(item.identifier),
                ),
                PhaseView::AwaitingOutcome { .. } => ActionView::Read,
                PhaseView::Settling { check, .. } => ActionView::Probe {
                    delay_millis: delay_before(check as nat) as u64,
                    directory,
                },
                PhaseView::CreatingDestination => ActionView::CreateDestination(directory),
                _ => ActionView::CopyStaging(directory),
            }
        },
    }
}

/// The run after `event` was reported. An event that does not answer the
/// pending action leaves the run as it is.
pub open spec fn next(s: RunView, event: EventView) -> RunView {
    match s.phase {
        PhaseView::Launching => match event {
            EventView::Completed => in_phase(s, PhaseView::LoggingIn),
            EventView::Failed => in_phase(s, PhaseView::Aborted(RunErrorView::ProcessLaunch)),
            _ => s,
        },
        PhaseView::LoggingIn => match event {
            EventView::Completed => in_phase(s, PhaseView::AwaitingLogin),
            EventView::Failed => in_phase(s, PhaseView::Aborted(RunErrorView::ChannelWrite)),
            _ => s,
        },
        PhaseView::AwaitingLogin => match event {
            EventView::Line(line) => if completes_login(line) {
                at_item(s, 0)
            } else {
                s
            },
            EventView::EndOfStream => in_phase(s, PhaseView::Aborted(RunErrorView::LoginFailed)),
            EventView::Failed => in_phase(s, PhaseView::Aborted(RunErrorView::ChannelRead)),
            _ => s,
        },
        PhaseView::Finished => s,
        PhaseView::Aborted(_) => s,
        _ => if s.index >= s.items.len() {
            s
        } else {
            next_for_item(s, s.items[s.index as int], event)
        },
    }
}

/// The run after `event` was reported in a phase that belongs to `item`.
/// While the answer to a request is awaited, only a line about the item or a
/// failure to read moves the run: the end of the output changes nothing.
pub open spec fn next_for_item(s: RunView, item: ItemView, event: EventView) -> RunView {
    let failed = in_phase(s, PhaseView::Aborted(RunErrorView::Filesystem));
    match s.phase {
        PhaseView::Inspecting => match event {
            EventView::Inspected { destination, staging } => match placement(
                s.clean,
                destination,
                staging,
            ) {
                Placement::Skip => at_item(s, s.index + 1),
                Placement::Reuse { create } => in_phase(s, delivering(create)),
                Placement::Download { remove_destination, remove_staging, create } => in_phase(
                    s,
                    downloading(remove_destination, remove_staging, create),
                ),
            },
            EventView::Failed => failed,
            _ => s,
        },
        PhaseView::RemovingDestination { remove_staging } => match event {
            EventView::Completed => in_phase(s, downloading(false, remove_staging, true)),
            EventView::Failed => failed,
            _ => s,
        },
        PhaseView::RemovingStaging => match event {
            EventView::Completed => in_phase(s, downloading(false, false, true)),
            EventView::Failed => failed,
            _ => s,
        },
        PhaseView::Requesting { attempt, create } => match event {
            EventView::Completed => in_phase(s, PhaseView::AwaitingOutcome { attempt, create }),
            EventView::Failed => in_phase(s, after_failure(item, attempt, create)),
            _ => s,
        },
        PhaseView::AwaitingOutcome { attempt, create } => match event {
            EventView::Line(line) => match observed(DownloadStateView::Requested, item, line) {
                DownloadStateView::Succeeded => in_phase(
                    s,
                    PhaseView::Settling { check: 0, create },
                ),
                DownloadStateView::Failed(_) => in_phase(s, after_failure(item, attempt, create)),
                _ => s,
            },
            EventView::Failed => in_phase(s, after_failure(item, attempt, create)),
            _ => s,
        },
        PhaseView::Settling { check, create } => match event {
            EventView::Observed { present } => match poll_step(check, present) {
                PollStep::Proceed => in_phase(s, delivering(create)),
                PollStep::Again(check) => in_phase(s, PhaseView::Settling { check, create }),
            },
            _ => s,
        },
        PhaseView::CreatingDestination => match event {
            EventView::Completed => in_phase(s, PhaseView::Copying),
            EventView::Failed => failed,
            _ => s,
        },
        PhaseView::Copying => match event {
            EventView::Completed => at_item(s, s.index + 1),
            EventView::Failed => failed,
            _ => s,
        },
        _ => s,
    }
}

/// The run after the events were reported one after the other.
pub open spec fn after(s: RunView, events: Seq<EventView>) -> RunView
    decreases events.len(),
{
    if events.len() == 0 {
        s
    } else {
        next(after(s, events.drop_last()), events.last())
    }
}

/// A run: the items of a manifest and how far their placing has come.
#[derive(Debug)]
pub struct Run {
    items: Vec<Item>,
    clean: bool,
    index: usize,
    phase: Phase,
}

impl View for Run {
    type V = RunView;

    closed spec fn view(&self) -> RunView {
        RunView {
            items: item_views(self.items@),
            clean: self.clean,
            index: self.index as nat,
            phase: self.phase@,
        }
    }
}

/// A copy of the reason.
fn copy_of(e: &RunError) -> (r: RunError)
    ensures
        r@ == e@,
{
    match e {
        RunError::ProcessLaunch => RunError::ProcessLaunch,
        RunError::ChannelWrite => RunError::ChannelWrite,
        RunError::ChannelRead => RunError::ChannelRead,
        RunError::LoginFailed => RunError::LoginFailed,
        RunError::DownloadFailed(e) => RunError::DownloadFailed(
            DownloadFailedError { name: e.name.clone(), identifier: e.identifier },
        ),
        RunError::Filesystem => RunError::Filesystem,
    }
}

/// The phase in which the staging directory's contents get to the
/// destination.
fn deliver(create: bool) -> (r: Phase)
    ensures
        r@ == delivering(create),
{
    if create {
        Phase::CreatingDestination
    } else {
        Phase::Copying
    }
}

/// The phase in which a download begins.
fn download(remove_destination: bool, remove_staging: bool, create: bool) -> (r: Phase)
    ensures
        r@ == downloading(remove_destination, remove_staging, create),
{
    if remove_destination {
        Phase::RemovingDestination { remove_staging }
    } else if remove_staging {
        Phase::RemovingStaging
    } else {
        Phase::Requesting { attempt: 0, create }
    }
}

/// The phase after a failed attempt.
fn fail_attempt(item: &Item, attempt: u8, create: bool) -> (r: Phase)
    ensures
        r@ == after_failure(item@, attempt, create),
{
    if attempt < MAX_ATTEMPTS - 1 {
        Phase::Requesting { attempt: attempt + 1, create }
    } else {
        Phase::Aborted(
            RunError::DownloadFailed(
                DownloadFailedError {
                    name: item.display_name.clone(),
                    identifier: item.identifier,
                },
            ),
        )
    }
}

impl Run {
    /// A run that is to place `items`, refreshing them if `clean` is set.
    pub fn new(items: Vec<Item>, clean: bool) -> (r: Run)
        ensures
            r@ == initial(item_views(items@), clean),
            well_formed(r@),
    {
        Run { items, clean, index: 0, phase: Phase::Launching }
    }

    /// The phase the run is in.
    pub fn phase(&self) -> (r: &Phase)
        ensures
            r@ == self@.phase,
    {
        &self.phase
    }

    /// The index of the item in hand.
    pub fn index(&self) -> (r: usize)
        ensures
            r == self@.index,
    {
        self.index
    }

    /// The item in hand, unless the run has gone through all of them.
    pub fn item(&self) -> (r: Option<&Item>)
        ensures
            r is Some <==> self@.index < self@.items.len(),
            r matches Some(item) ==> item@ == self@.items[self@.index as int],
    {
        if self.index < self.items.len() {
            Some(&self.items[self.index])
        } else {
            None
        }
    }

    /// The action the run asks for.
    pub fn action(&self) -> (r: Action)
        ensures
            r@ == pending(self@),
    {
        match &self.phase {
            Phase::Launching => Action::Launch,
            Phase::LoggingIn => Action::Send(login_command()),
            Phase::AwaitingLogin => Action::Read,
            Phase::Finished => Action::Finish,
            Phase::Aborted(e) => Action::Abort(copy_of(e)),
            phase => {
                if self.index >= self.items.len() {
                    return Action::Finish;
                }
                let item = &self.items[self.index];
                assert(item@ == self@.items[self@.index as int]);
                match phase {
                    Phase::Requesting { .. } => Action::Send(download_command(item.identifier)),
                    Phase::AwaitingOutcome { .. } => Action::Read,
                    Phase::Inspecting => Action::Inspect(format_i64(item.identifier)),
                    Phase::RemovingDestination { .. } => Action::RemoveDestination(
                        format_i64(item.identifier),
                    ),
                    Phase::RemovingStaging => Action::RemoveStaging(format_i64(item.identifier)),
                    Phase::Settling { check, .. } => Action::Probe {
                        delay_millis: delay_millis(*check),
                        directory: format_i64(item.identifier),
                    },
                    Phase::CreatingDestination => Action::CreateDestination(
                        format_i64(item.identifier),
                    ),
                    _ => Action::CopyStaging(format_i64(item.identifier)),
                }
            },
        }
    }

    /// Takes in what came of the pending action.
    pub fn advance(&mut self, event: Event)
        ensures
            final(self)@ == next(old(self)@, event@),
            well_formed(old(self)@) ==> well_formed(final(self)@),
    {
        proof {
            lemma_next_keeps_well_formed(self@, event@);
        }
        let count = self.items.len();
        let mut index = self.index;
        let moved: Option<Phase> = match &self.phase {
            Phase::Launching => match event {
                Event::Completed => Some(Phase::LoggingIn),
                Event::Failed => Some(Phase::Aborted(RunError::ProcessLaunch)),
                _ => None,
            },
            Phase::LoggingIn => match event {
                Event::Completed => Some(Phase::AwaitingLogin),
                Event::Failed => Some(Phase::Aborted(RunError::ChannelWrite)),
                _ => None,
            },
            Phase::AwaitingLogin => match event {
                Event::Line(line) => if is_login_marker(line.as_str()) {
                    index = 0;
                    Some(
                        if 0 < count {
                            Phase::Inspecting
                        } else {
                            Phase::Finished
                        },
                    )
                } else {
                    None
                },
                Event::EndOfStream => Some(Phase::Aborted(RunError::LoginFailed)),
                Event::Failed => Some(Phase::Aborted(RunError::ChannelRead)),
                _ => None,
            },
            Phase::Finished => None,
            Phase::Aborted(_) => None,
            phase => {
                if index >= count {
                    None
                } else {
                    let item = &self.items[index];
                    assert(item@ == self@.items[self@.index as int]);
                    let following = if index + 1 < count {
                        Phase::Inspecting
                    } else {
                        Phase::Finished
                    };
                    match phase {
                        Phase::Inspecting => match event {
                            Event::Inspected { destination, staging } => match decide(
                                self.clean,
                                destination,
                                staging,
                            ) {
                                Placement::Skip => {
                                    index = index + 1;
                                    Some(following)
                                },
                                Placement::Reuse { create } => Some(deliver(create)),
                                Placement::Download {
                                    remove_destination,
                                    remove_staging,
                                    create,
                                } => Some(download(remove_destination, remove_staging, create)),
                            },
                            Event::Failed => Some(Phase::Aborted(RunError::Filesystem)),
                            _ => None,
                        },
                        Phase::RemovingDestination { remove_staging } => match event {
                            Event::Completed => Some(download(false, *remove_staging, true)),
                            Event::Failed => Some(Phase::Aborted(RunError::Filesystem)),
                            _ => None,
                        },
                        Phase::RemovingStaging => match event {
                            Event::Completed => Some(download(false, false, true)),
                            Event::Failed => Some(Phase::Aborted(RunError::Filesystem)),
                            _ => None,
                        },
                        Phase::Requesting { attempt, create } => match event {
                            Event::Completed => Some(
                                Phase::AwaitingOutcome { attempt: *attempt, create: *create },
                            ),
                            Event::Failed => Some(fail_attempt(item, *attempt, *create)),
                            _ => None,
                        },
                        Phase::AwaitingOutcome { attempt, create } => match event {
                            Event::Line(line) => match DownloadState::Requested.observe(
                                item,
                                line.as_str(),
                            ) {
                                DownloadState::Succeeded => Some(
                                    Phase::Settling { check: 0, create: *create },
                                ),
                                DownloadState::Failed(_) => Some(
                                    fail_attempt(item, *attempt, *create),
                                ),
                                _ => None,
                            },
                            Event::Failed => Some(fail_attempt(item, *attempt, *create)),
                            _ => None,
                        },
                        Phase::Settling { check, create } => match event {
                            Event::Observed { present } => match after_check(*check, present) {
                                PollStep::Proceed => Some(deliver(*create)),
                                PollStep::Again(check) => Some(
                                    Phase::Settling { check, create: *create },
                                ),
                            },
                            _ => None,
                        },
                        Phase::CreatingDestination => match event {
                            Event::Completed => Some(Phase::Copying),
                            Event::Failed => Some(Phase::Aborted(RunError::Filesystem)),
                            _ => None,
                        },
                        Phase::Copying => match event {
                            Event::Completed => {
                                index = index + 1;
                                Some(following)
                            },
                            Event::Failed => Some(Phase::Aborted(RunError::Filesystem)),
                            _ => None,
                        },
                        _ => None,
                    }
                }
            },
        };
        match moved {
            Some(phase) => {
                self.index = index;
                self.phase = phase;
            },
            None => {},
        }
    }
}

/// The action makes use of the download client.
pub open spec fn contacts_client(action: ActionView) -> bool {
    action is Launch || action is Send || action is Read
}

/// The action changes what is on disk.
pub open spec fn modifies_directories(action: ActionView) -> bool {
    action is RemoveDestination || action is RemoveStaging || action is CreateDestination
        || action is CopyStaging
}

/// `event` reports that the download attempt under way has failed: the
/// request could not be written, the answer could not be read, or the answer
/// is the client's report of failure for the item in hand.
pub open spec fn fails_attempt(s: RunView, event: EventView) -> bool {
    s.index < s.items.len() && match s.phase {
        PhaseView::Requesting { .. } => event is Failed,
        PhaseView::AwaitingOutcome { .. } => event is Failed || (event matches EventView::Line(line)
            && observed(DownloadStateView::Requested, s.items[s.index as int], line) is Failed),
        _ => false,
    }
}

/// Whatever is reported, a well-formed run stays well formed.
pub proof fn lemma_next_keeps_well_formed(s: RunView, event: EventView)
    ensures
        well_formed(s) ==> well_formed(next(s, event)),
{
}

/// A run never goes back to an earlier item.
pub proof fn lemma_index_never_decreases(s: RunView, events: Seq<EventView>)
    requires
        well_formed(s),
    ensures
        well_formed(after(s, events)),
        after(s, events).index >= s.index,
    decreases events.len(),
{
    if events.len() > 0 {
        lemma_index_never_decreases(s, events.drop_last());
        lemma_next_keeps_well_formed(after(s, events.drop_last()), events.last());
    }
}

/// A run that is finished or given up stays as it is, whatever is reported.
pub proof fn lemma_end_is_final(s: RunView, events: Seq<EventView>)
    requires
        s.phase is Finished || s.phase is Aborted,
    ensures
        after(s, events) == s,
    decreases events.len(),
{
    if events.len() > 0 {
        lemma_end_is_final(s, events.drop_last());
    }
}

/// An item whose destination is populated is left alone unless a refresh is
/// asked for: the run goes straight on to the next item, so the action that
/// follows the inspection neither makes use of the download client nor
/// changes anything on disk, and the run never comes back to the item.
pub proof fn lemma_satisfied_item_is_left_alone(
    s: RunView,
    staging: DirState,
    later: Seq<EventView>,
)
    requires
        well_formed(s),
        s.phase is Inspecting,
        !s.clean,
    ensures
        ({
            let t = next(s, EventView::Inspected { destination: DirState::Populated, staging });
            &&& t == at_item(s, s.index + 1)
            &&& !contacts_client(pending(t))
            &&& !modifies_directories(pending(t))
            &&& after(t, later).index > s.index
        }),
{
    let t = next(s, EventView::Inspected { destination: DirState::Populated, staging });
    lemma_index_never_decreases(t, later);
}

/// Under a refresh, the directories of an item that are there are removed
/// before the item is requested: after the inspection the run asks for the
/// removal of the destination if there is one, then for the removal of the
/// staging directory if there is one, and only then sends the request.
pub proof fn lemma_refresh_removes_first(s: RunView, destination: DirState, staging: DirState)
    requires
        well_formed(s),
        s.phase is Inspecting,
        s.clean,
    ensures
        ({
            let item = s.items[s.index as int];
            let directory = directory_name(item.identifier);
            let inspected = next(s, EventView::Inspected { destination, staging });
            let cleared = if destination != DirState::Absent {
                next(inspected, EventView::Completed)
            } else {
                inspected
            };
            let ready = if staging != DirState::Absent {
                next(cleared, EventView::Completed)
            } else {
                cleared
            };
            &&& destination != DirState::Absent ==> pending(inspected)
                == ActionView::RemoveDestination(directory)
            &&& staging != DirState::Absent ==> pending(cleared) == ActionView::RemoveStaging(
                directory,
            )
            &&& ready.phase == PhaseView::Requesting { attempt: 0, create: true }
            &&& pending(ready) == ActionView::Send(download_command_text(item.identifier))
        }),
{
}

/// While a removal is pending, nothing but the report that it was done
/// leads on: any other report leaves the run where it is or ends it.
pub proof fn lemma_removal_is_awaited(s: RunView, event: EventView)
    requires
        s.phase is RemovingDestination || s.phase is RemovingStaging,
        !(event is Completed),
    ensures
        next(s, event) == s || next(s, event).phase is Aborted,
{
}

/// A failed attempt is followed by the next attempt for the same item, and
/// the third failed attempt by the end of the run.
pub proof fn lemma_failed_attempt(s: RunView, event: EventView)
    requires
        well_formed(s),
        fails_attempt(s, event),
    ensures
        ({
            let item = s.items[s.index as int];
            let t = next(s, event);
            &&& t.index == s.index
            &&& s.phase matches PhaseView::Requesting { attempt, create } ==> t.phase
                == after_failure(item, attempt, create)
            &&& s.phase matches PhaseView::AwaitingOutcome { attempt, create } ==> t.phase
                == after_failure(item, attempt, create)
        }),
{
}

/// The run after the pending request was written and `answer` was reported
/// as what came of reading.
pub open spec fn after_request(s: RunView, answer: EventView) -> RunView {
    next(next(s, EventView::Completed), answer)
}

/// Three requests for one item that are each answered by a failure end the
/// run: it is given up with the item's name and identifier, and whatever is
/// reported later, it stays given up at that item, so no item after it is
/// ever taken in hand.
pub proof fn lemma_three_failures_abort(
    s: RunView,
    first: EventView,
    second: EventView,
    third: EventView,
    later: Seq<EventView>,
)
    requires
        well_formed(s),
        s.phase matches PhaseView::Requesting { attempt, .. } && attempt == 0,
        fails_attempt(next(s, EventView::Completed), first),
        fails_attempt(next(after_request(s, first), EventView::Completed), second),
        fails_attempt(
            next(after_request(after_request(s, first), second), EventView::Completed),
            third,
        ),
    ensures
        ({
            let item = s.items[s.index as int];
            let given_up = RunErrorView::DownloadFailed(failure_of(item));
            let t = after_request(after_request(after_request(s, first), second), third);
            &&& t == in_phase(s, PhaseView::Aborted(given_up))
            &&& pending(t) == ActionView::Abort(given_up)
            &&& after(t, later) == t
        }),
{
    let s1 = next(s, EventView::Completed);
    lemma_failed_attempt(s1, first);
    let s2 = next(s1, first);
    let s3 = next(s2, EventView::Completed);
    lemma_failed_attempt(s3, second);
    let s4 = next(s3, second);
    let s5 = next(s4, EventView::Completed);
    lemma_failed_attempt(s5, third);
    let t = next(s5, third);
    lemma_end_is_final(t, later);
}

/// The client is waited for until it has logged in: only the line that is
/// the login marker leads on to the items, the end of the output and a
/// failure to read end the run, and everything else is passed over.
pub proof fn lemma_login_needs_the_marker(s: RunView, event: EventView)
    requires
        well_formed(s),
        s.phase is AwaitingLogin,
    ensures
        ({
            let t = next(s, event);
            &&& pending(s) == ActionView::Read
            &&& (event matches EventView::Line(line) && completes_login(line)) ==> t == at_item(s, 0)
            &&& event is EndOfStream ==> t.phase == PhaseView::Aborted(RunErrorView::LoginFailed)
            &&& event is Failed ==> t.phase == PhaseView::Aborted(RunErrorView::ChannelRead)
            &&& !(event matches EventView::Line(line) && completes_login(line)) && !(event
                is EndOfStream) && !(event is Failed) ==> t == s
        }),
{
}

/// The phase lies between the client's report of success and the end of the
/// item's placing.
pub open spec fn placing(phase: PhaseView) -> bool {
    phase is Settling || phase is CreatingDestination || phase is Copying
}

/// From a phase of placing, the run stays with placing until it goes on to
/// the next item or is given up.
proof fn lemma_placing_goes_on(s: RunView, events: Seq<EventView>)
    requires
        well_formed(s),
        placing(s.phase),
    ensures
        ({
            let u = after(s, events);
            &&& well_formed(u)
            &&& u.index >= s.index
            &&& u.index == s.index ==> placing(u.phase) || u.phase is Aborted
        }),
    decreases events.len(),
{
    if events.len() > 0 {
        lemma_placing_goes_on(s, events.drop_last());
        lemma_next_keeps_well_formed(after(s, events.drop_last()), events.last());
    }
}

/// Once the client has reported an item as downloaded, the staging
/// directory is waited for, and nothing more is asked of the client for that
/// item, whatever is reported later.
pub proof fn lemma_success_ends_the_conversation(
    s: RunView,
    line: Seq<char>,
    later: Seq<EventView>,
)
    requires
        well_formed(s),
        s.phase is AwaitingOutcome,
        observed(DownloadStateView::Requested, s.items[s.index as int], line) is Succeeded,
    ensures
        ({
            let t = next(s, EventView::Line(line));
            let u = after(t, later);
            &&& t == in_phase(
                s,
                PhaseView::Settling { check: 0, create: s.phase->AwaitingOutcome_create },
            )
            &&& u.index >= s.index
            &&& u.index == s.index ==> !contacts_client(pending(u))
        }),
{
    let t = next(s, EventView::Line(line));
    lemma_next_keeps_well_formed(s, EventView::Line(line));
    lemma_placing_goes_on(t, later);
}

/// What an earlier run left in the staging directory is placed without a
/// download: unless a refresh is asked for, an item whose destination is not
/// populated and whose staging directory is gets its destination created if
/// there is none, then the copy, and nothing is asked of the client for it.
pub proof fn lemma_leftover_is_placed(s: RunView, destination: DirState, later: Seq<EventView>)
    requires
        well_formed(s),
        s.phase is Inspecting,
        !s.clean,
        destination != DirState::Populated,
    ensures
        ({
            let t = next(s, EventView::Inspected { destination, staging: DirState::Populated });
            let u = after(t, later);
            &&& t == in_phase(s, delivering(destination == DirState::Absent))
            &&& u.index >= s.index
            &&& u.index == s.index ==> !contacts_client(pending(u))
        }),
{
    let t = next(s, EventView::Inspected { destination, staging: DirState::Populated });
    lemma_placing_goes_on(t, later);
}

/// While the staging directory is waited for, each check is preceded by its
/// pause, the first check that finds the directory ends the waiting, and so
/// does the tenth check whatever it finds.
pub proof fn lemma_settling_is_bounded(s: RunView, present: bool)
    requires
        well_formed(s),
        s.phase is Settling,
    ensures
        ({
            let item = s.items[s.index as int];
            let check = s.phase->Settling_check;
            let create = s.phase->Settling_create;
            let t = next(s, EventView::Observed { present });
            &&& pending(s) == ActionView::Probe {
                delay_millis: (check * 250) as u64,
                directory: directory_name(item.identifier),
            }
            &&& present || check + 1 == MAX_CHECKS ==> t == in_phase(s, delivering(create))
            &&& !present && check + 1 < MAX_CHECKS ==> t == in_phase(
                s,
                PhaseView::Settling { check: (check + 1) as u8, create },
            )
        }),
{
}

} // verus!
