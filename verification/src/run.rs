//! The run of one download, from its folder to its result.
//!
//! The run decides; its caller does what [`Run::action`] asks for and reports
//! what came of it to [`Run::step`].

use vstd::prelude::*;
use crate::board::JobBoard;
use crate::job::{
    counts_up, line_counts_up, outcome_view, same_identity, Job, JobStatus, JobView, Outcome,
    ProgressView,
};
use crate::path::{joined, path_join};
use crate::source::Tool;
use crate::text::{is_white_space, lemma_not_blank, occurs, texts, trimmed};

verus! {

/// What came of reading a line.
pub enum Read {
    Line(String),
    End,
    Failed,
}

/// What has happened.
pub enum Event {
    /// The folder was created, or could not be.
    FolderTried,
    /// The means to cancel the run is in place.
    CancelRegistered,
    /// The program was started.
    Launched,
    /// The program could not be started, and why.
    LaunchFailed(String),
    /// Somebody asked for the run to be cancelled.
    CancelRequested,
    /// The program's standard output was read.
    Stdout(Read),
    /// The program's standard error was read.
    Stderr(Read),
    /// The program was killed.
    Killed,
    /// The program ended, and how.
    Exited { success: bool, status: String },
    /// The program's end could not be waited for, and why.
    WaitFailed(String),
    /// The means to cancel the run is gone.
    CancelReleased,
}

/// What is to be done next.
#[derive(Clone, Copy, Debug, PartialEq, Eq, Structural)]
pub enum Action {
    CreateFolder,
    RegisterCancel,
    Launch,
    Listen,
    Kill,
    Wait,
    ReleaseCancel,
    Stop,
}

/// How far the run has come.
enum Phase {
    Folder,
    Register,
    Launch,
    Stream,
    Kill,
    Reap,
    Release(Outcome),
    Finished,
}

#[verifier::ext_equal]
pub enum PhaseView {
    Folder,
    Register,
    Launch,
    Stream,
    Kill,
    Reap,
    Release(Result<(), Seq<char>>),
    Finished,
}

impl Phase {
    spec fn view(self) -> PhaseView {
        match self {
            Phase::Folder => PhaseView::Folder,
            Phase::Register => PhaseView::Register,
            Phase::Launch => PhaseView::Launch,
            Phase::Stream => PhaseView::Stream,
            Phase::Kill => PhaseView::Kill,
            Phase::Reap => PhaseView::Reap,
            Phase::Release(r) => PhaseView::Release(outcome_view(r)),
            Phase::Finished => PhaseView::Finished,
        }
    }
}

impl PhaseView {
    /// What is to be done next.
    pub open spec fn action(self) -> Action {
        match self {
            PhaseView::Folder => Action::CreateFolder,
            PhaseView::Register => Action::RegisterCancel,
            PhaseView::Launch => Action::Launch,
            PhaseView::Stream => Action::Listen,
            PhaseView::Kill => Action::Kill,
            PhaseView::Reap => Action::Wait,
            PhaseView::Release(_) => Action::ReleaseCancel,
            PhaseView::Finished => Action::Stop,
        }
    }

    /// The phase after `event`. An event that does not answer the phase's
    /// action leaves the phase as it is.
    pub open spec fn next(self, tool: Tool, event: Event) -> PhaseView {
        match (self, event) {
            (PhaseView::Folder, Event::FolderTried) => PhaseView::Register,
            (PhaseView::Register, Event::CancelRegistered) => PhaseView::Launch,
            (PhaseView::Launch, Event::Launched) => PhaseView::Stream,
            (PhaseView::Launch, Event::LaunchFailed(reason)) => PhaseView::Release(
                Err(tool.not_found_message(reason@)),
            ),
            (PhaseView::Stream, Event::CancelRequested) => PhaseView::Kill,
            (PhaseView::Stream, Event::Stdout(Read::End)) => PhaseView::Reap,
            (PhaseView::Kill, Event::Killed) => PhaseView::Release(Err("Cancelled"@)),
            (PhaseView::Reap, Event::Exited { success, status }) => PhaseView::Release(
                if success {
                    Ok(())
                } else {
                    Err(tool.exit_message(status@))
                },
            ),
            (PhaseView::Reap, Event::WaitFailed(reason)) => PhaseView::Release(Err(reason@)),
            (PhaseView::Release(_), Event::CancelReleased) => PhaseView::Finished,
            _ => self,
        }
    }

    /// What `event` makes of the job, where it tells something of it.
    pub open spec fn told(self, tool: Tool, event: Event, job: JobView) -> Option<JobView> {
        match (self, event) {
            (PhaseView::Register, Event::CancelRegistered) => Some(job.started()),
            (PhaseView::Stream, Event::Stdout(Read::Line(line))) => if trimmed(line@).len() > 0 {
                Some(job.after_stdout(tool, line@))
            } else {
                None
            },
            (PhaseView::Stream, Event::Stderr(Read::Line(line))) => if trimmed(line@).len() > 0 {
                Some(job.after_stderr(line@))
            } else {
                None
            },
            (PhaseView::Release(outcome), Event::CancelReleased) => Some(job.finished(outcome)),
            _ => None,
        }
    }

    /// The place of the phase in the order of the phases.
    pub open spec fn rank(self) -> int {
        match self {
            PhaseView::Folder => 0,
            PhaseView::Register => 1,
            PhaseView::Launch => 2,
            PhaseView::Stream => 3,
            PhaseView::Kill => 4,
            PhaseView::Reap => 4,
            PhaseView::Release(_) => 5,
            PhaseView::Finished => 6,
        }
    }

    /// The number of files still has room for one more, where `event` adds one.
    pub open spec fn has_room(self, tool: Tool, event: Event, job: JobView) -> bool {
        match (self, event) {
            (PhaseView::Stream, Event::Stdout(Read::Line(line))) => counts_up(tool, line@)
                ==> job.files_done < u32::MAX,
            _ => true,
        }
    }
}

/// The run of one download.
pub struct Run {
    id: String,
    url: String,
    dest: String,
    tool: Tool,
    phase: Phase,
}

#[verifier::ext_equal]
pub struct RunView {
    pub id: Seq<char>,
    pub url: Seq<char>,
    pub dest: Seq<char>,
    pub tool: Tool,
    pub phase: PhaseView,
}

impl View for Run {
    type V = RunView;

    closed spec fn view(&self) -> RunView {
        RunView {
            id: self.id@,
            url: self.url@,
            dest: self.dest@,
            tool: self.tool,
            phase: self.phase.view(),
        }
    }
}

impl RunView {
    /// The run of `job`, before anything was done.
    pub open spec fn of(job: JobView, download_dir: Seq<char>) -> RunView {
        RunView {
            id: job.id,
            url: job.url,
            dest: joined(download_dir, job.id),
            tool: Tool::of(job.source),
            phase: PhaseView::Folder,
        }
    }

    /// What `event` makes of the run's job, where it tells something of it.
    pub open spec fn told(self, event: Event, jobs: Map<Seq<char>, JobView>) -> Option<JobView> {
        if jobs.contains_key(self.id) {
            self.phase.told(self.tool, event, jobs[self.id])
        } else {
            None
        }
    }

    /// The jobs after `event`.
    pub open spec fn jobs_after(self, event: Event, jobs: Map<Seq<char>, JobView>) -> Map<
        Seq<char>,
        JobView,
    > {
        match self.told(event, jobs) {
            Some(job) => jobs.insert(self.id, job),
            None => jobs,
        }
    }

    /// The run after `event`.
    pub open spec fn after(self, event: Event) -> RunView {
        RunView { phase: self.phase.next(self.tool, event), ..self }
    }

    /// The number of files of the run's job still has room for one more, where `event` adds one.
    pub open spec fn has_room(self, event: Event, jobs: Map<Seq<char>, JobView>) -> bool {
        jobs.contains_key(self.id) ==> self.phase.has_room(self.tool, event, jobs[self.id])
    }
}

impl Run {
    /// The run of `job`, before anything was done.
    pub fn new(job: &Job, download_dir: &str) -> (r: Run)
        ensures
            r@ == RunView::of(job@, download_dir@),
    {
        Run {
            id: job.id.clone(),
            url: job.url.clone(),
            dest: path_join(download_dir, job.id.as_str()),
            tool: Tool::for_source(job.source.as_str()),
            phase: Phase::Folder,
        }
    }

    /// The identifier of the job.
    pub fn id(&self) -> (r: &str)
        ensures
            r@ == self@.id,
    {
        self.id.as_str()
    }

    /// The folder that the download goes to.
    pub fn dest(&self) -> (r: &str)
        ensures
            r@ == self@.dest,
    {
        self.dest.as_str()
    }

    /// The name of the program that downloads.
    pub fn program(&self) -> (r: &'static str)
        ensures
            r@ == self@.tool.program_name(),
    {
        self.tool.program()
    }

    /// The arguments of the program that downloads.
    pub fn args(&self) -> (r: Vec<String>)
        ensures
            texts(r@) == self@.tool.arguments(self@.dest, self@.url),
    {
        self.tool.args(self.dest.as_str(), self.url.as_str())
    }

    /// What is to be done next.
    pub fn action(&self) -> (r: Action)
        ensures
            r == self@.phase.action(),
    {
        match &self.phase {
            Phase::Folder => Action::CreateFolder,
            Phase::Register => Action::RegisterCancel,
            Phase::Launch => Action::Launch,
            Phase::Stream => Action::Listen,
            Phase::Kill => Action::Kill,
            Phase::Reap => Action::Wait,
            Phase::Release(_) => Action::ReleaseCancel,
            Phase::Finished => Action::Stop,
        }
    }

    /// Whether the number of files of the run's job still has room for one more, where
    /// `event` adds one.
    pub fn has_room(&self, board: &JobBoard, event: &Event) -> (r: bool)
        requires
            board.wf(),
        ensures
            r == self@.has_room(*event, board@),
    {
        match (&self.phase, event) {
            (Phase::Stream, Event::Stdout(Read::Line(line))) => {
                match board.get(self.id.as_str()) {
                    Some(job) => !line_counts_up(self.tool, line.as_str()) || job.files_done
                        < u32::MAX,
                    None => true,
                }
            },
            _ => true,
        }
    }

    /// Takes in `event`, and hands back a copy of the job where there is news of it.
    pub fn step(&mut self, board: &mut JobBoard, event: Event) -> (r: Option<Job>)
        requires
            old(board).wf(),
            old(self)@.has_room(event, old(board)@),
        ensures
            final(board).wf(),
            final(self)@ == old(self)@.after(event),
            final(board)@ == old(self)@.jobs_after(event, old(board)@),
            r is Some <==> old(self)@.told(event, old(board)@) is Some,
            r matches Some(job) ==> old(self)@.told(event, old(board)@) == Some(job@),
    {
        let mut phase = Phase::Finished;
        std::mem::swap(&mut phase, &mut self.phase);
        match (phase, event) {
            (Phase::Folder, Event::FolderTried) => {
                self.phase = Phase::Register;
                None
            },
            (Phase::Register, Event::CancelRegistered) => {
                self.phase = Phase::Launch;
                board.start(self.id.as_str())
            },
            (Phase::Launch, Event::Launched) => {
                self.phase = Phase::Stream;
                None
            },
            (Phase::Launch, Event::LaunchFailed(reason)) => {
                self.phase = Phase::Release(Err(self.tool.not_found(reason.as_str())));
                None
            },
            (Phase::Stream, Event::CancelRequested) => {
                self.phase = Phase::Kill;
                None
            },
            (Phase::Stream, Event::Stdout(read)) => {
                match read {
                    Read::Line(line) => {
                        self.phase = Phase::Stream;
                        board.stdout_line(self.id.as_str(), self.tool, line.as_str())
                    },
                    Read::End => {
                        self.phase = Phase::Reap;
                        None
                    },
                    Read::Failed => {
                        self.phase = Phase::Stream;
                        None
                    },
                }
            },
            (Phase::Stream, Event::Stderr(Read::Line(line))) => {
                self.phase = Phase::Stream;
                board.stderr_line(self.id.as_str(), line.as_str())
            },
            (Phase::Kill, Event::Killed) => {
                self.phase = Phase::Release(Err("Cancelled".to_owned()));
                None
            },
            (Phase::Reap, Event::Exited { success, status }) => {
                self.phase = Phase::Release(
                    if success {
                        Ok(())
                    } else {
                        Err(self.tool.exited(status.as_str()))
                    },
                );
                None
            },
            (Phase::Reap, Event::WaitFailed(reason)) => {
                self.phase = Phase::Release(Err(reason));
                None
            },
            (Phase::Release(outcome), Event::CancelReleased) => {
                self.phase = Phase::Finished;
                board.finish(self.id.as_str(), outcome)
            },
            (phase, _) => {
                self.phase = phase;
                None
            },
        }
    }
}

/// The run and the jobs after `events`, one after the other.
pub open spec fn replay(run: RunView, jobs: Map<Seq<char>, JobView>, events: Seq<Event>) -> (
    RunView,
    Map<Seq<char>, JobView>,
)
    decreases events.len(),
{
    if events.len() == 0 {
        (run, jobs)
    } else {
        let (r, j) = replay(run, jobs, events.drop_last());
        (r.after(events.last()), r.jobs_after(events.last(), j))
    }
}

/// A job whose download has ended.
pub open spec fn is_over(job: JobView) -> bool {
    job.status == JobStatus::Done || job.status == JobStatus::Failed || job.status
        == JobStatus::Cancelled
}

/// A run only goes forward, and goes back to nothing once it has finished.
pub proof fn law_run_goes_forward(phase: PhaseView, tool: Tool, event: Event)
    ensures
        phase.next(tool, event).rank() >= phase.rank(),
        phase == PhaseView::Finished ==> phase.next(tool, event) == phase,
{
}

/// An event of a run leaves every job on the board, each the same job as
/// before, and changes none but the run's own.
pub proof fn law_jobs_stay(run: RunView, event: Event, jobs: Map<Seq<char>, JobView>)
    ensures
        run.jobs_after(event, jobs).dom() == jobs.dom(),
        forall|id: Seq<char>| #[trigger]
            jobs.contains_key(id) ==> same_identity(jobs[id], run.jobs_after(event, jobs)[id]),
        forall|id: Seq<char>| #[trigger]
            jobs.contains_key(id) && id != run.id ==> run.jobs_after(event, jobs)[id] == jobs[id],
{
    assert(run.jobs_after(event, jobs).dom() =~= jobs.dom());
}

/// A run keeps its job, its URL, its folder and its program, and its job stays on the board.
proof fn lemma_replay(run: RunView, jobs: Map<Seq<char>, JobView>, events: Seq<Event>)
    requires
        jobs.contains_key(run.id),
    ensures
        replay(run, jobs, events).0 == (RunView {
            phase: replay(run, jobs, events).0.phase,
            ..run
        }),
        replay(run, jobs, events).1.contains_key(run.id),
        same_identity(jobs[run.id], replay(run, jobs, events).1[run.id]),
    decreases events.len(),
{
    if events.len() > 0 {
        lemma_replay(run, jobs, events.drop_last());
    }
}

/// Once the program is to be killed, the run ends, when it ends, with a cancelled job,
/// whatever else happens.
pub proof fn law_cancelled_run_ends_cancelled(
    run: RunView,
    jobs: Map<Seq<char>, JobView>,
    events: Seq<Event>,
)
    requires
        run.phase == PhaseView::Kill,
        jobs.contains_key(run.id),
    ensures
        ({
            let (r, j) = replay(run, jobs, events);
            &&& r.phase == PhaseView::Kill || r.phase == PhaseView::Release(Err("Cancelled"@))
                || r.phase == PhaseView::Finished
            &&& r.phase == PhaseView::Finished ==> j[run.id].status == JobStatus::Cancelled
                && j[run.id].message == "Cancelled"@
        }),
    decreases events.len(),
{
    if events.len() > 0 {
        lemma_replay(run, jobs, events.drop_last());
        law_cancelled_run_ends_cancelled(run, jobs, events.drop_last());
    }
}

/// While the program is at work, and until its result is recorded, the job is downloading.
pub proof fn law_running_job_is_downloading(
    run: RunView,
    jobs: Map<Seq<char>, JobView>,
    events: Seq<Event>,
)
    requires
        run.phase == PhaseView::Folder,
        jobs.contains_key(run.id),
    ensures
        ({
            let (r, j) = replay(run, jobs, events);
            PhaseView::Launch.rank() <= r.phase.rank() < PhaseView::Finished.rank() ==> j[run.id].status
                == JobStatus::Downloading
        }),
    decreases events.len(),
{
    if events.len() > 0 {
        lemma_replay(run, jobs, events.drop_last());
        law_running_job_is_downloading(run, jobs, events.drop_last());
    }
}

/// A run that has finished leaves its job done, failed or cancelled: no
/// download ends without a result.
pub proof fn law_finished_run_has_result(
    run: RunView,
    jobs: Map<Seq<char>, JobView>,
    events: Seq<Event>,
)
    requires
        run.phase != PhaseView::Finished,
        jobs.contains_key(run.id),
    ensures
        replay(run, jobs, events).0.phase == PhaseView::Finished ==> is_over(
            replay(run, jobs, events).1[run.id],
        ),
        replay(run, jobs, events).1.contains_key(run.id),
        same_identity(jobs[run.id], replay(run, jobs, events).1[run.id]),
    decreases events.len(),
{
    lemma_replay(run, jobs, events);
    if events.len() > 0 {
        lemma_replay(run, jobs, events.drop_last());
        law_finished_run_has_result(run, jobs, events.drop_last());
    }
}

/// Among `events` is the program's end with success.
pub open spec fn succeeded(events: Seq<Event>) -> bool {
    exists|i: int|
        0 <= i < events.len() && (#[trigger] events[i] matches Event::Exited { success, .. }
            && success)
}

proof fn lemma_succeeded(events: Seq<Event>)
    requires
        events.len() > 0,
        succeeded(events.drop_last()),
    ensures
        succeeded(events),
{
    let before = events.drop_last();
    let i = choose|i: int|
        0 <= i < before.len() && (#[trigger] before[i] matches Event::Exited { success, .. }
            && success);
    assert(events[i] == before[i]);
}

/// A run leaves its job done only where the program ended with success.
pub proof fn law_done_needs_success(
    run: RunView,
    jobs: Map<Seq<char>, JobView>,
    events: Seq<Event>,
)
    requires
        run.phase == PhaseView::Folder,
        jobs.contains_key(run.id),
    ensures
        ({
            let (r, j) = replay(run, jobs, events);
            &&& r.phase == PhaseView::Release(Ok(())) ==> succeeded(events)
            &&& r.phase == PhaseView::Finished && j[run.id].status == JobStatus::Done
                ==> succeeded(events)
        }),
    decreases events.len(),
{
    if events.len() > 0 {
        let before = events.drop_last();
        lemma_replay(run, jobs, before);
        law_done_needs_success(run, jobs, before);
        if succeeded(before) {
            lemma_succeeded(events);
        }
        match replay(run, jobs, before).0.phase {
            PhaseView::Release(Ok(u)) => {
                assert(u == ());
            },
            _ => {},
        }
        match events.last() {
            Event::Exited { success, .. } => {
                if success {
                    assert(events[events.len() - 1] == events.last());
                    assert(succeeded(events));
                }
            },
            _ => {},
        }
    }
}

/// What a run asks for after each answer: its folder, the means to cancel it,
/// its program, and then what the program writes, until it writes no more or
/// somebody cancels; then the program's end, and the release of the means to
/// cancel. What is no answer changes nothing.
pub proof fn law_course_of_a_run(phase: PhaseView, tool: Tool, event: Event)
    ensures
        ({
            let next = phase.next(tool, event).action();
            match phase.action() {
                Action::CreateFolder => next == if event is FolderTried {
                    Action::RegisterCancel
                } else {
                    Action::CreateFolder
                },
                Action::RegisterCancel => next == if event is CancelRegistered {
                    Action::Launch
                } else {
                    Action::RegisterCancel
                },
                Action::Launch => next == if event is Launched {
                    Action::Listen
                } else if event is LaunchFailed {
                    Action::ReleaseCancel
                } else {
                    Action::Launch
                },
                Action::Listen => next == if event is CancelRequested {
                    Action::Kill
                } else if event == Event::Stdout(Read::End) {
                    Action::Wait
                } else {
                    Action::Listen
                },
                Action::Kill => next == if event is Killed {
                    Action::ReleaseCancel
                } else {
                    Action::Kill
                },
                Action::Wait => next == if event is Exited || event is WaitFailed {
                    Action::ReleaseCancel
                } else {
                    Action::Wait
                },
                Action::ReleaseCancel => next == if event is CancelReleased {
                    Action::Stop
                } else {
                    Action::ReleaseCancel
                },
                Action::Stop => next == Action::Stop,
            }
        }),
{
}

/// A run of a job begins with its folder, which is that of the job's
/// identifier in the download folder, and with the program for the job's source.
pub proof fn law_run_of_a_job(job: JobView, download_dir: Seq<char>)
    ensures
        ({
            let run = RunView::of(job, download_dir);
            &&& run.phase.action() == Action::CreateFolder
            &&& run.id == job.id
            &&& run.url == job.url
            &&& run.dest == joined(download_dir, job.id)
            &&& run.tool == Tool::Mega <==> job.source == "mega"@
        }),
{
}

/// Every change of a job is told, as it is on the board; what is not told
/// changes nothing.
pub proof fn law_changes_are_told(run: RunView, event: Event, jobs: Map<Seq<char>, JobView>)
    ensures
        run.told(event, jobs) is None ==> run.jobs_after(event, jobs) == jobs,
        run.told(event, jobs) matches Some(job) ==> jobs.contains_key(run.id) && run.jobs_after(
            event,
            jobs,
        ) == jobs.insert(run.id, job),
        run.phase.action() == Action::RegisterCancel && event is CancelRegistered
            && jobs.contains_key(run.id) ==> run.told(event, jobs) is Some,
        run.phase.action() == Action::ReleaseCancel && event is CancelReleased
            && jobs.contains_key(run.id) ==> run.told(event, jobs) is Some,
{
}

/// While a run listens, every line that is not blank reaches the job, from
/// standard output with the program that wrote it, and is told.
pub proof fn law_lines_reach_the_job(
    run: RunView,
    jobs: Map<Seq<char>, JobView>,
    line: String,
    k: int,
)
    requires
        run.phase.action() == Action::Listen,
        jobs.contains_key(run.id),
        0 <= k < line@.len(),
        !is_white_space(line@[k]),
    ensures
        run.told(Event::Stdout(Read::Line(line)), jobs) == Some(
            jobs[run.id].after_stdout(run.tool, line@),
        ),
        run.told(Event::Stderr(Read::Line(line)), jobs) == Some(jobs[run.id].after_stderr(line@)),
{
    lemma_not_blank(line@, k);
}

/// A run whose program was waited for ends as the program did, with either
/// program. With success the job is done and complete. Otherwise it has failed,
/// says which program ended how, and keeps its progress.
pub proof fn law_program_end_decides(
    run: RunView,
    jobs: Map<Seq<char>, JobView>,
    success: bool,
    status: String,
)
    requires
        run.phase.action() == Action::Wait,
        jobs.contains_key(run.id),
    ensures
        ({
            let events = seq![Event::Exited { success, status }, Event::CancelReleased];
            let (r, j) = replay(run, jobs, events);
            let job = j[run.id];
            &&& r.phase.action() == Action::Stop
            &&& success ==> job.status == JobStatus::Done && job.progress == ProgressView::Complete
                && job.message == "Complete"@
            &&& !success ==> job.status == JobStatus::Failed && job.progress
                == jobs[run.id].progress && job.message == (if run.tool == Tool::Mega {
                "megadl"@
            } else {
                "gallery-dl"@
            }) + " exited with "@ + status@
        }),
{
    let first = Event::Exited { success, status };
    lemma_replay_two(run, jobs, first, Event::CancelReleased);
    lemma_not_cancelled(run.tool, status@);
}

/// A run whose program could not be started, or could not be waited for, ends
/// with a job that has failed and says why.
pub proof fn law_failures_are_told(run: RunView, jobs: Map<Seq<char>, JobView>, reason: String)
    requires
        jobs.contains_key(run.id),
    ensures
        run.phase.action() == Action::Launch ==> {
            let events = seq![Event::LaunchFailed(reason), Event::CancelReleased];
            let (r, j) = replay(run, jobs, events);
            &&& r.phase.action() == Action::Stop
            &&& j[run.id].status == JobStatus::Failed
            &&& j[run.id].progress == jobs[run.id].progress
            &&& j[run.id].message == (if run.tool == Tool::Mega {
                "megatools"@
            } else {
                "gallery-dl"@
            }) + " not found: "@ + reason@
        },
        run.phase.action() == Action::Wait ==> {
            let events = seq![Event::WaitFailed(reason), Event::CancelReleased];
            let (r, j) = replay(run, jobs, events);
            &&& r.phase.action() == Action::Stop
            &&& reason@ != "Cancelled"@ ==> j[run.id].status == JobStatus::Failed
            &&& j[run.id].progress == jobs[run.id].progress
            &&& j[run.id].message == reason@
        },
{
    lemma_replay_two(run, jobs, Event::LaunchFailed(reason), Event::CancelReleased);
    lemma_replay_two(run, jobs, Event::WaitFailed(reason), Event::CancelReleased);
    lemma_not_cancelled(run.tool, reason@);
}

/// A run that is cancelled while it listens ends with a cancelled job, which
/// keeps its progress and its number of files.
pub proof fn law_cancel_is_heard(run: RunView, jobs: Map<Seq<char>, JobView>)
    requires
        run.phase.action() == Action::Listen,
        jobs.contains_key(run.id),
    ensures
        ({
            let events = seq![Event::CancelRequested, Event::Killed, Event::CancelReleased];
            let (r, j) = replay(run, jobs, events);
            &&& r.phase.action() == Action::Stop
            &&& j[run.id].status == JobStatus::Cancelled
            &&& j[run.id].message == "Cancelled"@
            &&& j[run.id].progress == jobs[run.id].progress
            &&& j[run.id].files_done == jobs[run.id].files_done
        }),
{
    let events = seq![Event::CancelRequested, Event::Killed, Event::CancelReleased];
    lemma_replay_two(run, jobs, Event::CancelRequested, Event::Killed);
    assert(events.drop_last() =~= seq![Event::CancelRequested, Event::Killed]);
}

proof fn lemma_replay_two(run: RunView, jobs: Map<Seq<char>, JobView>, a: Event, b: Event)
    ensures
        replay(run, jobs, seq![a, b]) == (
            run.after(a).after(b),
            run.after(a).jobs_after(b, run.jobs_after(a, jobs)),
        ),
{
    reveal_with_fuel(replay, 3);
    assert(seq![a, b].drop_last() =~= seq![a]);
    assert(seq![a].drop_last() =~= Seq::empty());
}

/// What is said of a program that failed is never taken for a cancelled run.
proof fn lemma_not_cancelled(tool: Tool, text: Seq<char>)
    ensures
        tool.exit_message(text) != "Cancelled"@,
        tool.not_found_message(text) != "Cancelled"@,
{
    reveal_strlit("Cancelled");
    reveal_strlit("gallery-dl");
    reveal_strlit("megadl");
    reveal_strlit("megatools");
    assert("Cancelled"@[0] == 'C');
    assert(tool.exit_message(text)[0] == tool.program_name()[0]);
    assert(tool.not_found_message(text)[0] == tool.package_name()[0]);
    assert("gallery-dl"@[0] == 'g' && "megadl"@[0] == 'm' && "megatools"@[0] == 'm');
}

/// What may happen while a run listens and goes on listening.
pub open spec fn is_heard(event: Event) -> bool {
    event is Stdout && event->Stdout_0 !is End || event is Stderr
}

/// A whole run, with either program, whatever the program writes: it ends done
/// exactly where the program ends with success, and failed otherwise.
pub proof fn law_whole_run(
    job: JobView,
    download_dir: Seq<char>,
    jobs: Map<Seq<char>, JobView>,
    heard: Seq<Event>,
    success: bool,
    status: String,
)
    requires
        jobs.contains_key(job.id),
        forall|i: int| 0 <= i < heard.len() ==> is_heard(#[trigger] heard[i]),
    ensures
        ({
            let events = (seq![Event::FolderTried, Event::CancelRegistered, Event::Launched]
                + heard).push(Event::Stdout(Read::End)).push(
                Event::Exited { success, status },
            ).push(Event::CancelReleased);
            let (r, j) = replay(RunView::of(job, download_dir), jobs, events);
            &&& r.phase.action() == Action::Stop
            &&& success ==> j[job.id].status == JobStatus::Done && j[job.id].progress
                == ProgressView::Complete
            &&& !success ==> j[job.id].status == JobStatus::Failed
        }),
{
    let run = RunView::of(job, download_dir);
    let start = seq![Event::FolderTried, Event::CancelRegistered, Event::Launched];
    lemma_listening(run, jobs, heard);
    let e0 = start + heard;
    let e1 = e0.push(Event::Stdout(Read::End));
    let e2 = e1.push(Event::Exited { success, status });
    let e3 = e2.push(Event::CancelReleased);
    assert(e1.drop_last() =~= e0);
    assert(e2.drop_last() =~= e1);
    assert(e3.drop_last() =~= e2);
    lemma_replay(run, jobs, e0);
    lemma_replay(run, jobs, e1);
    lemma_replay(run, jobs, e2);
    lemma_not_cancelled(run.tool, status@);
}

proof fn lemma_listening(run: RunView, jobs: Map<Seq<char>, JobView>, heard: Seq<Event>)
    requires
        run.phase == PhaseView::Folder,
        forall|i: int| 0 <= i < heard.len() ==> is_heard(#[trigger] heard[i]),
    ensures
        replay(
            run,
            jobs,
            seq![Event::FolderTried, Event::CancelRegistered, Event::Launched] + heard,
        ).0.phase == PhaseView::Stream,
    decreases heard.len(),
{
    let start = seq![Event::FolderTried, Event::CancelRegistered, Event::Launched];
    let all = start + heard;
    if heard.len() == 0 {
        assert(all =~= start);
        assert(start.drop_last() =~= seq![Event::FolderTried, Event::CancelRegistered]);
        lemma_replay_two(run, jobs, Event::FolderTried, Event::CancelRegistered);
    } else {
        let rest = heard.drop_last();
        assert forall|i: int| 0 <= i < rest.len() implies is_heard(#[trigger] rest[i]) by {
            assert(rest[i] == heard[i]);
        }
        lemma_listening(run, jobs, rest);
        assert(all.drop_last() =~= start + rest);
        assert(is_heard(heard[heard.len() - 1]));
        assert(all.last() == heard.last());
    }
}

/// Only a line of a program that is listened to can lack room: one that speaks
/// of downloading, where the number of files can grow no more.
pub proof fn law_room(run: RunView, event: Event, jobs: Map<Seq<char>, JobView>)
    ensures
        !run.has_room(event, jobs) ==> {
            &&& run.phase.action() == Action::Listen
            &&& jobs.contains_key(run.id) && jobs[run.id].files_done == u32::MAX
            &&& event matches Event::Stdout(Read::Line(line)) && occurs(line@, "Downloading"@)
        },
{
}

/// Nothing is told of a job but that its download begins, what its program
/// writes, where that is not blank, and how the download ended.
pub proof fn law_nothing_else_is_told(run: RunView, event: Event, jobs: Map<Seq<char>, JobView>)
    ensures
        run.told(event, jobs) is Some ==> match run.phase.action() {
            Action::RegisterCancel => event is CancelRegistered,
            Action::ReleaseCancel => event is CancelReleased,
            Action::Listen => (event matches Event::Stdout(Read::Line(line)) && trimmed(
                line@,
            ).len() > 0) || (event matches Event::Stderr(Read::Line(line)) && trimmed(line@).len()
                > 0),
            _ => false,
        },
{
}

} // verus!
