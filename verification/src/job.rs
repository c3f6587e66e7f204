//! Download jobs.

use vstd::prelude::*;
use crate::ident::{fresh_id, is_random_uuid};
use crate::lines::{
    counter_of, law_counter_is_read, law_percent_is_read, parse_gallery_dl_counter,
    parse_mega_progress, percent_of, shortened, truncate,
};
use crate::number::{all_digits, decimal, is_float_text, law_numbers_are_float_texts};
use crate::source::{detect_source, law_source, source_of, Tool};
use crate::text::{
    contains, is_white_space, lemma_not_blank, lemma_trimmed, occurs, occurs_at, same_text, trim,
    trimmed,
};

verus! {

#[derive(Clone, Copy, Debug, PartialEq, Eq, Structural)]
pub enum JobStatus {
    Queued,
    Downloading,
    Done,
    Failed,
    Cancelled,
}

/// How far a download has come.
#[derive(Debug)]
pub enum Progress {
    /// Nothing is known.
    Unknown,
    /// `done` of `total` files.
    Counted { done: u32, total: u32 },
    /// A percentage, as the download program wrote it.
    Percent(String),
    /// All of it.
    Complete,
}

#[verifier::ext_equal]
pub enum ProgressView {
    Unknown,
    Counted { done: u32, total: u32 },
    Percent(Seq<char>),
    Complete,
}

impl View for Progress {
    type V = ProgressView;

    open spec fn view(&self) -> ProgressView {
        match *self {
            Progress::Unknown => ProgressView::Unknown,
            Progress::Counted { done, total } => ProgressView::Counted { done, total },
            Progress::Percent(t) => ProgressView::Percent(t@),
            Progress::Complete => ProgressView::Complete,
        }
    }
}

impl Clone for Progress {
    fn clone(&self) -> (r: Self)
        ensures
            r@ == self@,
    {
        match self {
            Progress::Unknown => Progress::Unknown,
            Progress::Counted { done, total } => Progress::Counted { done: *done, total: *total },
            Progress::Percent(t) => Progress::Percent(t.clone()),
            Progress::Complete => Progress::Complete,
        }
    }
}

#[derive(Debug)]
pub struct Job {
    pub id: String,
    pub url: String,
    pub status: JobStatus,
    pub message: String,
    pub files_done: u32,
    pub progress: Progress,
    pub created_at: u64,
    pub source: String,
}

#[verifier::ext_equal]
pub struct JobView {
    pub id: Seq<char>,
    pub url: Seq<char>,
    pub status: JobStatus,
    pub message: Seq<char>,
    pub files_done: u32,
    pub progress: ProgressView,
    pub created_at: u64,
    pub source: Seq<char>,
}

impl View for Job {
    type V = JobView;

    open spec fn view(&self) -> JobView {
        JobView {
            id: self.id@,
            url: self.url@,
            status: self.status,
            message: self.message@,
            files_done: self.files_done,
            progress: self.progress@,
            created_at: self.created_at,
            source: self.source@,
        }
    }
}

impl Clone for Job {
    fn clone(&self) -> (r: Self)
        ensures
            r@ == self@,
    {
        Job {
            id: self.id.clone(),
            url: self.url.clone(),
            status: self.status,
            message: self.message.clone(),
            files_done: self.files_done,
            progress: self.progress.clone(),
            created_at: self.created_at,
            source: self.source.clone(),
        }
    }
}

/// What is kept of a job on disk, so that it survives restarts.
#[derive(Debug)]
pub struct JobMeta {
    pub id: String,
    pub url: String,
    pub source: String,
    pub created_at: u64,
}

#[verifier::ext_equal]
pub struct JobMetaView {
    pub id: Seq<char>,
    pub url: Seq<char>,
    pub source: Seq<char>,
    pub created_at: u64,
}

impl View for JobMeta {
    type V = JobMetaView;

    open spec fn view(&self) -> JobMetaView {
        JobMetaView {
            id: self.id@,
            url: self.url@,
            source: self.source@,
            created_at: self.created_at,
        }
    }
}

/// How a run of a download program ended: well, or with a message.
pub type Outcome = Result<(), String>;

pub open spec fn outcome_view(r: Outcome) -> Result<(), Seq<char>> {
    match r {
        Ok(()) => Ok(()),
        Err(e) => Err(e@),
    }
}

/// A job from `source` downloads to subfolders of its folder, so that the
/// files at the root of the folder are none of its media.
pub open spec fn skips_root_files(source: Seq<char>) -> bool {
    source == "mega"@
}

/// Whether a job from `source` downloads to subfolders of its folder.
pub fn skips_root(source: &str) -> (r: bool)
    ensures
        r == skips_root_files(source@),
{
    same_text(source, "mega")
}

/// A line from the standard output of `tool` that stands for one more file, without saying which.
pub open spec fn counts_up(tool: Tool, line: Seq<char>) -> bool {
    &&& trimmed(line).len() > 0
    &&& occurs(line, "Downloading"@)
    &&& tool == Tool::GalleryDl ==> counter_of(line) is None
}

impl JobView {
    /// The job for the URL `raw`, with the identifier `id`, as it is queued at the time `now`.
    pub open spec fn queued(raw: Seq<char>, id: Seq<char>, now: u64) -> JobView {
        JobView {
            id,
            url: trimmed(raw),
            status: JobStatus::Queued,
            message: Seq::empty(),
            files_done: 0,
            progress: ProgressView::Unknown,
            created_at: now,
            source: source_of(trimmed(raw)),
        }
    }

    /// The job whose download begins.
    pub open spec fn started(self) -> JobView {
        JobView { status: JobStatus::Downloading, message: "Starting..."@, ..self }
    }

    /// The job whose download ended with `outcome`.
    pub open spec fn finished(self, outcome: Result<(), Seq<char>>) -> JobView {
        match outcome {
            Ok(()) => JobView {
                status: JobStatus::Done,
                progress: ProgressView::Complete,
                message: "Complete"@,
                ..self
            },
            Err(e) => if e == "Cancelled"@ {
                JobView { status: JobStatus::Cancelled, message: "Cancelled"@, ..self }
            } else {
                JobView { status: JobStatus::Failed, message: e, ..self }
            },
        }
    }

    /// The job after `tool` wrote `line` to its standard error. A blank line changes nothing.
    pub open spec fn after_stderr(self, line: Seq<char>) -> JobView {
        if trimmed(line).len() == 0 {
            self
        } else {
            JobView { message: shortened(trimmed(line), 80), ..self }
        }
    }

    /// The job after `tool` wrote `line` to its standard output. A blank line
    /// changes nothing.
    pub open spec fn after_stdout(self, tool: Tool, line: Seq<char>) -> JobView {
        let counted = if counts_up(tool, line) {
            JobView { files_done: (self.files_done + 1) as u32, ..self }
        } else {
            self
        };
        let told = match tool {
            Tool::GalleryDl => match counter_of(line) {
                Some((done, total)) => JobView {
                    files_done: done,
                    progress: ProgressView::Counted { done, total },
                    ..counted
                },
                None => counted,
            },
            Tool::Mega => match percent_of(line) {
                Some(t) => JobView { progress: ProgressView::Percent(t), ..counted },
                None => counted,
            },
        };
        if trimmed(line).len() == 0 {
            self
        } else {
            JobView { message: shortened(trimmed(line), 80), ..told }
        }
    }

    /// What is kept of the job on disk.
    pub open spec fn kept(self) -> JobMetaView {
        JobMetaView {
            id: self.id,
            url: self.url,
            source: self.source,
            created_at: self.created_at,
        }
    }

    /// The job that is restored from what was kept of it and from the number of its media files.
    pub open spec fn restored(meta: JobMetaView, media: nat) -> JobView {
        JobView {
            id: meta.id,
            url: meta.url,
            status: JobStatus::Done,
            message: Seq::empty(),
            files_done: (media % 0x1_0000_0000) as u32,
            progress: ProgressView::Complete,
            created_at: meta.created_at,
            source: meta.source,
        }
    }
}

/// Whether `line`, from the standard output of `tool`, adds one to the number of files.
pub fn line_counts_up(tool: Tool, line: &str) -> (r: bool)
    ensures
        r == counts_up(tool, line@),
{
    if trim(line).is_empty() || !contains(line, "Downloading") {
        return false;
    }
    match tool {
        Tool::GalleryDl => parse_gallery_dl_counter(line).is_none(),
        Tool::Mega => true,
    }
}

/// The job for the URL `raw`, with the identifier `id`, queued at the time
/// `now`; none, where the URL is blank.
pub fn queued_job(raw: &str, id: String, now: u64) -> (r: Option<Job>)
    ensures
        r is None <==> trimmed(raw@).len() == 0,
        r matches Some(job) ==> job@ == JobView::queued(raw@, id@, now),
{
    let url = trim(raw).to_owned();
    if url.as_str().is_empty() {
        return None;
    }
    let source = detect_source(url.as_str()).to_owned();
    Some(
        Job {
            id,
            url,
            status: JobStatus::Queued,
            message: String::new(),
            files_done: 0,
            progress: Progress::Unknown,
            created_at: now,
            source,
        },
    )
}

/// The job for the URL `raw`, with a fresh identifier, queued at the time
/// `now`; none, where the URL is blank, and then no identifier is drawn. Which
/// identifier it gets rests on chance.
pub fn new_job(raw: &str, now: u64) -> (r: Option<Job>)
    ensures
        r is None <==> trimmed(raw@).len() == 0,
        r matches Some(job) ==> is_random_uuid(job@.id) && job@ == JobView::queued(
            raw@,
            job@.id,
            now,
        ),
{
    if trim(raw).is_empty() {
        return None;
    }
    queued_job(raw, fresh_id(), now)
}

impl Job {
    /// Marks the job as one whose download begins.
    pub fn start(&mut self)
        ensures
            final(self)@ == old(self)@.started(),
    {
        self.status = JobStatus::Downloading;
        self.message = "Starting...".to_owned();
    }

    /// Records how the download ended.
    pub fn finish(&mut self, outcome: Outcome)
        ensures
            final(self)@ == old(self)@.finished(outcome_view(outcome)),
    {
        match outcome {
            Ok(()) => {
                self.status = JobStatus::Done;
                self.progress = Progress::Complete;
                self.message = "Complete".to_owned();
            },
            Err(e) => {
                if same_text(e.as_str(), "Cancelled") {
                    self.status = JobStatus::Cancelled;
                    self.message = "Cancelled".to_owned();
                } else {
                    self.status = JobStatus::Failed;
                    self.message = e;
                }
            },
        }
    }

    /// Takes in a line from the program's standard error; says whether it was more than blank.
    pub fn stderr_line(&mut self, line: &str) -> (r: bool)
        ensures
            r == (trimmed(line@).len() > 0),
            final(self)@ == old(self)@.after_stderr(line@),
    {
        let text = trim(line);
        if text.is_empty() {
            return false;
        }
        self.message = truncate(text, 80);
        true
    }

    /// Takes in a line from the standard output of `tool`; says whether it was more than blank.
    pub fn stdout_line(&mut self, tool: Tool, line: &str) -> (r: bool)
        requires
            counts_up(tool, line@) ==> old(self).files_done < u32::MAX,
        ensures
            r == (trimmed(line@).len() > 0),
            final(self)@ == old(self)@.after_stdout(tool, line@),
    {
        let text = trim(line);
        if text.is_empty() {
            return false;
        }
        match tool {
            Tool::GalleryDl => {
                match parse_gallery_dl_counter(line) {
                    Some((done, total)) => {
                        self.files_done = done;
                        self.progress = Progress::Counted { done, total };
                    },
                    None => {
                        if contains(line, "Downloading") {
                            self.files_done = self.files_done + 1;
                        }
                    },
                }
            },
            Tool::Mega => {
                match parse_mega_progress(line) {
                    Some(t) => {
                        self.progress = Progress::Percent(t);
                    },
                    None => {},
                }
                if contains(line, "Downloading") {
                    self.files_done = self.files_done + 1;
                }
            },
        }
        self.message = truncate(text, 80);
        true
    }

    /// What is kept of the job on disk.
    pub fn meta(&self) -> (r: JobMeta)
        ensures
            r@ == self@.kept(),
    {
        JobMeta {
            id: self.id.clone(),
            url: self.url.clone(),
            source: self.source.clone(),
            created_at: self.created_at,
        }
    }
}

/// The job that is restored from what was kept of it and from the number of its media files.
pub fn restored_job(meta: JobMeta, media: usize) -> (r: Job)
    ensures
        r@ == JobView::restored(meta@, media as nat),
{
    let wide: u64 = media as u64;
    let files_done: u32 = #[verifier::truncate] (wide as u32);
    assert(wide as u32 == wide % 0x1_0000_0000) by (bit_vector);
    Job {
        id: meta.id,
        url: meta.url,
        status: JobStatus::Done,
        message: String::new(),
        files_done,
        progress: Progress::Complete,
        created_at: meta.created_at,
        source: meta.source,
    }
}

/// `a` and `b` have the same identifier, URL, source and time of creation.
pub open spec fn same_identity(a: JobView, b: JobView) -> bool {
    a.kept() == b.kept()
}

/// Starting, hearing from the program and finishing change nothing of what is kept on disk.
pub proof fn law_identity_is_kept(
    job: JobView,
    tool: Tool,
    line: Seq<char>,
    outcome: Result<(), Seq<char>>,
)
    ensures
        same_identity(job, job.started()),
        same_identity(job, job.after_stdout(tool, line)),
        same_identity(job, job.after_stderr(line)),
        same_identity(job, job.finished(outcome)),
{
}

/// A job that was kept on disk comes back as the same job, done, with all of its media files.
pub proof fn law_restored_job(job: JobView, media: nat)
    requires
        media < 0x1_0000_0000,
    ensures
        same_identity(job, JobView::restored(job.kept(), media)),
        JobView::restored(job.kept(), media).status == JobStatus::Done,
        JobView::restored(job.kept(), media).files_done == media,
        JobView::restored(job.kept(), media).kept() == job.kept(),
{
}

/// A download that ended leaves the job done, cancelled or failed, and only
/// one that ended well is done and complete.
pub proof fn law_finished_is_final(job: JobView, outcome: Result<(), Seq<char>>)
    ensures
        ({
            let s = job.finished(outcome).status;
            &&& s == JobStatus::Done || s == JobStatus::Cancelled || s == JobStatus::Failed
            &&& s == JobStatus::Done <==> outcome is Ok
            &&& s == JobStatus::Cancelled <==> outcome == Err::<(), Seq<char>>("Cancelled"@)
        }),
        outcome is Ok ==> job.finished(outcome).progress == ProgressView::Complete,
        outcome is Err ==> job.finished(outcome).progress == job.progress,
{
}

/// The message of a job that heard from its program has at most 81 characters.
pub proof fn law_message_is_short(job: JobView, tool: Tool, line: Seq<char>)
    requires
        trimmed(line).len() > 0,
    ensures
        job.after_stdout(tool, line).message.len() <= 81,
        job.after_stderr(line).message.len() <= 81,
{
}

/// A job that was just queued: what it is for, and that nothing was done yet.
pub proof fn law_queued_job(raw: Seq<char>, id: Seq<char>, now: u64)
    ensures
        ({
            let job = JobView::queued(raw, id, now);
            &&& job.id == id
            &&& job.url == trimmed(raw)
            &&& job.created_at == now
            &&& job.status == JobStatus::Queued
            &&& job.message.len() == 0
            &&& job.files_done == 0
            &&& job.progress == ProgressView::Unknown
            &&& job.source == "mega"@ <==> occurs(trimmed(raw), "mega.nz"@) || occurs(
                trimmed(raw),
                "mega.co.nz"@,
            )
            &&& job.source == "instagram"@ || job.source == "mega"@ <==> occurs(
                trimmed(raw),
                "mega.nz"@,
            ) || occurs(trimmed(raw), "mega.co.nz"@) || occurs(trimmed(raw), "instagram.com"@)
                || occurs(trimmed(raw), "instagr.am"@)
            &&& skips_root_files(job.source) <==> job.source == "mega"@
        }),
{
    law_source(trimmed(raw));
    reveal_strlit("mega");
    reveal_strlit("instagram");
    assert("mega"@.len() == 4 && "instagram"@.len() == 9);
}

/// A job whose download begins is downloading and says so; nothing else of it changes.
pub proof fn law_started_job(job: JobView)
    ensures
        job.started().status == JobStatus::Downloading,
        job.started().message == "Starting..."@,
        job.started().files_done == job.files_done,
        job.started().progress == job.progress,
{
}

/// What a download that ended leaves of its job. One that ended well is done,
/// complete and says so. Any other says why, and is cancelled where that is the
/// reason and failed otherwise; its progress stays. The number of files stays.
pub proof fn law_finished_job(job: JobView, reason: Seq<char>)
    ensures
        ({
            let done = job.finished(Ok(()));
            &&& done.status == JobStatus::Done
            &&& done.progress == ProgressView::Complete
            &&& done.message == "Complete"@
            &&& done.files_done == job.files_done
        }),
        ({
            let end = job.finished(Err(reason));
            &&& end.status == JobStatus::Cancelled <==> reason == "Cancelled"@
            &&& end.status == JobStatus::Failed <==> reason != "Cancelled"@
            &&& end.message == reason
            &&& end.progress == job.progress
            &&& end.files_done == job.files_done
        }),
{
}

/// A blank line changes nothing of a job.
pub proof fn law_blank_line(job: JobView, tool: Tool, line: Seq<char>)
    requires
        forall|i: int| 0 <= i < line.len() ==> is_white_space(#[trigger] line[i]),
    ensures
        job.after_stdout(tool, line) == job,
        job.after_stderr(line) == job,
{
    lemma_trimmed(line, 0, 0);
}

/// Every other line becomes the job's message, without the white space at its
/// ends: all of it, or its first 80 characters and an ellipsis. It changes
/// neither the status nor what is kept on disk, and one from standard error
/// changes nothing else at all.
pub proof fn law_line_is_shown(job: JobView, tool: Tool, line: Seq<char>, k: int)
    requires
        0 <= k < line.len(),
        !is_white_space(line[k]),
    ensures
        ({
            let out = job.after_stdout(tool, line);
            let err = job.after_stderr(line);
            let text = trimmed(line);
            &&& out.message == err.message
            &&& text.len() <= 80 ==> out.message == text
            &&& text.len() > 80 ==> out.message == text.take(80).push('\u{2026}')
            &&& out.status == job.status && err.status == job.status
            &&& same_identity(job, out) && same_identity(job, err)
            &&& err.files_done == job.files_done
            &&& err.progress == job.progress
        }),
{
    lemma_not_blank(line, k);
}

/// What a line of gallery-dl tells. A counter sets the number of files and the
/// progress. A line without one leaves the progress as it is and adds one file
/// exactly where it speaks of downloading.
pub proof fn law_gallery_dl_line(job: JobView, line: Seq<char>, k: int)
    requires
        0 <= k < line.len(),
        !is_white_space(line[k]),
        job.files_done < u32::MAX,
    ensures
        ({
            let out = job.after_stdout(Tool::GalleryDl, line);
            &&& counter_of(line) matches Some((done, total)) ==> out.files_done == done
                && out.progress == (ProgressView::Counted { done, total })
            &&& counter_of(line) is None ==> out.progress == job.progress && out.files_done
                == job.files_done + (if occurs(line, "Downloading"@) {
                1int
            } else {
                0
            })
        }),
{
    lemma_not_blank(line, k);
}

/// What a line of megadl tells. A percentage sets the progress, whatever else
/// the line holds, and without one the progress stays as it is. One file is
/// added exactly where the line speaks of downloading.
pub proof fn law_mega_line(job: JobView, line: Seq<char>, k: int)
    requires
        0 <= k < line.len(),
        !is_white_space(line[k]),
        job.files_done < u32::MAX,
    ensures
        ({
            let out = job.after_stdout(Tool::Mega, line);
            &&& percent_of(line) matches Some(t) ==> out.progress == ProgressView::Percent(t)
            &&& percent_of(line) is None ==> out.progress == job.progress
            &&& out.files_done == job.files_done + (if occurs(line, "Downloading"@) {
                1int
            } else {
                0
            })
        }),
{
    lemma_not_blank(line, k);
}

/// Every line of megadl with `Progress:`, a number and a percent sign sets the
/// progress of the job to that number, whatever else the line holds.
pub proof fn law_percent_moves_progress(
    job: JobView,
    before: Seq<char>,
    left: Seq<char>,
    t: Seq<char>,
    right: Seq<char>,
    after: Seq<char>,
)
    requires
        !occurs(before, "Progress:"@),
        forall|i: int| 0 <= i < left.len() ==> is_white_space(#[trigger] left[i]),
        forall|i: int| 0 <= i < right.len() ==> is_white_space(#[trigger] right[i]),
        is_float_text(t),
    ensures
        job.after_stdout(
            Tool::Mega,
            before + "Progress:"@ + left + t + right + "%"@ + after,
        ).progress == ProgressView::Percent(t),
{
    let line = before + "Progress:"@ + left + t + right + "%"@ + after;
    law_percent_is_read(before, left, t, right, after);
    reveal_strlit("Progress:");
    assert(line[before.len() as int] == 'P');
    lemma_not_blank(line, before.len() as int);
}

/// So it does where the number is written in digits, with or without a point.
pub proof fn law_written_percent_moves_progress(
    job: JobView,
    before: Seq<char>,
    n: nat,
    frac: Seq<char>,
    after: Seq<char>,
)
    requires
        !occurs(before, "Progress:"@),
        all_digits(frac),
    ensures
        job.after_stdout(
            Tool::Mega,
            before + "Progress: "@ + decimal(n) + "%"@ + after,
        ).progress == ProgressView::Percent(decimal(n)),
        job.after_stdout(
            Tool::Mega,
            before + "Progress: "@ + (decimal(n) + seq!['.'] + frac) + "%"@ + after,
        ).progress == ProgressView::Percent(decimal(n) + seq!['.'] + frac),
{
    law_numbers_are_float_texts(n, frac);
    reveal_strlit("Progress: ");
    reveal_strlit("Progress:");
    let none = Seq::<char>::empty();
    let t = decimal(n);
    let u = decimal(n) + seq!['.'] + frac;
    law_percent_moves_progress(job, before, seq![' '], t, none, after);
    law_percent_moves_progress(job, before, seq![' '], u, none, after);
    assert(before + "Progress: "@ + t + "%"@ + after =~= before + "Progress:"@ + seq![' '] + t
        + none + "%"@ + after);
    assert(before + "Progress: "@ + u + "%"@ + after =~= before + "Progress:"@ + seq![' '] + u
        + none + "%"@ + after);
}

/// Every line of gallery-dl with a counter sets the number of files and the
/// progress of the job to it, whatever else the line holds.
pub proof fn law_counter_moves_progress(
    job: JobView,
    before: Seq<char>,
    a: u32,
    b: u32,
    after: Seq<char>,
)
    requires
        !occurs("]"@ + after, "]["@),
    ensures
        ({
            let out = job.after_stdout(
                Tool::GalleryDl,
                before + "]["@ + decimal(a as nat) + "/"@ + decimal(b as nat) + "]"@ + after,
            );
            out.files_done == a && out.progress == (ProgressView::Counted { done: a, total: b })
        }),
{
    let line = before + "]["@ + decimal(a as nat) + "/"@ + decimal(b as nat) + "]"@ + after;
    law_counter_is_read(before, a, b, after);
    reveal_strlit("][");
    assert(line[before.len() as int] == ']');
    lemma_not_blank(line, before.len() as int);
}

/// Which lines add a file without saying which: those of megadl that speak of
/// downloading, and those of gallery-dl that do so and hold no counter.
pub proof fn law_counts_up(line: Seq<char>)
    ensures
        counts_up(Tool::Mega, line) <==> occurs(line, "Downloading"@),
        counts_up(Tool::GalleryDl, line) <==> occurs(line, "Downloading"@) && counter_of(
            line,
        ) is None,
{
    if occurs(line, "Downloading"@) {
        reveal_strlit("Downloading");
        let i = choose|i: int| occurs_at(line, "Downloading"@, i);
        assert(line.subrange(i, i + "Downloading"@.len())[0] == line[i]);
        assert(line[i] == 'D');
        lemma_not_blank(line, i);
    }
}

/// What is kept of a job are its identifier, its URL, its source and the time
/// it was queued at; a job that is restored has these, is done and complete, and
/// says nothing.
pub proof fn law_kept_and_restored(job: JobView, meta: JobMetaView, media: nat)
    requires
        media <= u32::MAX,
    ensures
        job.kept() == (JobMetaView {
            id: job.id,
            url: job.url,
            source: job.source,
            created_at: job.created_at,
        }),
        JobView::restored(meta, media) == (JobView {
            id: meta.id,
            url: meta.url,
            status: JobStatus::Done,
            message: Seq::empty(),
            files_done: media as u32,
            progress: ProgressView::Complete,
            created_at: meta.created_at,
            source: meta.source,
        }),
{
}

/// The files at the root are skipped for jobs from mega, and for no others.
pub proof fn law_skips_root(source: Seq<char>, url: Seq<char>)
    ensures
        skips_root_files(source) <==> source == "mega"@,
        skips_root_files(source_of(url)) <==> occurs(url, "mega.nz"@) || occurs(url, "mega.co.nz"@),
{
    law_source(url);
}

/// The number of files of a restored job is that of its media files, in 32 bits.
pub proof fn law_restored_count(meta: JobMetaView, media: nat)
    ensures
        JobView::restored(meta, media).files_done == media % 0x1_0000_0000,
{
}

/// An outcome is seen as it is.
pub proof fn law_outcome(reason: String)
    ensures
        outcome_view(Ok(())) == Ok::<(), Seq<char>>(()),
        outcome_view(Err(reason)) == Err::<(), Seq<char>>(reason@),
{
}

} // verus!
