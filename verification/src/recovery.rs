//! Restoring the jobs from what was kept of them on disk.
//!
//! The recovery decides; its caller reads the download folder and reports what it finds.

use vstd::prelude::*;
use vstd::string::*;
use crate::board::{board_of, job_views};
use crate::job::{
    restored_job, same_identity, skips_root, skips_root_files, Job, JobMeta, JobMetaView, JobStatus,
    JobView,
};
use crate::ident::{is_lower_hex, is_random_uuid};
use crate::path::{
    components, file_name_extension, joined, law_name_is_component, name_extension, path_join,
};
use crate::run::RunView;
use crate::source::Tool;
use crate::text::{last_of, law_first_of, lemma_last, occurs_at, same_text};

verus! {

/// The name of the file that keeps the job `id`.
pub open spec fn meta_name(id: Seq<char>) -> Seq<char> {
    id + ".json"@
}

/// The file in `download_dir` that keeps the job `id`.
pub open spec fn meta_path(download_dir: Seq<char>, id: Seq<char>) -> Seq<char> {
    joined(download_dir, meta_name(id))
}

/// The file in `download_dir` that keeps the favorites.
pub open spec fn favorites_path(download_dir: Seq<char>) -> Seq<char> {
    joined(download_dir, "favorites.json"@)
}

/// The file in `download_dir` that keeps the job `id`.
pub fn meta_file(download_dir: &str, id: &str) -> (r: String)
    ensures
        r@ == meta_path(download_dir@, id@),
{
    let name = id.to_owned().concat(".json");
    path_join(download_dir, name.as_str())
}

/// The file in `download_dir` that keeps the favorites.
pub fn favorites_file(download_dir: &str) -> (r: String)
    ensures
        r@ == favorites_path(download_dir@),
{
    path_join(download_dir, "favorites.json")
}

/// A file of this name may keep a job.
pub open spec fn may_keep_job(name: Seq<char>) -> bool {
    name_extension(name) == Some("json"@)
}

/// Whether a file of this name may keep a job.
pub fn is_meta_name(name: &str) -> (r: bool)
    ensures
        r == may_keep_job(name@),
{
    match file_name_extension(name) {
        Some(e) => same_text(e.as_str(), "json"),
        None => false,
    }
}

/// The file that keeps a job is taken for one that may: a job that is kept is looked at again.
pub proof fn law_kept_job_is_looked_at(id: Seq<char>)
    requires
        id.len() > 0,
    ensures
        may_keep_job(meta_name(id)),
{
    reveal_strlit(".json");
    reveal_strlit("json");
    let name = meta_name(id);
    let i = id.len() as int;
    assert(name.subrange(i, i + 1) =~= seq!['.']);
    assert forall|j: int| occurs_at(name, seq!['.'], j) implies j <= i by {
        assert(name.subrange(j, j + 1)[0] == name[j]);
        if j > i {
            assert(name[j] == ".json"@[j - i]);
        }
    }
    lemma_last(name, seq!['.'], i);
    assert(name.skip(i + 1) =~= "json"@);
}

/// What the caller has found out.
pub enum Finding {
    /// A file of this name is in the download folder.
    File(String),
    /// What the file keeps of a job; none, where it could not be read or keeps none.
    Kept(Option<JobMeta>),
    /// Whether the job has a folder.
    Folder(bool),
    /// The number of media files in the job's folder.
    Media(usize),
}

/// What the caller is to find out next.
pub enum Question<'a> {
    /// The next file in the download folder.
    NextFile,
    /// What the file keeps of a job.
    ReadFile,
    /// Whether the folder of the job is there.
    HasFolder(&'a JobMeta),
    /// The number of media files in the folder of the job.
    CountMedia(&'a JobMeta),
}

enum Step {
    File,
    Meta,
    Folder(JobMeta),
    Media(JobMeta),
}

#[verifier::ext_equal]
pub enum StepView {
    File,
    Meta,
    Folder(JobMetaView),
    Media(JobMetaView),
}

/// A recovery that is under way.
pub struct Recovery {
    step: Step,
    jobs: Vec<Job>,
}

#[verifier::ext_equal]
pub struct RecoveryView {
    pub step: StepView,
    pub jobs: Seq<JobView>,
}

impl View for Recovery {
    type V = RecoveryView;

    closed spec fn view(&self) -> RecoveryView {
        RecoveryView {
            step: match self.step {
                Step::File => StepView::File,
                Step::Meta => StepView::Meta,
                Step::Folder(m) => StepView::Folder(m@),
                Step::Media(m) => StepView::Media(m@),
            },
            jobs: job_views(self.jobs@),
        }
    }
}

impl RecoveryView {
    /// The recovery before anything was found.
    pub open spec fn start() -> RecoveryView {
        RecoveryView { step: StepView::File, jobs: Seq::empty() }
    }

    /// The recovery after `finding`. A finding that does not answer the
    /// recovery's question leaves the recovery as it is.
    pub open spec fn after(self, finding: Finding) -> RecoveryView {
        match (self.step, finding) {
            (StepView::File, Finding::File(name)) => if may_keep_job(name@) {
                RecoveryView { step: StepView::Meta, ..self }
            } else {
                self
            },
            (StepView::Meta, Finding::Kept(Some(meta))) => RecoveryView {
                step: StepView::Folder(meta@),
                ..self
            },
            (StepView::Meta, Finding::Kept(None)) => RecoveryView { step: StepView::File, ..self },
            (StepView::Folder(meta), Finding::Folder(there)) => if there {
                RecoveryView { step: StepView::Media(meta), ..self }
            } else {
                RecoveryView { step: StepView::File, ..self }
            },
            (StepView::Media(meta), Finding::Media(count)) => RecoveryView {
                step: StepView::File,
                jobs: self.jobs.push(JobView::restored(meta, count as nat)),
            },
            _ => self,
        }
    }
}

/// The job that the recovery asks about.
pub open spec fn asked_about(step: StepView) -> Option<JobMetaView> {
    match step {
        StepView::Folder(m) => Some(m),
        StepView::Media(m) => Some(m),
        _ => None,
    }
}

/// `question` is what the recovery asks.
pub open spec fn asks(recovery: RecoveryView, question: Question) -> bool {
    match (recovery.step, question) {
        (StepView::File, Question::NextFile) => true,
        (StepView::Meta, Question::ReadFile) => true,
        (StepView::Folder(m), Question::HasFolder(meta)) => meta@ == m,
        (StepView::Media(m), Question::CountMedia(meta)) => meta@ == m,
        _ => false,
    }
}

impl Recovery {
    /// A recovery before anything was found.
    pub fn new() -> (r: Recovery)
        ensures
            r@ == RecoveryView::start(),
    {
        let r = Recovery { step: Step::File, jobs: Vec::new() };
        assert(r@ =~= RecoveryView::start());
        r
    }

    /// What the caller is to find out next.
    pub fn question(&self) -> (r: Question<'_>)
        ensures
            asks(self@, r),
    {
        match &self.step {
            Step::File => Question::NextFile,
            Step::Meta => Question::ReadFile,
            Step::Folder(m) => Question::HasFolder(m),
            Step::Media(m) => Question::CountMedia(m),
        }
    }

    /// The folder in `download_dir` that is asked for, or whose media files are to be counted.
    pub fn folder(&self, download_dir: &str) -> (r: Option<String>)
        ensures
            r is Some <==> asked_about(self@.step) is Some,
            r matches Some(p) ==> p@ == joined(download_dir@, asked_about(self@.step)->0.id),
    {
        match &self.step {
            Step::Folder(m) => Some(path_join(download_dir, m.id.as_str())),
            Step::Media(m) => Some(path_join(download_dir, m.id.as_str())),
            _ => None,
        }
    }

    /// Whether the media files that are to be counted are those below the root of the folder only.
    pub fn skips_root(&self) -> (r: bool)
        ensures
            r == (self@.step matches StepView::Media(m) && skips_root_files(m.source)),
    {
        match &self.step {
            Step::Media(m) => skips_root(m.source.as_str()),
            _ => false,
        }
    }

    /// Takes in `finding`.
    pub fn answer(&mut self, finding: Finding)
        ensures
            final(self)@ == old(self)@.after(finding),
    {
        let ghost before = self@;
        let mut step = Step::File;
        std::mem::swap(&mut step, &mut self.step);
        match (step, finding) {
            (Step::File, Finding::File(name)) => {
                if is_meta_name(name.as_str()) {
                    self.step = Step::Meta;
                }
            },
            (Step::Meta, Finding::Kept(kept)) => {
                match kept {
                    Some(meta) => {
                        self.step = Step::Folder(meta);
                    },
                    None => {},
                }
            },
            (Step::Folder(meta), Finding::Folder(there)) => {
                if there {
                    self.step = Step::Media(meta);
                }
            },
            (Step::Media(meta), Finding::Media(count)) => {
                self.jobs.push(restored_job(meta, count));
                assert(job_views(self.jobs@) =~= before.jobs.push(
                    JobView::restored(meta@, count as nat),
                ));
            },
            (step, _) => {
                self.step = step;
            },
        }
        assert(self@ =~= before.after(finding));
    }

    /// The jobs that were restored, in the order in which they were found.
    pub fn into_jobs(self) -> (r: Vec<Job>)
        ensures
            job_views(r@) == self@.jobs,
    {
        self.jobs
    }
}

/// A file is restored as a job exactly where its name may keep one, it does
/// keep one, and the job has a folder; then the job is the one that was kept.
pub proof fn law_file_is_restored(
    recovery: RecoveryView,
    name: String,
    kept: Option<JobMeta>,
    there: bool,
    count: usize,
)
    requires
        recovery.step == StepView::File,
    ensures
        ({
            let end = recovery.after(Finding::File(name)).after(Finding::Kept(kept)).after(
                Finding::Folder(there),
            ).after(Finding::Media(count));
            &&& end.step == StepView::File
            &&& end.jobs == if may_keep_job(name@) && kept is Some && there {
                recovery.jobs.push(JobView::restored(kept->0@, count as nat))
            } else {
                recovery.jobs
            }
        }),
{
}

/// A job that was kept on disk and has a folder comes back: it is the same
/// job, done, with as many files as media were counted.
pub proof fn law_kept_job_comes_back(
    recovery: RecoveryView,
    job: JobView,
    name: String,
    meta: JobMeta,
    count: usize,
)
    requires
        recovery.step == StepView::File,
        job.id.len() > 0,
        name@ == meta_name(job.id),
        meta@ == job.kept(),
        count < 0x1_0000_0000,
    ensures
        ({
            let end = recovery.after(Finding::File(name)).after(Finding::Kept(Some(meta))).after(
                Finding::Folder(true),
            ).after(Finding::Media(count));
            &&& end.jobs.drop_last() == recovery.jobs
            &&& same_identity(end.jobs.last(), job)
            &&& end.jobs.last().status == JobStatus::Done
            &&& end.jobs.last().files_done == count
        }),
{
    law_kept_job_is_looked_at(job.id);
    law_file_is_restored(recovery, name, Some(meta), true, count);
    let back = JobView::restored(meta@, count as nat);
    assert(recovery.jobs.push(back).drop_last() =~= recovery.jobs);
}

/// What there is to be found of one file in the download folder.
pub struct Scan {
    pub name: String,
    pub kept: Option<JobMeta>,
    pub there: bool,
    pub count: usize,
}

/// The recovery after all was found of `files`, one after the other.
pub open spec fn scanned(files: Seq<Scan>) -> RecoveryView
    decreases files.len(),
{
    if files.len() == 0 {
        RecoveryView::start()
    } else {
        let f = files.last();
        scanned(files.drop_last()).after(Finding::File(f.name)).after(Finding::Kept(f.kept)).after(
            Finding::Folder(f.there),
        ).after(Finding::Media(f.count))
    }
}

/// Jobs survive a restart: a job that one file of the download folder keeps, and
/// that has a folder, is on the board again, whatever else the download folder holds.
pub proof fn law_jobs_survive_restart(files: Seq<Scan>, i: int, job: JobView)
    requires
        0 <= i < files.len(),
        job.id.len() > 0,
        files[i].name@ == meta_name(job.id),
        files[i].kept matches Some(meta) && meta@ == job.kept(),
        files[i].there,
        files[i].count < 0x1_0000_0000,
        forall|j: int|
            0 <= j < files.len() && j != i ==> ((#[trigger] files[j]).kept matches Some(meta)
                ==> meta@.id != job.id),
    ensures
        scanned(files).step == StepView::File,
        ({
            let board = board_of(scanned(files).jobs);
            &&& board.contains_key(job.id)
            &&& same_identity(board[job.id], job)
            &&& board[job.id].status == JobStatus::Done
            &&& board[job.id].files_done == files[i].count
        }),
    decreases files.len(),
{
    let rest = files.drop_last();
    let f = files.last();
    lemma_scanned(rest);
    law_file_is_restored(scanned(rest), f.name, f.kept, f.there, f.count);
    let jobs = scanned(rest).jobs;
    if i == files.len() - 1 {
        law_kept_job_is_looked_at(job.id);
        let back = JobView::restored(job.kept(), f.count as nat);
        assert(jobs.push(back).drop_last() =~= jobs);
    } else {
        assert(rest[i] == files[i]);
        assert forall|j: int| 0 <= j < rest.len() && j != i implies ((
        #[trigger] rest[j]).kept matches Some(meta) ==> meta@.id != job.id) by {
            assert(rest[j] == files[j]);
        }
        law_jobs_survive_restart(rest, i, job);
        if scanned(files).jobs != jobs {
            let other = JobView::restored(f.kept->0@, f.count as nat);
            assert(jobs.push(other).drop_last() =~= jobs);
            assert(files[files.len() - 1] == f);
        }
    }
}

/// After all was found of a file, the next file is asked for.
proof fn lemma_scanned(files: Seq<Scan>)
    ensures
        scanned(files).step == StepView::File,
    decreases files.len(),
{
    if files.len() > 0 {
        let f = files.last();
        lemma_scanned(files.drop_last());
        law_file_is_restored(scanned(files.drop_last()), f.name, f.kept, f.there, f.count);
    }
}

/// A file may keep a job exactly where its name ends with `.json` and something
/// stands before that.
pub proof fn law_names_that_may_keep_a_job(name: Seq<char>)
    ensures
        may_keep_job(name) <==> exists|id: Seq<char>| id.len() > 0 && #[trigger] (id + ".json"@)
            == name,
{
    if exists|id: Seq<char>| id.len() > 0 && #[trigger] (id + ".json"@) == name {
        let id = choose|id: Seq<char>| id.len() > 0 && #[trigger] (id + ".json"@) == name;
        law_kept_job_is_looked_at(id);
    }
    if may_keep_job(name) {
        law_first_of(name, seq!['.']);
        let i = last_of(name, seq!['.'])->0;
        assert(occurs_at(name, seq!['.'], i));
        assert(name.subrange(i, i + 1)[0] == name[i]);
        reveal_strlit(".json");
        reveal_strlit("json");
        assert("json"@.len() == 4);
        assert(name.skip(i + 1).len() == 4);
        assert(".json"@ =~= seq!['.'] + "json"@);
        assert(name =~= name.take(i) + seq!['.'] + name.skip(i + 1));
        assert(name.take(i) + ".json"@ =~= name);
    }
}

/// What is kept has a file of its own in the download folder: each job one
/// with its identifier, and the favorites one that no job with a random UUID has.
pub proof fn law_files_that_keep(download_dir: Seq<char>, a: Seq<char>, b: Seq<char>)
    requires
        is_random_uuid(a),
        is_random_uuid(b),
    ensures
        meta_path(download_dir, a) == joined(download_dir, a + ".json"@),
        favorites_path(download_dir) == joined(download_dir, "favorites.json"@),
        components(meta_path(download_dir, a)) == components(download_dir).push(a + ".json"@),
        components(favorites_path(download_dir)) == components(download_dir).push(
            "favorites.json"@,
        ),
        meta_path(download_dir, a) == meta_path(download_dir, b) <==> a == b,
        meta_path(download_dir, a) != favorites_path(download_dir),
{
    lemma_meta_component(download_dir, a);
    lemma_meta_component(download_dir, b);
    reveal_strlit("favorites.json");
    reveal_strlit(".json");
    assert("favorites.json"@.len() == 14);
    law_name_is_component(download_dir, "favorites.json"@);
    let x = components(meta_path(download_dir, a));
    let y = components(meta_path(download_dir, b));
    let z = components(favorites_path(download_dir));
    assert(x.last() == a + ".json"@ && y.last() == b + ".json"@);
    assert(z.last() == "favorites.json"@);
    assert((a + ".json"@).len() == 41);
    if a + ".json"@ == b + ".json"@ {
        assert(a =~= (a + ".json"@).take(36));
        assert(b =~= (b + ".json"@).take(36));
    }
}

proof fn lemma_meta_component(download_dir: Seq<char>, id: Seq<char>)
    requires
        is_random_uuid(id),
    ensures
        components(meta_path(download_dir, id)) == components(download_dir).push(id + ".json"@),
{
    let name = id + ".json"@;
    reveal_strlit(".json");
    assert forall|i: int| 0 <= i < name.len() implies #[trigger] name[i] != '/' by {
        if i < id.len() {
            assert(name[i] == id[i]);
            assert(id[i] == '-' || is_lower_hex(id[i]));
        } else {
            assert(name[i] == ".json"@[i - id.len()]);
        }
    }
    assert(name.len() == 41);
    law_name_is_component(download_dir, name);
}

/// What a recovery asks about tells all that is to be found out.
pub proof fn law_question_fits(recovery: RecoveryView, question: Question)
    requires
        asks(recovery, question),
    ensures
        match recovery.step {
            StepView::File => question is NextFile && asked_about(recovery.step) is None,
            StepView::Meta => question is ReadFile && asked_about(recovery.step) is None,
            StepView::Folder(m) => (question matches Question::HasFolder(meta) && meta@ == m)
                && asked_about(recovery.step) == Some(m),
            StepView::Media(m) => (question matches Question::CountMedia(meta) && meta@ == m)
                && asked_about(recovery.step) == Some(m),
        },
{
}

/// What a recovery does with each finding. A file that may keep a job is read;
/// what it keeps is looked for; what has a folder is counted and restored; and
/// everything else is passed over.
pub proof fn law_course_of_a_recovery(
    recovery: RecoveryView,
    name: String,
    meta: JobMeta,
    there: bool,
    count: usize,
)
    ensures
        recovery.step == StepView::File ==> {
            let next = recovery.after(Finding::File(name));
            &&& next.jobs == recovery.jobs
            &&& next.step == StepView::Meta <==> may_keep_job(name@)
            &&& next.step == StepView::File <==> !may_keep_job(name@)
        },
        recovery.step == StepView::Meta ==> {
            &&& recovery.after(Finding::Kept(Some(meta))).step == StepView::Folder(meta@)
            &&& recovery.after(Finding::Kept(Some(meta))).jobs == recovery.jobs
            &&& recovery.after(Finding::Kept(None)).step == StepView::File
            &&& recovery.after(Finding::Kept(None)).jobs == recovery.jobs
        },
        recovery.step matches StepView::Folder(m) ==> {
            &&& recovery.after(Finding::Folder(true)).step == StepView::Media(m)
            &&& recovery.after(Finding::Folder(false)).step == StepView::File
            &&& recovery.after(Finding::Folder(there)).jobs == recovery.jobs
        },
        recovery.step matches StepView::Media(m) ==> {
            let next = recovery.after(Finding::Media(count));
            &&& next.step == StepView::File
            &&& next.jobs == recovery.jobs.push(JobView::restored(m, count as nat))
        },
{
}

/// A recovery looks for a job where a run of it downloads to.
pub proof fn law_recovery_looks_where_runs_download(
    job: JobView,
    download_dir: Seq<char>,
    step: StepView,
)
    requires
        asked_about(step) == Some(job.kept()),
    ensures
        joined(download_dir, asked_about(step)->0.id) == RunView::of(job, download_dir).dest,
        skips_root_files(asked_about(step)->0.source) <==> RunView::of(job, download_dir).tool
            == Tool::Mega,
{
}

} // verus!
