//! All the jobs of the server.

use vstd::prelude::*;
use crate::job::{
    counts_up, new_job, outcome_view, queued_job, skips_root, skips_root_files, Job, JobView, Outcome,
};
use crate::ident::is_random_uuid;
use crate::source::Tool;
use crate::table::Table;
use crate::text::trimmed;

verus! {

/// The jobs, each under its identifier.
pub struct JobBoard {
    jobs: Table<Job>,
}

impl View for JobBoard {
    type V = Map<Seq<char>, JobView>;

    /// The job with each identifier.
    closed spec fn view(&self) -> Map<Seq<char>, JobView> {
        self.jobs@.map_values(|j: Job| j@)
    }
}

/// The board that `jobs` make, taken one after the other: of two jobs with one
/// identifier, the later one stays.
pub open spec fn board_of(jobs: Seq<JobView>) -> Map<Seq<char>, JobView>
    decreases jobs.len(),
{
    if jobs.len() == 0 {
        Map::empty()
    } else {
        board_of(jobs.drop_last()).insert(jobs.last().id, jobs.last())
    }
}

pub open spec fn job_views(jobs: Seq<Job>) -> Seq<JobView> {
    jobs.map_values(|j: Job| j@)
}

/// `jobs` are the jobs of `board`, each of them once.
pub open spec fn lists(jobs: Seq<JobView>, board: Map<Seq<char>, JobView>) -> bool {
    &&& forall|i: int|
        0 <= i < jobs.len() ==> board.contains_key((#[trigger] jobs[i]).id) && board[jobs[i].id]
            == jobs[i]
    &&& forall|i: int, j: int| 0 <= i < j < jobs.len() ==> jobs[i].id != jobs[j].id
    &&& forall|id: Seq<char>| #[trigger]
        board.contains_key(id) ==> exists|i: int| 0 <= i < jobs.len() && jobs[i].id == id
}

impl JobBoard {
    /// Every job stands under its own identifier.
    pub closed spec fn wf(self) -> bool {
        &&& self.jobs.wf()
        &&& forall|id: Seq<char>| #[trigger]
            self.jobs@.contains_key(id) ==> self.jobs@[id]@.id == id
    }

    /// Every job stands under its own identifier.
    pub proof fn law_jobs_stand_under_own_id(self)
        requires
            self.wf(),
        ensures
            forall|id: Seq<char>| #[trigger] self@.contains_key(id) ==> self@[id].id == id,
    {
    }

    pub fn new() -> (r: Self)
        ensures
            r.wf(),
            r@ == Map::<Seq<char>, JobView>::empty(),
    {
        let r = JobBoard { jobs: Table::new() };
        assert(r@ =~= Map::empty());
        r
    }

    /// The board with the jobs of `jobs`; of two jobs with one identifier the later one stays.
    pub fn from_jobs(jobs: Vec<Job>) -> (r: Self)
        ensures
            r.wf(),
            r@ == board_of(job_views(jobs@)),
    {
        let mut r = JobBoard::new();
        let ghost all = job_views(jobs@);
        assert(all.take(0) =~= Seq::empty());
        for i in 0..jobs.len()
            invariant
                r.wf(),
                all == job_views(jobs@),
                r@ == board_of(all.take(i as int)),
        {
            let job = jobs[i].clone();
            assert(all.take(i + 1).drop_last() =~= all.take(i as int));
            assert(all.take(i + 1).last() == job@);
            r.insert(job);
        }
        assert(all.take(all.len() as int) =~= all);
        r
    }

    /// The number of jobs.
    pub fn len(&self) -> (r: usize)
        requires
            self.wf(),
        ensures
            r == self@.dom().len(),
    {
        proof {
            self.jobs.lemma_keys();
            let ks = self.jobs.keys();
            ks.unique_seq_to_set();
            assert(ks.to_set() =~= self@.dom());
        }
        self.jobs.len()
    }

    /// Puts `job` on the board, in place of one with the same identifier.
    pub fn insert(&mut self, job: Job)
        requires
            old(self).wf(),
        ensures
            final(self).wf(),
            final(self)@ == old(self)@.insert(job@.id, job@),
    {
        let ghost before = *self;
        let id = job.id.clone();
        self.jobs.insert(id, job);
        assert(self@ =~= before@.insert(job@.id, job@));
    }

    /// Puts the job for the URL `raw` on the board, with the identifier `id`,
    /// and hands back a copy; none, where the URL is blank.
    pub fn queue_as(&mut self, raw: &str, id: String, now: u64) -> (r: Option<Job>)
        requires
            old(self).wf(),
        ensures
            final(self).wf(),
            r is None <==> trimmed(raw@).len() == 0,
            r is None ==> final(self)@ == old(self)@,
            r matches Some(job) ==> {
                &&& job@ == JobView::queued(raw@, id@, now)
                &&& final(self)@ == old(self)@.insert(id@, job@)
            },
    {
        match queued_job(raw, id, now) {
            Some(job) => {
                self.insert(job.clone());
                Some(job)
            },
            None => None,
        }
    }

    /// Puts the job for the URL `raw` on the board, with a fresh identifier,
    /// and hands back a copy; none, where the URL is blank.
    pub fn queue(&mut self, raw: &str, now: u64) -> (r: Option<Job>)
        requires
            old(self).wf(),
        ensures
            final(self).wf(),
            r is None <==> trimmed(raw@).len() == 0,
            r is None ==> final(self)@ == old(self)@,
            r matches Some(job) ==> {
                &&& is_random_uuid(job@.id)
                &&& job@ == JobView::queued(raw@, job@.id, now)
                &&& final(self)@ == old(self)@.insert(job@.id, job@)
            },
    {
        match new_job(raw, now) {
            Some(job) => {
                self.insert(job.clone());
                Some(job)
            },
            None => None,
        }
    }

    /// The job with the identifier `id`.
    pub fn get(&self, id: &str) -> (r: Option<&Job>)
        requires
            self.wf(),
        ensures
            r is Some <==> self@.contains_key(id@),
            r matches Some(job) ==> job@ == self@[id@],
    {
        self.jobs.get(id)
    }

    /// Copies of all the jobs.
    pub fn all(&self) -> (r: Vec<Job>)
        requires
            self.wf(),
        ensures
            lists(job_views(r@), self@),
    {
        let mut out: Vec<Job> = Vec::new();
        let ghost ks = self.jobs.keys();
        proof {
            self.jobs.lemma_keys();
        }
        let n: usize = self.jobs.len();
        for i in 0..n
            invariant
                self.wf(),
                ks == self.jobs.keys(),
                n == ks.len(),
                forall|id: Seq<char>| self.jobs@.contains_key(id) <==> #[trigger] ks.contains(id),
                out@.len() == i,
                forall|j: int| 0 <= j < i ==> (#[trigger] out@[j])@ == self@[ks[j]],
        {
            let job = self.jobs.nth(i);
            out.push(job.clone());
            assert(self.jobs@.contains_key(ks[i as int]));
        }
        proof {
            let v = job_views(out@);
            assert forall|i: int| 0 <= i < v.len() implies self@.contains_key((#[trigger] v[i]).id)
                && self@[v[i].id] == v[i] && v[i].id == ks[i] by {
                assert(ks.contains(ks[i]));
                assert(v[i] == out@[i]@);
            }
            assert forall|id: Seq<char>| #[trigger] self@.contains_key(id) implies exists|i: int|
                0 <= i < v.len() && v[i].id == id by {
                assert(ks.contains(id));
                let i = ks.index_of(id);
                assert(v[i].id == id);
            }
        }
        out
    }

    /// Whether the job `id` downloads to subfolders, so that the files at the
    /// root of its folder are none of its media.
    pub fn skips_root(&self, id: &str) -> (r: bool)
        requires
            self.wf(),
        ensures
            r == (self@.contains_key(id@) && skips_root_files(self@[id@].source)),
    {
        match self.jobs.get(id) {
            Some(job) => skips_root(job.source.as_str()),
            None => false,
        }
    }

    /// Marks the job `id` as one whose download begins, and hands back a copy.
    pub fn start(&mut self, id: &str) -> (r: Option<Job>)
        requires
            old(self).wf(),
        ensures
            final(self).wf(),
            r is Some <==> old(self)@.contains_key(id@),
            r is None ==> final(self)@ == old(self)@,
            r matches Some(job) ==> {
                &&& job@ == old(self)@[id@].started()
                &&& final(self)@ == old(self)@.insert(id@, job@)
            },
    {
        let ghost before = *self;
        match self.jobs.get_mut(id) {
            Some(job) => {
                job.start();
                let copy = job.clone();
                assert(self@ =~= before@.insert(id@, copy@));
                Some(copy)
            },
            None => None,
        }
    }

    /// Records how the download of the job `id` ended, and hands back a copy.
    pub fn finish(&mut self, id: &str, outcome: Outcome) -> (r: Option<Job>)
        requires
            old(self).wf(),
        ensures
            final(self).wf(),
            r is Some <==> old(self)@.contains_key(id@),
            r is None ==> final(self)@ == old(self)@,
            r matches Some(job) ==> {
                &&& job@ == old(self)@[id@].finished(outcome_view(outcome))
                &&& final(self)@ == old(self)@.insert(id@, job@)
            },
    {
        let ghost before = *self;
        match self.jobs.get_mut(id) {
            Some(job) => {
                job.finish(outcome);
                let copy = job.clone();
                assert(self@ =~= before@.insert(id@, copy@));
                Some(copy)
            },
            None => None,
        }
    }

    /// Takes in a line from the standard output of `tool`, which downloads the
    /// job `id`, and hands back a copy; none, where the line is blank or the job is not there.
    pub fn stdout_line(&mut self, id: &str, tool: Tool, line: &str) -> (r: Option<Job>)
        requires
            old(self).wf(),
            counts_up(tool, line@) && old(self)@.contains_key(id@) ==> old(self)@[id@].files_done
                < u32::MAX,
        ensures
            final(self).wf(),
            r is Some <==> old(self)@.contains_key(id@) && trimmed(line@).len() > 0,
            r is None ==> final(self)@ == old(self)@,
            r matches Some(job) ==> {
                &&& job@ == old(self)@[id@].after_stdout(tool, line@)
                &&& final(self)@ == old(self)@.insert(id@, job@)
            },
    {
        let ghost before = *self;
        match self.jobs.get_mut(id) {
            Some(job) => {
                let told = job.stdout_line(tool, line);
                let copy = job.clone();
                assert(self@ =~= before@.insert(id@, copy@));
                if told {
                    Some(copy)
                } else {
                    assert(self@ =~= before@);
                    None
                }
            },
            None => None,
        }
    }

    /// Takes in a line from the standard error of the program that downloads
    /// the job `id`, and hands back a copy; none, where the line is blank or the job is not there.
    pub fn stderr_line(&mut self, id: &str, line: &str) -> (r: Option<Job>)
        requires
            old(self).wf(),
        ensures
            final(self).wf(),
            r is Some <==> old(self)@.contains_key(id@) && trimmed(line@).len() > 0,
            r is None ==> final(self)@ == old(self)@,
            r matches Some(job) ==> {
                &&& job@ == old(self)@[id@].after_stderr(line@)
                &&& final(self)@ == old(self)@.insert(id@, job@)
            },
    {
        let ghost before = *self;
        match self.jobs.get_mut(id) {
            Some(job) => {
                let told = job.stderr_line(line);
                let copy = job.clone();
                assert(self@ =~= before@.insert(id@, copy@));
                if told {
                    Some(copy)
                } else {
                    assert(self@ =~= before@);
                    None
                }
            },
            None => None,
        }
    }
}

/// Every job that a board is made of is on it, unless one with the same
/// identifier came later, and nothing else is.
pub proof fn law_board_of(jobs: Seq<JobView>, id: Seq<char>, i: int)
    ensures
        board_of(jobs).contains_key(id) <==> exists|k: int|
            0 <= k < jobs.len() && (#[trigger] jobs[k]).id == id,
        0 <= i < jobs.len() && (forall|k: int|
            i < k < jobs.len() ==> (#[trigger] jobs[k]).id != jobs[i].id) ==> board_of(
            jobs,
        ).contains_key(jobs[i].id) && board_of(jobs)[jobs[i].id] == jobs[i],
    decreases jobs.len(),
{
    if jobs.len() > 0 {
        let rest = jobs.drop_last();
        law_board_of(rest, id, i);
        assert(forall|k: int| 0 <= k < rest.len() ==> #[trigger] jobs[k] == rest[k]);
        assert(jobs[jobs.len() - 1] == jobs.last());
        if board_of(rest).contains_key(id) {
            let k = choose|k: int| 0 <= k < rest.len() && (#[trigger] rest[k]).id == id;
            assert(jobs[k].id == id);
        }
        if exists|k: int| 0 <= k < jobs.len() && (#[trigger] jobs[k]).id == id {
            let k = choose|k: int| 0 <= k < jobs.len() && (#[trigger] jobs[k]).id == id;
            if k < rest.len() {
                assert(rest[k].id == id);
            }
        }
    }
}

/// A list of the jobs of a board holds each of them as it is on the board,
/// once, and no other.
pub proof fn law_list_is_complete(
    jobs: Seq<JobView>,
    board: Map<Seq<char>, JobView>,
    id: Seq<char>,
)
    requires
        lists(jobs, board),
    ensures
        board.contains_key(id) ==> jobs.contains(board[id]),
        forall|i: int|
            0 <= i < jobs.len() ==> board.contains_key((#[trigger] jobs[i]).id)
                && board[jobs[i].id] == jobs[i],
        forall|i: int, j: int|
            0 <= i < jobs.len() && 0 <= j < jobs.len() && #[trigger] jobs[i].id == #[trigger] jobs[j].id
                ==> i == j,
{
    if board.contains_key(id) {
        let i = choose|i: int| 0 <= i < jobs.len() && jobs[i].id == id;
        assert(jobs[i] == board[id]);
    }
}

/// The views of jobs are those of each, one for one and in their order.
pub proof fn law_job_views(jobs: Seq<Job>, i: int)
    requires
        0 <= i < jobs.len(),
    ensures
        job_views(jobs).len() == jobs.len(),
        job_views(jobs)[i] == jobs[i]@,
{
}

} // verus!
