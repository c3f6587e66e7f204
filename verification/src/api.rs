//! The answers to requests that change something.

use vstd::prelude::*;
use crate::board::JobBoard;
use crate::favorites::{without, Favorites};
use crate::ident::is_random_uuid;
use crate::job::{Job, JobView};
use crate::status::Status;
use crate::table::Table;
use crate::text::trimmed;

verus! {

/// Queues a download of the URL `raw`, and hands back a copy of the job.
/// A blank URL is a bad request.
pub fn queue(board: &mut JobBoard, raw: &str, now: u64) -> (r: (Status, Option<Job>))
    requires
        old(board).wf(),
    ensures
        final(board).wf(),
        r.0 == if trimmed(raw@).len() == 0 {
            Status::BadRequest
        } else {
            Status::Success
        },
        r.1 is Some <==> r.0 == Status::Success,
        r.1 is None ==> final(board)@ == old(board)@,
        r.1 matches Some(job) ==> {
            &&& is_random_uuid(job@.id)
            &&& job@ == JobView::queued(raw@, job@.id, now)
            &&& final(board)@ == old(board)@.insert(job@.id, job@)
        },
{
    match board.queue(raw, now) {
        Some(job) => (Status::Success, Some(job)),
        None => (Status::BadRequest, None),
    }
}

/// Cancels the download of the job `id`: hands back the means to cancel it,
/// which cannot be had a second time.
pub fn cancel<C>(cancels: &mut Table<C>, id: &str) -> (r: (Status, Option<C>))
    requires
        old(cancels).wf(),
    ensures
        final(cancels).wf(),
        final(cancels)@ == old(cancels)@.remove(id@),
        r.0 == if old(cancels)@.contains_key(id@) {
            Status::Success
        } else {
            Status::NotFound
        },
        r.1 is Some <==> old(cancels)@.contains_key(id@),
        r.1 matches Some(c) ==> c == old(cancels)@[id@],
{
    match cancels.remove(id) {
        Some(c) => (Status::Success, Some(c)),
        None => (Status::NotFound, None),
    }
}

/// Removes the favorites with the identifier `id`.
pub fn remove_favorite(favorites: &mut Favorites, id: &str) -> (r: Status)
    ensures
        final(favorites)@ == without(old(favorites)@, id@),
        r == if exists|i: int|
            0 <= i < old(favorites)@.len() && (#[trigger] old(favorites)@[i]).id == id@ {
            Status::Success
        } else {
            Status::NotFound
        },
{
    if favorites.remove(id) {
        Status::Success
    } else {
        Status::NotFound
    }
}

} // verus!
