//! Thumbnails. Each is made once, and is kept in the folder `.thumbs` of its job.

use vstd::prelude::*;
use vstd::string::*;
use vstd::utf8::is_ascii_chars;
use crate::media::{
    is_video_ext, law_kind_of_extension, law_raw_extension, lower_ext, lowered, raw_ext, video_ext,
};
use crate::path::{below, is_within, joined, law_below_within, law_joined_text, path_below, path_join};
use crate::serve::{header_views, job_folder, locate, located};
use crate::status::Status;
use crate::text::{chars_of, find_last, last_of, lemma_last, occurs_at, slice_text, texts};

verus! {

/// The folder of the thumbnails of the job `id`.
pub open spec fn thumbs_folder(download_dir: Seq<char>, id: Seq<char>) -> Seq<char> {
    joined(job_folder(download_dir, id), ".thumbs"@)
}

/// The thumbnail of the file `file_path` of the job `id`:
/// `{job folder}/.thumbs/{file_path}.jpg`.
pub open spec fn thumb_of(
    download_dir: Seq<char>,
    id: Seq<char>,
    file_path: Seq<char>,
) -> Seq<char> {
    below(thumbs_folder(download_dir, id), file_path) + ".jpg"@
}

/// What stands before the last slash of a path.
pub open spec fn parent_of(path: Seq<char>) -> Option<Seq<char>> {
    match last_of(path, seq!['/']) {
        Some(i) => Some(path.take(i)),
        None => None,
    }
}

/// The arguments of the program that makes the thumbnail `thumb` from the
/// file `src`. Of a video, it is the picture after one second.
pub open spec fn render_arguments(src: Seq<char>, thumb: Seq<char>, video: bool) -> Seq<
    Seq<char>,
> {
    let seek: Seq<Seq<char>> = if video {
        seq!["-ss"@, "1"@]
    } else {
        Seq::empty()
    };
    seq!["-y"@] + seek + seq![
        "-i"@,
        src,
        "-vframes"@,
        "1"@,
        "-vf"@,
        "scale=400:400:force_original_aspect_ratio=decrease"@,
        "-q:v"@,
        "4"@,
        thumb,
    ]
}

/// The arguments of the program that makes the thumbnail `thumb` from the file `src`.
pub fn render_args(src: &str, thumb: &str, video: bool) -> (r: Vec<String>)
    ensures
        texts(r@) == render_arguments(src@, thumb@, video),
{
    let mut out: Vec<String> = vec!["-y".to_owned()];
    if video {
        out.push("-ss".to_owned());
        out.push("1".to_owned());
    }
    out.push("-i".to_owned());
    out.push(src.to_owned());
    out.push("-vframes".to_owned());
    out.push("1".to_owned());
    out.push("-vf".to_owned());
    out.push("scale=400:400:force_original_aspect_ratio=decrease".to_owned());
    out.push("-q:v".to_owned());
    out.push("4".to_owned());
    out.push(thumb.to_owned());
    assert(texts(out@) =~= render_arguments(src@, thumb@, video));
    out
}

/// The thumbnail of the file `file_path` of the job `id`.
pub fn thumb_path(download_dir: &str, id: &str, file_path: &str) -> (r: String)
    ensures
        r@ == thumb_of(download_dir@, id@, file_path@),
{
    let base = path_join(download_dir, id);
    let folder = path_join(base.as_str(), ".thumbs");
    path_below(folder.as_str(), file_path).concat(".jpg")
}

/// What stands before the last slash of a path.
fn parent(path: &str) -> (r: Option<String>)
    ensures
        r is Some <==> parent_of(path@) is Some,
        r matches Some(p) ==> parent_of(path@) == Some(p@),
{
    let cs = chars_of(path);
    let slash: [char; 1] = ['/'];
    assert(slash@ =~= seq!['/']);
    match find_last(cs.as_slice(), &slash) {
        Some(i) => {
            let p = slice_text(cs.as_slice(), 0, i);
            assert(p@ =~= path@.take(i as int));
            Some(p)
        },
        None => None,
    }
}

/// A thumbnail lies within the folder of its job's thumbnails.
pub proof fn law_thumb_within_folder(
    download_dir: Seq<char>,
    id: Seq<char>,
    file_path: Seq<char>,
)
    ensures
        is_within(
            thumb_of(download_dir, id, file_path),
            thumbs_folder(download_dir, id),
        ),
{
    let folder = thumbs_folder(download_dir, id);
    law_below_within(folder, file_path + ".jpg"@);
    assert(thumb_of(download_dir, id, file_path) =~= below(folder, file_path + ".jpg"@));
}

/// Two files of a job never share a thumbnail.
pub proof fn law_thumbs_are_distinct(
    download_dir: Seq<char>,
    id: Seq<char>,
    a: Seq<char>,
    b: Seq<char>,
)
    requires
        thumb_of(download_dir, id, a) == thumb_of(download_dir, id, b),
    ensures
        a == b,
{
    let folder = thumbs_folder(download_dir, id);
    let x = thumb_of(download_dir, id, a);
    let y = thumb_of(download_dir, id, b);
    let head = below(folder, Seq::empty());
    assert(below(folder, a) =~= head + a);
    assert(below(folder, b) =~= head + b);
    assert(x.len() == head.len() + a.len() + ".jpg"@.len());
    assert(y.len() == head.len() + b.len() + ".jpg"@.len());
    assert forall|i: int| 0 <= i < a.len() implies a[i] == b[i] by {
        assert(x[head.len() + i] == a[i]);
        assert(y[head.len() + i] == b[i]);
    }
    assert(a =~= b);
}

/// What has happened to a request for a thumbnail.
pub enum ThumbEvent {
    /// The thumbnail was read, or could not be.
    Read(bool),
    /// The folder was created, or could not be.
    FolderTried,
    /// The program that makes the thumbnail succeeded, or not.
    Rendered(bool),
}

/// What is to be done next.
#[derive(Clone, Copy, Debug, PartialEq, Eq, Structural)]
pub enum ThumbAction {
    /// Read the thumbnail.
    Read,
    /// Create the folder that the thumbnail is kept in.
    CreateFolder,
    /// Run the program that makes the thumbnail.
    Render,
    /// Send what was read, with a status.
    Send(Status),
    /// Send no more than a status.
    Refuse(Status),
}

#[derive(Clone, Copy, Debug, PartialEq, Eq, Structural)]
pub enum ThumbPhase {
    Lookup,
    Folder,
    Render,
    ReadBack,
    Send,
    Refused(Status),
}

impl ThumbPhase {
    /// What is to be done next.
    pub open spec fn action(self) -> ThumbAction {
        match self {
            ThumbPhase::Lookup => ThumbAction::Read,
            ThumbPhase::Folder => ThumbAction::CreateFolder,
            ThumbPhase::Render => ThumbAction::Render,
            ThumbPhase::ReadBack => ThumbAction::Read,
            ThumbPhase::Send => ThumbAction::Send(Status::Success),
            ThumbPhase::Refused(s) => ThumbAction::Refuse(s),
        }
    }

    /// The phase after `event`. An event that does not answer the phase's
    /// action leaves the phase as it is.
    pub open spec fn next(self, event: ThumbEvent) -> ThumbPhase {
        match (self, event) {
            (ThumbPhase::Lookup, ThumbEvent::Read(true)) => ThumbPhase::Send,
            (ThumbPhase::Lookup, ThumbEvent::Read(false)) => ThumbPhase::Folder,
            (ThumbPhase::Folder, ThumbEvent::FolderTried) => ThumbPhase::Render,
            (ThumbPhase::Render, ThumbEvent::Rendered(true)) => ThumbPhase::ReadBack,
            (ThumbPhase::Render, ThumbEvent::Rendered(false)) => ThumbPhase::Refused(
                Status::NotFound,
            ),
            (ThumbPhase::ReadBack, ThumbEvent::Read(true)) => ThumbPhase::Send,
            (ThumbPhase::ReadBack, ThumbEvent::Read(false)) => ThumbPhase::Refused(
                Status::InternalServerError,
            ),
            _ => self,
        }
    }
}

/// A request for a thumbnail.
pub struct ThumbRequest {
    src: String,
    thumb: String,
    phase: ThumbPhase,
}

#[verifier::ext_equal]
pub struct ThumbRequestView {
    pub src: Seq<char>,
    pub thumb: Seq<char>,
    pub phase: ThumbPhase,
}

impl View for ThumbRequest {
    type V = ThumbRequestView;

    closed spec fn view(&self) -> ThumbRequestView {
        ThumbRequestView { src: self.src@, thumb: self.thumb@, phase: self.phase }
    }
}

impl ThumbRequestView {
    /// The request for the thumbnail of the file `file_path` of the job `id`.
    pub open spec fn of(
        download_dir: Seq<char>,
        id: Seq<char>,
        file_path: Seq<char>,
    ) -> ThumbRequestView {
        match located(download_dir, id, file_path) {
            Some(src) => ThumbRequestView {
                src,
                thumb: thumb_of(download_dir, id, file_path),
                phase: ThumbPhase::Lookup,
            },
            None => ThumbRequestView {
                src: Seq::empty(),
                thumb: Seq::empty(),
                phase: ThumbPhase::Refused(Status::Forbidden),
            },
        }
    }
}

/// The headers of a reply with a thumbnail, in their order.
pub open spec fn thumb_header_list() -> Seq<(Seq<char>, Seq<char>)> {
    seq![
        ("content-type"@, "image/jpeg"@),
        ("cache-control"@, "max-age=31536000, immutable"@),
    ]
}

/// The headers of a reply with a thumbnail, in their order.
pub fn thumb_headers() -> (r: Vec<(&'static str, String)>)
    ensures
        header_views(r@) == thumb_header_list(),
{
    let mut out: Vec<(&'static str, String)> = Vec::new();
    out.push(("content-type", "image/jpeg".to_owned()));
    out.push(("cache-control", "max-age=31536000, immutable".to_owned()));
    assert(header_views(out@) =~= thumb_header_list());
    out
}

impl ThumbRequest {
    /// The request for the thumbnail of the file `file_path` of the job `id`.
    pub fn new(download_dir: &str, id: &str, file_path: &str) -> (r: ThumbRequest)
        ensures
            r@ == ThumbRequestView::of(download_dir@, id@, file_path@),
    {
        match locate(download_dir, id, file_path) {
            Some(src) => ThumbRequest {
                src,
                thumb: thumb_path(download_dir, id, file_path),
                phase: ThumbPhase::Lookup,
            },
            None => ThumbRequest {
                src: String::new(),
                thumb: String::new(),
                phase: ThumbPhase::Refused(Status::Forbidden),
            },
        }
    }

    /// The path of the thumbnail.
    pub fn thumb(&self) -> (r: &str)
        ensures
            r@ == self@.thumb,
    {
        self.thumb.as_str()
    }

    /// The folder that the thumbnail is kept in.
    pub fn folder(&self) -> (r: Option<String>)
        ensures
            r is Some <==> parent_of(self@.thumb) is Some,
            r matches Some(p) ==> parent_of(self@.thumb) == Some(p@),
    {
        parent(self.thumb.as_str())
    }

    /// The name of the program that makes the thumbnail.
    pub fn program(&self) -> (r: &'static str)
        ensures
            r@ == "ffmpeg"@,
    {
        "ffmpeg"
    }

    /// The arguments of the program that makes the thumbnail.
    pub fn args(&self) -> (r: Vec<String>)
        ensures
            texts(r@) == render_arguments(
                self@.src,
                self@.thumb,
                is_video_ext(lowered(raw_ext(self@.src))),
            ),
    {
        let ext = lower_ext(self.src.as_str());
        render_args(self.src.as_str(), self.thumb.as_str(), video_ext(ext.as_str()))
    }

    /// What is to be done next.
    pub fn action(&self) -> (r: ThumbAction)
        ensures
            r == self@.phase.action(),
    {
        match self.phase {
            ThumbPhase::Lookup => ThumbAction::Read,
            ThumbPhase::Folder => ThumbAction::CreateFolder,
            ThumbPhase::Render => ThumbAction::Render,
            ThumbPhase::ReadBack => ThumbAction::Read,
            ThumbPhase::Send => ThumbAction::Send(Status::Success),
            ThumbPhase::Refused(s) => ThumbAction::Refuse(s),
        }
    }

    /// Takes in `event`.
    pub fn step(&mut self, event: ThumbEvent)
        ensures
            final(self)@ == (ThumbRequestView {
                phase: old(self)@.phase.next(event),
                ..old(self)@
            }),
    {
        self.phase = match (self.phase, event) {
            (ThumbPhase::Lookup, ThumbEvent::Read(read)) => if read {
                ThumbPhase::Send
            } else {
                ThumbPhase::Folder
            },
            (ThumbPhase::Folder, ThumbEvent::FolderTried) => ThumbPhase::Render,
            (ThumbPhase::Render, ThumbEvent::Rendered(ok)) => if ok {
                ThumbPhase::ReadBack
            } else {
                ThumbPhase::Refused(Status::NotFound)
            },
            (ThumbPhase::ReadBack, ThumbEvent::Read(read)) => if read {
                ThumbPhase::Send
            } else {
                ThumbPhase::Refused(Status::InternalServerError)
            },
            (phase, _) => phase,
        };
    }
}

/// The phase after `events`, one after the other.
pub open spec fn replay(phase: ThumbPhase, events: Seq<ThumbEvent>) -> ThumbPhase
    decreases events.len(),
{
    if events.len() == 0 {
        phase
    } else {
        replay(phase, events.drop_last()).next(events.last())
    }
}

/// A thumbnail that could be read is sent as it is, whatever else happens: it is
/// not made again.
pub proof fn law_kept_thumb_is_not_made_again(events: Seq<ThumbEvent>)
    requires
        events.len() > 0,
        events[0] == ThumbEvent::Read(true),
    ensures
        replay(ThumbPhase::Lookup, events) == ThumbPhase::Send,
    decreases events.len(),
{
    if events.len() > 1 {
        law_kept_thumb_is_not_made_again(events.drop_last());
    } else {
        reveal_with_fuel(replay, 2);
        assert(events.drop_last() =~= Seq::empty());
    }
}

/// A thumbnail is kept in a folder: it has a parent.
pub proof fn law_thumb_has_folder(
    download_dir: Seq<char>,
    id: Seq<char>,
    file_path: Seq<char>,
)
    ensures
        parent_of(thumb_of(download_dir, id, file_path)) is Some,
{
    let t = thumb_of(download_dir, id, file_path);
    let folder = thumbs_folder(download_dir, id);
    reveal_strlit(".thumbs");
    assert(folder.len() > 0);
    let head = below(folder, Seq::empty());
    assert(t =~= head + file_path + ".jpg"@);
    let i = head.len() - 1;
    assert(t[i] == '/');
    assert(t.subrange(i, i + 1) =~= seq!['/']);
    assert(occurs_at(t, seq!['/'], i));
}

/// Where a thumbnail is kept: in the folder `.thumbs` of the job's folder,
/// under the path of its file, with `.jpg` behind it.
pub proof fn law_thumb_text(download_dir: Seq<char>, id: Seq<char>, file_path: Seq<char>)
    requires
        joined(download_dir, id).len() > 0,
        joined(download_dir, id).last() != '/',
    ensures
        thumb_of(download_dir, id, file_path) == joined(download_dir, id) + "/.thumbs/"@ + file_path
            + ".jpg"@,
{
    let base = joined(download_dir, id);
    reveal_strlit("/.thumbs/");
    reveal_strlit(".thumbs");
    law_joined_text(base, ".thumbs"@);
    let folder = base + seq!['/'] + ".thumbs"@;
    assert(folder.last() == 's');
    law_joined_text(folder, file_path);
    assert(thumb_of(download_dir, id, file_path) =~= base + "/.thumbs/"@ + file_path + ".jpg"@);
}

/// The folder of a thumbnail is all that stands before its last slash.
pub proof fn law_parent(folder: Seq<char>, name: Seq<char>)
    requires
        forall|i: int| 0 <= i < name.len() ==> #[trigger] name[i] != '/',
    ensures
        parent_of(folder + seq!['/'] + name) == Some(folder),
{
    let p = folder + seq!['/'] + name;
    let n = folder.len() as int;
    assert(p.subrange(n, n + 1) =~= seq!['/']);
    assert forall|j: int| occurs_at(p, seq!['/'], j) implies j <= n by {
        assert(p.subrange(j, j + 1)[0] == p[j]);
        if j > n {
            assert(p[j] == name[j - n - 1]);
        }
    }
    lemma_last(p, seq!['/'], n);
    assert(p.take(n) =~= folder);
}

/// A thumbnail is one picture of the file, no larger than 400 by 400, written
/// over what is there. It is made the same way of a video, but for the seek of
/// one second, which stands before the file.
pub proof fn law_rendering(src: Seq<char>, thumb: Seq<char>)
    ensures
        ({
            let image = render_arguments(src, thumb, false);
            let video = render_arguments(src, thumb, true);
            &&& image.len() == 10
            &&& image[0] == "-y"@
            &&& image[1] == "-i"@ && image[2] == src
            &&& image[3] == "-vframes"@ && image[4] == "1"@
            &&& image[5] == "-vf"@ && image[6]
                == "scale=400:400:force_original_aspect_ratio=decrease"@
            &&& image[7] == "-q:v"@ && image[8] == "4"@
            &&& image[9] == thumb
            &&& video == image.take(1) + seq!["-ss"@, "1"@] + image.skip(1)
        }),
{
    let image = render_arguments(src, thumb, false);
    let video = render_arguments(src, thumb, true);
    assert(video =~= image.take(1) + seq!["-ss"@, "1"@] + image.skip(1));
}

/// Of which files the picture after one second is taken: those with the
/// extension of a video, in any case, and of no others, where the extension is
/// of ASCII characters.
pub proof fn law_videos_are_sought(base: Seq<char>, stem: Seq<char>, ext: Seq<char>)
    requires
        stem.len() > 0,
        forall|i: int| 0 <= i < stem.len() ==> #[trigger] stem[i] != '/',
        forall|i: int| 0 <= i < ext.len() ==> #[trigger] ext[i] != '/' && ext[i] != '.',
        ext.len() > 0,
        is_ascii_chars(ext),
    ensures
        ({
            let e = lowered(ext);
            is_video_ext(lowered(raw_ext(joined(base, stem + seq!['.'] + ext)))) <==> e == "mp4"@
                || e == "webm"@ || e == "mov"@ || e == "mkv"@ || e == "avi"@ || e == "m4v"@ || e
                == "3gp"@
        }),
{
    law_raw_extension(base, stem, ext, seq!['a']);
    law_kind_of_extension(lowered(ext));
}

/// What a request for a thumbnail asks for after each answer. One that is there
/// is sent; one that is not is made in its folder, read and sent. One that
/// cannot be made is not found, and one that was made and cannot be read is an
/// error of the server. What was answered stays, and what is no answer changes nothing.
pub proof fn law_course_of_a_thumbnail(phase: ThumbPhase, event: ThumbEvent)
    ensures
        ({
            let next = phase.next(event).action();
            match phase.action() {
                ThumbAction::Read => if event == ThumbEvent::Read(true) {
                    next == ThumbAction::Send(Status::Success)
                } else if event == ThumbEvent::Read(false) {
                    next == ThumbAction::CreateFolder || next == ThumbAction::Refuse(
                        Status::InternalServerError,
                    )
                } else {
                    next == ThumbAction::Read
                },
                ThumbAction::CreateFolder => next == if event is FolderTried {
                    ThumbAction::Render
                } else {
                    ThumbAction::CreateFolder
                },
                ThumbAction::Render => next == if event == ThumbEvent::Rendered(true) {
                    ThumbAction::Read
                } else if event == ThumbEvent::Rendered(false) {
                    ThumbAction::Refuse(Status::NotFound)
                } else {
                    ThumbAction::Render
                },
                ThumbAction::Send(_) => next == phase.action(),
                ThumbAction::Refuse(_) => next == phase.action(),
            }
        }),
{
}

/// A request begins with a look for the thumbnail, where the file lies within
/// the folder of its job, and is forbidden otherwise. A thumbnail that is not
/// there is made, and only one that was made and cannot be read is given up.
pub proof fn law_thumb_is_looked_for_and_made(
    download_dir: Seq<char>,
    id: Seq<char>,
    file_path: Seq<char>,
)
    ensures
        ({
            let request = ThumbRequestView::of(download_dir, id, file_path);
            let src = joined(joined(download_dir, id), file_path);
            &&& is_within(src, joined(download_dir, id)) ==> {
                &&& request.src == src
                &&& request.thumb == thumb_of(download_dir, id, file_path)
                &&& request.phase.action() == ThumbAction::Read
                &&& request.phase.next(ThumbEvent::Read(false)).action()
                    == ThumbAction::CreateFolder
                &&& request.phase.next(ThumbEvent::Read(false)).next(ThumbEvent::FolderTried).next(
                    ThumbEvent::Rendered(true),
                ).next(ThumbEvent::Read(false)).action() == ThumbAction::Refuse(
                    Status::InternalServerError,
                )
            }
            &&& !is_within(src, joined(download_dir, id)) ==> request.phase.action()
                == ThumbAction::Refuse(Status::Forbidden)
        }),
{
}

/// A thumbnail is sent as a picture that may be kept for good.
pub proof fn law_thumb_headers()
    ensures
        thumb_header_list().len() == 2,
        thumb_header_list()[0] == ("content-type"@, "image/jpeg"@),
        thumb_header_list()[1] == ("cache-control"@, "max-age=31536000, immutable"@),
{
}

} // verus!
