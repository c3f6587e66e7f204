//! Serving a downloaded file, or a part of it.

use vstd::prelude::*;
use vstd::string::*;
use vstd::utf8::is_ascii_chars;
use crate::media::{
    law_content_type, law_raw_extension, lower_ext, lowered, mime_for_ext, mime_of, raw_ext,
};
use crate::job::JobView;
use crate::number::{decimal, decimal_text};
use crate::path::{below, is_absolute, is_within, joined, law_join_within, path_join, path_within};
use crate::range::{header_chars, header_text, law_range_is_served, parse_range, range_of_header};
use crate::run::RunView;
use crate::status::Status;

verus! {

/// The folder of the job `id`.
pub open spec fn job_folder(download_dir: Seq<char>, id: Seq<char>) -> Seq<char> {
    joined(download_dir, id)
}

/// The file `file_path` of the job `id`, where it lies within the job's folder.
pub open spec fn located(
    download_dir: Seq<char>,
    id: Seq<char>,
    file_path: Seq<char>,
) -> Option<Seq<char>> {
    let base = job_folder(download_dir, id);
    let full = joined(base, file_path);
    if is_within(full, base) {
        Some(full)
    } else {
        None
    }
}

/// The file `file_path` of the job `id`, where it lies within the job's folder.
pub fn locate(download_dir: &str, id: &str, file_path: &str) -> (r: Option<String>)
    ensures
        r is Some <==> located(download_dir@, id@, file_path@) is Some,
        r matches Some(full) ==> located(download_dir@, id@, file_path@) == Some(full@),
{
    let base = path_join(download_dir, id);
    let full = path_join(base.as_str(), file_path);
    if path_within(full.as_str(), base.as_str()) {
        Some(full)
    } else {
        None
    }
}

/// A relative path is never refused, and is looked up below the job's folder.
pub proof fn law_relative_path_is_located(
    download_dir: Seq<char>,
    id: Seq<char>,
    file_path: Seq<char>,
)
    requires
        !is_absolute(file_path),
    ensures
        located(download_dir, id, file_path) == Some(
            joined(job_folder(download_dir, id), file_path),
        ),
{
    law_join_within(job_folder(download_dir, id), file_path);
}

/// An absolute path is refused unless it lies within the job's folder.
pub proof fn law_path_outside_is_refused(
    download_dir: Seq<char>,
    id: Seq<char>,
    file_path: Seq<char>,
)
    requires
        is_absolute(file_path),
    ensures
        located(download_dir, id, file_path) is Some <==> is_within(
            file_path,
            job_folder(download_dir, id),
        ),
{
}

/// A reply with `length` bytes of a file, from the byte `start` on.
#[derive(Debug)]
pub struct FileReply {
    pub status: Status,
    pub content_type: &'static str,
    pub content_range: Option<String>,
    pub content_length: String,
    pub start: u64,
    pub length: u64,
}

#[verifier::ext_equal]
pub struct FileReplyView {
    pub status: Status,
    pub content_type: Seq<char>,
    pub content_range: Option<Seq<char>>,
    pub content_length: Seq<char>,
    pub start: u64,
    pub length: u64,
}

impl View for FileReply {
    type V = FileReplyView;

    open spec fn view(&self) -> FileReplyView {
        FileReplyView {
            status: self.status,
            content_type: self.content_type@,
            content_range: match self.content_range {
                Some(s) => Some(s@),
                None => None,
            },
            content_length: self.content_length@,
            start: self.start,
            length: self.length,
        }
    }
}

/// The content range `bytes start-end/size`.
pub open spec fn content_range(start: u64, end: u64, size: u64) -> Seq<char> {
    "bytes "@ + decimal(start as nat) + "-"@ + decimal(end as nat) + "/"@ + decimal(size as nat)
}

/// The reply with a file of `size` bytes and the content type `mime`: the part
/// that `range` asks for, or else all of it.
pub open spec fn reply_of(mime: Seq<char>, size: u64, range: Option<Seq<u8>>) -> FileReplyView {
    match range_of_header(range, size) {
        Some((start, end)) => FileReplyView {
            status: Status::PartialContent,
            content_type: mime,
            content_range: Some(content_range(start, end, size)),
            content_length: decimal((end - start + 1) as nat),
            start,
            length: (end - start + 1) as u64,
        },
        None => FileReplyView {
            status: Status::Success,
            content_type: mime,
            content_range: None,
            content_length: decimal(size as nat),
            start: 0,
            length: size,
        },
    }
}

pub open spec fn bytes_view(range: Option<Vec<u8>>) -> Option<Seq<u8>> {
    match range {
        Some(v) => Some(v@),
        None => None,
    }
}

/// The reply with a file of `size` bytes whose extension, in lower case, is `ext`.
pub fn file_reply(ext: &str, size: u64, range: &Option<Vec<u8>>) -> (r: FileReply)
    ensures
        r@ == reply_of(mime_of(ext@), size, bytes_view(*range)),
{
    let content_type = mime_for_ext(ext);
    let asked: Option<(u64, u64)> = match range {
        Some(value) => match header_text(value.as_slice()) {
            Some(s) => parse_range(s.as_str(), size),
            None => None,
        },
        None => None,
    };
    match asked {
        Some((start, end)) => {
            let length: u64 = end - start + 1;
            let text = "bytes ".to_owned().concat(decimal_text(start).as_str()).concat("-").concat(
                decimal_text(end).as_str(),
            ).concat("/").concat(decimal_text(size).as_str());
            FileReply {
                status: Status::PartialContent,
                content_type,
                content_range: Some(text),
                content_length: decimal_text(length),
                start,
                length,
            }
        },
        None => FileReply {
            status: Status::Success,
            content_type,
            content_range: None,
            content_length: decimal_text(size),
            start: 0,
            length: size,
        },
    }
}

/// A header's name and value.
pub open spec fn header_views(s: Seq<(&'static str, String)>) -> Seq<(Seq<char>, Seq<char>)> {
    s.map_values(|h: (&'static str, String)| (h.0@, h.1@))
}

impl FileReplyView {
    /// The headers of the reply, in their order.
    pub open spec fn header_list(self) -> Seq<(Seq<char>, Seq<char>)> {
        match self.content_range {
            Some(range) => seq![
                ("content-type"@, self.content_type),
                ("content-range"@, range),
                ("content-length"@, self.content_length),
                ("accept-ranges"@, "bytes"@),
            ],
            None => seq![
                ("content-type"@, self.content_type),
                ("content-length"@, self.content_length),
                ("accept-ranges"@, "bytes"@),
            ],
        }
    }
}

impl FileReply {
    /// The headers of the reply, in their order.
    pub fn headers(&self) -> (r: Vec<(&'static str, String)>)
        ensures
            header_views(r@) == self@.header_list(),
    {
        let mut out: Vec<(&'static str, String)> = Vec::new();
        out.push(("content-type", self.content_type.to_owned()));
        match &self.content_range {
            Some(range) => {
                out.push(("content-range", range.clone()));
            },
            None => {},
        }
        out.push(("content-length", self.content_length.clone()));
        out.push(("accept-ranges", "bytes".to_owned()));
        assert(header_views(out@) =~= self@.header_list());
        out
    }
}

/// A reply sends bytes of the file only, as many as it says, and a part of it
/// exactly where a range is asked for that lies within the file.
pub proof fn law_reply_within_file(mime: Seq<char>, size: u64, range: Option<Seq<u8>>)
    ensures
        ({
            let r = reply_of(mime, size, range);
            &&& r.start + r.length <= size
            &&& r.content_length == decimal(r.length as nat)
            &&& r.status == Status::PartialContent <==> range_of_header(range, size) is Some
            &&& r.status == Status::PartialContent <==> r.content_range is Some
            &&& r.status == Status::PartialContent ==> r.length > 0
            &&& r.status != Status::PartialContent ==> r.status == Status::Success && r.start == 0
                && r.length == size
        }),
{
}

/// What has happened to a request.
pub enum FileEvent {
    /// The file was opened, or not.
    Opened(bool),
    /// The size of the file; none, where it could not be told.
    Measured(Option<u64>),
    /// The place in the file was found, or not.
    Sought(bool),
}

/// What is to be done next.
pub enum FileAction<'a> {
    /// Open the file.
    Open(&'a str),
    /// Ask for the size of the file.
    Measure,
    /// Go to a byte of the file.
    Seek(u64),
    /// Send the reply with the file.
    Send(&'a FileReply),
    /// Send no more than a status.
    Refuse(Status),
}

enum FilePhase {
    Open,
    Measure,
    Seek(FileReply),
    Send(FileReply),
    Refused(Status),
}

#[verifier::ext_equal]
pub enum FilePhaseView {
    Open,
    Measure,
    Seek(FileReplyView),
    Send(FileReplyView),
    Refused(Status),
}

impl FilePhase {
    spec fn view(self) -> FilePhaseView {
        match self {
            FilePhase::Open => FilePhaseView::Open,
            FilePhase::Measure => FilePhaseView::Measure,
            FilePhase::Seek(r) => FilePhaseView::Seek(r@),
            FilePhase::Send(r) => FilePhaseView::Send(r@),
            FilePhase::Refused(s) => FilePhaseView::Refused(s),
        }
    }
}

/// A request for a file.
pub struct FileRequest {
    full: String,
    range: Option<Vec<u8>>,
    phase: FilePhase,
}

#[verifier::ext_equal]
pub struct FileRequestView {
    pub full: Seq<char>,
    pub range: Option<Seq<u8>>,
    pub phase: FilePhaseView,
}

impl View for FileRequest {
    type V = FileRequestView;

    closed spec fn view(&self) -> FileRequestView {
        FileRequestView {
            full: self.full@,
            range: bytes_view(self.range),
            phase: self.phase.view(),
        }
    }
}

impl FileRequestView {
    /// The request for the file `file_path` of the job `id`.
    pub open spec fn of(
        download_dir: Seq<char>,
        id: Seq<char>,
        file_path: Seq<char>,
        range: Option<Seq<u8>>,
    ) -> FileRequestView {
        match located(download_dir, id, file_path) {
            Some(full) => FileRequestView { full, range, phase: FilePhaseView::Open },
            None => FileRequestView {
                full: Seq::empty(),
                range,
                phase: FilePhaseView::Refused(Status::Forbidden),
            },
        }
    }

    /// The request after `event`. The content type goes by the file's
    /// extension, in lower case. An event that does not answer the request's
    /// action leaves the request as it is.
    pub open spec fn after(self, event: FileEvent) -> FileRequestView {
        let mime = mime_of(lowered(raw_ext(self.full)));
        let phase = match (self.phase, event) {
            (FilePhaseView::Open, FileEvent::Opened(true)) => FilePhaseView::Measure,
            (FilePhaseView::Open, FileEvent::Opened(false)) => FilePhaseView::Refused(
                Status::NotFound,
            ),
            (FilePhaseView::Measure, FileEvent::Measured(Some(size))) => {
                let reply = reply_of(mime, size, self.range);
                if reply.status == Status::PartialContent {
                    FilePhaseView::Seek(reply)
                } else {
                    FilePhaseView::Send(reply)
                }
            },
            (FilePhaseView::Measure, FileEvent::Measured(None)) => FilePhaseView::Refused(
                Status::InternalServerError,
            ),
            (FilePhaseView::Seek(r), FileEvent::Sought(true)) => FilePhaseView::Send(r),
            (FilePhaseView::Seek(_), FileEvent::Sought(false)) => FilePhaseView::Refused(
                Status::InternalServerError,
            ),
            _ => self.phase,
        };
        FileRequestView { phase, ..self }
    }
}

/// `action` is what the request asks for.
pub open spec fn asks(request: FileRequestView, action: FileAction) -> bool {
    match (request.phase, action) {
        (FilePhaseView::Open, FileAction::Open(path)) => path@ == request.full,
        (FilePhaseView::Measure, FileAction::Measure) => true,
        (FilePhaseView::Seek(r), FileAction::Seek(start)) => start == r.start,
        (FilePhaseView::Send(r), FileAction::Send(reply)) => reply@ == r,
        (FilePhaseView::Refused(s), FileAction::Refuse(t)) => s == t,
        _ => false,
    }
}

impl FileRequest {
    /// The request for the file `file_path` of the job `id`, with the value of its range header.
    pub fn new(
        download_dir: &str,
        id: &str,
        file_path: &str,
        range: Option<Vec<u8>>,
    ) -> (r: FileRequest)
        ensures
            r@ == FileRequestView::of(download_dir@, id@, file_path@, bytes_view(range)),
    {
        match locate(download_dir, id, file_path) {
            Some(full) => FileRequest { full, range, phase: FilePhase::Open },
            None => FileRequest {
                full: String::new(),
                range,
                phase: FilePhase::Refused(Status::Forbidden),
            },
        }
    }

    /// What is to be done next.
    pub fn action(&self) -> (r: FileAction<'_>)
        ensures
            asks(self@, r),
    {
        match &self.phase {
            FilePhase::Open => FileAction::Open(self.full.as_str()),
            FilePhase::Measure => FileAction::Measure,
            FilePhase::Seek(r) => FileAction::Seek(r.start),
            FilePhase::Send(r) => FileAction::Send(r),
            FilePhase::Refused(s) => FileAction::Refuse(*s),
        }
    }

    /// Takes in `event`.
    pub fn step(&mut self, event: FileEvent)
        ensures
            final(self)@ == old(self)@.after(event),
    {
        let mut phase = FilePhase::Measure;
        std::mem::swap(&mut phase, &mut self.phase);
        self.phase = match (phase, event) {
            (FilePhase::Open, FileEvent::Opened(opened)) => if opened {
                FilePhase::Measure
            } else {
                FilePhase::Refused(Status::NotFound)
            },
            (FilePhase::Measure, FileEvent::Measured(size)) => match size {
                Some(size) => {
                    let ext = lower_ext(self.full.as_str());
                    let reply = file_reply(ext.as_str(), size, &self.range);
                    if reply.status == Status::PartialContent {
                        FilePhase::Seek(reply)
                    } else {
                        FilePhase::Send(reply)
                    }
                },
                None => FilePhase::Refused(Status::InternalServerError),
            },
            (FilePhase::Seek(reply), FileEvent::Sought(found)) => if found {
                FilePhase::Send(reply)
            } else {
                FilePhase::Refused(Status::InternalServerError)
            },
            (phase, _) => phase,
        };
    }
}

/// A request that was answered stays answered as it was.
pub proof fn law_answer_stays(request: FileRequestView, event: FileEvent)
    requires
        request.phase is Send || request.phase is Refused,
    ensures
        request.after(event) == request,
{
}

/// A part of a file can be had: of a file of `size` bytes that can be opened and
/// read from anywhere, a range header for the bytes `a` to `b` gets exactly these.
pub proof fn law_part_is_sent(request: FileRequestView, a: u64, b: u64, size: u64)
    requires
        request.phase == FilePhaseView::Open,
        request.range matches Some(bytes) && header_chars(bytes) == Some(
            "bytes="@ + decimal(a as nat) + "-"@ + decimal(b as nat),
        ),
        a <= b < size,
    ensures
        ({
            let measured = request.after(FileEvent::Opened(true)).after(
                FileEvent::Measured(Some(size)),
            );
            let sought = measured.after(FileEvent::Sought(true));
            &&& measured.phase matches FilePhaseView::Seek(r) && r.start == a
            &&& sought.phase matches FilePhaseView::Send(r) && {
                &&& r.status == Status::PartialContent
                &&& r.start == a
                &&& r.start + r.length == b + 1
                &&& r.content_range == Some(content_range(a, b, size))
            }
        }),
{
    law_range_is_served(a, b, size);
}

/// A file for which no range is asked for is sent whole.
pub proof fn law_whole_file_is_sent(request: FileRequestView, size: u64)
    requires
        request.phase == FilePhaseView::Open,
        request.range is None,
    ensures
        request.after(FileEvent::Opened(true)).after(
            FileEvent::Measured(Some(size)),
        ).phase matches FilePhaseView::Send(r) && r.status == Status::Success && r.start == 0
            && r.length == size,
{
}

/// The content type of a reply is that of the file, with and without a range.
pub proof fn law_reply_has_the_content_type(mime: Seq<char>, size: u64, range: Option<Seq<u8>>)
    ensures
        reply_of(mime, size, range).content_type == mime,
        reply_of(mime, size, range).header_list()[0] == ("content-type"@, mime),
{
}

/// What a reply says of the part that it sends: the first and the last byte of
/// it and the size of the file, and how many bytes it has.
pub proof fn law_reply_says_what_it_sends(mime: Seq<char>, size: u64, range: Option<Seq<u8>>)
    ensures
        ({
            let r = reply_of(mime, size, range);
            &&& r.content_range matches Some(text) ==> text == "bytes "@ + decimal(r.start as nat)
                + "-"@ + decimal((r.start + r.length - 1) as nat) + "/"@ + decimal(size as nat)
            &&& range_of_header(range, size) matches Some((a, b)) ==> r.start == a && r.length == b
                - a + 1
            &&& r.content_length == decimal(r.length as nat)
        }),
{
}

/// The headers of a reply: its type, the range where it is a part, its length,
/// and that ranges can be asked for.
pub proof fn law_headers(r: FileReplyView)
    ensures
        ({
            let h = r.header_list();
            &&& h[0] == ("content-type"@, r.content_type)
            &&& r.content_range matches Some(text) ==> h.len() == 4 && h[1] == (
                "content-range"@,
                text,
            )
            &&& r.content_range is None ==> h.len() == 3
            &&& h[h.len() - 2] == ("content-length"@, r.content_length)
            &&& h[h.len() - 1] == ("accept-ranges"@, "bytes"@)
        }),
{
}

/// What a request asks for next tells all that is to be done: which file to
/// open, where to go in it, what to send, and with which status to refuse.
pub proof fn law_action_fits(request: FileRequestView, action: FileAction)
    requires
        asks(request, action),
    ensures
        match request.phase {
            FilePhaseView::Open => action matches FileAction::Open(path) && path@ == request.full,
            FilePhaseView::Measure => action is Measure,
            FilePhaseView::Seek(r) => action == FileAction::Seek(r.start),
            FilePhaseView::Send(r) => action matches FileAction::Send(reply) && reply@ == r,
            FilePhaseView::Refused(status) => action == FileAction::Refuse(status),
        },
{
}

/// A request for a file within the folder of its job asks for that file; any
/// other is forbidden, whatever else happens.
pub proof fn law_request_is_for_the_file(
    download_dir: Seq<char>,
    id: Seq<char>,
    file_path: Seq<char>,
    range: Option<Seq<u8>>,
)
    ensures
        ({
            let request = FileRequestView::of(download_dir, id, file_path, range);
            let full = joined(joined(download_dir, id), file_path);
            &&& request.range == range
            &&& is_within(full, joined(download_dir, id)) ==> request.full == full && request.phase
                == FilePhaseView::Open
            &&& !is_within(full, joined(download_dir, id)) ==> request.phase
                == FilePhaseView::Refused(Status::Forbidden)
            &&& !(file_path.len() > 0 && file_path[0] == '/') ==> request.phase
                == FilePhaseView::Open
        }),
{
    if !(file_path.len() > 0 && file_path[0] == '/') {
        law_relative_path_is_located(download_dir, id, file_path);
    }
}

/// What goes wrong with a file is answered: one that cannot be opened is not
/// found, and one that cannot be measured or read from the place asked for is
/// an error of the server.
pub proof fn law_failures_are_answered(request: FileRequestView, size: u64)
    ensures
        request.phase == FilePhaseView::Open ==> request.after(FileEvent::Opened(false)).phase
            == FilePhaseView::Refused(Status::NotFound) && request.after(
            FileEvent::Opened(true),
        ).phase == FilePhaseView::Measure,
        request.phase == FilePhaseView::Measure ==> request.after(FileEvent::Measured(None)).phase
            == FilePhaseView::Refused(Status::InternalServerError),
        request.phase is Seek ==> request.after(FileEvent::Sought(false)).phase
            == FilePhaseView::Refused(Status::InternalServerError) && request.after(
            FileEvent::Sought(true),
        ).phase == FilePhaseView::Send(request.phase->Seek_0),
        request.phase == FilePhaseView::Measure ==> {
            let next = request.after(FileEvent::Measured(Some(size))).phase;
            &&& range_of_header(request.range, size) is Some ==> next is Seek
            &&& range_of_header(request.range, size) is None ==> next is Send
        },
{
}

/// A file is sent, whole or in part, with the content type that belongs to its
/// extension, in any case, where the extension is of ASCII characters.
pub proof fn law_file_is_sent_with_its_type(
    request: FileRequestView,
    base: Seq<char>,
    stem: Seq<char>,
    ext: Seq<char>,
    size: u64,
)
    requires
        request.phase == FilePhaseView::Measure,
        request.full == joined(base, stem + seq!['.'] + ext),
        stem.len() > 0,
        forall|i: int| 0 <= i < stem.len() ==> #[trigger] stem[i] != '/',
        forall|i: int| 0 <= i < ext.len() ==> #[trigger] ext[i] != '/' && ext[i] != '.',
        ext.len() > 0,
        is_ascii_chars(ext),
    ensures
        ({
            let next = request.after(FileEvent::Measured(Some(size))).phase;
            let r = match next {
                FilePhaseView::Seek(r) => r,
                FilePhaseView::Send(r) => r,
                _ => reply_of(Seq::empty(), 0, None),
            };
            &&& next is Seek || next is Send
            &&& r.content_type == mime_of(lowered(ext))
            &&& lowered(ext) == "mp4"@ ==> r.content_type == "video/mp4"@
            &&& lowered(ext) == "webm"@ ==> r.content_type == "video/webm"@
            &&& lowered(ext) == "jpg"@ ==> r.content_type == "image/jpeg"@
            &&& lowered(ext) == "png"@ ==> r.content_type == "image/png"@
        }),
{
    law_raw_extension(base, stem, ext, seq!['a']);
    law_content_type(lowered(ext));
}

/// A header's value, and headers, are seen as they are.
pub proof fn law_header_views(value: Vec<u8>, headers: Seq<(&'static str, String)>, i: int)
    ensures
        bytes_view(Some(value)) == Some(value@),
        bytes_view(None) is None,
        header_views(headers).len() == headers.len(),
        0 <= i < headers.len() ==> header_views(headers)[i] == (headers[i].0@, headers[i].1@),
{
}

/// What a run downloads is what is served: a file is looked up in the folder
/// that the job's program downloads to.
pub proof fn law_served_from_where_it_was_downloaded(
    job: JobView,
    download_dir: Seq<char>,
    file_path: Seq<char>,
)
    requires
        !(file_path.len() > 0 && file_path[0] == '/'),
    ensures
        located(download_dir, job.id, file_path) == Some(
            below(RunView::of(job, download_dir).dest, file_path),
        ),
{
    law_relative_path_is_located(download_dir, job.id, file_path);
}

} // verus!
