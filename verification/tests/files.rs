use fetch_server::range::{header_text, parse_range};
use fetch_server::serve::{file_reply, locate, FileAction, FileEvent, FileRequest};
use fetch_server::status::Status;
use fetch_server::thumbs::{
    render_args, thumb_headers, thumb_path, ThumbAction, ThumbEvent, ThumbRequest,
};

#[test]
fn ranges() {
    assert_eq!(parse_range("bytes=0-99", 1000), Some((0, 99)));
    assert_eq!(parse_range("bytes=500-", 1000), Some((500, 999)));
    assert_eq!(parse_range("bytes=999-999", 1000), Some((999, 999)));
    assert_eq!(parse_range("bytes= 1 - 2 ", 1000), Some((1, 2)));
    assert_eq!(parse_range("bytes=+1-+2", 1000), Some((1, 2)));
    assert_eq!(parse_range("bytes=5- ", 6), Some((5, 5)));
    let most = u64::MAX;
    assert_eq!(parse_range(&format!("bytes=0-{}", most - 1), most), Some((0, most - 1)));
}

#[test]
fn ranges_that_ask_for_nothing() {
    for s in [
        "", "bytes", "bytes=", "bytes=-", "bytes=-5", "bytes=5", "bytes=5-4", "bytes=0-1000",
        "bytes=1000-", "bytes=a-b", "bytes=0-1,2-3", "bytes=0-1-2", "items=0-1", " bytes=0-1",
        "Bytes=0-1", "bytes=0-99999999999999999999", "bytes=99999999999999999999-",
    ] {
        assert_eq!(parse_range(s, 1000), None, "{:?}", s);
    }
    assert_eq!(parse_range("bytes=0-", 0), None);
    assert_eq!(parse_range("bytes=0-0", 0), None);
}

#[test]
fn written_ranges_are_served() {
    for (a, b, size) in [(0, 0, 1), (3, 9, 10), (12, 345, 6789)] {
        assert_eq!(parse_range(&format!("bytes={a}-{b}"), size), Some((a, b)));
        assert_eq!(parse_range(&format!("bytes={a}-"), size), Some((a, size - 1)));
        assert_eq!(parse_range(&format!("bytes={size}-"), size), None);
        assert_eq!(parse_range(&format!("bytes={a}-{size}"), size), None);
        assert_eq!(parse_range(&format!("bytes={}-{b}", b + 1), size), None);
    }
}

#[test]
fn header_values_agree_with_http() {
    for b in 0..=255u8 {
        let value = [b'x', b];
        let ours = header_text(&value);
        match axum::http::HeaderValue::from_bytes(&value) {
            Ok(v) => assert_eq!(ours.as_deref(), v.to_str().ok(), "{}", b),
            Err(_) => assert_eq!(ours, None, "{}", b),
        }
    }
    assert_eq!(header_text(b"").as_deref(), Some(""));
    assert_eq!(header_text(b"bytes=0-\t9").as_deref(), Some("bytes=0-\t9"));
}

#[test]
fn files_lie_within_the_folder_of_their_job() {
    assert_eq!(locate("/d", "1", "a/b.jpg").as_deref(), Some("/d/1/a/b.jpg"));
    assert_eq!(locate("/d/", "1", "a").as_deref(), Some("/d/1/a"));
    assert_eq!(locate("/d", "1", "../x").as_deref(), Some("/d/1/../x"));
    assert_eq!(locate("/d", "1", "/etc/passwd"), None);
    assert_eq!(locate("/d", "1", "/d/1/a").as_deref(), Some("/d/1/a"));
    assert_eq!(locate("/d", "1", "/d/10/a"), None);
}

#[test]
fn a_reply_with_a_part() {
    let r = file_reply("mp4", 1000, &Some(b"bytes=10-19".to_vec()));
    assert_eq!(r.status, Status::PartialContent);
    assert_eq!((r.start, r.length), (10, 10));
    assert_eq!(
        r.headers(),
        [
            ("content-type", "video/mp4".to_string()),
            ("content-range", "bytes 10-19/1000".to_string()),
            ("content-length", "10".to_string()),
            ("accept-ranges", "bytes".to_string()),
        ]
    );
}

#[test]
fn a_reply_with_the_whole() {
    for range in [None, Some(b"bytes=10-2000".to_vec()), Some(b"bytes=1-\x80".to_vec())] {
        let r = file_reply("txt", 1000, &range);
        assert_eq!(r.status, Status::Success);
        assert_eq!((r.start, r.length), (0, 1000));
        assert_eq!(
            r.headers(),
            [
                ("content-type", "application/octet-stream".to_string()),
                ("content-length", "1000".to_string()),
                ("accept-ranges", "bytes".to_string()),
            ]
        );
    }
}

#[test]
fn a_request_for_a_part() {
    let mut q = FileRequest::new("/d", "1", "a.MP4", Some(b"bytes=5-".to_vec()));
    assert!(matches!(q.action(), FileAction::Open("/d/1/a.MP4")));
    q.step(FileEvent::Opened(true));
    assert!(matches!(q.action(), FileAction::Measure));
    q.step(FileEvent::Sought(true));
    assert!(matches!(q.action(), FileAction::Measure));
    q.step(FileEvent::Measured(Some(20)));
    assert!(matches!(q.action(), FileAction::Seek(5)));
    q.step(FileEvent::Sought(true));
    match q.action() {
        FileAction::Send(r) => {
            assert_eq!(r.content_type, "video/mp4");
            assert_eq!((r.start, r.length), (5, 15));
            assert_eq!(r.content_range.as_deref(), Some("bytes 5-19/20"));
        }
        _ => panic!("no reply"),
    }
    q.step(FileEvent::Opened(false));
    assert!(matches!(q.action(), FileAction::Send(_)));
}

#[test]
fn a_request_for_the_whole() {
    let mut q = FileRequest::new("/d", "1", "a.png", None);
    q.step(FileEvent::Opened(true));
    q.step(FileEvent::Measured(Some(20)));
    assert!(matches!(q.action(), FileAction::Send(r) if r.length == 20 && r.content_type == "image/png"));
}

#[test]
fn requests_that_are_refused() {
    let q = FileRequest::new("/d", "1", "/etc/passwd", None);
    assert!(matches!(q.action(), FileAction::Refuse(Status::Forbidden)));
    let mut q = FileRequest::new("/d", "1", "a", None);
    q.step(FileEvent::Opened(false));
    assert!(matches!(q.action(), FileAction::Refuse(Status::NotFound)));
    q.step(FileEvent::Opened(true));
    assert!(matches!(q.action(), FileAction::Refuse(Status::NotFound)));
    let mut q = FileRequest::new("/d", "1", "a", None);
    q.step(FileEvent::Opened(true));
    q.step(FileEvent::Measured(None));
    assert!(matches!(q.action(), FileAction::Refuse(Status::InternalServerError)));
    let mut q = FileRequest::new("/d", "1", "a", Some(b"bytes=0-0".to_vec()));
    q.step(FileEvent::Opened(true));
    q.step(FileEvent::Measured(Some(1)));
    q.step(FileEvent::Sought(false));
    assert!(matches!(q.action(), FileAction::Refuse(Status::InternalServerError)));
}

#[test]
fn where_thumbnails_are_kept() {
    assert_eq!(thumb_path("/d", "1", "a/b.mp4"), "/d/1/.thumbs/a/b.mp4.jpg");
    assert_eq!(thumb_path("/d", "1", "a/b.png"), "/d/1/.thumbs/a/b.png.jpg");
    let q = ThumbRequest::new("/d", "1", "a/b.mp4");
    assert_eq!(q.thumb(), "/d/1/.thumbs/a/b.mp4.jpg");
    assert_eq!(q.folder().as_deref(), Some("/d/1/.thumbs/a"));
}

#[test]
fn how_thumbnails_are_made() {
    let tail = [
        "-i", "s", "-vframes", "1", "-vf", "scale=400:400:force_original_aspect_ratio=decrease",
        "-q:v", "4", "t",
    ];
    assert_eq!(render_args("s", "t", false), [&["-y"][..], &tail[..]].concat());
    assert_eq!(render_args("s", "t", true), [&["-y", "-ss", "1"][..], &tail[..]].concat());
    let video = ThumbRequest::new("/d", "1", "b.MOV");
    assert_eq!(video.args(), render_args("/d/1/b.MOV", "/d/1/.thumbs/b.MOV.jpg", true));
    assert_eq!(video.program(), "ffmpeg");
    let image = ThumbRequest::new("/d", "1", "b.png");
    assert_eq!(image.args(), render_args("/d/1/b.png", "/d/1/.thumbs/b.png.jpg", false));
}

#[test]
fn a_thumbnail_that_is_kept() {
    let mut q = ThumbRequest::new("/d", "1", "a.png");
    assert_eq!(q.action(), ThumbAction::Read);
    q.step(ThumbEvent::Read(true));
    assert_eq!(q.action(), ThumbAction::Send(Status::Success));
    q.step(ThumbEvent::Read(false));
    assert_eq!(q.action(), ThumbAction::Send(Status::Success));
}

#[test]
fn a_thumbnail_that_is_made() {
    let mut q = ThumbRequest::new("/d", "1", "a.png");
    q.step(ThumbEvent::Read(false));
    assert_eq!(q.action(), ThumbAction::CreateFolder);
    q.step(ThumbEvent::FolderTried);
    assert_eq!(q.action(), ThumbAction::Render);
    q.step(ThumbEvent::Rendered(true));
    assert_eq!(q.action(), ThumbAction::Read);
    q.step(ThumbEvent::Read(true));
    assert_eq!(q.action(), ThumbAction::Send(Status::Success));
    assert_eq!(
        thumb_headers(),
        [
            ("content-type", "image/jpeg".to_string()),
            ("cache-control", "max-age=31536000, immutable".to_string()),
        ]
    );
}

#[test]
fn thumbnails_that_are_refused() {
    let q = ThumbRequest::new("/d", "1", "/etc/passwd");
    assert_eq!(q.action(), ThumbAction::Refuse(Status::Forbidden));
    let mut q = ThumbRequest::new("/d", "1", "a.png");
    q.step(ThumbEvent::Read(false));
    q.step(ThumbEvent::FolderTried);
    q.step(ThumbEvent::Rendered(false));
    assert_eq!(q.action(), ThumbAction::Refuse(Status::NotFound));
    let mut q = ThumbRequest::new("/d", "1", "a.png");
    q.step(ThumbEvent::Read(false));
    q.step(ThumbEvent::FolderTried);
    q.step(ThumbEvent::Rendered(true));
    q.step(ThumbEvent::Read(false));
    assert_eq!(q.action(), ThumbAction::Refuse(Status::InternalServerError));
}
